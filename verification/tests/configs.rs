use basket_grid_engine::models::config::{
    default_agent_name, default_grid_depth, default_grid_distance, default_max_basket_hits,
    AgentConfig, Exchange,
};

#[test]
fn defaults_of_a_configuration() {
    assert_eq!(default_grid_depth(), 5);
    assert_eq!(default_grid_distance(), 200_000_000_000);
    assert_eq!(default_max_basket_hits(), 5);
    assert_eq!(default_agent_name(), "Agent");
}

#[test]
fn the_demo_agent() {
    let c = AgentConfig::default_demo();
    assert_eq!(c.name, "Demo Agent");
    assert_eq!(c.trading.exchange, Exchange::Mock);
    assert_eq!(c.trading.per_step_qty, 1_000_000);
    assert_eq!(c.basket.num_baskets, 6);
    assert_eq!(c.kill_switch.max_position_cap, 50_000_000);
    assert_eq!(c.slicing.max_slice_attempts, 10);
    assert_eq!(c.basket.max_exposure(), 30_000_000);
    let d = c.clone();
    assert_eq!(d.trading.token, "BTC-USDT");
    assert_eq!(d.trading.tp_spread, c.trading.tp_spread);
}
