use basket_grid_engine::engines::basket_manager::BasketManager;
use basket_grid_engine::engines::risk::RiskEngine;
use basket_grid_engine::models::config::{BasketConfig, KillSwitchConfig};

const UNIT: i64 = 100_000_000;

fn u(x: i64) -> i64 {
    x * UNIT
}

fn limits(cap: i64, coins: i64, loss: i64) -> KillSwitchConfig {
    KillSwitchConfig {
        max_position_cap: cap,
        max_position_cap_coins: coins,
        max_daily_loss: loss,
        api_disconnect_protection: true,
        max_basket_hits: 5,
    }
}

#[test]
fn everything_within_limits_is_healthy() {
    let r = RiskEngine::new(limits(u(10), 0, u(100)), false);
    let s = r.judge(u(10), u(-100), u(50));
    assert!(s.healthy());
    assert_eq!(s.breach_reason, None);
}

#[test]
fn too_much_exposure_is_a_breach() {
    let r = RiskEngine::new(limits(u(10), 0, u(100)), false);
    let s = r.judge(u(10) + 1_000_000, 0, u(50));
    assert!(!s.healthy());
    assert!(!s.max_exposure_ok);
    assert_eq!(
        s.breach_reason,
        Some("exposure 10.0100 > max_position_cap (10.0000)".to_string())
    );
}

#[test]
fn a_cap_in_coins_is_priced_on_inverse_venues() {
    let r = RiskEngine::new(limits(u(1), u(2), u(100)), true);
    assert_eq!(r.effective_cap(u(50)), u(100));
    assert_eq!(r.effective_cap(0), u(1));
    let s = r.judge(u(101), 0, u(50));
    assert_eq!(
        s.breach_reason,
        Some(
            "exposure 101.0000 > max_position_cap (2.0000 coins × 50.00 = 100.0000)".to_string()
        )
    );
    let linear = RiskEngine::new(limits(u(1), u(2), u(100)), false);
    assert_eq!(linear.effective_cap(u(50)), u(2));
}

#[test]
fn a_loss_beyond_the_limit_is_a_breach() {
    let r = RiskEngine::new(limits(u(10), 0, u(100)), false);
    let s = r.judge(0, u(-100) - 1, u(50));
    assert!(!s.daily_loss_ok);
    assert_eq!(
        s.breach_reason,
        Some("daily loss 100.00 > max_daily_loss 100.00".to_string())
    );
}

#[test]
fn a_lost_connection_is_a_breach() {
    let mut r = RiskEngine::new(limits(u(10), 0, u(100)), false);
    r.api_connected = false;
    let s = r.judge(0, 0, u(50));
    assert_eq!(s.breach_reason, Some("API disconnect".to_string()));
    assert!(!s.healthy());
    // Exposure comes first.
    assert!(r.judge(u(11), 0, 0).breach_reason.unwrap().starts_with("exposure"));
}

#[test]
fn baskets_are_assessed_as_they_stand() {
    let config = BasketConfig { num_baskets: 1, basket_size_qty: u(100), basket_sl_distance: 0 };
    let mut m = BasketManager::with_ids(config, &vec![100], false, u(5));
    let r = RiskEngine::new(limits(u(10), 0, u(100)), false);
    assert!(r.assess(&m, u(1)).healthy());
    let mut b = m.get(100).unwrap();
    b.apply_entry_fill(u(11), u(1));
    m.put(b);
    assert!(!r.assess(&m, u(1)).healthy());
}
