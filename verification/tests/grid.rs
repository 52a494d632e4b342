use basket_grid_engine::engines::basket_manager::BasketManager;
use basket_grid_engine::engines::grid::{GridEngine, GridStep};
use basket_grid_engine::models::basket::BasketSide;
use basket_grid_engine::models::config::{AgentConfig, BasketConfig, TradingConfig};
use basket_grid_engine::models::order::{Order, OrderPurpose, OrderStatus, OrderType, Side};

const UNIT: i64 = 100_000_000;

fn u(x: i64) -> i64 {
    x * UNIT
}

fn trading() -> TradingConfig {
    let mut t = AgentConfig::default_demo().trading;
    t.grid_step = u(2);
    t.grid_depth = 3;
    t.per_step_qty = u(1);
    t.tp_spread = 250_000_000;
    t
}

fn grid() -> GridEngine {
    GridEngine::new(trading(), u(100))
}

// A long basket 100 and a short basket 101, each with room for ten.
fn manager() -> BasketManager {
    let config = BasketConfig { num_baskets: 2, basket_size_qty: u(10), basket_sl_distance: 0 };
    BasketManager::with_ids(config, &vec![100, 101], false, 250_000_000)
}

fn order(id: u128, side: Side, purpose: OrderPurpose, price: i64) -> Order {
    Order {
        order_id: id,
        basket_id: 100,
        side,
        order_type: OrderType::LimitMaker,
        purpose,
        price,
        qty: u(1),
        filled_qty: 0,
        status: OrderStatus::Open,
        created_at: 0,
    }
}

fn run(g: &GridEngine, m: &mut BasketManager, open: &Vec<Order>, mid: i64) -> Vec<(Side, i64)> {
    let mut pass = g.step(m, open, mid, mid, u(1000)).unwrap();
    let mut placed = Vec::new();
    let mut id: u128 = 1;
    loop {
        match pass.next(m) {
            GridStep::Place { side, price, qty, basket_id } => {
                assert_eq!(qty, u(1));
                assert_eq!(basket_id, if side == Side::Sell { 101 } else { 100 });
                pass.placed(m, side, id, basket_id);
                assert_eq!(m.basket_for_order(id), Some(basket_id));
                placed.push((side, price));
                id += 1;
            }
            GridStep::Done => return placed,
        }
    }
}

#[test]
fn a_fresh_grid_surrounds_mid() {
    // Mid 2011, zone of 1.25 either way: 2012.25 and 2009.75, moved outward
    // to half units.
    let placed = run(&grid(), &mut manager(), &Vec::new(), u(2011));
    let half = UNIT / 2;
    assert_eq!(
        placed,
        vec![
            (Side::Sell, u(2012) + half),
            (Side::Sell, u(2014) + half),
            (Side::Sell, u(2016) + half),
            (Side::Buy, u(2009) + half),
            (Side::Buy, u(2007) + half),
            (Side::Buy, u(2005) + half),
        ]
    );
}

#[test]
fn a_new_manager_feeds_both_sides() {
    let config = BasketConfig { num_baskets: 6, basket_size_qty: u(10), basket_sl_distance: 0 };
    let m = BasketManager::new(config, false, 250_000_000);
    let mut pass = grid().step(&m, &Vec::new(), u(2011), u(2011), u(5000)).unwrap();
    let mut nearest = (i64::MAX, 0);
    while let GridStep::Place { side, price, basket_id, .. } = pass.next(&m) {
        let basket = m.get(basket_id).unwrap();
        if side == Side::Sell {
            assert_eq!((basket.side, basket.index), (BasketSide::Short, 1));
            nearest.0 = nearest.0.min(price);
        } else {
            assert_eq!((basket.side, basket.index), (BasketSide::Long, 0));
            nearest.1 = nearest.1.max(price);
        }
    }
    assert_eq!(nearest, (u(2012) + UNIT / 2, u(2009) + UNIT / 2));
}

#[test]
fn resting_orders_use_up_the_depth_and_their_levels() {
    let half = UNIT / 2;
    let open = vec![
        order(50, Side::Sell, OrderPurpose::TakeProfit, u(2012) + half),
        order(51, Side::Buy, OrderPurpose::Entry, u(2009) + half),
        order(52, Side::Buy, OrderPurpose::Entry, u(2007) + half),
        order(53, Side::Buy, OrderPurpose::Entry, u(2000)),
    ];
    let placed = run(&grid(), &mut manager(), &open, u(2011));
    assert_eq!(placed, vec![(Side::Sell, u(2014) + half), (Side::Sell, u(2016) + half)]);
}

#[test]
fn the_cycle_bounds_the_grid() {
    let g = grid();
    let m = manager();
    let mut pass = g.step(&m, &Vec::new(), u(2011), u(2011), u(2)).unwrap();
    let mut prices = Vec::new();
    while let GridStep::Place { price, .. } = pass.next(&m) {
        prices.push(price);
    }
    assert_eq!(prices, vec![u(2012) + UNIT / 2, u(2009) + UNIT / 2]);
}

#[test]
fn a_failed_placement_moves_on_to_the_next_level() {
    let g = grid();
    let m = manager();
    let mut pass = g.step(&m, &Vec::new(), u(2011), u(2011), u(1000)).unwrap();
    let mut sells = 0;
    let mut last = 0;
    while let GridStep::Place { side, price, .. } = pass.next(&m) {
        if side == Side::Sell {
            assert!(price > last);
            last = price;
            sells += 1;
        }
    }
    // Nothing was placed, so every level was tried once.
    assert_eq!(sells, 21);
    assert_eq!(pass.next(&m), GridStep::Done);
}

#[test]
fn without_room_a_side_ends() {
    let g = grid();
    let mut m = manager();
    let mut full = m.get(101).unwrap();
    full.apply_entry_fill(u(10), u(1));
    m.put(full);
    let placed = run(&g, &mut m, &Vec::new(), u(2011));
    assert!(placed.iter().all(|p| p.0 == Side::Buy));
    assert_eq!(placed.len(), 3);
}

#[test]
fn the_exposure_cap_stops_the_grid() {
    let g = GridEngine::new(trading(), u(5));
    let mut m = manager();
    let mut b = m.get(100).unwrap();
    b.apply_entry_fill(u(5), u(1));
    m.put(b);
    assert!(g.step(&m, &Vec::new(), u(2011), u(2011), u(1000)).is_none());
}

#[test]
fn crossed_entries_and_far_targets_are_stale() {
    let g = grid();
    let open = vec![
        order(1, Side::Sell, OrderPurpose::Entry, u(100)),
        order(2, Side::Sell, OrderPurpose::Entry, u(100) + 101),
        order(3, Side::Buy, OrderPurpose::Entry, u(100) - 100),
        order(4, Side::Buy, OrderPurpose::Entry, u(100) - 101),
        // Three steps of two are six.
        order(5, Side::Sell, OrderPurpose::TakeProfit, u(106)),
        order(6, Side::Sell, OrderPurpose::TakeProfit, u(106) + 1),
        order(7, Side::Buy, OrderPurpose::TakeProfit, u(94)),
        order(8, Side::Buy, OrderPurpose::TakeProfit, u(94) - 1),
        order(9, Side::Buy, OrderPurpose::KillSwitchExit, u(110)),
        order(10, Side::Sell, OrderPurpose::StopLossExit, u(10)),
    ];
    assert_eq!(g.stale(&open, u(100)), vec![1, 3, 6, 8]);
}

#[test]
fn a_grid_needs_baskets_an_anchor_and_a_price() {
    let mut g = grid();
    let mut m = manager();
    assert!(g.armed(&m, u(1), u(1)));
    assert!(!g.armed(&m, 0, u(1)));
    assert!(!g.armed(&m, u(1), 0));
    assert!(g.priced(u(1)));
    assert!(!g.priced(0));
    let none = Vec::new();
    assert!(g.step(&m, &none, u(1), u(1), u(1)).is_some());
    assert!(g.step(&m, &none, u(1), 0, u(1)).is_none());
    assert!(g.step(&m, &none, u(1), u(1), 0).is_none());
    assert!(g.step(&m, &none, 0, u(1), u(1)).is_none());
    g.trading.grid_step = 0;
    assert!(!g.priced(u(1)));
    assert!(g.step(&m, &none, u(1), u(1), u(1)).is_none());
    g.trading.grid_step = u(2);
    m.mark_all_killed();
    assert!(!g.armed(&m, u(1), u(1)));
    assert!(g.step(&m, &none, u(1), u(1), u(1)).is_none());
}

#[test]
fn the_summary_is_logged_when_it_changes() {
    let mut g = grid();
    let open = vec![
        order(1, Side::Sell, OrderPurpose::Entry, u(110)),
        order(2, Side::Sell, OrderPurpose::TakeProfit, u(120)),
        order(3, Side::Buy, OrderPurpose::Entry, u(90)),
        order(4, Side::Buy, OrderPurpose::Entry, u(100)),
    ];
    g.note_grid_summary(&open, u(100));
    g.note_grid_summary(&open, u(100));
    assert_eq!(
        g.take_pending_log(),
        vec!["Grid: 2 above + 1 below = 3 (3 entries, 1 targets)".to_string()]
    );
    assert!(g.take_pending_log().is_empty());
    g.note_grid_summary(&Vec::new(), u(100));
    assert_eq!(g.take_pending_log().len(), 1);
}

#[test]
fn first_levels_keep_the_spread() {
    let g = grid();
    let m = manager();
    for mid in [u(2011), u(2011) + 1, u(2011) + 24_999_999, u(7) + 3] {
        let l = g.step(&m, &Vec::new(), mid, mid, u(1)).unwrap().levels;
        assert!(l.base_sell - l.base_buy >= 250_000_000);
        assert!(l.base_sell >= mid + l.half_spread);
        assert!(l.base_buy <= mid - l.half_spread);
        assert_eq!(l.base_sell % (UNIT / 2), 0);
    }
}
