use basket_grid_engine::engines::basket_manager::BasketManager;
use basket_grid_engine::engines::kill_switch::KillSwitch;
use basket_grid_engine::models::basket::{BasketStatus, ExitOrder};
use basket_grid_engine::models::config::BasketConfig;
use basket_grid_engine::models::order::{OrderPurpose, Side};

const UNIT: i64 = 100_000_000;

fn u(x: i64) -> i64 {
    x * UNIT
}

fn positions() -> BasketManager {
    let config = BasketConfig { num_baskets: 3, basket_size_qty: u(10), basket_sl_distance: 0 };
    let mut m = BasketManager::with_ids(config, &vec![100, 101, 102], false, u(5));
    let mut long = m.get(100).unwrap();
    long.apply_entry_fill(u(2), u(50));
    m.put(long);
    let mut short = m.get(101).unwrap();
    short.apply_entry_fill(u(3), u(50));
    m.put(short);
    m
}

fn exit(basket_id: u128, side: Side, qty: i64, index: u32) -> ExitOrder {
    ExitOrder { basket_id, index, side, qty, purpose: OrderPurpose::KillSwitchExit }
}

#[test]
fn a_trip_closes_every_position_in_its_direction() {
    let m = positions();
    let mut k = KillSwitch::new();
    assert!(k.trip("why".to_string()));
    let mut exits = k.exits(&m);
    exits.sort_by_key(|e| e.index);
    assert_eq!(
        exits,
        vec![
            exit(100, Side::Sell, u(2), 0),
            exit(101, Side::Buy, u(3), 1),
        ]
    );
    assert!(k.is_tripped());
    assert_eq!(k.reason(), Some("why".to_string()));
}

#[test]
fn a_second_trip_does_nothing() {
    let mut k = KillSwitch::new();
    assert!(k.trip("first".to_string()));
    assert!(!k.trip("second".to_string()));
    assert!(k.is_tripped());
    assert_eq!(k.reason(), Some("first".to_string()));
}

#[test]
fn exits_are_booked_and_everything_is_killed() {
    let mut m = positions();
    let mut k = KillSwitch::new();
    assert!(k.trip("why".to_string()));
    for e in &k.exits(&m) {
        // The short's exit fails.
        let price = if e.basket_id == 100 { Some(u(60)) } else { None };
        k.settle(&mut m, e.basket_id, price);
    }
    k.settle(&mut m, 999, Some(u(1)));
    k.finish(&mut m);
    assert!(m.all_killed());
    assert_eq!(m.get(100).unwrap().realized_pnl, u(20));
    assert_eq!(m.get(101).unwrap().realized_pnl, 0);
    assert_eq!(m.get(101).unwrap().open_qty, 0);
    assert_eq!(m.get(102).unwrap().status, BasketStatus::Killed);
    assert_eq!(m.total_open_qty(), 0);
    assert_eq!(m.len(), 3);
}

#[test]
fn a_reset_readies_the_switch() {
    let mut k = KillSwitch::new();
    assert!(!k.is_tripped());
    assert_eq!(k.reason(), None);
    k.trip("why".to_string());
    k.manual_reset();
    assert!(!k.is_tripped());
    assert_eq!(k.reason(), None);
    assert!(k.trip("again".to_string()));
}
