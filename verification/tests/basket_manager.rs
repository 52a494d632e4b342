use basket_grid_engine::engines::basket_manager::{BasketManager, Choice};
use basket_grid_engine::models::basket::{BasketSide, BasketStatus};
use basket_grid_engine::models::config::BasketConfig;
use basket_grid_engine::models::order::Side;

const UNIT: i64 = 100_000_000;

fn u(x: i64) -> i64 {
    x * UNIT
}

fn manager(n: usize) -> BasketManager {
    let config = BasketConfig {
        num_baskets: n as u32,
        basket_size_qty: u(10),
        basket_sl_distance: 0,
    };
    let ids: Vec<u128> = (0..n).map(|i| 100 + i as u128).collect();
    BasketManager::with_ids(config, &ids, false, u(5))
}

fn kill(m: &mut BasketManager, id: u128) {
    let mut b = m.get(id).unwrap();
    b.kill(0);
    m.put(b);
}

#[test]
fn a_manager_seeds_its_baskets() {
    let config = BasketConfig { num_baskets: 4, basket_size_qty: u(3), basket_sl_distance: 0 };
    let m = BasketManager::new(config, true, u(2));
    let all = m.all();
    assert_eq!(all.len(), 4);
    for (i, b) in all.iter().enumerate() {
        assert_eq!(b.index, i as u32);
        assert_eq!(b.side, if i % 2 == 0 { BasketSide::Long } else { BasketSide::Short });
        assert_eq!(b.max_qty, u(3));
        assert_eq!(b.status, BasketStatus::Idle);
        assert!(b.is_inverse);
    }
    assert_eq!(m.active_id(), None);
    assert!(!m.all_killed());
}

#[test]
fn half_of_the_baskets_are_long_and_half_short() {
    for (n, longs, shorts) in [(0, 0, 0), (1, 1, 0), (2, 1, 1), (6, 3, 3), (7, 4, 3)] {
        let config =
            BasketConfig { num_baskets: n, basket_size_qty: UNIT / 2, basket_sl_distance: 0 };
        let all = BasketManager::new(config, false, u(1)).all();
        assert_eq!(all.iter().filter(|b| b.side == BasketSide::Long).count(), longs);
        assert_eq!(all.iter().filter(|b| b.side == BasketSide::Short).count(), shorts);
    }
}

#[test]
fn counts_partition_the_baskets() {
    let mut m = manager(3);
    kill(&mut m, 101);
    assert_eq!(m.len(), 3);
    assert_eq!(m.killed_count(), 1);
    assert_eq!(m.active_count(), 2);
}

#[test]
fn the_lowest_living_basket_is_next() {
    let mut m = manager(3);
    assert_eq!(m.activate_next_idle(), Some(100));
    assert_eq!(m.active_id(), Some(100));
    kill(&mut m, 100);
    assert_eq!(m.active_id(), None);
    assert_eq!(m.activate_next_idle(), Some(101));
    kill(&mut m, 101);
    kill(&mut m, 102);
    assert_eq!(m.activate_next_idle(), None);
    assert!(m.all_killed());
}

#[test]
fn entries_stay_with_the_active_basket_while_it_has_room() {
    let mut m = manager(2);
    assert_eq!(m.find_basket_with_capacity(u(4), Side::Buy), Some(100));
    let mut b = m.get(100).unwrap();
    b.apply_entry_fill(u(8), u(1));
    m.put(b);
    assert_eq!(m.find_basket_with_capacity(u(2), Side::Sell), Some(100));
    // The active basket has no room left, so the next one is promoted.
    assert_eq!(m.find_basket_with_capacity(u(4), Side::Buy), Some(101));
    assert_eq!(m.active_id(), Some(101));
    // It keeps the entries while it has room, though the first one has some.
    assert_eq!(m.find_basket_with_capacity(u(2), Side::Buy), Some(101));
    kill(&mut m, 101);
    assert_eq!(m.find_basket_with_capacity(u(2), Side::Buy), Some(100));
    // No basket has room.
    assert_eq!(m.find_basket_with_capacity(u(4), Side::Buy), None);
    assert_eq!(m.active_id(), Some(100));
    kill(&mut m, 100);
    assert_eq!(m.find_basket_with_capacity(0, Side::Buy), None);
    assert_eq!(m.active_id(), None);
}

#[test]
fn a_full_basket_gives_way_to_the_next() {
    let config = BasketConfig { num_baskets: 2, basket_size_qty: u(1), basket_sl_distance: 0 };
    let mut m = BasketManager::new(config, false, u(1));
    let first = m.activate_next_idle().unwrap();
    let mut b = m.get(first).unwrap();
    b.apply_entry_fill(u(1), u(100));
    m.put(b);
    let next = m.find_basket_with_capacity(u(1), Side::Buy).unwrap();
    assert_eq!(m.get(next).unwrap().index, 1);
    assert_eq!(m.active_id(), Some(next));
}

#[test]
fn baskets_are_picked_by_side_and_room() {
    let mut m = manager(3);
    assert_eq!(m.find_basket_with_capacity_by_side(BasketSide::Long, u(1)), Some(100));
    assert_eq!(m.find_basket_with_capacity_by_side(BasketSide::Short, u(1)), Some(101));
    assert_eq!(m.find_basket_with_capacity_by_side(BasketSide::Short, u(11)), None);
    kill(&mut m, 100);
    assert_eq!(m.find_basket_with_capacity_by_side(BasketSide::Long, u(1)), Some(102));
    kill(&mut m, 101);
    assert_eq!(m.find_basket_with_capacity_by_side(BasketSide::Short, u(1)), None);
}

#[test]
fn orders_are_linked_to_baskets() {
    let mut m = manager(1);
    assert_eq!(m.basket_for_order(9), None);
    m.link_order(9, 100);
    assert_eq!(m.basket_for_order(9), Some(100));
    m.link_order(9, 55);
    assert_eq!(m.basket_for_order(9), Some(55));
}

#[test]
fn sums_run_over_all_baskets() {
    let mut m = manager(3);
    let mut a = m.get(100).unwrap();
    a.apply_entry_fill(u(3), u(10));
    a.apply_tp_fill(u(1), u(15));
    m.put(a);
    let mut b = m.get(101).unwrap();
    b.apply_entry_fill(u(7), u(10));
    m.put(b);
    assert_eq!(m.total_open_qty(), u(9));
    assert_eq!(m.total_realized_pnl(), u(5));
    assert_eq!(m.net_qty(), u(-5));
}

#[test]
fn an_empty_manager_is_not_all_killed() {
    let m = manager(0);
    assert!(!m.all_killed());
    assert_eq!(m.total_open_qty(), 0);
    assert!(m.all().is_empty());
}

#[test]
fn choices_take_the_right_baskets() {
    let mut m = manager(3);
    let mut a = m.get(102).unwrap();
    a.apply_entry_fill(u(1), u(100));
    a.set_sl_anchor(u(100), u(10));
    m.put(a);
    assert_eq!(m.select(Choice::Holding), vec![a]);
    assert!(m.select(Choice::StoppedOut { mid: u(100) }).is_empty());
    assert_eq!(m.select(Choice::StoppedOut { mid: u(110) }), vec![a]);
}

#[test]
fn marking_kills_everything() {
    let mut m = manager(3);
    let mut a = m.get(101).unwrap();
    a.apply_entry_fill(u(1), u(100));
    m.put(a);
    m.mark_all_killed();
    assert!(m.all_killed());
    assert_eq!(m.get(101).unwrap().open_qty, u(1));
}

#[test]
fn resetting_spares_only_the_killed() {
    let mut m = manager(3);
    let mut a = m.get(101).unwrap();
    a.apply_entry_fill(u(1), u(100));
    m.put(a);
    kill(&mut m, 102);
    m.reset_all(u(90));
    for (id, status, pnl) in [
        (100, BasketStatus::Hit, 0),
        (101, BasketStatus::Hit, u(10)),
        (102, BasketStatus::Killed, 0),
    ] {
        let b = m.get(id).unwrap();
        assert_eq!((b.status, b.realized_pnl, b.open_qty, b.avg_price), (status, pnl, 0, 0));
    }
}
