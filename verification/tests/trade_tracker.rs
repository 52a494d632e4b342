use basket_grid_engine::engines::basket_manager::BasketManager;
use basket_grid_engine::engines::trade_tracker::{close_lots, round_trip, Lot, TradeTracker};
use basket_grid_engine::models::config::BasketConfig;
use basket_grid_engine::models::order::{Fill, OrderPurpose, Side};
use basket_grid_engine::models::trade_stats::TradeStats;

const UNIT: i64 = 100_000_000;

fn u(x: i64) -> i64 {
    x * UNIT
}

fn manager() -> BasketManager {
    let config = BasketConfig { num_baskets: 3, basket_size_qty: u(10), basket_sl_distance: 0 };
    BasketManager::with_ids(config, &vec![100, 101, 102], false, u(5))
}

fn fill(purpose: OrderPurpose, side: Side, price: i64, qty: i64, fee: i64, t: i64) -> Fill {
    Fill {
        fill_id: 1,
        order_id: 2,
        basket_id: 102,
        purpose,
        side,
        price,
        qty,
        fee,
        timestamp: t,
    }
}

#[test]
fn a_take_profit_closes_the_oldest_lots() {
    let m = manager();
    let mut t = TradeTracker::new(0, false);
    t.ingest(&m, &fill(OrderPurpose::Entry, Side::Buy, u(100), u(2), u(1), 10));
    t.ingest(&m, &fill(OrderPurpose::Entry, Side::Buy, u(90), u(2), 0, 20));
    t.ingest(&m, &fill(OrderPurpose::TakeProfit, Side::Sell, u(105), u(3), u(3), 30));
    let trips = t.recent_round_trips(10);
    assert_eq!(trips.len(), 2);
    // Newest first: the second lot, half closed.
    assert_eq!(trips[0].entry_price, u(90));
    assert_eq!(trips[0].qty, u(1));
    assert_eq!(trips[0].gross_pnl, u(15));
    assert_eq!(trips[0].fees, u(1));
    assert_eq!(trips[0].pnl, u(14));
    assert_eq!(trips[0].volume, u(195));
    assert_eq!(trips[0].entry_time, 20);
    assert_eq!(trips[0].exit_time, 30);
    assert_eq!(trips[0].basket_index, 2);
    assert!(trips[0].is_take_profit);
    // The first lot, whole: half a fee per unit in, one per unit out.
    assert_eq!(trips[1].entry_price, u(100));
    assert_eq!(trips[1].gross_pnl, u(10));
    assert_eq!(trips[1].fees, u(3));
    assert_eq!(trips[1].pnl, u(7));
    assert_eq!(t.lots[&102].len(), 1);
    assert_eq!(t.lots[&102][0].qty_remaining, u(1));
    assert_ne!(trips[0].rtp_id, trips[1].rtp_id);
}

#[test]
fn shorts_gain_when_price_falls() {
    let m = manager();
    let mut t = TradeTracker::new(0, false);
    t.ingest(&m, &fill(OrderPurpose::Entry, Side::Sell, u(100), u(1), 0, 1));
    t.ingest(&m, &fill(OrderPurpose::TakeProfit, Side::Buy, u(95), u(1), 0, 2));
    assert_eq!(t.recent_round_trips(1)[0].gross_pnl, u(5));
    t.ingest(&m, &fill(OrderPurpose::Entry, Side::Sell, u(100), u(1), 0, 3));
    t.ingest(&m, &fill(OrderPurpose::StopLossExit, Side::Buy, u(120), u(1), 0, 4));
    let last = t.recent_round_trips(1)[0];
    assert_eq!(last.gross_pnl, u(-20));
    assert!(!last.is_take_profit);
}

#[test]
fn large_fills_keep_their_average_price() {
    let m = manager();
    let mut t = TradeTracker::new(0, true);
    for _ in 0..3 {
        t.ingest(&m, &fill(OrderPurpose::Entry, Side::Buy, u(100_000), u(1_000_000), 0, 1));
        t.ingest(&m, &fill(OrderPurpose::TakeProfit, Side::Sell, u(100_001), u(1_000_000), 0, 2));
    }
    let s = t.stats(1000);
    assert_eq!(s.buy_vwap, u(100_000));
    assert_eq!(s.sell_vwap, u(100_001));
}

#[test]
fn a_round_trip_turns_over_both_legs() {
    let m = manager();
    let mut t = TradeTracker::new(0, false);
    t.ingest(&m, &fill(OrderPurpose::Entry, Side::Buy, u(100), u(2), 0, 1));
    t.ingest(&m, &fill(OrderPurpose::TakeProfit, Side::Sell, u(110), u(2), 0, 2));
    let trip = t.recent_round_trips(1)[0];
    assert_eq!((trip.volume, trip.gross_pnl, trip.pnl), (u(420), u(20), u(20)));
}

#[test]
fn inverse_results_divide_by_the_entry_price() {
    let m = manager();
    let mut t = TradeTracker::new(0, true);
    t.ingest(&m, &fill(OrderPurpose::Entry, Side::Buy, u(50), u(100), 0, 1));
    t.ingest(&m, &fill(OrderPurpose::TakeProfit, Side::Sell, u(55), u(100), 0, 2));
    let trip = t.recent_round_trips(1)[0];
    assert_eq!(trip.gross_pnl, u(10));
    // Both legs, in currency.
    assert_eq!(trip.volume, u(200));
    let s = t.stats(1000);
    assert_eq!(s.buy_volume, u(100));
    // The mean price is a price, also where volume is counted in currency.
    assert_eq!(s.buy_vwap, u(50));
    assert_eq!(s.sell_vwap, u(55));
}

#[test]
fn results_are_kept_apart_by_how_they_closed() {
    let m = manager();
    let mut t = TradeTracker::new(1_000, false);
    t.ingest(&m, &fill(OrderPurpose::Entry, Side::Buy, u(100), u(2), u(1), 1));
    t.ingest(&m, &fill(OrderPurpose::TakeProfit, Side::Sell, u(110), u(1), 0, 2));
    t.ingest(&m, &fill(OrderPurpose::KillSwitchExit, Side::Sell, u(70), u(1), u(2), 3));
    let s = t.stats(1_801_000);
    assert_eq!(s.start_time, 1_000);
    assert_eq!(s.duration_seconds, 1_800);
    assert_eq!(s.rtp_pnl, u(9) + UNIT / 2);
    assert_eq!(s.sl_pnl, u(-32) - UNIT / 2);
    assert_eq!(s.net_pnl, u(-23));
    assert_eq!(s.total_pnl, s.net_pnl);
    assert_eq!(s.round_trips, 1);
    assert_eq!(s.sl_count, 1);
    assert_eq!(s.total_fees, u(3));
    assert_eq!(s.rtp_per_hour, u(2));
    assert_eq!(s.pnl_per_hour, u(-46));
    assert_eq!(s.buy_vwap, u(100));
    assert_eq!(s.sell_vwap, u(90));
    assert_eq!(s.buy_volume, u(200));
    assert_eq!(s.sell_volume, u(180));
    assert_eq!(s.total_volume, u(380));
    assert_eq!(s.net_qty, 0);
    assert_eq!((s.total_fills, s.total_buys, s.total_sells), (3, 1, 2));
}

#[test]
fn a_rebate_is_no_fee() {
    let m = manager();
    let mut t = TradeTracker::new(0, false);
    t.ingest(&m, &fill(OrderPurpose::Entry, Side::Buy, u(100), u(1), u(-1), 1));
    t.ingest(&m, &fill(OrderPurpose::TakeProfit, Side::Sell, u(105), u(1), u(-1), 2));
    assert_eq!(t.stats(0).total_fees, 0);
    assert_eq!(t.recent_round_trips(1)[0].fees, 0);
}

#[test]
fn a_closing_fill_without_lots_makes_no_trip() {
    let m = manager();
    let mut t = TradeTracker::new(0, false);
    t.ingest(&m, &fill(OrderPurpose::TakeProfit, Side::Sell, u(105), u(1), 0, 2));
    assert!(t.recent_round_trips(5).is_empty());
    assert_eq!(t.stats(0).total_fills, 1);
    assert_eq!(t.stats(-5).duration_seconds, 0);
    assert_eq!(t.stats(0).rtp_per_hour, 0);
}

#[test]
fn an_unused_tracker_has_empty_stats() {
    let t = TradeTracker::new(77, false);
    assert_eq!(t.stats(77), TradeStats::empty(77));
}

#[test]
fn closing_in_two_steps_is_closing_in_one() {
    let lot = |price: i64, qty: i64| Lot {
        entry_side: Side::Buy,
        price,
        qty_remaining: qty,
        qty_entered: qty,
        entry_fee: 0,
        time: 0,
    };
    let close = |lots: &mut Vec<Lot>, qty: i64| {
        let f = fill(OrderPurpose::TakeProfit, Side::Sell, u(10), qty, 0, 0);
        close_lots(lots, &f, 0, false)
    };
    let mut once = vec![lot(u(1), u(2)), lot(u(2), u(2)), lot(u(3), u(2))];
    let mut twice = once.clone();
    let made = close(&mut once, u(3));
    close(&mut twice, u(1));
    close(&mut twice, u(2));
    assert_eq!(once, twice);
    let closed: i64 = made.iter().map(|t| t.qty).sum();
    let left: i64 = once.iter().map(|l| l.qty_remaining).sum();
    assert_eq!(closed, u(3));
    assert_eq!(closed + left, u(6));
}

#[test]
fn one_trip_by_hand() {
    let lot = Lot {
        entry_side: Side::Sell,
        price: u(20),
        qty_remaining: u(4),
        qty_entered: u(8),
        entry_fee: u(2),
        time: 5,
    };
    let f = fill(OrderPurpose::TakeProfit, Side::Buy, u(18), u(2), u(1), 9);
    let t = round_trip(42, lot, u(2), &f, 7, false);
    assert_eq!(t.rtp_id, 42);
    assert_eq!(t.gross_pnl, u(4));
    assert_eq!(t.fees, u(1) + UNIT / 2);
    assert_eq!(t.pnl, u(2) + UNIT / 2);
    assert_eq!(t.basket_index, 7);
}
