use basket_grid_engine::models::basket::{Basket, BasketSide, BasketStatus};
use basket_grid_engine::models::order::Side;

const UNIT: i64 = 100_000_000;

fn u(x: i64) -> i64 {
    x * UNIT
}

fn linear(side: BasketSide) -> Basket {
    Basket::with_id(7, 0, side, u(10), false, u(5))
}

#[test]
fn a_new_basket_is_idle() {
    let b = Basket::new(3, BasketSide::Short, u(10), true, u(5));
    assert_eq!(b.index, 3);
    assert_eq!(b.side, BasketSide::Short);
    assert_eq!(b.status, BasketStatus::Idle);
    assert_eq!(b.open_qty, 0);
    assert_eq!(b.anchor_price, 0);
    assert!(b.is_inverse);
    // The version nibble of a random identifier.
    assert_eq!((b.basket_id >> 76) & 0xf, 4);
    assert_ne!(b.basket_id, Basket::new(3, BasketSide::Short, u(10), true, u(5)).basket_id);
}

#[test]
fn entries_average_their_prices() {
    let mut b = linear(BasketSide::Long);
    b.apply_entry_fill(u(1), u(100));
    b.apply_entry_fill(u(3), u(200));
    assert_eq!(b.open_qty, u(4));
    assert_eq!(b.avg_price, u(175));
    assert_eq!(b.fills_count, 2);
    assert_eq!(b.status, BasketStatus::Active);
}

#[test]
fn a_take_profit_earns_the_spread_and_recycles() {
    let mut b = linear(BasketSide::Long);
    b.apply_entry_fill(u(2), u(100));
    b.set_sl_anchor(u(100), u(20));
    b.apply_tp_fill(u(1), u(999));
    assert_eq!(b.status, BasketStatus::TpRecycling);
    assert_eq!(b.realized_pnl, u(5));
    assert_eq!(b.open_qty, u(1));
    assert_eq!(b.anchor_price, u(100));
    b.apply_tp_fill(u(1), u(105));
    assert_eq!(b.status, BasketStatus::Idle);
    assert_eq!(b.realized_pnl, u(10));
    assert_eq!(b.anchor_price, 0);
    assert_eq!(b.upper_sl, 0);
    assert_eq!(b.avg_price, 0);
    assert_eq!(b.tp_count, 2);
}

#[test]
fn an_inverse_take_profit_divides_by_the_entry() {
    let mut b = Basket::with_id(7, 0, BasketSide::Long, u(1000), true, u(5));
    b.apply_entry_fill(u(100), u(50));
    b.apply_tp_fill(u(100), u(55));
    assert_eq!(b.realized_pnl, u(10));
}

#[test]
fn a_take_profit_never_oversells() {
    let mut b = linear(BasketSide::Long);
    b.apply_entry_fill(u(1), u(100));
    b.apply_tp_fill(u(3), u(105));
    assert_eq!(b.open_qty, 0);
    assert_eq!(b.status, BasketStatus::Idle);
}

#[test]
fn the_anchor_is_set_once() {
    let mut b = linear(BasketSide::Long);
    b.set_sl_anchor(u(100), u(20));
    b.set_sl_anchor(u(500), u(1));
    assert_eq!((b.anchor_price, b.lower_sl, b.upper_sl), (u(100), u(80), u(120)));
    let mut c = linear(BasketSide::Long);
    c.set_sl_anchor(u(100), u(-20));
    assert_eq!((c.lower_sl, c.upper_sl), (u(100), u(100)));
}

#[test]
fn a_stop_needs_a_position_and_a_bound() {
    let mut b = linear(BasketSide::Long);
    b.set_sl_anchor(u(100), u(20));
    assert!(!b.sl_breached(u(80)));
    b.apply_entry_fill(u(1), u(100));
    assert!(!b.sl_breached(u(81)));
    assert!(!b.sl_breached(u(119)));
    assert!(b.sl_breached(u(80)));
    assert!(b.sl_breached(u(120)));
    b.kill(u(80));
    assert!(!b.sl_breached(u(80)));
}

#[test]
fn a_kill_books_the_loss_by_direction() {
    let mut long = linear(BasketSide::Long);
    long.apply_entry_fill(u(2), u(100));
    long.kill(u(90));
    assert_eq!(long.realized_pnl, u(-20));
    assert_eq!(long.status, BasketStatus::Killed);
    assert_eq!(long.open_qty, 0);
    assert_eq!(long.avg_price, u(100));

    let mut short = linear(BasketSide::Short);
    short.apply_entry_fill(u(2), u(100));
    short.kill(u(90));
    assert_eq!(short.realized_pnl, u(20));
}

#[test]
fn a_killed_basket_stays_killed() {
    let mut b = linear(BasketSide::Long);
    b.kill(u(90));
    b.apply_entry_fill(u(3), u(100));
    // The late fill is booked, but the basket does not trade again.
    assert_eq!((b.status, b.open_qty, b.avg_price), (BasketStatus::Killed, u(3), u(100)));
    assert!(!b.has_capacity(0));
    b.apply_tp_fill(u(1), u(105));
    assert_eq!((b.status, b.open_qty), (BasketStatus::Killed, u(2)));
    b.apply_tp_fill(u(2), u(105));
    assert_eq!((b.status, b.open_qty, b.realized_pnl), (BasketStatus::Killed, 0, u(15)));
    b.apply_entry_fill(u(1), u(100));
    b.soft_reset(u(110));
    assert_eq!((b.status, b.open_qty, b.realized_pnl), (BasketStatus::Killed, 0, u(25)));
}

#[test]
fn a_soft_reset_leaves_the_basket_tradeable() {
    let mut b = linear(BasketSide::Short);
    b.apply_entry_fill(u(2), u(100));
    b.soft_reset(u(110));
    assert_eq!(b.realized_pnl, u(-20));
    assert_eq!(b.status, BasketStatus::Hit);
    assert_eq!(b.avg_price, 0);
    assert!(b.has_capacity(u(10)));
    b.apply_entry_fill(u(1), u(50));
    assert_eq!(b.status, BasketStatus::Active);
}

#[test]
fn capacity_ends_at_the_size_and_with_the_kill() {
    let mut b = linear(BasketSide::Long);
    assert!(b.has_capacity(u(10)));
    assert!(!b.has_capacity(u(10) + 1));
    b.apply_entry_fill(u(4), u(1));
    assert!(b.has_capacity(u(6)));
    assert!(!b.has_capacity(u(7)));
    b.kill(u(1));
    assert!(!b.has_capacity(0));
}

#[test]
fn net_positions_are_signed() {
    let mut long = linear(BasketSide::Long);
    let mut short = linear(BasketSide::Short);
    long.apply_entry_fill(u(2), u(100));
    short.apply_entry_fill(u(2), u(100));
    assert_eq!(long.net_qty(), u(2));
    assert_eq!(short.net_qty(), u(-2));
    assert_eq!(BasketSide::Long.closing_side(), Side::Sell);
    assert_eq!(BasketSide::Short.closing_side(), Side::Buy);
}

#[test]
fn results_of_price_moves() {
    let b = linear(BasketSide::Long);
    assert_eq!(b.pnl_usd(u(2), u(3), u(7)), u(6));
    let inv = Basket::with_id(7, 0, BasketSide::Long, u(10), true, u(5));
    assert_eq!(inv.pnl_usd(u(2), u(3), u(6)), u(1));
    assert_eq!(inv.pnl_usd(u(2), u(3), 0), u(6));
}
