//! Laws of round trips and statistics.
use vstd::prelude::*;

use crate::amount::{clamp, product, ratio, round_div};
use crate::engines::basket_manager::BasketManager;
use crate::engines::trade_tracker::{
    close_lots, fee_share, lots_left, pnl_sum, round_trip, trip, trips_made, unnamed, Lot,
    TradeTracker,
};
use crate::laws::amounts::{held, lemma_rounds_to, rounds_to};
use crate::models::order::{Fill, OrderPurpose, Side};
use crate::models::trade_stats::{RoundTrip, TradeStats};

verus! {

/// How far a price moved in favour of what was entered on a side.
pub open spec fn favour(entry_side: Side, entry_price: i64, exit_price: i64) -> int {
    match entry_side {
        Side::Buy => exit_price - entry_price,
        Side::Sell => entry_price - exit_price,
    }
}

/// The move can be written as an amount.
pub open spec fn writable(entry_price: i64, exit_price: i64) -> bool {
    &&& i64::MIN <= exit_price - entry_price <= i64::MAX
    &&& i64::MIN <= entry_price - exit_price <= i64::MAX
}

/// `part` is what falls on `take` of a fee that was paid on `qty`. A rebate
/// counts as no fee.
pub open spec fn falls_on(part: i64, fee: i64, qty: i64, take: i64) -> bool {
    if qty > 0 {
        rounds_to(
            part,
            if fee > 0 {
                fee * take
            } else {
                0
            },
            qty as int,
        )
    } else {
        part == 0
    }
}

/// `r` is the round trip of `take` of a lot that a fill closed.
pub open spec fn completes(
    r: RoundTrip,
    lot: Lot,
    take: i64,
    fill: Fill,
    basket_index: u32,
    is_inverse: bool,
) -> bool {
    &&& r.basket_id == fill.basket_id
    &&& r.basket_index == basket_index
    &&& r.entry_side == lot.entry_side
    &&& r.entry_price == lot.price
    &&& r.exit_price == fill.price
    &&& r.qty == take
    &&& r.entry_time == lot.time
    &&& r.exit_time == fill.timestamp
    &&& r.is_take_profit <==> fill.purpose == OrderPurpose::TakeProfit
    &&& forall|gain: i64| #[trigger]
        held(gain, favour(lot.entry_side, lot.price, fill.price)) ==> rounds_to(
            r.gross_pnl,
            gain * take,
            if is_inverse && lot.price > 0 {
                lot.price as int
            } else {
                100_000_000
            },
        )
    &&& exists|entry_part: i64, exit_part: i64|
        {
            &&& #[trigger] falls_on(entry_part, lot.entry_fee, lot.qty_entered, take)
            &&& #[trigger] falls_on(exit_part, fill.fee, fill.qty, take)
            &&& held(r.fees, entry_part + exit_part)
        }
    &&& held(r.pnl, r.gross_pnl - r.fees)
    &&& is_inverse ==> held(r.volume, 2 * take)
    &&& !is_inverse ==> forall|both: i64| #[trigger]
        held(both, lot.price + fill.price) ==> rounds_to(r.volume, take * both, 100_000_000)
}

/// A share of a fee falls on what was taken.
proof fn lemma_falls_on(fee: i64, qty: i64, take: i64)
    ensures
        falls_on(fee_share(fee, qty, take), fee, qty, take),
{
    let f = if fee > 0 {
        fee as int
    } else {
        0
    };
    assert(0 * (take as int) == 0);
    if qty > 0 {
        lemma_rounds_to(f * take, qty as int);
    }
}

/// The round trip of part of a lot carries what the lot and the fill say, and
/// earns, pays and turns over what they make it.
pub proof fn lemma_completes(
    rtp_id: u128,
    lot: Lot,
    take: i64,
    fill: Fill,
    basket_index: u32,
    is_inverse: bool,
)
    ensures
        completes(
            trip(rtp_id, lot, take, fill, basket_index, is_inverse),
            lot,
            take,
            fill,
            basket_index,
            is_inverse,
        ),
{
    let gain = clamp(favour(lot.entry_side, lot.price, fill.price));
    if is_inverse && lot.price > 0 {
        lemma_rounds_to(gain * take, lot.price as int);
    } else {
        lemma_rounds_to(gain * take, 100_000_000);
    }
    lemma_falls_on(lot.entry_fee, lot.qty_entered, take);
    lemma_falls_on(fill.fee, fill.qty, take);
    lemma_rounds_to(take * clamp(lot.price + fill.price), 100_000_000);
}

/// A round trip carries what the lot and the fill say, earns the move in its
/// favour on the quantity (over the entry price where quantities are in quote
/// currency), pays its part of both fees, and turns over both legs.
pub proof fn a_round_trip_earns_its_move(
    rtp_id: u128,
    lot: Lot,
    take: i64,
    fill: &Fill,
    basket_index: u32,
    is_inverse: bool,
    r: RoundTrip,
)
    requires
        call_ensures(round_trip, (rtp_id, lot, take, fill, basket_index, is_inverse), r),
    ensures
        r.rtp_id == rtp_id,
        completes(r, lot, take, *fill, basket_index, is_inverse),
{
    lemma_completes(rtp_id, lot, take, *fill, basket_index, is_inverse);
}

/// On an inverse venue the gross result times the entry price is the move in
/// the lot's favour times the quantity, to within half of the entry price, for
/// longs and shorts alike.
pub proof fn inverse_results_divide_by_the_entry_price(
    rtp_id: u128,
    lot: Lot,
    take: i64,
    fill: &Fill,
    basket_index: u32,
    r: RoundTrip,
)
    requires
        call_ensures(round_trip, (rtp_id, lot, take, fill, basket_index, true), r),
        lot.price > 0,
        writable(lot.price, fill.price),
        i64::MIN < r.gross_pnl < i64::MAX,
    ensures
        lot.entry_side == Side::Buy ==> -lot.price <= 2 * (r.gross_pnl * lot.price - (fill.price
            - lot.price) * take) <= lot.price,
        lot.entry_side == Side::Sell ==> -lot.price <= 2 * (r.gross_pnl * lot.price - (lot.price
            - fill.price) * take) <= lot.price,
{
    lemma_completes(rtp_id, lot, take, *fill, basket_index, true);
    let gain = favour(lot.entry_side, lot.price, fill.price) as i64;
    assert(held(gain, favour(lot.entry_side, lot.price, fill.price)));
    let g = r.gross_pnl as int;
    let p = lot.price as int;
    assert((2 * g - 1) * p == 2 * (g * p) - p) by (nonlinear_arith);
    assert((2 * g + 1) * p == 2 * (g * p) + p) by (nonlinear_arith);
}

/// On a linear venue the gross result is the move in the lot's favour times
/// the quantity, to within half a hundred-millionth.
pub proof fn linear_results_are_the_move_times_the_quantity(
    rtp_id: u128,
    lot: Lot,
    take: i64,
    fill: &Fill,
    basket_index: u32,
    r: RoundTrip,
)
    requires
        call_ensures(round_trip, (rtp_id, lot, take, fill, basket_index, false), r),
        writable(lot.price, fill.price),
        i64::MIN < r.gross_pnl < i64::MAX,
    ensures
        lot.entry_side == Side::Buy ==> -100_000_000 <= 2 * (r.gross_pnl * 100_000_000 - (
        fill.price - lot.price) * take) <= 100_000_000,
        lot.entry_side == Side::Sell ==> -100_000_000 <= 2 * (r.gross_pnl * 100_000_000 - (
        lot.price - fill.price) * take) <= 100_000_000,
{
    lemma_completes(rtp_id, lot, take, *fill, basket_index, false);
    let gain = favour(lot.entry_side, lot.price, fill.price) as i64;
    assert(held(gain, favour(lot.entry_side, lot.price, fill.price)));
}

/// A long and a short round trip with the same entry price, the same quantity
/// and the same move in their favour earn the same.
pub proof fn longs_and_shorts_earn_alike(
    long_id: u128,
    short_id: u128,
    long: Lot,
    short: Lot,
    take: i64,
    up: &Fill,
    down: &Fill,
    basket_index: u32,
    is_inverse: bool,
    a: RoundTrip,
    b: RoundTrip,
)
    requires
        call_ensures(round_trip, (long_id, long, take, up, basket_index, is_inverse), a),
        call_ensures(round_trip, (short_id, short, take, down, basket_index, is_inverse), b),
        long.entry_side == Side::Buy,
        short.entry_side == Side::Sell,
        long.price == short.price,
        up.price - long.price == short.price - down.price,
    ensures
        a.gross_pnl == b.gross_pnl,
{
}

/// A round trip that closes a whole lot with a whole fill pays both fees in
/// full, and a rebate lowers none.
pub proof fn whole_round_trips_pay_whole_fees(
    rtp_id: u128,
    lot: Lot,
    fill: &Fill,
    basket_index: u32,
    is_inverse: bool,
    r: RoundTrip,
)
    requires
        call_ensures(
            round_trip,
            (rtp_id, lot, lot.qty_entered, fill, basket_index, is_inverse),
            r,
        ),
        lot.qty_entered > 0,
        fill.qty == lot.qty_entered,
        lot.entry_fee >= 0,
    ensures
        held(
            r.fees,
            if fill.fee > 0 {
                lot.entry_fee + fill.fee
            } else {
                lot.entry_fee as int
            },
        ),
{
    lemma_completes(rtp_id, lot, lot.qty_entered, *fill, basket_index, is_inverse);
    let q = lot.qty_entered as int;
    lemma_whole(lot.entry_fee as int, q);
    lemma_whole(
        if fill.fee > 0 {
            fill.fee as int
        } else {
            0
        },
        q,
    );
}

/// The whole of a fee over a whole quantity.
proof fn lemma_whole(fee: int, q: int)
    requires
        q > 0,
        0 <= fee <= i64::MAX,
    ensures
        ratio(fee, q, q) == fee,
{
    crate::laws::amounts::quotients_are_nearest(fee * q, q);
    let k = round_div(fee * q, q);
    assert(fee * q >= 0) by (nonlinear_arith)
        requires
            fee >= 0,
            q > 0,
    ;
    assert(k == fee) by (nonlinear_arith)
        requires
            2 * (fee * q) - q < 2 * (k * q) <= 2 * (fee * q) + q,
            q > 0,
    ;
}

/// What closing a quantity makes of lots: trips of the oldest lots, whole but
/// for the last, and the lots that are left.
proof fn lemma_closing(lots: Seq<Lot>, left: i64, fill: Fill, basket_index: u32, is_inverse: bool)
    requires
        forall|i: int| 0 <= i < lots.len() ==> (#[trigger] lots[i]).qty_remaining >= 0,
    ensures
        ({
            let made = trips_made(lots, left, fill, basket_index, is_inverse);
            let after = lots_left(lots, left);
            let n = made.len() as int;
            &&& n <= lots.len()
            &&& forall|i: int|
                0 <= i < n ==> completes(
                    #[trigger] made[i],
                    lots[i],
                    made[i].qty,
                    fill,
                    basket_index,
                    is_inverse,
                )
            &&& forall|i: int|
                0 <= i < n - 1 ==> (#[trigger] made[i]).qty == lots[i].qty_remaining
            &&& n == 0 ==> after == lots
            &&& n > 0 ==> 0 <= made[n - 1].qty <= lots[n - 1].qty_remaining
            &&& n > 0 && made[n - 1].qty == lots[n - 1].qty_remaining ==> after == lots.skip(n)
            &&& n > 0 && made[n - 1].qty < lots[n - 1].qty_remaining ==> after == lots.skip(
                n - 1,
            ).update(
                0,
                Lot {
                    qty_remaining: (lots[n - 1].qty_remaining - made[n - 1].qty) as i64,
                    ..lots[n - 1]
                },
            )
        }),
    decreases lots.len(),
{
    let made = trips_made(lots, left, fill, basket_index, is_inverse);
    let after = lots_left(lots, left);
    let n = made.len() as int;
    if left > 0 && lots.len() > 0 {
        let q = lots[0].qty_remaining;
        if left >= q {
            let rest = lots.drop_first();
            let tail = trips_made(rest, clamp(left - q), fill, basket_index, is_inverse);
            assert forall|i: int| 0 <= i < rest.len() implies (#[trigger] rest[i]).qty_remaining
                >= 0 by {
                assert(rest[i] == lots[i + 1]);
            }
            lemma_closing(rest, clamp(left - q), fill, basket_index, is_inverse);
            lemma_completes(0, lots[0], q, fill, basket_index, is_inverse);
            assert(made.len() == tail.len() + 1);
            assert forall|i: int| 0 <= i < n implies completes(
                #[trigger] made[i],
                lots[i],
                made[i].qty,
                fill,
                basket_index,
                is_inverse,
            ) by {
                if i > 0 {
                    assert(made[i] == tail[i - 1]);
                    assert(lots[i] == rest[i - 1]);
                }
            }
            assert forall|i: int| 0 <= i < n - 1 implies (#[trigger] made[i]).qty
                == lots[i].qty_remaining by {
                if i > 0 {
                    assert(made[i] == tail[i - 1]);
                    assert(lots[i] == rest[i - 1]);
                }
            }
            if tail.len() == 0 {
                assert(lots.skip(1) =~= rest);
            } else {
                assert(made[n - 1] == tail[n - 2]);
                assert(lots[n - 1] == rest[n - 2]);
                assert(lots.skip(n) =~= rest.skip(n - 1));
                assert(lots.skip(n - 1) =~= rest.skip(n - 2));
            }
        } else {
            lemma_completes(0, lots[0], left, fill, basket_index, is_inverse);
            assert(lots.skip(0) =~= lots);
        }
    }
}

/// An identifier is no part of what a round trip is.
proof fn lemma_completes_named(
    t: RoundTrip,
    lot: Lot,
    take: i64,
    fill: Fill,
    basket_index: u32,
    is_inverse: bool,
)
    requires
        completes(unnamed(t), lot, take, fill, basket_index, is_inverse),
    ensures
        completes(t, lot, take, fill, basket_index, is_inverse),
{
    let (a, b) = choose|entry_part: i64, exit_part: i64|
        {
            &&& #[trigger] falls_on(entry_part, lot.entry_fee, lot.qty_entered, take)
            &&& #[trigger] falls_on(exit_part, fill.fee, fill.qty, take)
            &&& held(t.fees, entry_part + exit_part)
        };
    assert(falls_on(a, lot.entry_fee, lot.qty_entered, take));
    assert(falls_on(b, fill.fee, fill.qty, take));
}

/// A closing fill takes lots oldest first: its i-th round trip is of the i-th
/// oldest lot, every lot but the last it touches is used up, and the lots
/// behind them stay as they were.
pub proof fn lots_close_in_order(
    lots: &mut Vec<Lot>,
    fill: &Fill,
    basket_index: u32,
    is_inverse: bool,
    trips: Vec<RoundTrip>,
)
    requires
        call_ensures(close_lots, (lots, fill, basket_index, is_inverse), trips),
        forall|i: int| 0 <= i < old(lots)@.len() ==> (#[trigger] old(lots)@[i]).qty_remaining >= 0,
    ensures
        ({
            let before = old(lots)@;
            let after = final(lots)@;
            let n = trips@.len() as int;
            &&& n <= before.len()
            &&& forall|i: int|
                0 <= i < n ==> completes(
                    #[trigger] trips@[i],
                    before[i],
                    trips@[i].qty,
                    *fill,
                    basket_index,
                    is_inverse,
                )
            &&& forall|i: int|
                0 <= i < n - 1 ==> (#[trigger] trips@[i]).qty == before[i].qty_remaining
            &&& n == 0 ==> after == before
            &&& n > 0 ==> 0 <= trips@[n - 1].qty <= before[n - 1].qty_remaining
            &&& n > 0 && trips@[n - 1].qty == before[n - 1].qty_remaining ==> after
                == before.skip(n)
            &&& n > 0 && trips@[n - 1].qty < before[n - 1].qty_remaining ==> after == before.skip(
                n - 1,
            ).update(
                0,
                Lot {
                    qty_remaining: (before[n - 1].qty_remaining - trips@[n - 1].qty) as i64,
                    ..before[n - 1]
                },
            )
        }),
{
    let before = old(lots)@;
    let made = trips_made(before, fill.qty, *fill, basket_index, is_inverse);
    lemma_closing(before, fill.qty, *fill, basket_index, is_inverse);
    assert(trips@.map_values(|t: RoundTrip| unnamed(t)) == made);
    assert(trips@.len() == made.len());
    assert forall|i: int| 0 <= i < trips@.len() implies completes(
        #[trigger] trips@[i],
        before[i],
        trips@[i].qty,
        *fill,
        basket_index,
        is_inverse,
    ) && trips@[i].qty == made[i].qty by {
        assert(unnamed(trips@[i]) == made[i]);
        lemma_completes_named(
            trips@[i],
            before[i],
            trips@[i].qty,
            *fill,
            basket_index,
            is_inverse,
        );
    }
}

/// The results of round trips, summed.
pub open spec fn summed(trips: Seq<RoundTrip>) -> int {
    trips.fold_left(0int, |sum: int, t: RoundTrip| sum + t.pnl)
}

/// Summing with or without identifiers is the same.
proof fn lemma_summed(trips: Seq<RoundTrip>)
    ensures
        pnl_sum(trips.map_values(|t: RoundTrip| unnamed(t))) == summed(trips),
    decreases trips.len(),
{
    reveal_with_fuel(Seq::fold_left, 2);
    let all = trips.map_values(|t: RoundTrip| unnamed(t));
    if trips.len() > 0 {
        lemma_summed(trips.drop_last());
        assert(all.drop_last() =~= trips.drop_last().map_values(|t: RoundTrip| unnamed(t)));
        assert(all.last() == unnamed(trips.last()));
    }
}

/// `volume` is the value of a fill in quote currency.
pub open spec fn turns_over(volume: i64, fill: Fill, is_inverse: bool) -> bool {
    if is_inverse {
        volume == fill.qty
    } else {
        rounds_to(volume, fill.qty * fill.price, 100_000_000)
    }
}

/// Every fill is counted on its own side and on no other: its quantity, its
/// exact notional, its volume in quote currency, and its fee unless that is a
/// rebate.
pub proof fn fills_count_on_their_side(t: &mut TradeTracker, mgr: &BasketManager, fill: &Fill)
    requires
        call_ensures(TradeTracker::ingest, (t, mgr, fill), ()),
    ensures
        ({
            let a = old(t).totals;
            let b = final(t).totals;
            &&& b.total_fills == a.total_fills.wrapping_add(1)
            &&& held(
                b.total_fees,
                if fill.fee > 0 {
                    a.total_fees + fill.fee
                } else {
                    a.total_fees as int
                },
            )
            &&& exists|volume: i64|
                {
                    &&& #[trigger] turns_over(volume, *fill, old(t).is_inverse)
                    &&& fill.side == Side::Buy ==> held(b.buy_volume, a.buy_volume + volume)
                    &&& fill.side == Side::Sell ==> held(b.sell_volume, a.sell_volume + volume)
                }
            &&& fill.side == Side::Buy ==> {
                &&& b.total_buys == a.total_buys.wrapping_add(1)
                &&& held(b.buy_qty, a.buy_qty + fill.qty)
                &&& i128::MIN <= a.buy_notional + fill.price * fill.qty <= i128::MAX
                    ==> b.buy_notional == a.buy_notional + fill.price * fill.qty
                &&& b.total_sells == a.total_sells
                &&& b.sell_qty == a.sell_qty
                &&& b.sell_volume == a.sell_volume
                &&& b.sell_notional == a.sell_notional
            }
            &&& fill.side == Side::Sell ==> {
                &&& b.total_sells == a.total_sells.wrapping_add(1)
                &&& held(b.sell_qty, a.sell_qty + fill.qty)
                &&& i128::MIN <= a.sell_notional + fill.price * fill.qty <= i128::MAX
                    ==> b.sell_notional == a.sell_notional + fill.price * fill.qty
                &&& b.total_buys == a.total_buys
                &&& b.buy_qty == a.buy_qty
                &&& b.buy_volume == a.buy_volume
                &&& b.buy_notional == a.buy_notional
            }
        }),
{
    lemma_rounds_to(fill.qty * fill.price, 100_000_000);
    let v = if old(t).is_inverse {
        fill.qty
    } else {
        product(fill.qty, fill.price)
    };
    assert(turns_over(v, *fill, old(t).is_inverse));
}

/// An entry opens a lot as it was filled, behind the lots of its basket, and
/// books no result.
pub proof fn entries_open_lots(t: &mut TradeTracker, mgr: &BasketManager, fill: &Fill)
    requires
        call_ensures(TradeTracker::ingest, (t, mgr, fill), ()),
        fill.purpose == OrderPurpose::Entry,
    ensures
        ({
            let before = old(t).queue(fill.basket_id);
            let after = final(t).queue(fill.basket_id);
            &&& after.len() == before.len() + 1
            &&& after.drop_last() == before
            &&& after.last().entry_side == fill.side
            &&& after.last().price == fill.price
            &&& after.last().qty_remaining == fill.qty
            &&& after.last().qty_entered == fill.qty
            &&& after.last().entry_fee == fill.fee
            &&& after.last().time == fill.timestamp
        }),
        final(t).round_trips@ == old(t).round_trips@,
        final(t).totals.rtp_pnl == old(t).totals.rtp_pnl,
        final(t).totals.sl_pnl == old(t).totals.sl_pnl,
        final(t).totals.rtp_count == old(t).totals.rtp_count,
        final(t).totals.sl_count == old(t).totals.sl_count,
        forall|b: u128| b != fill.basket_id ==> #[trigger] final(t).queue(b) == old(t).queue(b),
{
    let before = old(t).queue(fill.basket_id);
    assert(final(t).queue(fill.basket_id).drop_last() =~= before);
}

/// Any other fill closes lots of its basket and of no other, and books the
/// round trips that come of it: a take-profit's apart from all others, the sum
/// of their results and their number.
pub proof fn closing_fills_book_round_trips(
    t: &mut TradeTracker,
    mgr: &BasketManager,
    fill: &Fill,
)
    requires
        call_ensures(TradeTracker::ingest, (t, mgr, fill), ()),
        fill.purpose != OrderPurpose::Entry,
        forall|i: int|
            0 <= i < old(t).queue(fill.basket_id).len() ==> (#[trigger] old(t).queue(
                fill.basket_id,
            )[i]).qty_remaining >= 0,
    ensures
        ({
            let a = old(t).totals;
            let b = final(t).totals;
            let lots = old(t).queue(fill.basket_id);
            let kept = old(t).round_trips@.len() as int;
            let n = final(t).round_trips@.len() - kept;
            let index = if mgr.book().dom().contains(fill.basket_id) {
                mgr.book()[fill.basket_id].index
            } else {
                0
            };
            let fresh = final(t).round_trips@.skip(kept);
            &&& 0 <= n <= lots.len()
            &&& final(t).round_trips@.take(kept) == old(t).round_trips@
            &&& forall|i: int|
                0 <= i < n ==> completes(
                    #[trigger] fresh[i],
                    lots[i],
                    fresh[i].qty,
                    *fill,
                    index,
                    old(t).is_inverse,
                )
            &&& fill.purpose == OrderPurpose::TakeProfit ==> {
                &&& held(b.rtp_pnl, a.rtp_pnl + summed(fresh))
                &&& b.rtp_count == a.rtp_count.wrapping_add(n as u64)
                &&& b.sl_pnl == a.sl_pnl
                &&& b.sl_count == a.sl_count
            }
            &&& fill.purpose != OrderPurpose::TakeProfit ==> {
                &&& held(b.sl_pnl, a.sl_pnl + summed(fresh))
                &&& b.sl_count == a.sl_count.wrapping_add(n as u64)
                &&& b.rtp_pnl == a.rtp_pnl
                &&& b.rtp_count == a.rtp_count
            }
        }),
        final(t).queue(fill.basket_id) == lots_left(old(t).queue(fill.basket_id), fill.qty),
        forall|b: u128| b != fill.basket_id ==> #[trigger] final(t).queue(b) == old(t).queue(b),
{
    let lots = old(t).queue(fill.basket_id);
    let kept = old(t).round_trips@.len() as int;
    let fresh = final(t).round_trips@.skip(kept);
    let index = if mgr.book().dom().contains(fill.basket_id) {
        mgr.book()[fill.basket_id].index
    } else {
        0
    };
    let made = trips_made(lots, fill.qty, *fill, index, old(t).is_inverse);
    lemma_closing(lots, fill.qty, *fill, index, old(t).is_inverse);
    lemma_summed(fresh);
    assert(fresh.map_values(|t: RoundTrip| unnamed(t)) == made);
    assert forall|i: int| 0 <= i < fresh.len() implies completes(
        #[trigger] fresh[i],
        lots[i],
        fresh[i].qty,
        *fill,
        index,
        old(t).is_inverse,
    ) by {
        assert(unnamed(fresh[i]) == made[i]);
        lemma_completes_named(fresh[i], lots[i], fresh[i].qty, *fill, index, old(t).is_inverse);
    }
}

/// The statistics are what was tracked: results and counts apart and together,
/// mean prices that give back the exact notional, and rates per hour of the
/// time since the start.
pub proof fn statistics_are_what_was_tracked(t: &TradeTracker, now_ms: i64, r: TradeStats)
    requires
        call_ensures(TradeTracker::stats, (t, now_ms), r),
    ensures
        r.start_time == t.start_time_ms,
        r.rtp_pnl == t.totals.rtp_pnl,
        r.sl_pnl == t.totals.sl_pnl,
        held(r.net_pnl, r.rtp_pnl + r.sl_pnl),
        r.total_pnl == r.net_pnl,
        r.total_fees == t.totals.total_fees,
        r.round_trips == t.totals.rtp_count,
        r.sl_count == t.totals.sl_count,
        r.buy_volume == t.totals.buy_volume,
        r.sell_volume == t.totals.sell_volume,
        held(r.total_volume, r.buy_volume + r.sell_volume),
        r.buy_qty == t.totals.buy_qty,
        r.sell_qty == t.totals.sell_qty,
        held(r.net_qty, r.buy_qty - r.sell_qty),
        r.total_fills == t.totals.total_fills,
        r.total_buys == t.totals.total_buys,
        r.total_sells == t.totals.total_sells,
        r.buy_qty > 0 ==> rounds_to(r.buy_vwap, t.totals.buy_notional as int, r.buy_qty as int),
        r.buy_qty <= 0 ==> r.buy_vwap == 0,
        r.sell_qty > 0 ==> rounds_to(
            r.sell_vwap,
            t.totals.sell_notional as int,
            r.sell_qty as int,
        ),
        r.sell_qty <= 0 ==> r.sell_vwap == 0,
        now_ms <= t.start_time_ms ==> r.duration_seconds == 0 && r.rtp_per_hour == 0
            && r.pnl_per_hour == 0,
        forall|ms: i64| #[trigger]
            held(ms, now_ms - t.start_time_ms) && ms > 0 ==> {
                &&& r.duration_seconds * 1000 <= ms < r.duration_seconds * 1000 + 1000
                &&& rounds_to(r.rtp_per_hour, r.round_trips * 100_000_000 * 3_600_000, ms as int)
                &&& rounds_to(r.pnl_per_hour, r.net_pnl * 3_600_000, ms as int)
            },
{
    let x = t.totals;
    if x.buy_qty > 0 {
        lemma_rounds_to(x.buy_notional as int, x.buy_qty as int);
    }
    if x.sell_qty > 0 {
        lemma_rounds_to(x.sell_notional as int, x.sell_qty as int);
    }
    let ms = clamp(now_ms - t.start_time_ms) as int;
    if ms > 0 {
        lemma_rounds_to(x.rtp_count * 100_000_000 * 3_600_000, ms);
        lemma_rounds_to(r.net_pnl * 3_600_000, ms);
    }
}

/// The latest round trips come newest first, as many as were asked for while
/// there are any.
pub proof fn recent_round_trips_are_the_latest(
    t: &TradeTracker,
    limit: usize,
    r: Vec<RoundTrip>,
    i: int,
)
    requires
        call_ensures(TradeTracker::recent_round_trips, (t, limit), r),
        0 <= i < t.round_trips@.len(),
    ensures
        r@.len() <= limit,
        r@.len() == limit || r@.len() == t.round_trips@.len(),
        i < limit ==> r@[i] == t.round_trips@[t.round_trips@.len() - 1 - i],
{
}

/// A new tracker has seen nothing, and statistics start at zero.
pub proof fn trackers_start_at_zero(
    start_time_ms: i64,
    is_inverse: bool,
    t: TradeTracker,
    b: u128,
    s: TradeStats,
)
    requires
        call_ensures(TradeTracker::new, (start_time_ms, is_inverse), t),
        call_ensures(TradeStats::empty, (start_time_ms,), s),
    ensures
        t.start_time_ms == start_time_ms,
        t.is_inverse == is_inverse,
        t.queue(b).len() == 0,
        t.round_trips@.len() == 0,
        t.totals.rtp_pnl == 0 && t.totals.sl_pnl == 0,
        t.totals.rtp_count == 0 && t.totals.sl_count == 0,
        t.totals.total_fees == 0 && t.totals.buy_volume == 0 && t.totals.sell_volume == 0,
        t.totals.buy_notional == 0 && t.totals.sell_notional == 0,
        t.totals.buy_qty == 0 && t.totals.sell_qty == 0,
        t.totals.total_fills == 0 && t.totals.total_buys == 0 && t.totals.total_sells == 0,
        s.start_time == start_time_ms,
        s.duration_seconds == 0 && s.total_pnl == 0 && s.net_pnl == 0,
        s.rtp_pnl == 0 && s.sl_pnl == 0 && s.total_fees == 0,
        s.round_trips == 0 && s.sl_count == 0 && s.rtp_per_hour == 0 && s.pnl_per_hour == 0,
        s.buy_vwap == 0 && s.sell_vwap == 0 && s.total_volume == 0,
        s.buy_volume == 0 && s.sell_volume == 0 && s.buy_qty == 0 && s.sell_qty == 0,
        s.net_qty == 0 && s.total_fills == 0 && s.total_buys == 0 && s.total_sells == 0,
{
}

} // verus!
