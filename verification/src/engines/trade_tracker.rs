//! First-in-first-out round-trip pairing and cumulative trade statistics.
//!
//! An entry fill opens a lot of its basket. Any other fill closes lots of its
//! basket, oldest first. A lot remembers the side it was entered on, so the
//! result of a round trip has the right sign for longs and for shorts.
use std::collections::HashMap;
use vstd::prelude::*;

use crate::amount::{
    average, average_of, clamp, clamp_wide, clamped, exact_times, larger, max, min, minus, plus,
    plus_wide, product, rate, rate_of, ratio, scale, smaller, times,
};
use crate::engines::basket_manager::BasketManager;
use crate::models::basket::Basket;
use crate::models::order::{Fill, OrderPurpose, Side};
use crate::models::trade_stats::{RoundTrip, TradeStats};
use crate::tables::entry;

verus! {

/// An open lot that waits for a closing fill.
#[derive(Debug, Clone, Copy, PartialEq, Eq, Structural)]
pub struct Lot {
    pub entry_side: Side,
    pub price: i64,
    pub qty_remaining: i64,
    /// The size of the fill that opened the lot, and the fee it paid; together
    /// they give the fee per unit.
    pub qty_entered: i64,
    pub entry_fee: i64,
    pub time: i64,
}

/// The running totals of a tracker.
#[derive(Debug, Clone, Copy, PartialEq, Eq, Structural)]
pub struct Totals {
    pub rtp_pnl: i64,
    pub sl_pnl: i64,
    pub rtp_count: u64,
    pub sl_count: u64,
    pub total_fees: i64,
    pub buy_volume: i64,
    pub sell_volume: i64,
    /// Exact sum of price times quantity over all buys; prices the average buy.
    pub buy_notional: i128,
    pub sell_notional: i128,
    pub buy_qty: i64,
    pub sell_qty: i64,
    pub total_fills: u64,
    pub total_buys: u64,
    pub total_sells: u64,
}

/// Pairs fills into round trips and keeps the totals of a session.
pub struct TradeTracker {
    pub start_time_ms: i64,
    /// Open lots per basket, oldest first.
    pub lots: HashMap<u128, Vec<Lot>>,
    /// Completed round trips, oldest first.
    pub round_trips: Vec<RoundTrip>,
    pub totals: Totals,
    /// Quantities are in quote currency and results divide by the entry price.
    pub is_inverse: bool,
}

/// The part of a fee that falls on `take` out of `qty`.
pub open spec fn fee_share(fee: i64, qty: i64, take: i64) -> i64 {
    if qty > 0 {
        ratio(larger(fee as int, 0), take as int, qty as int)
    } else {
        0
    }
}

/// A fill's notional in quote currency.
pub open spec fn notional(qty: i64, price: i64, is_inverse: bool) -> i64 {
    if is_inverse {
        qty
    } else {
        product(qty, price)
    }
}

/// The notional of both legs of a round trip, in quote currency.
pub open spec fn turnover(qty: i64, entry_price: i64, exit_price: i64, is_inverse: bool) -> i64 {
    if is_inverse {
        clamp(qty + qty)
    } else {
        product(qty, clamp(entry_price + exit_price))
    }
}

/// The result of closing `take` of a lot at a price, before fees.
pub open spec fn gross_result(lot: Lot, take: i64, exit_price: i64, is_inverse: bool) -> i64 {
    let diff = match lot.entry_side {
        Side::Buy => clamp(exit_price - lot.price),
        Side::Sell => clamp(lot.price - exit_price),
    };
    if is_inverse && lot.price > 0 {
        ratio(diff as int, take as int, lot.price as int)
    } else {
        product(diff, take)
    }
}

/// The round trip that closes `take` of a lot, under a given identifier.
pub open spec fn trip(
    rtp_id: u128,
    lot: Lot,
    take: i64,
    fill: Fill,
    basket_index: u32,
    is_inverse: bool,
) -> RoundTrip {
    let gross = gross_result(lot, take, fill.price, is_inverse);
    let fees = clamp(
        fee_share(lot.entry_fee, lot.qty_entered, take) + fee_share(fill.fee, fill.qty, take),
    );
    RoundTrip {
        rtp_id,
        basket_id: fill.basket_id,
        basket_index,
        entry_side: lot.entry_side,
        entry_price: lot.price,
        exit_price: fill.price,
        qty: take,
        gross_pnl: gross,
        fees,
        pnl: clamp(gross - fees),
        volume: turnover(take, lot.price, fill.price, is_inverse),
        entry_time: lot.time,
        exit_time: fill.timestamp,
        is_take_profit: fill.purpose == OrderPurpose::TakeProfit,
    }
}

/// A round trip with its random identifier left out.
pub open spec fn unnamed(t: RoundTrip) -> RoundTrip {
    RoundTrip { rtp_id: 0, ..t }
}

/// The lots that are left when `left` is closed against `lots`, oldest first.
pub open spec fn lots_left(lots: Seq<Lot>, left: i64) -> Seq<Lot>
    decreases lots.len(),
{
    if left <= 0 || lots.len() == 0 {
        lots
    } else if left >= lots[0].qty_remaining {
        lots_left(lots.drop_first(), clamp(left - lots[0].qty_remaining))
    } else {
        lots.update(0, Lot { qty_remaining: (lots[0].qty_remaining - left) as i64, ..lots[0] })
    }
}

/// The round trips made when `left` of a fill is closed against `lots`, oldest
/// first, identifiers left out.
pub open spec fn trips_made(
    lots: Seq<Lot>,
    left: i64,
    fill: Fill,
    basket_index: u32,
    is_inverse: bool,
) -> Seq<RoundTrip>
    decreases lots.len(),
{
    if left <= 0 || lots.len() == 0 {
        Seq::empty()
    } else if left >= lots[0].qty_remaining {
        seq![trip(0, lots[0], lots[0].qty_remaining, fill, basket_index, is_inverse)] + trips_made(
            lots.drop_first(),
            clamp(left - lots[0].qty_remaining),
            fill,
            basket_index,
            is_inverse,
        )
    } else {
        seq![trip(0, lots[0], left, fill, basket_index, is_inverse)]
    }
}

/// The summed net results of round trips.
pub open spec fn pnl_sum(trips: Seq<RoundTrip>) -> int
    decreases trips.len(),
{
    if trips.len() == 0 {
        0
    } else {
        pnl_sum(trips.drop_last()) + trips.last().pnl
    }
}

/// The lot that an entry fill opens.
pub open spec fn lot_of(fill: Fill) -> Lot {
    Lot {
        entry_side: fill.side,
        price: fill.price,
        qty_remaining: fill.qty,
        qty_entered: fill.qty,
        entry_fee: fill.fee,
        time: fill.timestamp,
    }
}

impl Totals {
    /// All zero.
    pub open spec fn zero() -> Totals {
        Totals {
            rtp_pnl: 0,
            sl_pnl: 0,
            rtp_count: 0,
            sl_count: 0,
            total_fees: 0,
            buy_volume: 0,
            sell_volume: 0,
            buy_notional: 0,
            sell_notional: 0,
            buy_qty: 0,
            sell_qty: 0,
            total_fills: 0,
            total_buys: 0,
            total_sells: 0,
        }
    }

    /// The totals with one more fill counted.
    pub open spec fn counted(self, fill: Fill, is_inverse: bool) -> Totals {
        let t = Totals {
            total_fills: self.total_fills.wrapping_add(1),
            total_fees: clamp(self.total_fees + larger(fill.fee as int, 0)),
            ..self
        };
        match fill.side {
            Side::Buy => Totals {
                total_buys: self.total_buys.wrapping_add(1),
                buy_qty: clamp(self.buy_qty + fill.qty),
                buy_volume: clamp(self.buy_volume + notional(fill.qty, fill.price, is_inverse)),
                buy_notional: clamp_wide(self.buy_notional + fill.price * fill.qty),
                ..t
            },
            Side::Sell => Totals {
                total_sells: self.total_sells.wrapping_add(1),
                sell_qty: clamp(self.sell_qty + fill.qty),
                sell_volume: clamp(self.sell_volume + notional(fill.qty, fill.price, is_inverse)),
                sell_notional: clamp_wide(self.sell_notional + fill.price * fill.qty),
                ..t
            },
        }
    }

    /// The totals with the round trips of one closing fill booked: take-profit
    /// results and counts apart from all others.
    pub open spec fn booked(self, trips: Seq<RoundTrip>, is_take_profit: bool) -> Totals {
        if is_take_profit {
            Totals {
                rtp_pnl: clamp(self.rtp_pnl + pnl_sum(trips)),
                rtp_count: self.rtp_count.wrapping_add(trips.len() as u64),
                ..self
            }
        } else {
            Totals {
                sl_pnl: clamp(self.sl_pnl + pnl_sum(trips)),
                sl_count: self.sl_count.wrapping_add(trips.len() as u64),
                ..self
            }
        }
    }
}

/// The part of a fee that falls on `take` out of `qty`.
fn share_of_fee(fee: i64, qty: i64, take: i64) -> (r: i64)
    ensures
        r == fee_share(fee, qty, take),
{
    if qty > 0 {
        scale(max(fee, 0), take, qty)
    } else {
        0
    }
}

/// A fill's notional in quote currency.
fn notional_of(qty: i64, price: i64, is_inverse: bool) -> (r: i64)
    ensures
        r == notional(qty, price, is_inverse),
{
    if is_inverse {
        qty
    } else {
        times(qty, price)
    }
}

/// The notional of both legs of a round trip, in quote currency.
fn turnover_of(qty: i64, entry_price: i64, exit_price: i64, is_inverse: bool) -> (r: i64)
    ensures
        r == turnover(qty, entry_price, exit_price, is_inverse),
{
    if is_inverse {
        plus(qty, qty)
    } else {
        times(qty, plus(entry_price, exit_price))
    }
}

/// The round trip that closes `take` of a lot, under a given identifier.
pub fn round_trip(
    rtp_id: u128,
    lot: Lot,
    take: i64,
    fill: &Fill,
    basket_index: u32,
    is_inverse: bool,
) -> (r: RoundTrip)
    ensures
        r == trip(rtp_id, lot, take, *fill, basket_index, is_inverse),
{
    let diff: i64 = match lot.entry_side {
        Side::Buy => minus(fill.price, lot.price),
        Side::Sell => minus(lot.price, fill.price),
    };
    let gross: i64 = if is_inverse && lot.price > 0 {
        scale(diff, take, lot.price)
    } else {
        times(diff, take)
    };
    let fees: i64 = plus(
        share_of_fee(lot.entry_fee, lot.qty_entered, take),
        share_of_fee(fill.fee, fill.qty, take),
    );
    RoundTrip {
        rtp_id,
        basket_id: fill.basket_id,
        basket_index,
        entry_side: lot.entry_side,
        entry_price: lot.price,
        exit_price: fill.price,
        qty: take,
        gross_pnl: gross,
        fees,
        pnl: minus(gross, fees),
        volume: turnover_of(take, lot.price, fill.price, is_inverse),
        entry_time: lot.time,
        exit_time: fill.timestamp,
        is_take_profit: fill.purpose == OrderPurpose::TakeProfit,
    }
}

/// Closes a fill against lots, oldest first, and hands out the round trips.
pub fn close_lots(
    lots: &mut Vec<Lot>,
    fill: &Fill,
    basket_index: u32,
    is_inverse: bool,
) -> (trips: Vec<RoundTrip>)
    ensures
        final(lots)@ == lots_left(old(lots)@, fill.qty),
        trips@.map_values(|t: RoundTrip| unnamed(t)) == trips_made(
            old(lots)@,
            fill.qty,
            *fill,
            basket_index,
            is_inverse,
        ),
        forall|i: int|
            0 <= i < trips@.len() ==> crate::ids::is_random_id((#[trigger] trips@[i]).rtp_id),
{
    let mut trips: Vec<RoundTrip> = Vec::new();
    let mut left: i64 = fill.qty;
    let ghost bare = |t: RoundTrip| unnamed(t);
    proof {
        assert(trips@.map_values(bare) + trips_made(lots@, left, *fill, basket_index, is_inverse)
            =~= trips_made(lots@, left, *fill, basket_index, is_inverse));
    }
    while left > 0 && lots.len() > 0
        invariant
            bare == (|t: RoundTrip| unnamed(t)),
            lots_left(lots@, left) == lots_left(old(lots)@, fill.qty),
            trips@.map_values(bare) + trips_made(lots@, left, *fill, basket_index, is_inverse)
                == trips_made(old(lots)@, fill.qty, *fill, basket_index, is_inverse),
            forall|i: int|
                0 <= i < trips@.len() ==> crate::ids::is_random_id((#[trigger] trips@[i]).rtp_id),
        decreases lots@.len(), left,
    {
        let lot: Lot = lots[0];
        let take: i64 = min(left, lot.qty_remaining);
        let t: RoundTrip = round_trip(
            crate::ids::fresh_id(),
            lot,
            take,
            fill,
            basket_index,
            is_inverse,
        );
        let ghost lots0 = lots@;
        let ghost trips0 = trips@;
        let ghost left0 = left;
        if take == lot.qty_remaining {
            let _ = lots.remove(0);
            proof {
                assert(lots@ =~= lots0.drop_first());
            }
        } else {
            lots.set(0, Lot { qty_remaining: lot.qty_remaining - take, ..lot });
        }
        left = minus(left, take);
        trips.push(t);
        proof {
            let one = trip(0, lot, take, *fill, basket_index, is_inverse);
            assert(unnamed(t) == one);
            assert(trips@.map_values(bare) =~= trips0.map_values(bare) + seq![one]);
            let rest = trips_made(lots@, left, *fill, basket_index, is_inverse);
            assert(trips_made(lots0, left0, *fill, basket_index, is_inverse) =~= seq![one] + rest);
            assert(trips@.map_values(bare) + rest =~= trips0.map_values(bare) + (seq![one]
                + rest));
        }
    }
    proof {
        assert(trips@.map_values(bare) + trips_made(lots@, left, *fill, basket_index, is_inverse)
            =~= trips@.map_values(bare));
    }
    trips
}

impl TradeTracker {
    /// The open lots of a basket, oldest first.
    pub open spec fn queue(&self, basket_id: u128) -> Seq<Lot> {
        if self.lots@.dom().contains(basket_id) {
            self.lots@[basket_id]@
        } else {
            Seq::empty()
        }
    }

    /// A tracker that has seen no fill.
    pub fn new(start_time_ms: i64, is_inverse: bool) -> (r: Self)
        ensures
            r.start_time_ms == start_time_ms,
            r.is_inverse == is_inverse,
            forall|b: u128| #[trigger] r.queue(b) == Seq::<Lot>::empty(),
            r.round_trips@ == Seq::<RoundTrip>::empty(),
            r.totals == Totals::zero(),
    {
        TradeTracker {
            start_time_ms,
            lots: HashMap::new(),
            round_trips: Vec::new(),
            totals: Totals {
                rtp_pnl: 0,
                sl_pnl: 0,
                rtp_count: 0,
                sl_count: 0,
                total_fees: 0,
                buy_volume: 0,
                sell_volume: 0,
                buy_notional: 0,
                sell_notional: 0,
                buy_qty: 0,
                sell_qty: 0,
                total_fills: 0,
                total_buys: 0,
                total_sells: 0,
            },
            is_inverse,
        }
    }

    /// Counts a fill.
    fn count_fill(&mut self, fill: &Fill)
        ensures
            final(self).totals == old(self).totals.counted(*fill, old(self).is_inverse),
            final(self).start_time_ms == old(self).start_time_ms,
            final(self).lots == old(self).lots,
            final(self).round_trips == old(self).round_trips,
            final(self).is_inverse == old(self).is_inverse,
    {
        let mut t: Totals = self.totals;
        t.total_fills = t.total_fills.wrapping_add(1);
        t.total_fees = plus(t.total_fees, max(fill.fee, 0));
        let value: i64 = notional_of(fill.qty, fill.price, self.is_inverse);
        let priced: i128 = exact_times(fill.price, fill.qty);
        match fill.side {
            Side::Buy => {
                t.total_buys = t.total_buys.wrapping_add(1);
                t.buy_qty = plus(t.buy_qty, fill.qty);
                t.buy_volume = plus(t.buy_volume, value);
                t.buy_notional = plus_wide(t.buy_notional, priced);
            },
            Side::Sell => {
                t.total_sells = t.total_sells.wrapping_add(1);
                t.sell_qty = plus(t.sell_qty, fill.qty);
                t.sell_volume = plus(t.sell_volume, value);
                t.sell_notional = plus_wide(t.sell_notional, priced);
            },
        }
        self.totals = t;
    }

    /// `after` is the tracker once it has taken in a fill. Every fill is
    /// counted. An entry opens a lot of its basket; any other fill closes lots
    /// of its basket, oldest first, and books one round trip per lot that it
    /// touches, under the basket's index, or zero when the book lacks it.
    pub open spec fn took_in(
        &self,
        after: &TradeTracker,
        book: Map<u128, Basket>,
        fill: Fill,
    ) -> bool {
        &&& after.start_time_ms == self.start_time_ms
        &&& after.is_inverse == self.is_inverse
        &&& forall|b: u128|
            b != fill.basket_id ==> #[trigger] after.queue(b) == self.queue(b)
        &&& fill.purpose == OrderPurpose::Entry ==> {
            &&& after.queue(fill.basket_id) == self.queue(fill.basket_id).push(
                lot_of(fill),
            )
            &&& after.round_trips@ == self.round_trips@
            &&& after.totals == self.totals.counted(fill, self.is_inverse)
        }
        &&& fill.purpose != OrderPurpose::Entry ==> {
            let index = match entry(book, fill.basket_id) {
                Some(b) => b.index,
                None => 0u32,
            };
            let made = trips_made(
                self.queue(fill.basket_id),
                fill.qty,
                fill,
                index,
                self.is_inverse,
            );
            let kept = self.round_trips@.len() as int;
            &&& after.queue(fill.basket_id) == lots_left(
                self.queue(fill.basket_id),
                fill.qty,
            )
            &&& after.round_trips@.len() == kept + made.len()
            &&& after.round_trips@.take(kept) == self.round_trips@
            &&& after.round_trips@.skip(kept).map_values(|t: RoundTrip| unnamed(t))
                == made
            &&& forall|i: int|
                kept <= i < after.round_trips@.len() ==> crate::ids::is_random_id(
                    (#[trigger] after.round_trips@[i]).rtp_id,
                )
            &&& after.totals == self.totals.counted(
                fill,
                self.is_inverse,
            ).booked(made, fill.purpose == OrderPurpose::TakeProfit)
        }
    }

    /// Takes in a fill. Every fill is counted. An entry opens a lot of its
    /// basket; any other fill closes lots of its basket, oldest first, and
    /// books one round trip per lot it touches. `basket_index` is that of the
    /// fill's basket, zero when the manager does not know it.
    pub fn ingest(&mut self, basket_mgr: &BasketManager, fill: &Fill)
        ensures
            old(self).took_in(final(self), basket_mgr.book(), *fill),
    {
        broadcast use vstd::std_specs::hash::group_hash_axioms;

        self.count_fill(fill);
        let mut lots: Vec<Lot> = match self.lots.remove(&fill.basket_id) {
            Some(v) => v,
            None => Vec::new(),
        };
        assert(lots@ =~= old(self).queue(fill.basket_id));
        if fill.purpose == OrderPurpose::Entry {
            lots.push(
                Lot {
                    entry_side: fill.side,
                    price: fill.price,
                    qty_remaining: fill.qty,
                    qty_entered: fill.qty,
                    entry_fee: fill.fee,
                    time: fill.timestamp,
                },
            );
            let _ = self.lots.insert(fill.basket_id, lots);
            return;
        }
        let index: u32 = match basket_mgr.get(fill.basket_id) {
            Some(b) => b.index,
            None => 0,
        };
        let mut trips: Vec<RoundTrip> = close_lots(&mut lots, fill, index, self.is_inverse);
        let _ = self.lots.insert(fill.basket_id, lots);
        let n: usize = trips.len();
        let mut sum: i128 = 0;
        let mut i: usize = 0;
        while i < n
            invariant
                i <= n == trips@.len(),
                sum == pnl_sum(trips@.take(i as int)),
                -0x8000_0000_0000_0000 * i <= sum <= 0x8000_0000_0000_0000 * i,
            decreases n - i,
        {
            proof {
                assert(trips@.take(i + 1).drop_last() =~= trips@.take(i as int));
            }
            sum = sum + trips[i].pnl as i128;
            i += 1;
        }
        proof {
            assert(trips@.take(n as int) =~= trips@);
            lemma_pnl_sum_unnamed(trips@);
            assert(pnl_sum(trips@) == pnl_sum(trips@.map_values(|t: RoundTrip| unnamed(t))));
        }
        let mut t: Totals = self.totals;
        if fill.purpose == OrderPurpose::TakeProfit {
            t.rtp_pnl = clamped(t.rtp_pnl as i128 + sum);
            t.rtp_count = t.rtp_count.wrapping_add(n as u64);
        } else {
            t.sl_pnl = clamped(t.sl_pnl as i128 + sum);
            t.sl_count = t.sl_count.wrapping_add(n as u64);
        }
        self.totals = t;
        let ghost fresh = trips@;
        self.round_trips.append(&mut trips);
        proof {
            let kept = old(self).round_trips@.len() as int;
            assert(self.round_trips@ =~= old(self).round_trips@ + fresh);
            assert(self.round_trips@.take(kept) =~= old(self).round_trips@);
            assert(self.round_trips@.skip(kept) =~= fresh);
        }
    }

    /// The statistics of the session at a moment.
    pub open spec fn stats_at(&self, now_ms: i64) -> TradeStats {
        let t = self.totals;
        let ms = larger(clamp(now_ms - self.start_time_ms) as int, 0) as i64;
        let net_pnl = clamp(t.rtp_pnl + t.sl_pnl);
        TradeStats {
            start_time: self.start_time_ms,
            duration_seconds: (ms / 1000) as i64,
            total_pnl: net_pnl,
            net_pnl,
            rtp_pnl: t.rtp_pnl,
            sl_pnl: t.sl_pnl,
            total_fees: t.total_fees,
            round_trips: t.rtp_count,
            sl_count: t.sl_count,
            rtp_per_hour: if ms > 0 {
                rate(t.rtp_count, 3_600_000, ms)
            } else {
                0
            },
            pnl_per_hour: if ms > 0 {
                ratio(net_pnl as int, 3_600_000, ms as int)
            } else {
                0
            },
            buy_vwap: if t.buy_qty > 0 {
                average(t.buy_notional, t.buy_qty)
            } else {
                0
            },
            sell_vwap: if t.sell_qty > 0 {
                average(t.sell_notional, t.sell_qty)
            } else {
                0
            },
            total_volume: clamp(t.buy_volume + t.sell_volume),
            buy_volume: t.buy_volume,
            sell_volume: t.sell_volume,
            buy_qty: t.buy_qty,
            sell_qty: t.sell_qty,
            net_qty: clamp(t.buy_qty - t.sell_qty),
            total_fills: t.total_fills,
            total_buys: t.total_buys,
            total_sells: t.total_sells,
        }
    }

    /// The statistics of the session so far. Rates are per hour since the
    /// start, zero before any time has passed.
    pub fn stats(&self, now_ms: i64) -> (r: TradeStats)
        ensures
            r == self.stats_at(now_ms),
    {
        let t: Totals = self.totals;
        let ms: i64 = max(minus(now_ms, self.start_time_ms), 0);
        let net_pnl: i64 = plus(t.rtp_pnl, t.sl_pnl);
        let mut rtp_per_hour: i64 = 0;
        let mut pnl_per_hour: i64 = 0;
        if ms > 0 {
            rtp_per_hour = rate_of(t.rtp_count, 3_600_000, ms);
            pnl_per_hour = scale(net_pnl, 3_600_000, ms);
        }
        let buy_vwap: i64 = if t.buy_qty > 0 {
            average_of(t.buy_notional, t.buy_qty)
        } else {
            0
        };
        let sell_vwap: i64 = if t.sell_qty > 0 {
            average_of(t.sell_notional, t.sell_qty)
        } else {
            0
        };
        TradeStats {
            start_time: self.start_time_ms,
            duration_seconds: ms / 1000,
            total_pnl: net_pnl,
            net_pnl,
            rtp_pnl: t.rtp_pnl,
            sl_pnl: t.sl_pnl,
            total_fees: t.total_fees,
            round_trips: t.rtp_count,
            sl_count: t.sl_count,
            rtp_per_hour,
            pnl_per_hour,
            buy_vwap,
            sell_vwap,
            total_volume: plus(t.buy_volume, t.sell_volume),
            buy_volume: t.buy_volume,
            sell_volume: t.sell_volume,
            buy_qty: t.buy_qty,
            sell_qty: t.sell_qty,
            net_qty: minus(t.buy_qty, t.sell_qty),
            total_fills: t.total_fills,
            total_buys: t.total_buys,
            total_sells: t.total_sells,
        }
    }

    /// The latest round trips, newest first, at most `limit` of them.
    pub fn recent_round_trips(&self, limit: usize) -> (r: Vec<RoundTrip>)
        ensures
            r@.len() == smaller(limit as int, self.round_trips@.len() as int),
            forall|i: int|
                0 <= i < r@.len() ==> #[trigger] r@[i] == self.round_trips@[self.round_trips@.len()
                    - 1 - i],
    {
        let mut out: Vec<RoundTrip> = Vec::new();
        let n: usize = self.round_trips.len();
        while out.len() < limit && out.len() < n
            invariant
                n == self.round_trips@.len(),
                out@.len() <= limit,
                out@.len() <= n,
                forall|i: int| 0 <= i < out@.len() ==> #[trigger] out@[i] == self.round_trips@[n - 1
                    - i],
            decreases n - out@.len(),
        {
            let t: RoundTrip = self.round_trips[n - 1 - out.len()];
            out.push(t);
        }
        out
    }
}

/// Identifiers do not enter the sum of results.
proof fn lemma_pnl_sum_unnamed(trips: Seq<RoundTrip>)
    ensures
        pnl_sum(trips) == pnl_sum(trips.map_values(|t: RoundTrip| unnamed(t))),
    decreases trips.len(),
{
    if trips.len() > 0 {
        lemma_pnl_sum_unnamed(trips.drop_last());
        assert(trips.map_values(|t: RoundTrip| unnamed(t)).drop_last() =~= trips.drop_last().map_values(
            |t: RoundTrip| unnamed(t),
        ));
    }
}

/// The open quantity of lots.
pub open spec fn lots_qty(lots: Seq<Lot>) -> int
    decreases lots.len(),
{
    if lots.len() == 0 {
        0
    } else {
        lots[0].qty_remaining + lots_qty(lots.drop_first())
    }
}

/// The closed quantity of round trips.
pub open spec fn trips_qty(trips: Seq<RoundTrip>) -> int
    decreases trips.len(),
{
    if trips.len() == 0 {
        0
    } else {
        trips[0].qty + trips_qty(trips.drop_first())
    }
}

/// No lot is open for less than nothing.
pub open spec fn lots_wf(lots: Seq<Lot>) -> bool {
    forall|i: int| 0 <= i < lots.len() ==> (#[trigger] lots[i]).qty_remaining >= 0
}

/// What is left of a front lot.
proof fn lemma_lots_qty(lots: Seq<Lot>)
    requires
        lots_wf(lots),
    ensures
        lots_qty(lots) >= 0,
        lots.len() > 0 ==> lots_wf(lots.drop_first()),
    decreases lots.len(),
{
    if lots.len() > 0 {
        let rest = lots.drop_first();
        assert forall|i: int| 0 <= i < rest.len() implies (#[trigger] rest[i]).qty_remaining
            >= 0 by {
            assert(rest[i] == lots[i + 1]);
        }
        lemma_lots_qty(rest);
    }
}

/// Closing moves quantity from lots to round trips and loses none: as much is
/// closed as was asked for, or all there is.
pub proof fn closing_conserves_quantity(
    lots: Seq<Lot>,
    left: i64,
    fill: Fill,
    basket_index: u32,
    is_inverse: bool,
)
    requires
        lots_wf(lots),
    ensures
        lots_wf(lots_left(lots, left)),
        lots_qty(lots_left(lots, left)) + trips_qty(
            trips_made(lots, left, fill, basket_index, is_inverse),
        ) == lots_qty(lots),
        trips_qty(trips_made(lots, left, fill, basket_index, is_inverse)) == smaller(
            larger(left as int, 0),
            lots_qty(lots),
        ),
    decreases lots.len(),
{
    reveal_with_fuel(trips_qty, 2);
    lemma_lots_qty(lots);
    let made = trips_made(lots, left, fill, basket_index, is_inverse);
    if left > 0 && lots.len() > 0 {
        let q = lots[0].qty_remaining;
        let rest = lots.drop_first();
        lemma_lots_qty(rest);
        if left >= q {
            closing_conserves_quantity(
                rest,
                clamp(left - q),
                fill,
                basket_index,
                is_inverse,
            );
            let tail = trips_made(rest, clamp(left - q), fill, basket_index, is_inverse);
            assert(made.drop_first() =~= tail);
        } else {
            let after = lots_left(lots, left);
            assert(after.drop_first() =~= rest);
            assert forall|i: int| 0 <= i < after.len() implies (#[trigger] after[i]).qty_remaining
                >= 0 by {
                if i > 0 {
                    assert(after[i] == lots[i]);
                }
            }
            assert(made.drop_first() =~= Seq::empty());
        }
    }
}

/// Lots are closed first in, first out: the i-th round trip of a fill closes
/// the i-th oldest lot, and carries its side, price and time.
pub proof fn oldest_lots_close_first(
    lots: Seq<Lot>,
    left: i64,
    fill: Fill,
    basket_index: u32,
    is_inverse: bool,
    i: int,
)
    requires
        0 <= i < trips_made(lots, left, fill, basket_index, is_inverse).len(),
    ensures
        i < lots.len(),
        ({
            let t = trips_made(lots, left, fill, basket_index, is_inverse)[i];
            &&& t.entry_side == lots[i].entry_side
            &&& t.entry_price == lots[i].price
            &&& t.entry_time == lots[i].time
            &&& t.exit_price == fill.price
            &&& t.pnl == clamp(t.gross_pnl - t.fees)
        }),
    decreases lots.len(),
{
    if left > 0 && lots.len() > 0 && left >= lots[0].qty_remaining && i > 0 {
        oldest_lots_close_first(
            lots.drop_first(),
            clamp(left - lots[0].qty_remaining),
            fill,
            basket_index,
            is_inverse,
            i - 1,
        );
    }
}

/// Closing in two fills leaves what closing in one leaves.
pub proof fn closing_adds_up(lots: Seq<Lot>, a: i64, b: i64)
    requires
        lots_wf(lots),
        a >= 0,
        b >= 0,
        a + b <= i64::MAX,
    ensures
        lots_left(lots_left(lots, a), b) == lots_left(lots, (a + b) as i64),
    decreases lots.len(),
{
    lemma_lots_qty(lots);
    if lots.len() > 0 && a > 0 && b > 0 {
        let q = lots[0].qty_remaining;
        let rest = lots.drop_first();
        if a >= q {
            closing_adds_up(rest, (a - q) as i64, b);
        } else {
            let mid = lots_left(lots, a);
            assert(mid.drop_first() =~= rest);
            assert(lots_left(mid, b) =~= lots_left(lots, (a + b) as i64));
        }
    }
}

/// A ratio of amounts has the sign of its parts.
proof fn lemma_ratio_sign(a: int, b: int, c: int)
    requires
        b >= 0,
        c > 0,
    ensures
        a >= 0 ==> ratio(a, b, c) >= 0,
        a <= 0 ==> ratio(a, b, c) <= 0,
{
    let n = a * b;
    assert(0int % c == 0 && 0int / c == 0) by (nonlinear_arith)
        requires
            c > 0,
    ;
    if a >= 0 {
        assert(n >= 0) by (nonlinear_arith)
            requires
                n == a * b,
                a >= 0,
                b >= 0,
        ;
        assert(n / c >= 0) by (nonlinear_arith)
            requires
                n >= 0,
                c > 0,
        ;
    }
    if a <= 0 {
        assert(-n >= 0) by (nonlinear_arith)
            requires
                n == a * b,
                a <= 0,
                b >= 0,
        ;
        assert((-n) / c >= 0) by (nonlinear_arith)
            requires
                -n >= 0,
                c > 0,
        ;
    }
}

/// A long lot gains when it closes above its entry, a short one when it closes
/// below, and each loses the other way round.
pub proof fn results_have_the_right_sign(lot: Lot, take: i64, exit_price: i64, is_inverse: bool)
    requires
        take >= 0,
    ensures
        ({
            let gross = gross_result(lot, take, exit_price, is_inverse);
            match lot.entry_side {
                Side::Buy => (exit_price >= lot.price ==> gross >= 0) && (exit_price <= lot.price
                    ==> gross <= 0),
                Side::Sell => (exit_price <= lot.price ==> gross >= 0) && (exit_price >= lot.price
                    ==> gross <= 0),
            }
        }),
{
    let diff = match lot.entry_side {
        Side::Buy => clamp(exit_price - lot.price),
        Side::Sell => clamp(lot.price - exit_price),
    };
    if is_inverse && lot.price > 0 {
        lemma_ratio_sign(diff as int, take as int, lot.price as int);
    } else {
        lemma_ratio_sign(diff as int, take as int, crate::amount::UNIT as int);
    }
}

/// Every fill is a buy or a sell: the count of fills stays the sum of both,
/// as counters wrap.
pub proof fn fills_are_buys_and_sells(t: Totals, fill: Fill, is_inverse: bool)
    requires
        t.total_fills == t.total_buys.wrapping_add(t.total_sells),
    ensures
        ({
            let after = t.counted(fill, is_inverse);
            after.total_fills == after.total_buys.wrapping_add(after.total_sells)
        }),
{
}

} // verus!
