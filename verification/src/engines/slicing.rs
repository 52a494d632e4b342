//! Emergency exits: a position is closed in market slices sized to the book.
use vstd::prelude::*;

use crate::amount::{
    abs, clamp, clamped, gap, larger, max, min, minus, product, ratio, scale, smaller, times, UNIT,
};
use crate::models::config::EmergencySlicingConfig;
use crate::models::order::{OrderBook, OrderBookLevel, Side};

verus! {

/// What an exit may leave open and still count as flat: a millionth of a unit.
pub const LEFTOVER: i64 = 100;

/// Sizes the slices of an emergency exit.
#[derive(Debug, Clone, Copy, PartialEq, Eq, Structural)]
pub struct SlicingEngine {
    pub config: EmergencySlicingConfig,
}

/// An exit in progress.
#[derive(Debug, Clone, Copy, PartialEq, Eq, Structural)]
pub struct FlattenRun {
    pub qty_remaining: i64,
    pub attempts: u32,
    /// The price of the last slice; zero before any.
    pub last_price: i64,
}

/// What an exit does next.
#[derive(Debug, Clone, Copy, PartialEq, Eq, Structural)]
pub enum FlattenStep {
    /// Send everything in one order.
    SingleShot { qty: i64 },
    /// Read the book and send the slice that it allows.
    Slice,
    /// Everything is out; the exit price is that of the last slice.
    Done { exit_price: i64 },
    /// The attempts are used up and this much is left; the last slice had
    /// this price.
    GaveUp { left: i64, last_price: i64 },
}

/// The size that the first `levels` of a side offer.
pub open spec fn depth(side: Seq<OrderBookLevel>, levels: nat) -> int
    decreases levels,
{
    if levels == 0 || side.len() == 0 {
        0
    } else if levels > side.len() {
        depth(side, side.len())
    } else {
        depth(side, (levels - 1) as nat) + side[levels - 1].size
    }
}

/// The side of the book that an exit trades against: sells hit bids, buys
/// lift asks.
pub open spec fn opposing(book: OrderBook, side_to_close: Side) -> Seq<OrderBookLevel> {
    match side_to_close {
        Side::Sell => book.bids@,
        Side::Buy => book.asks@,
    }
}

impl FlattenRun {
    /// An exit that has sent nothing yet.
    pub open spec fn of(qty: i64) -> FlattenRun {
        FlattenRun { qty_remaining: qty, attempts: 0, last_price: 0 }
    }

    /// The exit after a slice went out at a price.
    pub open spec fn after(self, slice: i64, price: i64) -> FlattenRun {
        FlattenRun {
            qty_remaining: clamp(self.qty_remaining - slice),
            attempts: self.attempts.wrapping_add(1),
            last_price: price,
        }
    }
}

impl SlicingEngine {
    /// A slicing engine with these limits.
    pub fn new(config: EmergencySlicingConfig) -> (r: Self)
        ensures
            r.config == config,
    {
        SlicingEngine { config }
    }

    /// Starts the exit of `qty`.
    pub fn begin(&self, qty: i64) -> (r: FlattenRun)
        ensures
            r == FlattenRun::of(qty),
    {
        FlattenRun { qty_remaining: qty, attempts: 0, last_price: 0 }
    }

    /// What an exit does next. Without slicing, one order for everything.
    /// With it, slices until nothing is left. An exit that may send no more
    /// has given up while something is left.
    pub open spec fn step_of(self, run: FlattenRun) -> FlattenStep {
        if !self.config.enabled && run.attempts == 0 {
            FlattenStep::SingleShot { qty: run.qty_remaining }
        } else if run.qty_remaining <= 0 {
            FlattenStep::Done { exit_price: run.last_price }
        } else if self.config.enabled && run.attempts < self.config.max_slice_attempts {
            FlattenStep::Slice
        } else {
            FlattenStep::GaveUp { left: run.qty_remaining, last_price: run.last_price }
        }
    }

    /// The slice that a book allows: no more than is left, no more than the
    /// slice cap, and no more than the participation in the visible depth, but
    /// that one is at least a tenth of the slice cap.
    pub open spec fn slice_of(self, run: FlattenRun, book: OrderBook, side_to_close: Side) -> i64 {
        let offered = clamp(
            depth(opposing(book, side_to_close), self.config.book_depth_levels as nat),
        );
        smaller(
            smaller(run.qty_remaining as int, self.config.max_slice_qty as int),
            larger(
                product(offered, self.config.participation_rate) as int,
                ratio(self.config.max_slice_qty as int, 1, 10) as int,
            ),
        ) as i64
    }

    /// What an exit does next.
    pub fn flatten(&self, run: &FlattenRun) -> (r: FlattenStep)
        ensures
            r == self.step_of(*run),
    {
        if !self.config.enabled && run.attempts == 0 {
            FlattenStep::SingleShot { qty: run.qty_remaining }
        } else if run.qty_remaining <= 0 {
            FlattenStep::Done { exit_price: run.last_price }
        } else if self.config.enabled && run.attempts < self.config.max_slice_attempts {
            FlattenStep::Slice
        } else {
            FlattenStep::GaveUp { left: run.qty_remaining, last_price: run.last_price }
        }
    }

    /// The slice that a book allows.
    pub fn slice(&self, run: &FlattenRun, book: &OrderBook, side_to_close: Side) -> (r: i64)
        ensures
            r == self.slice_of(*run, *book, side_to_close),
            r <= run.qty_remaining,
            r <= self.config.max_slice_qty,
    {
        let offered: i64 = match side_to_close {
            Side::Sell => visible_depth(&book.bids, self.config.book_depth_levels),
            Side::Buy => visible_depth(&book.asks, self.config.book_depth_levels),
        };
        let participation: i64 = times(offered, self.config.participation_rate);
        let tenth: i64 = scale(self.config.max_slice_qty, 1, 10);
        min(min(run.qty_remaining, self.config.max_slice_qty), max(participation, tenth))
    }

    /// Books a slice that went out at a price.
    pub fn sliced(&self, run: &mut FlattenRun, slice: i64, price: i64)
        ensures
            *final(run) == old(run).after(slice, price),
    {
        run.qty_remaining = minus(run.qty_remaining, slice);
        run.attempts = run.attempts.wrapping_add(1);
        run.last_price = price;
    }

    /// What came of an exit that sends no more: the price of its last slice, or
    /// what it left open, where that is more than a millionth of a unit.
    pub fn outcome(&self, run: &FlattenRun) -> (r: Result<i64, i64>)
        ensures
            r == if run.qty_remaining > LEFTOVER {
                Err::<i64, i64>(run.qty_remaining)
            } else {
                Ok::<i64, i64>(run.last_price)
            },
    {
        if run.qty_remaining > LEFTOVER {
            Err(run.qty_remaining)
        } else {
            Ok(run.last_price)
        }
    }

    /// A slice at `price` slipped more basis points from `mid` than allowed.
    pub open spec fn slips(self, price: i64, mid: i64) -> bool {
        let moved = abs(price - mid) * (10_000 * UNIT);
        let allowed = self.config.max_slippage_bps * mid;
        if mid > 0 {
            moved > allowed
        } else if mid == 0 {
            price != 0
        } else {
            moved < allowed
        }
    }

    /// A slice at `price` slipped more basis points from `mid` than allowed.
    pub fn slippage_exceeded(&self, price: i64, mid: i64) -> (r: bool)
        ensures
            r == self.slips(price, mid),
    {
        proof {
            let g = abs(price - mid);
            assert(0 <= g * (10_000 * UNIT) <= 0x1_0000_0000_0000_0000 * (10_000
                * 100_000_000)) by (nonlinear_arith)
                requires
                    0 <= g <= 0x1_0000_0000_0000_0000,
                    UNIT == 100_000_000,
            ;
            let c = self.config.max_slippage_bps as int;
            let m = mid as int;
            assert(-0x4000_0000_0000_0000_0000_0000_0000_0000 <= c * m
                <= 0x4000_0000_0000_0000_0000_0000_0000_0000) by (nonlinear_arith)
                requires
                    -0x8000_0000_0000_0000 <= c <= 0x8000_0000_0000_0000,
                    -0x8000_0000_0000_0000 <= m <= 0x8000_0000_0000_0000,
            ;
        }
        let moved: i128 = gap(price, mid) as i128 * 1_000_000_000_000;
        let allowed: i128 = self.config.max_slippage_bps as i128 * mid as i128;
        if mid > 0 {
            moved > allowed
        } else if mid == 0 {
            price != 0
        } else {
            moved < allowed
        }
    }
}

/// The size that the first `levels` of a side offer.
fn visible_depth(side: &Vec<OrderBookLevel>, levels: u32) -> (r: i64)
    ensures
        r == clamp(depth(side@, levels as nat)),
{
    let mut sum: i128 = 0;
    let mut n: u32 = 0;
    while n < levels && (n as usize) < side.len()
        invariant
            n <= levels,
            n <= side@.len(),
            sum == depth(side@, n as nat),
            -0x8000_0000_0000_0000 * n <= sum <= 0x8000_0000_0000_0000 * n,
        decreases levels - n,
    {
        sum = sum + side[n as usize].size as i128;
        n += 1;
    }
    assert(depth(side@, levels as nat) == depth(side@, n as nat));
    clamped(sum)
}

/// An exit that slices takes no more out than was asked for: a slice that the
/// book allows leaves a remainder that is neither negative nor larger than
/// before, when the limits are not negative.
pub proof fn slices_never_overshoot(
    engine: SlicingEngine,
    run: FlattenRun,
    book: OrderBook,
    side_to_close: Side,
    price: i64,
)
    requires
        run.qty_remaining > 0,
        engine.config.max_slice_qty >= 0,
    ensures
        0 <= engine.slice_of(run, book, side_to_close) <= run.qty_remaining,
        0 <= run.after(engine.slice_of(run, book, side_to_close), price).qty_remaining
            <= run.qty_remaining,
{
}

/// Every slice makes progress when the slice cap is at least half a tenth of
/// the smallest amount, so an exit ends by running out of quantity or attempts.
pub proof fn slices_make_progress(
    engine: SlicingEngine,
    run: FlattenRun,
    book: OrderBook,
    side_to_close: Side,
    price: i64,
)
    requires
        run.qty_remaining > 0,
        engine.config.max_slice_qty >= 5,
    ensures
        engine.slice_of(run, book, side_to_close) > 0,
        run.after(engine.slice_of(run, book, side_to_close), price).qty_remaining
            < run.qty_remaining,
{
}

/// An exit sends at most the configured number of slices: after as many
/// attempts it is done, or it has given up with what is left.
pub proof fn attempts_are_bounded(engine: SlicingEngine, run: FlattenRun)
    requires
        engine.config.enabled,
        run.attempts >= engine.config.max_slice_attempts,
    ensures
        engine.step_of(run) == if run.qty_remaining <= 0 {
            FlattenStep::Done { exit_price: run.last_price }
        } else {
            FlattenStep::GaveUp { left: run.qty_remaining, last_price: run.last_price }
        },
{
}

/// An exit is done only when nothing is left, and has given up only when
/// something is.
pub proof fn done_means_flat(engine: SlicingEngine, run: FlattenRun)
    ensures
        engine.step_of(run) is Done ==> run.qty_remaining <= 0,
        engine.step_of(run) matches FlattenStep::GaveUp { left, last_price } ==> left
            == run.qty_remaining && left > 0,
{
}

/// The exit after slices went out in order, each at its price.
pub open spec fn after_slices(
    run: FlattenRun,
    slices: Seq<i64>,
    prices: Seq<i64>,
) -> FlattenRun
    decreases slices.len(),
{
    if slices.len() == 0 {
        run
    } else {
        after_slices(run, slices.drop_last(), prices).after(
            slices.last(),
            prices[slices.len() - 1],
        )
    }
}

/// The summed slices.
pub open spec fn sliced_total(slices: Seq<i64>) -> int
    decreases slices.len(),
{
    if slices.len() == 0 {
        0
    } else {
        sliced_total(slices.drop_last()) + slices.last()
    }
}

/// The slices of an exit and what is left of it add up to what was asked for,
/// as long as no slice exceeds what is left; so the slices of an exit that is
/// flat add up to the whole.
pub proof fn slices_add_up(qty: i64, slices: Seq<i64>, prices: Seq<i64>)
    requires
        0 <= qty,
        forall|i: int|
            0 <= i < slices.len() ==> 0 <= (#[trigger] slices[i]) <= after_slices(
                FlattenRun::of(qty),
                slices.take(i),
                prices,
            ).qty_remaining,
    ensures
        sliced_total(slices) + after_slices(FlattenRun::of(qty), slices, prices).qty_remaining
            == qty,
        0 <= after_slices(FlattenRun::of(qty), slices, prices).qty_remaining <= qty,
    decreases slices.len(),
{
    if slices.len() > 0 {
        let front = slices.drop_last();
        assert forall|i: int| 0 <= i < front.len() implies 0 <= (#[trigger] front[i])
            <= after_slices(FlattenRun::of(qty), front.take(i), prices).qty_remaining by {
            assert(front[i] == slices[i]);
            assert(front.take(i) =~= slices.take(i));
        }
        slices_add_up(qty, front, prices);
        assert(slices.take(slices.len() - 1) =~= front);
        assert(slices[slices.len() - 1] == slices.last());
    }
}

} // verus!
