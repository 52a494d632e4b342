//! Laws of exits: slices, stops, cycle resets, flushes and the kill switch.
use vstd::prelude::*;

use crate::amount::{clamp, product, ratio};
use crate::engine::exits::{ExitAction, ExitReason, ExitRun, ExitStage};
use crate::engine::stops::{
    bound_hit, not_of_basket, of_basket, orders_of, residual_exit, Bound, CycleBreach, CycleEnd,
    FlatWatch, ResidualExit,
};
use crate::engine::{EngineHandle, ParkedTp};
use crate::engines::basket_manager::{chosen, net_total, BasketManager, Choice};
use crate::engines::kill_switch::KillSwitch;
use crate::engines::slicing::{depth, FlattenRun, FlattenStep, SlicingEngine};
use crate::laws::amounts::{held, lemma_rounds_to, rounds_to};
use crate::laws::baskets::{closed, lemma_exited, turned};
use crate::laws::fills::apart;
use crate::lists::lemma_filter_is;
use crate::models::basket::{Basket, BasketSide, BasketStatus, ExitOrder};
use crate::models::config::EmergencySlicingConfig;
use crate::models::order::{Order, OrderBook, OrderBookLevel, OrderPurpose, Side};

verus! {

/// The summed sizes of the first `levels` of a side of a book.
pub open spec fn offered(side: Seq<OrderBookLevel>, levels: nat) -> int {
    (if levels < side.len() {
        side.take(levels as int)
    } else {
        side
    }).fold_left(0int, |sum: int, l: OrderBookLevel| sum + l.size)
}

/// The smaller of two numbers.
pub open spec fn least(a: int, b: int) -> int {
    if a < b {
        a
    } else {
        b
    }
}

/// Summing the first levels.
proof fn lemma_offered(side: Seq<OrderBookLevel>, levels: nat)
    ensures
        depth(side, levels) == offered(side, levels),
    decreases levels,
{
    reveal_with_fuel(Seq::fold_left, 2);
    if levels == 0 || side.len() == 0 {
        if levels < side.len() {
            assert(side.take(0) =~= Seq::empty());
        }
    } else if levels > side.len() {
        lemma_offered(side, side.len());
    } else {
        lemma_offered(side, (levels - 1) as nat);
        let now = side.take(levels as int);
        assert(now.drop_last() =~= side.take(levels - 1));
        assert(now.last() == side[levels - 1]);
        assert(side.take(side.len() as int) =~= side);
    }
}

/// `r` is the slice that the levels of a side allow: the participation in what
/// they offer, but at least a tenth of the cap, and never more than the cap or
/// what is left.
pub open spec fn sized_to(
    r: i64,
    engine: SlicingEngine,
    left: i64,
    side: Seq<OrderBookLevel>,
) -> bool {
    let cap = engine.config.max_slice_qty;
    exists|total: i64, share: i64, tenth: i64|
        {
            &&& #[trigger] held(total, offered(side, engine.config.book_depth_levels as nat))
            &&& #[trigger] rounds_to(share, total * engine.config.participation_rate, 100_000_000)
            &&& #[trigger] rounds_to(tenth, cap as int, 10)
            &&& r == least(
                least(left as int, cap as int),
                if share > tenth {
                    share as int
                } else {
                    tenth as int
                },
            )
        }
}

/// A slice is sized to the side of the book that the exit trades against: the
/// asks for an exit that buys, the bids for one that sells.
pub proof fn slices_are_sized_to_the_opposing_side(
    engine: &SlicingEngine,
    run: &FlattenRun,
    book: &OrderBook,
    side_to_close: Side,
    r: i64,
)
    requires
        call_ensures(SlicingEngine::slice, (engine, run, book, side_to_close), r),
    ensures
        side_to_close == Side::Buy ==> sized_to(r, *engine, run.qty_remaining, book.asks@),
        side_to_close == Side::Sell ==> sized_to(r, *engine, run.qty_remaining, book.bids@),
{
    allowed_slices_are_sized_to_the_opposing_side(*engine, *run, *book, side_to_close);
}

/// The same of the slice that a book allows.
pub proof fn allowed_slices_are_sized_to_the_opposing_side(
    engine: SlicingEngine,
    run: FlattenRun,
    book: OrderBook,
    side_to_close: Side,
)
    ensures
        side_to_close == Side::Buy ==> sized_to(
            engine.slice_of(run, book, side_to_close),
            engine,
            run.qty_remaining,
            book.asks@,
        ),
        side_to_close == Side::Sell ==> sized_to(
            engine.slice_of(run, book, side_to_close),
            engine,
            run.qty_remaining,
            book.bids@,
        ),
{
    let side = match side_to_close {
        Side::Buy => book.asks@,
        Side::Sell => book.bids@,
    };
    let levels = engine.config.book_depth_levels as nat;
    let cap = engine.config.max_slice_qty;
    lemma_offered(side, levels);
    let total = clamp(offered(side, levels));
    let share = product(total, engine.config.participation_rate);
    let tenth = ratio(cap as int, 1, 10);
    assert(cap * 1 == cap);
    lemma_rounds_to(total * engine.config.participation_rate, 100_000_000);
    lemma_rounds_to(cap as int, 10);
    assert(held(total, offered(side, levels)));
    assert(rounds_to(share, total * engine.config.participation_rate, 100_000_000));
    assert(rounds_to(tenth, cap as int, 10));
}

/// Where the participation in the opposing side is at least the slice cap, the
/// slice is the cap, or what is left if that is less.
pub proof fn deep_books_take_whole_slices(
    engine: &SlicingEngine,
    run: &FlattenRun,
    book: &OrderBook,
    side_to_close: Side,
    r: i64,
)
    requires
        call_ensures(SlicingEngine::slice, (engine, run, book, side_to_close), r),
        ({
            let total = offered(
                match side_to_close {
                    Side::Buy => book.asks@,
                    Side::Sell => book.bids@,
                },
                engine.config.book_depth_levels as nat,
            );
            &&& i64::MIN <= total <= i64::MAX
            &&& engine.config.max_slice_qty * 100_000_000 <= total
                * engine.config.participation_rate
        }),
    ensures
        r == least(run.qty_remaining as int, engine.config.max_slice_qty as int),
{
    slices_are_sized_to_the_opposing_side(engine, run, book, side_to_close, r);
}

/// An exit starts with everything left. Without slicing it is one order for all
/// of it. With it, slices go out while something is left and attempts remain.
/// It is done when nothing is left, and has given up when something is.
pub proof fn exits_end_flat_or_give_up(
    engine: &SlicingEngine,
    qty: i64,
    begun: FlattenRun,
    run: &FlattenRun,
    r: FlattenStep,
)
    requires
        call_ensures(SlicingEngine::begin, (engine, qty), begun),
        call_ensures(SlicingEngine::flatten, (engine, run), r),
    ensures
        begun.qty_remaining == qty && begun.attempts == 0 && begun.last_price == 0,
        r is SingleShot <==> !engine.config.enabled && run.attempts == 0,
        r matches FlattenStep::SingleShot { qty: all } ==> all == run.qty_remaining,
        r == FlattenStep::Slice <==> engine.config.enabled && run.qty_remaining > 0 && run.attempts
            < engine.config.max_slice_attempts,
        r matches FlattenStep::Done { exit_price } ==> run.qty_remaining <= 0 && exit_price
            == run.last_price,
        r matches FlattenStep::GaveUp { left, last_price } ==> left == run.qty_remaining && left > 0
            && last_price == run.last_price,
{
}

/// A slice that went out is off what is left, and its price is kept.
pub proof fn sent_slices_are_booked(
    engine: &SlicingEngine,
    run: &mut FlattenRun,
    slice: i64,
    price: i64,
)
    requires
        call_ensures(SlicingEngine::sliced, (engine, run, slice, price), ()),
    ensures
        held(final(run).qty_remaining, old(run).qty_remaining - slice),
        final(run).attempts == old(run).attempts.wrapping_add(1),
        final(run).last_price == price,
{
}

/// An exit that sends no more failed exactly when it left more than a
/// millionth of a unit, and says how much; else its price is the last one.
pub proof fn failed_exits_say_what_is_left(
    engine: &SlicingEngine,
    run: &FlattenRun,
    r: Result<i64, i64>,
)
    requires
        call_ensures(SlicingEngine::outcome, (engine, run), r),
    ensures
        r is Err <==> run.qty_remaining > 100,
        r matches Err(left) ==> left == run.qty_remaining,
        r matches Ok(price) ==> price == run.last_price,
{
}

/// Slippage is the distance from mid over mid, in basis points. From a mid of
/// zero any price slips, and a mid below zero turns the test around.
pub proof fn slippage_is_in_basis_points(engine: &SlicingEngine, price: i64, mid: i64, r: bool)
    requires
        call_ensures(SlicingEngine::slippage_exceeded, (engine, price, mid), r),
    ensures
        mid > 0 ==> (r <==> apart(price, mid) * 1_000_000_000_000 > engine.config.max_slippage_bps
            * mid),
        mid == 0 ==> (r <==> price != 0),
        mid < 0 ==> (r <==> apart(price, mid) * 1_000_000_000_000 < engine.config.max_slippage_bps
            * mid),
{
    let g = apart(price, mid);
    assert(g * (10_000 * 100_000_000) == g * 1_000_000_000_000);
}

/// The book changed under one identifier only.
pub open spec fn only_under(
    before: Map<u128, Basket>,
    after: Map<u128, Basket>,
    k: u128,
) -> bool {
    &&& after.dom() == before.dom()
    &&& forall|j: u128|
        j != k && #[trigger] before.dom().contains(j) ==> after[j] == before[j]
}

/// `exit` closes the whole position of a basket, for a purpose.
pub open spec fn closes_position(exit: ExitOrder, b: Basket, purpose: OrderPurpose) -> bool {
    &&& exit.basket_id == b.basket_id
    &&& exit.index == b.index
    &&& exit.purpose == purpose
    &&& b.open_qty > 0 ==> exit.qty == b.open_qty
    &&& b.open_qty > 0 && b.side == BasketSide::Long ==> exit.side == Side::Sell
    &&& b.open_qty > 0 && b.side == BasketSide::Short ==> exit.side == Side::Buy
}

/// The first trip counts and keeps its reason; the switch stays tripped until
/// it is readied again.
pub proof fn the_first_trip_counts(
    k: &mut KillSwitch,
    reason: String,
    r: bool,
    other: &mut KillSwitch,
    seen: &KillSwitch,
    tripped: bool,
)
    requires
        call_ensures(KillSwitch::trip, (k, reason), r),
        call_ensures(KillSwitch::manual_reset, (other,), ()),
        call_ensures(KillSwitch::is_tripped, (seen,), tripped),
    ensures
        final(k).tripped,
        r <==> !old(k).tripped,
        !old(k).tripped ==> final(k).reason == Some(reason),
        old(k).tripped ==> final(k).reason == old(k).reason,
        !final(other).tripped && final(other).reason is None,
        tripped <==> seen.tripped,
{
}

/// A trip closes every position once, against its direction.
pub proof fn a_trip_exits_every_position(
    k: &KillSwitch,
    mgr: &BasketManager,
    r: Vec<ExitOrder>,
    i: int,
    b: u128,
)
    requires
        call_ensures(KillSwitch::exits, (k, mgr), r),
        mgr.wf(),
    ensures
        0 <= i < r@.len() ==> mgr.book().dom().contains(r@[i].basket_id) && closes_position(
            r@[i],
            mgr.book()[r@[i].basket_id],
            OrderPurpose::KillSwitchExit,
        ) && mgr.book()[r@[i].basket_id].open_qty != 0,
        forall|j: int| 0 <= i < j < r@.len() ==> (#[trigger] r@[j]).basket_id != r@[i].basket_id,
        mgr.book().dom().contains(b) && mgr.book()[b].open_qty > 0 ==> exists|n: int|
            0 <= n < r@.len() && (#[trigger] r@[n]).basket_id == b,
{
    if 0 <= i < r@.len() {
        assert(mgr.book().dom().contains(r@[i].basket_id));
    }
}

/// A trip books every exit at its price, or at the mean price of the basket
/// where it failed, and kills the basket. It ends with every basket killed and
/// no other change.
pub proof fn a_trip_kills_at_the_exit_price(
    k: &KillSwitch,
    mgr: &mut BasketManager,
    basket_id: u128,
    exit_price: Option<i64>,
    done: &mut BasketManager,
    b: u128,
)
    requires
        call_ensures(KillSwitch::settle, (k, mgr, basket_id, exit_price), ()),
        call_ensures(KillSwitch::finish, (k, done), ()),
    ensures
        ({
            let before = old(mgr).book();
            let after = final(mgr).book();
            &&& only_under(before, after, basket_id)
            &&& before.dom().contains(basket_id) ==> {
                &&& closed(
                    before[basket_id],
                    after[basket_id],
                    match exit_price {
                        Some(p) => p,
                        None => before[basket_id].avg_price,
                    },
                )
                &&& after[basket_id].status == BasketStatus::Killed
            }
        }),
        final(done).book().dom() == old(done).book().dom(),
        old(done).book().dom().contains(b) ==> final(done).book()[b] == (Basket {
            status: BasketStatus::Killed,
            ..old(done).book()[b]
        }),
{
    let before = old(mgr).book();
    if before.dom().contains(basket_id) {
        let x = before[basket_id];
        lemma_exited(
            x,
            match exit_price {
                Some(p) => p,
                None => x.avg_price,
            },
        );
        assert(final(mgr).book().dom() =~= before.dom());
    }
    assert(final(done).book().dom() =~= old(done).book().dom());
}

/// The stop-loss of a basket has fired at a mid.
pub open spec fn fires(b: Basket, mid: i64) -> bool {
    b.anchor_price > 0 && b.open_qty > 0 && b.status != BasketStatus::Killed && (mid <= b.lower_sl
        || mid >= b.upper_sl)
}

/// The baskets to stop are those whose stop-loss has fired, each once, and none
/// while the switch is tripped or without a mid.
pub proof fn stops_are_those_that_fired(
    h: &EngineHandle,
    r: Vec<Basket>,
    i: int,
    k: u128,
)
    requires
        call_ensures(EngineHandle::check_basket_boundaries, (h,), r),
        h.basket_mgr.wf(),
    ensures
        h.kill_switch.tripped || h.mid_price <= 0 ==> r@.len() == 0,
        0 <= i < r@.len() ==> h.book().dom().contains(r@[i].basket_id)
            && h.book()[r@[i].basket_id] == r@[i] && fires(r@[i], h.mid_price),
        !h.kill_switch.tripped && h.mid_price > 0 && h.book().dom().contains(k) && fires(
            h.book()[k],
            h.mid_price,
        ) ==> r@.contains(h.book()[k]),
        forall|j: int| 0 <= i < j < r@.len() ==> (#[trigger] r@[j]).basket_id != r@[i].basket_id,
{
    let c = Choice::StoppedOut { mid: h.mid_price };
    if h.book().dom().contains(k) && fires(h.book()[k], h.mid_price) {
        assert(c.takes(h.book()[k]));
    }
}

/// A stop kills its basket at the exit price, or at mid where the exit failed,
/// drops the basket's parked take-profits and no others, and is a hit.
pub proof fn a_stop_kills_and_counts(
    h: &mut EngineHandle,
    basket_id: u128,
    exit_price: Option<i64>,
    mid: i64,
    r: u32,
    p: ParkedTp,
)
    requires
        call_ensures(EngineHandle::stop_out, (h, basket_id, exit_price, mid), r),
    ensures
        ({
            let before = old(h).book();
            let after = final(h).book();
            &&& only_under(before, after, basket_id)
            &&& before.dom().contains(basket_id) ==> {
                &&& closed(
                    before[basket_id],
                    after[basket_id],
                    match exit_price {
                        Some(x) => x,
                        None => mid,
                    },
                )
                &&& after[basket_id].status == BasketStatus::Killed
            }
        }),
        final(h).parked_tps@.contains(p) <==> old(h).parked_tps@.contains(p) && p.basket_id
            != basket_id,
        final(h).basket_hits == old(h).basket_hits.wrapping_add(1),
        r == final(h).basket_hits,
        final(h).cycle_anchor == old(h).cycle_anchor,
        final(h).running == old(h).running,
{
    let before = old(h).book();
    let price = match exit_price {
        Some(x) => x,
        None => mid,
    };
    if before.dom().contains(basket_id) {
        lemma_exited(before[basket_id], price);
        assert(final(h).book().dom() =~= before.dom());
    }
    lemma_filter_is(old(h).parked_tps@, not_of_basket(basket_id));
}

/// `exit` brings a residual to zero, if it is more than half a unit away.
pub open spec fn sweeps(exit: Option<ResidualExit>, residual: int) -> bool {
    match exit {
        Some(x) => {
            &&& residual > 50_000_000 || residual < -50_000_000
            &&& residual > 0 ==> x.side == Side::Sell && held(x.qty, residual)
            &&& residual < 0 ==> x.side == Side::Buy && held(x.qty, -residual)
        },
        None => -50_000_000 <= residual <= 50_000_000,
    }
}

/// A residual is swept by its opposite; after stops the residual is what the
/// exchange holds beyond the baskets.
pub proof fn residuals_are_swept(
    residual: i64,
    a: Option<ResidualExit>,
    h: &EngineHandle,
    position: i64,
    b: Option<ResidualExit>,
    net: i64,
    beyond: i64,
)
    requires
        call_ensures(residual_exit, (residual,), a),
        call_ensures(EngineHandle::stop_residual, (h, position), b),
        held(net, net_total(h.book())),
        held(beyond, position - net),
    ensures
        sweeps(a, residual as int),
        sweeps(b, beyond as int),
{
}

/// The orders of a basket are those that belong to it, and no others.
pub proof fn orders_of_a_basket_are_its_own(
    open: &Vec<Order>,
    basket_id: u128,
    r: Vec<u128>,
    i: int,
    j: int,
)
    requires
        call_ensures(orders_of, (open, basket_id), r),
    ensures
        0 <= i < open@.len() && open@[i].basket_id == basket_id ==> r@.contains(open@[i].order_id),
        0 <= j < r@.len() ==> exists|n: int|
            0 <= n < open@.len() && (#[trigger] open@[n]).order_id == r@[j] && open@[n].basket_id
                == basket_id,
{
    let p = of_basket(basket_id);
    let kept = open@.filter(p);
    lemma_filter_is(open@, p);
    assert(r@ == kept.map_values(|o: Order| o.order_id));
    if 0 <= i < open@.len() && open@[i].basket_id == basket_id {
        assert(p(open@[i]));
        assert(kept.contains(open@[i]));
        let n = choose|n: int| 0 <= n < kept.len() && kept[n] == open@[i];
        assert(r@[n] == open@[i].order_id);
    }
    if 0 <= j < r@.len() {
        assert(kept.contains(kept[j]));
        let n = choose|n: int| 0 <= n < open@.len() && open@[n] == kept[j];
        assert(open@[n].order_id == r@[j]);
    }
}

/// The bound that mid has reached is the upper one from the upper bound on.
pub proof fn the_bound_is_where_mid_is(b: &Basket, mid: i64, r: Bound)
    requires
        call_ensures(bound_hit, (b, mid), r),
    ensures
        r == Bound::Upper <==> mid >= b.upper_sl,
{
}

/// A watch is over once the position is within half a unit of flat, or with the
/// fourth reading; it says which.
pub proof fn a_watch_ends_flat_or_after_four(
    w: &mut FlatWatch,
    residual: i64,
    r: Option<(bool, String)>,
)
    requires
        call_ensures(FlatWatch::observe, (w, residual), r),
        old(w).readings < u32::MAX,
    ensures
        final(w).readings == old(w).readings + 1,
        r is Some <==> -50_000_000 <= residual <= 50_000_000 || old(w).readings + 1 >= 4,
        r matches Some(v) ==> (v.0 <==> -50_000_000 <= residual <= 50_000_000),
{
}

/// A cycle is over once mid is as far from its anchor as the cycle is wide, at
/// the bound on that side; never while the switch is tripped, or without a mid,
/// an anchor and a width.
pub proof fn a_cycle_ends_at_its_width(h: &EngineHandle, r: Option<CycleBreach>)
    requires
        call_ensures(EngineHandle::check_cycle_boundary, (h,), r),
        h.cycle_anchor + h.config.trading.grid_distance <= i64::MAX,
    ensures
        ({
            let width = h.config.trading.grid_distance;
            let live = !h.kill_switch.tripped && h.mid_price > 0 && h.cycle_anchor > 0 && width > 0;
            &&& r is Some <==> live && apart(h.mid_price, h.cycle_anchor) >= width
            &&& r matches Some(x) ==> {
                &&& x.bound == Bound::Lower <==> h.mid_price < h.cycle_anchor
                &&& x.bound == Bound::Upper <==> h.mid_price > h.cycle_anchor
                &&& x.bound == Bound::Lower ==> x.level == h.cycle_anchor - width
                &&& x.bound == Bound::Upper ==> x.level == h.cycle_anchor + width
            }
        }),
{
}

/// The same of every cycle, where a bound may be held at an end of the range of
/// amounts; the lower bound goes first.
pub proof fn a_cycle_ends_at_its_bounds(
    h: &EngineHandle,
    r: Option<CycleBreach>,
    lower: i64,
    upper: i64,
)
    requires
        call_ensures(EngineHandle::check_cycle_boundary, (h,), r),
        held(lower, h.cycle_anchor - h.config.trading.grid_distance),
        held(upper, h.cycle_anchor + h.config.trading.grid_distance),
    ensures
        ({
            let live = !h.kill_switch.tripped && h.mid_price > 0 && h.cycle_anchor > 0
                && h.config.trading.grid_distance > 0;
            &&& r is Some <==> live && (h.mid_price <= lower || h.mid_price >= upper)
            &&& r matches Some(x) ==> {
                &&& h.mid_price <= lower ==> x.bound == Bound::Lower && x.level == lower
                &&& h.mid_price > lower ==> x.bound == Bound::Upper && x.level == upper
            }
        }),
{
}

/// What holds positions is listed, each basket once.
pub proof fn holdings_are_the_open_positions(h: &EngineHandle, r: Vec<Basket>, i: int, k: u128)
    requires
        call_ensures(EngineHandle::holdings, (h,), r),
    ensures
        0 <= i < r@.len() ==> h.book().dom().contains(r@[i].basket_id)
            && h.book()[r@[i].basket_id] == r@[i] && r@[i].open_qty > 0,
        h.book().dom().contains(k) && h.book()[k].open_qty > 0 ==> r@.contains(h.book()[k]),
        forall|j: int| 0 <= i < j < r@.len() ==> (#[trigger] r@[j]).basket_id != r@[i].basket_id,
{
    let c = Choice::Holding;
    if h.book().dom().contains(k) && h.book()[k].open_qty > 0 {
        assert(c.takes(h.book()[k]));
    }
}

/// The basket under an identifier was closed at a price and left to trade on,
/// and nothing else of the book changed.
pub open spec fn reset_under(
    before: Map<u128, Basket>,
    after: Map<u128, Basket>,
    k: u128,
    price: i64,
) -> bool {
    &&& only_under(before, after, k)
    &&& before.dom().contains(k) ==> {
        &&& closed(before[k], after[k], price)
        &&& turned(before[k], after[k], BasketStatus::Hit)
        &&& after[k].avg_price == 0
    }
}

/// What a reset makes of the book.
proof fn lemma_reset_under(h: EngineHandle, k: u128, price: i64)
    ensures
        reset_under(h.book(), h.book_reset(k, price), k, price),
{
    if h.book().dom().contains(k) {
        lemma_exited(h.book()[k], price);
        assert(h.book_reset(k, price).dom() =~= h.book().dom());
    }
}

/// A reset closes at its price; an exit at the end of a cycle at the exit
/// price, or at mid where the exit failed; an exit in a flush at the current
/// mid.
pub proof fn resets_close_at_their_price(
    a: &mut EngineHandle,
    b: &mut EngineHandle,
    c: &mut EngineHandle,
    basket_id: u128,
    price: i64,
    exit_price: Option<i64>,
    mid: i64,
)
    requires
        call_ensures(EngineHandle::reset_basket, (a, basket_id, price), ()),
        call_ensures(EngineHandle::cycle_exit, (b, basket_id, exit_price, mid), ()),
        call_ensures(EngineHandle::flush_exit, (c, basket_id), ()),
    ensures
        reset_under(old(a).book(), final(a).book(), basket_id, price),
        reset_under(
            old(b).book(),
            final(b).book(),
            basket_id,
            match exit_price {
                Some(x) => x,
                None => mid,
            },
        ),
        reset_under(old(c).book(), final(c).book(), basket_id, old(c).mid_price),
{
    lemma_reset_under(*old(a), basket_id, price);
    lemma_reset_under(
        *old(b),
        basket_id,
        match exit_price {
            Some(x) => x,
            None => mid,
        },
    );
    lemma_reset_under(*old(c), basket_id, old(c).mid_price);
}

/// A cycle that ends is a hit. The next one is anchored at mid, unless the hits
/// have reached their limit: then the anchor stays and the switch is to trip.
pub proof fn a_cycle_ends_with_a_hit(h: &mut EngineHandle, mid: i64, r: CycleEnd)
    requires
        call_ensures(EngineHandle::end_cycle, (h, mid), r),
        old(h).basket_hits < u32::MAX,
    ensures
        r.hits == old(h).basket_hits + 1,
        final(h).basket_hits == r.hits,
        r.trip is Some <==> r.hits >= old(h).config.kill_switch.max_basket_hits,
        r.trip is None ==> final(h).cycle_anchor == mid,
        r.trip is Some ==> final(h).cycle_anchor == old(h).cycle_anchor,
        final(h).book() == old(h).book(),
        final(h).start_price == old(h).start_price,
{
}

/// A flush drops what is parked and lists every position; it ends with every
/// basket that may trade closed at the current mid, and the killed ones as they
/// were.
pub proof fn a_flush_clears_everything(
    h: &mut EngineHandle,
    r: Vec<Basket>,
    e: &mut EngineHandle,
    k: u128,
)
    requires
        call_ensures(EngineHandle::force_flatten, (h,), r),
        call_ensures(EngineHandle::end_flush, (e,), ()),
    ensures
        final(h).parked_tps@.len() == 0,
        final(h).book() == old(h).book(),
        old(h).book().dom().contains(k) && old(h).book()[k].open_qty > 0 ==> r@.contains(
            old(h).book()[k],
        ),
        final(e).book().dom() == old(e).book().dom(),
        old(e).book().dom().contains(k) ==> {
            let before = old(e).book()[k];
            let after = final(e).book()[k];
            &&& before.status == BasketStatus::Killed ==> after == before
            &&& before.status != BasketStatus::Killed ==> closed(
                before,
                after,
                old(e).mid_price,
            ) && after.status == BasketStatus::Hit && after.avg_price == 0
        },
{
    let c = Choice::Holding;
    if old(h).book().dom().contains(k) && old(h).book()[k].open_qty > 0 {
        assert(c.takes(old(h).book()[k]));
    }
    assert(final(e).book().dom() =~= old(e).book().dom());
    if old(e).book().dom().contains(k) {
        lemma_exited(old(e).book()[k], old(e).mid_price);
    }
}

/// A run of exits starts at its beginning with the mid of the moment. A stop
/// knows its exits from the start: one for every basket whose stop-loss has
/// fired.
pub proof fn a_run_begins_with_its_stops(
    h: &EngineHandle,
    reason: ExitReason,
    r: ExitRun,
    i: int,
    k: u128,
)
    requires
        call_ensures(EngineHandle::begin_exits, (h, reason), r),
        h.basket_mgr.wf(),
    ensures
        r.reason == reason,
        r.stage == ExitStage::Begin,
        r.mid == h.mid_price,
        r.at == 0,
        reason != ExitReason::Stop ==> r.queue@.len() == 0,
        0 <= i < r.queue@.len() ==> {
            let exit = r.queue@[i];
            &&& h.book().dom().contains(exit.basket_id)
            &&& fires(h.book()[exit.basket_id], h.mid_price)
            &&& closes_position(exit, h.book()[exit.basket_id], OrderPurpose::StopLossExit)
        },
        reason == ExitReason::Stop && !h.kill_switch.tripped && h.mid_price > 0
            && h.book().dom().contains(k) && fires(h.book()[k], h.mid_price) ==> exists|n: int|
            0 <= n < r.queue@.len() && (#[trigger] r.queue@[n]).basket_id == k,
{
    let c = Choice::StoppedOut { mid: h.mid_price };
    if reason == ExitReason::Stop && !h.kill_switch.tripped && h.mid_price > 0 {
        let list = choose|list: Seq<Basket>| #[trigger]
            chosen(list, h.book(), c) && r.queue@ == crate::models::basket::exits_of(
                list,
                OrderPurpose::StopLossExit,
            );
        if 0 <= i < r.queue@.len() {
            assert(h.book().dom().contains(list[i].basket_id) && h.book()[list[i].basket_id]
                == list[i]);
        }
        if h.book().dom().contains(k) && fires(h.book()[k], h.mid_price) {
            assert(c.takes(h.book()[k]));
            let n = choose|n: int| 0 <= n < list.len() && list[n] == h.book()[k];
            assert(r.queue@[n].basket_id == k);
        }
    }
}

/// What a step of a run does to it: cancellations come first, then the exits in
/// order, then what the exchange still holds, then what ends the run.
pub proof fn a_run_cancels_sends_and_sweeps(
    h: &mut EngineHandle,
    run: &mut ExitRun,
    r: ExitAction,
)
    requires
        call_ensures(EngineHandle::next_exit, (h, run), r),
        old(run).at < usize::MAX,
    ensures
        ({
            let a = *old(run);
            let b = *final(run);
            let stop = a.reason == ExitReason::Stop;
            let queue = b.queue@;
            let at = if !stop && a.stage == ExitStage::Cleared {
                0int
            } else {
                a.at as int
            };
            let sending = a.stage == ExitStage::Cleared || a.stage == ExitStage::Listed;
            &&& b.reason == a.reason && b.mid == a.mid
            &&& stop || a.stage != ExitStage::Cleared ==> b.queue == a.queue
            &&& r == ExitAction::CancelAll <==> !stop && a.stage == ExitStage::Begin
            &&& r is CancelOrders <==> stop && a.stage == ExitStage::Begin && at < queue.len()
            &&& r matches ExitAction::CancelOrders { basket_id } ==> basket_id
                == queue[at].basket_id && b.stage == ExitStage::Cleared && b.at == a.at
            &&& r is Send <==> sending && at < queue.len()
            &&& r matches ExitAction::Send { exit } ==> exit == queue[at] && b.at == at + 1
                && b.stage == if stop {
                ExitStage::Begin
            } else {
                ExitStage::Listed
            }
            &&& r == ExitAction::CloseResidual <==> (sending && at >= queue.len() && a.reason
                != ExitReason::Trip) || (stop && a.stage == ExitStage::Begin && at >= queue.len()
                && queue.len() > 0)
            &&& r == ExitAction::CloseResidual ==> b.stage == ExitStage::Swept
            &&& r == ExitAction::Conclude <==> (sending && at >= queue.len() && a.reason
                == ExitReason::Trip) || (!stop && a.stage == ExitStage::Swept)
            &&& r == ExitAction::Conclude || r == ExitAction::Done ==> b.stage == ExitStage::Ended
        }),
{
    let a = *old(run);
    assert(a.queue.len() == a.queue@.len());
    assert(final(run).queue.len() == final(run).queue@.len());
}

/// The exits that a run lists once all orders were cancelled close every
/// position of the book, each once: for a trip as the kill switch does, for a
/// flush likewise, for a cycle reset as stops do. A flush drops what is parked.
pub proof fn a_run_lists_every_position(
    h: &mut EngineHandle,
    run: &mut ExitRun,
    r: ExitAction,
    i: int,
    k: u128,
)
    requires
        call_ensures(EngineHandle::next_exit, (h, run), r),
        old(h).wf(),
        old(run).stage == ExitStage::Cleared,
        old(run).reason != ExitReason::Stop,
    ensures
        ({
            let m = old(h).book();
            let queue = final(run).queue@;
            let purpose = if old(run).reason == ExitReason::CycleReset {
                OrderPurpose::StopLossExit
            } else {
                OrderPurpose::KillSwitchExit
            };
            &&& 0 <= i < queue.len() ==> m.dom().contains(queue[i].basket_id) && closes_position(
                queue[i],
                m[queue[i].basket_id],
                purpose,
            ) && m[queue[i].basket_id].open_qty != 0
            &&& forall|j: int|
                0 <= i < j < queue.len() ==> (#[trigger] queue[j]).basket_id != queue[i].basket_id
            &&& m.dom().contains(k) && m[k].open_qty > 0 ==> exists|n: int|
                0 <= n < queue.len() && (#[trigger] queue[n]).basket_id == k
            &&& old(run).reason == ExitReason::Flush ==> final(h).parked_tps@.len() == 0
            &&& old(run).reason != ExitReason::Flush ==> final(h).parked_tps == old(h).parked_tps
            &&& final(h).book() == m
        }),
{
    let m = old(h).book();
    let queue = final(run).queue@;
    if old(run).reason == ExitReason::Trip {
        if 0 <= i < queue.len() {
            assert(m.dom().contains(queue[i].basket_id));
        }
    } else {
        let purpose = crate::engine::exits::purpose_of(old(run).reason);
        let c = Choice::Holding;
        let list = choose|list: Seq<Basket>| #[trigger]
            chosen(list, m, c) && queue == crate::models::basket::exits_of(list, purpose);
        if 0 <= i < queue.len() {
            assert(m.dom().contains(list[i].basket_id) && m[list[i].basket_id] == list[i]);
            assert forall|j: int| i < j < queue.len() implies (#[trigger] queue[j]).basket_id
                != queue[i].basket_id by {
                assert(list[i].basket_id != list[j].basket_id);
            }
        }
        if m.dom().contains(k) && m[k].open_qty > 0 {
            assert(c.takes(m[k]));
            let n = choose|n: int| 0 <= n < list.len() && list[n] == m[k];
            assert(queue[n].basket_id == k);
        }
    }
}

/// An exit is booked as its run asks for: a stop kills and counts as a hit, a
/// cycle reset and a flush leave the basket to trade on, a trip kills. A failed
/// exit is booked at the mid of the run, in a trip at the mean price of the
/// basket, and a flush always books the current mid.
pub proof fn exits_are_booked_as_their_run_asks(
    h: &mut EngineHandle,
    run: &ExitRun,
    basket_id: u128,
    exit_price: Option<i64>,
)
    requires
        call_ensures(EngineHandle::book_exit, (h, run, basket_id, exit_price), ()),
    ensures
        ({
            let before = old(h).book();
            let after = final(h).book();
            let stop = run.reason == ExitReason::Stop;
            let price = match exit_price {
                Some(x) => x,
                None => run.mid,
            };
            &&& only_under(before, after, basket_id)
            &&& before.dom().contains(basket_id) ==> {
                let a = before[basket_id];
                let b = after[basket_id];
                &&& stop ==> closed(a, b, price) && b.status == BasketStatus::Killed
                &&& run.reason == ExitReason::CycleReset ==> closed(a, b, price) && turned(
                    a,
                    b,
                    BasketStatus::Hit,
                )
                &&& run.reason == ExitReason::Flush ==> closed(a, b, old(h).mid_price) && turned(
                    a,
                    b,
                    BasketStatus::Hit,
                )
                &&& run.reason == ExitReason::Trip ==> b.status == BasketStatus::Killed && closed(
                    a,
                    b,
                    match exit_price {
                        Some(x) => x,
                        None => a.avg_price,
                    },
                )
            }
            &&& final(h).basket_hits == if stop {
                old(h).basket_hits.wrapping_add(1)
            } else {
                old(h).basket_hits
            }
            &&& !stop ==> final(h).parked_tps@ == old(h).parked_tps@
            &&& forall|p: ParkedTp|
                stop ==> (#[trigger] final(h).parked_tps@.contains(p) <==> old(h).parked_tps@.contains(p) && p.basket_id != basket_id)
        }),
{
    let before = old(h).book();
    let price = match exit_price {
        Some(x) => x,
        None => run.mid,
    };
    if before.dom().contains(basket_id) {
        let a = before[basket_id];
        lemma_exited(a, price);
        lemma_exited(a, old(h).mid_price);
        lemma_exited(a, a.avg_price);
        assert(final(h).book().dom() =~= before.dom());
    }
    lemma_filter_is(old(h).parked_tps@, not_of_basket(basket_id));
}

/// A new switch is not tripped, and tells why it was tripped once it was. A
/// slicing engine has the limits that it was given, and a watch has read
/// nothing.
pub proof fn exits_start_from_nothing(
    k: KillSwitch,
    seen: &KillSwitch,
    reason: Option<String>,
    config: EmergencySlicingConfig,
    s: SlicingEngine,
    w: FlatWatch,
)
    requires
        call_ensures(KillSwitch::new, (), k),
        call_ensures(KillSwitch::reason, (seen,), reason),
        call_ensures(SlicingEngine::new, (config,), s),
        call_ensures(FlatWatch::new, (), w),
    ensures
        !k.tripped && k.reason is None,
        reason is Some <==> seen.reason is Some,
        reason matches Some(x) ==> x@ == (seen.reason->0)@,
        s.config == config,
        w.readings == 0,
{
}

/// Stops and cycle resets exit as stop-losses; flushes and trips as the kill
/// switch does.
pub proof fn exits_say_their_purpose(reason: ExitReason, r: OrderPurpose)
    requires
        call_ensures(ExitReason::purpose, (reason,), r),
    ensures
        r == OrderPurpose::StopLossExit <==> reason == ExitReason::Stop || reason
            == ExitReason::CycleReset,
        r == OrderPurpose::KillSwitchExit <==> reason == ExitReason::Flush || reason
            == ExitReason::Trip,
{
}

/// A residual is booked under a basket of the book while there is one.
pub proof fn residuals_are_booked_under_a_basket(h: &EngineHandle, r: u128)
    requires
        call_ensures(EngineHandle::any_basket_id, (h,), r),
        h.book().dom().len() > 0,
    ensures
        h.book().dom().contains(r),
{
}

} // verus!
