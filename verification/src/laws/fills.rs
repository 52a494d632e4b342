//! Laws of fills, and of the take-profits that entries call for.
use vstd::prelude::*;

use crate::engine::fills::{
    duplicates, furthest, of_kind, of_side, reach, FillOutcome, TpPlan,
};
use crate::engine::parking::UnparkRun;
use crate::engine::{EngineHandle, ParkedTp};
use crate::engines::grid::{above, below};
use crate::laws::amounts::held;
use crate::laws::baskets::{bounded, grew, lemma_entered, lemma_recycled, shrank};
use crate::models::basket::BasketSide;
use crate::models::order::{Fill, Order, OrderPurpose, Side};

verus! {

/// A fill changes the basket that it names, if that exists and the fill is an
/// entry or a take-profit, and nothing else of the book. An entry grows the
/// basket and anchors it if it was not anchored; a take-profit shrinks it.
pub proof fn fills_change_their_basket(h: &mut EngineHandle, fill: &Fill, r: FillOutcome)
    requires
        call_ensures(EngineHandle::process_fill, (h, fill), r),
    ensures
        ({
            let k = fill.basket_id;
            let before = old(h).book();
            let after = final(h).book();
            &&& forall|j: u128|
                j != k ==> (#[trigger] after.dom().contains(j) <==> before.dom().contains(j))
                    && after[j] == before[j]
            &&& after.dom().contains(k) <==> before.dom().contains(k)
            &&& before.dom().contains(k) && fill.purpose == OrderPurpose::Entry ==> grew(
                before[k],
                after[k],
                fill.qty,
                fill.price,
            ) && bounded(before[k], after[k], fill.price, old(h).config.trading.grid_distance)
            &&& before.dom().contains(k) && fill.purpose == OrderPurpose::TakeProfit ==> shrank(
                before[k],
                after[k],
                fill.qty,
            )
            &&& fill.purpose != OrderPurpose::Entry && fill.purpose != OrderPurpose::TakeProfit
                ==> after == before
        }),
        final(h).parked_tps == old(h).parked_tps,
        final(h).mid_price == old(h).mid_price,
        final(h).cycle_anchor == old(h).cycle_anchor,
        final(h).basket_hits == old(h).basket_hits,
        final(h).running == old(h).running,
        final(h).kill_switch == old(h).kill_switch,
        final(h).basket_mgr.links() == old(h).basket_mgr.links(),
{
    let k = fill.basket_id;
    if old(h).book().dom().contains(k) {
        lemma_entered(old(h).book()[k], fill.qty, fill.price);
        lemma_recycled(old(h).book()[k], fill.qty);
    }
}

/// What is said of a fill is what it did: an entry is told with the basket as
/// it stands after it, a take-profit with the result booked so far, an exit is
/// noted, and a basket that does not exist is told.
pub proof fn fills_are_told_as_they_were(h: &mut EngineHandle, fill: &Fill, r: FillOutcome)
    requires
        call_ensures(EngineHandle::process_fill, (h, fill), r),
    ensures
        ({
            let k = fill.basket_id;
            let known = old(h).book().dom().contains(k);
            let b = final(h).book()[k];
            &&& r is Noted <==> fill.purpose == OrderPurpose::StopLossExit || fill.purpose
                == OrderPurpose::KillSwitchExit
            &&& r is NoBasket <==> !known && (fill.purpose == OrderPurpose::Entry || fill.purpose
                == OrderPurpose::TakeProfit)
            &&& r is Entered <==> known && fill.purpose == OrderPurpose::Entry
            &&& r is TookProfit <==> known && fill.purpose == OrderPurpose::TakeProfit
            &&& r matches FillOutcome::TookProfit { index, realized_pnl } ==> index == b.index
                && realized_pnl == b.realized_pnl
            &&& r matches FillOutcome::Entered {
                index,
                side,
                avg_price,
                anchored,
                lower_sl,
                upper_sl,
                mid,
                tp,
            } ==> {
                &&& index == b.index
                &&& side == b.side
                &&& avg_price == b.avg_price
                &&& anchored <==> old(h).book()[k].anchor_price <= 0
                &&& lower_sl == b.lower_sl
                &&& upper_sl == b.upper_sl
                &&& mid == old(h).mid_price
            }
        }),
{
}

/// Every entry of a known basket, anchored before or not, calls for a
/// take-profit one spread on the profitable side of the fill, exactly when
/// that price lies strictly on the closing order's side of mid: above mid for
/// a long basket, below it for a short one. It closes what was filled.
pub proof fn every_entry_calls_for_its_take_profit(
    h: &mut EngineHandle,
    fill: &Fill,
    r: FillOutcome,
)
    requires
        call_ensures(EngineHandle::process_fill, (h, fill), r),
        fill.purpose == OrderPurpose::Entry,
        old(h).book().dom().contains(fill.basket_id),
        i64::MIN <= fill.price + old(h).config.trading.tp_spread <= i64::MAX,
        i64::MIN <= fill.price - old(h).config.trading.tp_spread <= i64::MAX,
    ensures
        r matches FillOutcome::Entered {
            index,
            side,
            avg_price,
            anchored,
            lower_sl,
            upper_sl,
            mid,
            tp,
        } && {
            let spread = old(h).config.trading.tp_spread;
            let now = old(h).mid_price;
            &&& old(h).book()[fill.basket_id].side == BasketSide::Long ==> {
                &&& tp is Some <==> fill.price + spread > now
                &&& tp matches Some(t) ==> t.side == Side::Sell && t.price == fill.price + spread
                    && t.qty == fill.qty && t.basket_id == fill.basket_id
            }
            &&& old(h).book()[fill.basket_id].side == BasketSide::Short ==> {
                &&& tp is Some <==> fill.price - spread < now
                &&& tp matches Some(t) ==> t.side == Side::Buy && t.price == fill.price - spread
                    && t.qty == fill.qty && t.basket_id == fill.basket_id
            }
        },
{
}

/// The same of what a fill is said to do.
pub proof fn entries_owe_their_take_profit(h: EngineHandle, fill: Fill)
    requires
        fill.purpose == OrderPurpose::Entry,
        h.book().dom().contains(fill.basket_id),
        i64::MIN <= fill.price + h.config.trading.tp_spread <= i64::MAX,
        i64::MIN <= fill.price - h.config.trading.tp_spread <= i64::MAX,
    ensures
        h.outcome_of(fill) matches FillOutcome::Entered {
            index,
            side,
            avg_price,
            anchored,
            lower_sl,
            upper_sl,
            mid,
            tp,
        } && {
            let spread = h.config.trading.tp_spread;
            &&& h.book()[fill.basket_id].side == BasketSide::Long ==> {
                &&& tp is Some <==> fill.price + spread > h.mid_price
                &&& tp matches Some(t) ==> t.side == Side::Sell && t.price == fill.price + spread
                    && t.qty == fill.qty && t.basket_id == fill.basket_id
            }
            &&& h.book()[fill.basket_id].side == BasketSide::Short ==> {
                &&& tp is Some <==> fill.price - spread < h.mid_price
                &&& tp matches Some(t) ==> t.side == Side::Buy && t.price == fill.price - spread
                    && t.qty == fill.qty && t.basket_id == fill.basket_id
            }
        },
{
}

/// The latest fills are remembered in order, the new one last, and no more
/// than a thousand of them.
pub proof fn recent_fills_end_with_the_last(
    h: &mut EngineHandle,
    fill: &Fill,
    r: FillOutcome,
    i: int,
)
    requires
        call_ensures(EngineHandle::process_fill, (h, fill), r),
        old(h).recent_fills@.len() <= 1000,
    ensures
        final(h).recent_fills@.len() > 0,
        final(h).recent_fills@.last() == *fill,
        final(h).recent_fills@.len() <= 1000,
        old(h).recent_fills@.len() < 1000 ==> final(h).recent_fills@ == old(h).recent_fills@.push(*fill),
        old(h).recent_fills@.len() == 1000 && 0 <= i < 999 ==> final(h).recent_fills@[i] == old(h).recent_fills@[i + 1],
{
}

/// A take-profit of the basket already rests within half a unit of a price.
pub open spec fn rests_near(o: Order, tp: ParkedTp) -> bool {
    &&& o.basket_id == tp.basket_id
    &&& o.purpose == OrderPurpose::TakeProfit
    &&& o.side == tp.side
    &&& -50_000_000 < o.price - tp.price < 50_000_000
}

/// The distance of two prices.
pub open spec fn apart(a: i64, b: i64) -> int {
    if a >= b {
        a - b
    } else {
        b - a
    }
}

/// The order at a place rests furthest from mid among those of a side and
/// purpose; the last one where several are as far.
pub open spec fn furthest_at(
    open: Seq<Order>,
    n: int,
    side: Side,
    purpose: OrderPurpose,
    mid: i64,
) -> bool {
    &&& 0 <= n < open.len()
    &&& open[n].side == side
    &&& open[n].purpose == purpose
    &&& forall|i: int|
        0 <= i < open.len() && (#[trigger] open[i]).side == side && open[i].purpose == purpose
            ==> apart(open[i].price, mid) <= apart(open[n].price, mid) && (i > n ==> apart(
            open[i].price,
            mid,
        ) < apart(open[n].price, mid))
}

/// `far` is the order of a side and purpose that rests furthest from mid; the
/// last one where several are as far.
pub open spec fn is_furthest(
    far: Order,
    open: Seq<Order>,
    side: Side,
    purpose: OrderPurpose,
    mid: i64,
) -> bool {
    exists|n: int| #[trigger] furthest_at(open, n, side, purpose, mid) && open[n] == far
}

/// No order of a side and purpose rests.
pub open spec fn none_rests(open: Seq<Order>, side: Side, purpose: OrderPurpose) -> bool {
    forall|i: int|
        0 <= i < open.len() ==> (#[trigger] open[i]).side != side || open[i].purpose != purpose
}

/// An order at the end that is not further leaves the furthest as it is.
proof fn lemma_furthest_stays(
    open: Seq<Order>,
    n: int,
    side: Side,
    purpose: OrderPurpose,
    mid: i64,
)
    requires
        open.len() > 0,
        furthest_at(open.drop_last(), n, side, purpose, mid),
        open.last().side != side || open.last().purpose != purpose || apart(
            open.last().price,
            mid,
        ) < apart(open[n].price, mid),
    ensures
        furthest_at(open, n, side, purpose, mid),
{
    let front = open.drop_last();
    assert forall|i: int|
        0 <= i < open.len() && (#[trigger] open[i]).side == side && open[i].purpose
            == purpose implies apart(open[i].price, mid) <= apart(open[n].price, mid) && (i > n
        ==> apart(open[i].price, mid) < apart(open[n].price, mid)) by {
        if i < front.len() {
            assert(front[i] == open[i]);
        }
    }
}

/// An order at the end that is as far as any becomes the furthest.
proof fn lemma_furthest_moves(open: Seq<Order>, side: Side, purpose: OrderPurpose, mid: i64)
    requires
        open.len() > 0,
        open.last().side == side,
        open.last().purpose == purpose,
        forall|i: int|
            0 <= i < open.len() && (#[trigger] open[i]).side == side && open[i].purpose == purpose
                ==> apart(open[i].price, mid) <= apart(open.last().price, mid),
    ensures
        furthest_at(open, open.len() - 1, side, purpose, mid),
{
    assert(open[open.len() - 1] == open.last());
}

/// What the furthest order is.
proof fn lemma_furthest(open: Seq<Order>, side: Side, purpose: OrderPurpose, mid: i64)
    ensures
        match furthest(open, of_kind(side, purpose), mid) {
            Some(far) => is_furthest(far, open, side, purpose, mid),
            None => none_rests(open, side, purpose),
        },
    decreases open.len(),
{
    if open.len() > 0 {
        let front = open.drop_last();
        let last = open.last();
        let end = open.len() - 1;
        let of = last.side == side && last.purpose == purpose;
        lemma_furthest(front, side, purpose, mid);
        match furthest(front, of_kind(side, purpose), mid) {
            Some(best) => {
                let n = choose|n: int| #[trigger]
                    furthest_at(front, n, side, purpose, mid) && front[n] == best;
                assert(open[n] == best);
                if !of || reach(last, mid) < reach(best, mid) {
                    lemma_furthest_stays(open, n, side, purpose, mid);
                } else {
                    assert forall|i: int|
                        0 <= i < open.len() && (#[trigger] open[i]).side == side && open[i].purpose
                            == purpose implies apart(open[i].price, mid) <= apart(
                        last.price,
                        mid,
                    ) by {
                        if i < end {
                            assert(front[i] == open[i]);
                        }
                    }
                    lemma_furthest_moves(open, side, purpose, mid);
                }
            },
            None => {
                assert forall|i: int| 0 <= i < end implies (#[trigger] open[i]).side != side
                    || open[i].purpose != purpose by {
                    assert(front[i] == open[i]);
                }
                if of {
                    lemma_furthest_moves(open, side, purpose, mid);
                }
            },
        }
    }
}

/// A take-profit is placed unless one of its basket rests within half a unit.
/// A side with fewer orders than its depth has room. A full side gives up its
/// furthest entry, or, where it holds none, its furthest take-profit if that is
/// further from mid than the new one; else the new one is parked.
pub proof fn take_profits_find_a_place(
    h: &EngineHandle,
    tp: &ParkedTp,
    mid: i64,
    open: &Vec<Order>,
    r: TpPlan,
)
    requires
        call_ensures(EngineHandle::plan_tp, (h, tp, mid, open), r),
    ensures
        ({
            let depth = if h.config.trading.grid_depth > 1 {
                h.config.trading.grid_depth as int
            } else {
                1
            };
            let near = exists|i: int| 0 <= i < open@.len() && rests_near(#[trigger] open@[i], *tp);
            let on_side = open@.filter(|o: Order| o.side == tp.side).len();
            &&& r == TpPlan::Duplicate <==> near
            &&& r == TpPlan::Place <==> !near && on_side < depth
            &&& r is ReplaceEntry <==> !near && on_side >= depth && !none_rests(
                open@,
                tp.side,
                OrderPurpose::Entry,
            )
            &&& r matches TpPlan::ReplaceEntry { victim } ==> is_furthest(
                victim,
                open@,
                tp.side,
                OrderPurpose::Entry,
                mid,
            )
            &&& r matches TpPlan::ReplaceTp { far } ==> is_furthest(
                far,
                open@,
                tp.side,
                OrderPurpose::TakeProfit,
                mid,
            ) && apart(far.price, mid) > apart(tp.price, mid)
            &&& r == TpPlan::Park ==> forall|i: int|
                0 <= i < open@.len() && (#[trigger] open@[i]).side == tp.side && open@[i].purpose
                    == OrderPurpose::TakeProfit ==> apart(open@[i].price, mid) <= apart(
                    tp.price,
                    mid,
                )
        }),
{
    lemma_furthest(open@, tp.side, OrderPurpose::Entry, mid);
    lemma_furthest(open@, tp.side, OrderPurpose::TakeProfit, mid);
    assert(of_side(tp.side) =~= |o: Order| o.side == tp.side);
    if exists|i: int| 0 <= i < open@.len() && rests_near(#[trigger] open@[i], *tp) {
        let i = choose|i: int| 0 <= i < open@.len() && rests_near(#[trigger] open@[i], *tp);
        assert(duplicates(open@[i], *tp));
    }
    if exists|i: int| 0 <= i < open@.len() && duplicates(#[trigger] open@[i], *tp) {
        let i = choose|i: int| 0 <= i < open@.len() && duplicates(#[trigger] open@[i], *tp);
        assert(rests_near(open@[i], *tp));
    }
}

/// A plan that parks keeps what it parks: the take-profit itself, or the one
/// that it replaces, with its basket, side, price and quantity.
pub proof fn parked_take_profits_are_kept(
    h: &mut EngineHandle,
    tp: &ParkedTp,
    plan: TpPlan,
    r: bool,
)
    requires
        call_ensures(EngineHandle::follow_tp_plan, (h, tp, plan), r),
    ensures
        r <==> plan == TpPlan::Place || plan is ReplaceEntry || plan is ReplaceTp,
        plan == TpPlan::Park ==> final(h).parked_tps@ == old(h).parked_tps@.push(*tp),
        plan matches TpPlan::ReplaceTp { far } ==> {
            let kept = final(h).parked_tps@;
            &&& kept.len() == old(h).parked_tps@.len() + 1
            &&& kept.drop_last() == old(h).parked_tps@
            &&& kept.last().basket_id == far.basket_id
            &&& kept.last().side == far.side
            &&& kept.last().price == far.price
            &&& kept.last().qty == far.qty
        },
        plan != TpPlan::Park && plan !is ReplaceTp ==> final(h).parked_tps@ == old(h).parked_tps@,
        final(h).book() == old(h).book(),
{
    if plan is ReplaceTp {
        assert(final(h).parked_tps@.drop_last() =~= old(h).parked_tps@);
    }
}

/// An order that was placed belongs to its basket, and no other order's basket
/// changes.
pub proof fn placed_orders_belong_to_their_basket(
    h: &mut EngineHandle,
    order_id: u128,
    basket_id: u128,
    other: u128,
)
    requires
        call_ensures(EngineHandle::order_placed, (h, order_id, basket_id), ()),
    ensures
        final(h).basket_mgr.links().dom().contains(order_id),
        final(h).basket_mgr.links()[order_id] == basket_id,
        other != order_id ==> (final(h).basket_mgr.links().dom().contains(other) <==> old(h).basket_mgr.links().dom().contains(other)),
        other != order_id ==> final(h).basket_mgr.links()[other] == old(h).basket_mgr.links()[other],
        final(h).book() == old(h).book(),
{
}

/// The parked take-profit may go back: it is within reach of mid, and its side
/// has fewer orders than its depth.
pub open spec fn may_return(run: UnparkRun, p: ParkedTp) -> bool {
    &&& -run.reach <= p.price - run.mid <= run.reach
    &&& p.side == Side::Sell ==> run.sells_above < run.depth
    &&& p.side == Side::Buy ==> run.buys_below < run.depth
}

/// A pass over parked take-profits takes all of them, in order, with as many
/// grid steps of reach as a side has orders. There is none without a mid,
/// without a grid step, or with nothing parked.
pub proof fn a_pass_takes_all_that_is_parked(h: &mut EngineHandle, r: Option<UnparkRun>)
    requires
        call_ensures(EngineHandle::unpark_eligible_tps, (h,), r),
    ensures
        ({
            let depth = if old(h).config.trading.grid_depth > 1 {
                old(h).config.trading.grid_depth as int
            } else {
                1
            };
            &&& r is Some <==> old(h).mid_price > 0 && old(h).config.trading.grid_step > 0 && old(h).parked_tps@.len() > 0
            &&& r matches Some(run) ==> {
                &&& run.mid == old(h).mid_price
                &&& run.depth == depth
                &&& held(run.reach, depth * old(h).config.trading.grid_step)
                &&& run.queue@ == old(h).parked_tps@
                &&& run.at == 0
                &&& run.still@.len() == 0
                &&& final(h).parked_tps@.len() == 0
            }
            &&& r is None ==> final(h).parked_tps@ == old(h).parked_tps@
        }),
{
}

/// A pass counts what rests on either side of mid.
pub proof fn a_pass_counts_both_sides(run: &mut UnparkRun, open: &Vec<Order>)
    requires
        call_ensures(UnparkRun::count, (run, open), ()),
    ensures
        final(run).sells_above == open@.filter(|o: Order| o.price > old(run).mid).len(),
        final(run).buys_below == open@.filter(|o: Order| o.price < old(run).mid).len(),
        final(run).queue == old(run).queue,
        final(run).still == old(run).still,
        final(run).at == old(run).at,
        final(run).mid == old(run).mid,
        final(run).reach == old(run).reach,
        final(run).depth == old(run).depth,
{
    let mid = old(run).mid;
    assert(above(mid) =~= |o: Order| o.price > mid);
    assert(below(mid) =~= |o: Order| o.price < mid);
    assert((|o: Order| o.price > old(run).mid) =~= |o: Order| o.price > mid);
    assert((|o: Order| o.price < old(run).mid) =~= |o: Order| o.price < mid);
}

/// Where the next eligible one is.
proof fn lemma_next_eligible(run: UnparkRun, i: int)
    requires
        0 <= i <= run.queue@.len(),
    ensures
        i <= run.next_eligible(i) <= run.queue@.len(),
        forall|j: int|
            i <= j < run.next_eligible(i) ==> !may_return(run, #[trigger] run.queue@[j]),
        run.next_eligible(i) < run.queue@.len() ==> may_return(
            run,
            run.queue@[run.next_eligible(i)],
        ),
    decreases run.queue@.len() - i,
{
    if i < run.queue@.len() && !run.eligible(run.queue@[i]) {
        lemma_next_eligible(run, i + 1);
    }
}

/// The first parked take-profit that may go back is handed out; those before it
/// may not, and stay parked in their order.
pub proof fn the_first_that_may_return_does(run: &mut UnparkRun, r: Option<ParkedTp>)
    requires
        old(run).at <= old(run).queue@.len(),
        call_ensures(UnparkRun::next, (run,), r),
    ensures
        ({
            let from = old(run).at as int;
            let to = final(run).at as int;
            let queue = old(run).queue@;
            &&& from <= to <= queue.len()
            &&& forall|i: int| from <= i < to ==> !may_return(*old(run), #[trigger] queue[i])
            &&& r is None <==> to == queue.len()
            &&& r matches Some(p) ==> p == queue[to] && may_return(*old(run), p)
            &&& final(run).still@ == old(run).still@ + queue.subrange(from, to)
            &&& final(run).queue == old(run).queue
            &&& final(run).sells_above == old(run).sells_above
            &&& final(run).buys_below == old(run).buys_below
        }),
{
    lemma_next_eligible(*old(run), old(run).at as int);
}

/// A take-profit that went back takes a slot of its own side; one that did not
/// stays parked. Either way the pass moves on by one.
pub proof fn settled_take_profits_take_a_slot(run: &mut UnparkRun, placed: bool)
    requires
        old(run).at < old(run).queue@.len(),
        call_ensures(UnparkRun::settle, (run, placed), ()),
        old(run).sells_above < usize::MAX,
        old(run).buys_below < usize::MAX,
    ensures
        ({
            let p = old(run).queue@[old(run).at as int];
            &&& final(run).at == old(run).at + 1
            &&& final(run).queue == old(run).queue
            &&& placed ==> final(run).still@ == old(run).still@
            &&& !placed ==> final(run).still@ == old(run).still@.push(p)
            &&& final(run).sells_above == if placed && p.side == Side::Sell {
                old(run).sells_above + 1
            } else {
                old(run).sells_above as int
            }
            &&& final(run).buys_below == if placed && p.side == Side::Buy {
                old(run).buys_below + 1
            } else {
                old(run).buys_below as int
            }
        }),
{
    assert(final(run).resting(Side::Sell) == final(run).sells_above);
    assert(final(run).resting(Side::Buy) == final(run).buys_below);
}

/// What a pass left parked is parked again.
pub proof fn leftovers_are_parked_again(h: &mut EngineHandle, run: UnparkRun)
    requires
        call_ensures(EngineHandle::repark, (h, run), ()),
    ensures
        final(h).parked_tps@ == run.still@,
        final(h).book() == old(h).book(),
{
}

/// The same of every entry, where the price of the take-profit may be held at
/// an end of the range of amounts.
pub proof fn take_profits_rest_beyond_mid(
    h: &mut EngineHandle,
    fill: &Fill,
    r: FillOutcome,
    above: i64,
    below: i64,
)
    requires
        call_ensures(EngineHandle::process_fill, (h, fill), r),
        fill.purpose == OrderPurpose::Entry,
        old(h).book().dom().contains(fill.basket_id),
        held(above, fill.price + old(h).config.trading.tp_spread),
        held(below, fill.price - old(h).config.trading.tp_spread),
    ensures
        r matches FillOutcome::Entered {
            index,
            side,
            avg_price,
            anchored,
            lower_sl,
            upper_sl,
            mid,
            tp,
        } && {
            &&& side == old(h).book()[fill.basket_id].side
            &&& tp matches Some(t) ==> t.qty == fill.qty && t.basket_id == fill.basket_id
            &&& side == BasketSide::Long ==> {
                &&& tp is Some <==> above > old(h).mid_price
                &&& tp matches Some(t) ==> t.side == Side::Sell && t.price == above
            }
            &&& side == BasketSide::Short ==> {
                &&& tp is Some <==> below < old(h).mid_price
                &&& tp matches Some(t) ==> t.side == Side::Buy && t.price == below
            }
        },
{
}

/// Every fill enters the statistics, as the tracker takes it in with the book
/// before the fill.
pub proof fn fills_enter_the_statistics(h: &mut EngineHandle, fill: &Fill, r: FillOutcome)
    requires
        call_ensures(EngineHandle::process_fill, (h, fill), r),
    ensures
        old(h).trade_tracker.took_in(&final(h).trade_tracker, old(h).book(), *fill),
        final(h).trade_tracker.totals.total_fills
            == old(h).trade_tracker.totals.total_fills.wrapping_add(1),
        fill.purpose == OrderPurpose::Entry ==> final(h).trade_tracker.queue(
            fill.basket_id,
        ).len() == old(h).trade_tracker.queue(fill.basket_id).len() + 1,
{
}

} // verus!
