//! Fills: what they do to baskets, and where the take-profit of an entry goes.
use vstd::prelude::*;

use crate::amount::{abs, clamp, gap, minus, plus, product, ratio, TICK};
use crate::engine::{EngineHandle, ParkedTp, FILLS_KEPT};
use crate::engines::basket_manager::{
    book_wf, lemma_book_put, lemma_total_replace, net_total, open_total,
};
use crate::lists::{keep_last, last_of, lemma_filter_step};
use crate::models::basket::{Basket, BasketSide, BasketStatus};
use crate::models::order::{Fill, Order, OrderPurpose, Side};
use crate::tables::entry;

verus! {

/// What a fill did.
#[derive(Debug, Clone, Copy, PartialEq, Eq, Structural)]
pub enum FillOutcome {
    /// It names a basket that does not exist.
    NoBasket,
    /// It opened or grew a position.
    Entered {
        index: u32,
        side: BasketSide,
        avg_price: i64,
        /// It anchored the basket's stop-loss bounds.
        anchored: bool,
        lower_sl: i64,
        upper_sl: i64,
        /// The mid that the take-profit was held against.
        mid: i64,
        /// The take-profit to place; `None` when it would take liquidity.
        tp: Option<ParkedTp>,
    },
    /// It closed some or all of a position at a profit.
    TookProfit { index: u32, realized_pnl: i64 },
    /// It was an exit, which is booked where it was sent.
    Noted,
}

/// How a take-profit gets onto the exchange.
#[derive(Debug, Clone, Copy, PartialEq, Eq, Structural)]
pub enum TpPlan {
    /// One rests there already.
    Duplicate,
    /// There is room.
    Place,
    /// Cancel this entry for it.
    ReplaceEntry { victim: Order },
    /// Cancel and park this take-profit for it.
    ReplaceTp { far: Order },
    /// Every take-profit on its side is at least as near to mid: park it.
    Park,
}

/// The orders of a side and purpose.
pub open spec fn of_kind(side: Side, purpose: OrderPurpose) -> spec_fn(Order) -> bool {
    |o: Order| o.side == side && o.purpose == purpose
}

/// The orders of a side.
pub open spec fn of_side(side: Side) -> spec_fn(Order) -> bool {
    |o: Order| o.side == side
}

/// How far an order is from mid.
pub open spec fn reach(o: Order, mid: i64) -> int {
    abs(o.price - mid)
}

/// The order furthest from mid among those that satisfy `p`; the last of them
/// when several are as far.
pub open spec fn furthest(open: Seq<Order>, p: spec_fn(Order) -> bool, mid: i64) -> Option<Order>
    decreases open.len(),
{
    if open.len() == 0 {
        None
    } else {
        let o = open.last();
        match furthest(open.drop_last(), p, mid) {
            Some(best) if !p(o) || reach(o, mid) < reach(best, mid) => Some(best),
            None if !p(o) => None,
            _ => Some(o),
        }
    }
}

/// A take-profit of the same basket and side rests within half a unit.
pub open spec fn duplicates(o: Order, tp: ParkedTp) -> bool {
    &&& o.basket_id == tp.basket_id
    &&& o.purpose == OrderPurpose::TakeProfit
    &&& o.side == tp.side
    &&& abs(o.price - tp.price) < TICK
}

/// How a take-profit gets onto an exchange where `open` rests.
pub open spec fn plan_of(tp: ParkedTp, mid: i64, open: Seq<Order>, depth: int) -> TpPlan {
    if exists|i: int| 0 <= i < open.len() && duplicates(#[trigger] open[i], tp) {
        TpPlan::Duplicate
    } else if open.filter(of_side(tp.side)).len() < depth {
        TpPlan::Place
    } else {
        match furthest(open, of_kind(tp.side, OrderPurpose::Entry), mid) {
            Some(victim) => TpPlan::ReplaceEntry { victim },
            None => match furthest(open, of_kind(tp.side, OrderPurpose::TakeProfit), mid) {
                Some(far) if reach(far, mid) > abs(tp.price - mid) => TpPlan::ReplaceTp { far },
                _ => TpPlan::Park,
            },
        }
    }
}

impl ParkedTp {
    /// The take-profit that an order is.
    pub open spec fn of(o: Order) -> ParkedTp {
        ParkedTp { basket_id: o.basket_id, side: o.side, price: o.price, qty: o.qty }
    }

    /// The take-profit of an entry: it closes the fill one spread away.
    pub open spec fn closing(side: BasketSide, fill: Fill, tp_spread: i64) -> ParkedTp {
        ParkedTp {
            basket_id: fill.basket_id,
            side: side.closed_by(),
            price: match side {
                BasketSide::Long => clamp(fill.price + tp_spread),
                BasketSide::Short => clamp(fill.price - tp_spread),
            },
            qty: fill.qty,
        }
    }

    /// The order would rest at this mid, not take liquidity.
    pub open spec fn rests(self, mid: i64) -> bool {
        match self.side {
            Side::Buy => self.price < mid,
            Side::Sell => self.price > mid,
        }
    }
}

/// The order furthest from mid of a side and purpose.
fn find_furthest(open: &Vec<Order>, side: Side, purpose: OrderPurpose, mid: i64) -> (r: Option<
    Order,
>)
    ensures
        r == furthest(open@, of_kind(side, purpose), mid),
{
    let mut best: Option<Order> = None;
    let mut n: usize = 0;
    while n < open.len()
        invariant
            n <= open@.len(),
            best == furthest(open@.take(n as int), of_kind(side, purpose), mid),
        decreases open@.len() - n,
    {
        let o: Order = open[n];
        proof {
            assert(open@.take(n + 1).drop_last() =~= open@.take(n as int));
            assert(open@.take(n + 1).last() == o);
        }
        if o.side == side && o.purpose == purpose {
            let further: bool = match best {
                Some(b) => gap(o.price, mid) >= gap(b.price, mid),
                None => true,
            };
            if further {
                best = Some(o);
            }
        }
        n += 1;
    }
    assert(open@.take(open@.len() as int) =~= open@);
    best
}

/// How many orders rest on a side.
fn count_side(open: &Vec<Order>, side: Side) -> (r: usize)
    ensures
        r == open@.filter(of_side(side)).len(),
{
    let mut count: usize = 0;
    let mut n: usize = 0;
    while n < open.len()
        invariant
            n <= open@.len(),
            count <= n,
            count == open@.take(n as int).filter(of_side(side)).len(),
        decreases open@.len() - n,
    {
        proof {
            lemma_filter_step(open@, of_side(side), n as int);
        }
        if open[n].side == side {
            count += 1;
        }
        n += 1;
    }
    assert(open@.take(open@.len() as int) =~= open@);
    count
}

impl EngineHandle {
    /// The book after a fill.
    pub open spec fn book_after(&self, fill: Fill) -> Map<u128, Basket> {
        match entry(self.book(), fill.basket_id) {
            Some(b) => match fill.purpose {
                OrderPurpose::Entry => self.book().insert(
                    fill.basket_id,
                    b.entered(fill.qty, fill.price).anchored(fill.price, self.distance()),
                ),
                OrderPurpose::TakeProfit => self.book().insert(
                    fill.basket_id,
                    b.recycled(fill.qty),
                ),
                _ => self.book(),
            },
            None => self.book(),
        }
    }

    /// What a fill does.
    pub open spec fn outcome_of(&self, fill: Fill) -> FillOutcome {
        match fill.purpose {
            OrderPurpose::Entry => match entry(self.book(), fill.basket_id) {
                Some(before) => {
                    let b = self.book_after(fill)[fill.basket_id];
                    let tp = ParkedTp::closing(b.side, fill, self.config.trading.tp_spread);
                    FillOutcome::Entered {
                        index: b.index,
                        side: b.side,
                        avg_price: b.avg_price,
                        anchored: before.anchor_price <= 0,
                        lower_sl: b.lower_sl,
                        upper_sl: b.upper_sl,
                        mid: self.mid_price,
                        tp: if tp.rests(self.mid_price) {
                            Some(tp)
                        } else {
                            None
                        },
                    }
                },
                None => FillOutcome::NoBasket,
            },
            OrderPurpose::TakeProfit => match entry(self.book(), fill.basket_id) {
                Some(before) => FillOutcome::TookProfit {
                    index: before.index,
                    realized_pnl: before.recycled(fill.qty).realized_pnl,
                },
                None => FillOutcome::NoBasket,
            },
            _ => FillOutcome::Noted,
        }
    }

    /// Takes in a fill. It enters the statistics and the list of recent fills.
    /// An entry grows its basket, and the first one anchors the basket's
    /// stop-loss; a take-profit shrinks it. A killed basket stays killed. Says
    /// what was done, and which take-profit an entry calls for.
    pub fn process_fill(&mut self, fill: &Fill) -> (r: FillOutcome)
        requires
            old(self).wf(),
        ensures
            final(self).wf(),
            r == old(self).outcome_of(*fill),
            final(self).book() == old(self).book_after(*fill),
            forall|k: u128|
                #![trigger final(self).book()[k]]
                old(self).book().dom().contains(k) && old(self).book()[k].status
                    == BasketStatus::Killed ==> final(self).book()[k].status
                    == BasketStatus::Killed,
            old(self).trade_tracker.took_in(&final(self).trade_tracker, old(self).book(), *fill),
            final(self).recent_fills@ == last_of(
                old(self).recent_fills@.push(*fill),
                FILLS_KEPT as nat,
            ),
            final(self).basket_mgr.links() == old(self).basket_mgr.links(),
            final(self).basket_mgr.config == old(self).basket_mgr.config,
            final(self).basket_mgr.active_basket_id == old(self).basket_mgr.active_basket_id,
            *final(self) == (EngineHandle {
                trade_tracker: final(self).trade_tracker,
                recent_fills: final(self).recent_fills,
                basket_mgr: final(self).basket_mgr,
                ..*old(self)
            }),
    {
        self.trade_tracker.ingest(&self.basket_mgr, fill);
        self.recent_fills.push(*fill);
        keep_last(&mut self.recent_fills, FILLS_KEPT);
        match fill.purpose {
            OrderPurpose::Entry => {
                let distance: i64 = self.cycle_distance();
                match self.basket_mgr.get(fill.basket_id) {
                    Some(before) => {
                        let mut b: Basket = before;
                        b.apply_entry_fill(fill.qty, fill.price);
                        let anchored: bool = before.anchor_price <= 0;
                        if anchored {
                            b.set_sl_anchor(fill.price, distance);
                        }
                        proof {
                            lemma_book_put(self.book(), b);
                        }
                        self.basket_mgr.put(b);
                        let price: i64 = match b.side {
                            BasketSide::Long => plus(fill.price, self.config.trading.tp_spread),
                            BasketSide::Short => minus(fill.price, self.config.trading.tp_spread),
                        };
                        let tp: ParkedTp = ParkedTp {
                            basket_id: fill.basket_id,
                            side: b.side.closing_side(),
                            price,
                            qty: fill.qty,
                        };
                        let rests: bool = match tp.side {
                            Side::Buy => price < self.mid_price,
                            Side::Sell => price > self.mid_price,
                        };
                        FillOutcome::Entered {
                            index: b.index,
                            side: b.side,
                            avg_price: b.avg_price,
                            anchored,
                            lower_sl: b.lower_sl,
                            upper_sl: b.upper_sl,
                            mid: self.mid_price,
                            tp: if rests {
                                Some(tp)
                            } else {
                                None
                            },
                        }
                    },
                    None => FillOutcome::NoBasket,
                }
            },
            OrderPurpose::TakeProfit => {
                match self.basket_mgr.get(fill.basket_id) {
                    Some(before) => {
                        let mut b: Basket = before;
                        b.apply_tp_fill(fill.qty, fill.price);
                        proof {
                            lemma_book_put(self.book(), b);
                        }
                        self.basket_mgr.put(b);
                        FillOutcome::TookProfit { index: b.index, realized_pnl: b.realized_pnl }
                    },
                    None => FillOutcome::NoBasket,
                }
            },
            OrderPurpose::StopLossExit => FillOutcome::Noted,
            OrderPurpose::KillSwitchExit => FillOutcome::Noted,
        }
    }

    /// How a take-profit gets onto an exchange where `open` rests. A side that
    /// is full gives up its furthest entry, or else its furthest take-profit
    /// when that is further from mid than the new one.
    pub fn plan_tp(&self, tp: &ParkedTp, mid: i64, open: &Vec<Order>) -> (r: TpPlan)
        ensures
            r == plan_of(*tp, mid, open@, self.depth()),
    {
        let mut n: usize = 0;
        while n < open.len()
            invariant
                n <= open@.len(),
                forall|i: int| 0 <= i < n ==> !duplicates(#[trigger] open@[i], *tp),
            decreases open@.len() - n,
        {
            let o: Order = open[n];
            if o.basket_id == tp.basket_id && o.purpose == OrderPurpose::TakeProfit && o.side
                == tp.side && gap(o.price, tp.price) < TICK as u64 {
                assert(duplicates(open@[n as int], *tp));
                return TpPlan::Duplicate;
            }
            n += 1;
        }
        if count_side(open, tp.side) < self.side_depth() {
            return TpPlan::Place;
        }
        match find_furthest(open, tp.side, OrderPurpose::Entry, mid) {
            Some(victim) => TpPlan::ReplaceEntry { victim },
            None => {
                match find_furthest(open, tp.side, OrderPurpose::TakeProfit, mid) {
                    Some(far) => {
                        if gap(far.price, mid) > gap(tp.price, mid) {
                            TpPlan::ReplaceTp { far }
                        } else {
                            TpPlan::Park
                        }
                    },
                    None => TpPlan::Park,
                }
            },
        }
    }

    /// Parks what a plan parks. Says whether the take-profit is to be placed.
    pub fn follow_tp_plan(&mut self, tp: &ParkedTp, plan: TpPlan) -> (r: bool)
        ensures
            r == (plan != TpPlan::Duplicate && plan != TpPlan::Park),
            final(self).parked_tps@ == match plan {
                TpPlan::ReplaceTp { far } => old(self).parked_tps@.push(ParkedTp::of(far)),
                TpPlan::Park => old(self).parked_tps@.push(*tp),
                _ => old(self).parked_tps@,
            },
            *final(self) == (EngineHandle { parked_tps: final(self).parked_tps, ..*old(self) }),
    {
        match plan {
            TpPlan::Duplicate => false,
            TpPlan::Place => true,
            TpPlan::ReplaceEntry { victim: _ } => true,
            TpPlan::ReplaceTp { far } => {
                self.parked_tps.push(
                    ParkedTp {
                        basket_id: far.basket_id,
                        side: far.side,
                        price: far.price,
                        qty: far.qty,
                    },
                );
                true
            },
            TpPlan::Park => {
                self.parked_tps.push(*tp);
                false
            },
        }
    }

    /// Records that an order of a basket rests on the exchange.
    pub fn order_placed(&mut self, order_id: u128, basket_id: u128)
        ensures
            final(self).basket_mgr.links() == old(self).basket_mgr.links().insert(
                order_id,
                basket_id,
            ),
            final(self).book() == old(self).book(),
            final(self).basket_mgr.config == old(self).basket_mgr.config,
            final(self).basket_mgr.active_basket_id == old(self).basket_mgr.active_basket_id,
            *final(self) == (EngineHandle { basket_mgr: final(self).basket_mgr, ..*old(self) }),
    {
        self.basket_mgr.link_order(order_id, basket_id);
    }
}

/// What a furthest order is: it rests, it is of the kind, and none of the kind
/// is further from mid.
pub proof fn furthest_is_furthest(open: Seq<Order>, p: spec_fn(Order) -> bool, mid: i64)
    ensures
        match furthest(open, p, mid) {
            Some(far) => {
                &&& open.contains(far)
                &&& p(far)
                &&& forall|i: int|
                    0 <= i < open.len() && p(#[trigger] open[i]) ==> reach(open[i], mid) <= reach(
                        far,
                        mid,
                    )
            },
            None => forall|i: int| 0 <= i < open.len() ==> !p(#[trigger] open[i]),
        },
    decreases open.len(),
{
    if open.len() > 0 {
        let front = open.drop_last();
        furthest_is_furthest(front, p, mid);
        assert(forall|i: int| 0 <= i < front.len() ==> front[i] == open[i]);
        match furthest(open, p, mid) {
            Some(far) => {
                if far == open.last() {
                    assert(open[open.len() - 1] == far);
                }
                match furthest(front, p, mid) {
                    Some(best) => {
                        let i = choose|i: int| 0 <= i < front.len() && front[i] == best;
                        assert(open[i] == best);
                    },
                    None => {},
                }
                assert forall|i: int| 0 <= i < open.len() && p(#[trigger] open[i]) implies reach(
                    open[i],
                    mid,
                ) <= reach(far, mid) by {
                    if i < front.len() {
                        assert(p(front[i]));
                    }
                }
            },
            None => {
                assert forall|i: int| 0 <= i < open.len() implies !p(#[trigger] open[i]) by {
                    if i < front.len() {
                        assert(!p(front[i]));
                    }
                }
            },
        }
    }
}

/// Whichever take-profit a full side keeps, none that stays is further from
/// mid than the one that is parked.
pub proof fn the_furthest_tp_is_parked(
    tp: ParkedTp,
    mid: i64,
    open: Seq<Order>,
    depth: int,
    i: int,
)
    requires
        0 <= i < open.len(),
        open[i].side == tp.side,
        open[i].purpose == OrderPurpose::TakeProfit,
    ensures
        plan_of(tp, mid, open, depth) matches TpPlan::ReplaceTp { far } ==> reach(open[i], mid)
            <= reach(far, mid) && abs(tp.price - mid) < reach(far, mid),
        plan_of(tp, mid, open, depth) == TpPlan::Park ==> reach(open[i], mid) <= abs(
            tp.price - mid,
        ),
{
    let p = of_kind(tp.side, OrderPurpose::TakeProfit);
    furthest_is_furthest(open, p, mid);
    assert(p(open[i]));
}

/// A take-profit never overfills its side: it is placed only where there is
/// room, or for an order of its side that it replaces. A resting take-profit
/// gives way only where no entry rests.
pub proof fn plans_keep_the_depth(tp: ParkedTp, mid: i64, open: Seq<Order>, depth: int)
    ensures
        match plan_of(tp, mid, open, depth) {
            TpPlan::Place => open.filter(of_side(tp.side)).len() < depth,
            TpPlan::ReplaceEntry { victim } => open.contains(victim) && victim.side == tp.side
                && victim.purpose == OrderPurpose::Entry,
            TpPlan::ReplaceTp { far } => {
                &&& open.contains(far)
                &&& far.side == tp.side
                &&& far.purpose == OrderPurpose::TakeProfit
                &&& forall|i: int|
                    0 <= i < open.len() && (#[trigger] open[i]).side == tp.side ==> open[i].purpose
                        != OrderPurpose::Entry
            },
            _ => true,
        },
{
    let e = of_kind(tp.side, OrderPurpose::Entry);
    furthest_is_furthest(open, e, mid);
    furthest_is_furthest(open, of_kind(tp.side, OrderPurpose::TakeProfit), mid);
    assert forall|i: int|
        0 <= i < open.len() && (#[trigger] open[i]).side == tp.side && furthest(open, e, mid)
            is None implies open[i].purpose != OrderPurpose::Entry by {
        assert(!e(open[i]));
    }
}

/// A take-profit closes what was filled, one spread on the profitable side of
/// the fill, where that price can be written.
pub proof fn take_profits_earn_the_spread(side: BasketSide, fill: Fill, tp_spread: i64)
    requires
        i64::MIN <= fill.price + tp_spread <= i64::MAX,
        i64::MIN <= fill.price - tp_spread <= i64::MAX,
    ensures
        ({
            let tp = ParkedTp::closing(side, fill, tp_spread);
            &&& tp.side == side.closed_by()
            &&& tp.qty == fill.qty
            &&& tp.basket_id == fill.basket_id
            &&& match side {
                BasketSide::Long => tp.price - fill.price == tp_spread,
                BasketSide::Short => fill.price - tp.price == tp_spread,
            }
        }),
{
}

/// A take-profit that an entry calls for rests on its own side of mid, and
/// closes what was filled.
pub proof fn take_profits_are_makers(h: EngineHandle, fill: Fill)
    ensures
        h.outcome_of(fill) matches FillOutcome::Entered {
            index,
            side,
            avg_price,
            anchored,
            lower_sl,
            upper_sl,
            mid,
            tp,
        } ==> (tp matches Some(t) ==> t.rests(h.mid_price) && t.side == side.closed_by() && t.qty
            == fill.qty && t.basket_id == fill.basket_id),
{
}

/// A take-profit that rests is not placed again.
pub proof fn a_resting_tp_is_not_repeated(
    tp: ParkedTp,
    mid: i64,
    open: Seq<Order>,
    depth: int,
    i: int,
)
    requires
        0 <= i < open.len(),
        ParkedTp::of(open[i]) == tp,
        open[i].purpose == OrderPurpose::TakeProfit,
    ensures
        plan_of(tp, mid, open, depth) == TpPlan::Duplicate,
{
    assert(duplicates(open[i], tp));
}

/// A round trip of a flat basket, one entry and a take-profit for all of it,
/// earns the spread on the quantity, and leaves the basket idle, without a
/// position or an anchor, ready for the next.
pub proof fn a_round_trip_earns_the_spread(b: Basket, qty: i64, price: i64, distance: i64)
    requires
        b.open_qty == 0,
        b.anchor_price == 0,
        b.status != BasketStatus::Killed,
        qty > 0,
        price > 0,
        i64::MIN <= b.realized_pnl + product(b.tp_spread, qty) <= i64::MAX,
        i64::MIN <= b.realized_pnl + ratio(b.tp_spread as int, qty as int, price as int)
            <= i64::MAX,
    ensures
        ({
            let done = b.entered(qty, price).anchored(price, distance).recycled(qty);
            &&& done.open_qty == 0
            &&& done.anchor_price == 0
            &&& done.status == BasketStatus::Idle
            &&& done.realized_pnl - b.realized_pnl == if b.is_inverse {
                ratio(b.tp_spread as int, qty as int, price as int)
            } else {
                product(b.tp_spread, qty)
            }
        }),
{
    assert(0 * b.avg_price + qty * price == qty * price);
    let n = qty * price;
    assert(n % (qty as int) == 0 && n / (qty as int) == price) by (nonlinear_arith)
        requires
            n == qty * price,
            qty > 0,
    ;
    assert(n >= 0) by (nonlinear_arith)
        requires
            n == qty * price,
            qty > 0,
            price > 0,
    ;
    assert(b.entered(qty, price).avg_price == price);
}

/// A killed basket stays killed, whatever fills arrive late: no fill changes
/// that status, and no entry is offered to the basket after it.
pub proof fn no_fill_revives_a_killed_basket(h: EngineHandle, fill: Fill, k: u128, qty: i64)
    requires
        book_wf(h.book()),
        h.book().dom().contains(k),
        h.book()[k].status == BasketStatus::Killed,
    ensures
        h.book_after(fill).dom().contains(k),
        h.book_after(fill)[k].status == BasketStatus::Killed,
        !h.book_after(fill)[k].takes(qty),
{
}

/// A fill moves the position of the baskets by what it filled: an entry adds
/// its quantity in the basket's direction, a take-profit takes it away, and an
/// exit leaves it to the books that the exit was sent from.
pub proof fn fills_move_the_position(h: EngineHandle, fill: Fill)
    requires
        book_wf(h.book()),
        h.book().dom().contains(fill.basket_id),
        0 <= fill.qty,
        0 <= h.book()[fill.basket_id].open_qty,
        h.book()[fill.basket_id].open_qty + fill.qty <= i64::MAX,
        fill.purpose == OrderPurpose::TakeProfit ==> fill.qty
            <= h.book()[fill.basket_id].open_qty,
    ensures
        net_total(h.book_after(fill)) - net_total(h.book()) == match fill.purpose {
            OrderPurpose::Entry => match h.book()[fill.basket_id].side {
                BasketSide::Long => fill.qty as int,
                BasketSide::Short => -(fill.qty as int),
            },
            OrderPurpose::TakeProfit => match h.book()[fill.basket_id].side {
                BasketSide::Long => -(fill.qty as int),
                BasketSide::Short => fill.qty as int,
            },
            _ => 0,
        },
        open_total(h.book_after(fill)) - open_total(h.book()) == match fill.purpose {
            OrderPurpose::Entry => fill.qty as int,
            OrderPurpose::TakeProfit => -(fill.qty as int),
            _ => 0,
        },
{
    let m = h.book();
    let k = fill.basket_id;
    let b = h.book_after(fill)[k];
    lemma_total_replace(m, |b: Basket| b.net(), k, b);
    lemma_total_replace(m, |b: Basket| b.open_qty as int, k, b);
    if fill.purpose == OrderPurpose::Entry || fill.purpose == OrderPurpose::TakeProfit {
        assert(h.book_after(fill) == m.insert(k, b));
    }
}

} // verus!
