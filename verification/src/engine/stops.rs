//! Stops: per-basket stop-losses, cycle resets, and the operator's flush.
use vstd::prelude::*;

use crate::amount::{abs, clamp, magnitude, minus, plus, TICK};
use crate::engine::{EngineHandle, ParkedTp};
use crate::engines::basket_manager::{all_reset, book_wf, chosen, lemma_book_put, Choice};
use crate::lists::lemma_filter_step;
use crate::models::basket::{Basket, BasketStatus};
use crate::models::order::{Order, Side};
use crate::tables::entry;
use crate::text::{amount_text, digits, push_amount, push_number};

verus! {

/// A bound that mid has reached.
#[derive(Debug, Clone, Copy, PartialEq, Eq, Structural)]
pub enum Bound {
    Upper,
    Lower,
}

/// A reduce-only market order against what is left of a position.
#[derive(Debug, Clone, Copy, PartialEq, Eq, Structural)]
pub struct ResidualExit {
    pub side: Side,
    pub qty: i64,
}

/// The bound of a cycle that mid has reached, and where it lies.
#[derive(Debug, Clone, Copy, PartialEq, Eq, Structural)]
pub struct CycleBreach {
    pub bound: Bound,
    pub level: i64,
}

/// How a cycle ended.
pub struct CycleEnd {
    pub hits: u32,
    /// Why the kill switch is to trip, when the hits are used up.
    pub trip: Option<String>,
}

/// Waits for the exchange to report a flat position, a few times.
#[derive(Debug, Clone, Copy, PartialEq, Eq, Structural)]
pub struct FlatWatch {
    pub readings: u32,
}

/// How many readings a watch takes before it gives up.
pub const FLAT_READINGS: u32 = 4;

/// The orders of a basket.
pub open spec fn of_basket(basket_id: u128) -> spec_fn(Order) -> bool {
    |o: Order| o.basket_id == basket_id
}

/// The parked take-profits of other baskets.
pub open spec fn not_of_basket(basket_id: u128) -> spec_fn(ParkedTp) -> bool {
    |p: ParkedTp| p.basket_id != basket_id
}

/// The exit of a residual position: none within half a unit of flat, else the
/// whole of it against its sign.
pub open spec fn exit_of_residual(residual: i64) -> Option<ResidualExit> {
    if abs(residual as int) > TICK {
        Some(
            ResidualExit {
                side: if residual > 0 {
                    Side::Sell
                } else {
                    Side::Buy
                },
                qty: clamp(abs(residual as int)),
            },
        )
    } else {
        None
    }
}

/// The exit of a residual position.
pub fn residual_exit(residual: i64) -> (r: Option<ResidualExit>)
    ensures
        r == exit_of_residual(residual),
{
    if residual > TICK || residual < -TICK {
        let side: Side = if residual > 0 {
            Side::Sell
        } else {
            Side::Buy
        };
        Some(ResidualExit { side, qty: magnitude(residual) })
    } else {
        None
    }
}

/// The identifiers of the resting orders of a basket.
pub fn orders_of(open: &Vec<Order>, basket_id: u128) -> (r: Vec<u128>)
    ensures
        r@ == open@.filter(of_basket(basket_id)).map_values(|o: Order| o.order_id),
{
    let ghost id = |o: Order| o.order_id;
    let mut out: Vec<u128> = Vec::new();
    let mut n: usize = 0;
    while n < open.len()
        invariant
            n <= open@.len(),
            id == (|o: Order| o.order_id),
            out@ == open@.take(n as int).filter(of_basket(basket_id)).map_values(id),
        decreases open@.len() - n,
    {
        proof {
            lemma_filter_step(open@, of_basket(basket_id), n as int);
        }
        if open[n].basket_id == basket_id {
            out.push(open[n].order_id);
        }
        assert(out@ =~= open@.take(n + 1).filter(of_basket(basket_id)).map_values(id));
        n += 1;
    }
    assert(open@.take(open@.len() as int) =~= open@);
    out
}

/// The bound of a basket that mid has reached.
pub fn bound_hit(b: &Basket, mid: i64) -> (r: Bound)
    ensures
        r == if mid >= b.upper_sl {
            Bound::Upper
        } else {
            Bound::Lower
        },
{
    if mid >= b.upper_sl {
        Bound::Upper
    } else {
        Bound::Lower
    }
}

impl FlatWatch {
    /// A watch that has read nothing yet.
    pub fn new() -> (r: Self)
        ensures
            r.readings == 0,
    {
        FlatWatch { readings: 0 }
    }

    /// The verdict on a final reading.
    pub open spec fn verdict(residual: i64) -> (bool, Seq<char>) {
        if abs(residual as int) <= TICK {
            (true, "flat — exchange position "@ + amount_text(residual, 2))
        } else {
            (
                false,
                "residual position "@ + amount_text(residual, 2)
                    + " remains — close manually on the exchange"@,
            )
        }
    }

    /// Takes a reading of the position. Ends with a verdict once it is flat,
    /// or when this was the last reading.
    pub fn observe(&mut self, residual: i64) -> (r: Option<(bool, String)>)
        ensures
            final(self).readings == old(self).readings.wrapping_add(1),
            match r {
                Some(v) => {
                    &&& abs(residual as int) <= TICK || final(self).readings >= FLAT_READINGS
                    &&& (v.0, v.1@) == Self::verdict(residual)
                },
                None => abs(residual as int) > TICK && final(self).readings < FLAT_READINGS,
            },
    {
        self.readings = self.readings.wrapping_add(1);
        let flat: bool = residual <= TICK && residual >= -TICK;
        let mut text: String = String::new();
        if flat {
            text.append("flat — exchange position ");
            push_amount(&mut text, residual, 2);
            assert(text@ =~= Self::verdict(residual).1);
            Some((true, text))
        } else if self.readings >= FLAT_READINGS {
            text.append("residual position ");
            push_amount(&mut text, residual, 2);
            text.append(" remains — close manually on the exchange");
            assert(text@ =~= Self::verdict(residual).1);
            Some((false, text))
        } else {
            None
        }
    }
}

impl EngineHandle {
    /// The book after a basket was closed at a price and killed.
    pub open spec fn book_stopped(&self, basket_id: u128, price: i64) -> Map<u128, Basket> {
        match entry(self.book(), basket_id) {
            Some(b) => self.book().insert(basket_id, b.killed(price)),
            None => self.book(),
        }
    }

    /// The book after a basket was closed at a price and left as tradeable as
    /// it was.
    pub open spec fn book_reset(&self, basket_id: u128, price: i64) -> Map<u128, Basket> {
        match entry(self.book(), basket_id) {
            Some(b) => self.book().insert(basket_id, b.soft_resetted(price)),
            None => self.book(),
        }
    }

    /// The baskets whose own stop-loss has fired at the current mid. None
    /// while the kill switch is tripped or before there is a mid.
    pub fn check_basket_boundaries(&self) -> (r: Vec<Basket>)
        requires
            self.basket_mgr.wf(),
        ensures
            if self.kill_switch.tripped || self.mid_price <= 0 {
                r@.len() == 0
            } else {
                chosen(r@, self.book(), Choice::StoppedOut { mid: self.mid_price })
            },
    {
        if self.kill_switch.is_tripped() || self.mid_price <= 0 {
            return Vec::new();
        }
        self.basket_mgr.select(Choice::StoppedOut { mid: self.mid_price })
    }

    /// Books the stop of a basket: it is killed at its exit price, or at `mid`
    /// when the exit failed; its parked take-profits are dropped, since they
    /// would open a position now; and it counts as a hit. Returns the hits.
    pub fn stop_out(&mut self, basket_id: u128, exit_price: Option<i64>, mid: i64) -> (r: u32)
        requires
            old(self).wf(),
        ensures
            final(self).wf(),
            final(self).book() == old(self).book_stopped(
                basket_id,
                match exit_price {
                    Some(p) => p,
                    None => mid,
                },
            ),
            final(self).parked_tps@ == old(self).parked_tps@.filter(not_of_basket(basket_id)),
            final(self).basket_hits == old(self).basket_hits.wrapping_add(1),
            r == final(self).basket_hits,
            final(self).basket_mgr.links() == old(self).basket_mgr.links(),
            final(self).basket_mgr.config == old(self).basket_mgr.config,
            final(self).basket_mgr.active_basket_id == old(self).basket_mgr.active_basket_id,
            *final(self) == (EngineHandle {
                basket_mgr: final(self).basket_mgr,
                parked_tps: final(self).parked_tps,
                basket_hits: final(self).basket_hits,
                ..*old(self)
            }),
    {
        let price: i64 = match exit_price {
            Some(p) => p,
            None => mid,
        };
        if let Some(mut b) = self.basket_mgr.get(basket_id) {
            b.kill(price);
            proof {
                lemma_book_put(self.book(), b);
            }
            self.basket_mgr.put(b);
        }
        let mut kept: Vec<ParkedTp> = Vec::new();
        let mut n: usize = 0;
        while n < self.parked_tps.len()
            invariant
                n <= self.parked_tps@.len(),
                kept@ == self.parked_tps@.take(n as int).filter(not_of_basket(basket_id)),
            decreases self.parked_tps@.len() - n,
        {
            proof {
                lemma_filter_step(self.parked_tps@, not_of_basket(basket_id), n as int);
            }
            if self.parked_tps[n].basket_id != basket_id {
                kept.push(self.parked_tps[n]);
            }
            n += 1;
        }
        assert(self.parked_tps@.take(self.parked_tps@.len() as int) =~= self.parked_tps@);
        self.parked_tps = kept;
        self.basket_hits = self.basket_hits.wrapping_add(1);
        self.basket_hits
    }

    /// What the exchange holds beyond the baskets, to be closed after stops.
    pub fn stop_residual(&self, exchange_position: i64) -> (r: Option<ResidualExit>)
        ensures
            r == exit_of_residual(clamp(exchange_position - self.net())),
    {
        residual_exit(minus(exchange_position, self.basket_mgr.net_qty()))
    }

    /// A basket to book a residual exit under: any of them, or a new
    /// identifier when there is none.
    pub fn any_basket_id(&self) -> (r: u128)
        ensures
            if self.book().dom().len() > 0 {
                self.book().dom().contains(r)
            } else {
                crate::ids::is_random_id(r)
            },
    {
        let listing: Vec<(u128, Basket)> = self.basket_mgr.listing();
        if listing.len() > 0 {
            assert(self.book().dom().contains(listing@[0].0));
            listing[0].0
        } else {
            crate::ids::fresh_id()
        }
    }

    /// The bound of the cycle that mid has reached, the lower one first.
    pub open spec fn breach(&self) -> Option<CycleBreach> {
        let lower = clamp(self.cycle_anchor - self.distance());
        let upper = clamp(self.cycle_anchor + self.distance());
        if self.kill_switch.tripped || self.mid_price <= 0 || self.cycle_anchor <= 0
            || self.distance() <= 0 {
            None
        } else if self.mid_price <= lower {
            Some(CycleBreach { bound: Bound::Lower, level: lower })
        } else if self.mid_price >= upper {
            Some(CycleBreach { bound: Bound::Upper, level: upper })
        } else {
            None
        }
    }

    /// The bound of the cycle that mid has reached. None while the kill switch
    /// is tripped, or before there is a mid, an anchor and a width.
    pub fn check_cycle_boundary(&self) -> (r: Option<CycleBreach>)
        ensures
            r == self.breach(),
    {
        let distance: i64 = self.cycle_distance();
        if self.kill_switch.is_tripped() || self.mid_price <= 0 || self.cycle_anchor <= 0
            || distance <= 0 {
            return None;
        }
        let lower: i64 = minus(self.cycle_anchor, distance);
        let upper: i64 = plus(self.cycle_anchor, distance);
        if self.mid_price <= lower {
            Some(CycleBreach { bound: Bound::Lower, level: lower })
        } else if self.mid_price >= upper {
            Some(CycleBreach { bound: Bound::Upper, level: upper })
        } else {
            None
        }
    }

    /// The baskets with a position.
    pub fn holdings(&self) -> (r: Vec<Basket>)
        requires
            self.basket_mgr.wf(),
        ensures
            chosen(r@, self.book(), Choice::Holding),
    {
        self.basket_mgr.select(Choice::Holding)
    }

    /// Books the exit of a basket at a price and leaves it as tradeable as it
    /// was.
    pub fn reset_basket(&mut self, basket_id: u128, price: i64)
        requires
            old(self).wf(),
        ensures
            final(self).wf(),
            final(self).book() == old(self).book_reset(basket_id, price),
            final(self).basket_mgr.links() == old(self).basket_mgr.links(),
            final(self).basket_mgr.config == old(self).basket_mgr.config,
            final(self).basket_mgr.active_basket_id == old(self).basket_mgr.active_basket_id,
            *final(self) == (EngineHandle { basket_mgr: final(self).basket_mgr, ..*old(self) }),
    {
        if let Some(mut b) = self.basket_mgr.get(basket_id) {
            b.soft_reset(price);
            proof {
                lemma_book_put(self.book(), b);
            }
            self.basket_mgr.put(b);
        }
    }

    /// Books the exit of a basket at the end of a cycle: at its exit price, or
    /// at `mid` when the exit failed.
    pub fn cycle_exit(&mut self, basket_id: u128, exit_price: Option<i64>, mid: i64)
        requires
            old(self).wf(),
        ensures
            final(self).wf(),
            final(self).book() == old(self).book_reset(
                basket_id,
                match exit_price {
                    Some(p) => p,
                    None => mid,
                },
            ),
            final(self).basket_mgr.links() == old(self).basket_mgr.links(),
            final(self).basket_mgr.config == old(self).basket_mgr.config,
            final(self).basket_mgr.active_basket_id == old(self).basket_mgr.active_basket_id,
            *final(self) == (EngineHandle { basket_mgr: final(self).basket_mgr, ..*old(self) }),
    {
        let price: i64 = match exit_price {
            Some(p) => p,
            None => mid,
        };
        self.reset_basket(basket_id, price);
    }

    /// Ends a cycle: it counts as a hit, and the next one is anchored at
    /// `mid`, unless the hits are used up.
    pub fn end_cycle(&mut self, mid: i64) -> (r: CycleEnd)
        ensures
            final(self).basket_hits == old(self).basket_hits.wrapping_add(1),
            r.hits == final(self).basket_hits,
            if r.hits >= old(self).config.kill_switch.max_basket_hits {
                &&& final(self).cycle_anchor == old(self).cycle_anchor
                &&& r.trip matches Some(s) && s@ == "max_basket_hits="@ + digits(
                    old(self).config.kill_switch.max_basket_hits as nat,
                ) + " reached"@
            } else {
                &&& final(self).cycle_anchor == mid
                &&& r.trip is None
            },
            *final(self) == (EngineHandle {
                basket_hits: final(self).basket_hits,
                cycle_anchor: final(self).cycle_anchor,
                ..*old(self)
            }),
    {
        self.basket_hits = self.basket_hits.wrapping_add(1);
        let cap: u32 = self.config.kill_switch.max_basket_hits;
        if self.basket_hits >= cap {
            let mut reason: String = String::new();
            reason.append("max_basket_hits=");
            push_number(&mut reason, cap as u64);
            reason.append(" reached");
            assert(reason@ =~= "max_basket_hits="@ + digits(cap as nat) + " reached"@);
            CycleEnd { hits: self.basket_hits, trip: Some(reason) }
        } else {
            self.cycle_anchor = mid;
            CycleEnd { hits: self.basket_hits, trip: None }
        }
    }

    /// Starts the operator's flush, once every resting order was cancelled:
    /// parked take-profits are dropped, and every position is to be closed.
    pub fn force_flatten(&mut self) -> (r: Vec<Basket>)
        requires
            old(self).basket_mgr.wf(),
        ensures
            chosen(r@, old(self).book(), Choice::Holding),
            final(self).parked_tps@.len() == 0,
            *final(self) == (EngineHandle { parked_tps: final(self).parked_tps, ..*old(self) }),
    {
        self.parked_tps = Vec::new();
        self.holdings()
    }

    /// Books the exit of a basket in a flush: at the current mid, whatever
    /// came of the exit.
    pub fn flush_exit(&mut self, basket_id: u128)
        requires
            old(self).wf(),
        ensures
            final(self).wf(),
            final(self).book() == old(self).book_reset(basket_id, old(self).mid_price),
            final(self).basket_mgr.links() == old(self).basket_mgr.links(),
            final(self).basket_mgr.config == old(self).basket_mgr.config,
            final(self).basket_mgr.active_basket_id == old(self).basket_mgr.active_basket_id,
            *final(self) == (EngineHandle { basket_mgr: final(self).basket_mgr, ..*old(self) }),
    {
        let mid: i64 = self.mid_price;
        self.reset_basket(basket_id, mid);
    }

    /// Ends a flush: every basket that is not killed is reset at the current
    /// mid, whether or not it had a position.
    pub fn end_flush(&mut self)
        requires
            old(self).wf(),
        ensures
            final(self).wf(),
            final(self).book() == all_reset(old(self).book(), old(self).mid_price),
            final(self).basket_mgr.links() == old(self).basket_mgr.links(),
            final(self).basket_mgr.config == old(self).basket_mgr.config,
            final(self).basket_mgr.active_basket_id == old(self).basket_mgr.active_basket_id,
            *final(self) == (EngineHandle { basket_mgr: final(self).basket_mgr, ..*old(self) }),
    {
        let mid: i64 = self.mid_price;
        self.basket_mgr.reset_all(mid);
    }
}

/// The book after baskets were closed one after the other and left as
/// tradeable as they were.
pub open spec fn after_resets(
    m: Map<u128, Basket>,
    list: Seq<Basket>,
    prices: Seq<i64>,
) -> Map<u128, Basket>
    decreases list.len(),
{
    if list.len() == 0 {
        m
    } else {
        let before = after_resets(m, list.drop_last(), prices);
        let id = list.last().basket_id;
        match entry(before, id) {
            Some(b) => before.insert(id, b.soft_resetted(prices[list.len() - 1])),
            None => before,
        }
    }
}

/// Resets keep the book's baskets, close those that they name, open none, and
/// kill none.
proof fn lemma_after_resets(m: Map<u128, Basket>, list: Seq<Basket>, prices: Seq<i64>)
    ensures
        after_resets(m, list, prices).dom() == m.dom(),
        forall|k: u128|
            #![trigger after_resets(m, list, prices)[k]]
            m.dom().contains(k) && (exists|i: int|
                0 <= i < list.len() && (#[trigger] list[i]).basket_id == k) ==> {
                let b = after_resets(m, list, prices)[k];
                b.open_qty == 0 && b.status == m[k].status_or_killed(BasketStatus::Hit)
            },
        forall|k: u128|
            #![trigger after_resets(m, list, prices)[k]]
            m.dom().contains(k) ==> (after_resets(m, list, prices)[k].status == BasketStatus::Killed
                <==> m[k].status == BasketStatus::Killed),
        forall|k: u128|
            #![trigger after_resets(m, list, prices)[k]]
            m.dom().contains(k) && m[k].open_qty <= 0 ==> after_resets(m, list, prices)[k].open_qty
                <= 0,
    decreases list.len(),
{
    if list.len() > 0 {
        let front = list.drop_last();
        lemma_after_resets(m, front, prices);
        let mid = after_resets(m, front, prices);
        let done = after_resets(m, list, prices);
        assert(done.dom() =~= m.dom());
        assert forall|k: u128|
            #![trigger done[k]]
            m.dom().contains(k) && (exists|i: int|
                0 <= i < list.len() && (#[trigger] list[i]).basket_id == k) implies done[k].open_qty
            == 0 && done[k].status == m[k].status_or_killed(BasketStatus::Hit) by {
            assert(mid[k].status == BasketStatus::Killed <==> m[k].status == BasketStatus::Killed);
            if k != list.last().basket_id {
                let i = choose|i: int| 0 <= i < list.len() && (#[trigger] list[i]).basket_id == k;
                assert(front[i] == list[i]);
                assert(mid[k].open_qty == 0);
            }
        }
        assert forall|k: u128|
            #![trigger done[k]]
            m.dom().contains(k) implies (done[k].status == BasketStatus::Killed <==> m[k].status
            == BasketStatus::Killed) by {
            assert(mid[k].status == BasketStatus::Killed <==> m[k].status == BasketStatus::Killed);
        }
        assert forall|k: u128|
            #![trigger done[k]]
            m.dom().contains(k) && m[k].open_qty <= 0 implies done[k].open_qty <= 0 by {
            assert(mid[k].open_qty <= 0);
        }
    }
}

/// A cycle reset or a flush that exits every basket with a position, at
/// whatever prices, leaves no position. It kills no basket and brings none
/// back.
pub proof fn resets_leave_no_position(m: Map<u128, Basket>, list: Seq<Basket>, prices: Seq<i64>)
    requires
        book_wf(m),
        chosen(list, m, Choice::Holding),
    ensures
        after_resets(m, list, prices).dom() == m.dom(),
        forall|k: u128| #[trigger]
            m.dom().contains(k) ==> after_resets(m, list, prices)[k].open_qty <= 0,
        forall|k: u128| #[trigger]
            m.dom().contains(k) ==> (after_resets(m, list, prices)[k].status
                == BasketStatus::Killed <==> m[k].status == BasketStatus::Killed),
{
    lemma_after_resets(m, list, prices);
    let done = after_resets(m, list, prices);
    assert forall|k: u128| #[trigger] m.dom().contains(k) implies done[k].open_qty <= 0 by {
        if m[k].open_qty > 0 {
            let i = choose|i: int| 0 <= i < list.len() && list[i] == m[k];
            assert(list[i].basket_id == k);
            assert(done[k].open_qty == 0);
        } else {
            assert(done[k].open_qty <= 0);
        }
    }
    assert forall|k: u128| #[trigger] m.dom().contains(k) implies (done[k].status
        == BasketStatus::Killed <==> m[k].status == BasketStatus::Killed) by {
        assert(done[k].status == done[k].status);
    }
}

/// After a flush, whatever its exits brought, no basket has a position, and
/// every basket that was not killed is reset, with or without a position
/// before.
pub proof fn a_flush_resets_every_basket(
    m: Map<u128, Basket>,
    list: Seq<Basket>,
    prices: Seq<i64>,
    mid: i64,
)
    requires
        book_wf(m),
        chosen(list, m, Choice::Holding),
        forall|k: u128| #[trigger] m.dom().contains(k) ==> m[k].wf(),
    ensures
        all_reset(after_resets(m, list, prices), mid).dom() == m.dom(),
        forall|k: u128| #[trigger]
            m.dom().contains(k) ==> {
                let b = all_reset(after_resets(m, list, prices), mid)[k];
                &&& b.open_qty <= 0
                &&& m[k].status != BasketStatus::Killed ==> b.status == BasketStatus::Hit
                    && b.open_qty == 0 && b.avg_price == 0
                &&& m[k].status == BasketStatus::Killed ==> b.status == BasketStatus::Killed
            },
{
    resets_leave_no_position(m, list, prices);
    let closed = after_resets(m, list, prices);
    let done = all_reset(closed, mid);
    assert(done.dom() =~= m.dom());
    assert forall|k: u128| #[trigger] m.dom().contains(k) implies ({
        &&& done[k].open_qty <= 0
        &&& m[k].status != BasketStatus::Killed ==> done[k].status == BasketStatus::Hit
            && done[k].open_qty == 0 && done[k].avg_price == 0
        &&& m[k].status == BasketStatus::Killed ==> done[k].status == BasketStatus::Killed
    }) by {
        assert(closed.dom().contains(k));
        assert(closed[k].open_qty <= 0);
    }
}

/// A basket that was just anchored is not stopped while mid stays strictly
/// inside its bounds, and is stopped as soon as mid reaches one of them.
pub proof fn bounds_decide_the_stop(b: Basket, anchor: i64, distance: i64, mid: i64)
    requires
        b.anchor_price <= 0,
        b.open_qty > 0,
        b.status != BasketStatus::Killed,
        anchor > 0,
        distance >= 0,
        anchor + distance <= i64::MAX,
    ensures
        b.anchored(anchor, distance).stopped_out(mid) <==> (mid <= anchor - distance || mid
            >= anchor + distance),
{
}

/// A basket without a position, without an anchor, or already killed is never
/// stopped.
pub proof fn nothing_to_stop(b: Basket, mid: i64)
    requires
        b.open_qty <= 0 || b.anchor_price <= 0 || b.status == BasketStatus::Killed,
    ensures
        !b.stopped_out(mid),
{
}

/// A kill closes the position for good: the basket takes no entry again, and
/// neither a late fill, nor an anchor, nor a reset, nor another kill changes
/// its status.
pub proof fn killed_is_final(b: Basket, exit_price: i64, qty: i64, price: i64, mid: i64)
    ensures
        ({
            let dead = b.killed(exit_price);
            &&& dead.status == BasketStatus::Killed
            &&& dead.open_qty == 0
            &&& !dead.takes(qty)
            &&& !dead.stopped_out(mid)
            &&& dead.entered(qty, price).status == BasketStatus::Killed
            &&& dead.recycled(qty).status == BasketStatus::Killed
            &&& dead.anchored(price, mid).status == BasketStatus::Killed
            &&& dead.soft_resetted(price).status == BasketStatus::Killed
            &&& dead.killed(price).status == BasketStatus::Killed
        }),
{
}

/// A reset basket takes entries again, up to its size, with the same result
/// booked as a killed one.
pub proof fn reset_is_not_final(b: Basket, exit_price: i64, qty: i64)
    requires
        b.status != BasketStatus::Killed,
    ensures
        b.soft_resetted(exit_price).realized_pnl == b.killed(exit_price).realized_pnl,
        b.soft_resetted(exit_price).open_qty == 0,
        b.soft_resetted(exit_price).takes(qty) <==> qty <= b.max_qty,
{
}

/// A residual exit shrinks the residual to nothing: it trades against its
/// sign, for the whole of it.
pub proof fn residual_exits_flatten(residual: i64)
    requires
        residual > i64::MIN,
    ensures
        exit_of_residual(residual) matches Some(x) ==> match x.side {
            Side::Sell => residual - x.qty == 0,
            Side::Buy => residual + x.qty == 0,
        },
        exit_of_residual(residual) is None <==> -TICK <= residual <= TICK,
{
}

} // verus!
