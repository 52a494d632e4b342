//! The kill switch: closes every position and stops every basket.
use vstd::prelude::*;

use crate::engines::basket_manager::{
    all_marked_killed, book_wf, every_killed, lemma_book_put, BasketManager, Choice,
};
use crate::models::basket::{exit_orders, Basket, BasketStatus, ExitOrder};
use crate::models::order::OrderPurpose;
use crate::tables::entry;

verus! {

/// Whether the switch was tripped, and why.
#[derive(Debug)]
pub struct KillSwitch {
    pub tripped: bool,
    pub reason: Option<String>,
}

/// `exits` closes every position of the book, each once.
pub open spec fn closes_all(exits: Seq<ExitOrder>, m: Map<u128, Basket>) -> bool {
    &&& forall|i: int|
        0 <= i < exits.len() ==> {
            &&& m.dom().contains((#[trigger] exits[i]).basket_id)
            &&& m[exits[i].basket_id].net() != 0
            &&& exits[i] == ExitOrder::of(m[exits[i].basket_id], OrderPurpose::KillSwitchExit)
        }
    &&& forall|i: int, j: int|
        0 <= i < j < exits.len() ==> (#[trigger] exits[i]).basket_id != (
        #[trigger] exits[j]).basket_id
    &&& forall|k: u128| #[trigger]
        m.dom().contains(k) && m[k].net() != 0 ==> exists|i: int|
            0 <= i < exits.len() && (#[trigger] exits[i]).basket_id == k
}

/// The book after an exit: the basket is killed at the exit price, or at its
/// own mean price when the exit failed.
pub open spec fn after_exit(
    m: Map<u128, Basket>,
    basket_id: u128,
    exit_price: Option<i64>,
) -> Map<u128, Basket> {
    if m.dom().contains(basket_id) {
        let b = m[basket_id];
        m.insert(
            basket_id,
            b.killed(
                match exit_price {
                    Some(p) => p,
                    None => b.avg_price,
                },
            ),
        )
    } else {
        m
    }
}

/// The book after the exits in order, each with its price if it succeeded.
pub open spec fn after_exits(
    m: Map<u128, Basket>,
    exits: Seq<ExitOrder>,
    prices: Seq<Option<i64>>,
) -> Map<u128, Basket>
    decreases exits.len(),
{
    if exits.len() == 0 {
        m
    } else {
        after_exit(
            after_exits(m, exits.drop_last(), prices),
            exits.last().basket_id,
            prices[exits.len() - 1],
        )
    }
}

impl KillSwitch {
    /// A switch that was not tripped.
    pub fn new() -> (r: Self)
        ensures
            !r.tripped,
            r.reason is None,
    {
        KillSwitch { tripped: false, reason: None }
    }

    /// The switch was tripped.
    pub fn is_tripped(&self) -> (r: bool)
        ensures
            r == self.tripped,
    {
        self.tripped
    }

    /// Why the switch was tripped.
    pub fn reason(&self) -> (r: Option<String>)
        ensures
            match self.reason {
                Some(s) => r matches Some(t) && t@ == s@,
                None => r is None,
            },
    {
        match &self.reason {
            Some(s) => Some(s.clone()),
            None => None,
        }
    }

    /// Trips the switch. The first time, keeps the reason and tells that the
    /// positions are now to be closed. Again, does nothing.
    pub fn trip(&mut self, reason: String) -> (r: bool)
        ensures
            r == !old(self).tripped,
            final(self).tripped,
            final(self).reason == if old(self).tripped {
                old(self).reason
            } else {
                Some(reason)
            },
    {
        if self.tripped {
            return false;
        }
        self.tripped = true;
        self.reason = Some(reason);
        true
    }

    /// The positions that a trip closes, taken once every resting order was
    /// cancelled.
    pub fn exits(&self, basket_mgr: &BasketManager) -> (r: Vec<ExitOrder>)
        requires
            basket_mgr.wf(),
        ensures
            closes_all(r@, basket_mgr.book()),
    {
        let list: Vec<Basket> = basket_mgr.select(Choice::Exposed);
        let exits: Vec<ExitOrder> = exit_orders(&list, OrderPurpose::KillSwitchExit);
        proof {
            let m = basket_mgr.book();
            assert forall|i: int| 0 <= i < exits@.len() implies ({
                &&& m.dom().contains((#[trigger] exits@[i]).basket_id)
                &&& m[exits@[i].basket_id] == list@[i]
                &&& m[exits@[i].basket_id].net() != 0
            }) by {
                assert(entry(m, list@[i].basket_id) == Some(list@[i]));
            }
            assert forall|i: int, j: int| 0 <= i < j < exits@.len() implies (
            #[trigger] exits@[i]).basket_id != (#[trigger] exits@[j]).basket_id by {
                assert(list@[i].basket_id != list@[j].basket_id);
            }
            assert forall|k: u128| #[trigger] m.dom().contains(k) && m[k].net() != 0 implies exists|
                i: int,
            | 0 <= i < exits@.len() && (#[trigger] exits@[i]).basket_id == k by {
                assert(Choice::Exposed.takes(m[k]));
                let i = choose|i: int| 0 <= i < list@.len() && list@[i] == m[k];
                assert(exits@[i].basket_id == k);
            }
        }
        exits
    }

    /// Books the exit of a basket: at its price, or, when it failed, at the
    /// basket's own mean price.
    pub fn settle(&self, basket_mgr: &mut BasketManager, basket_id: u128, exit_price: Option<i64>)
        requires
            old(basket_mgr).wf(),
        ensures
            final(basket_mgr).book() == after_exit(old(basket_mgr).book(), basket_id, exit_price),
            final(basket_mgr).wf(),
            final(basket_mgr).links() == old(basket_mgr).links(),
            final(basket_mgr).config == old(basket_mgr).config,
            final(basket_mgr).active_basket_id == old(basket_mgr).active_basket_id,
    {
        if let Some(mut b) = basket_mgr.get(basket_id) {
            let price: i64 = match exit_price {
                Some(p) => p,
                None => b.avg_price,
            };
            b.kill(price);
            proof {
                lemma_book_put(basket_mgr.book(), b);
            }
            basket_mgr.put(b);
        }
    }

    /// Ends a trip: every basket that is not killed yet is.
    pub fn finish(&self, basket_mgr: &mut BasketManager)
        requires
            old(basket_mgr).wf(),
        ensures
            final(basket_mgr).book() == all_marked_killed(old(basket_mgr).book()),
            final(basket_mgr).wf(),
            final(basket_mgr).links() == old(basket_mgr).links(),
            final(basket_mgr).config == old(basket_mgr).config,
            final(basket_mgr).active_basket_id == old(basket_mgr).active_basket_id,
    {
        basket_mgr.mark_all_killed();
    }

    /// Readies the switch for another trip.
    pub fn manual_reset(&mut self)
        ensures
            !final(self).tripped,
            final(self).reason is None,
    {
        self.tripped = false;
        self.reason = None;
    }
}

/// Exits keep the book's baskets and touch only those that they name.
proof fn lemma_after_exits(
    m: Map<u128, Basket>,
    exits: Seq<ExitOrder>,
    prices: Seq<Option<i64>>,
)
    ensures
        after_exits(m, exits, prices).dom() == m.dom(),
        forall|k: u128|
            #![trigger after_exits(m, exits, prices)[k]]
            m.dom().contains(k) && (exists|i: int|
                0 <= i < exits.len() && (#[trigger] exits[i]).basket_id == k)
                ==> after_exits(m, exits, prices)[k].open_qty == 0,
        forall|k: u128|
            #![trigger after_exits(m, exits, prices)[k]]
            m.dom().contains(k) && m[k].open_qty == 0 ==> after_exits(m, exits, prices)[k].open_qty
                == 0,
    decreases exits.len(),
{
    if exits.len() > 0 {
        let front = exits.drop_last();
        lemma_after_exits(m, front, prices);
        let mid = after_exits(m, front, prices);
        let done = after_exits(m, exits, prices);
        assert(done.dom() =~= m.dom());
        assert forall|k: u128|
            #![trigger done[k]]
            m.dom().contains(k) && (exists|i: int|
                0 <= i < exits.len() && (#[trigger] exits[i]).basket_id == k) implies done[k].open_qty
            == 0 by {
            if k != exits.last().basket_id {
                let i = choose|i: int| 0 <= i < exits.len() && (#[trigger] exits[i]).basket_id == k;
                assert(front[i] == exits[i]);
                assert(mid[k].open_qty == 0);
            }
        }
        assert forall|k: u128|
            #![trigger done[k]]
            m.dom().contains(k) && m[k].open_qty == 0 implies done[k].open_qty == 0 by {
            assert(mid[k].open_qty == 0);
        }
    }
}

/// After a trip has run to its end, whatever the exits brought, every basket
/// is killed and none has an open position.
pub proof fn a_trip_closes_everything(
    m: Map<u128, Basket>,
    exits: Seq<ExitOrder>,
    prices: Seq<Option<i64>>,
)
    requires
        book_wf(m),
        closes_all(exits, m),
    ensures
        all_marked_killed(after_exits(m, exits, prices)).dom() == m.dom(),
        forall|k: u128| #[trigger]
            m.dom().contains(k) ==> {
                let b = all_marked_killed(after_exits(m, exits, prices))[k];
                b.status == BasketStatus::Killed && b.open_qty == 0
            },
        m.dom().len() > 0 ==> every_killed(all_marked_killed(after_exits(m, exits, prices))),
{
    lemma_after_exits(m, exits, prices);
    let closed = after_exits(m, exits, prices);
    let done = all_marked_killed(closed);
    assert(done.dom() =~= m.dom());
    assert forall|k: u128| #[trigger] m.dom().contains(k) implies done[k].status
        == BasketStatus::Killed && done[k].open_qty == 0 by {
        assert(done[k].open_qty == closed[k].open_qty);
    }
    if m.dom().len() > 0 {
        assert(m.dom() != Set::<u128>::empty());
    }
}

} // verus!
