//! Baskets: the units in which positions are opened, recycled and killed.
use vstd::prelude::*;

use crate::amount::{
    abs, clamp, larger, magnitude, max, mean, minus, plus, product, ratio, scale, times, weighted_mean,
};
use crate::models::order::{OrderPurpose, Side};

verus! {

/// Where a basket is in its life.
#[derive(Debug, Clone, Copy, PartialEq, Eq, Structural)]
pub enum BasketStatus {
    Idle,
    Active,
    TpRecycling,
    /// Just flattened by a cycle reset. Shown as killed, but the next entry
    /// fill makes the basket active again.
    Hit,
    /// Never trades again. Fills that arrive late are booked, but nothing
    /// brings the basket back.
    Killed,
}

/// The direction that a basket trades.
#[derive(Debug, Clone, Copy, PartialEq, Eq, Structural)]
pub enum BasketSide {
    Long,
    Short,
}

impl BasketSide {
    /// The side of an order that closes a position of this direction.
    pub open spec fn closed_by(self) -> Side {
        match self {
            BasketSide::Long => Side::Sell,
            BasketSide::Short => Side::Buy,
        }
    }

    /// A long position is closed by selling, a short one by buying.
    pub fn closing_side(self) -> (r: Side)
        ensures
            r == self.closed_by(),
    {
        match self {
            BasketSide::Long => Side::Sell,
            BasketSide::Short => Side::Buy,
        }
    }
}

/// One basket and its position.
#[derive(Debug, Clone, Copy, PartialEq, Eq, Structural)]
pub struct Basket {
    pub basket_id: u128,
    pub index: u32,
    pub side: BasketSide,
    pub max_qty: i64,
    /// Size of the position, whatever its direction.
    pub open_qty: i64,
    pub avg_price: i64,
    pub status: BasketStatus,
    pub realized_pnl: i64,
    pub unrealized_pnl: i64,
    pub fills_count: u32,
    pub tp_count: u32,
    /// Quantities are in quote currency and results divide by the entry price.
    pub is_inverse: bool,
    /// Profit per unit of every take-profit.
    pub tp_spread: i64,
    /// Price of the fill that set the stop-loss bounds; zero before one did,
    /// and again once take-profits have emptied the basket.
    pub anchor_price: i64,
    pub upper_sl: i64,
    pub lower_sl: i64,
}

/// A market order that closes a basket's position.
#[derive(Debug, Clone, Copy, PartialEq, Eq, Structural)]
pub struct ExitOrder {
    pub basket_id: u128,
    pub index: u32,
    /// A long position is sold, a short one is bought back.
    pub side: Side,
    pub qty: i64,
    pub purpose: OrderPurpose,
}

impl ExitOrder {
    /// The order that closes the whole position of a basket.
    pub open spec fn of(b: Basket, purpose: OrderPurpose) -> ExitOrder {
        ExitOrder {
            basket_id: b.basket_id,
            index: b.index,
            side: if b.net() > 0 {
                Side::Sell
            } else {
                Side::Buy
            },
            qty: clamp(abs(b.net())),
            purpose,
        }
    }
}

/// The orders that close baskets, in their order.
pub open spec fn exits_of(list: Seq<Basket>, purpose: OrderPurpose) -> Seq<ExitOrder> {
    Seq::new(list.len(), |i: int| ExitOrder::of(list[i], purpose))
}

/// The orders that close baskets, in their order.
pub fn exit_orders(list: &Vec<Basket>, purpose: OrderPurpose) -> (r: Vec<ExitOrder>)
    ensures
        r@ == exits_of(list@, purpose),
{
    let mut out: Vec<ExitOrder> = Vec::new();
    let mut n: usize = 0;
    while n < list.len()
        invariant
            n <= list@.len(),
            out@ == exits_of(list@.take(n as int), purpose),
        decreases list@.len() - n,
    {
        out.push(list[n].exit_order(purpose));
        n += 1;
        assert(out@ =~= exits_of(list@.take(n as int), purpose));
    }
    assert(list@.take(list@.len() as int) =~= list@);
    out
}

/// An exit trades against the position: it sells what is long and buys back
/// what is short, the whole of it.
pub proof fn exits_oppose_the_position(b: Basket, purpose: OrderPurpose)
    requires
        b.open_qty > 0,
    ensures
        ExitOrder::of(b, purpose).side == b.side.closed_by(),
        ExitOrder::of(b, purpose).qty == b.open_qty,
        ExitOrder::of(b, purpose).basket_id == b.basket_id,
        ExitOrder::of(b, purpose).purpose == purpose,
{
}

impl Basket {
    /// A basket that has never traded.
    pub open spec fn untraded(
        basket_id: u128,
        index: u32,
        side: BasketSide,
        max_qty: i64,
        is_inverse: bool,
        tp_spread: i64,
    ) -> Basket {
        Basket {
            basket_id,
            index,
            side,
            max_qty,
            open_qty: 0,
            avg_price: 0,
            status: BasketStatus::Idle,
            realized_pnl: 0,
            unrealized_pnl: 0,
            fills_count: 0,
            tp_count: 0,
            is_inverse,
            tp_spread,
            anchor_price: 0,
            upper_sl: 0,
            lower_sl: 0,
        }
    }

    /// A position is a size: never negative.
    pub open spec fn wf(self) -> bool {
        self.open_qty >= 0
    }

    /// The position, signed by its direction.
    pub open spec fn net(self) -> int {
        match self.side {
            BasketSide::Long => self.open_qty as int,
            BasketSide::Short => -(self.open_qty as int),
        }
    }

    /// The result of a price move over a quantity. Inverse contracts divide by
    /// the entry price when there is one.
    pub open spec fn result_of(self, price_diff: i64, qty: i64, entry_ref: i64) -> i64 {
        if self.is_inverse && entry_ref > 0 {
            ratio(price_diff as int, qty as int, entry_ref as int)
        } else {
            product(price_diff, qty)
        }
    }

    /// The result of closing the whole position at a price.
    pub open spec fn result_at(self, exit_price: i64) -> i64 {
        let diff = match self.side {
            BasketSide::Long => clamp(exit_price - self.avg_price),
            BasketSide::Short => clamp(self.avg_price - exit_price),
        };
        self.result_of(diff, self.open_qty, self.avg_price)
    }

    /// The realised result after closing what is open at a price.
    pub open spec fn realized_after_exit(self, exit_price: i64) -> i64 {
        if self.open_qty > 0 {
            clamp(self.realized_pnl + self.result_at(exit_price))
        } else {
            self.realized_pnl
        }
    }

    /// The status that an event asks for, unless the basket is killed: that is
    /// for good.
    pub open spec fn status_or_killed(self, status: BasketStatus) -> BasketStatus {
        if self.status == BasketStatus::Killed {
            BasketStatus::Killed
        } else {
            status
        }
    }

    /// The basket after an anchor was offered to it.
    pub open spec fn anchored(self, anchor: i64, distance: i64) -> Basket {
        if self.anchor_price > 0 {
            self
        } else {
            Basket {
                anchor_price: anchor,
                upper_sl: clamp(anchor + larger(distance as int, 0)),
                lower_sl: clamp(anchor - larger(distance as int, 0)),
                ..self
            }
        }
    }

    /// The basket after an entry fill.
    pub open spec fn entered(self, fill_qty: i64, fill_price: i64) -> Basket {
        let new_qty = clamp(self.open_qty + fill_qty);
        Basket {
            avg_price: if new_qty > 0 {
                mean(self.open_qty, self.avg_price, fill_qty, fill_price, new_qty)
            } else {
                self.avg_price
            },
            open_qty: new_qty,
            fills_count: self.fills_count.wrapping_add(1),
            status: self.status_or_killed(BasketStatus::Active),
            ..self
        }
    }

    /// The basket after a take-profit fill.
    pub open spec fn recycled(self, tp_qty: i64) -> Basket {
        let left = larger(clamp(self.open_qty - tp_qty) as int, 0) as i64;
        let booked = Basket {
            realized_pnl: clamp(
                self.realized_pnl + self.result_of(self.tp_spread, tp_qty, self.avg_price),
            ),
            open_qty: left,
            tp_count: self.tp_count.wrapping_add(1),
            ..self
        };
        if left > 0 {
            Basket { status: self.status_or_killed(BasketStatus::TpRecycling), ..booked }
        } else {
            Basket {
                status: self.status_or_killed(BasketStatus::Idle),
                anchor_price: 0,
                upper_sl: 0,
                lower_sl: 0,
                avg_price: 0,
                ..booked
            }
        }
    }

    /// The basket after it was closed at a price and killed.
    pub open spec fn killed(self, exit_price: i64) -> Basket {
        Basket {
            realized_pnl: self.realized_after_exit(exit_price),
            open_qty: 0,
            status: BasketStatus::Killed,
            ..self
        }
    }

    /// The basket after it was closed at a price and left as tradeable as it
    /// was.
    pub open spec fn soft_resetted(self, exit_price: i64) -> Basket {
        Basket {
            realized_pnl: self.realized_after_exit(exit_price),
            open_qty: 0,
            avg_price: 0,
            status: self.status_or_killed(BasketStatus::Hit),
            ..self
        }
    }

    /// The basket's own stop-loss has fired at this mid.
    pub open spec fn stopped_out(self, mid: i64) -> bool {
        &&& self.anchor_price > 0
        &&& self.open_qty > 0
        &&& self.status != BasketStatus::Killed
        &&& (mid <= self.lower_sl || mid >= self.upper_sl)
    }

    /// The basket can take this much more.
    pub open spec fn takes(self, qty: i64) -> bool {
        self.status != BasketStatus::Killed && self.open_qty + qty <= self.max_qty
    }

    /// A new, untraded basket with an identifier of its own.
    pub fn new(
        index: u32,
        side: BasketSide,
        max_qty: i64,
        is_inverse: bool,
        tp_spread: i64,
    ) -> (r: Self)
        ensures
            crate::ids::is_random_id(r.basket_id),
            r == Self::untraded(r.basket_id, index, side, max_qty, is_inverse, tp_spread),
            r.wf(),
    {
        Self::with_id(crate::ids::fresh_id(), index, side, max_qty, is_inverse, tp_spread)
    }

    /// A new, untraded basket under a given identifier.
    pub fn with_id(
        basket_id: u128,
        index: u32,
        side: BasketSide,
        max_qty: i64,
        is_inverse: bool,
        tp_spread: i64,
    ) -> (r: Self)
        ensures
            r == Self::untraded(basket_id, index, side, max_qty, is_inverse, tp_spread),
            r.wf(),
    {
        Basket {
            basket_id,
            index,
            side,
            max_qty,
            open_qty: 0,
            avg_price: 0,
            status: BasketStatus::Idle,
            realized_pnl: 0,
            unrealized_pnl: 0,
            fills_count: 0,
            tp_count: 0,
            is_inverse,
            tp_spread,
            anchor_price: 0,
            upper_sl: 0,
            lower_sl: 0,
        }
    }

    /// Sets the stop-loss anchor and bounds, unless an anchor is already set.
    pub fn set_sl_anchor(&mut self, anchor: i64, distance: i64)
        ensures
            *final(self) == old(self).anchored(anchor, distance),
    {
        if self.anchor_price > 0 {
            return;
        }
        let reach: i64 = max(distance, 0);
        self.anchor_price = anchor;
        self.upper_sl = plus(anchor, reach);
        self.lower_sl = minus(anchor, reach);
    }

    /// There is a position, and mid has reached one of its stop-loss bounds.
    pub fn sl_breached(&self, mid: i64) -> (r: bool)
        ensures
            r == self.stopped_out(mid),
    {
        self.anchor_price > 0 && self.open_qty > 0 && self.status != BasketStatus::Killed && (mid
            <= self.lower_sl || mid >= self.upper_sl)
    }

    /// The result of a price move over a quantity.
    pub fn pnl_usd(&self, price_diff: i64, qty: i64, entry_ref: i64) -> (r: i64)
        ensures
            r == self.result_of(price_diff, qty, entry_ref),
    {
        if self.is_inverse && entry_ref > 0 {
            scale(price_diff, qty, entry_ref)
        } else {
            times(price_diff, qty)
        }
    }

    /// The basket is not killed and `qty` more stays within its size.
    pub fn has_capacity(&self, qty: i64) -> (r: bool)
        ensures
            r == self.takes(qty),
    {
        self.status != BasketStatus::Killed && self.open_qty as i128 + qty as i128
            <= self.max_qty as i128
    }

    /// The position, signed by its direction.
    pub fn net_qty(&self) -> (r: i64)
        ensures
            r == clamp(self.net()),
    {
        match self.side {
            BasketSide::Long => self.open_qty,
            BasketSide::Short => minus(0, self.open_qty),
        }
    }

    /// The order that closes the whole position.
    pub fn exit_order(&self, purpose: OrderPurpose) -> (r: ExitOrder)
        ensures
            r == ExitOrder::of(*self, purpose),
    {
        let net: i64 = self.net_qty();
        let side: Side = if net > 0 {
            Side::Sell
        } else {
            Side::Buy
        };
        ExitOrder {
            basket_id: self.basket_id,
            index: self.index,
            side,
            qty: magnitude(net),
            purpose,
        }
    }

    /// Moves on to a status, unless the basket is killed.
    fn turn(&mut self, status: BasketStatus)
        ensures
            *final(self) == (Basket { status: old(self).status_or_killed(status), ..*old(self) }),
    {
        if self.status != BasketStatus::Killed {
            self.status = status;
        }
    }

    /// Books an entry fill: the position grows, its price is the mean of what
    /// was open and what was filled, and the basket is active, unless it was
    /// killed before the fill arrived.
    pub fn apply_entry_fill(&mut self, fill_qty: i64, fill_price: i64)
        ensures
            *final(self) == old(self).entered(fill_qty, fill_price),
            old(self).wf() && fill_qty >= 0 ==> final(self).wf(),
    {
        let new_qty: i64 = plus(self.open_qty, fill_qty);
        if new_qty > 0 {
            self.avg_price =
            weighted_mean(self.open_qty, self.avg_price, fill_qty, fill_price, new_qty);
        }
        self.open_qty = new_qty;
        self.fills_count = self.fills_count.wrapping_add(1);
        self.turn(BasketStatus::Active);
    }

    /// Books a take-profit fill. It earns the fixed spread per unit, whatever
    /// the fill price. A basket that it empties is idle again and forgets its
    /// anchor, so that the next entry anchors afresh. A killed one stays killed.
    pub fn apply_tp_fill(&mut self, tp_qty: i64, _tp_price: i64)
        ensures
            *final(self) == old(self).recycled(tp_qty),
            final(self).wf(),
    {
        let pnl: i64 = self.pnl_usd(self.tp_spread, tp_qty, self.avg_price);
        self.realized_pnl = plus(self.realized_pnl, pnl);
        self.open_qty = max(minus(self.open_qty, tp_qty), 0);
        self.tp_count = self.tp_count.wrapping_add(1);
        if self.open_qty > 0 {
            self.turn(BasketStatus::TpRecycling);
        } else {
            self.turn(BasketStatus::Idle);
            self.anchor_price = 0;
            self.upper_sl = 0;
            self.lower_sl = 0;
            self.avg_price = 0;
        }
    }

    /// The result of closing the whole position at a price.
    fn exit_result(&self, exit_price: i64) -> (r: i64)
        ensures
            r == self.result_at(exit_price),
    {
        let diff: i64 = match self.side {
            BasketSide::Long => minus(exit_price, self.avg_price),
            BasketSide::Short => minus(self.avg_price, exit_price),
        };
        self.pnl_usd(diff, self.open_qty, self.avg_price)
    }

    /// Books the exit of the whole position and ends the basket's life.
    pub fn kill(&mut self, exit_price: i64)
        ensures
            *final(self) == old(self).killed(exit_price),
            final(self).wf(),
    {
        if self.open_qty > 0 {
            let pnl: i64 = self.exit_result(exit_price);
            self.realized_pnl = plus(self.realized_pnl, pnl);
        }
        self.open_qty = 0;
        self.status = BasketStatus::Killed;
    }

    /// Books the exit of the whole position and leaves the basket tradeable,
    /// unless it is killed.
    pub fn soft_reset(&mut self, exit_price: i64)
        ensures
            *final(self) == old(self).soft_resetted(exit_price),
            final(self).wf(),
    {
        if self.open_qty > 0 {
            let pnl: i64 = self.exit_result(exit_price);
            self.realized_pnl = plus(self.realized_pnl, pnl);
        }
        self.open_qty = 0;
        self.avg_price = 0;
        self.turn(BasketStatus::Hit);
    }
}

} // verus!
