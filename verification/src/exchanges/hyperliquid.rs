//! Hyperliquid: order tracking and the matching of fills to orders.
use vstd::prelude::*;

use crate::amount::{ratio, scale};
use crate::exchanges::deribit::{bare, named, or, OrderRequest};
use crate::models::order::{
    quoted_mid, readable, readable_levels, Fill, Order, OrderBook, OrderBookLevel, OrderStatus,
    OrderType, Side,
};
use crate::tables::{
    entry, lemma_walk_reaches, lists_values, oids_clear, oids_get, oids_in, oids_insert, oids_new,
    oids_remove, oids_walk, values_of, walks, OidTable,
};

verus! {

/// How many levels of each side of a book are looked at.
pub const BOOK_LEVELS: usize = 10;

/// What is kept of one Hyperliquid coin.
pub struct HyperliquidClient {
    pub coin: String,
    /// Orders on the book, by the venue's identifier.
    pub open_orders: OidTable,
    /// When the last fill that was dealt with happened, in Unix milliseconds.
    pub last_seen_fill: u64,
}

/// The first status in the answer to an order.
#[derive(Debug, Clone, Copy, PartialEq, Eq, Structural)]
pub enum OrderAnswer {
    /// It rests under an identifier.
    Resting { oid: u64 },
    /// It filled; `None` where a figure could not be read.
    Filled { avg_px: Option<i64>, total_sz: Option<i64> },
    /// It was refused.
    Refused,
    /// Any other answer, or none.
    Unclear,
}

/// A fill as the venue reports it; `None` where a figure could not be read.
#[derive(Debug, Clone, Copy, PartialEq, Eq, Structural)]
pub struct VenueFill {
    pub oid: u64,
    pub time: u64,
    pub px: Option<i64>,
    pub sz: Option<i64>,
}

/// The first levels of a side.
pub open spec fn top(levels: Seq<Option<OrderBookLevel>>) -> Seq<Option<OrderBookLevel>> {
    if levels.len() > BOOK_LEVELS {
        levels.take(BOOK_LEVELS as int)
    } else {
        levels
    }
}

/// The readable ones among the first levels of a side.
fn usable_levels(levels: &Vec<Option<OrderBookLevel>>) -> (r: Vec<OrderBookLevel>)
    ensures
        r@ == readable(top(levels@)),
{
    let mut first: Vec<Option<OrderBookLevel>> = Vec::new();
    let mut n: usize = 0;
    while n < levels.len() && n < BOOK_LEVELS
        invariant
            n <= levels@.len(),
            n <= BOOK_LEVELS,
            first@ == levels@.take(n as int),
        decreases levels@.len() - n,
    {
        first.push(levels[n]);
        n += 1;
        assert(first@ =~= levels@.take(n as int));
    }
    assert(first@ =~= top(levels@));
    readable_levels(&first)
}

/// The limit of an order that is to fill at once: the worst level in sight, or
/// one in a hundred past mid when the side is empty.
pub open spec fn crossing_price(book: OrderBook, side: Side) -> i64 {
    match side {
        Side::Buy => if book.asks@.len() > 0 {
            book.asks@.last().price
        } else {
            ratio(book.mid as int, 101, 100)
        },
        Side::Sell => if book.bids@.len() > 0 {
            book.bids@.last().price
        } else {
            ratio(book.mid as int, 99, 100)
        },
    }
}

/// The limit of an order that is to fill at once.
pub fn market_limit(book: &OrderBook, side: Side) -> (r: i64)
    ensures
        r == crossing_price(*book, side),
{
    match side {
        Side::Buy => if book.asks.len() > 0 {
            book.asks[book.asks.len() - 1].price
        } else {
            scale(book.mid, 101, 100)
        },
        Side::Sell => if book.bids.len() > 0 {
            book.bids[book.bids.len() - 1].price
        } else {
            scale(book.mid, 99, 100)
        },
    }
}

/// The status that an answer stands for.
pub open spec fn answered(answer: OrderAnswer) -> OrderStatus {
    match answer {
        OrderAnswer::Resting { oid } => OrderStatus::Open,
        OrderAnswer::Filled { avg_px, total_sz } => OrderStatus::Filled,
        OrderAnswer::Refused => OrderStatus::Rejected,
        OrderAnswer::Unclear => OrderStatus::Pending,
    }
}

/// The tracked orders after the first `n` reported fills: a filled one is gone.
pub open spec fn book_after(
    book: Map<u64, Order>,
    since: u64,
    fills: Seq<VenueFill>,
    n: nat,
) -> Map<u64, Order>
    decreases n,
{
    if n == 0 {
        book
    } else {
        let before = book_after(book, since, fills, (n - 1) as nat);
        if fills[n - 1].time > since {
            before.remove(fills[n - 1].oid)
        } else {
            before
        }
    }
}

/// The fills of the first `n` reported ones: those after `since`, of orders
/// that are tracked when their turn comes. Each keeps its time.
pub open spec fn matched_fills(
    book: Map<u64, Order>,
    since: u64,
    fills: Seq<VenueFill>,
    n: nat,
) -> Seq<Fill>
    decreases n,
{
    if n == 0 {
        Seq::empty()
    } else {
        let before = matched_fills(book, since, fills, (n - 1) as nat);
        let f = fills[n - 1];
        match entry(book_after(book, since, fills, (n - 1) as nat), f.oid) {
            Some(o) if f.time > since => before.push(
                Fill {
                    fill_id: 0,
                    order_id: o.order_id,
                    basket_id: o.basket_id,
                    purpose: o.purpose,
                    side: o.side,
                    price: or(f.px, o.price),
                    qty: or(f.sz, o.qty),
                    fee: 0,
                    timestamp: f.time as i64,
                },
            ),
            _ => before,
        }
    }
}

/// The time of the latest of the first `n` reported fills, or `since`.
pub open spec fn latest(since: u64, fills: Seq<VenueFill>, n: nat) -> u64
    decreases n,
{
    if n == 0 {
        since
    } else {
        let before = latest(since, fills, (n - 1) as nat);
        if fills[n - 1].time > before {
            fills[n - 1].time
        } else {
            before
        }
    }
}

/// A fill without its identifier.
pub open spec fn unnamed(f: Fill) -> Fill {
    Fill { fill_id: 0, ..f }
}

impl HyperliquidClient {
    /// The tracked orders.
    pub open spec fn book(&self) -> Map<u64, Order> {
        oids_in(self.open_orders)
    }

    /// A client that tracks nothing yet and takes in fills from now on.
    pub fn new(coin: String) -> (r: Self)
        ensures
            r.coin == coin,
            r.book() == Map::<u64, Order>::empty(),
    {
        let now: i64 = crate::clock::now_ms();
        Self::since(coin, now as u64)
    }

    /// A client that tracks nothing yet and takes in fills after `now_ms`.
    pub fn since(coin: String, now_ms: u64) -> (r: Self)
        ensures
            r.coin == coin,
            r.book() == Map::<u64, Order>::empty(),
            r.last_seen_fill == now_ms,
    {
        let open_orders: OidTable = oids_new();
        assert(oids_in(open_orders) =~= Map::<u64, Order>::empty());
        HyperliquidClient { coin, open_orders, last_seen_fill: now_ms }
    }

    /// The exchange's name.
    pub fn name(&self) -> (r: String)
        ensures
            r@ == "Hyperliquid"@,
    {
        "Hyperliquid".to_string()
    }

    /// The book of a snapshot: its mid is half way between the best levels,
    /// zero when a side is empty.
    pub fn orderbook(
        &self,
        bids: &Vec<Option<OrderBookLevel>>,
        asks: &Vec<Option<OrderBookLevel>>,
    ) -> (r: OrderBook)
        ensures
            r.bids@ == readable(top(bids@)),
            r.asks@ == readable(top(asks@)),
            r.mid == quoted_mid(r.bids@, r.asks@, 0),
    {
        OrderBook::quoted(usable_levels(bids), usable_levels(asks), 0)
    }

    /// Books the answer to a maker-only order. The order is tracked while it
    /// rests.
    pub fn place_maker_only(&mut self, req: &OrderRequest, answer: OrderAnswer) -> (r: Order)
        ensures
            crate::ids::is_random_id(r.order_id),
            r == (Order {
                order_id: r.order_id,
                basket_id: req.basket_id,
                side: req.side,
                order_type: OrderType::LimitMaker,
                purpose: req.purpose,
                price: req.price,
                qty: req.qty,
                filled_qty: 0,
                status: answered(answer),
                created_at: r.created_at,
            }),
            final(self).book() == match answer {
                OrderAnswer::Resting { oid } => old(self).book().insert(oid, r),
                _ => old(self).book(),
            },
            final(self).coin == old(self).coin,
            final(self).last_seen_fill == old(self).last_seen_fill,
    {
        let status: OrderStatus = match answer {
            OrderAnswer::Resting { oid: _ } => OrderStatus::Open,
            OrderAnswer::Filled { avg_px: _, total_sz: _ } => OrderStatus::Filled,
            OrderAnswer::Refused => OrderStatus::Rejected,
            OrderAnswer::Unclear => OrderStatus::Pending,
        };
        let order: Order = Order {
            order_id: crate::ids::fresh_id(),
            basket_id: req.basket_id,
            side: req.side,
            order_type: OrderType::LimitMaker,
            purpose: req.purpose,
            price: req.price,
            qty: req.qty,
            filled_qty: 0,
            status,
            created_at: crate::clock::now_ms(),
        };
        if let OrderAnswer::Resting { oid } = answer {
            let _ = oids_insert(&mut self.open_orders, oid, order);
        }
        order
    }

    /// Books the answer to an order that was to fill at once, with a limit of
    /// `req.price`. What the answer does not tell is taken from the order; an
    /// answer that is no fill leaves nothing filled.
    pub fn place_market_reduce_only(&self, req: &OrderRequest, answer: OrderAnswer) -> (r: (
        Order,
        Fill,
    ))
        ensures
            crate::ids::is_random_id(r.0.order_id),
            r.0 == (Order {
                order_id: r.0.order_id,
                basket_id: req.basket_id,
                side: req.side,
                order_type: OrderType::MarketReduceOnly,
                purpose: req.purpose,
                price: match answer {
                    OrderAnswer::Filled { avg_px, total_sz } => or(avg_px, req.price),
                    _ => req.price,
                },
                qty: req.qty,
                filled_qty: match answer {
                    OrderAnswer::Filled { avg_px, total_sz } => or(total_sz, req.qty),
                    _ => 0,
                },
                status: OrderStatus::Filled,
                created_at: r.0.created_at,
            }),
            named(seq![r.1]),
            bare(r.1) == (Fill {
                fill_id: 0,
                order_id: r.0.order_id,
                basket_id: req.basket_id,
                purpose: req.purpose,
                side: req.side,
                price: r.0.price,
                qty: r.0.filled_qty,
                fee: 0,
                timestamp: 0,
            }),
    {
        let mut price: i64 = req.price;
        let mut filled: i64 = 0;
        if let OrderAnswer::Filled { avg_px, total_sz } = answer {
            price = match avg_px {
                Some(p) => p,
                None => req.price,
            };
            filled = match total_sz {
                Some(q) => q,
                None => req.qty,
            };
        }
        let now: i64 = crate::clock::now_ms();
        let order: Order = Order {
            order_id: crate::ids::fresh_id(),
            basket_id: req.basket_id,
            side: req.side,
            order_type: OrderType::MarketReduceOnly,
            purpose: req.purpose,
            price,
            qty: req.qty,
            filled_qty: filled,
            status: OrderStatus::Filled,
            created_at: now,
        };
        let fill: Fill = Fill {
            fill_id: crate::ids::fresh_id(),
            order_id: order.order_id,
            basket_id: req.basket_id,
            purpose: req.purpose,
            side: req.side,
            price,
            qty: filled,
            fee: 0,
            timestamp: now,
        };
        (order, fill)
    }

    /// The venue's identifier of a tracked order.
    pub fn find_order(&self, order_id: u128) -> (r: Option<u64>)
        ensures
            match r {
                Some(oid) => self.book().dom().contains(oid) && self.book()[oid].order_id
                    == order_id,
                None => forall|k: u64| #[trigger]
                    self.book().dom().contains(k) ==> self.book()[k].order_id != order_id,
            },
    {
        let listing: Vec<(u64, Order)> = oids_walk(&self.open_orders);
        let ghost m = self.book();
        let mut n: usize = 0;
        while n < listing.len()
            invariant
                n <= listing@.len(),
                m == self.book(),
                walks(listing@, m),
                forall|x: int| 0 <= x < n ==> (#[trigger] listing@[x]).1.order_id != order_id,
            decreases listing@.len() - n,
        {
            if listing[n].1.order_id == order_id {
                assert(m.dom().contains(listing@[n as int].0));
                return Some(listing[n].0);
            }
            n += 1;
        }
        proof {
            assert forall|k: u64| #[trigger] m.dom().contains(k) implies m[k].order_id
                != order_id by {
                lemma_walk_reaches(listing@, m, k);
                let x = choose|x: int| 0 <= x < listing@.len() && (#[trigger] listing@[x]).0 == k;
                assert(listing@[x].1 == m[k]);
            }
        }
        None
    }

    /// Forgets an order, once its cancellation was sent.
    pub fn cancel(&mut self, oid: u64)
        ensures
            final(self).book() == old(self).book().remove(oid),
            final(self).coin == old(self).coin,
            final(self).last_seen_fill == old(self).last_seen_fill,
    {
        let _ = oids_remove(&mut self.open_orders, oid);
    }

    /// The venue's identifiers of every tracked order, each once.
    pub fn tracked_oids(&self) -> (r: Vec<u64>)
        ensures
            r@.no_duplicates(),
            r@.to_set() == self.book().dom(),
    {
        let listing: Vec<(u64, Order)> = oids_walk(&self.open_orders);
        let ghost m = self.book();
        let mut out: Vec<u64> = Vec::new();
        let mut n: usize = 0;
        while n < listing.len()
            invariant
                n <= listing@.len(),
                out@.len() == n,
                forall|x: int| 0 <= x < n ==> out@[x] == (#[trigger] listing@[x]).0,
            decreases listing@.len() - n,
        {
            out.push(listing[n].0);
            n += 1;
        }
        proof {
            assert(forall|x: int| 0 <= x < out@.len() ==> out@[x] == (#[trigger] listing@[x]).0);
            assert forall|i: int, j: int| 0 <= i < out@.len() && 0 <= j < out@.len() && i
                != j implies out@[i] != out@[j] by {
                assert(listing@[i].0 == out@[i] && listing@[j].0 == out@[j]);
                if i < j {
                    assert(listing@[i].0 != listing@[j].0);
                } else {
                    assert(listing@[j].0 != listing@[i].0);
                }
            }
            assert forall|k: u64| out@.to_set().contains(k) <==> m.dom().contains(k) by {
                if m.dom().contains(k) {
                    lemma_walk_reaches(listing@, m, k);
                    let x = choose|x: int|
                        0 <= x < listing@.len() && (#[trigger] listing@[x]).0 == k;
                    assert(out@[x] == k);
                }
                if out@.to_set().contains(k) {
                    let i = choose|i: int| 0 <= i < out@.len() && out@[i] == k;
                    assert(m.dom().contains(listing@[i].0));
                }
            }
            assert(out@.to_set() =~= m.dom());
        }
        out
    }

    /// Forgets every order, once their cancellations were sent.
    pub fn cancel_all(&mut self)
        ensures
            final(self).book() == Map::<u64, Order>::empty(),
            final(self).coin == old(self).coin,
            final(self).last_seen_fill == old(self).last_seen_fill,
    {
        oids_clear(&mut self.open_orders);
        assert(self.book() =~= Map::<u64, Order>::empty());
    }

    /// Every tracked order, in no particular order.
    pub fn open_orders(&self) -> (r: Vec<Order>)
        ensures
            lists_values(r@, self.book()),
    {
        let listing: Vec<(u64, Order)> = oids_walk(&self.open_orders);
        let mut out: Vec<Order> = Vec::new();
        let mut n: usize = 0;
        while n < listing.len()
            invariant
                n <= listing@.len(),
                out@ == values_of(listing@.take(n as int)),
            decreases listing@.len() - n,
        {
            out.push(listing[n].1);
            n += 1;
            assert(out@ =~= values_of(listing@.take(n as int)));
        }
        assert(listing@.take(listing@.len() as int) =~= listing@);
        out
    }

    /// Takes in a report of fills. Those not after the last poll are passed
    /// over. A fill of a tracked order is handed out, and the order is done.
    /// The time of the latest one is where the next poll starts.
    pub fn tick(&mut self, fills: &Vec<VenueFill>) -> (r: Vec<Fill>)
        ensures
            named(r@),
            r@.map_values(|f: Fill| unnamed(f)) == matched_fills(
                old(self).book(),
                old(self).last_seen_fill,
                fills@,
                fills@.len(),
            ),
            final(self).book() == book_after(
                old(self).book(),
                old(self).last_seen_fill,
                fills@,
                fills@.len(),
            ),
            final(self).last_seen_fill == latest(old(self).last_seen_fill, fills@, fills@.len()),
            final(self).coin == old(self).coin,
    {
        let since: u64 = self.last_seen_fill;
        let mut max_ts: u64 = since;
        let mut out: Vec<Fill> = Vec::new();
        let ghost strip = |f: Fill| unnamed(f);
        let mut n: usize = 0;
        assert(out@.map_values(strip) =~= Seq::empty());
        while n < fills.len()
            invariant
                n <= fills@.len(),
                since == old(self).last_seen_fill,
                strip == (|f: Fill| unnamed(f)),
                named(out@),
                out@.map_values(strip) == matched_fills(old(self).book(), since, fills@, n as nat),
                self.book() == book_after(old(self).book(), since, fills@, n as nat),
                max_ts == latest(since, fills@, n as nat),
                max_ts >= since,
                self.coin == old(self).coin,
            decreases fills@.len() - n,
        {
            let f: VenueFill = fills[n];
            if f.time > since {
                if f.time > max_ts {
                    max_ts = f.time;
                }
                let ghost before = out@;
                if let Some(o) = oids_get(&self.open_orders, f.oid) {
                    let price: i64 = match f.px {
                        Some(p) => p,
                        None => o.price,
                    };
                    let qty: i64 = match f.sz {
                        Some(q) => q,
                        None => o.qty,
                    };
                    out.push(
                        Fill {
                            fill_id: crate::ids::fresh_id(),
                            order_id: o.order_id,
                            basket_id: o.basket_id,
                            purpose: o.purpose,
                            side: o.side,
                            price,
                            qty,
                            fee: 0,
                            timestamp: f.time as i64,
                        },
                    );
                    assert(out@.map_values(strip) =~= before.map_values(strip).push(
                        unnamed(out@.last()),
                    ));
                    let _ = oids_remove(&mut self.open_orders, f.oid);
                } else {
                    assert(self.book().remove(f.oid) =~= self.book());
                }
            }
            n += 1;
        }
        self.last_seen_fill = max_ts;
        out
    }
}

/// A fill that was dealt with does not come back: a report without anything
/// after the last poll brings nothing and changes nothing.
pub proof fn old_fills_bring_nothing(
    book: Map<u64, Order>,
    since: u64,
    fills: Seq<VenueFill>,
    n: nat,
)
    requires
        n <= fills.len(),
        forall|i: int| 0 <= i < fills.len() ==> (#[trigger] fills[i]).time <= since,
    ensures
        matched_fills(book, since, fills, n).len() == 0,
        book_after(book, since, fills, n) == book,
        latest(since, fills, n) == since,
    decreases n,
{
    if n > 0 {
        old_fills_bring_nothing(book, since, fills, (n - 1) as nat);
    }
}

} // verus!
