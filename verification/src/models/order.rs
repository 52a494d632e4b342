//! Orders, order books and fills.
use vstd::prelude::*;

verus! {

/// The direction of an order or a fill.
#[derive(Debug, Clone, Copy, PartialEq, Eq, Structural, Hash)]
pub enum Side {
    Buy,
    Sell,
}

/// How an order is sent.
#[derive(Debug, Clone, Copy, PartialEq, Eq, Structural)]
pub enum OrderType {
    /// Rests on the book or is rejected; never takes liquidity.
    LimitMaker,
    /// Takes liquidity, and can only shrink a position.
    MarketReduceOnly,
}

/// What became of an order.
#[derive(Debug, Clone, Copy, PartialEq, Eq, Structural)]
pub enum OrderStatus {
    Pending,
    Open,
    Filled,
    PartiallyFilled,
    Cancelled,
    Rejected,
}

/// Why an order was sent.
#[derive(Debug, Clone, Copy, PartialEq, Eq, Structural)]
pub enum OrderPurpose {
    Entry,
    TakeProfit,
    StopLossExit,
    KillSwitchExit,
}

/// An order as the engine tracks it.
#[derive(Debug, Clone, Copy, PartialEq, Eq, Structural)]
pub struct Order {
    pub order_id: u128,
    pub basket_id: u128,
    pub side: Side,
    pub order_type: OrderType,
    pub purpose: OrderPurpose,
    pub price: i64,
    pub qty: i64,
    pub filled_qty: i64,
    pub status: OrderStatus,
    /// Unix milliseconds.
    pub created_at: i64,
}

/// One price level of a book.
#[derive(Debug, Clone, Copy, PartialEq, Eq, Structural)]
pub struct OrderBookLevel {
    pub price: i64,
    pub size: i64,
}

/// A book, best levels first.
#[derive(Debug)]
pub struct OrderBook {
    pub bids: Vec<OrderBookLevel>,
    pub asks: Vec<OrderBookLevel>,
    pub mid: i64,
    /// Unix milliseconds.
    pub timestamp: i64,
}

/// An execution of all or part of an order.
#[derive(Debug, Clone, Copy, PartialEq, Eq, Structural)]
pub struct Fill {
    pub fill_id: u128,
    pub order_id: u128,
    pub basket_id: u128,
    pub purpose: OrderPurpose,
    pub side: Side,
    pub price: i64,
    pub qty: i64,
    /// Exchange fee in quote currency; zero when the exchange reported none.
    pub fee: i64,
    /// Unix milliseconds.
    pub timestamp: i64,
}

/// The mean of two prices.
pub open spec fn midpoint(a: i64, b: i64) -> i64 {
    crate::amount::clamp(crate::amount::round_div(a + b, 2))
}

/// Half way between two prices.
pub fn halfway(a: i64, b: i64) -> (r: i64)
    ensures
        r == midpoint(a, b),
{
    proof {
        assert(a * 1 + b * 1 == a + b);
    }
    crate::amount::weighted_mean(a, 1, b, 1, 2)
}

/// The mid of a book with these sides: half way between the best levels when
/// both sides quote, `otherwise` when one does not.
pub open spec fn quoted_mid(
    bids: Seq<OrderBookLevel>,
    asks: Seq<OrderBookLevel>,
    otherwise: i64,
) -> i64 {
    if bids.len() > 0 && asks.len() > 0 {
        midpoint(bids[0].price, asks[0].price)
    } else {
        otherwise
    }
}

/// The readable ones among levels.
pub open spec fn readable(levels: Seq<Option<OrderBookLevel>>) -> Seq<OrderBookLevel>
    decreases levels.len(),
{
    if levels.len() == 0 {
        Seq::empty()
    } else {
        match levels.last() {
            Some(l) => readable(levels.drop_last()).push(l),
            None => readable(levels.drop_last()),
        }
    }
}

/// The readable ones among levels.
pub fn readable_levels(levels: &Vec<Option<OrderBookLevel>>) -> (r: Vec<OrderBookLevel>)
    ensures
        r@ == readable(levels@),
{
    let mut out: Vec<OrderBookLevel> = Vec::new();
    let mut n: usize = 0;
    assert(levels@.take(0) =~= Seq::empty());
    while n < levels.len()
        invariant
            n <= levels@.len(),
            out@ == readable(levels@.take(n as int)),
        decreases levels@.len() - n,
    {
        proof {
            assert(levels@.take(n + 1).drop_last() =~= levels@.take(n as int));
            assert(levels@.take(n + 1).last() == levels@[n as int]);
        }
        if let Some(l) = levels[n] {
            out.push(l);
        }
        n += 1;
    }
    assert(levels@.take(levels@.len() as int) =~= levels@);
    out
}

impl OrderBook {
    /// A book made of the two sides that an exchange just reported, best first.
    pub fn quoted(
        bids: Vec<OrderBookLevel>,
        asks: Vec<OrderBookLevel>,
        otherwise: i64,
    ) -> (r: OrderBook)
        ensures
            r.bids == bids,
            r.asks == asks,
            r.mid == quoted_mid(bids@, asks@, otherwise),
    {
        let mid: i64 = if bids.len() > 0 && asks.len() > 0 {
            halfway(bids[0].price, asks[0].price)
        } else {
            otherwise
        };
        OrderBook { bids, asks, mid, timestamp: crate::clock::now_ms() }
    }

    /// The book that stands for a fetch that failed just now: no levels, no
    /// mid. It is stamped with the clock's reading, of which nothing is said.
    pub fn unavailable() -> (r: OrderBook)
        ensures
            r.bids@.len() == 0,
            r.asks@.len() == 0,
            r.mid == 0,
    {
        Self::unavailable_at(crate::clock::now_ms())
    }

    /// The book that stands for a fetch that failed at a given moment.
    pub fn unavailable_at(timestamp: i64) -> (r: OrderBook)
        ensures
            r.bids@.len() == 0,
            r.asks@.len() == 0,
            r.mid == 0,
            r.timestamp == timestamp,
    {
        OrderBook { bids: Vec::new(), asks: Vec::new(), mid: 0, timestamp }
    }
}

} // verus!
