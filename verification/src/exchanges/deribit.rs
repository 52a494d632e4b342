//! Deribit: sizes, order tracking and the matching of trades to orders.
//!
//! Replies of the venue arrive as plain values. What tells a trade's basket
//! and purpose is the order that it belongs to, so an order stays known until
//! no trade of it can still arrive.
use vstd::prelude::*;

use crate::amount::{abs, clamp, larger, magnitude, max, minus, snap, snapped, UNIT};
use crate::models::order::{
    quoted_mid, readable, readable_levels, Fill, Order, OrderBook, OrderBookLevel, OrderPurpose,
    OrderStatus, OrderType, Side,
};
use crate::tables::{
    entry, grace_get, grace_in, grace_insert, grace_new, grace_remove, grace_walk,
    lemma_walk_reaches, lists_values, orders_clear, orders_get, orders_in, orders_insert,
    orders_new, orders_remove, orders_walk, trades_in, trades_insert, trades_new, trades_remove,
    trades_walk, values_of, walks, GraceTable, OrderTable, TradeTable,
};
use crate::text::{begins_with, upper_begins_with};

verus! {

/// How long an order stays known after it left the book, in milliseconds.
pub const GRACE_MS: i64 = 30_000;

/// How many trade identifiers may pile up before old ones are dropped.
pub const TRADES_HIGH: usize = 5000;

/// How many trade identifiers are kept then.
pub const TRADES_LOW: usize = 1000;

/// What is kept of one Deribit instrument.
pub struct DeribitClient {
    pub instrument: String,
    /// The increment of order sizes.
    pub contract_size: i64,
    pub min_trade_amount: i64,
    /// Orders on the book, by the venue's identifier.
    pub open_orders: OrderTable,
    /// Trades that were dealt with.
    pub processed_trade_ids: TradeTable,
    /// Orders that left the book a short while ago, and when.
    pub recently_cancelled: GraceTable,
    /// The trades of the first poll were seen.
    pub first_tick_done: bool,
}

/// A trade as the venue reports it; `None` where a field is missing.
pub struct TradeReport {
    pub trade_id: Option<String>,
    pub order_id: Option<String>,
    pub price: Option<i64>,
    pub amount: Option<i64>,
    pub fee: Option<i64>,
}

/// The answer to a maker-only order; `None` where a field is missing.
pub struct OrderReply {
    pub order_id: Option<String>,
    pub state: Option<String>,
    /// Trades that happened while the order was placed.
    pub trades: Vec<TradeReport>,
}

/// The answer to a market order; `None` where a field is missing.
#[derive(Debug, Clone, Copy, PartialEq, Eq, Structural)]
pub struct MarketReply {
    pub average_price: Option<i64>,
    pub filled_amount: Option<i64>,
}

/// An order that was sent.
#[derive(Debug, Clone, Copy, PartialEq, Eq, Structural)]
pub struct OrderRequest {
    pub side: Side,
    pub price: i64,
    pub qty: i64,
    pub basket_id: u128,
    pub purpose: OrderPurpose,
}

/// Why an answer is of no use.
#[derive(Debug, Clone, Copy, PartialEq, Eq, Structural)]
pub enum ReplyError {
    NoOrderId,
}

impl ReplyError {
    /// The error in words.
    pub fn message(self) -> (r: String)
        ensures
            r@ == "no order_id in deribit response"@,
    {
        "no order_id in deribit response".to_string()
    }
}

/// What a poll of trades brought.
pub struct TradeNews {
    pub fills: Vec<Fill>,
    /// Trades of unknown orders, by their place in the report.
    pub orphans: Vec<usize>,
}

/// An access token and when it expires, in milliseconds of a clock that never
/// runs backwards.
pub struct AccessToken {
    pub token: String,
    pub expires_at: u64,
}

impl AccessToken {
    /// The token that was granted at a moment. It is renewed half a minute
    /// before the venue lets it expire, after fifteen minutes when the venue
    /// does not say.
    pub fn granted(token: String, expires_in_secs: Option<u64>, now_ms: u64) -> (r: Self)
        ensures
            r.token == token,
            ({
                let secs = match expires_in_secs {
                    Some(s) => s,
                    None => 900u64,
                };
                let due = now_ms + larger(secs - 30, 0) * 1000;
                r.expires_at == if due > u64::MAX {
                    u64::MAX as int
                } else {
                    due
                }
            }),
    {
        let secs: u64 = match expires_in_secs {
            Some(s) => s,
            None => 900,
        };
        let lasts: u128 = if secs > 30 {
            (secs - 30) as u128 * 1000
        } else {
            0
        };
        let due: u128 = now_ms as u128 + lasts;
        let expires_at: u64 = if due > u64::MAX as u128 {
            u64::MAX
        } else {
            due as u64
        };
        AccessToken { token, expires_at }
    }

    /// The token may still be used.
    pub fn usable(&self, now_ms: u64) -> (r: bool)
        ensures
            r == (now_ms < self.expires_at),
    {
        now_ms < self.expires_at
    }
}

/// The address of the main or the test network.
pub fn base_url(mainnet: bool) -> (r: String)
    ensures
        r@ == if mainnet {
            "https://www.deribit.com/api/v2"@
        } else {
            "https://test.deribit.com/api/v2"@
        },
{
    if mainnet {
        "https://www.deribit.com/api/v2".to_string()
    } else {
        "https://test.deribit.com/api/v2".to_string()
    }
}

/// The contract size to go by when the venue does not tell: ten for bitcoin,
/// one for anything else.
pub fn fallback_contract_size(instrument: &str) -> (r: i64)
    ensures
        r == if begins_with(instrument@, "BTC-"@) {
            10 * UNIT
        } else {
            UNIT as int
        },
{
    if upper_begins_with(instrument, "BTC-") {
        10 * UNIT
    } else {
        UNIT
    }
}

/// The contract size and minimum that the venue told: no use without a
/// contract size, which is also the minimum when no other is given.
pub fn instrument_spec(contract_size: Option<i64>, min_trade_amount: Option<i64>) -> (r: Option<
    (i64, i64),
>)
    ensures
        r == match (contract_size, min_trade_amount) {
            (Some(cs), Some(min)) => Some((cs, min)),
            (Some(cs), None) => Some((cs, cs)),
            (None, _) => None,
        },
{
    match contract_size {
        Some(cs) => match min_trade_amount {
            Some(min) => Some((cs, min)),
            None => Some((cs, cs)),
        },
        None => None,
    }
}

/// The status that an order state stands for. A missing one counts as open.
pub open spec fn status_of(state: Option<String>) -> OrderStatus {
    match state {
        None => OrderStatus::Open,
        Some(s) => if s@ == "open"@ {
            OrderStatus::Open
        } else if s@ == "filled"@ {
            OrderStatus::Filled
        } else if s@ == "rejected"@ {
            OrderStatus::Rejected
        } else {
            OrderStatus::Pending
        },
    }
}

/// The status that an order state stands for.
fn read_status(state: &Option<String>) -> (r: OrderStatus)
    ensures
        r == status_of(*state),
{
    match state {
        None => OrderStatus::Open,
        Some(s) => {
            if *s == "open".to_string() {
                OrderStatus::Open
            } else if *s == "filled".to_string() {
                OrderStatus::Filled
            } else if *s == "rejected".to_string() {
                OrderStatus::Rejected
            } else {
                OrderStatus::Pending
            }
        },
    }
}

/// A fill without its identifier and time.
pub open spec fn bare(f: Fill) -> Fill {
    Fill { fill_id: 0, timestamp: 0, ..f }
}

/// Fills without their identifiers and times.
pub open spec fn bares(fills: Seq<Fill>) -> Seq<Fill> {
    fills.map_values(|f: Fill| bare(f))
}

/// Every fill has an identifier of its own making.
pub open spec fn named(fills: Seq<Fill>) -> bool {
    forall|i: int|
        0 <= i < fills.len() ==> crate::ids::is_random_id((#[trigger] fills[i]).fill_id)
}

/// The value of an optional field, or what stands in for it.
pub open spec fn or(field: Option<i64>, otherwise: i64) -> i64 {
    match field {
        Some(v) => v,
        None => otherwise,
    }
}

/// The value of an optional field, or what stands in for it.
fn field_or(field: Option<i64>, otherwise: i64) -> (r: i64)
    ensures
        r == or(field, otherwise),
{
    match field {
        Some(v) => v,
        None => otherwise,
    }
}

/// The fee of a trade: never negative, zero when not told.
pub open spec fn fee_of(t: TradeReport) -> i64 {
    clamp(abs(or(t.fee, 0) as int))
}

/// The trades that are dealt with once these are.
pub open spec fn marked(seen: Map<Seq<char>, ()>, trades: Seq<TradeReport>) -> Map<Seq<char>, ()>
    decreases trades.len(),
{
    if trades.len() == 0 {
        seen
    } else {
        let before = marked(seen, trades.drop_last());
        match trades.last().trade_id {
            Some(id) => before.insert(id@, ()),
            None => before,
        }
    }
}

/// The fills of the trades that came with the answer to an order. A trade of
/// no size is none.
pub open spec fn placement_fills(
    trades: Seq<TradeReport>,
    order_id: u128,
    req: OrderRequest,
) -> Seq<Fill>
    decreases trades.len(),
{
    if trades.len() == 0 {
        Seq::empty()
    } else {
        let before = placement_fills(trades.drop_last(), order_id, req);
        let t = trades.last();
        if or(t.amount, 0) <= 0 {
            before
        } else {
            before.push(
                Fill {
                    fill_id: 0,
                    order_id,
                    basket_id: req.basket_id,
                    purpose: req.purpose,
                    side: req.side,
                    price: or(t.price, req.price),
                    qty: or(t.amount, 0),
                    fee: fee_of(t),
                    timestamp: 0,
                },
            )
        }
    }
}

/// The order that a trade names, on the book or shortly off it.
pub open spec fn known(
    book: Map<Seq<char>, Order>,
    grace: Map<Seq<char>, (Order, i64)>,
    t: TradeReport,
) -> Option<Order> {
    let id = match t.order_id {
        Some(s) => s@,
        None => Seq::<char>::empty(),
    };
    if book.dom().contains(id) {
        Some(book[id])
    } else if grace.dom().contains(id) {
        Some(grace[id].0)
    } else {
        None
    }
}

/// The trade at a place of a report was not seen before, nor earlier in it.
pub open spec fn is_new(seen: Map<Seq<char>, ()>, trades: Seq<TradeReport>, i: int) -> bool {
    trades[i].trade_id matches Some(id) && !marked(seen, trades.take(i)).dom().contains(id@)
}

/// The fill of a trade of a known order.
pub open spec fn trade_fill(t: TradeReport, o: Order) -> Fill {
    Fill {
        fill_id: 0,
        order_id: o.order_id,
        basket_id: o.basket_id,
        purpose: o.purpose,
        side: o.side,
        price: or(t.price, o.price),
        qty: or(t.amount, o.qty),
        fee: fee_of(t),
        timestamp: 0,
    }
}

/// The fills of the first `n` trades of a report: one for each new trade of a
/// known order.
pub open spec fn polled_fills(
    seen: Map<Seq<char>, ()>,
    book: Map<Seq<char>, Order>,
    grace: Map<Seq<char>, (Order, i64)>,
    trades: Seq<TradeReport>,
    n: nat,
) -> Seq<Fill>
    decreases n,
{
    if n == 0 {
        Seq::empty()
    } else {
        let before = polled_fills(seen, book, grace, trades, (n - 1) as nat);
        match known(book, grace, trades[n - 1]) {
            Some(o) if is_new(seen, trades, n - 1) => before.push(trade_fill(trades[n - 1], o)),
            _ => before,
        }
    }
}

/// The places of the new trades of unknown orders among the first `n`.
pub open spec fn polled_orphans(
    seen: Map<Seq<char>, ()>,
    book: Map<Seq<char>, Order>,
    grace: Map<Seq<char>, (Order, i64)>,
    trades: Seq<TradeReport>,
    n: nat,
) -> Seq<usize>
    decreases n,
{
    if n == 0 {
        Seq::empty()
    } else {
        let before = polled_orphans(seen, book, grace, trades, (n - 1) as nat);
        match known(book, grace, trades[n - 1]) {
            None if is_new(seen, trades, n - 1) => before.push((n - 1) as usize),
            _ => before,
        }
    }
}

/// The venue lists this order as open.
pub open spec fn lists(venue: Seq<Option<String>>, id: Seq<char>) -> bool {
    exists|i: int| 0 <= i < venue.len() && (#[trigger] venue[i] matches Some(s) && s@ == id)
}

/// The orders that the venue still lists.
pub open spec fn still_open(
    book: Map<Seq<char>, Order>,
    venue: Seq<Option<String>>,
) -> Map<Seq<char>, Order> {
    Map::new(|k: Seq<char>| book.dom().contains(k) && lists(venue, k), |k: Seq<char>| book[k])
}

/// The orders shortly off the book, with those that the venue no longer lists.
pub open spec fn gone(
    book: Map<Seq<char>, Order>,
    grace: Map<Seq<char>, (Order, i64)>,
    venue: Seq<Option<String>>,
    now_ms: i64,
) -> Map<Seq<char>, (Order, i64)> {
    Map::new(
        |k: Seq<char>|
            grace.dom().contains(k) || (book.dom().contains(k) && !lists(venue, k)),
        |k: Seq<char>|
            if book.dom().contains(k) && !lists(venue, k) {
                (book[k], now_ms)
            } else {
                grace[k]
            },
    )
}

/// The venue lists an order that is neither tracked nor shortly off the book.
pub open spec fn is_orphan(
    book: Map<Seq<char>, Order>,
    grace: Map<Seq<char>, (Order, i64)>,
    listed: Option<String>,
) -> bool {
    listed matches Some(s) && !book.dom().contains(s@) && !grace.dom().contains(s@)
}

/// The places of the orphans among the first `n` that the venue lists.
pub open spec fn orphan_orders(
    book: Map<Seq<char>, Order>,
    grace: Map<Seq<char>, (Order, i64)>,
    venue: Seq<Option<String>>,
    n: nat,
) -> Seq<usize>
    decreases n,
{
    if n == 0 {
        Seq::empty()
    } else {
        let before = orphan_orders(book, grace, venue, (n - 1) as nat);
        if is_orphan(book, grace, venue[n - 1]) {
            before.push((n - 1) as usize)
        } else {
            before
        }
    }
}

/// The orders shortly off the book that are not too old yet.
pub open spec fn unexpired(
    grace: Map<Seq<char>, (Order, i64)>,
    now_ms: i64,
) -> Map<Seq<char>, (Order, i64)> {
    Map::new(
        |k: Seq<char>| grace.dom().contains(k) && grace[k].1 >= clamp(now_ms - GRACE_MS),
        |k: Seq<char>| grace[k],
    )
}

/// The venue lists this order as open.
fn is_listed(venue: &Vec<Option<String>>, id: &String) -> (r: bool)
    ensures
        r == lists(venue@, id@),
{
    let mut n: usize = 0;
    while n < venue.len()
        invariant
            n <= venue@.len(),
            forall|i: int|
                0 <= i < n ==> !(#[trigger] venue@[i] matches Some(s) && s@ == id@),
        decreases venue@.len() - n,
    {
        if let Some(s) = &venue[n] {
            if *s == *id {
                assert(venue@[n as int] matches Some(s) && s@ == id@);
                return true;
            }
        }
        n += 1;
    }
    false
}

impl DeribitClient {
    /// The tracked orders.
    pub open spec fn book(&self) -> Map<Seq<char>, Order> {
        orders_in(self.open_orders)
    }

    /// The orders shortly off the book.
    pub open spec fn grace(&self) -> Map<Seq<char>, (Order, i64)> {
        grace_in(self.recently_cancelled)
    }

    /// The trades that were dealt with.
    pub open spec fn seen(&self) -> Map<Seq<char>, ()> {
        trades_in(self.processed_trade_ids)
    }

    /// Nothing but the tables differs from another state of this client.
    pub open spec fn same_terms(&self, other: &DeribitClient) -> bool {
        &&& self.instrument == other.instrument
        &&& self.contract_size == other.contract_size
        &&& self.min_trade_amount == other.min_trade_amount
    }

    /// A client that tracks nothing yet, with the sizes that the venue told or
    /// those to fall back on.
    pub fn new(instrument: String, spec: Option<(i64, i64)>) -> (r: Self)
        ensures
            r.instrument == instrument,
            match spec {
                Some(s) => r.contract_size == s.0 && r.min_trade_amount == s.1,
                None => {
                    &&& r.contract_size == if begins_with(instrument@, "BTC-"@) {
                        10 * UNIT
                    } else {
                        UNIT as int
                    }
                    &&& r.min_trade_amount == r.contract_size
                },
            },
            r.book() == Map::<Seq<char>, Order>::empty(),
            r.grace() == Map::<Seq<char>, (Order, i64)>::empty(),
            r.seen() == Map::<Seq<char>, ()>::empty(),
            !r.first_tick_done,
    {
        let sizes: (i64, i64) = match spec {
            Some(s) => s,
            None => {
                let size: i64 = fallback_contract_size(instrument.as_str());
                (size, size)
            },
        };
        let open_orders: OrderTable = orders_new();
        let processed_trade_ids: TradeTable = trades_new();
        let recently_cancelled: GraceTable = grace_new();
        assert(orders_in(open_orders) =~= Map::<Seq<char>, Order>::empty());
        assert(trades_in(processed_trade_ids) =~= Map::<Seq<char>, ()>::empty());
        assert(grace_in(recently_cancelled) =~= Map::<Seq<char>, (Order, i64)>::empty());
        DeribitClient {
            instrument,
            contract_size: sizes.0,
            min_trade_amount: sizes.1,
            open_orders,
            processed_trade_ids,
            recently_cancelled,
            first_tick_done: false,
        }
    }

    /// The exchange's name.
    pub fn name(&self) -> (r: String)
        ensures
            r@ == "Deribit"@,
    {
        "Deribit".to_string()
    }

    /// The increment to size orders by: one when the contract size is no good.
    pub open spec fn increment(&self) -> i64 {
        if self.contract_size > 0 {
            self.contract_size
        } else {
            UNIT
        }
    }

    /// The size that an order is sent with: the nearest multiple of the
    /// contract size, but neither less than the minimum nor than one contract.
    pub fn snap_qty(&self, qty: i64) -> (r: i64)
        ensures
            r == larger(
                larger(snapped(qty, self.increment()) as int, self.min_trade_amount as int),
                self.increment() as int,
            ),
    {
        let cs: i64 = if self.contract_size > 0 {
            self.contract_size
        } else {
            UNIT
        };
        max(max(snap(qty, cs), self.min_trade_amount), cs)
    }

    /// The book that the venue reported: its mid is half way between the best
    /// levels, or the index price when a side is empty, zero when that is
    /// missing too.
    pub fn orderbook(
        &self,
        bids: &Vec<Option<OrderBookLevel>>,
        asks: &Vec<Option<OrderBookLevel>>,
        index_price: Option<i64>,
    ) -> (r: OrderBook)
        ensures
            r.bids@ == readable(bids@),
            r.asks@ == readable(asks@),
            r.mid == quoted_mid(r.bids@, r.asks@, or(index_price, 0)),
    {
        OrderBook::quoted(readable_levels(bids), readable_levels(asks), field_or(index_price, 0))
    }

    /// Books the answer to a maker-only order. Trades in the answer become
    /// fills at once and are marked, so that no later poll repeats them. The
    /// order is tracked while it rests.
    pub fn place_maker_only(&mut self, req: &OrderRequest, reply: &OrderReply) -> (r: Result<
        (Order, Vec<Fill>),
        ReplyError,
    >)
        ensures
            match r {
                Err(e) => {
                    &&& e == ReplyError::NoOrderId
                    &&& reply.order_id is None
                    &&& *final(self) == *old(self)
                },
                Ok(done) => {
                    let o = done.0;
                    &&& reply.order_id is Some
                    &&& crate::ids::is_random_id(o.order_id)
                    &&& o == (Order {
                        order_id: o.order_id,
                        basket_id: req.basket_id,
                        side: req.side,
                        order_type: OrderType::LimitMaker,
                        purpose: req.purpose,
                        price: req.price,
                        qty: req.qty,
                        filled_qty: 0,
                        status: status_of(reply.state),
                        created_at: o.created_at,
                    })
                    &&& named(done.1@)
                    &&& bares(done.1@) == placement_fills(reply.trades@, o.order_id, *req)
                    &&& final(self).seen() == marked(old(self).seen(), reply.trades@)
                    &&& final(self).book() == if o.status == OrderStatus::Open {
                        old(self).book().insert((reply.order_id->0)@, o)
                    } else {
                        old(self).book()
                    }
                    &&& final(self).grace() == old(self).grace()
                    &&& final(self).first_tick_done == old(self).first_tick_done
                    &&& final(self).same_terms(old(self))
                },
            },
    {
        let venue_id: String = match &reply.order_id {
            Some(id) => id.clone(),
            None => {
                return Err(ReplyError::NoOrderId);
            },
        };
        let status: OrderStatus = read_status(&reply.state);
        let now: i64 = crate::clock::now_ms();
        let order: Order = Order {
            order_id: crate::ids::fresh_id(),
            basket_id: req.basket_id,
            side: req.side,
            order_type: OrderType::LimitMaker,
            purpose: req.purpose,
            price: req.price,
            qty: req.qty,
            filled_qty: 0,
            status,
            created_at: now,
        };
        let mut fills: Vec<Fill> = Vec::new();
        let mut n: usize = 0;
        assert(reply.trades@.take(0) =~= Seq::empty());
        assert(bares(fills@) =~= Seq::empty());
        while n < reply.trades.len()
            invariant
                n <= reply.trades@.len(),
                named(fills@),
                bares(fills@) == placement_fills(
                    reply.trades@.take(n as int),
                    order.order_id,
                    *req,
                ),
                self.seen() == marked(old(self).seen(), reply.trades@.take(n as int)),
                self.book() == old(self).book(),
                self.grace() == old(self).grace(),
                self.first_tick_done == old(self).first_tick_done,
                self.same_terms(old(self)),
            decreases reply.trades@.len() - n,
        {
            let t: &TradeReport = &reply.trades[n];
            proof {
                assert(reply.trades@.take(n + 1).drop_last() =~= reply.trades@.take(n as int));
                assert(reply.trades@.take(n + 1).last() == *t);
            }
            if let Some(id) = &t.trade_id {
                let _ = trades_insert(&mut self.processed_trade_ids, id.clone(), ());
            }
            let qty: i64 = field_or(t.amount, 0);
            let ghost before = fills@;
            if qty > 0 {
                fills.push(
                    Fill {
                        fill_id: crate::ids::fresh_id(),
                        order_id: order.order_id,
                        basket_id: req.basket_id,
                        purpose: req.purpose,
                        side: req.side,
                        price: field_or(t.price, req.price),
                        qty,
                        fee: magnitude(field_or(t.fee, 0)),
                        timestamp: now,
                    },
                );
                assert(bares(fills@) =~= bares(before).push(bare(fills@.last())));
            }
            n += 1;
        }
        assert(reply.trades@.take(reply.trades@.len() as int) =~= reply.trades@);
        if status == OrderStatus::Open {
            let _ = orders_insert(&mut self.open_orders, venue_id, order);
        }
        Ok((order, fills))
    }

    /// Books the answer to a market order: it has filled, at the price that
    /// the venue told, for the amount that it told or else all of it. The fee
    /// is not told here.
    pub fn place_market_reduce_only(&self, req: &OrderRequest, reply: &MarketReply) -> (r: (
        Order,
        Fill,
    ))
        ensures
            crate::ids::is_random_id(r.0.order_id),
            r.0 == (Order {
                order_id: r.0.order_id,
                basket_id: req.basket_id,
                side: req.side,
                order_type: OrderType::MarketReduceOnly,
                purpose: req.purpose,
                price: or(reply.average_price, 0),
                qty: req.qty,
                filled_qty: or(reply.filled_amount, req.qty),
                status: OrderStatus::Filled,
                created_at: r.0.created_at,
            }),
            named(seq![r.1]),
            bare(r.1) == (Fill {
                fill_id: 0,
                order_id: r.0.order_id,
                basket_id: req.basket_id,
                purpose: req.purpose,
                side: req.side,
                price: r.0.price,
                qty: r.0.filled_qty,
                fee: 0,
                timestamp: 0,
            }),
    {
        let now: i64 = crate::clock::now_ms();
        let price: i64 = field_or(reply.average_price, 0);
        let filled: i64 = field_or(reply.filled_amount, req.qty);
        let order: Order = Order {
            order_id: crate::ids::fresh_id(),
            basket_id: req.basket_id,
            side: req.side,
            order_type: OrderType::MarketReduceOnly,
            purpose: req.purpose,
            price,
            qty: req.qty,
            filled_qty: filled,
            status: OrderStatus::Filled,
            created_at: now,
        };
        let fill: Fill = Fill {
            fill_id: crate::ids::fresh_id(),
            order_id: order.order_id,
            basket_id: req.basket_id,
            purpose: req.purpose,
            side: req.side,
            price,
            qty: filled,
            fee: 0,
            timestamp: now,
        };
        (order, fill)
    }

    /// The tracked order with an identifier, and what the venue calls it.
    pub fn find_order(&self, order_id: u128) -> (r: Option<(String, Order)>)
        ensures
            match r {
                Some(e) => entry(self.book(), e.0@) == Some(e.1) && e.1.order_id == order_id,
                None => forall|k: Seq<char>| #[trigger]
                    self.book().dom().contains(k) ==> self.book()[k].order_id != order_id,
            },
    {
        let listing: Vec<(String, Order)> = orders_walk(&self.open_orders);
        let ghost m = self.book();
        let ghost keyed = listing@.map_values(|e: (String, Order)| (e.0@, e.1));
        let mut n: usize = 0;
        while n < listing.len()
            invariant
                n <= listing@.len(),
                m == self.book(),
                keyed == listing@.map_values(|e: (String, Order)| (e.0@, e.1)),
                walks(keyed, m),
                forall|x: int| 0 <= x < n ==> (#[trigger] keyed[x]).1.order_id != order_id,
            decreases listing@.len() - n,
        {
            assert(keyed[n as int] == (listing@[n as int].0@, listing@[n as int].1));
            if listing[n].1.order_id == order_id {
                return Some((listing[n].0.clone(), listing[n].1));
            }
            n += 1;
        }
        proof {
            assert forall|k: Seq<char>| #[trigger] m.dom().contains(k) implies m[k].order_id
                != order_id by {
                lemma_walk_reaches(keyed, m, k);
                let x = choose|x: int| 0 <= x < keyed.len() && (#[trigger] keyed[x]).0 == k;
                assert(keyed[x].1 == m[k]);
            }
        }
        None
    }

    /// Books the answer to a cancellation. One that the venue accepted moves
    /// the order off the book, where a late trade still finds it. One that
    /// failed changes nothing: the order may still rest and fill.
    pub fn cancel(&mut self, venue_id: String, order: Order, accepted: bool, now_ms: i64)
        ensures
            !accepted ==> *final(self) == *old(self),
            accepted ==> {
                &&& final(self).book() == old(self).book().remove(venue_id@)
                &&& final(self).grace() == old(self).grace().insert(venue_id@, (order, now_ms))
                &&& final(self).seen() == old(self).seen()
                &&& final(self).first_tick_done == old(self).first_tick_done
                &&& final(self).same_terms(old(self))
            },
    {
        if accepted {
            let _ = orders_remove(&mut self.open_orders, venue_id.as_str());
            let _ = grace_insert(&mut self.recently_cancelled, venue_id, (order, now_ms));
        }
    }

    /// Forgets every tracked order, once all were cancelled.
    pub fn cancel_all(&mut self)
        ensures
            final(self).book() == Map::<Seq<char>, Order>::empty(),
            final(self).grace() == old(self).grace(),
            final(self).seen() == old(self).seen(),
            final(self).first_tick_done == old(self).first_tick_done,
            final(self).same_terms(old(self)),
    {
        orders_clear(&mut self.open_orders);
        assert(self.book() =~= Map::<Seq<char>, Order>::empty());
    }

    /// Every tracked order, in no particular order.
    pub fn open_orders(&self) -> (r: Vec<Order>)
        ensures
            lists_values(r@, self.book()),
    {
        let listing: Vec<(String, Order)> = orders_walk(&self.open_orders);
        let ghost keyed = listing@.map_values(|e: (String, Order)| (e.0@, e.1));
        let mut out: Vec<Order> = Vec::new();
        let mut n: usize = 0;
        while n < listing.len()
            invariant
                n <= listing@.len(),
                keyed == listing@.map_values(|e: (String, Order)| (e.0@, e.1)),
                out@ == values_of(keyed.take(n as int)),
            decreases listing@.len() - n,
        {
            out.push(listing[n].1);
            n += 1;
            assert(out@ =~= values_of(keyed.take(n as int)));
        }
        assert(keyed.take(keyed.len() as int) =~= keyed);
        out
    }

    /// Takes in a report of trades. The first report is history: its trades
    /// are only marked. From then on every new trade of a known order becomes
    /// a fill, whether the order is on the book or shortly off it, and is
    /// marked, so that it never becomes a second one.
    pub fn absorb_trades(&mut self, trades: &Vec<TradeReport>, now_ms: i64) -> (r: TradeNews)
        ensures
            final(self).seen() == marked(old(self).seen(), trades@),
            final(self).book() == old(self).book(),
            final(self).grace() == old(self).grace(),
            final(self).first_tick_done,
            final(self).same_terms(old(self)),
            named(r.fills@),
            forall|i: int|
                0 <= i < r.fills@.len() ==> (#[trigger] r.fills@[i]).timestamp == now_ms,
            if old(self).first_tick_done {
                &&& bares(r.fills@) == polled_fills(
                    old(self).seen(),
                    old(self).book(),
                    old(self).grace(),
                    trades@,
                    trades@.len(),
                )
                &&& r.orphans@ == polled_orphans(
                    old(self).seen(),
                    old(self).book(),
                    old(self).grace(),
                    trades@,
                    trades@.len(),
                )
            } else {
                r.fills@.len() == 0 && r.orphans@.len() == 0
            },
    {
        let mut fills: Vec<Fill> = Vec::new();
        let mut orphans: Vec<usize> = Vec::new();
        let live: bool = self.first_tick_done;
        let ghost seen = self.seen();
        let ghost book = self.book();
        let ghost grace = self.grace();
        let mut n: usize = 0;
        assert(trades@.take(0) =~= Seq::empty());
        assert(bares(fills@) =~= Seq::empty());
        while n < trades.len()
            invariant
                n <= trades@.len(),
                live == old(self).first_tick_done,
                seen == old(self).seen(),
                book == old(self).book(),
                grace == old(self).grace(),
                self.seen() == marked(seen, trades@.take(n as int)),
                self.book() == book,
                self.grace() == grace,
                self.same_terms(old(self)),
                named(fills@),
                forall|i: int|
                    0 <= i < fills@.len() ==> (#[trigger] fills@[i]).timestamp == now_ms,
                live ==> bares(fills@) == polled_fills(seen, book, grace, trades@, n as nat),
                live ==> orphans@ == polled_orphans(seen, book, grace, trades@, n as nat),
                !live ==> fills@.len() == 0 && orphans@.len() == 0,
            decreases trades@.len() - n,
        {
            let t: &TradeReport = &trades[n];
            proof {
                assert(trades@.take(n + 1).drop_last() =~= trades@.take(n as int));
                assert(trades@.take(n + 1).last() == *t);
            }
            if let Some(id) = &t.trade_id {
                let before: Option<()> = trades_insert(
                    &mut self.processed_trade_ids,
                    id.clone(),
                    (),
                );
                if live && before.is_none() {
                    assert(is_new(seen, trades@, n as int));
                    match self.match_order(t) {
                        Some(o) => {
                            let ghost earlier = fills@;
                            fills.push(
                                Fill {
                                    fill_id: crate::ids::fresh_id(),
                                    order_id: o.order_id,
                                    basket_id: o.basket_id,
                                    purpose: o.purpose,
                                    side: o.side,
                                    price: field_or(t.price, o.price),
                                    qty: field_or(t.amount, o.qty),
                                    fee: magnitude(field_or(t.fee, 0)),
                                    timestamp: now_ms,
                                },
                            );
                            assert(bares(fills@) =~= bares(earlier).push(bare(fills@.last())));
                        },
                        None => {
                            orphans.push(n);
                        },
                    }
                }
            }
            n += 1;
        }
        assert(trades@.take(trades@.len() as int) =~= trades@);
        self.first_tick_done = true;
        TradeNews { fills, orphans }
    }

    /// The order that a trade names.
    fn match_order(&self, t: &TradeReport) -> (r: Option<Order>)
        ensures
            r == known(self.book(), self.grace(), *t),
    {
        let id: String = match &t.order_id {
            Some(s) => s.clone(),
            None => String::new(),
        };
        assert(id@ == match t.order_id {
            Some(s) => s@,
            None => Seq::<char>::empty(),
        });
        match orders_get(&self.open_orders, id.as_str()) {
            Some(o) => Some(o),
            None => match grace_get(&self.recently_cancelled, id.as_str()) {
                Some(e) => Some(e.0),
                None => None,
            },
        }
    }

    /// Forgets the orders that have been off the book for too long.
    pub fn expire(&mut self, now_ms: i64)
        ensures
            final(self).grace() == unexpired(old(self).grace(), now_ms),
            final(self).book() == old(self).book(),
            final(self).seen() == old(self).seen(),
            final(self).first_tick_done == old(self).first_tick_done,
            final(self).same_terms(old(self)),
    {
        let cutoff: i64 = minus(now_ms, GRACE_MS);
        let listing: Vec<(String, (Order, i64))> = grace_walk(&self.recently_cancelled);
        let ghost m = self.grace();
        let ghost keyed = listing@.map_values(|e: (String, (Order, i64))| (e.0@, e.1));
        let mut n: usize = 0;
        while n < listing.len()
            invariant
                n <= listing@.len(),
                cutoff == clamp(now_ms - GRACE_MS),
                keyed == listing@.map_values(|e: (String, (Order, i64))| (e.0@, e.1)),
                walks(keyed, m),
                m == old(self).grace(),
                forall|k: Seq<char>| #[trigger]
                    self.grace().dom().contains(k) ==> m.dom().contains(k) && self.grace()[k]
                        == m[k],
                forall|x: int|
                    0 <= x < n ==> (self.grace().dom().contains((#[trigger] keyed[x]).0)
                        <==> keyed[x].1.1 >= cutoff),
                forall|x: int|
                    n <= x < keyed.len() ==> self.grace().dom().contains((#[trigger] keyed[x]).0),
                self.book() == old(self).book(),
                self.seen() == old(self).seen(),
                self.first_tick_done == old(self).first_tick_done,
                self.same_terms(old(self)),
            decreases listing@.len() - n,
        {
            assert(keyed[n as int] == (listing@[n as int].0@, listing@[n as int].1));
            let left_at: i64 = (listing[n].1).1;
            if left_at < cutoff {
                let _ = grace_remove(&mut self.recently_cancelled, listing[n].0.as_str());
            }
            n += 1;
        }
        proof {
            assert forall|k: Seq<char>| m.dom().contains(k) implies (
            #[trigger] self.grace().dom().contains(k) <==> m[k].1 >= cutoff) by {
                lemma_walk_reaches(keyed, m, k);
                let x = choose|x: int| 0 <= x < keyed.len() && (#[trigger] keyed[x]).0 == k;
                assert(keyed[x].1 == m[k]);
            }
            assert(self.grace() =~= unexpired(m, now_ms));
        }
    }

    /// Holds the tracked orders against those that the venue lists as open. An
    /// order that is no longer listed moves off the book, where a late trade
    /// still finds it. Returns the places of listed orders that nothing is
    /// known of.
    pub fn sync(&mut self, venue: &Vec<Option<String>>, now_ms: i64) -> (r: Vec<usize>)
        ensures
            final(self).book() == still_open(old(self).book(), venue@),
            final(self).grace() == gone(old(self).book(), old(self).grace(), venue@, now_ms),
            r@ == orphan_orders(old(self).book(), old(self).grace(), venue@, venue@.len()),
            final(self).seen() == old(self).seen(),
            final(self).first_tick_done == old(self).first_tick_done,
            final(self).same_terms(old(self)),
    {
        let ghost m = self.book();
        let ghost g = self.grace();
        let mut orphans: Vec<usize> = Vec::new();
        let mut i: usize = 0;
        while i < venue.len()
            invariant
                i <= venue@.len(),
                m == self.book(),
                g == self.grace(),
                orphans@ == orphan_orders(m, g, venue@, i as nat),
            decreases venue@.len() - i,
        {
            if let Some(id) = &venue[i] {
                let on_book: bool = orders_get(&self.open_orders, id.as_str()).is_some();
                let recent: bool = grace_get(&self.recently_cancelled, id.as_str()).is_some();
                if !on_book && !recent {
                    orphans.push(i);
                }
            }
            i += 1;
        }
        let listing: Vec<(String, Order)> = orders_walk(&self.open_orders);
        let ghost keyed = listing@.map_values(|e: (String, Order)| (e.0@, e.1));
        let mut n: usize = 0;
        while n < listing.len()
            invariant
                n <= listing@.len(),
                keyed == listing@.map_values(|e: (String, Order)| (e.0@, e.1)),
                walks(keyed, m),
                m == old(self).book(),
                g == old(self).grace(),
                forall|k: Seq<char>| #[trigger]
                    self.book().dom().contains(k) ==> m.dom().contains(k) && self.book()[k] == m[k],
                forall|x: int|
                    0 <= x < n ==> (self.book().dom().contains((#[trigger] keyed[x]).0) <==> lists(
                        venue@,
                        keyed[x].0,
                    )),
                forall|x: int|
                    n <= x < keyed.len() ==> self.book().dom().contains((#[trigger] keyed[x]).0),
                forall|k: Seq<char>| #[trigger]
                    self.grace().dom().contains(k) ==> g.dom().contains(k) || (m.dom().contains(k)
                        && !lists(venue@, k)),
                forall|k: Seq<char>| #[trigger]
                    g.dom().contains(k) ==> self.grace().dom().contains(k),
                forall|k: Seq<char>| #[trigger]
                    self.grace().dom().contains(k) && !(m.dom().contains(k) && !lists(venue@, k))
                        ==> self.grace()[k] == g[k],
                forall|x: int|
                    0 <= x < n && !lists(venue@, (#[trigger] keyed[x]).0)
                        ==> self.grace().dom().contains(keyed[x].0) && self.grace()[keyed[x].0] == (
                    keyed[x].1, now_ms),
                self.seen() == old(self).seen(),
                self.first_tick_done == old(self).first_tick_done,
                self.same_terms(old(self)),
            decreases listing@.len() - n,
        {
            assert(keyed[n as int] == (listing@[n as int].0@, listing@[n as int].1));
            assert(m.dom().contains(keyed[n as int].0));
            let ghost g0 = self.grace();
            let ghost id = keyed[n as int].0;
            if !is_listed(venue, &listing[n].0) {
                let _ = orders_remove(&mut self.open_orders, listing[n].0.as_str());
                let _ = grace_insert(
                    &mut self.recently_cancelled,
                    listing[n].0.clone(),
                    (listing[n].1, now_ms),
                );
                assert(self.grace() == g0.insert(id, (keyed[n as int].1, now_ms)));
                assert(!lists(venue@, id));
                proof {
                    assert forall|k: Seq<char>| #[trigger]
                        self.grace().dom().contains(k) implies g.dom().contains(k) || (
                    m.dom().contains(k) && !lists(venue@, k)) by {
                        if k != id {
                            assert(g0.dom().contains(k));
                        }
                    }
                    assert forall|k: Seq<char>| #[trigger]
                        self.grace().dom().contains(k) && !(m.dom().contains(k) && !lists(
                            venue@,
                            k,
                        )) implies self.grace()[k] == g[k] by {
                        assert(k != id);
                        assert(g0.dom().contains(k));
                    }
                }
            }
            n += 1;
        }
        proof {
            assert forall|k: Seq<char>| #[trigger] m.dom().contains(k) implies (
            self.book().dom().contains(k) <==> lists(venue@, k)) && (!lists(venue@, k)
                ==> self.grace().dom().contains(k) && self.grace()[k] == (m[k], now_ms)) by {
                lemma_walk_reaches(keyed, m, k);
                let x = choose|x: int| 0 <= x < keyed.len() && (#[trigger] keyed[x]).0 == k;
                assert(keyed[x].1 == m[k]);
            }
            assert(self.book() =~= still_open(m, venue@));
            assert(self.grace() =~= gone(m, g, venue@, now_ms));
        }
        orphans
    }

    /// Keeps the marked trades from growing without end: past the high mark,
    /// any are dropped down to the low mark.
    pub fn trim_processed(&mut self)
        ensures
            if old(self).seen().dom().len() > TRADES_HIGH {
                &&& final(self).seen().dom().subset_of(old(self).seen().dom())
                &&& final(self).seen().dom().len() == TRADES_LOW
            } else {
                final(self).seen() == old(self).seen()
            },
            final(self).book() == old(self).book(),
            final(self).grace() == old(self).grace(),
            final(self).first_tick_done == old(self).first_tick_done,
            final(self).same_terms(old(self)),
    {
        let listing: Vec<(String, ())> = trades_walk(&self.processed_trade_ids);
        let ghost m = self.seen();
        let ghost keyed = listing@.map_values(|e: (String, ())| (e.0@, e.1));
        if listing.len() <= TRADES_HIGH {
            return;
        }
        let drop: usize = listing.len() - TRADES_LOW;
        let mut n: usize = 0;
        while n < drop
            invariant
                n <= drop <= listing@.len(),
                keyed == listing@.map_values(|e: (String, ())| (e.0@, e.1)),
                walks(keyed, m),
                self.seen().dom().finite(),
                self.seen().dom().subset_of(m.dom()),
                self.seen().dom().len() == listing@.len() - n,
                forall|x: int|
                    n <= x < keyed.len() ==> self.seen().dom().contains((#[trigger] keyed[x]).0),
                self.book() == old(self).book(),
                self.grace() == old(self).grace(),
                self.first_tick_done == old(self).first_tick_done,
                self.same_terms(old(self)),
            decreases drop - n,
        {
            assert(keyed[n as int] == (listing@[n as int].0@, listing@[n as int].1));
            let ghost before = self.seen();
            let _ = trades_remove(&mut self.processed_trade_ids, listing[n].0.as_str());
            proof {
                assert(self.seen().dom() =~= before.dom().remove(keyed[n as int].0));
            }
            n += 1;
        }
    }

    /// `news` is what a report of trades brings to this client.
    pub open spec fn brings(&self, trades: Option<Seq<TradeReport>>, news: TradeNews) -> bool {
        match trades {
            Some(ts) if self.first_tick_done => {
                &&& named(news.fills@)
                &&& bares(news.fills@) == polled_fills(
                    self.seen(),
                    self.book(),
                    self.grace(),
                    ts,
                    ts.len(),
                )
                &&& news.orphans@ == polled_orphans(
                    self.seen(),
                    self.book(),
                    self.grace(),
                    ts,
                    ts.len(),
                )
            },
            _ => news.fills@.len() == 0 && news.orphans@.len() == 0,
        }
    }

    /// The first half of a poll: takes in the trades that the venue reported,
    /// if it did, and forgets the orders that have been off the book for too
    /// long.
    pub fn tick(&mut self, trades: &Option<Vec<TradeReport>>, mono_ms: i64) -> (r: TradeNews)
        ensures
            old(self).brings(
                match *trades {
                    Some(ts) => Some(ts@),
                    None => None,
                },
                r,
            ),
            final(self).seen() == match *trades {
                Some(ts) => marked(old(self).seen(), ts@),
                None => old(self).seen(),
            },
            final(self).first_tick_done == (old(self).first_tick_done || trades is Some),
            final(self).grace() == unexpired(old(self).grace(), mono_ms),
            final(self).book() == old(self).book(),
            final(self).same_terms(old(self)),
    {
        let news: TradeNews = match trades {
            Some(ts) => self.absorb_trades(ts, crate::clock::now_ms()),
            None => TradeNews { fills: Vec::new(), orphans: Vec::new() },
        };
        self.expire(mono_ms);
        news
    }

    /// The second half of a poll: holds the tracked orders against those that
    /// the venue listed, if it did, and keeps the marked trades in bounds.
    /// Returns the places of listed orders that nothing is known of.
    pub fn reconcile(&mut self, venue: &Option<Vec<Option<String>>>, mono_ms: i64) -> (r: Vec<
        usize,
    >)
        ensures
            match *venue {
                Some(v) => {
                    &&& final(self).book() == still_open(old(self).book(), v@)
                    &&& final(self).grace() == gone(
                        old(self).book(),
                        old(self).grace(),
                        v@,
                        mono_ms,
                    )
                    &&& r@ == orphan_orders(old(self).book(), old(self).grace(), v@, v@.len())
                },
                None => {
                    &&& final(self).book() == old(self).book()
                    &&& final(self).grace() == old(self).grace()
                    &&& r@.len() == 0
                },
            },
            if old(self).seen().dom().len() > TRADES_HIGH {
                &&& final(self).seen().dom().subset_of(old(self).seen().dom())
                &&& final(self).seen().dom().len() == TRADES_LOW
            } else {
                final(self).seen() == old(self).seen()
            },
            final(self).first_tick_done == old(self).first_tick_done,
            final(self).same_terms(old(self)),
    {
        let orphans: Vec<usize> = match venue {
            Some(v) => self.sync(v, mono_ms),
            None => Vec::new(),
        };
        self.trim_processed();
        orphans
    }
}

/// Marking keeps what was marked.
proof fn lemma_marked_keeps(seen: Map<Seq<char>, ()>, trades: Seq<TradeReport>, id: Seq<char>)
    ensures
        seen.dom().contains(id) ==> marked(seen, trades).dom().contains(id),
    decreases trades.len(),
{
    if trades.len() > 0 {
        lemma_marked_keeps(seen, trades.drop_last(), id);
    }
}

/// Every trade of a report is marked once it was taken in.
proof fn lemma_marked_all(seen: Map<Seq<char>, ()>, trades: Seq<TradeReport>, i: int)
    requires
        0 <= i < trades.len(),
    ensures
        trades[i].trade_id matches Some(id) ==> marked(seen, trades).dom().contains(id@),
    decreases trades.len(),
{
    if i < trades.len() - 1 {
        lemma_marked_all(seen, trades.drop_last(), i);
    }
}

/// A trade becomes a fill at most once: a report of trades that were all
/// marked before brings no fill and no orphan.
pub proof fn marked_trades_bring_nothing(
    seen: Map<Seq<char>, ()>,
    book: Map<Seq<char>, Order>,
    grace: Map<Seq<char>, (Order, i64)>,
    trades: Seq<TradeReport>,
    n: nat,
)
    requires
        n <= trades.len(),
        forall|i: int|
            0 <= i < trades.len() ==> (#[trigger] trades[i].trade_id matches Some(id)
                ==> seen.dom().contains(id@)),
    ensures
        polled_fills(seen, book, grace, trades, n).len() == 0,
        polled_orphans(seen, book, grace, trades, n).len() == 0,
    decreases n,
{
    if n > 0 {
        marked_trades_bring_nothing(seen, book, grace, trades, (n - 1) as nat);
        let t = trades[n - 1];
        match t.trade_id {
            Some(id) => {
                lemma_marked_keeps(seen, trades.take(n - 1), id@);
            },
            None => {},
        }
    }
}

/// A report that is polled again brings nothing the second time, whatever
/// happened to the orders in between.
pub proof fn a_second_poll_brings_nothing(
    seen: Map<Seq<char>, ()>,
    book: Map<Seq<char>, Order>,
    grace: Map<Seq<char>, (Order, i64)>,
    trades: Seq<TradeReport>,
)
    ensures
        polled_fills(marked(seen, trades), book, grace, trades, trades.len()).len() == 0,
        polled_orphans(marked(seen, trades), book, grace, trades, trades.len()).len() == 0,
{
    assert forall|i: int| 0 <= i < trades.len() implies (#[trigger] trades[i].trade_id matches Some(
        id,
    ) ==> marked(seen, trades).dom().contains(id@)) by {
        lemma_marked_all(seen, trades, i);
    }
    marked_trades_bring_nothing(marked(seen, trades), book, grace, trades, trades.len());
}

/// An order whose cancellation was accepted is still found by a late trade.
pub proof fn a_cancelled_order_is_still_known(
    book: Map<Seq<char>, Order>,
    grace: Map<Seq<char>, (Order, i64)>,
    id: Seq<char>,
    o: Order,
    now_ms: i64,
    t: TradeReport,
)
    requires
        t.order_id matches Some(s) && s@ == id,
    ensures
        known(book.remove(id), grace.insert(id, (o, now_ms)), t) == Some(o),
{
}

/// Holding orders against the venue loses none: whatever was tracked is still
/// known to its trades afterwards.
pub proof fn syncing_loses_no_order(
    book: Map<Seq<char>, Order>,
    grace: Map<Seq<char>, (Order, i64)>,
    venue: Seq<Option<String>>,
    now_ms: i64,
    t: TradeReport,
)
    requires
        t.order_id matches Some(s) && book.dom().contains(s@),
    ensures
        known(still_open(book, venue), gone(book, grace, venue, now_ms), t) == known(
            book,
            grace,
            t,
        ),
{
}

/// An order that just left the book does not expire for half a minute.
pub proof fn grace_lasts(
    grace: Map<Seq<char>, (Order, i64)>,
    id: Seq<char>,
    left_at: i64,
    now_ms: i64,
)
    requires
        grace.dom().contains(id),
        grace[id].1 == left_at,
        now_ms - left_at <= GRACE_MS,
    ensures
        unexpired(grace, now_ms).dom().contains(id),
        unexpired(grace, now_ms)[id] == grace[id],
{
}

/// An order is sent with at least one contract and at least the minimum.
pub proof fn sizes_meet_the_minimum(client: DeribitClient, qty: i64)
    ensures
        ({
            let sent = larger(
                larger(snapped(qty, client.increment()) as int, client.min_trade_amount as int),
                client.increment() as int,
            );
            sent >= client.min_trade_amount && sent >= client.increment() && client.increment() > 0
        }),
{
}

} // verus!
