//! A paper exchange with a random price.
use vstd::prelude::*;

use crate::amount::{clamp, clamped, larger, max, ratio, scale, UNIT};
use crate::models::order::{
    Fill, Order, OrderBook, OrderBookLevel, OrderPurpose, OrderStatus, OrderType, Side,
};
use crate::tables::{
    lemma_walk_reaches, lists_values, paper_clear, paper_insert, paper_new, paper_orders_in, paper_remove,
    paper_walk, values_of, walks, PaperTable,
};

verus! {

/// Ten thousand basis points, as an amount.
pub const ALL_BPS: i64 = 1_000_000_000_000;

/// A paper exchange.
pub struct MockExchange {
    pub mid_price: i64,
    /// Resting orders by identifier.
    pub orders: PaperTable,
}

/// The order fills at this mid: a buy when mid has dropped to its price, a
/// sell when mid has risen to it.
pub open spec fn crossed(o: Order, mid: i64) -> bool {
    o.status == OrderStatus::Open && match o.side {
        Side::Buy => mid <= o.price,
        Side::Sell => mid >= o.price,
    }
}

/// The fill of a whole order at its own price.
pub open spec fn fill_of(o: Order, fill_id: u128, now_ms: i64) -> Fill {
    Fill {
        fill_id,
        order_id: o.order_id,
        basket_id: o.basket_id,
        purpose: o.purpose,
        side: o.side,
        price: o.price,
        qty: o.qty,
        fee: 0,
        timestamp: now_ms,
    }
}

/// The resting orders that do not fill at this mid.
pub open spec fn uncrossed(m: Map<u128, Order>, mid: i64) -> Map<u128, Order> {
    Map::new(|k: u128| m.dom().contains(k) && !crossed(m[k], mid), |k: u128| m[k])
}

/// `fills` fills every order that mid has crossed, each once and whole.
pub open spec fn fills_crossed(
    fills: Seq<Fill>,
    m: Map<u128, Order>,
    mid: i64,
    now_ms: i64,
) -> bool {
    &&& forall|i: int|
        0 <= i < fills.len() ==> {
            let f = #[trigger] fills[i];
            &&& m.dom().contains(f.order_id)
            &&& crossed(m[f.order_id], mid)
            &&& f == fill_of(m[f.order_id], f.fill_id, now_ms)
            &&& crate::ids::is_random_id(f.fill_id)
        }
    &&& forall|i: int, j: int|
        0 <= i < j < fills.len() ==> (#[trigger] fills[i]).order_id != (
        #[trigger] fills[j]).order_id
    &&& forall|k: u128| #[trigger]
        m.dom().contains(k) && crossed(m[k], mid) ==> exists|i: int|
            0 <= i < fills.len() && (#[trigger] fills[i]).order_id == k
}

/// One level of the made-up book: five apart, growing outward.
pub open spec fn paper_level(mid: i64, side: Side, i: int) -> OrderBookLevel {
    OrderBookLevel {
        price: match side {
            Side::Buy => clamp(mid - i * 5 * UNIT),
            Side::Sell => clamp(mid + i * 5 * UNIT),
        },
        size: (UNIT / 2 + i * (UNIT / 10)) as i64,
    }
}

/// The price of a market order that slips by so many basis points.
pub open spec fn slipped(mid: i64, side: Side, slip_bps: i64) -> i64 {
    match side {
        Side::Buy => ratio(mid as int, ALL_BPS + slip_bps, ALL_BPS as int),
        Side::Sell => ratio(mid as int, ALL_BPS - slip_bps, ALL_BPS as int),
    }
}

/// The levels of one side of the made-up book.
fn paper_levels(mid: i64, side: Side) -> (r: Vec<OrderBookLevel>)
    ensures
        r@ == Seq::new(10, |i: int| paper_level(mid, side, i + 1)),
{
    let mut out: Vec<OrderBookLevel> = Vec::new();
    let mut i: i64 = 0;
    while i < 10
        invariant
            0 <= i <= 10,
            out@ == Seq::new(i as nat, |j: int| paper_level(mid, side, j + 1)),
        decreases 10 - i,
    {
        let away: i128 = (i + 1) as i128 * 500_000_000;
        let price: i64 = match side {
            Side::Buy => clamped(mid as i128 - away),
            Side::Sell => clamped(mid as i128 + away),
        };
        out.push(OrderBookLevel { price, size: 50_000_000 + (i + 1) * 10_000_000 });
        i += 1;
        assert(out@ =~= Seq::new(i as nat, |j: int| paper_level(mid, side, j + 1)));
    }
    out
}

impl MockExchange {
    /// The resting orders by identifier.
    pub open spec fn resting(&self) -> Map<u128, Order> {
        paper_orders_in(self.orders)
    }

    /// Every order rests under its own identifier.
    pub open spec fn wf(&self) -> bool {
        forall|k: u128| #[trigger]
            self.resting().dom().contains(k) ==> self.resting()[k].order_id == k
    }

    /// An exchange with no orders.
    pub fn new(initial_price: i64) -> (r: Self)
        ensures
            r.mid_price == initial_price,
            r.resting() == Map::<u128, Order>::empty(),
            r.wf(),
    {
        let orders: PaperTable = paper_new();
        assert(paper_orders_in(orders) =~= Map::<u128, Order>::empty());
        MockExchange { mid_price: initial_price, orders }
    }

    /// The exchange's name.
    pub fn name(&self) -> (r: String)
        ensures
            r@ == "MockExchange"@,
    {
        "MockExchange".to_string()
    }

    /// The current mid.
    pub fn current_price(&self) -> (r: i64)
        ensures
            r == self.mid_price,
    {
        self.mid_price
    }

    /// Moves the price. It never falls below one.
    pub fn walk(&mut self, drift: i64, spike: i64)
        ensures
            final(self).mid_price == larger(
                clamp(old(self).mid_price + drift + spike) as int,
                UNIT as int,
            ),
            final(self).orders == old(self).orders,
    {
        let moved: i64 = clamped(self.mid_price as i128 + drift as i128 + spike as i128);
        self.mid_price = max(moved, UNIT);
    }

    /// A random step of less than fifteen, and now and then a spike of less
    /// than two hundred.
    pub fn advance_price(&mut self)
        ensures
            exists|drift: i64, spike: i64|
                {
                    &&& -15 * UNIT <= drift < 15 * UNIT
                    &&& -200 * UNIT <= spike < 200 * UNIT
                    &&& final(self).mid_price == larger(
                        #[trigger] clamp(old(self).mid_price + drift + spike) as int,
                        UNIT as int,
                    )
                },
            final(self).orders == old(self).orders,
    {
        let drift: i64 = crate::random::draw(-15 * UNIT, 15 * UNIT);
        let spike: i64 = if crate::random::chance(1, 50) {
            crate::random::draw(-200 * UNIT, 200 * UNIT)
        } else {
            0
        };
        self.walk(drift, spike);
    }

    /// A made-up book of ten levels on either side of mid.
    pub fn orderbook_at(&self, timestamp: i64) -> (r: OrderBook)
        ensures
            r.bids@ == Seq::new(10, |i: int| paper_level(self.mid_price, Side::Buy, i + 1)),
            r.asks@ == Seq::new(10, |i: int| paper_level(self.mid_price, Side::Sell, i + 1)),
            r.mid == self.mid_price,
            r.timestamp == timestamp,
    {
        OrderBook {
            bids: paper_levels(self.mid_price, Side::Buy),
            asks: paper_levels(self.mid_price, Side::Sell),
            mid: self.mid_price,
            timestamp,
        }
    }

    /// The book as of now.
    pub fn orderbook(&self) -> (r: OrderBook)
        ensures
            r.bids@ == Seq::new(10, |i: int| paper_level(self.mid_price, Side::Buy, i + 1)),
            r.asks@ == Seq::new(10, |i: int| paper_level(self.mid_price, Side::Sell, i + 1)),
            r.mid == self.mid_price,
    {
        self.orderbook_at(crate::clock::now_ms())
    }

    /// A maker-only order as the exchange answers it: rejected when it would
    /// take liquidity.
    pub open spec fn answer(
        &self,
        order_id: u128,
        side: Side,
        price: i64,
        qty: i64,
        basket_id: u128,
        purpose: OrderPurpose,
        now_ms: i64,
    ) -> Order {
        let crosses = match side {
            Side::Buy => price >= self.mid_price,
            Side::Sell => price <= self.mid_price,
        };
        Order {
            order_id,
            basket_id,
            side,
            order_type: OrderType::LimitMaker,
            purpose,
            price,
            qty,
            filled_qty: 0,
            status: if crosses {
                OrderStatus::Rejected
            } else {
                OrderStatus::Open
            },
            created_at: now_ms,
        }
    }

    /// Answers a maker-only order, which rests under the given identifier
    /// unless it is rejected.
    pub fn accept(
        &mut self,
        order_id: u128,
        side: Side,
        price: i64,
        qty: i64,
        basket_id: u128,
        purpose: OrderPurpose,
        now_ms: i64,
    ) -> (r: Order)
        requires
            old(self).wf(),
        ensures
            final(self).wf(),
            r == old(self).answer(order_id, side, price, qty, basket_id, purpose, now_ms),
            final(self).resting() == if r.status == OrderStatus::Open {
                old(self).resting().insert(order_id, r)
            } else {
                old(self).resting()
            },
            final(self).mid_price == old(self).mid_price,
    {
        let crosses: bool = match side {
            Side::Buy => price >= self.mid_price,
            Side::Sell => price <= self.mid_price,
        };
        let status: OrderStatus = if crosses {
            OrderStatus::Rejected
        } else {
            OrderStatus::Open
        };
        let order: Order = Order {
            order_id,
            basket_id,
            side,
            order_type: OrderType::LimitMaker,
            purpose,
            price,
            qty,
            filled_qty: 0,
            status,
            created_at: now_ms,
        };
        if status == OrderStatus::Open {
            let _ = paper_insert(&mut self.orders, order_id, order);
        }
        order
    }

    /// Places a maker-only order.
    pub fn place_maker_only(
        &mut self,
        side: Side,
        price: i64,
        qty: i64,
        basket_id: u128,
        purpose: OrderPurpose,
    ) -> (r: Order)
        requires
            old(self).wf(),
        ensures
            final(self).wf(),
            crate::ids::is_random_id(r.order_id),
            r == old(self).answer(
                r.order_id,
                side,
                price,
                qty,
                basket_id,
                purpose,
                r.created_at,
            ),
            final(self).resting() == if r.status == OrderStatus::Open {
                old(self).resting().insert(r.order_id, r)
            } else {
                old(self).resting()
            },
            final(self).mid_price == old(self).mid_price,
    {
        let order_id: u128 = crate::ids::fresh_id();
        let now: i64 = crate::clock::now_ms();
        self.accept(order_id, side, price, qty, basket_id, purpose, now)
    }

    /// A market order that fills whole at a given slippage.
    pub fn execute(
        &self,
        order_id: u128,
        fill_id: u128,
        side: Side,
        qty: i64,
        basket_id: u128,
        purpose: OrderPurpose,
        slip_bps: i64,
        now_ms: i64,
    ) -> (r: (Order, Fill))
        requires
            0 <= slip_bps <= ALL_BPS,
        ensures
            r.0 == (Order {
                order_id,
                basket_id,
                side,
                order_type: OrderType::MarketReduceOnly,
                purpose,
                price: slipped(self.mid_price, side, slip_bps),
                qty,
                filled_qty: qty,
                status: OrderStatus::Filled,
                created_at: now_ms,
            }),
            r.1 == fill_of(r.0, fill_id, now_ms),
    {
        let price: i64 = match side {
            Side::Buy => scale(self.mid_price, ALL_BPS + slip_bps, ALL_BPS),
            Side::Sell => scale(self.mid_price, ALL_BPS - slip_bps, ALL_BPS),
        };
        let order: Order = Order {
            order_id,
            basket_id,
            side,
            order_type: OrderType::MarketReduceOnly,
            purpose,
            price,
            qty,
            filled_qty: qty,
            status: OrderStatus::Filled,
            created_at: now_ms,
        };
        let fill: Fill = Fill {
            fill_id,
            order_id,
            basket_id,
            purpose,
            side,
            price,
            qty,
            fee: 0,
            timestamp: now_ms,
        };
        (order, fill)
    }

    /// Places a market order. It slips by one to five basis points and fills
    /// whole at once.
    pub fn place_market_reduce_only(
        &self,
        side: Side,
        qty: i64,
        basket_id: u128,
        purpose: OrderPurpose,
    ) -> (r: (Order, Fill))
        ensures
            crate::ids::is_random_id(r.0.order_id),
            crate::ids::is_random_id(r.1.fill_id),
            exists|slip_bps: i64|
                {
                    &&& UNIT <= slip_bps < 5 * UNIT
                    &&& r.0.price == #[trigger] slipped(self.mid_price, side, slip_bps)
                },
            r.0 == (Order {
                order_id: r.0.order_id,
                basket_id,
                side,
                order_type: OrderType::MarketReduceOnly,
                purpose,
                price: r.0.price,
                qty,
                filled_qty: qty,
                status: OrderStatus::Filled,
                created_at: r.0.created_at,
            }),
            r.1 == fill_of(r.0, r.1.fill_id, r.0.created_at),
    {
        let slip_bps: i64 = crate::random::draw(UNIT, 5 * UNIT);
        let order_id: u128 = crate::ids::fresh_id();
        let fill_id: u128 = crate::ids::fresh_id();
        let now: i64 = crate::clock::now_ms();
        self.execute(order_id, fill_id, side, qty, basket_id, purpose, slip_bps, now)
    }

    /// Takes an order off the exchange.
    pub fn cancel(&mut self, order_id: u128)
        ensures
            final(self).resting() == old(self).resting().remove(order_id),
            old(self).wf() ==> final(self).wf(),
            final(self).mid_price == old(self).mid_price,
    {
        let _ = paper_remove(&mut self.orders, order_id);
    }

    /// Takes every order off the exchange.
    pub fn cancel_all(&mut self)
        ensures
            final(self).resting() == Map::<u128, Order>::empty(),
            final(self).wf(),
            final(self).mid_price == old(self).mid_price,
    {
        paper_clear(&mut self.orders);
        assert(self.resting() =~= Map::<u128, Order>::empty());
    }

    /// Every resting order, in no particular order.
    pub fn open_orders(&self) -> (r: Vec<Order>)
        ensures
            lists_values(r@, self.resting()),
    {
        let listing: Vec<(u128, Order)> = paper_walk(&self.orders);
        let mut out: Vec<Order> = Vec::new();
        let mut n: usize = 0;
        while n < listing.len()
            invariant
                n <= listing@.len(),
                out@ == values_of(listing@.take(n as int)),
            decreases listing@.len() - n,
        {
            out.push(listing[n].1);
            n += 1;
            assert(out@ =~= values_of(listing@.take(n as int)));
        }
        assert(listing@.take(listing@.len() as int) =~= listing@);
        out
    }

    /// Fills every resting order that mid has crossed.
    pub fn fill_crossed(&mut self, now_ms: i64) -> (r: Vec<Fill>)
        requires
            old(self).wf(),
        ensures
            final(self).wf(),
            final(self).mid_price == old(self).mid_price,
            final(self).resting() == uncrossed(old(self).resting(), old(self).mid_price),
            fills_crossed(r@, old(self).resting(), old(self).mid_price, now_ms),
    {
        let listing: Vec<(u128, Order)> = paper_walk(&self.orders);
        let ghost m = self.resting();
        let mid: i64 = self.mid_price;
        let mut fills: Vec<Fill> = Vec::new();
        let ghost mut from: Seq<int> = Seq::empty();
        let mut n: usize = 0;
        while n < listing.len()
            invariant
                n <= listing@.len(),
                walks(listing@, m),
                forall|k: u128| #[trigger] m.dom().contains(k) ==> m[k].order_id == k,
                mid == self.mid_price == old(self).mid_price,
                forall|k: u128| #[trigger]
                    self.resting().dom().contains(k) ==> m.dom().contains(k) && self.resting()[k]
                        == m[k],
                forall|x: int|
                    0 <= x < n ==> (self.resting().dom().contains((#[trigger] listing@[x]).0)
                        <==> !crossed(listing@[x].1, mid)),
                forall|x: int|
                    n <= x < listing@.len() ==> self.resting().dom().contains(
                        (#[trigger] listing@[x]).0,
                    ),
                from.len() == fills@.len(),
                forall|i: int|
                    #![trigger fills@[i]]
                    #![trigger from[i]]
                    0 <= i < fills@.len() ==> {
                        &&& 0 <= from[i] < n
                        &&& fills@[i].order_id == listing@[from[i]].0
                        &&& m.dom().contains(fills@[i].order_id)
                        &&& crossed(m[fills@[i].order_id], mid)
                        &&& fills@[i] == fill_of(m[fills@[i].order_id], fills@[i].fill_id, now_ms)
                        &&& crate::ids::is_random_id(fills@[i].fill_id)
                    },
                forall|i: int, j: int| 0 <= i < j < from.len() ==> from[i] < from[j],
                forall|x: int|
                    0 <= x < n && crossed((#[trigger] listing@[x]).1, mid) ==> exists|i: int|
                        0 <= i < fills@.len() && (#[trigger] fills@[i]).order_id == listing@[x].0,
            decreases listing@.len() - n,
        {
            let o: Order = listing[n].1;
            assert(m.dom().contains(listing@[n as int].0));
            let ghost before = fills@;
            let reached: bool = match o.side {
                Side::Buy => mid <= o.price,
                Side::Sell => mid >= o.price,
            };
            if reached && o.status == OrderStatus::Open {
                let _ = paper_remove(&mut self.orders, o.order_id);
                fills.push(
                    Fill {
                        fill_id: crate::ids::fresh_id(),
                        order_id: o.order_id,
                        basket_id: o.basket_id,
                        purpose: o.purpose,
                        side: o.side,
                        price: o.price,
                        qty: o.qty,
                        fee: 0,
                        timestamp: now_ms,
                    },
                );
                proof {
                    from = from.push(n as int);
                    assert(fills@[before.len() as int].order_id == listing@[n as int].0);
                }
            }
            proof {
                assert forall|x: int| 0 <= x < n + 1 && crossed(
                    (#[trigger] listing@[x]).1,
                    mid,
                ) implies exists|i: int|
                    0 <= i < fills@.len() && (#[trigger] fills@[i]).order_id == listing@[x].0 by {
                    if x < n {
                        let i = choose|i: int|
                            0 <= i < before.len() && (#[trigger] before[i]).order_id
                                == listing@[x].0;
                        assert(fills@[i] == before[i]);
                    }
                }
            }
            n += 1;
        }
        proof {
            assert forall|k: u128| m.dom().contains(k) implies (#[trigger] self.resting().dom().contains(
                k,
            ) <==> !crossed(m[k], mid)) && (crossed(m[k], mid) ==> exists|i: int|
                0 <= i < fills@.len() && (#[trigger] fills@[i]).order_id == k) by {
                lemma_walk_reaches(listing@, m, k);
                let x = choose|x: int| 0 <= x < listing@.len() && (#[trigger] listing@[x]).0 == k;
                assert(listing@[x].1 == m[k]);
            }
            assert(self.resting() =~= uncrossed(m, mid));
            assert forall|i: int, j: int| 0 <= i < j < fills@.len() implies (
            #[trigger] fills@[i]).order_id != (#[trigger] fills@[j]).order_id by {
                assert(from[i] < from[j]);
                assert(listing@[from[i]].0 != listing@[from[j]].0);
            }
            assert forall|k: u128| #[trigger] m.dom().contains(k) && crossed(
                m[k],
                mid,
            ) implies exists|i: int| 0 <= i < fills@.len() && (#[trigger] fills@[i]).order_id
                == k by {
                assert(!self.resting().dom().contains(k));
            }
        }
        fills
    }

    /// Moves the price and fills what it crosses.
    pub fn tick(&mut self) -> (r: Vec<Fill>)
        requires
            old(self).wf(),
        ensures
            final(self).wf(),
            exists|drift: i64, spike: i64|
                {
                    &&& -15 * UNIT <= drift < 15 * UNIT
                    &&& -200 * UNIT <= spike < 200 * UNIT
                    &&& final(self).mid_price == larger(
                        #[trigger] clamp(old(self).mid_price + drift + spike) as int,
                        UNIT as int,
                    )
                },
            final(self).resting() == uncrossed(old(self).resting(), final(self).mid_price),
            exists|now_ms: i64| #[trigger]
                fills_crossed(r@, old(self).resting(), final(self).mid_price, now_ms),
    {
        self.advance_price();
        let now: i64 = crate::clock::now_ms();
        self.fill_crossed(now)
    }
}

/// An order that the exchange accepts does not fill at the mid it was accepted
/// at: it rests strictly on its own side.
pub proof fn accepted_orders_rest(
    ex: MockExchange,
    order_id: u128,
    side: Side,
    price: i64,
    qty: i64,
    basket_id: u128,
    purpose: OrderPurpose,
    now_ms: i64,
)
    ensures
        ({
            let o = ex.answer(order_id, side, price, qty, basket_id, purpose, now_ms);
            !crossed(o, ex.mid_price)
        }),
{
}

/// What was filled is gone: filling again at the same mid fills nothing.
pub proof fn nothing_fills_twice(m: Map<u128, Order>, mid: i64, now_ms: i64, again: Seq<Fill>)
    requires
        fills_crossed(again, uncrossed(m, mid), mid, now_ms),
    ensures
        again.len() == 0,
{
    if again.len() > 0 {
        let f = again[0];
        assert(uncrossed(m, mid).dom().contains(f.order_id));
    }
}

} // verus!
