//! Laws of the paper exchange.
use vstd::prelude::*;

use crate::exchanges::mock::{crossed, fill_of, fills_crossed, slipped, MockExchange};
use crate::laws::amounts::{held, lemma_rounds_to, rounds_to};
use crate::laws::words::lemma_lists_values;
use crate::models::order::{Fill, Order, OrderBook, OrderPurpose, OrderStatus, OrderType, Side};

verus! {

/// A maker-only order is the one that was asked for. It rests exactly when it
/// is strictly on its own side of mid, and is refused otherwise.
pub proof fn orders_rest_on_their_own_side(
    ex: &mut MockExchange,
    order_id: u128,
    side: Side,
    price: i64,
    qty: i64,
    basket_id: u128,
    purpose: OrderPurpose,
    now_ms: i64,
    r: Order,
    other: u128,
)
    requires
        call_ensures(
            MockExchange::accept,
            (ex, order_id, side, price, qty, basket_id, purpose, now_ms),
            r,
        ),
    ensures
        r.order_id == order_id && r.basket_id == basket_id && r.side == side,
        r.purpose == purpose && r.price == price && r.qty == qty && r.filled_qty == 0,
        r.order_type == OrderType::LimitMaker && r.created_at == now_ms,
        r.status == OrderStatus::Open || r.status == OrderStatus::Rejected,
        side == Side::Buy ==> (r.status == OrderStatus::Open <==> price < old(ex).mid_price),
        side == Side::Sell ==> (r.status == OrderStatus::Open <==> price > old(ex).mid_price),
        r.status == OrderStatus::Open ==> final(ex).resting().dom().contains(order_id)
            && final(ex).resting()[order_id] == r,
        r.status == OrderStatus::Rejected ==> final(ex).resting() == old(ex).resting(),
        other != order_id ==> (final(ex).resting().dom().contains(other) <==> old(ex).resting().dom().contains(other)) && final(ex).resting()[other] == old(ex).resting()[other],
        final(ex).mid_price == old(ex).mid_price,
{
}

/// A market order fills whole at once, at a price that is worse than mid by its
/// slippage: above mid for a buy, below it for a sell.
pub proof fn market_orders_slip_against_the_taker(
    ex: &MockExchange,
    order_id: u128,
    fill_id: u128,
    side: Side,
    qty: i64,
    basket_id: u128,
    purpose: OrderPurpose,
    slip_bps: i64,
    now_ms: i64,
    r: (Order, Fill),
)
    requires
        call_ensures(
            MockExchange::execute,
            (ex, order_id, fill_id, side, qty, basket_id, purpose, slip_bps, now_ms),
            r,
        ),
    ensures
        ({
            let o = r.0;
            let f = r.1;
            &&& o.order_id == order_id && o.basket_id == basket_id && o.side == side
            &&& o.purpose == purpose && o.qty == qty && o.filled_qty == qty
            &&& o.order_type == OrderType::MarketReduceOnly && o.status == OrderStatus::Filled
            &&& f.fill_id == fill_id && f.order_id == order_id && f.basket_id == basket_id
            &&& f.side == side && f.purpose == purpose && f.qty == qty && f.fee == 0
            &&& f.price == o.price && f.timestamp == now_ms
            &&& side == Side::Buy ==> rounds_to(
                f.price,
                ex.mid_price * (1_000_000_000_000 + slip_bps),
                1_000_000_000_000,
            )
            &&& side == Side::Sell ==> rounds_to(
                f.price,
                ex.mid_price * (1_000_000_000_000 - slip_bps),
                1_000_000_000_000,
            )
        }),
{
    lemma_rounds_to(ex.mid_price * (1_000_000_000_000 + slip_bps), 1_000_000_000_000);
    lemma_rounds_to(ex.mid_price * (1_000_000_000_000 - slip_bps), 1_000_000_000_000);
}

/// Mid has reached an open order.
pub open spec fn is_reached(o: Order, mid: i64) -> bool {
    &&& o.status == OrderStatus::Open
    &&& o.side == Side::Buy ==> mid <= o.price
    &&& o.side == Side::Sell ==> mid >= o.price
}

/// Exactly the resting orders that mid has reached fill, whole, at their own
/// price and with their own identity, and rest no longer; all others rest on.
pub proof fn reached_orders_fill(
    ex: &mut MockExchange,
    now_ms: i64,
    r: Vec<Fill>,
    k: u128,
    i: int,
)
    requires
        call_ensures(MockExchange::fill_crossed, (ex, now_ms), r),
    ensures
        ({
            let before = old(ex).resting();
            let mid = old(ex).mid_price;
            &&& final(ex).resting().dom().contains(k) <==> before.dom().contains(k) && !is_reached(
                before[k],
                mid,
            )
            &&& final(ex).resting().dom().contains(k) ==> final(ex).resting()[k] == before[k]
            &&& before.dom().contains(k) && is_reached(before[k], mid) ==> exists|n: int|
                0 <= n < r@.len() && (#[trigger] r@[n]).order_id == k
            &&& 0 <= i < r@.len() ==> {
                let f = r@[i];
                let o = before[f.order_id];
                &&& before.dom().contains(f.order_id)
                &&& is_reached(o, mid)
                &&& f.order_id == o.order_id && f.basket_id == o.basket_id
                &&& f.side == o.side && f.purpose == o.purpose
                &&& f.price == o.price && f.qty == o.qty && f.fee == 0
                &&& f.timestamp == now_ms
            }
            &&& forall|j: int|
                0 <= i < j < r@.len() ==> (#[trigger] r@[j]).order_id != r@[i].order_id
            &&& final(ex).mid_price == mid
        }),
{
    let before = old(ex).resting();
    let mid = old(ex).mid_price;
    if before.dom().contains(k) {
        assert(crossed(before[k], mid) <==> is_reached(before[k], mid));
    }
    if 0 <= i < r@.len() {
        assert(r@[i] == fill_of(before[r@[i].order_id], r@[i].fill_id, now_ms));
    }
}

/// The price moves by what it is told to, but never below one.
pub proof fn prices_stay_above_one(ex: &mut MockExchange, drift: i64, spike: i64)
    requires
        call_ensures(MockExchange::walk, (ex, drift, spike), ()),
    ensures
        final(ex).mid_price >= 100_000_000,
        old(ex).mid_price + drift + spike >= 100_000_000 ==> held(
            final(ex).mid_price,
            old(ex).mid_price + drift + spike,
        ),
        old(ex).mid_price + drift + spike < 100_000_000 ==> final(ex).mid_price == 100_000_000,
        final(ex).resting() == old(ex).resting(),
{
}

/// The made-up book has ten levels on either side, five apart from mid outward,
/// bids below and asks above, that grow by a tenth outward from six tenths.
pub proof fn made_up_books_surround_mid(
    ex: &MockExchange,
    timestamp: i64,
    r: OrderBook,
    i: int,
)
    requires
        call_ensures(MockExchange::orderbook_at, (ex, timestamp), r),
    ensures
        r.mid == ex.mid_price,
        r.timestamp == timestamp,
        r.bids@.len() == 10 && r.asks@.len() == 10,
        0 <= i < 10 ==> {
            &&& held(r.bids@[i].price, ex.mid_price - (i + 1) * 500_000_000)
            &&& held(r.asks@[i].price, ex.mid_price + (i + 1) * 500_000_000)
            &&& r.bids@[i].size == 50_000_000 + (i + 1) * 10_000_000
            &&& r.asks@[i].size == 50_000_000 + (i + 1) * 10_000_000
        },
{
}

/// A cancelled order rests no longer, and no other is touched.
pub proof fn cancelled_orders_are_gone(ex: &mut MockExchange, order_id: u128, other: u128)
    requires
        call_ensures(MockExchange::cancel, (ex, order_id), ()),
    ensures
        !final(ex).resting().dom().contains(order_id),
        other != order_id ==> (final(ex).resting().dom().contains(other) <==> old(ex).resting().dom().contains(other)) && final(ex).resting()[other] == old(ex).resting()[other],
        final(ex).mid_price == old(ex).mid_price,
{
}

/// An order that is placed is answered like any other, under an identifier of
/// its own.
pub proof fn placed_orders_rest_on_their_own_side(
    ex: &mut MockExchange,
    side: Side,
    price: i64,
    qty: i64,
    basket_id: u128,
    purpose: OrderPurpose,
    r: Order,
)
    requires
        call_ensures(
            MockExchange::place_maker_only,
            (ex, side, price, qty, basket_id, purpose),
            r,
        ),
    ensures
        r.basket_id == basket_id && r.side == side && r.purpose == purpose,
        r.price == price && r.qty == qty && r.filled_qty == 0,
        r.order_type == OrderType::LimitMaker,
        r.status == OrderStatus::Open || r.status == OrderStatus::Rejected,
        side == Side::Buy ==> (r.status == OrderStatus::Open <==> price < old(ex).mid_price),
        side == Side::Sell ==> (r.status == OrderStatus::Open <==> price > old(ex).mid_price),
        r.status == OrderStatus::Open ==> final(ex).resting() == old(ex).resting().insert(
            r.order_id,
            r,
        ),
        r.status == OrderStatus::Rejected ==> final(ex).resting() == old(ex).resting(),
        final(ex).mid_price == old(ex).mid_price,
{
}

/// A market order that is placed fills whole, and slips by one to five basis
/// points against the taker.
pub proof fn placed_market_orders_slip_a_little(
    ex: &MockExchange,
    side: Side,
    qty: i64,
    basket_id: u128,
    purpose: OrderPurpose,
    r: (Order, Fill),
)
    requires
        call_ensures(
            MockExchange::place_market_reduce_only,
            (ex, side, qty, basket_id, purpose),
            r,
        ),
    ensures
        ({
            let o = r.0;
            let f = r.1;
            &&& o.basket_id == basket_id && o.side == side && o.purpose == purpose
            &&& o.qty == qty && o.filled_qty == qty && o.status == OrderStatus::Filled
            &&& o.order_type == OrderType::MarketReduceOnly
            &&& f.order_id == o.order_id && f.basket_id == basket_id && f.side == side
            &&& f.purpose == purpose && f.qty == qty && f.price == o.price && f.fee == 0
            &&& exists|slip: int|
                {
                    &&& 100_000_000 <= slip < 500_000_000
                    &&& side == Side::Buy ==> #[trigger] rounds_to(
                        f.price,
                        ex.mid_price * (1_000_000_000_000 + slip),
                        1_000_000_000_000,
                    )
                    &&& side == Side::Sell ==> rounds_to(
                        f.price,
                        ex.mid_price * (1_000_000_000_000 - slip),
                        1_000_000_000_000,
                    )
                }
        }),
{
    let s = choose|slip_bps: i64|
        {
            &&& 100_000_000 <= slip_bps < 500_000_000
            &&& r.0.price == #[trigger] slipped(ex.mid_price, side, slip_bps)
        };
    let slip = s as int;
    lemma_rounds_to(ex.mid_price * (1_000_000_000_000 + slip), 1_000_000_000_000);
    lemma_rounds_to(ex.mid_price * (1_000_000_000_000 - slip), 1_000_000_000_000);
    assert(side == Side::Buy ==> rounds_to(
        r.1.price,
        ex.mid_price * (1_000_000_000_000 + slip),
        1_000_000_000_000,
    ));
}

/// A tick fills what the price has reached once it has moved.
pub proof fn ticks_fill_what_the_price_reached(
    ex: &mut MockExchange,
    r: Vec<Fill>,
    k: u128,
    i: int,
)
    requires
        call_ensures(MockExchange::tick, (ex,), r),
    ensures
        ({
            let before = old(ex).resting();
            let mid = final(ex).mid_price;
            &&& mid >= 100_000_000
            &&& final(ex).resting().dom().contains(k) <==> before.dom().contains(k) && !is_reached(
                before[k],
                mid,
            )
            &&& before.dom().contains(k) && is_reached(before[k], mid) ==> exists|n: int|
                0 <= n < r@.len() && (#[trigger] r@[n]).order_id == k
            &&& 0 <= i < r@.len() ==> {
                let f = r@[i];
                let o = before[f.order_id];
                &&& before.dom().contains(f.order_id)
                &&& is_reached(o, mid)
                &&& f.order_id == o.order_id && f.basket_id == o.basket_id
                &&& f.side == o.side && f.purpose == o.purpose
                &&& f.price == o.price && f.qty == o.qty && f.fee == 0
            }
        }),
{
    let before = old(ex).resting();
    let mid = final(ex).mid_price;
    let now_ms = choose|now_ms: i64| #[trigger] fills_crossed(r@, before, mid, now_ms);
    if before.dom().contains(k) {
        assert(crossed(before[k], mid) <==> is_reached(before[k], mid));
    }
    if 0 <= i < r@.len() {
        assert(r@[i] == fill_of(before[r@[i].order_id], r@[i].fill_id, now_ms));
    }
}

/// Every resting order is listed once, and none rests after all were cancelled
/// or before any was placed.
pub proof fn resting_orders_are_listed(
    ex: &MockExchange,
    r: Vec<Order>,
    k: u128,
    i: int,
    cleared: &mut MockExchange,
    price: i64,
    fresh: MockExchange,
)
    requires
        call_ensures(MockExchange::open_orders, (ex,), r),
        call_ensures(MockExchange::cancel_all, (cleared,), ()),
        call_ensures(MockExchange::new, (price,), fresh),
    ensures
        r@.len() == ex.resting().dom().len(),
        ex.resting().dom().contains(k) ==> r@.contains(ex.resting()[k]),
        0 <= i < r@.len() ==> exists|j: u128| #[trigger]
            ex.resting().dom().contains(j) && ex.resting()[j] == r@[i],
        !final(cleared).resting().dom().contains(k),
        !fresh.resting().dom().contains(k),
        fresh.mid_price == price,
        final(cleared).mid_price == old(cleared).mid_price,
{
    lemma_lists_values(r@, ex.resting(), k, i);
}

/// The price moves at random, by less than two hundred and fifteen, and never
/// below one.
pub proof fn prices_move_a_little(ex: &mut MockExchange)
    requires
        call_ensures(MockExchange::advance_price, (ex,), ()),
    ensures
        final(ex).mid_price >= 100_000_000,
        final(ex).mid_price > 100_000_000 ==> final(ex).mid_price - old(ex).mid_price
            < 21_500_000_000,
        old(ex).mid_price - final(ex).mid_price <= 21_500_000_000,
        final(ex).resting() == old(ex).resting(),
{
}

} // verus!
