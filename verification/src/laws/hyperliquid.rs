//! Laws of the Hyperliquid connection.
use vstd::prelude::*;

use crate::exchanges::deribit::{bare, OrderRequest};
use crate::exchanges::hyperliquid::{
    book_after, latest, market_limit, matched_fills, unnamed, HyperliquidClient, OrderAnswer,
    VenueFill,
};
use crate::laws::amounts::{lemma_rounds_to, rounds_to};
use crate::laws::words::{lemma_lists_values, lemma_readable};
use crate::lists::{lemma_filter_is, lemma_filter_step};
use crate::models::order::{
    Fill, Order, OrderBook, OrderBookLevel, OrderStatus, OrderType, Side,
};

verus! {

/// A fill of a report happened after the last poll and is of this order.
pub open spec fn is_late_fill(f: VenueFill, since: u64, oid: u64) -> bool {
    f.time > since && f.oid == oid
}

/// The reported fill at a place happened after the last poll, and is the first
/// such one of a tracked order.
pub open spec fn is_due(c: HyperliquidClient, fills: Seq<VenueFill>, i: int) -> bool {
    &&& fills[i].time > c.last_seen_fill
    &&& c.book().dom().contains(fills[i].oid)
    &&& forall|j: int|
        0 <= j < i ==> !is_late_fill(#[trigger] fills[j], c.last_seen_fill, fills[i].oid)
}

/// The places of the due fills among the first `n`.
pub open spec fn due(c: HyperliquidClient, fills: Seq<VenueFill>, n: nat) -> Seq<int> {
    Seq::new(n, |i: int| i).filter(|i: int| is_due(c, fills, i))
}

/// `f` is a reported fill of an order: the order's identity, side and purpose,
/// and the price and size that were told, or else the order's.
pub open spec fn is_fill_of(f: Fill, v: VenueFill, o: Order) -> bool {
    &&& f.order_id == o.order_id
    &&& f.basket_id == o.basket_id
    &&& f.side == o.side
    &&& f.purpose == o.purpose
    &&& v.px matches Some(p) ==> f.price == p
    &&& v.px is None ==> f.price == o.price
    &&& v.sz matches Some(q) ==> f.qty == q
    &&& v.sz is None ==> f.qty == o.qty
    &&& f.fee == 0
    &&& v.time <= i64::MAX ==> f.timestamp == v.time
}

/// Which orders are left after the first fills of a report.
proof fn lemma_book_after(book: Map<u64, Order>, since: u64, fills: Seq<VenueFill>, n: nat, oid: u64)
    requires
        n <= fills.len(),
    ensures
        ({
            let after = book_after(book, since, fills, n);
            &&& after.dom().contains(oid) <==> book.dom().contains(oid) && forall|j: int|
                0 <= j < n ==> !is_late_fill(#[trigger] fills[j], since, oid)
            &&& after.dom().contains(oid) ==> after[oid] == book[oid]
        }),
    decreases n,
{
    if n > 0 {
        lemma_book_after(book, since, fills, (n - 1) as nat, oid);
        let f = fills[n - 1];
        if f.time > since && f.oid == oid {
            assert(is_late_fill(fills[n - 1], since, oid));
        }
    }
}

/// What the first fills of a report bring.
proof fn lemma_matched(c: HyperliquidClient, fills: Seq<VenueFill>, n: nat)
    requires
        n <= fills.len(),
    ensures
        ({
            let made = matched_fills(c.book(), c.last_seen_fill, fills, n);
            let places = due(c, fills, n);
            &&& made.len() == places.len()
            &&& forall|m: int|
                0 <= m < made.len() ==> is_fill_of(
                    #[trigger] made[m],
                    fills[places[m]],
                    c.book()[fills[places[m]].oid],
                )
        }),
    decreases n,
{
    let made = matched_fills(c.book(), c.last_seen_fill, fills, n);
    let places = due(c, fills, n);
    let p = |i: int| is_due(c, fills, i);
    if n == 0 {
        reveal(Seq::filter);
    } else {
        let m = (n - 1) as nat;
        lemma_matched(c, fills, m);
        let all = Seq::new(n, |i: int| i);
        lemma_filter_step(all, p, m as int);
        assert(all.take(n as int) =~= all);
        assert(all.take(m as int) =~= Seq::new(m, |i: int| i));
        assert(places =~= all.filter(p));
        let places0 = due(c, fills, m);
        assert(places0 =~= Seq::new(m, |i: int| i).filter(p));
        let made0 = matched_fills(c.book(), c.last_seen_fill, fills, m);
        let f = fills[m as int];
        lemma_book_after(c.book(), c.last_seen_fill, fills, m, f.oid);
        if is_due(c, fills, m as int) {
            assert(p(m as int));
            assert(places == places0.push(m as int));
        } else {
            assert(!p(m as int));
            assert(places == places0);
        }
        assert forall|x: int| 0 <= x < made.len() implies is_fill_of(
            #[trigger] made[x],
            fills[places[x]],
            c.book()[fills[places[x]].oid],
        ) by {
            if x < made0.len() {
                assert(made[x] == made0[x]);
                assert(places[x] == places0[x]);
            }
        }
    }
}

/// How late the latest fill is.
proof fn lemma_latest(since: u64, fills: Seq<VenueFill>, n: nat)
    requires
        n <= fills.len(),
    ensures
        since <= latest(since, fills, n),
        forall|i: int| 0 <= i < n ==> (#[trigger] fills[i]).time <= latest(since, fills, n),
        latest(since, fills, n) == since || exists|i: int|
            0 <= i < n && (#[trigger] fills[i]).time == latest(since, fills, n),
    decreases n,
{
    if n > 0 {
        lemma_latest(since, fills, (n - 1) as nat);
        let before = latest(since, fills, (n - 1) as nat);
        if before != since && latest(since, fills, n) == before {
            let i = choose|i: int| 0 <= i < n - 1 && (#[trigger] fills[i]).time == before;
            assert(fills[i].time == latest(since, fills, n));
        }
        if fills[n - 1].time > before {
            assert(fills[n - 1].time == latest(since, fills, n));
        }
    }
}

/// Every first fill of a tracked order after the last poll is handed out, once
/// and in its turn, with the order's identity, basket, side and purpose; the
/// order is then done. The next poll starts at the latest fill.
pub proof fn late_fills_are_handed_out(
    c: &mut HyperliquidClient,
    fills: &Vec<VenueFill>,
    r: Vec<Fill>,
    n: int,
    oid: u64,
    i: int,
)
    requires
        call_ensures(HyperliquidClient::tick, (c, fills), r),
    ensures
        ({
            let places = due(*old(c), fills@, fills@.len());
            &&& r@.len() == places.len()
            &&& 0 <= n < r@.len() ==> is_fill_of(
                r@[n],
                fills@[places[n]],
                old(c).book()[fills@[places[n]].oid],
            )
        }),
        final(c).book().dom().contains(oid) <==> old(c).book().dom().contains(oid) && forall|j: int|
            0 <= j < fills@.len() ==> !is_late_fill(
                #[trigger] fills@[j],
                old(c).last_seen_fill,
                oid,
            ),
        final(c).book().dom().contains(oid) ==> final(c).book()[oid] == old(c).book()[oid],
        final(c).last_seen_fill >= old(c).last_seen_fill,
        0 <= i < fills@.len() ==> fills@[i].time <= final(c).last_seen_fill,
        final(c).last_seen_fill == old(c).last_seen_fill || exists|j: int|
            0 <= j < fills@.len() && (#[trigger] fills@[j]).time == final(c).last_seen_fill,
{
    lemma_matched(*old(c), fills@, fills@.len());
    lemma_book_after(old(c).book(), old(c).last_seen_fill, fills@, fills@.len(), oid);
    lemma_latest(old(c).last_seen_fill, fills@, fills@.len());
    let made = matched_fills(old(c).book(), old(c).last_seen_fill, fills@, fills@.len());
    let plain = r@.map_values(|f: Fill| unnamed(f));
    assert(plain == made);
    assert(plain.len() == r@.len());
    if 0 <= n < r@.len() {
        assert(plain[n] == unnamed(r@[n]));
        assert(made[n] == plain[n]);
    }
}

/// A fill of a tracked order after the last poll, the first of its order in the
/// report, is handed out with that order's identity, and every fill that is
/// handed out is of such a one.
pub proof fn each_due_fill_is_of_its_order(
    c: &mut HyperliquidClient,
    fills: &Vec<VenueFill>,
    r: Vec<Fill>,
    i: int,
    n: int,
)
    requires
        call_ensures(HyperliquidClient::tick, (c, fills), r),
    ensures
        0 <= i < fills@.len() && is_due(*old(c), fills@, i) ==> exists|m: int|
            0 <= m < r@.len() && is_fill_of(
                #[trigger] r@[m],
                fills@[i],
                old(c).book()[fills@[i].oid],
            ),
        0 <= n < r@.len() ==> exists|j: int|
            0 <= j < fills@.len() && #[trigger] is_due(*old(c), fills@, j) && is_fill_of(
                r@[n],
                fills@[j],
                old(c).book()[fills@[j].oid],
            ),
{
    let d = *old(c);
    let all = Seq::new(fills@.len(), |i: int| i);
    let p = |i: int| is_due(d, fills@, i);
    let places = due(d, fills@, fills@.len());
    assert(places =~= all.filter(p));
    lemma_filter_is(all, p);
    if 0 <= i < fills@.len() && is_due(d, fills@, i) {
        assert(all[i] == i);
        assert(all.contains(i));
        assert(p(i));
        assert(places.contains(i));
        let m = choose|m: int| 0 <= m < places.len() && places[m] == i;
        late_fills_are_handed_out(c, fills, r, m, 0, 0);
        assert(is_fill_of(r@[m], fills@[i], d.book()[fills@[i].oid]));
    }
    late_fills_are_handed_out(c, fills, r, n, 0, 0);
    if 0 <= n < r@.len() {
        assert(places.contains(places[n]));
        let j = places[n];
        assert(p(j));
        let y = choose|y: int| 0 <= y < all.len() && all[y] == j;
        assert(is_due(d, fills@, j));
    }
}

/// A maker-only order is the one that was asked for, with the status that the
/// answer stands for, and is tracked exactly while it rests.
pub proof fn placed_orders_are_as_asked(
    c: &mut HyperliquidClient,
    req: &OrderRequest,
    answer: OrderAnswer,
    r: Order,
    other: u64,
)
    requires
        call_ensures(HyperliquidClient::place_maker_only, (c, req, answer), r),
    ensures
        r.basket_id == req.basket_id && r.side == req.side && r.purpose == req.purpose,
        r.price == req.price && r.qty == req.qty && r.filled_qty == 0,
        r.order_type == OrderType::LimitMaker,
        r.status == OrderStatus::Open <==> answer is Resting,
        r.status == OrderStatus::Filled <==> answer is Filled,
        r.status == OrderStatus::Rejected <==> answer is Refused,
        r.status == OrderStatus::Pending <==> answer is Unclear,
        answer matches OrderAnswer::Resting { oid } ==> final(c).book().dom().contains(oid)
            && final(c).book()[oid] == r,
        !(answer matches OrderAnswer::Resting { oid } && oid == other) ==> (
        final(c).book().dom().contains(other) <==> old(c).book().dom().contains(other))
            && final(c).book()[other] == old(c).book()[other],
        final(c).last_seen_fill == old(c).last_seen_fill,
{
}

/// An order that was to fill at once has filled as far as the answer says, and
/// the fill is of that order. An answer that is no fill fills nothing.
pub proof fn market_orders_fill_as_told(
    c: &HyperliquidClient,
    req: &OrderRequest,
    answer: OrderAnswer,
    r: (Order, Fill),
)
    requires
        call_ensures(HyperliquidClient::place_market_reduce_only, (c, req, answer), r),
    ensures
        ({
            let o = r.0;
            let f = r.1;
            &&& o.basket_id == req.basket_id && o.side == req.side && o.purpose == req.purpose
            &&& o.order_type == OrderType::MarketReduceOnly && o.status == OrderStatus::Filled
            &&& o.qty == req.qty
            &&& f.order_id == o.order_id && f.basket_id == req.basket_id
            &&& f.side == req.side && f.purpose == req.purpose && f.fee == 0
            &&& f.price == o.price && f.qty == o.filled_qty
            &&& answer matches OrderAnswer::Filled { avg_px, total_sz } ==> {
                &&& avg_px matches Some(p) ==> f.price == p
                &&& avg_px is None ==> f.price == req.price
                &&& total_sz matches Some(q) ==> f.qty == q
                &&& total_sz is None ==> f.qty == req.qty
            }
            &&& answer !is Filled ==> f.qty == 0 && f.price == req.price
        }),
{
    assert(bare(r.1).order_id == r.1.order_id);
}

/// An order that is to fill at once may go as far as the worst level in sight
/// on the side that it trades against: asks for a buy, bids for a sell. Without
/// one it may go a hundredth past mid.
pub proof fn market_limits_reach_the_worst_level(book: &OrderBook, side: Side, r: i64)
    requires
        call_ensures(market_limit, (book, side), r),
    ensures
        side == Side::Buy && book.asks@.len() > 0 ==> r == book.asks@[book.asks@.len() - 1].price,
        side == Side::Buy && book.asks@.len() == 0 ==> rounds_to(r, book.mid * 101, 100),
        side == Side::Sell && book.bids@.len() > 0 ==> r == book.bids@[book.bids@.len() - 1].price,
        side == Side::Sell && book.bids@.len() == 0 ==> rounds_to(r, book.mid * 99, 100),
{
    lemma_rounds_to(book.mid * 101, 100);
    lemma_rounds_to(book.mid * 99, 100);
}

/// A cancelled order is forgotten, and no other.
pub proof fn cancelled_orders_are_forgotten(c: &mut HyperliquidClient, oid: u64, other: u64)
    requires
        call_ensures(HyperliquidClient::cancel, (c, oid), ()),
    ensures
        !final(c).book().dom().contains(oid),
        other != oid ==> (final(c).book().dom().contains(other) <==> old(c).book().dom().contains(
            other,
        )) && final(c).book()[other] == old(c).book()[other],
{
}

/// An order is found exactly when it is tracked; all tracked orders and their
/// names at the venue are listed, each once; none is tracked after all were
/// cancelled, or at first, when fills from the given time on count.
pub proof fn tracked_orders_are_found_and_listed(
    c: &HyperliquidClient,
    order_id: u128,
    found: Option<u64>,
    oids: Vec<u64>,
    all: Vec<Order>,
    oid: u64,
    i: int,
    cleared: &mut HyperliquidClient,
    coin: String,
    now_ms: u64,
    fresh: HyperliquidClient,
)
    requires
        call_ensures(HyperliquidClient::find_order, (c, order_id), found),
        call_ensures(HyperliquidClient::tracked_oids, (c,), oids),
        call_ensures(HyperliquidClient::open_orders, (c,), all),
        call_ensures(HyperliquidClient::cancel_all, (cleared,), ()),
        call_ensures(HyperliquidClient::since, (coin, now_ms), fresh),
    ensures
        found matches Some(k) ==> c.book().dom().contains(k) && c.book()[k].order_id == order_id,
        c.book().dom().contains(oid) && c.book()[oid].order_id == order_id ==> found is Some,
        oids@.contains(oid) <==> c.book().dom().contains(oid),
        oids@.no_duplicates(),
        all@.len() == c.book().dom().len(),
        c.book().dom().contains(oid) ==> all@.contains(c.book()[oid]),
        0 <= i < all@.len() ==> exists|k: u64| #[trigger]
            c.book().dom().contains(k) && c.book()[k] == all@[i],
        !final(cleared).book().dom().contains(oid),
        final(cleared).last_seen_fill == old(cleared).last_seen_fill,
        !fresh.book().dom().contains(oid),
        fresh.last_seen_fill == now_ms,
        fresh.coin@ == coin@,
{
    lemma_lists_values(all@, c.book(), oid, i);
    assert(oids@.to_set().contains(oid) <==> c.book().dom().contains(oid));
}

/// A book keeps the readable ones among the first ten levels of a side; its mid
/// is half way between the best, or zero where a side is empty.
pub proof fn books_keep_ten_levels(
    c: &HyperliquidClient,
    bids: &Vec<Option<OrderBookLevel>>,
    asks: &Vec<Option<OrderBookLevel>>,
    r: OrderBook,
)
    requires
        call_ensures(HyperliquidClient::orderbook, (c, bids, asks), r),
    ensures
        r.bids@ == first_ten(bids@).filter(|l: Option<OrderBookLevel>| l is Some).map_values(
            |l: Option<OrderBookLevel>| l->0,
        ),
        r.asks@ == first_ten(asks@).filter(|l: Option<OrderBookLevel>| l is Some).map_values(
            |l: Option<OrderBookLevel>| l->0,
        ),
        r.bids@.len() > 0 && r.asks@.len() > 0 ==> rounds_to(
            r.mid,
            r.bids@[0].price + r.asks@[0].price,
            2,
        ),
        r.bids@.len() == 0 || r.asks@.len() == 0 ==> r.mid == 0,
{
    lemma_readable(first_ten(bids@));
    lemma_readable(first_ten(asks@));
    assert(first_ten(bids@) =~= crate::exchanges::hyperliquid::top(bids@));
    assert(first_ten(asks@) =~= crate::exchanges::hyperliquid::top(asks@));
    if r.bids@.len() > 0 && r.asks@.len() > 0 {
        lemma_rounds_to(r.bids@[0].price + r.asks@[0].price, 2);
    }
}

/// The first ten levels of a side, or all of them.
pub open spec fn first_ten(
    levels: Seq<Option<OrderBookLevel>>,
) -> Seq<Option<OrderBookLevel>> {
    levels.take(
        if levels.len() < 10 {
            levels.len() as int
        } else {
            10
        },
    )
}

} // verus!
