//! Laws of the Deribit connection.
use vstd::prelude::*;

use crate::amount::snap;
use crate::exchanges::deribit::{
    bare, bares, fallback_contract_size, instrument_spec, is_new, known, lists, marked, orphan_orders, placement_fills, polled_fills,
    polled_orphans, trade_fill, AccessToken, DeribitClient, MarketReply, OrderReply,
    OrderRequest, ReplyError, TradeNews, TradeReport,
};
use crate::laws::amounts::{held, lemma_rounds_to, rounds_to};
use crate::laws::words::{lemma_lists_values, lemma_readable};
use crate::lists::lemma_filter_step;
use crate::models::order::{Fill, Order, OrderBook, OrderBookLevel, OrderStatus, OrderType};

verus! {

/// A report names a trade.
pub open spec fn names_trade(t: TradeReport, id: Seq<char>) -> bool {
    t.trade_id matches Some(x) && x@ == id
}

/// The trade at a place of a report has an identifier that was neither seen
/// before nor stands earlier in the report.
pub open spec fn is_fresh(seen: Map<Seq<char>, ()>, trades: Seq<TradeReport>, i: int) -> bool {
    trades[i].trade_id matches Some(id) && !seen.dom().contains(id@) && forall|j: int|
        0 <= j < i ==> !names_trade(#[trigger] trades[j], id@)
}

/// `o` is the order that a trade names: the one on the book, or else the one
/// that left it a short while ago.
pub open spec fn is_order_of(
    o: Order,
    book: Map<Seq<char>, Order>,
    grace: Map<Seq<char>, (Order, i64)>,
    t: TradeReport,
) -> bool {
    let id = match t.order_id {
        Some(s) => s@,
        None => Seq::<char>::empty(),
    };
    ||| book.dom().contains(id) && o == book[id]
    ||| !book.dom().contains(id) && grace.dom().contains(id) && o == grace[id].0
}

/// `f` is the fill of a trade of an order: the order's identity, side and
/// purpose, and the trade's price, amount and fee, as far as they were told.
pub open spec fn is_fill_of(f: Fill, t: TradeReport, o: Order) -> bool {
    &&& f.order_id == o.order_id
    &&& f.basket_id == o.basket_id
    &&& f.side == o.side
    &&& f.purpose == o.purpose
    &&& t.price matches Some(p) ==> f.price == p
    &&& t.price is None ==> f.price == o.price
    &&& t.amount matches Some(q) ==> f.qty == q
    &&& t.amount is None ==> f.qty == o.qty
    &&& is_fee_of(f.fee, t)
}

/// A fee is counted as a cost, whatever its sign, and is zero when not told.
pub open spec fn is_fee_of(fee: i64, t: TradeReport) -> bool {
    &&& t.fee is None ==> fee == 0
    &&& t.fee matches Some(x) ==> (x >= 0 ==> fee == x) && (x < 0 ==> held(fee, -x))
}

/// Which trades count as seen after a report.
proof fn lemma_marked(seen: Map<Seq<char>, ()>, trades: Seq<TradeReport>, id: Seq<char>)
    ensures
        marked(seen, trades).dom().contains(id) <==> seen.dom().contains(id) || exists|j: int|
            0 <= j < trades.len() && names_trade(#[trigger] trades[j], id),
    decreases trades.len(),
{
    if trades.len() > 0 {
        let front = trades.drop_last();
        lemma_marked(seen, front, id);
        if exists|j: int| 0 <= j < trades.len() && names_trade(#[trigger] trades[j], id) {
            let j = choose|j: int| 0 <= j < trades.len() && names_trade(#[trigger] trades[j], id);
            if j < front.len() {
                assert(names_trade(front[j], id));
            }
        }
        if exists|j: int| 0 <= j < front.len() && names_trade(#[trigger] front[j], id) {
            let j = choose|j: int| 0 <= j < front.len() && names_trade(#[trigger] front[j], id);
            assert(names_trade(trades[j], id));
        }
        if names_trade(trades.last(), id) {
            assert(names_trade(trades[trades.len() - 1], id));
        }
    }
}

/// What a new trade is.
proof fn lemma_fresh(seen: Map<Seq<char>, ()>, trades: Seq<TradeReport>, i: int)
    requires
        0 <= i < trades.len(),
    ensures
        is_new(seen, trades, i) <==> is_fresh(seen, trades, i),
{
    match trades[i].trade_id {
        Some(id) => {
            let before = trades.take(i);
            lemma_marked(seen, before, id@);
            if exists|j: int| 0 <= j < before.len() && names_trade(#[trigger] before[j], id@) {
                let j = choose|j: int|
                    0 <= j < before.len() && names_trade(#[trigger] before[j], id@);
                assert(names_trade(trades[j], id@));
            }
            if !is_fresh(seen, trades, i) && !seen.dom().contains(id@) {
                let j = choose|j: int| 0 <= j < i && names_trade(#[trigger] trades[j], id@);
                assert(names_trade(before[j], id@));
            }
        },
        None => {},
    }
}

/// `f` is the fill of a trade of the order that it names.
pub open spec fn comes_of(c: DeribitClient, t: TradeReport, f: Fill) -> bool {
    exists|o: Order|
        #[trigger] is_order_of(o, c.book(), c.grace(), t) && is_fill_of(f, t, o)
}

/// The places of the first `n` trades that are fresh and name an order, or
/// name none.
pub open spec fn hits(
    c: DeribitClient,
    trades: Seq<TradeReport>,
    n: nat,
    of_known: bool,
) -> Seq<int> {
    Seq::new(n, |i: int| i).filter(
        |i: int|
            is_fresh(c.seen(), trades, i) && of_known == exists|o: Order|
                is_order_of(o, c.book(), c.grace(), trades[i]),
    )
}

/// `news` is what a poll of trades brings: the n-th fill is of the n-th fresh
/// trade that names an order, and the n-th orphan is the place of the n-th
/// fresh trade that names none.
pub open spec fn is_news(
    c: DeribitClient,
    trades: Seq<TradeReport>,
    fills: Seq<Fill>,
    orphans: Seq<usize>,
) -> bool {
    let found = hits(c, trades, trades.len(), true);
    let lost = hits(c, trades, trades.len(), false);
    &&& fills.len() == found.len()
    &&& forall|n: int|
        0 <= n < fills.len() ==> comes_of(c, trades[found[n]], #[trigger] fills[n])
    &&& orphans.len() == lost.len()
    &&& forall|n: int| 0 <= n < orphans.len() ==> #[trigger] orphans[n] == lost[n]
}

/// What the first trades of a report bring.
proof fn lemma_news(c: DeribitClient, trades: Seq<TradeReport>, n: nat)
    requires
        n <= trades.len(),
        trades.len() <= usize::MAX,
    ensures
        ({
            let fills = polled_fills(c.seen(), c.book(), c.grace(), trades, n);
            let orphans = polled_orphans(c.seen(), c.book(), c.grace(), trades, n);
            let found = hits(c, trades, n, true);
            let lost = hits(c, trades, n, false);
            &&& fills.len() == found.len()
            &&& forall|m: int|
                0 <= m < fills.len() ==> comes_of(c, trades[found[m]], #[trigger] fills[m])
            &&& orphans.len() == lost.len()
            &&& forall|m: int| 0 <= m < orphans.len() ==> #[trigger] orphans[m] == lost[m]
        }),
    decreases n,
{
    let fills = polled_fills(c.seen(), c.book(), c.grace(), trades, n);
    let orphans = polled_orphans(c.seen(), c.book(), c.grace(), trades, n);
    let found = hits(c, trades, n, true);
    let lost = hits(c, trades, n, false);
    if n == 0 {
        reveal(Seq::filter);
    } else {
        let m = (n - 1) as nat;
        lemma_news(c, trades, m);
        lemma_fresh(c.seen(), trades, m as int);
        let all = Seq::new(n, |i: int| i);
        let p = |i: int|
            is_fresh(c.seen(), trades, i) && true == exists|o: Order|
                is_order_of(o, c.book(), c.grace(), trades[i]);
        let q = |i: int|
            is_fresh(c.seen(), trades, i) && false == exists|o: Order|
                is_order_of(o, c.book(), c.grace(), trades[i]);
        lemma_filter_step(all, p, m as int);
        lemma_filter_step(all, q, m as int);
        assert(all.take(n as int) =~= all);
        assert(all.take(m as int) =~= Seq::new(m, |i: int| i));
        assert((|i: int|
            is_fresh(c.seen(), trades, i) && true == exists|o: Order|
                is_order_of(o, c.book(), c.grace(), trades[i])) =~= p);
        assert(found =~= all.filter(p));
        assert(lost =~= all.filter(q));
        let found0 = hits(c, trades, m, true);
        let lost0 = hits(c, trades, m, false);
        assert(found0 =~= Seq::new(m, |i: int| i).filter(p));
        assert(lost0 =~= Seq::new(m, |i: int| i).filter(q));
        let fills0 = polled_fills(c.seen(), c.book(), c.grace(), trades, m);
        let orphans0 = polled_orphans(c.seen(), c.book(), c.grace(), trades, m);
        let t = trades[m as int];
        match known(c.book(), c.grace(), t) {
            Some(o) => {
                assert(is_order_of(o, c.book(), c.grace(), t));
                assert(is_fill_of(trade_fill(t, o), t, o));
                if is_new(c.seen(), trades, m as int) {
                    assert(p(m as int));
                    assert(!q(m as int));
                    assert(found == found0.push(m as int));
                    assert(fills == fills0.push(trade_fill(t, o)));
                } else {
                    assert(found == found0);
                }
                assert(lost == lost0);
            },
            None => {
                assert(forall|o: Order| !is_order_of(o, c.book(), c.grace(), t));
                assert(!p(m as int));
                assert(found == found0);
                if is_new(c.seen(), trades, m as int) {
                    assert(q(m as int));
                    assert(lost == lost0.push(m as int));
                    assert(orphans == orphans0.push(m as usize));
                } else {
                    assert(lost == lost0);
                }
            },
        }
        assert forall|x: int| 0 <= x < fills.len() implies comes_of(c, trades[found[x]], #[trigger] fills[x]) by {
            if x < fills0.len() {
                assert(fills[x] == fills0[x]);
                assert(found[x] == found0[x]);
                assert(comes_of(c, trades[found0[x]], fills0[x]));
            } else {
                let o = known(c.book(), c.grace(), t)->0;
                assert(is_order_of(o, c.book(), c.grace(), trades[found[x]]) && is_fill_of(
                    fills[x],
                    trades[found[x]],
                    o,
                ));
            }
        }
        assert forall|x: int| 0 <= x < orphans.len() implies #[trigger] orphans[x] == lost[x] by {
            if x < orphans0.len() {
                assert(orphans[x] == orphans0[x]);
                assert(lost[x] == lost0[x]);
            }
        }
    }
}

/// Fills with their identifiers and times.
proof fn lemma_named_news(
    c: DeribitClient,
    trades: Seq<TradeReport>,
    fills: Seq<Fill>,
    orphans: Seq<usize>,
)
    requires
        trades.len() <= usize::MAX,
        bares(fills) == polled_fills(c.seen(), c.book(), c.grace(), trades, trades.len()),
        orphans == polled_orphans(c.seen(), c.book(), c.grace(), trades, trades.len()),
    ensures
        is_news(c, trades, fills, orphans),
{
    lemma_news(c, trades, trades.len());
    let found = hits(c, trades, trades.len(), true);
    let plain = bares(fills);
    assert forall|n: int| 0 <= n < fills.len() implies comes_of(c, trades[found[n]], #[trigger] fills[n]) by {
        assert(plain[n] == bare(fills[n]));
        assert(comes_of(c, trades[found[n]], plain[n]));
        let o = choose|o: Order|
            #[trigger] is_order_of(o, c.book(), c.grace(), trades[found[n]]) && is_fill_of(
                plain[n],
                trades[found[n]],
                o,
            );
        assert(is_fill_of(fills[n], trades[found[n]], o));
    }
}

/// From the second report of trades on, every trade that was not seen before
/// and names an order on the book or shortly off it becomes a fill of that
/// order, once and in its turn, with the order's identity, basket, side and
/// purpose; one that names no such order is told as an orphan. Every trade of
/// the report then counts as seen. The first report brings no fill.
pub proof fn trades_become_fills_of_their_orders(
    c: &mut DeribitClient,
    trades: &Vec<TradeReport>,
    now_ms: i64,
    r: TradeNews,
    id: Seq<char>,
    i: int,
)
    requires
        call_ensures(DeribitClient::absorb_trades, (c, trades, now_ms), r),
    ensures
        old(c).first_tick_done ==> is_news(*old(c), trades@, r.fills@, r.orphans@),
        !old(c).first_tick_done ==> r.fills@.len() == 0 && r.orphans@.len() == 0,
        final(c).first_tick_done,
        final(c).seen().dom().contains(id) <==> old(c).seen().dom().contains(id) || exists|j: int|
            0 <= j < trades@.len() && names_trade(#[trigger] trades@[j], id),
        final(c).book() == old(c).book(),
        final(c).grace() == old(c).grace(),
        0 <= i < r.fills@.len() ==> r.fills@[i].timestamp == now_ms,
{
    assert(trades.len() == trades@.len());
    if old(c).first_tick_done {
        lemma_named_news(*old(c), trades@, r.fills@, r.orphans@);
    }
    lemma_marked(old(c).seen(), trades@, id);
}

/// For each new trade of a known order there is a fill of that order, and each
/// fill is of such a trade.
pub proof fn each_new_trade_of_a_known_order_is_handed_out(
    c: &mut DeribitClient,
    trades: &Vec<TradeReport>,
    now_ms: i64,
    r: TradeNews,
    i: int,
    o: Order,
    n: int,
)
    requires
        call_ensures(DeribitClient::absorb_trades, (c, trades, now_ms), r),
        old(c).first_tick_done,
    ensures
        0 <= i < trades@.len() && is_fresh(old(c).seen(), trades@, i) && is_order_of(
            o,
            old(c).book(),
            old(c).grace(),
            trades@[i],
        ) ==> exists|m: int|
            {
                &&& 0 <= m < r.fills@.len()
                &&& (#[trigger] r.fills@[m]).order_id == o.order_id
                &&& r.fills@[m].basket_id == o.basket_id
                &&& r.fills@[m].side == o.side
                &&& r.fills@[m].purpose == o.purpose
                &&& is_fill_of(r.fills@[m], trades@[i], o)
            },
        0 <= n < r.fills@.len() ==> exists|j: int, x: Order|
            {
                &&& 0 <= j < trades@.len()
                &&& #[trigger] is_fresh(old(c).seen(), trades@, j)
                &&& #[trigger] is_order_of(x, old(c).book(), old(c).grace(), trades@[j])
                &&& is_fill_of(r.fills@[n], trades@[j], x)
            },
{
    let d = *old(c);
    trades_become_fills_of_their_orders(c, trades, now_ms, r, Seq::empty(), 0);
    let all = Seq::new(trades@.len(), |i: int| i);
    let p = |i: int|
        is_fresh(d.seen(), trades@, i) && true == exists|o: Order|
            is_order_of(o, d.book(), d.grace(), trades@[i]);
    let found = hits(d, trades@, trades@.len(), true);
    assert(found =~= all.filter(p));
    crate::lists::lemma_filter_is(all, p);
    if 0 <= i < trades@.len() && is_fresh(d.seen(), trades@, i) && is_order_of(
        o,
        d.book(),
        d.grace(),
        trades@[i],
    ) {
        assert(all[i] == i);
        assert(all.contains(i));
        assert(p(i));
        assert(found.contains(i));
        let m = choose|m: int| 0 <= m < found.len() && found[m] == i;
        assert(comes_of(d, trades@[found[m]], r.fills@[m]));
        let x = choose|x: Order|
            #[trigger] is_order_of(x, d.book(), d.grace(), trades@[found[m]]) && is_fill_of(
                r.fills@[m],
                trades@[found[m]],
                x,
            );
        assert(x == o);
        assert(r.fills@[m].order_id == o.order_id);
    }
    if 0 <= n < r.fills@.len() {
        assert(found.contains(found[n]));
        let j = found[n];
        assert(p(j));
        let y = choose|y: int| 0 <= y < all.len() && all[y] == j;
        assert(comes_of(d, trades@[found[n]], r.fills@[n]));
        let x = choose|x: Order|
            #[trigger] is_order_of(x, d.book(), d.grace(), trades@[found[n]]) && is_fill_of(
                r.fills@[n],
                trades@[found[n]],
                x,
            );
        assert(is_fresh(d.seen(), trades@, j));
        assert(is_order_of(x, d.book(), d.grace(), trades@[j]));
    }
}

/// The same of the fills that a report makes: each new trade of a known order
/// makes one, with the order's identity, basket, side and purpose.
pub proof fn polled_fills_are_of_their_orders(
    c: DeribitClient,
    trades: Seq<TradeReport>,
    i: int,
    o: Order,
)
    requires
        trades.len() <= usize::MAX,
        0 <= i < trades.len(),
        is_fresh(c.seen(), trades, i),
        is_order_of(o, c.book(), c.grace(), trades[i]),
    ensures
        ({
            let made = polled_fills(c.seen(), c.book(), c.grace(), trades, trades.len());
            exists|m: int|
                #![trigger made[m]]
                {
                    &&& 0 <= m < made.len()
                    &&& made[m].order_id == o.order_id
                    &&& made[m].basket_id == o.basket_id
                    &&& made[m].side == o.side
                    &&& made[m].purpose == o.purpose
                    &&& is_fill_of(made[m], trades[i], o)
                }
        }),
{
    lemma_news(c, trades, trades.len());
    let made = polled_fills(c.seen(), c.book(), c.grace(), trades, trades.len());
    let all = Seq::new(trades.len(), |i: int| i);
    let p = |i: int|
        is_fresh(c.seen(), trades, i) && true == exists|o: Order|
            is_order_of(o, c.book(), c.grace(), trades[i]);
    let found = hits(c, trades, trades.len(), true);
    assert(found =~= all.filter(p));
    crate::lists::lemma_filter_is(all, p);
    assert(all[i] == i);
    assert(all.contains(i));
    assert(p(i));
    assert(found.contains(i));
    let m = choose|m: int| 0 <= m < found.len() && found[m] == i;
    assert(comes_of(c, trades[found[m]], made[m]));
    let x = choose|x: Order|
        #[trigger] is_order_of(x, c.book(), c.grace(), trades[found[m]]) && is_fill_of(
            made[m],
            trades[found[m]],
            x,
        );
    assert(x == o);
    assert(made[m].order_id == o.order_id);
}

/// A poll hands out the same fills as its report of trades, and none without
/// one; then it forgets the orders that left the book more than half a minute
/// ago, and no others.
pub proof fn a_poll_reads_trades_and_forgets_old_orders(
    c: &mut DeribitClient,
    trades: &Option<Vec<TradeReport>>,
    mono_ms: i64,
    r: TradeNews,
    id: Seq<char>,
    cutoff: i64,
)
    requires
        call_ensures(DeribitClient::tick, (c, trades, mono_ms), r),
        held(cutoff, mono_ms - 30_000),
    ensures
        match *trades {
            Some(ts) if old(c).first_tick_done => is_news(*old(c), ts@, r.fills@, r.orphans@),
            _ => r.fills@.len() == 0 && r.orphans@.len() == 0,
        },
        final(c).first_tick_done <==> old(c).first_tick_done || trades is Some,
        final(c).book() == old(c).book(),
        final(c).grace().dom().contains(id) <==> old(c).grace().dom().contains(id)
            && old(c).grace()[id].1 >= cutoff,
        final(c).grace().dom().contains(id) ==> final(c).grace()[id] == old(c).grace()[id],
        final(c).seen().dom().contains(id) <==> old(c).seen().dom().contains(id) || (
        *trades matches Some(ts) && exists|j: int|
            0 <= j < ts@.len() && names_trade(#[trigger] ts@[j], id)),
{
    match *trades {
        Some(ts) => {
            assert(ts.len() == ts@.len());
            if old(c).first_tick_done {
                lemma_named_news(*old(c), ts@, r.fills@, r.orphans@);
            }
            lemma_marked(old(c).seen(), ts@, id);
        },
        None => {},
    }
}

/// Orders that left the book are forgotten after half a minute, not before.
pub proof fn orders_are_known_for_half_a_minute(
    c: &mut DeribitClient,
    now_ms: i64,
    id: Seq<char>,
    cutoff: i64,
)
    requires
        call_ensures(DeribitClient::expire, (c, now_ms), ()),
        held(cutoff, now_ms - 30_000),
    ensures
        final(c).grace().dom().contains(id) <==> old(c).grace().dom().contains(id)
            && old(c).grace()[id].1 >= cutoff,
        final(c).grace().dom().contains(id) ==> final(c).grace()[id] == old(c).grace()[id],
        final(c).book() == old(c).book(),
        final(c).seen() == old(c).seen(),
{
}

/// The venue lists an order.
pub open spec fn is_listed_at(venue: Seq<Option<String>>, i: int, id: Seq<char>) -> bool {
    venue[i] matches Some(s) && s@ == id
}

/// The venue lists an order somewhere.
pub open spec fn is_listed(venue: Seq<Option<String>>, id: Seq<char>) -> bool {
    exists|i: int| 0 <= i < venue.len() && #[trigger] is_listed_at(venue, i, id)
}

/// Two ways to say that the venue lists an order.
proof fn lemma_listed(venue: Seq<Option<String>>, id: Seq<char>)
    ensures
        lists(venue, id) <==> is_listed(venue, id),
{
    if is_listed(venue, id) {
        let i = choose|i: int| 0 <= i < venue.len() && #[trigger] is_listed_at(venue, i, id);
        assert(venue[i] matches Some(s) && s@ == id);
    }
    if lists(venue, id) {
        let i = choose|i: int| 0 <= i < venue.len() && (#[trigger] venue[i] matches Some(s) && s@
            == id);
        assert(is_listed_at(venue, i, id));
    }
}

/// The place of an order that the venue lists and nothing is known of.
pub open spec fn is_stray(c: DeribitClient, venue: Seq<Option<String>>, i: int) -> bool {
    venue[i] matches Some(s) && !c.book().dom().contains(s@) && !c.grace().dom().contains(s@)
}

/// What the strays are.
proof fn lemma_strays(c: DeribitClient, venue: Seq<Option<String>>, n: nat, p: int)
    requires
        n <= venue.len() <= usize::MAX,
    ensures
        orphan_orders(c.book(), c.grace(), venue, n).contains(p as usize) && 0 <= p <= usize::MAX
            <==> 0 <= p < n && is_stray(c, venue, p),
    decreases n,
{
    if n > 0 {
        let before = orphan_orders(c.book(), c.grace(), venue, (n - 1) as nat);
        let after = orphan_orders(c.book(), c.grace(), venue, n);
        lemma_strays(c, venue, (n - 1) as nat, p);
        if before.contains(p as usize) {
            let i = choose|i: int| 0 <= i < before.len() && before[i] == p as usize;
            assert(after[i] == p as usize);
        }
        if after.contains(p as usize) && !before.contains(p as usize) {
            let i = choose|i: int| 0 <= i < after.len() && after[i] == p as usize;
            if i < before.len() {
                assert(before[i] == p as usize);
            }
        }
        if p == n - 1 && is_stray(c, venue, p) {
            assert(after.last() == p as usize);
        }
    }
}

/// What holding the tracked orders against the venue's list leaves.
pub open spec fn is_synced(
    a: DeribitClient,
    b: DeribitClient,
    venue: Seq<Option<String>>,
    now_ms: i64,
    id: Seq<char>,
) -> bool {
    let on_book = a.book().dom().contains(id);
    &&& b.book().dom().contains(id) <==> on_book && is_listed(venue, id)
    &&& b.book().dom().contains(id) ==> b.book()[id] == a.book()[id]
    &&& b.grace().dom().contains(id) <==> a.grace().dom().contains(id) || (on_book && !is_listed(
        venue,
        id,
    ))
    &&& on_book && !is_listed(venue, id) ==> b.grace()[id] == (a.book()[id], now_ms)
    &&& a.grace().dom().contains(id) && !(on_book && !is_listed(venue, id)) ==> b.grace()[id]
        == a.grace()[id]
}

/// A tracked order stays tracked while the venue lists it; once it does not,
/// the order leaves the book and is still known from then on. The listed orders
/// that nothing is known of are told, and only those.
pub proof fn orders_follow_the_venue(
    c: &mut DeribitClient,
    venue: &Vec<Option<String>>,
    now_ms: i64,
    r: Vec<usize>,
    id: Seq<char>,
    p: usize,
)
    requires
        call_ensures(DeribitClient::sync, (c, venue, now_ms), r),
    ensures
        is_synced(*old(c), *final(c), venue@, now_ms, id),
        r@.contains(p) <==> p < venue@.len() && is_stray(*old(c), venue@, p as int),
        final(c).seen() == old(c).seen(),
{
    assert(venue.len() == venue@.len());
    lemma_listed(venue@, id);
    lemma_strays(*old(c), venue@, venue@.len(), p as int);
}

/// The second half of a poll does the same where the venue answered, and
/// nothing to the orders where it did not. Marked trades are dropped only once
/// there are more than five thousand, and a thousand are then kept.
pub proof fn a_poll_ends_in_step_with_the_venue(
    c: &mut DeribitClient,
    venue: &Option<Vec<Option<String>>>,
    mono_ms: i64,
    r: Vec<usize>,
    id: Seq<char>,
)
    requires
        call_ensures(DeribitClient::reconcile, (c, venue, mono_ms), r),
    ensures
        *venue matches Some(v) ==> is_synced(*old(c), *final(c), v@, mono_ms, id),
        venue is None ==> final(c).book() == old(c).book() && final(c).grace() == old(c).grace()
            && r@.len() == 0,
        old(c).seen().dom().len() <= 5000 ==> final(c).seen() == old(c).seen(),
        old(c).seen().dom().len() > 5000 ==> final(c).seen().dom().len() == 1000,
        final(c).seen().dom().contains(id) ==> old(c).seen().dom().contains(id),
{
    match *venue {
        Some(v) => {
            lemma_listed(v@, id);
        },
        None => {},
    }
}

/// `f` is a fill of an order that was just sent, from a trade in the answer.
pub open spec fn is_placement_fill(
    f: Fill,
    t: TradeReport,
    order_id: u128,
    req: OrderRequest,
) -> bool {
    &&& f.order_id == order_id
    &&& f.basket_id == req.basket_id
    &&& f.side == req.side
    &&& f.purpose == req.purpose
    &&& t.price matches Some(p) ==> f.price == p
    &&& t.price is None ==> f.price == req.price
    &&& t.amount matches Some(q) && f.qty == q && q > 0
    &&& is_fee_of(f.fee, t)
}

/// The trades of an answer that have a size.
pub open spec fn sized(trades: Seq<TradeReport>) -> Seq<TradeReport> {
    trades.filter(|t: TradeReport| t.amount matches Some(q) && q > 0)
}

/// What the trades of an answer make.
proof fn lemma_placement(trades: Seq<TradeReport>, order_id: u128, req: OrderRequest)
    ensures
        ({
            let fills = placement_fills(trades, order_id, req);
            &&& fills.len() == sized(trades).len()
            &&& forall|n: int|
                0 <= n < fills.len() ==> is_placement_fill(
                    #[trigger] fills[n],
                    sized(trades)[n],
                    order_id,
                    req,
                )
        }),
    decreases trades.len(),
{
    reveal(Seq::filter);
    if trades.len() > 0 {
        lemma_placement(trades.drop_last(), order_id, req);
        let fills = placement_fills(trades, order_id, req);
        let before = placement_fills(trades.drop_last(), order_id, req);
        let s0 = sized(trades.drop_last());
        assert forall|n: int| 0 <= n < fills.len() implies is_placement_fill(
            #[trigger] fills[n],
            sized(trades)[n],
            order_id,
            req,
        ) by {
            if n < before.len() {
                assert(fills[n] == before[n]);
                assert(sized(trades)[n] == s0[n]);
            }
        }
    }
}

/// A maker-only order is the one that was asked for, under an identifier of its
/// own, with the status that the venue told. It is tracked exactly while it is
/// open. The trades in the answer are its fills, those without a size left out,
/// and count as seen. An answer without an identifier changes nothing.
pub proof fn placed_orders_are_as_asked(
    c: &mut DeribitClient,
    req: &OrderRequest,
    reply: &OrderReply,
    r: Result<(Order, Vec<Fill>), ReplyError>,
    id: Seq<char>,
)
    requires
        call_ensures(DeribitClient::place_maker_only, (c, req, reply), r),
    ensures
        r is Err <==> reply.order_id is None,
        r is Err ==> *final(c) == *old(c),
        r matches Ok(done) ==> {
            let o = done.0;
            let fills = done.1@;
            let open = match reply.state {
                None => true,
                Some(s) => s@ == "open"@,
            };
            &&& o.basket_id == req.basket_id
            &&& o.side == req.side
            &&& o.purpose == req.purpose
            &&& o.price == req.price
            &&& o.qty == req.qty
            &&& o.filled_qty == 0
            &&& o.order_type == OrderType::LimitMaker
            &&& o.status == OrderStatus::Open <==> open
            &&& reply.state matches Some(s) ==> {
                &&& s@ == "filled"@ ==> o.status == OrderStatus::Filled
                &&& s@ == "rejected"@ ==> o.status == OrderStatus::Rejected
                &&& s@ != "open"@ && s@ != "filled"@ && s@ != "rejected"@ ==> o.status
                    == OrderStatus::Pending
            }
            &&& open ==> final(c).book().dom().contains((reply.order_id->0)@)
                && final(c).book()[(reply.order_id->0)@] == o
            &&& !open || id != (reply.order_id->0)@ ==> (final(c).book().dom().contains(id)
                <==> old(c).book().dom().contains(id)) && final(c).book()[id] == old(c).book()[id]
            &&& fills.len() == sized(reply.trades@).len()
            &&& forall|n: int|
                0 <= n < fills.len() ==> is_placement_fill(
                    #[trigger] fills[n],
                    sized(reply.trades@)[n],
                    o.order_id,
                    *req,
                )
            &&& final(c).seen().dom().contains(id) <==> old(c).seen().dom().contains(id)
                || exists|j: int|
                0 <= j < reply.trades@.len() && names_trade(#[trigger] reply.trades@[j], id)
            &&& final(c).grace() == old(c).grace()
        },
{
    reveal_strlit("open");
    reveal_strlit("filled");
    reveal_strlit("rejected");
    lemma_marked(old(c).seen(), reply.trades@, id);
    match r {
        Ok(done) => {
            let o = done.0;
            let fills = done.1@;
            lemma_placement(reply.trades@, o.order_id, *req);
            let plain = placement_fills(reply.trades@, o.order_id, *req);
            assert(bares(fills).len() == fills.len());
            assert forall|n: int| 0 <= n < fills.len() implies is_placement_fill(
                #[trigger] fills[n],
                sized(reply.trades@)[n],
                o.order_id,
                *req,
            ) by {
                assert(bares(fills)[n] == bare(fills[n]));
                assert(is_placement_fill(
                    plain[n],
                    sized(reply.trades@)[n],
                    o.order_id,
                    *req,
                ));
            }
            if let Some(s) = reply.state {
                if s@ == "filled"@ {
                    assert("filled"@.len() != "open"@.len());
                }
                if s@ == "rejected"@ {
                    assert("rejected"@.len() != "open"@.len());
                    assert("rejected"@.len() != "filled"@.len());
                }
            }
        },
        Err(_) => {},
    }
}

/// A market order has filled as the venue told: at the price told, or zero, for
/// the amount told, or all of it. The fill is of that order.
pub proof fn market_orders_fill_as_told(
    c: &DeribitClient,
    req: &OrderRequest,
    reply: &MarketReply,
    r: (Order, Fill),
)
    requires
        call_ensures(DeribitClient::place_market_reduce_only, (c, req, reply), r),
    ensures
        ({
            let o = r.0;
            let f = r.1;
            &&& o.basket_id == req.basket_id && o.side == req.side && o.purpose == req.purpose
            &&& o.order_type == OrderType::MarketReduceOnly && o.status == OrderStatus::Filled
            &&& o.qty == req.qty
            &&& reply.average_price matches Some(p) ==> o.price == p
            &&& reply.average_price is None ==> o.price == 0
            &&& reply.filled_amount matches Some(q) ==> o.filled_qty == q
            &&& reply.filled_amount is None ==> o.filled_qty == req.qty
            &&& f.order_id == o.order_id && f.basket_id == req.basket_id
            &&& f.side == req.side && f.purpose == req.purpose
            &&& f.price == o.price && f.qty == o.filled_qty && f.fee == 0
        }),
{
    assert(bare(r.1).order_id == r.1.order_id);
}

/// An accepted cancellation takes the order off the book and keeps it known
/// from then on; a refused one changes nothing.
pub proof fn cancelled_orders_stay_known(
    c: &mut DeribitClient,
    venue_id: String,
    order: Order,
    accepted: bool,
    now_ms: i64,
    id: Seq<char>,
)
    requires
        call_ensures(DeribitClient::cancel, (c, venue_id, order, accepted, now_ms), ()),
    ensures
        !accepted ==> *final(c) == *old(c),
        accepted ==> !final(c).book().dom().contains(venue_id@),
        accepted ==> final(c).grace().dom().contains(venue_id@) && final(c).grace()[venue_id@] == (
            order,
            now_ms,
        ),
        id != venue_id@ ==> (final(c).book().dom().contains(id) <==> old(c).book().dom().contains(
            id,
        )) && final(c).book()[id] == old(c).book()[id],
        final(c).seen() == old(c).seen(),
{
}

/// An order is sent with the nearest whole number of contracts, but at least
/// one, and at least the minimum.
pub proof fn sizes_are_whole_contracts(c: &DeribitClient, qty: i64, r: i64)
    requires
        call_ensures(DeribitClient::snap_qty, (c, qty), r),
        c.contract_size > 0,
        c.min_trade_amount as int % c.contract_size as int == 0,
        0 <= qty <= i64::MAX - c.contract_size,
    ensures
        r as int % c.contract_size as int == 0,
        r >= c.contract_size,
        r >= c.min_trade_amount,
        r > c.contract_size && r > c.min_trade_amount ==> -c.contract_size <= 2 * (r - qty)
            <= c.contract_size,
        qty as int % c.contract_size as int == 0 && qty >= c.contract_size && qty
            >= c.min_trade_amount ==> r == qty,
{
    let d = c.contract_size as int;
    crate::laws::amounts::quotients_are_nearest(qty as int, d);
    let q = crate::amount::round_div(qty as int, d);
    assert((q * d) % d == 0) by (nonlinear_arith)
        requires
            d > 0,
    ;
    assert(d % d == 0) by (nonlinear_arith)
        requires
            d > 0,
    ;
    if qty as int % d == 0 {
        let k = qty as int / d;
        assert(qty == k * d) by (nonlinear_arith)
            requires
                d > 0,
                k == qty as int / d,
                qty as int % d == 0,
        ;
        assert(q == k) by (nonlinear_arith)
            requires
                2 * (k * d) - d <= 2 * (q * d) <= 2 * (k * d) + d,
                2 * (k * d) - d < 2 * (q * d),
                d > 0,
        ;
    }
}

/// A token is good until half a minute before the venue lets it expire, which
/// is after fifteen minutes when it does not say.
pub proof fn tokens_last_until_shortly_before_expiry(
    token: String,
    expires_in_secs: Option<u64>,
    now_ms: u64,
    r: AccessToken,
    at_ms: u64,
    usable: bool,
)
    requires
        call_ensures(AccessToken::granted, (token, expires_in_secs, now_ms), r),
        call_ensures(AccessToken::usable, (&r, at_ms), usable),
    ensures
        r.token == token,
        ({
            let secs = match expires_in_secs {
                Some(s) => s as int,
                None => 900,
            };
            &&& secs >= 30 && now_ms + (secs - 30) * 1000 <= u64::MAX ==> (usable <==> at_ms
                - now_ms < (secs - 30) * 1000)
            &&& secs >= 30 && now_ms + (secs - 30) * 1000 > u64::MAX ==> (usable <==> at_ms
                < u64::MAX)
            &&& secs < 30 ==> (usable <==> at_ms < now_ms)
        }),
{
}

/// An order is found under its identifier, with the name that the venue has for
/// it, exactly when it is tracked. All tracked orders are listed, and none is
/// tracked after all were cancelled.
pub proof fn tracked_orders_are_found_and_listed(
    c: &DeribitClient,
    order_id: u128,
    found: Option<(String, Order)>,
    all: Vec<Order>,
    id: Seq<char>,
    i: int,
    cleared: &mut DeribitClient,
)
    requires
        call_ensures(DeribitClient::find_order, (c, order_id), found),
        call_ensures(DeribitClient::open_orders, (c,), all),
        call_ensures(DeribitClient::cancel_all, (cleared,), ()),
    ensures
        found matches Some(e) ==> c.book().dom().contains(e.0@) && c.book()[e.0@] == e.1
            && e.1.order_id == order_id,
        c.book().dom().contains(id) && c.book()[id].order_id == order_id ==> found is Some,
        all@.len() == c.book().dom().len(),
        c.book().dom().contains(id) ==> all@.contains(c.book()[id]),
        0 <= i < all@.len() ==> exists|k: Seq<char>| #[trigger]
            c.book().dom().contains(k) && c.book()[k] == all@[i],
        !final(cleared).book().dom().contains(id),
        final(cleared).grace() == old(cleared).grace(),
        final(cleared).seen() == old(cleared).seen(),
{
    lemma_lists_values(all@, c.book(), id, i);
}

/// A new client has the sizes that the venue told, or ten for bitcoin and one
/// for anything else, and knows of nothing.
pub proof fn new_clients_know_nothing(
    instrument: String,
    spec: Option<(i64, i64)>,
    c: DeribitClient,
    contract_size: Option<i64>,
    min_trade_amount: Option<i64>,
    told: Option<(i64, i64)>,
    name: &str,
    size: i64,
    bitcoin: bool,
)
    requires
        call_ensures(DeribitClient::new, (instrument, spec), c),
        call_ensures(instrument_spec, (contract_size, min_trade_amount), told),
        call_ensures(fallback_contract_size, (name,), size),
        call_ensures(crate::text::upper_begins_with, (name, "BTC-"), bitcoin),
    ensures
        c.instrument@ == instrument@,
        spec matches Some(s) ==> c.contract_size == s.0 && c.min_trade_amount == s.1,
        spec is None ==> c.min_trade_amount == c.contract_size,
        spec is None && name@ == instrument@ ==> c.contract_size == size,
        !c.first_tick_done,
        c.book().dom() == Set::<Seq<char>>::empty(),
        c.grace().dom() == Set::<Seq<char>>::empty(),
        c.seen().dom() == Set::<Seq<char>>::empty(),
        told is Some <==> contract_size is Some,
        told matches Some(t) ==> t.0 == contract_size->0 && t.1 == match min_trade_amount {
            Some(m) => m,
            None => contract_size->0,
        },
        bitcoin ==> size == 1_000_000_000,
        !bitcoin ==> size == 100_000_000,
{
}

/// A book keeps the readable levels; its mid is half way between the best, or
/// the index price where a side is empty, or zero.
pub proof fn books_fall_back_on_the_index(
    c: &DeribitClient,
    bids: &Vec<Option<OrderBookLevel>>,
    asks: &Vec<Option<OrderBookLevel>>,
    index_price: Option<i64>,
    r: OrderBook,
)
    requires
        call_ensures(DeribitClient::orderbook, (c, bids, asks, index_price), r),
    ensures
        r.bids@ == bids@.filter(|l: Option<OrderBookLevel>| l is Some).map_values(
            |l: Option<OrderBookLevel>| l->0,
        ),
        r.asks@ == asks@.filter(|l: Option<OrderBookLevel>| l is Some).map_values(
            |l: Option<OrderBookLevel>| l->0,
        ),
        r.bids@.len() > 0 && r.asks@.len() > 0 ==> rounds_to(
            r.mid,
            r.bids@[0].price + r.asks@[0].price,
            2,
        ),
        r.bids@.len() == 0 || r.asks@.len() == 0 ==> r.mid == match index_price {
            Some(p) => p,
            None => 0,
        },
{
    lemma_readable(bids@);
    lemma_readable(asks@);
    if r.bids@.len() > 0 && r.asks@.len() > 0 {
        lemma_rounds_to(r.bids@[0].price + r.asks@[0].price, 2);
    }
}

/// Marked trades are dropped only past five thousand, down to a thousand, and
/// none is made up.
pub proof fn few_marks_are_all_kept(c: &mut DeribitClient, id: Seq<char>)
    requires
        call_ensures(DeribitClient::trim_processed, (c,), ()),
    ensures
        old(c).seen().dom().len() <= 5000 ==> final(c).seen() == old(c).seen(),
        old(c).seen().dom().len() > 5000 ==> final(c).seen().dom().len() == 1000,
        final(c).seen().dom().contains(id) ==> old(c).seen().dom().contains(id),
        final(c).book() == old(c).book(),
        final(c).grace() == old(c).grace(),
{
}

/// An order is sent with the nearest multiple of the contract size, one where
/// that is no good, or the minimum, or one contract, whichever is largest.
pub proof fn sizes_are_the_largest_of_three(
    c: &DeribitClient,
    qty: i64,
    r: i64,
    contract: i64,
    nearest: i64,
)
    requires
        call_ensures(DeribitClient::snap_qty, (c, qty), r),
        contract == if c.contract_size > 0 {
            c.contract_size
        } else {
            100_000_000
        },
        call_ensures(snap, (qty, contract), nearest),
    ensures
        r >= nearest && r >= contract && r >= c.min_trade_amount,
        r == nearest || r == contract || r == c.min_trade_amount,
{
}

} // verus!
