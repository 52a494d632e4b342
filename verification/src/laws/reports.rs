//! Laws of summaries.
use vstd::prelude::*;

use crate::api::summary::{
    account_names, any_event, coin_key, covered, last_token, of_agent, of_exchange, of_token,
    pair_precedes, row_names, selected, shows_agent, shows_coin, summary_at, tally_of,
    tally_together, within, AgentRow, Field, Figures, HistoryEvent, Report, SummaryQuery, Tally,
    Window,
};
use crate::laws::amounts::{held, lemma_rounds_to, rounds_to};
use crate::laws::words::{comes_before, lemma_precedes};
use crate::lists::lemma_filter_is;
use crate::names::texts;
use crate::text::{precedes, same_letters};

verus! {

/// A window reaches back so many hours, a day when nothing is said and an hour
/// at least, unless its start is given; it ends now unless its end is given.
pub proof fn windows_are_as_asked(q: &SummaryQuery, now_ms: i64, r: Window)
    requires
        call_ensures(Window::of, (q, now_ms), r),
    ensures
        r.now_ms == now_ms,
        q.until_ms matches Some(t) ==> r.until_ms == t,
        q.until_ms is None ==> r.until_ms == now_ms,
        q.since_ms matches Some(t) ==> r.since_ms == t,
        q.since_ms is None && q.hours is None ==> held(r.since_ms, now_ms - 24 * 3_600_000),
        q.since_ms is None && q.hours == Some(0u64) ==> held(r.since_ms, now_ms - 3_600_000),
        q.since_ms is None && (q.hours matches Some(h) && h > 0) ==> held(
            r.since_ms,
            now_ms - q.hours->0 * 3_600_000,
        ),
{
}

/// Both ends of a window are inside it.
pub proof fn windows_hold_their_ends(
    events: &Vec<HistoryEvent>,
    w: &Window,
    r: Vec<HistoryEvent>,
    ev: HistoryEvent,
)
    requires
        call_ensures(within, (events, w), r),
    ensures
        r@.contains(ev) <==> events@.contains(ev) && w.since_ms <= ev.ts && ev.ts <= w.until_ms,
{
    lemma_filter_is(events@, covered(*w));
}

/// A round trip counts once: its gross result, volume and quantity, its fee as
/// a cost or, when negative, as a rebate, and its quantity at the price of each
/// leg that has one. The buy leg is the entry where the entry was a buy, else
/// the exit. A basket hit counts on its own, and nothing else counts.
pub proof fn events_count_for_what_they_are(t: &mut Tally, ev: &HistoryEvent)
    requires
        call_ensures(Tally::take_in, (t, ev), ()),
    ensures
        ({
            let a = *old(t);
            let b = *final(t);
            let trip = ev.kind@ == "rtp"@ || ev.kind@ == "sl_rtp"@;
            let hit = ev.kind@ == "basket_hit"@;
            let long = same_letters(ev.entry_side@, "BUY"@);
            let bought = if long {
                ev.entry_price
            } else {
                ev.exit_price
            };
            let sold = if long {
                ev.exit_price
            } else {
                ev.entry_price
            };
            &&& trip ==> {
                &&& b.rtp_count == a.rtp_count.wrapping_add(1)
                &&& held(b.gross_pnl, a.gross_pnl + ev.gross_pnl)
                &&& ev.fees >= 0 ==> held(b.fees, a.fees + ev.fees) && b.rebates == a.rebates
                &&& ev.fees < 0 ==> held(b.rebates, a.rebates - ev.fees) && b.fees == a.fees
                &&& held(b.volume, a.volume + ev.volume)
                &&& held(b.qty, a.qty + ev.qty)
                &&& bought > 0 ==> held(b.buy_qty_sum, a.buy_qty_sum + ev.qty) && b.buys
                    == a.buys.wrapping_add(1)
                &&& bought > 0 && i128::MIN <= a.buy_pq_sum + bought * ev.qty <= i128::MAX
                    ==> b.buy_pq_sum == a.buy_pq_sum + bought * ev.qty
                &&& bought <= 0 ==> b.buy_qty_sum == a.buy_qty_sum && b.buys == a.buys
                    && b.buy_pq_sum == a.buy_pq_sum
                &&& sold > 0 ==> held(b.sell_qty_sum, a.sell_qty_sum + ev.qty) && b.sells
                    == a.sells.wrapping_add(1)
                &&& sold > 0 && i128::MIN <= a.sell_pq_sum + sold * ev.qty <= i128::MAX
                    ==> b.sell_pq_sum == a.sell_pq_sum + sold * ev.qty
                &&& sold <= 0 ==> b.sell_qty_sum == a.sell_qty_sum && b.sells == a.sells
                    && b.sell_pq_sum == a.sell_pq_sum
                &&& b.basket_hits == a.basket_hits && b.basket_hit_pnl == a.basket_hit_pnl
            }
            &&& !trip && hit ==> {
                &&& held(b.basket_hit_pnl, a.basket_hit_pnl + ev.gross_pnl)
                &&& b == (Tally {
                    basket_hits: a.basket_hits.wrapping_add(1),
                    basket_hit_pnl: b.basket_hit_pnl,
                    ..a
                })
            }
            &&& !trip && !hit ==> b == a
        }),
{
}

/// Two tallies together are the sums of both.
pub proof fn tallies_add_up(t: &mut Tally, other: &Tally)
    requires
        call_ensures(Tally::add_tally, (t, other), ()),
    ensures
        ({
            let a = *old(t);
            let b = *final(t);
            &&& b.rtp_count == a.rtp_count.wrapping_add(other.rtp_count)
            &&& b.basket_hits == a.basket_hits.wrapping_add(other.basket_hits)
            &&& b.buys == a.buys.wrapping_add(other.buys)
            &&& b.sells == a.sells.wrapping_add(other.sells)
            &&& held(b.gross_pnl, a.gross_pnl + other.gross_pnl)
            &&& held(b.fees, a.fees + other.fees)
            &&& held(b.rebates, a.rebates + other.rebates)
            &&& held(b.volume, a.volume + other.volume)
            &&& held(b.qty, a.qty + other.qty)
            &&& held(b.basket_hit_pnl, a.basket_hit_pnl + other.basket_hit_pnl)
            &&& held(b.buy_qty_sum, a.buy_qty_sum + other.buy_qty_sum)
            &&& held(b.sell_qty_sum, a.sell_qty_sum + other.sell_qty_sum)
            &&& i128::MIN <= a.buy_pq_sum + other.buy_pq_sum <= i128::MAX ==> b.buy_pq_sum
                == a.buy_pq_sum + other.buy_pq_sum
            &&& i128::MIN <= a.sell_pq_sum + other.sell_pq_sum <= i128::MAX ==> b.sell_pq_sum
                == a.sell_pq_sum + other.sell_pq_sum
        }),
{
}

/// `f` shows a tally over a time: what was counted, the net result after fees,
/// rebates and basket hits, mean prices, and rates per hour.
pub open spec fn shows(f: Figures, t: Tally, elapsed_ms: i64) -> bool {
    &&& f.rtps == t.rtp_count && f.buys == t.buys && f.sells == t.sells
    &&& f.gross_pnl == t.gross_pnl && f.fees == t.fees && f.rebates == t.rebates
    &&& f.volume == t.volume
    &&& f.basket_hits == t.basket_hits && f.basket_hit_pnl == t.basket_hit_pnl
    &&& held(f.net_pnl, t.gross_pnl - t.fees + t.rebates + t.basket_hit_pnl)
    &&& t.buy_qty_sum > 0 ==> rounds_to(f.buy_vwap, t.buy_pq_sum as int, t.buy_qty_sum as int)
    &&& t.buy_qty_sum <= 0 ==> f.buy_vwap == 0
    &&& t.sell_qty_sum > 0 ==> rounds_to(f.sell_vwap, t.sell_pq_sum as int, t.sell_qty_sum as int)
    &&& t.sell_qty_sum <= 0 ==> f.sell_vwap == 0
    &&& t.rtp_count > 0 ==> rounds_to(f.pnl_per_rtp, f.net_pnl as int, t.rtp_count as int)
    &&& t.rtp_count == 0 ==> f.pnl_per_rtp == 0
    &&& rounds_to(f.rtp_per_hr, t.rtp_count * 100_000_000 * 3_600_000, elapsed_ms as int)
    &&& rounds_to(f.vol_per_hr, t.volume * 3_600_000, elapsed_ms as int)
}

/// What the figures of a tally are.
proof fn lemma_shows(t: Tally, elapsed_ms: i64)
    requires
        elapsed_ms > 0,
    ensures
        shows(t.figures(elapsed_ms), t, elapsed_ms),
{
    if t.buy_qty_sum > 0 {
        lemma_rounds_to(t.buy_pq_sum as int, t.buy_qty_sum as int);
    }
    if t.sell_qty_sum > 0 {
        lemma_rounds_to(t.sell_pq_sum as int, t.sell_qty_sum as int);
    }
    if t.rtp_count > 0 {
        lemma_rounds_to(t.net() as int, t.rtp_count as int);
    }
    lemma_rounds_to(t.rtp_count * 100_000_000 * 3_600_000, elapsed_ms as int);
    lemma_rounds_to(t.volume * 3_600_000, elapsed_ms as int);
}

/// A tally is shown as it was counted.
pub proof fn figures_show_the_tally(t: &Tally, elapsed_ms: i64, r: Figures, net: i64)
    requires
        elapsed_ms > 0,
        call_ensures(Tally::show, (t, elapsed_ms), r),
        call_ensures(Tally::net_pnl, (t,), net),
    ensures
        shows(r, *t, elapsed_ms),
        net == r.net_pnl,
{
    lemma_shows(*t, elapsed_ms);
}

/// The events that a row is about: those of an exchange, and of an agent or a
/// token where one is given.
pub open spec fn concerns(
    ev: HistoryEvent,
    exchange: Seq<char>,
    agent: Option<Seq<char>>,
    token: Option<Seq<char>>,
) -> bool {
    &&& ev.exchange@ == exchange
    &&& agent matches Some(a) ==> ev.agent@ == a
    &&& token matches Some(t) ==> ev.token@ == t
}

/// Sums an amount over round trips of a row's events.
pub open spec fn over_trips(
    events: Seq<HistoryEvent>,
    exchange: Seq<char>,
    agent: Option<Seq<char>>,
    token: Option<Seq<char>>,
    f: spec_fn(HistoryEvent) -> int,
) -> int
    decreases events.len(),
{
    if events.len() == 0 {
        0
    } else {
        let ev = events.last();
        over_trips(events.drop_last(), exchange, agent, token, f) + if concerns(
            ev,
            exchange,
            agent,
            token,
        ) && (ev.kind@ == "rtp"@ || ev.kind@ == "sl_rtp"@) {
            f(ev)
        } else {
            0
        }
    }
}

/// The gross result of an event, and its size.
pub open spec fn gross() -> spec_fn(HistoryEvent) -> int {
    |ev: HistoryEvent| ev.gross_pnl as int
}

/// The size of the gross result of an event.
pub open spec fn gross_size() -> spec_fn(HistoryEvent) -> int {
    |ev: HistoryEvent|
        if ev.gross_pnl < 0 {
            -ev.gross_pnl
        } else {
            ev.gross_pnl as int
        }
}

/// The volume of an event.
pub open spec fn traded() -> spec_fn(HistoryEvent) -> int {
    |ev: HistoryEvent| ev.volume as int
}

/// What an event cost.
pub open spec fn cost() -> spec_fn(HistoryEvent) -> int {
    |ev: HistoryEvent|
        if ev.fees > 0 {
            ev.fees as int
        } else {
            0
        }
}

/// What an event gave back.
pub open spec fn given_back() -> spec_fn(HistoryEvent) -> int {
    |ev: HistoryEvent|
        if ev.fees < 0 {
            -ev.fees
        } else {
            0
        }
}

/// One, for every event.
pub open spec fn one() -> spec_fn(HistoryEvent) -> int {
    |ev: HistoryEvent| 1int
}

/// What the tally of a row sums to, where nothing saturates.
proof fn lemma_sums(
    events: Seq<HistoryEvent>,
    exchange: Seq<char>,
    agent: Option<Seq<char>>,
    token: Option<Seq<char>>,
)
    requires
        events.len() <= i64::MAX,
        over_trips(events, exchange, agent, token, gross_size()) <= i64::MAX,
        over_trips(events, exchange, agent, token, cost()) <= i64::MAX,
        over_trips(events, exchange, agent, token, given_back()) <= i64::MAX,
        over_trips(events, exchange, agent, token, traded()) <= i64::MAX,
        forall|i: int| 0 <= i < events.len() ==> (#[trigger] events[i]).volume >= 0,
    ensures
        ({
            let t = tally_of(events, selected(Some(exchange), agent, token));
            let gs = over_trips(events, exchange, agent, token, gross_size());
            &&& t.rtp_count == over_trips(events, exchange, agent, token, one())
            &&& t.gross_pnl == over_trips(events, exchange, agent, token, gross())
            &&& -gs <= over_trips(events, exchange, agent, token, gross()) <= gs
            &&& t.fees == over_trips(events, exchange, agent, token, cost()) >= 0
            &&& t.rebates == over_trips(events, exchange, agent, token, given_back()) >= 0
            &&& t.volume == over_trips(events, exchange, agent, token, traded()) >= 0
            &&& 0 <= over_trips(events, exchange, agent, token, one()) <= events.len()
        }),
    decreases events.len(),
{
    if events.len() > 0 {
        let front = events.drop_last();
        let ev = events.last();
        assert(forall|i: int| 0 <= i < front.len() ==> front[i] == events[i]);
        assert(events[events.len() - 1] == ev);
        lemma_small(front, exchange, agent, token);
        lemma_sums(front, exchange, agent, token);
        let p = selected(Some(exchange), agent, token);
        assert(p(ev) == concerns(ev, exchange, agent, token));
        if concerns(ev, exchange, agent, token) {
            reveal_strlit("rtp");
            reveal_strlit("sl_rtp");
            reveal_strlit("basket_hit");
        }
    }
}

/// Sums of sizes are not negative.
proof fn lemma_small(
    events: Seq<HistoryEvent>,
    exchange: Seq<char>,
    agent: Option<Seq<char>>,
    token: Option<Seq<char>>,
)
    requires
        forall|i: int| 0 <= i < events.len() ==> (#[trigger] events[i]).volume >= 0,
    ensures
        over_trips(events, exchange, agent, token, gross_size()) >= 0,
        over_trips(events, exchange, agent, token, cost()) >= 0,
        over_trips(events, exchange, agent, token, given_back()) >= 0,
        over_trips(events, exchange, agent, token, traded()) >= 0,
    decreases events.len(),
{
    if events.len() > 0 {
        let front = events.drop_last();
        assert(forall|i: int| 0 <= i < front.len() ==> front[i] == events[i]);
        assert(events[events.len() - 1] == events.last());
        lemma_small(front, exchange, agent, token);
    }
}

/// The net result and the rates of figures over a window, which lasts at least
/// a millisecond.
pub open spec fn spans(f: Figures, w: Window) -> bool {
    &&& held(f.net_pnl, f.gross_pnl - f.fees + f.rebates + f.basket_hit_pnl)
    &&& f.rtps > 0 ==> rounds_to(f.pnl_per_rtp, f.net_pnl as int, f.rtps as int)
    &&& f.rtps == 0 ==> f.pnl_per_rtp == 0
    &&& w.until_ms - w.since_ms <= i64::MAX ==> {
        let ms = if w.until_ms - w.since_ms > 1 {
            w.until_ms - w.since_ms
        } else {
            1
        };
        &&& rounds_to(f.rtp_per_hr, f.rtps * 100_000_000 * 3_600_000, ms)
        &&& rounds_to(f.vol_per_hr, f.volume * 3_600_000, ms)
    }
}

/// A row of a summary sums the round trips of its agent on its exchange in the
/// window: their number, gross results, fees, rebates and volume, where nothing
/// saturates.
pub proof fn agent_rows_sum_their_round_trips(
    events: &Vec<HistoryEvent>,
    active: &Vec<String>,
    query: &SummaryQuery,
    now_ms: i64,
    r: Report,
    i: int,
    j: int,
)
    requires
        call_ensures(summary_at, (events, active, query, now_ms), r),
        0 <= i < r.accounts@.len(),
        0 <= j < r.accounts@[i].agents@.len(),
        ({
            let w = r.window;
            let kept = events@.filter(|ev: HistoryEvent| w.since_ms <= ev.ts <= w.until_ms);
            let ex = r.accounts@[i].name@;
            let ag = Some(r.accounts@[i].agents@[j].name@);
            &&& kept.len() <= i64::MAX
            &&& over_trips(kept, ex, ag, None, gross_size()) <= i64::MAX
            &&& over_trips(kept, ex, ag, None, cost()) <= i64::MAX
            &&& over_trips(kept, ex, ag, None, given_back()) <= i64::MAX
            &&& over_trips(kept, ex, ag, None, traded()) <= i64::MAX
            &&& forall|x: int| 0 <= x < kept.len() ==> (#[trigger] kept[x]).volume >= 0
        }),
    ensures
        ({
            let w = r.window;
            let kept = events@.filter(|ev: HistoryEvent| w.since_ms <= ev.ts <= w.until_ms);
            let ex = r.accounts@[i].name@;
            let row = r.accounts@[i].agents@[j];
            let ag = Some(row.name@);
            &&& row.figures.rtps == over_trips(kept, ex, ag, None, one())
            &&& row.figures.gross_pnl == over_trips(kept, ex, ag, None, gross())
            &&& row.figures.fees == over_trips(kept, ex, ag, None, cost())
            &&& row.figures.rebates == over_trips(kept, ex, ag, None, given_back())
            &&& row.figures.volume == over_trips(kept, ex, ag, None, traded())
            &&& row.active <==> exists|n: int|
                0 <= n < active@.len() && (#[trigger] active@[n])@ == row.name@
            &&& spans(row.figures, w)
        }),
{
    let w = r.window;
    let kept = events@.filter(covered(w));
    assert(covered(w) =~= |ev: HistoryEvent| w.since_ms <= ev.ts <= w.until_ms);
    let ex = r.accounts@[i].name@;
    let row = r.accounts@[i].agents@[j];
    lemma_sums(kept, ex, Some(row.name@), None);
    lemma_shows(tally_of(kept, of_agent(ex, row.name@)), w.elapsed());
    let t = texts(active@);
    if t.contains(row.name@) {
        let n = choose|n: int| 0 <= n < t.len() && t[n] == row.name@;
        assert(active@[n]@ == row.name@);
    }
    if exists|n: int| 0 <= n < active@.len() && (#[trigger] active@[n])@ == row.name@ {
        let n = choose|n: int| 0 <= n < active@.len() && (#[trigger] active@[n])@ == row.name@;
        assert(t[n] == row.name@);
    }
}

/// A row of a token sums the round trips of that token on its exchange in the
/// window likewise, whichever agents made them.
pub proof fn coin_rows_sum_their_round_trips(
    events: &Vec<HistoryEvent>,
    active: &Vec<String>,
    query: &SummaryQuery,
    now_ms: i64,
    r: Report,
    i: int,
)
    requires
        call_ensures(summary_at, (events, active, query, now_ms), r),
        0 <= i < r.rows@.len(),
        ({
            let w = r.window;
            let kept = events@.filter(|ev: HistoryEvent| w.since_ms <= ev.ts <= w.until_ms);
            let ex = r.rows@[i].exchange@;
            let tk = Some(r.rows@[i].token@);
            &&& kept.len() <= i64::MAX
            &&& over_trips(kept, ex, None, tk, gross_size()) <= i64::MAX
            &&& over_trips(kept, ex, None, tk, cost()) <= i64::MAX
            &&& over_trips(kept, ex, None, tk, given_back()) <= i64::MAX
            &&& over_trips(kept, ex, None, tk, traded()) <= i64::MAX
            &&& forall|x: int| 0 <= x < kept.len() ==> (#[trigger] kept[x]).volume >= 0
        }),
    ensures
        ({
            let w = r.window;
            let kept = events@.filter(|ev: HistoryEvent| w.since_ms <= ev.ts <= w.until_ms);
            let row = r.rows@[i];
            let ex = row.exchange@;
            let tk = Some(row.token@);
            &&& row.rtp_count == over_trips(kept, ex, None, tk, one())
            &&& row.gross_pnl == over_trips(kept, ex, None, tk, gross())
            &&& row.fees == over_trips(kept, ex, None, tk, cost())
            &&& row.rebates == over_trips(kept, ex, None, tk, given_back())
            &&& row.volume == over_trips(kept, ex, None, tk, traded())
            &&& held(row.net_pnl, row.gross_pnl - row.fees + row.rebates + row.basket_hit_pnl)
            &&& row.rtp_count > 0 ==> rounds_to(
                row.per_rtp_pnl,
                row.gross_pnl as int,
                row.rtp_count as int,
            )
            &&& row.rtp_count == 0 ==> row.per_rtp_pnl == 0
        }),
{
    let w = r.window;
    let kept = events@.filter(covered(w));
    assert(covered(w) =~= |ev: HistoryEvent| w.since_ms <= ev.ts <= w.until_ms);
    let row = r.rows@[i];
    lemma_sums(kept, row.exchange@, None, Some(row.token@));
    if row.rtp_count > 0 {
        lemma_rounds_to(row.gross_pnl as int, row.rtp_count as int);
    }
}

/// A summary says its window and whole hours, and shows every exchange, agent
/// and token of the window's events, and no others.
pub proof fn summaries_show_all_that_traded(
    events: &Vec<HistoryEvent>,
    active: &Vec<String>,
    query: &SummaryQuery,
    now_ms: i64,
    r: Report,
    w: Window,
    ev: HistoryEvent,
    ms: i64,
)
    requires
        call_ensures(summary_at, (events, active, query, now_ms), r),
        call_ensures(Window::of, (query, now_ms), w),
        held(ms, w.until_ms - w.since_ms),
    ensures
        r.window == w,
        ms >= 3_600_000 ==> r.hours * 3_600_000 <= ms < (r.hours + 1) * 3_600_000,
        ms < 3_600_000 ==> r.hours == 1,
        events@.contains(ev) && w.since_ms <= ev.ts <= w.until_ms ==> {
            &&& exists|i: int| 0 <= i < r.accounts@.len() && #[trigger] has_agent(r, i, ev)
            &&& exists|i: int|
                0 <= i < r.rows@.len() && (#[trigger] r.rows@[i]).exchange@ == ev.exchange@
                    && r.rows@[i].token@ == ev.token@
        },
{
    let span = ms as int;
    let whole = span / 3_600_000;
    assert(whole * 3_600_000 <= span < (whole + 1) * 3_600_000);
    assert(ms >= 3_600_000 ==> r.hours == whole);
    let kept = events@.filter(covered(w));
    lemma_filter_is(events@, covered(w));
    if events@.contains(ev) && w.since_ms <= ev.ts <= w.until_ms {
        assert(kept.contains(ev));
        let x = choose|x: int| 0 <= x < kept.len() && kept[x] == ev;
        let all = any_event();
        assert(all(kept[x]) && Field::Exchange.text(kept[x]) == ev.exchange@);
        let names = crate::api::summary::account_names(r.accounts@);
        assert(names.contains(ev.exchange@));
        let i = choose|i: int| 0 <= i < names.len() && names[i] == ev.exchange@;
        let acc = r.accounts@[i];
        assert(crate::api::summary::shows_account(
            acc,
            kept,
            texts(active@),
            w.elapsed(),
        ));
        let p = of_exchange(ev.exchange@);
        assert(p(kept[x]) && Field::Agent.text(kept[x]) == ev.agent@);
        let rows = crate::api::summary::row_names(acc.agents@);
        assert(rows.contains(ev.agent@));
        let j = choose|j: int| 0 <= j < rows.len() && rows[j] == ev.agent@;
        assert(acc.agents@[j].name@ == ev.agent@);
        assert(has_agent(r, i, ev));
        assert(crate::api::summary::has_row(r.rows@, kept[x].exchange@, kept[x].token@));
    }
}

/// An account of a report is the one of an event's exchange and has a row for
/// the event's agent.
pub open spec fn has_agent(r: Report, i: int, ev: HistoryEvent) -> bool {
    &&& r.accounts@[i].name@ == ev.exchange@
    &&& exists|j: int|
        0 <= j < r.accounts@[i].agents@.len() && (#[trigger] r.accounts@[i].agents@[j]).name@
            == ev.agent@
}

/// Sums a figure over the rows of an account.
pub open spec fn over_rows(rows: Seq<AgentRow>, f: spec_fn(Figures) -> int) -> int
    decreases rows.len(),
{
    if rows.len() == 0 {
        0
    } else {
        over_rows(rows.drop_last(), f) + f(rows.last().figures)
    }
}

/// The tallies of an account's agents sum to the figures of their rows, where
/// nothing saturates.
proof fn lemma_together(
    events: Seq<HistoryEvent>,
    exchange: Seq<char>,
    rows: Seq<AgentRow>,
    active: Seq<Seq<char>>,
    elapsed_ms: i64,
)
    requires
        forall|i: int|
            0 <= i < rows.len() ==> shows_agent(
                #[trigger] rows[i],
                events,
                exchange,
                active,
                elapsed_ms,
            ),
        forall|i: int|
            0 <= i < rows.len() ==> 0 <= (#[trigger] rows[i]).figures.fees && 0
                <= rows[i].figures.rebates && 0 <= rows[i].figures.volume && 0
                <= rows[i].figures.gross_pnl,
        over_rows(rows, |f: Figures| f.gross_pnl as int) <= i64::MAX,
        over_rows(rows, |f: Figures| f.fees as int) <= i64::MAX,
        over_rows(rows, |f: Figures| f.rebates as int) <= i64::MAX,
        over_rows(rows, |f: Figures| f.volume as int) <= i64::MAX,
        over_rows(rows, |f: Figures| f.rtps as int) <= u64::MAX,
    ensures
        ({
            let t = tally_together(events, exchange, row_names(rows));
            &&& t.gross_pnl == over_rows(rows, |f: Figures| f.gross_pnl as int) >= 0
            &&& t.fees == over_rows(rows, |f: Figures| f.fees as int) >= 0
            &&& t.rebates == over_rows(rows, |f: Figures| f.rebates as int) >= 0
            &&& t.volume == over_rows(rows, |f: Figures| f.volume as int) >= 0
            &&& t.rtp_count == over_rows(rows, |f: Figures| f.rtps as int) >= 0
        }),
    decreases rows.len(),
{
    if rows.len() > 0 {
        let front = rows.drop_last();
        let last = rows.last();
        assert(forall|i: int| 0 <= i < front.len() ==> front[i] == rows[i]);
        assert(rows[rows.len() - 1] == last);
        assert(row_names(rows).drop_last() =~= row_names(front));
        assert(row_names(rows).last() == last.name@);
        lemma_together(events, exchange, front, active, elapsed_ms);
    }
}

/// The cumulative figures of an account are those of its agents together: their
/// round trips, gross results, fees, rebates and volumes summed, where nothing
/// saturates and no agent lost before fees, with the net result and the rates
/// of those sums.
pub proof fn accounts_sum_their_agents(
    events: &Vec<HistoryEvent>,
    active: &Vec<String>,
    query: &SummaryQuery,
    now_ms: i64,
    r: Report,
    i: int,
)
    requires
        call_ensures(summary_at, (events, active, query, now_ms), r),
        0 <= i < r.accounts@.len(),
        ({
            let rows = r.accounts@[i].agents@;
            &&& forall|j: int|
                0 <= j < rows.len() ==> 0 <= (#[trigger] rows[j]).figures.fees && 0
                    <= rows[j].figures.rebates && 0 <= rows[j].figures.volume && 0
                    <= rows[j].figures.gross_pnl
            &&& over_rows(rows, |f: Figures| f.gross_pnl as int) <= i64::MAX
            &&& over_rows(rows, |f: Figures| f.fees as int) <= i64::MAX
            &&& over_rows(rows, |f: Figures| f.rebates as int) <= i64::MAX
            &&& over_rows(rows, |f: Figures| f.volume as int) <= i64::MAX
            &&& over_rows(rows, |f: Figures| f.rtps as int) <= u64::MAX
        }),
    ensures
        ({
            let rows = r.accounts@[i].agents@;
            let all = r.accounts@[i].cumulative;
            &&& all.gross_pnl == over_rows(rows, |f: Figures| f.gross_pnl as int)
            &&& all.fees == over_rows(rows, |f: Figures| f.fees as int)
            &&& all.rebates == over_rows(rows, |f: Figures| f.rebates as int)
            &&& all.volume == over_rows(rows, |f: Figures| f.volume as int)
            &&& all.rtps == over_rows(rows, |f: Figures| f.rtps as int)
            &&& spans(all, r.window)
        }),
{
    let w = r.window;
    let kept = events@.filter(covered(w));
    let acc = r.accounts@[i];
    let names = texts(active@);
    assert(crate::api::summary::shows_account(acc, kept, names, w.elapsed()));
    lemma_together(kept, acc.name@, acc.agents@, names, w.elapsed());
    lemma_shows(tally_together(kept, acc.name@, row_names(acc.agents@)), w.elapsed());
}

/// The events of a row, in order.
pub open spec fn about(
    events: Seq<HistoryEvent>,
    w: Window,
    exchange: Seq<char>,
    agent: Option<Seq<char>>,
    token: Option<Seq<char>>,
) -> Seq<HistoryEvent> {
    events.filter(|ev: HistoryEvent| w.since_ms <= ev.ts <= w.until_ms).filter(
        |ev: HistoryEvent| concerns(ev, exchange, agent, token),
    )
}

/// Events taken in one after the other, from nothing on.
pub open spec fn taken_in(events: Seq<HistoryEvent>) -> Tally {
    events.fold_left(Tally::none(), |t: Tally, ev: HistoryEvent| t.with(ev))
}

/// A tally takes in all of its events, and no others.
proof fn lemma_taken_in(
    events: Seq<HistoryEvent>,
    exchange: Seq<char>,
    agent: Option<Seq<char>>,
    token: Option<Seq<char>>,
)
    ensures
        tally_of(events, selected(Some(exchange), agent, token)) == taken_in(
            events.filter(|ev: HistoryEvent| concerns(ev, exchange, agent, token)),
        ),
    decreases events.len(),
{
    let p = selected(Some(exchange), agent, token);
    let q = |ev: HistoryEvent| concerns(ev, exchange, agent, token);
    assert(p =~= q);
    let f = |t: Tally, ev: HistoryEvent| t.with(ev);
    reveal(Seq::filter);
    reveal_with_fuel(Seq::fold_left, 2);
    if events.len() > 0 {
        let front = events.drop_last();
        lemma_taken_in(front, exchange, agent, token);
        let kept = events.filter(q);
        if q(events.last()) {
            assert(kept.drop_last() =~= front.filter(q));
            assert(kept.last() == events.last());
        }
    }
}

/// The row of an agent shows a tally of its events in the window, each taken in
/// once, and what it traded last.
pub proof fn agent_rows_take_in_their_events(
    events: &Vec<HistoryEvent>,
    active: &Vec<String>,
    query: &SummaryQuery,
    now_ms: i64,
    r: Report,
    i: int,
    j: int,
)
    requires
        call_ensures(summary_at, (events, active, query, now_ms), r),
        0 <= i < r.accounts@.len(),
        0 <= j < r.accounts@[i].agents@.len(),
        r.window.until_ms - r.window.since_ms <= i64::MAX,
    ensures
        ({
            let w = r.window;
            let row = r.accounts@[i].agents@[j];
            let own = about(events@, w, r.accounts@[i].name@, Some(row.name@), None);
            let ms = if w.until_ms - w.since_ms > 1 {
                w.until_ms - w.since_ms
            } else {
                1
            };
            &&& shows(row.figures, taken_in(own), ms as i64)
            &&& own.len() > 0
            &&& row.symbol@ == own.last().token@
        }),
{
    let w = r.window;
    let kept = events@.filter(covered(w));
    assert(covered(w) =~= |ev: HistoryEvent| w.since_ms <= ev.ts <= w.until_ms);
    let acc = r.accounts@[i];
    let row = acc.agents@[j];
    let ex = acc.name@;
    lemma_taken_in(kept, ex, Some(row.name@), None);
    lemma_shows(tally_of(kept, of_agent(ex, row.name@)), w.elapsed());
    let own = about(events@, w, ex, Some(row.name@), None);
    let names = row_names(acc.agents@);
    assert(names[j] == row.name@);
    assert(names.contains(row.name@));
    let p = of_exchange(ex);
    let x = choose|x: int|
        0 <= x < kept.len() && p(#[trigger] kept[x]) && Field::Agent.text(kept[x]) == row.name@;
    let q = |ev: HistoryEvent| concerns(ev, ex, Some(row.name@), None);
    assert(q(kept[x]));
    assert(own =~= kept.filter(q));
    lemma_filter_is(kept, q);
    assert(kept.contains(kept[x]));
    assert(own.contains(kept[x]));
    lemma_last(kept, ex, row.name@);
}

/// What an agent traded last.
proof fn lemma_last(events: Seq<HistoryEvent>, exchange: Seq<char>, agent: Seq<char>)
    ensures
        ({
            let own = events.filter(
                |ev: HistoryEvent| concerns(ev, exchange, Some(agent), None),
            );
            own.len() > 0 ==> last_token(events, of_agent(exchange, agent)) == own.last().token@
        }),
    decreases events.len(),
{
    let q = |ev: HistoryEvent| concerns(ev, exchange, Some(agent), None);
    let p = of_agent(exchange, agent);
    assert(p =~= q);
    reveal(Seq::filter);
    if events.len() > 0 {
        lemma_last(events.drop_last(), exchange, agent);
    }
}

/// The row of a token shows a tally of its events in the window, each taken in
/// once.
pub proof fn coin_rows_take_in_their_events(
    events: &Vec<HistoryEvent>,
    active: &Vec<String>,
    query: &SummaryQuery,
    now_ms: i64,
    r: Report,
    i: int,
)
    requires
        call_ensures(summary_at, (events, active, query, now_ms), r),
        0 <= i < r.rows@.len(),
    ensures
        ({
            let row = r.rows@[i];
            let t = taken_in(about(events@, r.window, row.exchange@, None, Some(row.token@)));
            &&& row.rtp_count == t.rtp_count && row.gross_pnl == t.gross_pnl
            &&& row.fees == t.fees && row.rebates == t.rebates && row.volume == t.volume
            &&& row.basket_hits == t.basket_hits && row.basket_hit_pnl == t.basket_hit_pnl
        }),
{
    let w = r.window;
    let kept = events@.filter(covered(w));
    assert(covered(w) =~= |ev: HistoryEvent| w.since_ms <= ev.ts <= w.until_ms);
    let row = r.rows@[i];
    lemma_taken_in(kept, row.exchange@, None, Some(row.token@));
}

/// Accounts, agents and tokens are shown in the order of their names, each
/// once.
pub proof fn summaries_are_in_order(
    events: &Vec<HistoryEvent>,
    active: &Vec<String>,
    query: &SummaryQuery,
    now_ms: i64,
    r: Report,
    i: int,
    j: int,
    n: int,
)
    requires
        call_ensures(summary_at, (events, active, query, now_ms), r),
    ensures
        0 <= i < j < r.accounts@.len() ==> comes_before(
            r.accounts@[i].name@,
            r.accounts@[j].name@,
        ),
        0 <= n < r.accounts@.len() && 0 <= i < j < r.accounts@[n].agents@.len() ==> comes_before(
            r.accounts@[n].agents@[i].name@,
            r.accounts@[n].agents@[j].name@,
        ),
        0 <= i < j < r.rows@.len() ==> comes_before(r.rows@[i].exchange@, r.rows@[j].exchange@) || (
        r.rows@[i].exchange@ == r.rows@[j].exchange@ && comes_before(
            r.rows@[i].token@,
            r.rows@[j].token@,
        )),
        0 <= n < r.rows@.len() && 0 <= i < j < r.rows@[n].agents@.len() ==> comes_before(
            r.rows@[n].agents@[i]@,
            r.rows@[n].agents@[j]@,
        ),
{
    let w = r.window;
    let kept = events@.filter(covered(w));
    if 0 <= i < j < r.accounts@.len() {
        let names = account_names(r.accounts@);
        assert(precedes(names[i], names[j]));
        lemma_precedes(names[i], names[j]);
    }
    if 0 <= n < r.accounts@.len() && 0 <= i < j < r.accounts@[n].agents@.len() {
        let names = row_names(r.accounts@[n].agents@);
        assert(precedes(names[i], names[j]));
        lemma_precedes(names[i], names[j]);
    }
    if 0 <= i < j < r.rows@.len() {
        assert(pair_precedes(coin_key(r.rows@[i]), coin_key(r.rows@[j])));
        lemma_precedes(r.rows@[i].exchange@, r.rows@[j].exchange@);
        lemma_precedes(r.rows@[i].token@, r.rows@[j].token@);
    }
    if 0 <= n < r.rows@.len() && 0 <= i < j < r.rows@[n].agents@.len() {
        let names = texts(r.rows@[n].agents@);
        assert(shows_coin(r.rows@[n], kept));
        assert(precedes(names[i], names[j]));
        lemma_precedes(names[i], names[j]);
    }
}

/// The row of a token names the agents that traded it in the window, and no
/// others.
pub proof fn coin_rows_name_their_agents(
    events: &Vec<HistoryEvent>,
    active: &Vec<String>,
    query: &SummaryQuery,
    now_ms: i64,
    r: Report,
    i: int,
    agent: Seq<char>,
)
    requires
        call_ensures(summary_at, (events, active, query, now_ms), r),
        0 <= i < r.rows@.len(),
    ensures
        texts(r.rows@[i].agents@).contains(agent) <==> exists|ev: HistoryEvent|
            {
                &&& #[trigger] events@.contains(ev)
                &&& r.window.since_ms <= ev.ts <= r.window.until_ms
                &&& ev.exchange@ == r.rows@[i].exchange@
                &&& ev.token@ == r.rows@[i].token@
                &&& ev.agent@ == agent
            },
{
    let w = r.window;
    let kept = events@.filter(covered(w));
    lemma_filter_is(events@, covered(w));
    let row = r.rows@[i];
    assert(shows_coin(row, kept));
    let p = of_token(row.exchange@, row.token@);
    let names = texts(row.agents@);
    if names.contains(agent) {
        let x = choose|x: int|
            0 <= x < kept.len() && p(#[trigger] kept[x]) && Field::Agent.text(kept[x]) == agent;
        assert(kept.contains(kept[x]));
        assert(events@.contains(kept[x]));
    }
    if exists|ev: HistoryEvent|
        {
            &&& #[trigger] events@.contains(ev)
            &&& w.since_ms <= ev.ts <= w.until_ms
            &&& ev.exchange@ == row.exchange@
            &&& ev.token@ == row.token@
            &&& ev.agent@ == agent
        } {
        let ev = choose|ev: HistoryEvent|
            {
                &&& #[trigger] events@.contains(ev)
                &&& w.since_ms <= ev.ts <= w.until_ms
                &&& ev.exchange@ == row.exchange@
                &&& ev.token@ == row.token@
                &&& ev.agent@ == agent
            };
        assert(kept.contains(ev));
        let x = choose|x: int| 0 <= x < kept.len() && kept[x] == ev;
        assert(p(kept[x]) && Field::Agent.text(kept[x]) == agent);
    }
}

/// A tally starts at nothing.
pub proof fn tallies_start_at_nothing(r: Tally)
    requires
        call_ensures(Tally::new, (), r),
    ensures
        r.rtp_count == 0 && r.gross_pnl == 0 && r.fees == 0 && r.rebates == 0,
        r.volume == 0 && r.qty == 0 && r.basket_hits == 0 && r.basket_hit_pnl == 0,
        r.buy_pq_sum == 0 && r.buy_qty_sum == 0 && r.sell_pq_sum == 0 && r.sell_qty_sum == 0,
        r.buys == 0 && r.sells == 0,
{
}

} // verus!
