//! The summary of what agents earned over a window of time.
use vstd::prelude::*;

use crate::amount::{
    average, average_of, clamp, clamp_wide, clamped, exact_times, larger, max, minus, plus,
    plus_wide, rate, rate_of, ratio, scale, share, share_of,
};
use crate::lists::lemma_filter_step;
use crate::names::{ascending, holds, sorted_set, texts};
use crate::text::{eq_ignore_case, same_letters};

verus! {

/// Milliseconds of an hour.
pub const HOUR_MS: u32 = 3_600_000;

/// Something that an agent did, as its history records it.
#[derive(Debug)]
pub struct HistoryEvent {
    /// Unix milliseconds.
    pub ts: i64,
    pub agent: String,
    pub exchange: String,
    pub token: String,
    pub kind: String,
    pub gross_pnl: i64,
    /// Negative for a rebate.
    pub fees: i64,
    pub volume: i64,
    pub qty: i64,
    pub entry_side: String,
    pub entry_price: i64,
    pub exit_price: i64,
}

impl Clone for HistoryEvent {
    fn clone(&self) -> (r: Self)
        ensures
            r == *self,
    {
        HistoryEvent {
            ts: self.ts,
            agent: self.agent.clone(),
            exchange: self.exchange.clone(),
            token: self.token.clone(),
            kind: self.kind.clone(),
            gross_pnl: self.gross_pnl,
            fees: self.fees,
            volume: self.volume,
            qty: self.qty,
            entry_side: self.entry_side.clone(),
            entry_price: self.entry_price,
            exit_price: self.exit_price,
        }
    }
}

/// What a summary is asked for.
#[derive(Debug, Clone, Copy, PartialEq, Eq, Structural)]
pub struct SummaryQuery {
    pub hours: Option<u64>,
    /// Takes the place of `hours`.
    pub since_ms: Option<i64>,
    pub until_ms: Option<i64>,
}

/// The window of a summary, both ends inside, and when it was made.
#[derive(Debug, Clone, Copy, PartialEq, Eq, Structural)]
pub struct Window {
    pub since_ms: i64,
    pub until_ms: i64,
    pub now_ms: i64,
}

/// Sums over events.
#[derive(Debug, Clone, Copy, PartialEq, Eq, Structural)]
pub struct Tally {
    pub rtp_count: u64,
    pub gross_pnl: i64,
    pub fees: i64,
    pub rebates: i64,
    pub volume: i64,
    pub qty: i64,
    pub basket_hits: u64,
    pub basket_hit_pnl: i64,
    /// Price times quantity over the buys that have a price, exactly.
    pub buy_pq_sum: i128,
    pub buy_qty_sum: i64,
    pub sell_pq_sum: i128,
    pub sell_qty_sum: i64,
    pub buys: u64,
    pub sells: u64,
}

/// The figures that a summary shows of a tally.
#[derive(Debug, Clone, Copy, PartialEq, Eq, Structural)]
pub struct Figures {
    pub buy_vwap: i64,
    pub sell_vwap: i64,
    pub buys: u64,
    pub sells: u64,
    pub rtps: u64,
    pub rtp_per_hr: i64,
    pub gross_pnl: i64,
    pub fees: i64,
    pub rebates: i64,
    pub net_pnl: i64,
    pub pnl_per_rtp: i64,
    pub vol_per_hr: i64,
    pub volume: i64,
    pub basket_hits: u64,
    pub basket_hit_pnl: i64,
}

/// One agent of an account.
pub struct AgentRow {
    pub name: String,
    /// What it traded last in the window.
    pub symbol: String,
    pub active: bool,
    pub figures: Figures,
}

/// One account: the agents of an exchange, and all of them together.
pub struct Account {
    pub name: String,
    pub agents: Vec<AgentRow>,
    pub cumulative: Figures,
}

/// One token of an exchange.
pub struct CoinRow {
    pub exchange: String,
    pub token: String,
    pub agents: Vec<String>,
    pub rtp_count: u64,
    pub per_rtp_pnl: i64,
    pub gross_pnl: i64,
    pub fees: i64,
    pub rebates: i64,
    pub net_pnl: i64,
    pub volume: i64,
    pub basket_hits: u64,
    pub basket_hit_pnl: i64,
}

/// A summary.
pub struct Report {
    pub hours: i64,
    pub window: Window,
    pub accounts: Vec<Account>,
    pub rows: Vec<CoinRow>,
}

/// A completed round trip, however it was closed.
pub open spec fn is_round_trip(kind: Seq<char>) -> bool {
    kind == "rtp"@ || kind == "sl_rtp"@
}

/// The price of the buy leg of a round trip.
pub open spec fn buy_price(ev: HistoryEvent) -> i64 {
    if same_letters(ev.entry_side@, "BUY"@) {
        ev.entry_price
    } else {
        ev.exit_price
    }
}

/// The price of the sell leg of a round trip.
pub open spec fn sell_price(ev: HistoryEvent) -> i64 {
    if same_letters(ev.entry_side@, "BUY"@) {
        ev.exit_price
    } else {
        ev.entry_price
    }
}

impl Window {
    /// The event lies in the window.
    pub open spec fn covers(self, ev: HistoryEvent) -> bool {
        self.since_ms <= ev.ts <= self.until_ms
    }

    /// The length of the window in milliseconds, at least one.
    pub open spec fn elapsed(self) -> i64 {
        larger(clamp(self.until_ms - self.since_ms) as int, 1) as i64
    }

    /// The window that a query asks for: from `since_ms`, or so many hours
    /// back, a day when nothing is said and an hour at least; until
    /// `until_ms`, or now.
    pub open spec fn asked(q: SummaryQuery, now_ms: i64) -> Window {
        let hours = match q.hours {
            Some(h) => larger(h as int, 1),
            None => 24,
        };
        Window {
            since_ms: match q.since_ms {
                Some(t) => t,
                None => clamp(now_ms - hours * HOUR_MS),
            },
            until_ms: match q.until_ms {
                Some(t) => t,
                None => now_ms,
            },
            now_ms,
        }
    }

    /// The window that a query asks for.
    pub fn of(q: &SummaryQuery, now_ms: i64) -> (r: Window)
        ensures
            r == Self::asked(*q, now_ms),
    {
        let since_ms: i64 = match q.since_ms {
            Some(t) => t,
            None => {
                let hours: u64 = match q.hours {
                    Some(h) => if h > 1 {
                        h
                    } else {
                        1
                    },
                    None => 24,
                };
                clamped(now_ms as i128 - hours as i128 * HOUR_MS as i128)
            },
        };
        let until_ms: i64 = match q.until_ms {
            Some(t) => t,
            None => now_ms,
        };
        Window { since_ms, until_ms, now_ms }
    }

    /// The whole hours of the window, at least one.
    pub open spec fn whole_hours(self) -> i64 {
        let ms = clamp(self.until_ms - self.since_ms);
        if ms >= HOUR_MS {
            (ms / (HOUR_MS as i64)) as i64
        } else {
            1
        }
    }

    /// The whole hours of the window.
    fn hours(&self) -> (r: i64)
        ensures
            r == self.whole_hours(),
    {
        let ms: i64 = minus(self.until_ms, self.since_ms);
        if ms >= HOUR_MS as i64 {
            ms / HOUR_MS as i64
        } else {
            1
        }
    }
}

/// The events of a window.
pub open spec fn covered(w: Window) -> spec_fn(HistoryEvent) -> bool {
    |ev: HistoryEvent| w.covers(ev)
}

/// The event is of this exchange, agent and token, each where one is given.
pub open spec fn fits(
    ev: HistoryEvent,
    exchange: Option<Seq<char>>,
    agent: Option<Seq<char>>,
    token: Option<Seq<char>>,
) -> bool {
    &&& exchange matches Some(t) ==> ev.exchange@ == t
    &&& agent matches Some(t) ==> ev.agent@ == t
    &&& token matches Some(t) ==> ev.token@ == t
}

/// The events of an exchange, agent and token, each where one is given.
pub open spec fn selected(
    exchange: Option<Seq<char>>,
    agent: Option<Seq<char>>,
    token: Option<Seq<char>>,
) -> spec_fn(HistoryEvent) -> bool {
    |ev: HistoryEvent| fits(ev, exchange, agent, token)
}

/// Every event.
pub open spec fn any_event() -> spec_fn(HistoryEvent) -> bool {
    selected(None, None, None)
}

/// The events of an exchange.
pub open spec fn of_exchange(exchange: Seq<char>) -> spec_fn(HistoryEvent) -> bool {
    selected(Some(exchange), None, None)
}

/// The events of an agent on an exchange.
pub open spec fn of_agent(exchange: Seq<char>, agent: Seq<char>) -> spec_fn(HistoryEvent) -> bool {
    selected(Some(exchange), Some(agent), None)
}

/// The events of a token on an exchange.
pub open spec fn of_token(exchange: Seq<char>, token: Seq<char>) -> spec_fn(HistoryEvent) -> bool {
    selected(Some(exchange), None, Some(token))
}

/// What an event can be listed by.
#[derive(Debug, Clone, Copy, PartialEq, Eq, Structural)]
pub enum Field {
    Exchange,
    Agent,
    Token,
}

impl Field {
    /// The text of an event's field.
    pub open spec fn text(self, ev: HistoryEvent) -> Seq<char> {
        match self {
            Field::Exchange => ev.exchange@,
            Field::Agent => ev.agent@,
            Field::Token => ev.token@,
        }
    }
}

/// The characters of an optional text.
pub open spec fn chars(t: Option<&String>) -> Option<Seq<char>> {
    match t {
        Some(s) => Some(s@),
        None => None,
    }
}

impl Tally {
    /// No events.
    pub open spec fn none() -> Tally {
        Tally {
            rtp_count: 0,
            gross_pnl: 0,
            fees: 0,
            rebates: 0,
            volume: 0,
            qty: 0,
            basket_hits: 0,
            basket_hit_pnl: 0,
            buy_pq_sum: 0,
            buy_qty_sum: 0,
            sell_pq_sum: 0,
            sell_qty_sum: 0,
            buys: 0,
            sells: 0,
        }
    }

    /// One event more. A round trip has a buy and a sell leg of its quantity;
    /// a leg without a price enters no mean. A basket hit counts on its own.
    /// Any other event counts for nothing.
    pub open spec fn with(self, ev: HistoryEvent) -> Tally {
        if is_round_trip(ev.kind@) {
            let buys = buy_price(ev) > 0;
            let sells = sell_price(ev) > 0;
            Tally {
                rtp_count: self.rtp_count.wrapping_add(1),
                gross_pnl: clamp(self.gross_pnl + ev.gross_pnl),
                fees: clamp(self.fees + larger(ev.fees as int, 0)),
                rebates: clamp(self.rebates + larger(-ev.fees, 0)),
                volume: clamp(self.volume + ev.volume),
                qty: clamp(self.qty + ev.qty),
                buy_pq_sum: if buys {
                    clamp_wide(self.buy_pq_sum + buy_price(ev) * ev.qty)
                } else {
                    self.buy_pq_sum
                },
                buy_qty_sum: if buys {
                    clamp(self.buy_qty_sum + ev.qty)
                } else {
                    self.buy_qty_sum
                },
                sell_pq_sum: if sells {
                    clamp_wide(self.sell_pq_sum + sell_price(ev) * ev.qty)
                } else {
                    self.sell_pq_sum
                },
                sell_qty_sum: if sells {
                    clamp(self.sell_qty_sum + ev.qty)
                } else {
                    self.sell_qty_sum
                },
                buys: if buys {
                    self.buys.wrapping_add(1)
                } else {
                    self.buys
                },
                sells: if sells {
                    self.sells.wrapping_add(1)
                } else {
                    self.sells
                },
                ..self
            }
        } else if ev.kind@ == "basket_hit"@ {
            Tally {
                basket_hits: self.basket_hits.wrapping_add(1),
                basket_hit_pnl: clamp(self.basket_hit_pnl + ev.gross_pnl),
                ..self
            }
        } else {
            self
        }
    }

    /// Two tallies together.
    pub open spec fn and(self, other: Tally) -> Tally {
        Tally {
            rtp_count: self.rtp_count.wrapping_add(other.rtp_count),
            gross_pnl: clamp(self.gross_pnl + other.gross_pnl),
            fees: clamp(self.fees + other.fees),
            rebates: clamp(self.rebates + other.rebates),
            volume: clamp(self.volume + other.volume),
            qty: clamp(self.qty + other.qty),
            basket_hits: self.basket_hits.wrapping_add(other.basket_hits),
            basket_hit_pnl: clamp(self.basket_hit_pnl + other.basket_hit_pnl),
            buy_pq_sum: clamp_wide(self.buy_pq_sum + other.buy_pq_sum),
            buy_qty_sum: clamp(self.buy_qty_sum + other.buy_qty_sum),
            sell_pq_sum: clamp_wide(self.sell_pq_sum + other.sell_pq_sum),
            sell_qty_sum: clamp(self.sell_qty_sum + other.sell_qty_sum),
            buys: self.buys.wrapping_add(other.buys),
            sells: self.sells.wrapping_add(other.sells),
        }
    }

    /// What is left of the gross result after fees, rebates and basket hits.
    pub open spec fn net(self) -> i64 {
        clamp(self.gross_pnl - self.fees + self.rebates + self.basket_hit_pnl)
    }

    /// The figures of the tally over a time.
    pub open spec fn figures(self, elapsed_ms: i64) -> Figures {
        Figures {
            buy_vwap: if self.buy_qty_sum > 0 {
                average(self.buy_pq_sum, self.buy_qty_sum)
            } else {
                0
            },
            sell_vwap: if self.sell_qty_sum > 0 {
                average(self.sell_pq_sum, self.sell_qty_sum)
            } else {
                0
            },
            buys: self.buys,
            sells: self.sells,
            rtps: self.rtp_count,
            rtp_per_hr: rate(self.rtp_count, HOUR_MS, elapsed_ms),
            gross_pnl: self.gross_pnl,
            fees: self.fees,
            rebates: self.rebates,
            net_pnl: self.net(),
            pnl_per_rtp: if self.rtp_count > 0 {
                share(self.net(), self.rtp_count)
            } else {
                0
            },
            vol_per_hr: ratio(self.volume as int, HOUR_MS as int, elapsed_ms as int),
            volume: self.volume,
            basket_hits: self.basket_hits,
            basket_hit_pnl: self.basket_hit_pnl,
        }
    }

    /// No events.
    pub fn new() -> (r: Tally)
        ensures
            r == Self::none(),
    {
        Tally {
            rtp_count: 0,
            gross_pnl: 0,
            fees: 0,
            rebates: 0,
            volume: 0,
            qty: 0,
            basket_hits: 0,
            basket_hit_pnl: 0,
            buy_pq_sum: 0,
            buy_qty_sum: 0,
            sell_pq_sum: 0,
            sell_qty_sum: 0,
            buys: 0,
            sells: 0,
        }
    }

    /// Takes in an event.
    pub fn take_in(&mut self, ev: &HistoryEvent)
        ensures
            *final(self) == old(self).with(*ev),
    {
        if ev.kind == "rtp".to_string() || ev.kind == "sl_rtp".to_string() {
            self.rtp_count = self.rtp_count.wrapping_add(1);
            self.gross_pnl = plus(self.gross_pnl, ev.gross_pnl);
            if ev.fees >= 0 {
                self.fees = plus(self.fees, ev.fees);
            } else {
                self.rebates = clamped(self.rebates as i128 - ev.fees as i128);
            }
            self.volume = plus(self.volume, ev.volume);
            self.qty = plus(self.qty, ev.qty);
            let entry_is_buy: bool = eq_ignore_case(ev.entry_side.as_str(), "BUY");
            let (bought, sold): (i64, i64) = if entry_is_buy {
                (ev.entry_price, ev.exit_price)
            } else {
                (ev.exit_price, ev.entry_price)
            };
            if bought > 0 {
                self.buy_pq_sum = plus_wide(self.buy_pq_sum, exact_times(bought, ev.qty));
                self.buy_qty_sum = plus(self.buy_qty_sum, ev.qty);
                self.buys = self.buys.wrapping_add(1);
            }
            if sold > 0 {
                self.sell_pq_sum = plus_wide(self.sell_pq_sum, exact_times(sold, ev.qty));
                self.sell_qty_sum = plus(self.sell_qty_sum, ev.qty);
                self.sells = self.sells.wrapping_add(1);
            }
        } else if ev.kind == "basket_hit".to_string() {
            self.basket_hits = self.basket_hits.wrapping_add(1);
            self.basket_hit_pnl = plus(self.basket_hit_pnl, ev.gross_pnl);
        }
    }

    /// Takes in another tally.
    pub fn add_tally(&mut self, other: &Tally)
        ensures
            *final(self) == old(self).and(*other),
    {
        self.rtp_count = self.rtp_count.wrapping_add(other.rtp_count);
        self.gross_pnl = plus(self.gross_pnl, other.gross_pnl);
        self.fees = plus(self.fees, other.fees);
        self.rebates = plus(self.rebates, other.rebates);
        self.volume = plus(self.volume, other.volume);
        self.qty = plus(self.qty, other.qty);
        self.basket_hits = self.basket_hits.wrapping_add(other.basket_hits);
        self.basket_hit_pnl = plus(self.basket_hit_pnl, other.basket_hit_pnl);
        self.buy_pq_sum = plus_wide(self.buy_pq_sum, other.buy_pq_sum);
        self.buy_qty_sum = plus(self.buy_qty_sum, other.buy_qty_sum);
        self.sell_pq_sum = plus_wide(self.sell_pq_sum, other.sell_pq_sum);
        self.sell_qty_sum = plus(self.sell_qty_sum, other.sell_qty_sum);
        self.buys = self.buys.wrapping_add(other.buys);
        self.sells = self.sells.wrapping_add(other.sells);
    }

    /// What is left of the gross result after fees, rebates and basket hits.
    pub fn net_pnl(&self) -> (r: i64)
        ensures
            r == self.net(),
    {
        clamped(
            self.gross_pnl as i128 - self.fees as i128 + self.rebates as i128
                + self.basket_hit_pnl as i128,
        )
    }

    /// The figures of the tally over a time.
    pub fn show(&self, elapsed_ms: i64) -> (r: Figures)
        requires
            elapsed_ms > 0,
        ensures
            r == self.figures(elapsed_ms),
    {
        let buy_vwap: i64 = if self.buy_qty_sum > 0 {
            average_of(self.buy_pq_sum, self.buy_qty_sum)
        } else {
            0
        };
        let sell_vwap: i64 = if self.sell_qty_sum > 0 {
            average_of(self.sell_pq_sum, self.sell_qty_sum)
        } else {
            0
        };
        let net_pnl: i64 = self.net_pnl();
        let pnl_per_rtp: i64 = if self.rtp_count > 0 {
            share_of(net_pnl, self.rtp_count)
        } else {
            0
        };
        Figures {
            buy_vwap,
            sell_vwap,
            buys: self.buys,
            sells: self.sells,
            rtps: self.rtp_count,
            rtp_per_hr: rate_of(self.rtp_count, HOUR_MS, elapsed_ms),
            gross_pnl: self.gross_pnl,
            fees: self.fees,
            rebates: self.rebates,
            net_pnl,
            pnl_per_rtp,
            vol_per_hr: scale(self.volume, HOUR_MS as i64, elapsed_ms),
            volume: self.volume,
            basket_hits: self.basket_hits,
            basket_hit_pnl: self.basket_hit_pnl,
        }
    }
}

/// The tally of the events that satisfy `p`.
pub open spec fn tally_of(events: Seq<HistoryEvent>, p: spec_fn(HistoryEvent) -> bool) -> Tally
    decreases events.len(),
{
    if events.len() == 0 {
        Tally::none()
    } else {
        let before = tally_of(events.drop_last(), p);
        if p(events.last()) {
            before.with(events.last())
        } else {
            before
        }
    }
}

/// The token of the last event that satisfies `p`.
pub open spec fn last_token(
    events: Seq<HistoryEvent>,
    p: spec_fn(HistoryEvent) -> bool,
) -> Seq<char>
    decreases events.len(),
{
    if events.len() == 0 {
        Seq::empty()
    } else if p(events.last()) {
        events.last().token@
    } else {
        last_token(events.drop_last(), p)
    }
}

/// The tallies of some agents of an exchange together.
pub open spec fn tally_together(
    events: Seq<HistoryEvent>,
    exchange: Seq<char>,
    agents: Seq<Seq<char>>,
) -> Tally
    decreases agents.len(),
{
    if agents.len() == 0 {
        Tally::none()
    } else {
        tally_together(events, exchange, agents.drop_last()).and(
            tally_of(events, of_agent(exchange, agents.last())),
        )
    }
}

/// `names` lists a field of the events that satisfy `p`, in order, each name
/// once.
pub open spec fn lists_all(
    names: Seq<Seq<char>>,
    events: Seq<HistoryEvent>,
    p: spec_fn(HistoryEvent) -> bool,
    field: Field,
) -> bool {
    &&& ascending(names)
    &&& forall|t: Seq<char>| #[trigger]
        names.contains(t) <==> exists|i: int|
            0 <= i < events.len() && p(#[trigger] events[i]) && field.text(events[i]) == t
}

/// `row` shows an agent of an exchange.
pub open spec fn shows_agent(
    row: AgentRow,
    events: Seq<HistoryEvent>,
    exchange: Seq<char>,
    active: Seq<Seq<char>>,
    elapsed_ms: i64,
) -> bool {
    let p = of_agent(exchange, row.name@);
    &&& row.symbol@ == last_token(events, p)
    &&& row.active == active.contains(row.name@)
    &&& row.figures == tally_of(events, p).figures(elapsed_ms)
}

/// The names of rows.
pub open spec fn row_names(rows: Seq<AgentRow>) -> Seq<Seq<char>> {
    rows.map_values(|r: AgentRow| r.name@)
}

/// `account` shows an exchange: all its agents in order, and together.
pub open spec fn shows_account(
    account: Account,
    events: Seq<HistoryEvent>,
    active: Seq<Seq<char>>,
    elapsed_ms: i64,
) -> bool {
    let ex = account.name@;
    &&& lists_all(row_names(account.agents@), events, of_exchange(ex), Field::Agent)
    &&& forall|i: int|
        0 <= i < account.agents@.len() ==> shows_agent(
            #[trigger] account.agents@[i],
            events,
            ex,
            active,
            elapsed_ms,
        )
    &&& account.cumulative == tally_together(events, ex, row_names(account.agents@)).figures(
        elapsed_ms,
    )
}

/// The names of accounts.
pub open spec fn account_names(accounts: Seq<Account>) -> Seq<Seq<char>> {
    accounts.map_values(|a: Account| a.name@)
}

/// `accounts` shows every exchange of the events, in order.
pub open spec fn shows_accounts(
    accounts: Seq<Account>,
    events: Seq<HistoryEvent>,
    active: Seq<Seq<char>>,
    elapsed_ms: i64,
) -> bool {
    &&& lists_all(account_names(accounts), events, any_event(), Field::Exchange)
    &&& forall|i: int|
        0 <= i < accounts.len() ==> shows_account(
            #[trigger] accounts[i],
            events,
            active,
            elapsed_ms,
        )
}

/// `row` shows a token of an exchange.
pub open spec fn shows_coin(row: CoinRow, events: Seq<HistoryEvent>) -> bool {
    let p = of_token(row.exchange@, row.token@);
    let t = tally_of(events, p);
    &&& lists_all(texts(row.agents@), events, p, Field::Agent)
    &&& row.rtp_count == t.rtp_count
    &&& row.per_rtp_pnl == if t.rtp_count > 0 {
        share(t.gross_pnl, t.rtp_count)
    } else {
        0
    }
    &&& row.gross_pnl == t.gross_pnl
    &&& row.fees == t.fees
    &&& row.rebates == t.rebates
    &&& row.net_pnl == t.net()
    &&& row.volume == t.volume
    &&& row.basket_hits == t.basket_hits
    &&& row.basket_hit_pnl == t.basket_hit_pnl
}

/// A pair of texts comes before another: by the first, then by the second.
pub open spec fn pair_precedes(a: (Seq<char>, Seq<char>), b: (Seq<char>, Seq<char>)) -> bool {
    crate::text::precedes(a.0, b.0) || (a.0 == b.0 && crate::text::precedes(a.1, b.1))
}

/// What a row of a token goes by.
pub open spec fn coin_key(row: CoinRow) -> (Seq<char>, Seq<char>) {
    (row.exchange@, row.token@)
}

/// Some event is of this token on this exchange.
pub open spec fn was_traded(
    events: Seq<HistoryEvent>,
    exchange: Seq<char>,
    token: Seq<char>,
) -> bool {
    exists|x: int|
        0 <= x < events.len() && (#[trigger] events[x]).exchange@ == exchange && events[x].token@
            == token
}

/// Some row is of this token on this exchange.
pub open spec fn has_row(rows: Seq<CoinRow>, exchange: Seq<char>, token: Seq<char>) -> bool {
    exists|i: int|
        0 <= i < rows.len() && (#[trigger] rows[i]).exchange@ == exchange && rows[i].token@ == token
}

/// `rows` shows every token of every exchange of the events, in order.
pub open spec fn shows_coins(rows: Seq<CoinRow>, events: Seq<HistoryEvent>) -> bool {
    &&& forall|i: int| 0 <= i < rows.len() ==> shows_coin(#[trigger] rows[i], events)
    &&& forall|i: int, j: int|
        0 <= i < j < rows.len() ==> pair_precedes(
            coin_key(#[trigger] rows[i]),
            coin_key(#[trigger] rows[j]),
        )
    &&& forall|i: int|
        0 <= i < rows.len() ==> was_traded(
            events,
            (#[trigger] rows[i]).exchange@,
            rows[i].token@,
        )
    &&& forall|x: int|
        0 <= x < events.len() ==> has_row(
            rows,
            (#[trigger] events[x]).exchange@,
            events[x].token@,
        )
}

/// The events of a window.
pub fn within(events: &Vec<HistoryEvent>, window: &Window) -> (r: Vec<HistoryEvent>)
    ensures
        r@ == events@.filter(covered(*window)),
{
    let mut out: Vec<HistoryEvent> = Vec::new();
    let mut n: usize = 0;
    while n < events.len()
        invariant
            n <= events@.len(),
            out@ == events@.take(n as int).filter(covered(*window)),
        decreases events@.len() - n,
    {
        proof {
            lemma_filter_step(events@, covered(*window), n as int);
        }
        let ts: i64 = events[n].ts;
        if window.since_ms <= ts && ts <= window.until_ms {
            out.push(events[n].clone());
        }
        n += 1;
    }
    assert(events@.take(events@.len() as int) =~= events@);
    out
}

/// The text is the wanted one, where one is wanted.
fn text_fits(wanted: Option<&String>, text: &String) -> (r: bool)
    ensures
        r == match wanted {
            Some(w) => w@ == text@,
            None => true,
        },
{
    match wanted {
        Some(w) => *w == *text,
        None => true,
    }
}

/// The event is of this exchange, agent and token, each where one is given.
fn event_fits(
    ev: &HistoryEvent,
    exchange: Option<&String>,
    agent: Option<&String>,
    token: Option<&String>,
) -> (r: bool)
    ensures
        r == fits(*ev, chars(exchange), chars(agent), chars(token)),
{
    text_fits(exchange, &ev.exchange) && text_fits(agent, &ev.agent) && text_fits(token, &ev.token)
}

/// A field of the selected events, in order, each name once.
fn names_in(
    events: &Vec<HistoryEvent>,
    exchange: Option<&String>,
    token: Option<&String>,
    field: Field,
) -> (r: Vec<String>)
    ensures
        lists_all(texts(r@), events@, selected(chars(exchange), None, chars(token)), field),
{
    let ghost p = selected(chars(exchange), None, chars(token));
    let mut found: Vec<String> = Vec::new();
    let mut n: usize = 0;
    while n < events.len()
        invariant
            n <= events@.len(),
            p == selected(chars(exchange), None, chars(token)),
            forall|t: Seq<char>| #[trigger]
                texts(found@).contains(t) <==> exists|i: int|
                    0 <= i < n && p(#[trigger] events@[i]) && field.text(events@[i]) == t,
        decreases events@.len() - n,
    {
        let ev: &HistoryEvent = &events[n];
        let ghost before = found@;
        if event_fits(ev, exchange, None, token) {
            let name: String = match field {
                Field::Exchange => ev.exchange.clone(),
                Field::Agent => ev.agent.clone(),
                Field::Token => ev.token.clone(),
            };
            found.push(name);
            assert(texts(found@) =~= texts(before).push(field.text(*ev)));
        }
        proof {
            let now = texts(found@);
            let had = texts(before);
            assert forall|t: Seq<char>| #[trigger] now.contains(t) <==> exists|i: int|
                0 <= i < n + 1 && p(#[trigger] events@[i]) && field.text(events@[i]) == t by {
                if now.contains(t) {
                    let x = choose|x: int| 0 <= x < now.len() && now[x] == t;
                    if x < had.len() {
                        assert(had[x] == t);
                        assert(had.contains(t));
                        let i = choose|i: int|
                            0 <= i < n && p(#[trigger] events@[i]) && field.text(events@[i]) == t;
                        assert(p(events@[i]));
                    } else {
                        assert(p(events@[n as int]));
                    }
                }
                if exists|i: int|
                    0 <= i < n + 1 && p(#[trigger] events@[i]) && field.text(events@[i]) == t {
                    let i = choose|i: int|
                        0 <= i < n + 1 && p(#[trigger] events@[i]) && field.text(events@[i]) == t;
                    if i < n {
                        assert(had.contains(t));
                        let x = choose|x: int| 0 <= x < had.len() && had[x] == t;
                        assert(now[x] == t);
                    } else {
                        assert(now[now.len() - 1] == t);
                    }
                }
            }
        }
        n += 1;
    }
    sorted_set(&found)
}

/// The tally of the selected events, and the token of the last of them.
fn tally_events(
    events: &Vec<HistoryEvent>,
    exchange: &String,
    agent: Option<&String>,
    token: Option<&String>,
) -> (r: (Tally, String))
    ensures
        r.0 == tally_of(events@, selected(Some(exchange@), chars(agent), chars(token))),
        r.1@ == last_token(events@, selected(Some(exchange@), chars(agent), chars(token))),
{
    let ghost p = selected(Some(exchange@), chars(agent), chars(token));
    let mut tally: Tally = Tally::new();
    let mut symbol: String = String::new();
    let mut n: usize = 0;
    assert(events@.take(0) =~= Seq::empty());
    while n < events.len()
        invariant
            n <= events@.len(),
            p == selected(Some(exchange@), chars(agent), chars(token)),
            tally == tally_of(events@.take(n as int), p),
            symbol@ == last_token(events@.take(n as int), p),
        decreases events@.len() - n,
    {
        let ev: &HistoryEvent = &events[n];
        proof {
            assert(events@.take(n + 1).drop_last() =~= events@.take(n as int));
            assert(events@.take(n + 1).last() == *ev);
        }
        if event_fits(ev, Some(exchange), agent, token) {
            tally.take_in(ev);
            symbol = ev.token.clone();
        }
        n += 1;
    }
    assert(events@.take(events@.len() as int) =~= events@);
    (tally, symbol)
}

/// One account of the summary.
fn account_of(
    events: &Vec<HistoryEvent>,
    exchange: &String,
    active: &Vec<String>,
    elapsed_ms: i64,
) -> (r: Account)
    requires
        elapsed_ms > 0,
    ensures
        r.name@ == exchange@,
        shows_account(r, events@, texts(active@), elapsed_ms),
{
    let names: Vec<String> = names_in(events, Some(exchange), None, Field::Agent);
    let mut agents: Vec<AgentRow> = Vec::new();
    let mut together: Tally = Tally::new();
    let mut n: usize = 0;
    assert(texts(names@).take(0) =~= Seq::empty());
    assert(row_names(agents@) =~= Seq::empty());
    while n < names.len()
        invariant
            n <= names@.len(),
            elapsed_ms > 0,
            row_names(agents@) == texts(names@).take(n as int),
            forall|i: int|
                0 <= i < agents@.len() ==> shows_agent(
                    #[trigger] agents@[i],
                    events@,
                    exchange@,
                    texts(active@),
                    elapsed_ms,
                ),
            together == tally_together(events@, exchange@, texts(names@).take(n as int)),
        decreases names@.len() - n,
    {
        let name: String = names[n].clone();
        let (tally, symbol): (Tally, String) = tally_events(events, exchange, Some(&name), None);
        let is_active: bool = holds(active, name.as_str());
        proof {
            let t = texts(names@);
            assert(t.take(n + 1).drop_last() =~= t.take(n as int));
            assert(t.take(n + 1).last() == name@);
        }
        together.add_tally(&tally);
        let ghost before = agents@;
        agents.push(AgentRow { name, symbol, active: is_active, figures: tally.show(elapsed_ms) });
        assert(row_names(agents@) =~= texts(names@).take(n + 1));
        n += 1;
    }
    assert(texts(names@).take(names@.len() as int) =~= texts(names@));
    Account { name: exchange.clone(), agents, cumulative: together.show(elapsed_ms) }
}

/// The accounts of the summary.
fn accounts_of(events: &Vec<HistoryEvent>, active: &Vec<String>, elapsed_ms: i64) -> (r: Vec<
    Account,
>)
    requires
        elapsed_ms > 0,
    ensures
        shows_accounts(r@, events@, texts(active@), elapsed_ms),
{
    let names: Vec<String> = names_in(events, None, None, Field::Exchange);
    let mut out: Vec<Account> = Vec::new();
    let mut n: usize = 0;
    assert(account_names(out@) =~= texts(names@).take(0));
    while n < names.len()
        invariant
            n <= names@.len(),
            elapsed_ms > 0,
            account_names(out@) == texts(names@).take(n as int),
            forall|i: int|
                0 <= i < out@.len() ==> shows_account(
                    #[trigger] out@[i],
                    events@,
                    texts(active@),
                    elapsed_ms,
                ),
        decreases names@.len() - n,
    {
        let account: Account = account_of(events, &names[n], active, elapsed_ms);
        let ghost before = out@;
        out.push(account);
        assert(account_names(out@) =~= account_names(before).push(texts(names@)[n as int]));
        assert(account_names(out@) =~= texts(names@).take(n + 1));
        n += 1;
    }
    assert(texts(names@).take(names@.len() as int) =~= texts(names@));
    out
}

/// One token of the summary.
fn coin_of(events: &Vec<HistoryEvent>, exchange: &String, token: &String) -> (r: CoinRow)
    ensures
        r.exchange@ == exchange@,
        r.token@ == token@,
        shows_coin(r, events@),
{
    let agents: Vec<String> = names_in(events, Some(exchange), Some(token), Field::Agent);
    let (t, _symbol): (Tally, String) = tally_events(events, exchange, None, Some(token));
    let per_rtp_pnl: i64 = if t.rtp_count > 0 {
        share_of(t.gross_pnl, t.rtp_count)
    } else {
        0
    };
    CoinRow {
        exchange: exchange.clone(),
        token: token.clone(),
        agents,
        rtp_count: t.rtp_count,
        per_rtp_pnl,
        gross_pnl: t.gross_pnl,
        fees: t.fees,
        rebates: t.rebates,
        net_pnl: t.net_pnl(),
        volume: t.volume,
        basket_hits: t.basket_hits,
        basket_hit_pnl: t.basket_hit_pnl,
    }
}

/// `rows` shows the tokens of the exchanges that `names` lists, in order.
spec fn shows_coins_of(
    rows: Seq<CoinRow>,
    events: Seq<HistoryEvent>,
    names: Seq<Seq<char>>,
) -> bool {
    &&& forall|i: int| 0 <= i < rows.len() ==> shows_coin(#[trigger] rows[i], events)
    &&& forall|i: int, j: int|
        0 <= i < j < rows.len() ==> pair_precedes(
            coin_key(#[trigger] rows[i]),
            coin_key(#[trigger] rows[j]),
        )
    &&& forall|i: int|
        0 <= i < rows.len() ==> names.contains((#[trigger] rows[i]).exchange@) && was_traded(
            events,
            rows[i].exchange@,
            rows[i].token@,
        )
    &&& forall|x: int|
        0 <= x < events.len() && names.contains((#[trigger] events[x]).exchange@) ==> has_row(
            rows,
            events[x].exchange@,
            events[x].token@,
        )
}

/// Adds the tokens of one exchange to the summary.
fn add_coins(
    rows: &mut Vec<CoinRow>,
    events: &Vec<HistoryEvent>,
    exchange: &String,
    Ghost(names): Ghost<Seq<Seq<char>>>,
)
    requires
        shows_coins_of(old(rows)@, events@, names),
        forall|i: int|
            0 <= i < names.len() ==> crate::text::precedes(#[trigger] names[i], exchange@),
    ensures
        shows_coins_of(final(rows)@, events@, names.push(exchange@)),
{
    let tokens: Vec<String> = names_in(events, Some(exchange), None, Field::Token);
    let ghost more = names.push(exchange@);
    let ghost had = rows@.len();
    let ghost t = texts(tokens@);
    let mut n: usize = 0;
    proof {
        assert forall|i: int| 0 <= i < rows@.len() implies more.contains(
            (#[trigger] rows@[i]).exchange@,
        ) by {
            let x = choose|x: int| 0 <= x < names.len() && names[x] == rows@[i].exchange@;
            assert(more[x] == rows@[i].exchange@);
        }
    }
    while n < tokens.len()
        invariant
            n <= tokens@.len(),
            t == texts(tokens@),
            more == names.push(exchange@),
            lists_all(t, events@, of_exchange(exchange@), Field::Token),
            rows@.len() == had + n,
            rows@.take(had as int) == old(rows)@,
            had == old(rows)@.len(),
            shows_coins_of(old(rows)@, events@, names),
            forall|i: int|
                0 <= i < names.len() ==> crate::text::precedes(#[trigger] names[i], exchange@),
            forall|i: int| 0 <= i < rows@.len() ==> shows_coin(#[trigger] rows@[i], events@),
            forall|i: int|
                had <= i < rows@.len() ==> (#[trigger] rows@[i]).exchange@ == exchange@
                    && rows@[i].token@ == t[i - had],
        decreases tokens@.len() - n,
    {
        let ghost before = rows@;
        let row: CoinRow = coin_of(events, exchange, &tokens[n]);
        rows.push(row);
        assert(rows@.take(had as int) =~= before.take(had as int));
        n += 1;
    }
    proof {
        let first = old(rows)@;
        let all = rows@;
        assert forall|i: int| 0 <= i < had implies all[i] == first[i] by {
            assert(all.take(had as int)[i] == all[i]);
        }
        assert forall|i: int, j: int| 0 <= i < j < all.len() implies pair_precedes(
            coin_key(#[trigger] all[i]),
            coin_key(#[trigger] all[j]),
        ) by {
            if j < had {
                assert(pair_precedes(coin_key(first[i]), coin_key(first[j])));
            } else if i < had {
                assert(names.contains(first[i].exchange@));
                let x = choose|x: int| 0 <= x < names.len() && names[x] == first[i].exchange@;
                assert(crate::text::precedes(names[x], exchange@));
            } else {
                assert(crate::text::precedes(t[i - had], t[j - had]));
            }
        }
        assert forall|i: int| 0 <= i < all.len() implies more.contains(
            (#[trigger] all[i]).exchange@,
        ) && was_traded(events@, all[i].exchange@, all[i].token@) by {
            if i < had {
                let y = choose|y: int| 0 <= y < names.len() && names[y] == first[i].exchange@;
                assert(more[y] == all[i].exchange@);
            } else {
                assert(more[names.len() as int] == exchange@);
                assert(t.contains(t[i - had]));
                let p = of_exchange(exchange@);
                let x = choose|x: int|
                    0 <= x < events@.len() && p(#[trigger] events@[x]) && Field::Token.text(
                        events@[x],
                    ) == t[i - had];
                assert(events@[x].exchange@ == all[i].exchange@);
            }
        }
        assert forall|x: int|
            0 <= x < events@.len() && more.contains(
                (#[trigger] events@[x]).exchange@,
            ) implies has_row(all, events@[x].exchange@, events@[x].token@) by {
            let y = choose|y: int| 0 <= y < more.len() && more[y] == events@[x].exchange@;
            if y < names.len() {
                assert(names[y] == events@[x].exchange@);
                assert(has_row(first, events@[x].exchange@, events@[x].token@));
                let i = choose|i: int|
                    0 <= i < first.len() && (#[trigger] first[i]).exchange@ == events@[x].exchange@
                        && first[i].token@ == events@[x].token@;
                assert(all[i].exchange@ == events@[x].exchange@);
            } else {
                let p = of_exchange(exchange@);
                assert(p(events@[x]));
                assert(t.contains(events@[x].token@));
                let k = choose|k: int| 0 <= k < t.len() && t[k] == events@[x].token@;
                assert(all[had + k].exchange@ == events@[x].exchange@);
            }
        }
    }
}

/// The tokens of the summary.
fn coins_of(events: &Vec<HistoryEvent>) -> (r: Vec<CoinRow>)
    ensures
        shows_coins(r@, events@),
{
    let names: Vec<String> = names_in(events, None, None, Field::Exchange);
    let ghost t = texts(names@);
    let mut rows: Vec<CoinRow> = Vec::new();
    let mut n: usize = 0;
    assert(t.take(0) =~= Seq::empty());
    while n < names.len()
        invariant
            n <= names@.len(),
            t == texts(names@),
            ascending(t),
            shows_coins_of(rows@, events@, t.take(n as int)),
        decreases names@.len() - n,
    {
        proof {
            assert forall|i: int| 0 <= i < n implies crate::text::precedes(
                #[trigger] t.take(n as int)[i],
                names@[n as int]@,
            ) by {
                assert(crate::text::precedes(t[i], t[n as int]));
            }
            assert(t.take(n as int).push(names@[n as int]@) =~= t.take(n + 1));
        }
        add_coins(&mut rows, events, &names[n], Ghost(t.take(n as int)));
        n += 1;
    }
    proof {
        assert(t.take(t.len() as int) =~= t);
        let p = any_event();
        assert forall|x: int| 0 <= x < events@.len() implies has_row(
            rows@,
            (#[trigger] events@[x]).exchange@,
            events@[x].token@,
        ) by {
            assert(p(events@[x]));
            assert(t.contains(events@[x].exchange@));
        }
    }
    rows
}

/// `r` is the summary of events at a moment.
pub open spec fn summarizes(
    r: Report,
    events: Seq<HistoryEvent>,
    active: Seq<Seq<char>>,
    query: SummaryQuery,
    now_ms: i64,
) -> bool {
    let w = Window::asked(query, now_ms);
    let kept = events.filter(covered(w));
    &&& r.window == w
    &&& r.hours == w.whole_hours()
    &&& shows_accounts(r.accounts@, kept, active, w.elapsed())
    &&& shows_coins(r.rows@, kept)
}

/// The summary of events at a given moment: per account and agent, and per
/// exchange and token. `active` names the agents that are running.
pub fn summary_at(
    events: &Vec<HistoryEvent>,
    active: &Vec<String>,
    query: &SummaryQuery,
    now_ms: i64,
) -> (r: Report)
    ensures
        summarizes(r, events@, texts(active@), *query, now_ms),
{
    let window: Window = Window::of(query, now_ms);
    let kept: Vec<HistoryEvent> = within(events, &window);
    let elapsed_ms: i64 = max(minus(window.until_ms, window.since_ms), 1);
    Report {
        hours: window.hours(),
        window,
        accounts: accounts_of(&kept, active, elapsed_ms),
        rows: coins_of(&kept),
    }
}

/// The summary of events as of now.
pub fn summary(events: &Vec<HistoryEvent>, active: &Vec<String>, query: &SummaryQuery) -> (r: Report)
    ensures
        exists|now_ms: i64| #[trigger]
            summarizes(r, events@, texts(active@), *query, now_ms),
{
    let now: i64 = crate::clock::now_ms();
    summary_at(events, active, query, now)
}

/// How many events satisfy `p`.
pub open spec fn event_count(events: Seq<HistoryEvent>, p: spec_fn(HistoryEvent) -> bool) -> nat
    decreases events.len(),
{
    if events.len() == 0 {
        0
    } else {
        event_count(events.drop_last(), p) + if p(events.last()) {
            1nat
        } else {
            0nat
        }
    }
}

/// The round trips among the events that satisfy `p`.
pub open spec fn trips_among(p: spec_fn(HistoryEvent) -> bool) -> spec_fn(HistoryEvent) -> bool {
    |ev: HistoryEvent| p(ev) && is_round_trip(ev.kind@)
}

/// The events of an exchange whose agent is one of these.
spec fn of_agents(exchange: Seq<char>, agents: Seq<Seq<char>>) -> spec_fn(HistoryEvent) -> bool {
    |ev: HistoryEvent| ev.exchange@ == exchange && agents.contains(ev.agent@)
}

/// A tally counts every round trip among its events.
pub proof fn tallies_count_round_trips(
    events: Seq<HistoryEvent>,
    p: spec_fn(HistoryEvent) -> bool,
)
    requires
        events.len() <= u64::MAX,
    ensures
        tally_of(events, p).rtp_count == event_count(events, trips_among(p)),
        event_count(events, trips_among(p)) <= events.len(),
    decreases events.len(),
{
    if events.len() > 0 {
        tallies_count_round_trips(events.drop_last(), p);
    }
}

/// Counting is the same for predicates that agree on the events.
proof fn lemma_count_agrees(
    events: Seq<HistoryEvent>,
    p: spec_fn(HistoryEvent) -> bool,
    q: spec_fn(HistoryEvent) -> bool,
)
    requires
        forall|i: int| 0 <= i < events.len() ==> p(#[trigger] events[i]) == q(events[i]),
    ensures
        event_count(events, p) == event_count(events, q),
    decreases events.len(),
{
    if events.len() > 0 {
        let front = events.drop_last();
        assert forall|i: int| 0 <= i < front.len() implies p(#[trigger] front[i])
            == q(front[i]) by {
            assert(front[i] == events[i]);
        }
        lemma_count_agrees(front, p, q);
        assert(events.last() == events[events.len() - 1]);
    }
}

/// One agent more adds its own events.
proof fn lemma_count_one_more(
    events: Seq<HistoryEvent>,
    exchange: Seq<char>,
    agents: Seq<Seq<char>>,
    agent: Seq<char>,
)
    requires
        !agents.contains(agent),
    ensures
        event_count(events, trips_among(of_agents(exchange, agents.push(agent)))) == event_count(
            events,
            trips_among(of_agents(exchange, agents)),
        ) + event_count(events, trips_among(of_agent(exchange, agent))),
    decreases events.len(),
{
    if events.len() > 0 {
        lemma_count_one_more(events.drop_last(), exchange, agents, agent);
        let name = events.last().agent@;
        let more = agents.push(agent);
        if agents.contains(name) {
            let i = choose|i: int| 0 <= i < agents.len() && agents[i] == name;
            assert(more[i] == name);
        }
        if name == agent {
            assert(more[agents.len() as int] == name);
        }
        if more.contains(name) && name != agent {
            let i = choose|i: int| 0 <= i < more.len() && more[i] == name;
            assert(agents[i] == name);
        }
    }
}

/// Agents together count what each of them counts.
proof fn lemma_together_counts(
    events: Seq<HistoryEvent>,
    exchange: Seq<char>,
    agents: Seq<Seq<char>>,
)
    requires
        events.len() <= u64::MAX,
        ascending(agents),
    ensures
        tally_together(events, exchange, agents).rtp_count == event_count(
            events,
            trips_among(of_agents(exchange, agents)),
        ),
    decreases agents.len(),
{
    let p = of_agents(exchange, agents);
    tallies_count_round_trips(events, p);
    if agents.len() == 0 {
        lemma_count_none(events, trips_among(p));
    } else {
        let front = agents.drop_last();
        let last = agents.last();
        assert(front.push(last) =~= agents);
        assert forall|i: int, j: int| 0 <= i < j < front.len() implies crate::text::precedes(
            #[trigger] front[i],
            #[trigger] front[j],
        ) by {
            assert(crate::text::precedes(agents[i], agents[j]));
        }
        if front.contains(last) {
            let i = choose|i: int| 0 <= i < front.len() && front[i] == last;
            assert(crate::text::precedes(agents[i], agents[agents.len() - 1]));
            crate::text::one_text_precedes(last, last);
        }
        lemma_together_counts(events, exchange, front);
        lemma_count_one_more(events, exchange, front, last);
        tallies_count_round_trips(events, of_agent(exchange, last));
    }
}

/// Nothing that nothing satisfies is counted.
proof fn lemma_count_none(events: Seq<HistoryEvent>, p: spec_fn(HistoryEvent) -> bool)
    requires
        forall|ev: HistoryEvent| !#[trigger] p(ev),
    ensures
        event_count(events, p) == 0,
    decreases events.len(),
{
    if events.len() > 0 {
        lemma_count_none(events.drop_last(), p);
    }
}

/// The cumulative row of an account counts every round trip of the account
/// once: as many as there are among all its events.
pub proof fn accounts_count_every_round_trip(
    events: Seq<HistoryEvent>,
    exchange: Seq<char>,
    agents: Seq<Seq<char>>,
)
    requires
        events.len() <= u64::MAX,
        lists_all(agents, events, of_exchange(exchange), Field::Agent),
    ensures
        tally_together(events, exchange, agents).rtp_count == tally_of(
            events,
            of_exchange(exchange),
        ).rtp_count,
{
    lemma_together_counts(events, exchange, agents);
    tallies_count_round_trips(events, of_exchange(exchange));
    let p = trips_among(of_agents(exchange, agents));
    let q = trips_among(of_exchange(exchange));
    let r = of_exchange(exchange);
    assert forall|i: int| 0 <= i < events.len() implies p(#[trigger] events[i]) == q(
        events[i],
    ) by {
        if events[i].exchange@ == exchange {
            assert(r(events[i]) && Field::Agent.text(events[i]) == events[i].agent@);
            assert(agents.contains(events[i].agent@));
        }
    }
    lemma_count_agrees(events, p, q);
}

} // verus!
