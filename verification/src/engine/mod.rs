//! One agent's engine: its state, and the decisions that drive it.
//!
//! The engine does no input or output. Whoever runs it performs the orders,
//! cancellations and reads that it asks for, and hands back what came of them.
pub mod connect;
pub mod exits;
pub mod fills;
pub mod parking;
pub mod stops;
pub mod ticks;

use vstd::prelude::*;

use crate::amount::{abs, clamp, clamped, gap, larger, max, minus, plus};
use crate::clock::is_time_of_day;
use crate::engines::basket_manager::{
    lists_book, net_total, open_total, realized_total, seeded, BasketManager,
};
use crate::engines::grid::GridEngine;
use crate::engines::kill_switch::KillSwitch;
use crate::engines::risk::{RiskEngine, RiskState};
use crate::engines::slicing::SlicingEngine;
use crate::engines::trade_tracker::{Lot, Totals, TradeTracker};
use crate::lists::{keep_last, last_of};
use crate::models::basket::Basket;
use crate::models::config::{AgentConfig, Exchange};
use crate::models::order::{Fill, Order, Side};
use crate::models::trade_stats::{RoundTrip, TradeStats};
use crate::names::texts;

verus! {

/// How many lines the status log keeps.
pub const LOG_LINES: usize = 200;

/// How many fills the engine remembers.
pub const FILLS_KEPT: usize = 1000;

/// A take-profit that waits off the exchange for a free slot near mid.
#[derive(Debug, Clone, Copy, PartialEq, Eq, Structural)]
pub struct ParkedTp {
    pub basket_id: u128,
    pub side: Side,
    pub price: i64,
    pub qty: i64,
}

/// An agent's engine.
pub struct EngineHandle {
    pub config: AgentConfig,
    pub basket_mgr: BasketManager,
    pub grid: GridEngine,
    pub risk: RiskEngine,
    pub slicing: SlicingEngine,
    pub kill_switch: KillSwitch,
    pub trade_tracker: TradeTracker,
    /// The latest fills, oldest first.
    pub recent_fills: Vec<Fill>,
    /// The status log, oldest line first.
    pub log: Vec<String>,
    pub running: bool,
    /// The last mid that was read; zero before any.
    pub mid_price: i64,
    /// Mid at the start of the current cycle; zero before the first.
    pub cycle_anchor: i64,
    /// Mid when the engine started; zero before that.
    pub start_price: i64,
    pub basket_hits: u32,
    /// When the position was last held against the exchange's, in
    /// milliseconds of a clock that never runs backwards.
    pub last_drift_check: Option<u64>,
    pub parked_tps: Vec<ParkedTp>,
}

/// An engine as it is shown to the outside.
pub struct EngineSnapshot {
    pub running: bool,
    pub kill_switch_tripped: bool,
    pub kill_switch_reason: Option<String>,
    pub mid_price: i64,
    pub total_open_qty: i64,
    pub total_realized_pnl: i64,
    pub baskets: Vec<Basket>,
    pub open_orders: Vec<Order>,
    pub recent_fills: Vec<Fill>,
    pub risk: RiskState,
    pub log: Vec<String>,
    pub exchange_name: String,
    pub trade_stats: TradeStats,
    pub round_trips: Vec<RoundTrip>,
    pub start_price: i64,
    pub cycle_anchor: i64,
    /// The anchor less the cycle distance; zero without an anchor.
    pub cycle_lower: i64,
    /// The anchor plus the cycle distance; zero without an anchor.
    pub cycle_upper: i64,
    pub grid_distance: i64,
    pub basket_hits: u32,
    pub max_basket_hits: u32,
    /// The position that the exchange reports, signed.
    pub exchange_position: i64,
    /// The position that the baskets add up to, signed.
    pub bot_net_qty: i64,
    pub position_drift: i64,
    pub parked_tp_count: usize,
}

/// A log line with its time.
pub open spec fn stamped(stamp: Seq<char>, line: Seq<char>) -> Seq<char> {
    "["@ + stamp + "] "@ + line
}

/// `after` is the log with a line added under some time, cut to its length.
pub open spec fn logged(before: Seq<String>, after: Seq<String>, line: Seq<char>) -> bool {
    exists|stamp: Seq<char>| #[trigger]
        is_time_of_day(stamp) && texts(after) == last_of(
            texts(before).push(stamped(stamp, line)),
            LOG_LINES as nat,
        )
}

/// Contracts of this exchange are inverse: sized in quote currency.
pub open spec fn is_inverse_venue(exchange: Exchange) -> bool {
    exchange == Exchange::Deribit
}

impl EngineHandle {
    /// The book is in order, and neither log nor fills outgrow their limits.
    pub open spec fn wf(&self) -> bool {
        &&& self.basket_mgr.wf()
        &&& self.log@.len() <= LOG_LINES
        &&& self.recent_fills@.len() <= FILLS_KEPT
    }

    /// The baskets by identifier.
    pub open spec fn book(&self) -> Map<u128, Basket> {
        self.basket_mgr.book()
    }

    /// The width of a cycle on either side of its anchor.
    pub open spec fn distance(&self) -> i64 {
        larger(self.config.trading.grid_distance as int, 0) as i64
    }

    /// The orders kept on each side: at least one.
    pub open spec fn depth(&self) -> int {
        larger(self.config.trading.grid_depth as int, 1)
    }

    /// The width of a cycle on either side of its anchor.
    pub fn cycle_distance(&self) -> (r: i64)
        ensures
            r == self.distance(),
    {
        max(self.config.trading.grid_distance, 0)
    }

    /// The orders kept on each side.
    pub fn side_depth(&self) -> (r: usize)
        ensures
            r == self.depth(),
    {
        if self.config.trading.grid_depth >= 1 {
            self.config.trading.grid_depth as usize
        } else {
            1
        }
    }

    /// A new engine with baskets of its own, whose session starts now.
    pub fn new(config: AgentConfig) -> (r: Self)
        ensures
            r.wf(),
            r.config == config,
            exists|ids: Seq<u128>|
                {
                    &&& #[trigger] ids.len() == config.basket.num_baskets
                    &&& forall|i: int|
                        0 <= i < ids.len() ==> crate::ids::is_random_id(#[trigger] ids[i])
                    &&& r.book() == seeded(
                        ids,
                        config.basket.basket_size_qty,
                        is_inverse_venue(config.trading.exchange),
                        config.trading.tp_spread,
                    )
                },
            r.basket_mgr.links() == Map::<u128, u128>::empty(),
            r.basket_mgr.config == config.basket,
            r.basket_mgr.active_basket_id is None,
            r.unused(config),
    {
        let is_inverse: bool = config.trading.exchange == Exchange::Deribit;
        let basket_mgr: BasketManager = BasketManager::new(
            config.basket,
            is_inverse,
            config.trading.tp_spread,
        );
        Self::assemble(config, basket_mgr, crate::clock::now_ms())
    }

    /// Nothing has happened to the engine yet.
    pub open spec fn unused(&self, config: AgentConfig) -> bool {
        let is_inverse = is_inverse_venue(config.trading.exchange);
        &&& self.grid.trading == config.trading
        &&& self.grid.max_position_cap == config.kill_switch.max_position_cap
        &&& self.grid.last_grid_summary is None
        &&& self.grid.pending_log@.len() == 0
        &&& self.risk == (RiskEngine {
            config: config.kill_switch,
            api_connected: true,
            is_inverse,
        })
        &&& self.slicing.config == config.slicing
        &&& !self.kill_switch.tripped
        &&& self.kill_switch.reason is None
        &&& self.trade_tracker.is_inverse == is_inverse
        &&& forall|b: u128| #[trigger] self.trade_tracker.queue(b) == Seq::<Lot>::empty()
        &&& self.trade_tracker.round_trips@ == Seq::<RoundTrip>::empty()
        &&& self.trade_tracker.totals == Totals::zero()
        &&& self.recent_fills@.len() == 0
        &&& self.log@.len() == 0
        &&& !self.running
        &&& self.mid_price == 0
        &&& self.cycle_anchor == 0
        &&& self.start_price == 0
        &&& self.basket_hits == 0
        &&& self.last_drift_check is None
        &&& self.parked_tps@.len() == 0
    }

    /// A new engine around given baskets, with a given start of its session.
    pub fn assemble(config: AgentConfig, basket_mgr: BasketManager, start_ms: i64) -> (r: Self)
        ensures
            r.config == config,
            r.basket_mgr == basket_mgr,
            r.trade_tracker.start_time_ms == start_ms,
            r.unused(config),
    {
        let is_inverse: bool = config.trading.exchange == Exchange::Deribit;
        EngineHandle {
            basket_mgr,
            grid: GridEngine::new(config.trading.clone(), config.kill_switch.max_position_cap),
            risk: RiskEngine::new(config.kill_switch, is_inverse),
            slicing: SlicingEngine::new(config.slicing),
            kill_switch: KillSwitch::new(),
            trade_tracker: TradeTracker::new(start_ms, is_inverse),
            recent_fills: Vec::new(),
            log: Vec::new(),
            running: false,
            mid_price: 0,
            cycle_anchor: 0,
            start_price: 0,
            basket_hits: 0,
            last_drift_check: None,
            parked_tps: Vec::new(),
            config,
        }
    }

    /// Adds a line to the status log under the time of day. The log keeps its
    /// latest lines.
    pub fn log_line(&mut self, line: String)
        ensures
            logged(old(self).log@, final(self).log@, line@),
            final(self).log@.len() <= LOG_LINES,
            *final(self) == (EngineHandle { log: final(self).log, ..*old(self) }),
    {
        let stamp: String = crate::clock::time_of_day();
        let mut text: String = String::new();
        text.append("[");
        text.append(stamp.as_str());
        text.append("] ");
        text.append(line.as_str());
        assert(text@ =~= stamped(stamp@, line@));
        self.log.push(text);
        let ghost grown = self.log@;
        keep_last(&mut self.log, LOG_LINES);
        proof {
            let want = last_of(texts(old(self).log@).push(stamped(stamp@, line@)), LOG_LINES as nat);
            assert(texts(grown) =~= texts(old(self).log@).push(stamped(stamp@, line@)));
            assert(texts(self.log@) =~= want);
        }
    }

    /// The position that the baskets add up to.
    pub open spec fn net(&self) -> i64 {
        clamp(net_total(self.book()))
    }

    /// `r` shows this engine, with these readings of the exchange and clock.
    pub open spec fn shows(
        &self,
        open_orders: Vec<Order>,
        exchange_name: String,
        exchange_position: i64,
        now_ms: i64,
        r: EngineSnapshot,
    ) -> bool {
        &&& r.running == self.running
        &&& r.kill_switch_tripped == self.kill_switch.tripped
        &&& match self.kill_switch.reason {
            Some(s) => r.kill_switch_reason matches Some(t) && t@ == s@,
            None => r.kill_switch_reason is None,
        }
        &&& r.mid_price == self.mid_price
        &&& r.total_open_qty == clamp(open_total(self.book()))
        &&& r.total_realized_pnl == clamp(realized_total(self.book()))
        &&& lists_book(r.baskets@, self.book())
        &&& r.open_orders == open_orders
        &&& r.recent_fills@ == self.recent_fills@
        &&& self.risk.judges(
            clamp(open_total(self.book())),
            clamp(realized_total(self.book())),
            self.mid_price,
            r.risk,
        )
        &&& r.log@ == self.log@
        &&& r.exchange_name == exchange_name
        &&& r.trade_stats == self.trade_tracker.stats_at(now_ms)
        &&& r.round_trips@ == last_of(self.trade_tracker.round_trips@, 200).reverse()
        &&& r.start_price == self.start_price
        &&& r.cycle_anchor == self.cycle_anchor
        &&& r.cycle_lower == if self.cycle_anchor > 0 {
            clamp(self.cycle_anchor - self.distance())
        } else {
            0
        }
        &&& r.cycle_upper == if self.cycle_anchor > 0 {
            clamp(self.cycle_anchor + self.distance())
        } else {
            0
        }
        &&& r.grid_distance == self.distance()
        &&& r.basket_hits == self.basket_hits
        &&& r.max_basket_hits == self.config.kill_switch.max_basket_hits
        &&& r.exchange_position == exchange_position
        &&& r.bot_net_qty == self.net()
        &&& r.position_drift == clamp(abs(exchange_position - self.net()))
        &&& r.parked_tp_count == self.parked_tps@.len()
    }

    /// Shows the engine at a given moment.
    pub fn snapshot_at(
        &self,
        open_orders: Vec<Order>,
        exchange_name: String,
        exchange_position: i64,
        now_ms: i64,
    ) -> (r: EngineSnapshot)
        requires
            self.basket_mgr.wf(),
        ensures
            self.shows(open_orders, exchange_name, exchange_position, now_ms, r),
    {
        let anchor: i64 = self.cycle_anchor;
        let distance: i64 = self.cycle_distance();
        let cycle_lower: i64 = if anchor > 0 {
            minus(anchor, distance)
        } else {
            0
        };
        let cycle_upper: i64 = if anchor > 0 {
            plus(anchor, distance)
        } else {
            0
        };
        let bot_net_qty: i64 = self.basket_mgr.net_qty();
        let recent_fills: Vec<Fill> = self.recent_fills.clone();
        let log: Vec<String> = self.log.clone();
        let round_trips: Vec<RoundTrip> = self.trade_tracker.recent_round_trips(200);
        proof {
            assert(recent_fills@ =~= self.recent_fills@);
            assert(log@ =~= self.log@);
            assert(round_trips@ =~= last_of(self.trade_tracker.round_trips@, 200).reverse());
        }
        EngineSnapshot {
            running: self.running,
            kill_switch_tripped: self.kill_switch.is_tripped(),
            kill_switch_reason: self.kill_switch.reason(),
            mid_price: self.mid_price,
            total_open_qty: self.basket_mgr.total_open_qty(),
            total_realized_pnl: self.basket_mgr.total_realized_pnl(),
            baskets: self.basket_mgr.all(),
            open_orders,
            recent_fills,
            risk: self.risk.assess(&self.basket_mgr, self.mid_price),
            log,
            exchange_name,
            trade_stats: self.trade_tracker.stats(now_ms),
            round_trips,
            start_price: self.start_price,
            cycle_anchor: anchor,
            cycle_lower,
            cycle_upper,
            grid_distance: distance,
            basket_hits: self.basket_hits,
            max_basket_hits: self.config.kill_switch.max_basket_hits,
            exchange_position,
            bot_net_qty,
            position_drift: clamped(gap(exchange_position, bot_net_qty) as i128),
            parked_tp_count: self.parked_tps.len(),
        }
    }

    /// Shows the engine as it is now.
    pub fn snapshot(
        &self,
        open_orders: Vec<Order>,
        exchange_name: String,
        exchange_position: i64,
    ) -> (r: EngineSnapshot)
        requires
            self.basket_mgr.wf(),
        ensures
            exists|now_ms: i64|
                self.shows(open_orders, exchange_name, exchange_position, now_ms, r),
    {
        let now: i64 = crate::clock::now_ms();
        self.snapshot_at(open_orders, exchange_name, exchange_position, now)
    }
}

} // verus!
