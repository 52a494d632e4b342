//! The main loop, as a sequence of actions that the engine asks for.
use vstd::prelude::*;

use crate::amount::{abs, clamp, clamped, gap, TICK};
use crate::engine::EngineHandle;
use crate::engines::basket_manager::{every_killed, open_total, realized_total};
use crate::text::{digits, push_number};

verus! {

/// How far a pass of the main loop has come.
#[derive(Debug, Clone, Copy, PartialEq, Eq, Structural)]
pub enum TickStage {
    Begin,
    Polled,
    Booked,
    Assessed,
    Stopped,
    Gridded,
    Unparked,
    Reconciled,
    Tripped,
    Rested,
    Ended,
}

/// What the main loop does next.
pub enum TickAction {
    /// Let the exchange report fills.
    PollExchange,
    /// Read the book and hand over its mid.
    ReadBook,
    /// A limit is broken: trip the kill switch.
    TripOnRisk { reason: String },
    /// Stop the baskets whose stop-loss has fired.
    CheckStops,
    /// Run a pass of the grid around an anchor.
    StepGrid { anchor: i64, distance: i64 },
    /// Bring parked take-profits back, and forward the grid's log lines.
    Unpark,
    /// Hold the position against the exchange's.
    CheckDrift,
    /// Every basket is killed: trip the kill switch.
    TripOnExhaustion { reason: String },
    /// Every basket is killed: the engine has stopped.
    Stop,
    /// Wait for the next pass.
    Sleep,
    /// The engine is not running.
    Halt,
}

/// The position of the baskets held against the exchange's.
#[derive(Debug, Clone, Copy, PartialEq, Eq, Structural)]
pub struct Drift {
    pub bot_net_qty: i64,
    pub drift: i64,
    /// More than half a unit apart: a fill was likely missed.
    pub exceeded: bool,
}

/// Milliseconds between two checks of the position.
pub const DRIFT_CHECK_MS: u64 = 3_000;

/// Why the switch trips when baskets ran out.
pub open spec fn exhaustion_text(baskets: nat) -> Seq<char> {
    "all "@ + digits(baskets) + " baskets killed by sequential per-basket SLs"@
}

impl EngineHandle {
    /// A limit is broken and the kill switch has not tripped yet.
    pub open spec fn risk_due(&self) -> bool {
        !self.kill_switch.tripped && self.risk.breach(
            clamp(open_total(self.book())),
            clamp(realized_total(self.book())),
            self.mid_price,
        ) is Some
    }

    /// The grid may be worked on.
    pub open spec fn tradeable(&self) -> bool {
        !self.kill_switch.tripped && !every_killed(self.book())
    }

    /// The last check of the position is long enough ago.
    pub open spec fn drift_due(&self, now_ms: u64) -> bool {
        match self.last_drift_check {
            None => true,
            Some(t) => now_ms - t > DRIFT_CHECK_MS,
        }
    }

    /// The stage that a pass goes to next.
    pub open spec fn stage_after(&self, stage: TickStage, now_ms: u64) -> TickStage {
        match stage {
            TickStage::Begin => if self.running {
                TickStage::Polled
            } else {
                TickStage::Ended
            },
            TickStage::Polled => TickStage::Booked,
            TickStage::Booked => if self.risk_due() {
                TickStage::Assessed
            } else {
                TickStage::Stopped
            },
            TickStage::Assessed => TickStage::Stopped,
            TickStage::Stopped => if self.tradeable() {
                if self.cycle_anchor > 0 && self.distance() > 0 {
                    TickStage::Gridded
                } else {
                    TickStage::Unparked
                }
            } else {
                self.stage_after_grid(now_ms)
            },
            TickStage::Gridded => TickStage::Unparked,
            TickStage::Unparked => self.stage_after_grid(now_ms),
            TickStage::Reconciled => self.stage_at_end(),
            TickStage::Tripped => TickStage::Ended,
            TickStage::Rested => if self.running {
                TickStage::Polled
            } else {
                TickStage::Ended
            },
            TickStage::Ended => TickStage::Ended,
        }
    }

    /// The stage once the grid was worked on or left alone.
    pub open spec fn stage_after_grid(&self, now_ms: u64) -> TickStage {
        if self.drift_due(now_ms) {
            TickStage::Reconciled
        } else {
            self.stage_at_end()
        }
    }

    /// The stage at the end of a pass: the engine ends with its last basket.
    pub open spec fn stage_at_end(&self) -> TickStage {
        if !every_killed(self.book()) {
            TickStage::Rested
        } else if self.kill_switch.tripped {
            TickStage::Ended
        } else {
            TickStage::Tripped
        }
    }

    /// `action` is what reaching a stage asks for.
    pub open spec fn asks(&self, from: TickStage, to: TickStage, action: TickAction) -> bool {
        match to {
            TickStage::Begin => false,
            TickStage::Polled => action is PollExchange,
            TickStage::Booked => action is ReadBook,
            TickStage::Assessed => action matches TickAction::TripOnRisk { reason } && Some(
                reason@,
            ) == self.risk.breach(
                clamp(open_total(self.book())),
                clamp(realized_total(self.book())),
                self.mid_price,
            ),
            TickStage::Stopped => action is CheckStops,
            TickStage::Gridded => action matches TickAction::StepGrid { anchor, distance }
                && anchor == self.cycle_anchor && distance == self.distance(),
            TickStage::Unparked => action is Unpark,
            TickStage::Reconciled => action is CheckDrift,
            TickStage::Tripped => action matches TickAction::TripOnExhaustion { reason } && reason@
                == exhaustion_text(self.book().dom().len()),
            TickStage::Rested => action is Sleep,
            TickStage::Ended => if from == TickStage::Begin || from == TickStage::Rested || from
                == TickStage::Ended {
                action is Halt
            } else {
                action is Stop
            },
        }
    }

    /// Starts the engine.
    pub fn spawn_engine(&mut self) -> (r: TickStage)
        ensures
            r == TickStage::Begin,
            *final(self) == (EngineHandle { running: true, ..*old(self) }),
    {
        self.running = true;
        TickStage::Begin
    }

    /// The check of the position is due.
    fn is_drift_due(&self, now_ms: u64) -> (r: bool)
        ensures
            r == self.drift_due(now_ms),
    {
        match self.last_drift_check {
            None => true,
            Some(t) => now_ms as i128 - t as i128 > DRIFT_CHECK_MS as i128,
        }
    }

    /// Asks for the check of the position when it is due, or ends the pass.
    fn finish_pass(&mut self, stage: &mut TickStage, now_ms: u64) -> (r: TickAction)
        requires
            *old(stage) == TickStage::Stopped || *old(stage) == TickStage::Unparked,
        ensures
            *final(stage) == old(self).stage_after_grid(now_ms),
            old(self).asks(*old(stage), *final(stage), r),
            *final(self) == (EngineHandle {
                last_drift_check: if *final(stage) == TickStage::Reconciled {
                    Some(now_ms)
                } else {
                    old(self).last_drift_check
                },
                running: old(self).running && *final(stage) != TickStage::Ended,
                ..*old(self)
            }),
    {
        if self.is_drift_due(now_ms) {
            self.last_drift_check = Some(now_ms);
            *stage = TickStage::Reconciled;
            return TickAction::CheckDrift;
        }
        self.close_pass(stage)
    }

    /// Ends the pass, and the engine with its last basket.
    fn close_pass(&mut self, stage: &mut TickStage) -> (r: TickAction)
        requires
            *old(stage) == TickStage::Stopped || *old(stage) == TickStage::Unparked || *old(stage)
                == TickStage::Reconciled,
        ensures
            *final(stage) == old(self).stage_at_end(),
            old(self).asks(*old(stage), *final(stage), r),
            *final(self) == (EngineHandle {
                running: old(self).running && *final(stage) != TickStage::Ended,
                ..*old(self)
            }),
    {
        if !self.basket_mgr.all_killed() {
            *stage = TickStage::Rested;
            return TickAction::Sleep;
        }
        if self.kill_switch.is_tripped() {
            self.running = false;
            *stage = TickStage::Ended;
            return TickAction::Stop;
        }
        let mut reason: String = String::new();
        reason.append("all ");
        push_number(&mut reason, self.basket_mgr.len() as u64);
        reason.append(" baskets killed by sequential per-basket SLs");
        assert(reason@ =~= exhaustion_text(self.book().dom().len()));
        *stage = TickStage::Tripped;
        TickAction::TripOnExhaustion { reason }
    }

    /// The next action of the main loop, once the last one was performed:
    /// poll, read the book, weigh the risk, stop baskets, work on the grid,
    /// unpark, now and then check the position, and rest. The engine stops
    /// with its last basket.
    pub fn next_action(&mut self, stage: &mut TickStage, now_ms: u64) -> (r: TickAction)
        ensures
            *final(stage) == old(self).stage_after(*old(stage), now_ms),
            old(self).asks(*old(stage), *final(stage), r),
            *final(self) == (EngineHandle {
                last_drift_check: if *final(stage) == TickStage::Reconciled {
                    Some(now_ms)
                } else {
                    old(self).last_drift_check
                },
                running: old(self).running && *final(stage) != TickStage::Ended,
                ..*old(self)
            }),
    {
        match *stage {
            TickStage::Begin | TickStage::Rested => {
                if self.running {
                    *stage = TickStage::Polled;
                    TickAction::PollExchange
                } else {
                    *stage = TickStage::Ended;
                    TickAction::Halt
                }
            },
            TickStage::Polled => {
                *stage = TickStage::Booked;
                TickAction::ReadBook
            },
            TickStage::Booked => {
                if !self.kill_switch.is_tripped() {
                    let verdict: crate::engines::risk::RiskState = self.risk.assess(
                        &self.basket_mgr,
                        self.mid_price,
                    );
                    if let Some(reason) = verdict.breach_reason {
                        *stage = TickStage::Assessed;
                        return TickAction::TripOnRisk { reason };
                    }
                }
                *stage = TickStage::Stopped;
                TickAction::CheckStops
            },
            TickStage::Assessed => {
                *stage = TickStage::Stopped;
                TickAction::CheckStops
            },
            TickStage::Stopped => {
                if !self.kill_switch.is_tripped() && !self.basket_mgr.all_killed() {
                    let distance: i64 = self.cycle_distance();
                    if self.cycle_anchor > 0 && distance > 0 {
                        *stage = TickStage::Gridded;
                        return TickAction::StepGrid { anchor: self.cycle_anchor, distance };
                    }
                    *stage = TickStage::Unparked;
                    return TickAction::Unpark;
                }
                self.finish_pass(stage, now_ms)
            },
            TickStage::Gridded => {
                *stage = TickStage::Unparked;
                TickAction::Unpark
            },
            TickStage::Unparked => self.finish_pass(stage, now_ms),
            TickStage::Reconciled => self.close_pass(stage),
            TickStage::Tripped => {
                self.running = false;
                *stage = TickStage::Ended;
                TickAction::Stop
            },
            TickStage::Ended => {
                self.running = false;
                TickAction::Halt
            },
        }
    }

    /// Takes in the mid of a book that was read. The first one starts the
    /// session and anchors the first cycle. Says whether it did. A book
    /// without a mid changes nothing.
    pub fn on_book(&mut self, mid: i64) -> (r: bool)
        ensures
            r == (mid > 0 && old(self).cycle_anchor <= 0),
            *final(self) == if mid <= 0 {
                *old(self)
            } else if r {
                EngineHandle { mid_price: mid, cycle_anchor: mid, start_price: mid, ..*old(self) }
            } else {
                EngineHandle { mid_price: mid, ..*old(self) }
            },
    {
        if mid <= 0 {
            return false;
        }
        self.mid_price = mid;
        if self.cycle_anchor <= 0 {
            self.cycle_anchor = mid;
            self.start_price = mid;
            true
        } else {
            false
        }
    }

    /// Holds the position of the baskets against the exchange's.
    pub fn check_drift(&self, exchange_position: i64) -> (r: Drift)
        ensures
            r.bot_net_qty == self.net(),
            r.drift == clamp(abs(exchange_position - self.net())),
            r.exceeded == (abs(exchange_position - self.net()) > TICK),
    {
        let bot_net_qty: i64 = self.basket_mgr.net_qty();
        let apart: u64 = gap(exchange_position, bot_net_qty);
        Drift {
            bot_net_qty,
            drift: clamped(apart as i128),
            exceeded: apart > TICK as u64,
        }
    }

    /// Stops the engine: the main loop ends at its next pass.
    pub fn halt(&mut self)
        ensures
            *final(self) == (EngineHandle { running: false, ..*old(self) }),
    {
        self.running = false;
    }
}

/// While the kill switch is tripped, or once every basket is killed, a pass
/// never works on the grid.
pub proof fn no_entries_after_the_end(h: EngineHandle, stage: TickStage, now_ms: u64)
    requires
        !h.tradeable(),
    ensures
        h.stage_after(stage, now_ms) != TickStage::Gridded,
{
}

/// An engine whose last basket is killed ends its pass by tripping the switch,
/// if that has not happened, and stopping. It stays stopped.
pub proof fn the_last_basket_ends_the_engine(h: EngineHandle, now_ms: u64)
    requires
        every_killed(h.book()),
    ensures
        h.kill_switch.tripped ==> h.stage_at_end() == TickStage::Ended,
        !h.kill_switch.tripped ==> h.stage_at_end() == TickStage::Tripped,
        h.stage_after(TickStage::Reconciled, now_ms) == h.stage_at_end(),
        h.stage_after(TickStage::Tripped, now_ms) == TickStage::Ended,
        h.stage_after(TickStage::Ended, now_ms) == TickStage::Ended,
{
}

/// As long as a basket may trade, the engine does not stop on its own.
pub proof fn a_live_basket_keeps_the_engine(h: EngineHandle, stage: TickStage, now_ms: u64)
    requires
        !every_killed(h.book()),
        h.running,
        stage != TickStage::Tripped,
        stage != TickStage::Ended,
    ensures
        h.stage_after(stage, now_ms) != TickStage::Ended,
{
}

} // verus!
