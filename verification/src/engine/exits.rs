//! Exits of several baskets, as a sequence of actions that the engine asks for.
//!
//! Whatever closes positions clears the way first: no exit goes out before the
//! resting orders that could open the position again were cancelled.
use vstd::prelude::*;

use crate::engine::stops::not_of_basket;
use crate::engine::EngineHandle;
use crate::engines::basket_manager::{chosen, Choice};
use crate::engines::kill_switch::{after_exit, closes_all};
use crate::models::basket::{exit_orders, exits_of, Basket, ExitOrder};
use crate::models::order::OrderPurpose;

verus! {

/// Why positions are closed.
#[derive(Debug, Clone, Copy, PartialEq, Eq, Structural)]
pub enum ExitReason {
    /// The stop-loss of single baskets has fired.
    Stop,
    /// The cycle has reached one of its bounds.
    CycleReset,
    /// The operator asked for it.
    Flush,
    /// The kill switch tripped.
    Trip,
}

/// How far a run of exits has come.
#[derive(Debug, Clone, Copy, PartialEq, Eq, Structural)]
pub enum ExitStage {
    /// Orders are still to be cancelled for the next exit.
    Begin,
    /// The orders that stand in its way were cancelled.
    Cleared,
    /// The positions were listed after all orders were cancelled.
    Listed,
    /// What the exchange still held was closed.
    Swept,
    Ended,
}

/// A run of exits.
pub struct ExitRun {
    pub reason: ExitReason,
    pub stage: ExitStage,
    /// The mid at which the run began.
    pub mid: i64,
    pub queue: Vec<ExitOrder>,
    /// The next exit to send.
    pub at: usize,
}

/// What a run of exits does next.
#[derive(Debug, Clone, Copy, PartialEq, Eq, Structural)]
pub enum ExitAction {
    /// Cancel every resting order.
    CancelAll,
    /// Cancel the resting orders of a basket.
    CancelOrders { basket_id: u128 },
    /// Close a position with reduce-only orders, and book what came of it.
    Send { exit: ExitOrder },
    /// Close what the exchange still holds.
    CloseResidual,
    /// Do what ends a run of this reason.
    Conclude,
    Done,
}

/// The purpose of the exits of a reason.
pub open spec fn purpose_of(reason: ExitReason) -> OrderPurpose {
    match reason {
        ExitReason::Stop | ExitReason::CycleReset => OrderPurpose::StopLossExit,
        ExitReason::Flush | ExitReason::Trip => OrderPurpose::KillSwitchExit,
    }
}

/// `queue` closes the chosen baskets of a book, each once.
pub open spec fn closes(
    queue: Seq<ExitOrder>,
    m: Map<u128, Basket>,
    choice: Choice,
    purpose: OrderPurpose,
) -> bool {
    exists|list: Seq<Basket>| #[trigger]
        chosen(list, m, choice) && queue == exits_of(list, purpose)
}

impl ExitReason {
    /// The purpose of the exits of this reason.
    pub fn purpose(self) -> (r: OrderPurpose)
        ensures
            r == purpose_of(self),
    {
        match self {
            ExitReason::Stop => OrderPurpose::StopLossExit,
            ExitReason::CycleReset => OrderPurpose::StopLossExit,
            ExitReason::Flush => OrderPurpose::KillSwitchExit,
            ExitReason::Trip => OrderPurpose::KillSwitchExit,
        }
    }
}

impl ExitRun {
    /// The run at another stage.
    pub open spec fn at_stage(self, stage: ExitStage) -> ExitRun {
        ExitRun { stage, ..self }
    }

    /// With the way clear: the next exit, or what comes after the last one. A
    /// stop clears the way anew for every basket.
    pub open spec fn send_or_sweep(self) -> (ExitRun, ExitAction) {
        if self.at < self.queue@.len() {
            (
                ExitRun {
                    stage: if self.reason == ExitReason::Stop {
                        ExitStage::Begin
                    } else {
                        ExitStage::Listed
                    },
                    at: (self.at + 1) as usize,
                    ..self
                },
                ExitAction::Send { exit: self.queue@[self.at as int] },
            )
        } else if self.reason == ExitReason::Trip {
            (self.at_stage(ExitStage::Ended), ExitAction::Conclude)
        } else {
            (self.at_stage(ExitStage::Swept), ExitAction::CloseResidual)
        }
    }

    /// What the run does next, and the run after it.
    pub open spec fn advanced(self) -> (ExitRun, ExitAction) {
        match self.stage {
            ExitStage::Begin => if self.reason != ExitReason::Stop {
                (self.at_stage(ExitStage::Cleared), ExitAction::CancelAll)
            } else if self.at < self.queue@.len() {
                (
                    self.at_stage(ExitStage::Cleared),
                    ExitAction::CancelOrders { basket_id: self.queue@[self.at as int].basket_id },
                )
            } else if self.queue@.len() > 0 {
                (self.at_stage(ExitStage::Swept), ExitAction::CloseResidual)
            } else {
                (self.at_stage(ExitStage::Ended), ExitAction::Done)
            },
            ExitStage::Cleared | ExitStage::Listed => self.send_or_sweep(),
            ExitStage::Swept => (
                self.at_stage(ExitStage::Ended),
                if self.reason == ExitReason::Stop {
                    ExitAction::Done
                } else {
                    ExitAction::Conclude
                },
            ),
            ExitStage::Ended => (self, ExitAction::Done),
        }
    }

    /// The run lists positions now: all orders were just cancelled.
    pub open spec fn lists(self) -> bool {
        self.reason != ExitReason::Stop && self.stage == ExitStage::Cleared
    }

    /// `action` takes the run to `after`. Where it lists positions, it starts
    /// with the queue that it listed.
    pub open spec fn moves(self, after: ExitRun, action: ExitAction) -> bool {
        (after, action) == if self.lists() {
            (ExitRun { queue: after.queue, at: 0, ..self }).advanced()
        } else {
            self.advanced()
        }
    }

    /// With the way clear: the next exit, or what comes after the last one.
    fn send(&mut self) -> (r: ExitAction)
        ensures
            (*final(self), r) == old(self).send_or_sweep(),
    {
        if self.at < self.queue.len() {
            let exit: ExitOrder = self.queue[self.at];
            self.at += 1;
            self.stage = if self.reason == ExitReason::Stop {
                ExitStage::Begin
            } else {
                ExitStage::Listed
            };
            ExitAction::Send { exit }
        } else if self.reason == ExitReason::Trip {
            self.stage = ExitStage::Ended;
            ExitAction::Conclude
        } else {
            self.stage = ExitStage::Swept;
            ExitAction::CloseResidual
        }
    }

    /// What the run does next.
    fn advance(&mut self) -> (r: ExitAction)
        ensures
            (*final(self), r) == old(self).advanced(),
    {
        match self.stage {
            ExitStage::Begin => {
                if self.reason != ExitReason::Stop {
                    self.stage = ExitStage::Cleared;
                    ExitAction::CancelAll
                } else if self.at < self.queue.len() {
                    self.stage = ExitStage::Cleared;
                    ExitAction::CancelOrders { basket_id: self.queue[self.at].basket_id }
                } else if self.queue.len() > 0 {
                    self.stage = ExitStage::Swept;
                    ExitAction::CloseResidual
                } else {
                    self.stage = ExitStage::Ended;
                    ExitAction::Done
                }
            },
            ExitStage::Cleared | ExitStage::Listed => self.send(),
            ExitStage::Swept => {
                self.stage = ExitStage::Ended;
                if self.reason == ExitReason::Stop {
                    ExitAction::Done
                } else {
                    ExitAction::Conclude
                }
            },
            ExitStage::Ended => ExitAction::Done,
        }
    }
}

impl EngineHandle {
    /// Begins a run of exits. A stop lists the baskets whose stop-loss has
    /// fired; any other run lists positions only once orders were cancelled.
    pub fn begin_exits(&self, reason: ExitReason) -> (r: ExitRun)
        requires
            self.basket_mgr.wf(),
        ensures
            r.reason == reason,
            r.stage == ExitStage::Begin,
            r.mid == self.mid_price,
            r.at == 0,
            if reason == ExitReason::Stop && !self.kill_switch.tripped && self.mid_price > 0 {
                closes(
                    r.queue@,
                    self.book(),
                    Choice::StoppedOut { mid: self.mid_price },
                    OrderPurpose::StopLossExit,
                )
            } else {
                r.queue@.len() == 0
            },
    {
        let queue: Vec<ExitOrder> = if reason == ExitReason::Stop {
            exit_orders(&self.check_basket_boundaries(), OrderPurpose::StopLossExit)
        } else {
            Vec::new()
        };
        ExitRun { reason, stage: ExitStage::Begin, mid: self.mid_price, queue, at: 0 }
    }

    /// The next action of a run of exits, once the last one was performed:
    /// cancel orders, send exits, close what the exchange still holds, and do
    /// what ends the run. Positions are listed as they are once every order was
    /// cancelled, and a flush then drops the parked take-profits.
    pub fn next_exit(&mut self, run: &mut ExitRun) -> (r: ExitAction)
        requires
            old(self).wf(),
        ensures
            old(run).moves(*final(run), r),
            old(run).lists() ==> match old(run).reason {
                ExitReason::Trip => closes_all(final(run).queue@, old(self).book()),
                _ => closes(
                    final(run).queue@,
                    old(self).book(),
                    Choice::Holding,
                    purpose_of(old(run).reason),
                ),
            },
            if old(run).lists() && old(run).reason == ExitReason::Flush {
                &&& final(self).parked_tps@.len() == 0
                &&& *final(self) == (EngineHandle {
                    parked_tps: final(self).parked_tps,
                    ..*old(self)
                })
            } else {
                *final(self) == *old(self)
            },
            final(self).wf(),
    {
        if run.reason != ExitReason::Stop && run.stage == ExitStage::Cleared {
            run.queue = match run.reason {
                ExitReason::Trip => self.kill_switch.exits(&self.basket_mgr),
                ExitReason::Flush => exit_orders(
                    &self.force_flatten(),
                    OrderPurpose::KillSwitchExit,
                ),
                _ => exit_orders(&self.holdings(), OrderPurpose::StopLossExit),
            };
            run.at = 0;
        }
        run.advance()
    }

    /// The book after the exit of a basket, at its price or, where it failed,
    /// at what stands in for one.
    pub open spec fn book_exited(
        &self,
        reason: ExitReason,
        mid: i64,
        basket_id: u128,
        exit_price: Option<i64>,
    ) -> Map<u128, Basket> {
        let price = match exit_price {
            Some(p) => p,
            None => mid,
        };
        match reason {
            ExitReason::Stop => self.book_stopped(basket_id, price),
            ExitReason::CycleReset => self.book_reset(basket_id, price),
            ExitReason::Flush => self.book_reset(basket_id, self.mid_price),
            ExitReason::Trip => after_exit(self.book(), basket_id, exit_price),
        }
    }

    /// Books what came of an exit. A stop also drops the basket's parked
    /// take-profits and counts as a hit.
    pub fn book_exit(&mut self, run: &ExitRun, basket_id: u128, exit_price: Option<i64>)
        requires
            old(self).wf(),
        ensures
            final(self).wf(),
            final(self).book() == old(self).book_exited(
                run.reason,
                run.mid,
                basket_id,
                exit_price,
            ),
            final(self).parked_tps@ == if run.reason == ExitReason::Stop {
                old(self).parked_tps@.filter(not_of_basket(basket_id))
            } else {
                old(self).parked_tps@
            },
            final(self).basket_hits == if run.reason == ExitReason::Stop {
                old(self).basket_hits.wrapping_add(1)
            } else {
                old(self).basket_hits
            },
            final(self).basket_mgr.links() == old(self).basket_mgr.links(),
            final(self).basket_mgr.config == old(self).basket_mgr.config,
            final(self).basket_mgr.active_basket_id == old(self).basket_mgr.active_basket_id,
            *final(self) == (EngineHandle {
                basket_mgr: final(self).basket_mgr,
                parked_tps: final(self).parked_tps,
                basket_hits: final(self).basket_hits,
                ..*old(self)
            }),
    {
        match run.reason {
            ExitReason::Stop => {
                let _ = self.stop_out(basket_id, exit_price, run.mid);
            },
            ExitReason::CycleReset => self.cycle_exit(basket_id, exit_price, run.mid),
            ExitReason::Flush => self.flush_exit(basket_id),
            ExitReason::Trip => self.kill_switch.settle(
                &mut self.basket_mgr,
                basket_id,
                exit_price,
            ),
        }
    }
}

/// `runs` is a run of exits from its beginning, and `actions` what it did.
pub open spec fn goes_through(runs: Seq<ExitRun>, actions: Seq<ExitAction>) -> bool {
    &&& runs.len() == actions.len() + 1
    &&& runs[0].stage == ExitStage::Begin
    &&& forall|i: int|
        0 <= i < actions.len() ==> (#[trigger] runs[i]).moves(runs[i + 1], actions[i])
}

/// A run keeps its reason.
proof fn lemma_reason_stays(runs: Seq<ExitRun>, actions: Seq<ExitAction>, i: int)
    requires
        goes_through(runs, actions),
        0 <= i < runs.len(),
    ensures
        runs[i].reason == runs[0].reason,
    decreases i,
{
    if i > 0 {
        lemma_reason_stays(runs, actions, i - 1);
        assert(runs[i - 1].moves(runs[i], actions[i - 1]));
    }
}

/// No exit goes out before the orders in its way are cancelled. A trip, a cycle
/// reset and a flush cancel every order before anything else; a stop cancels
/// the orders of a basket right before the exit of that basket.
pub proof fn exits_follow_cancellations(runs: Seq<ExitRun>, actions: Seq<ExitAction>, i: int)
    requires
        goes_through(runs, actions),
        0 <= i < actions.len(),
        actions[i] is Send,
    ensures
        i > 0,
        runs[0].reason != ExitReason::Stop ==> actions[0] == ExitAction::CancelAll,
        runs[0].reason == ExitReason::Stop ==> actions[i - 1] == (ExitAction::CancelOrders {
            basket_id: actions[i]->exit.basket_id,
        }),
{
    assert(runs[0].moves(runs[1], actions[0]));
    assert(runs[i].moves(runs[i + 1], actions[i]));
    lemma_reason_stays(runs, actions, i);
    if i > 0 {
        lemma_reason_stays(runs, actions, i - 1);
        assert(runs[i - 1].moves(runs[i], actions[i - 1]));
    }
}

/// A run sends the exits of its queue in order, each once, and nothing else: an
/// exit is the one that is next, and the run moves past it.
pub proof fn exits_go_out_once(before: ExitRun, after: ExitRun, action: ExitAction)
    requires
        before.moves(after, action),
        action is Send,
    ensures
        ({
            let at = if before.lists() {
                0
            } else {
                before.at as int
            };
            &&& at < after.queue@.len()
            &&& action->exit == after.queue@[at]
            &&& after.at == at + 1
            &&& !before.lists() ==> after.queue == before.queue
        }),
{
    assert(after.queue.len() == after.queue@.len());
}

/// A run that has ended does nothing more.
pub proof fn an_ended_run_is_done(run: ExitRun, after: ExitRun, action: ExitAction)
    requires
        run.stage == ExitStage::Ended,
        run.moves(after, action),
    ensures
        action == ExitAction::Done,
        after == run,
{
}

} // verus!
