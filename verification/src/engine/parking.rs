//! Parked take-profits and their way back onto the exchange.
use vstd::prelude::*;

use crate::amount::{abs, clamp, clamped, gap};
use crate::engine::{EngineHandle, ParkedTp};
use crate::engines::grid::{composition, tally};
use crate::models::order::{Order, Side};

verus! {

/// One pass over the parked take-profits.
pub struct UnparkRun {
    pub mid: i64,
    pub depth: usize,
    /// How far from mid a take-profit may rest.
    pub reach: i64,
    /// What was parked when the pass began.
    pub queue: Vec<ParkedTp>,
    /// The next one to look at.
    pub at: usize,
    /// Those that stay parked.
    pub still: Vec<ParkedTp>,
    pub sells_above: usize,
    pub buys_below: usize,
}

impl UnparkRun {
    /// The pass has not run past its queue.
    pub open spec fn wf(&self) -> bool {
        self.at <= self.queue@.len()
    }

    /// The orders that rest on a side of mid.
    pub open spec fn resting(&self, side: Side) -> usize {
        match side {
            Side::Sell => self.sells_above,
            Side::Buy => self.buys_below,
        }
    }

    /// Within reach of mid, and its side has room.
    pub open spec fn eligible(&self, p: ParkedTp) -> bool {
        abs(p.price - self.mid) <= self.reach && self.resting(p.side) < self.depth
    }

    /// The first eligible take-profit from `i` on; the end when there is none.
    pub open spec fn next_eligible(&self, i: int) -> int
        decreases self.queue@.len() - i,
    {
        if i >= self.queue@.len() || self.eligible(self.queue@[i]) {
            i
        } else {
            self.next_eligible(i + 1)
        }
    }

    /// Everything that is parked or still to be looked at, in order.
    pub open spec fn held(&self) -> Seq<ParkedTp> {
        self.still@ + self.queue@.skip(self.at as int)
    }

    /// Takes in what rests on the exchange.
    pub fn count(&mut self, open: &Vec<Order>)
        ensures
            final(self).sells_above as nat == composition(open@, old(self).mid).0,
            final(self).buys_below as nat == composition(open@, old(self).mid).1,
            *final(self) == (UnparkRun {
                sells_above: final(self).sells_above,
                buys_below: final(self).buys_below,
                ..*old(self)
            }),
    {
        let t: (usize, usize, usize, usize) = tally(open, self.mid);
        self.sells_above = t.0;
        self.buys_below = t.1;
    }

    /// The next take-profit to place. Those before it are not eligible and
    /// stay parked. `None` at the end.
    pub fn next(&mut self) -> (r: Option<ParkedTp>)
        requires
            old(self).wf(),
        ensures
            final(self).wf(),
            final(self).at == old(self).next_eligible(old(self).at as int),
            final(self).still@ == old(self).still@ + old(self).queue@.subrange(
                old(self).at as int,
                final(self).at as int,
            ),
            final(self).held() == old(self).held(),
            r == if final(self).at < old(self).queue@.len() {
                Some(old(self).queue@[final(self).at as int])
            } else {
                None
            },
            r matches Some(p) ==> old(self).eligible(p),
            *final(self) == (UnparkRun {
                at: final(self).at,
                still: final(self).still,
                ..*old(self)
            }),
    {
        while self.at < self.queue.len()
            invariant
                self.wf(),
                old(self).at <= self.at,
                self.next_eligible(self.at as int) == old(self).next_eligible(old(self).at as int),
                self.still@ == old(self).still@ + old(self).queue@.subrange(
                    old(self).at as int,
                    self.at as int,
                ),
                *self == (UnparkRun { at: self.at, still: self.still, ..*old(self) }),
                forall|p: ParkedTp| #[trigger] self.eligible(p) == old(self).eligible(p),
                forall|i: int| #[trigger] self.next_eligible(i) == old(self).next_eligible(i),
            decreases self.queue@.len() - self.at,
        {
            let p: ParkedTp = self.queue[self.at];
            let in_range: bool = gap(p.price, self.mid) as i128 <= self.reach as i128;
            let has_slot: bool = match p.side {
                Side::Sell => self.sells_above < self.depth,
                Side::Buy => self.buys_below < self.depth,
            };
            if in_range && has_slot {
                assert(self.eligible(self.queue@[self.at as int]));
                proof {
                    lemma_held(*old(self), *self);
                }
                return Some(p);
            }
            let ghost before = *self;
            self.still.push(p);
            self.at += 1;
            proof {
                assert(self.still@ =~= old(self).still@ + old(self).queue@.subrange(
                    old(self).at as int,
                    self.at as int,
                ));
                assert forall|i: int| #[trigger]
                    self.next_eligible(i) == old(self).next_eligible(i) by {
                    lemma_same_eligible(*old(self), *self, i);
                }
                assert(!old(self).eligible(p));
                assert(old(self).next_eligible(before.at as int) == old(self).next_eligible(
                    before.at + 1,
                ));
            }
        }
        proof {
            lemma_held(*old(self), *self);
        }
        None
    }

    /// Books the attempt to place the take-profit that was handed out: once it
    /// rests, its side has one more; else it stays parked.
    pub fn settle(&mut self, placed: bool)
        requires
            old(self).wf(),
            old(self).at < old(self).queue@.len(),
        ensures
            final(self).wf(),
            final(self).at == old(self).at + 1,
            ({
                let p = old(self).queue@[old(self).at as int];
                if placed {
                    &&& final(self).still@ == old(self).still@
                    &&& final(self).held() == old(self).held().remove(
                        old(self).still@.len() as int,
                    )
                    &&& final(self).resting(p.side) == old(self).resting(p.side).wrapping_add(1)
                    &&& forall|s: Side|
                        s != p.side ==> #[trigger] final(self).resting(s) == old(self).resting(s)
                } else {
                    &&& final(self).still@ == old(self).still@.push(p)
                    &&& final(self).held() == old(self).held()
                    &&& final(self).sells_above == old(self).sells_above
                    &&& final(self).buys_below == old(self).buys_below
                }
            }),
            final(self).mid == old(self).mid,
            final(self).depth == old(self).depth,
            final(self).reach == old(self).reach,
            final(self).queue == old(self).queue,
    {
        let p: ParkedTp = self.queue[self.at];
        if placed {
            match p.side {
                Side::Sell => {
                    self.sells_above = self.sells_above.wrapping_add(1);
                },
                Side::Buy => {
                    self.buys_below = self.buys_below.wrapping_add(1);
                },
            }
        } else {
            self.still.push(p);
        }
        assert(self.queue.len() == self.queue@.len());
        self.at += 1;
        proof {
            if placed {
                assert(self.held() =~= old(self).held().remove(old(self).still@.len() as int));
            } else {
                assert(self.held() =~= old(self).held());
            }
        }
    }
}

/// Eligibility depends on mid, reach, depth and what rests.
proof fn lemma_same_eligible(a: UnparkRun, b: UnparkRun, i: int)
    requires
        b == (UnparkRun { at: b.at, still: b.still, ..a }),
    ensures
        a.next_eligible(i) == b.next_eligible(i),
    decreases a.queue@.len() - i,
{
    if i < a.queue@.len() && !a.eligible(a.queue@[i]) {
        lemma_same_eligible(a, b, i + 1);
    }
}

/// Moving the front of the queue to the parked ones holds the same.
proof fn lemma_held(a: UnparkRun, b: UnparkRun)
    requires
        b == (UnparkRun { at: b.at, still: b.still, ..a }),
        a.at <= b.at <= a.queue@.len(),
        b.still@ == a.still@ + a.queue@.subrange(a.at as int, b.at as int),
    ensures
        a.held() == b.held(),
{
    assert(a.held() =~= b.held());
}

impl EngineHandle {
    /// Begins a pass over the parked take-profits: takes them all. `None` when
    /// there is no mid, when levels are not apart, or when nothing is parked.
    /// A take-profit may return within as many grid steps as a side has orders.
    pub fn unpark_eligible_tps(&mut self) -> (r: Option<UnparkRun>)
        ensures
            r is None <==> old(self).mid_price <= 0 || old(self).config.trading.grid_step <= 0 || old(
                self,
            ).parked_tps@.len() == 0,
            r matches Some(run) ==> {
                &&& run.mid == old(self).mid_price
                &&& run.depth == old(self).depth()
                &&& run.reach == clamp(old(self).depth() * old(self).config.trading.grid_step)
                &&& run.queue == old(self).parked_tps
                &&& run.at == 0
                &&& run.still@.len() == 0
                &&& run.held() == old(self).parked_tps@
                &&& run.wf()
                &&& final(self).parked_tps@.len() == 0
            },
            r is None ==> *final(self) == *old(self),
            *final(self) == (EngineHandle { parked_tps: final(self).parked_tps, ..*old(self) }),
    {
        if self.mid_price <= 0 || self.config.trading.grid_step <= 0 || self.parked_tps.len() == 0 {
            return None;
        }
        let depth: usize = self.side_depth();
        proof {
            let d = depth as int;
            let s = self.config.trading.grid_step as int;
            assert(0 <= d * s <= 0x1_0000_0000 * 0x8000_0000_0000_0000) by (nonlinear_arith)
                requires
                    0 <= d <= 0x1_0000_0000,
                    0 <= s <= 0x8000_0000_0000_0000,
            ;
        }
        let reach: i64 = clamped(depth as i128 * self.config.trading.grid_step as i128);
        let mut queue: Vec<ParkedTp> = Vec::new();
        std::mem::swap(&mut queue, &mut self.parked_tps);
        let run: UnparkRun = UnparkRun {
            mid: self.mid_price,
            depth,
            reach,
            queue,
            at: 0,
            still: Vec::new(),
            sells_above: 0,
            buys_below: 0,
        };
        assert(run.held() =~= old(self).parked_tps@);
        Some(run)
    }

    /// Ends a pass: what it left parked is parked again.
    pub fn repark(&mut self, run: UnparkRun)
        ensures
            *final(self) == (EngineHandle { parked_tps: run.still, ..*old(self) }),
    {
        self.parked_tps = run.still;
    }
}

} // verus!
