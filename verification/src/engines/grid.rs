//! The entry grid: which orders are stale, and where new entries go.
use vstd::prelude::*;

use crate::amount::{
    abs, cents, clamp, clamped, gap, larger, max, minus, plus, ratio, round_div, round_down, round_up, scale,
    tick_down, tick_up, CENT, TICK,
};
use crate::engines::basket_manager::{
    every_killed, first_taking, lemma_lowest_is, lemma_seeded, open_total, seeded, seeded_is_full,
    BasketManager, Fit,
};
use crate::lists::lemma_filter_step;
use crate::models::basket::{Basket, BasketSide};
use crate::models::config::TradingConfig;
use crate::models::order::{Order, OrderPurpose, Side};
use crate::text::{digits, push_number};

verus! {

/// The tolerance of price comparisons: a millionth of a unit.
pub const EPSILON: i64 = 100;

/// The highest level that a pass tries on a side.
pub const LAST_LEVEL: u32 = 20;

/// Keeps the grid of entries around mid.
#[derive(Debug)]
pub struct GridEngine {
    pub trading: TradingConfig,
    pub max_position_cap: i64,
    /// Orders above and below mid, entries and targets, as last logged.
    pub last_grid_summary: Option<(usize, usize, usize, usize)>,
    /// Lines for the status log that were not taken yet.
    pub pending_log: Vec<String>,
}

/// Prices of one pass over the grid.
#[derive(Debug, Clone, Copy, PartialEq, Eq, Structural)]
pub struct GridLevels {
    pub mid: i64,
    /// Half of the forbidden zone around mid.
    pub half_spread: i64,
    pub base_sell: i64,
    pub base_buy: i64,
    pub step: i64,
    pub cycle_lower: i64,
    pub cycle_upper: i64,
    pub qty: i64,
}

/// One pass over the grid, sells before buys.
#[derive(Debug)]
pub struct GridPass {
    pub levels: GridLevels,
    /// The prices of resting orders, in cents.
    pub occupied: Vec<i64>,
    /// The side that is being topped up.
    pub side: Side,
    /// The next level to try on that side.
    pub k: u32,
    pub need_sells: usize,
    pub need_buys: usize,
}

/// What a pass does next.
#[derive(Debug, Clone, Copy, PartialEq, Eq, Structural)]
pub enum GridStep {
    /// Place a maker-only entry.
    Place { side: Side, price: i64, qty: i64, basket_id: u128 },
    Done,
}

/// The orders above mid.
pub open spec fn above(mid: i64) -> spec_fn(Order) -> bool {
    |o: Order| o.price > mid
}

/// The orders below mid.
pub open spec fn below(mid: i64) -> spec_fn(Order) -> bool {
    |o: Order| o.price < mid
}

/// The entries.
pub open spec fn entries() -> spec_fn(Order) -> bool {
    |o: Order| o.purpose == OrderPurpose::Entry
}

/// The take-profits.
pub open spec fn targets() -> spec_fn(Order) -> bool {
    |o: Order| o.purpose == OrderPurpose::TakeProfit
}

/// How many grid steps from mid a take-profit may rest.
pub const TARGET_STEPS: i64 = 3;

/// The orders that a pass cancels: entries that mid has crossed, since they
/// would take liquidity, and take-profits that are stuck too many steps from
/// mid. Exits are never among them.
pub open spec fn is_stale(mid: i64, step: i64) -> spec_fn(Order) -> bool {
    |o: Order|
        match o.purpose {
            OrderPurpose::Entry => match o.side {
                Side::Sell => o.price <= mid + EPSILON,
                Side::Buy => o.price >= mid - EPSILON,
            },
            OrderPurpose::TakeProfit => abs(o.price - mid) > TARGET_STEPS * step,
            _ => false,
        }
}

/// The composition of the grid: orders above and below mid, entries, targets.
pub open spec fn composition(open: Seq<Order>, mid: i64) -> (nat, nat, nat, nat) {
    (
        open.filter(above(mid)).len(),
        open.filter(below(mid)).len(),
        open.filter(entries()).len(),
        open.filter(targets()).len(),
    )
}

/// The status line of a composition.
pub open spec fn grid_line(c: (nat, nat, nat, nat)) -> Seq<char> {
    "Grid: "@ + digits(c.0) + " above + "@ + digits(c.1) + " below = "@ + digits(c.0 + c.1) + " ("@
        + digits(c.2) + " entries, "@ + digits(c.3) + " targets)"@
}

/// The direction of the baskets that entries of a side fill.
pub open spec fn opens(side: Side) -> BasketSide {
    match side {
        Side::Sell => BasketSide::Short,
        Side::Buy => BasketSide::Long,
    }
}

impl GridLevels {
    /// The price of a level: outward from the first, one step apart.
    pub open spec fn price(self, side: Side, k: int) -> i64 {
        match side {
            Side::Sell => clamp(self.base_sell + k * self.step),
            Side::Buy => clamp(self.base_buy - k * self.step),
        }
    }

    /// A price outside of the forbidden zone and inside of the cycle.
    pub open spec fn admits(self, side: Side, price: i64) -> bool {
        match side {
            Side::Sell => price >= self.mid + self.half_spread - EPSILON && price
                <= self.cycle_upper,
            Side::Buy => price <= self.mid - self.half_spread + EPSILON && price
                >= self.cycle_lower,
        }
    }

    /// The price of a level.
    fn price_of(&self, side: Side, k: u32) -> (r: i64)
        requires
            k <= LAST_LEVEL,
        ensures
            r == self.price(side, k as int),
    {
        proof {
            let s = self.step as int;
            assert(-0x8000_0000_0000_0000 * 20 <= k * s <= 0x8000_0000_0000_0000 * 20)
                by (nonlinear_arith)
                requires
                    0 <= k <= 20,
                    -0x8000_0000_0000_0000 <= s <= 0x7fff_ffff_ffff_ffff,
            ;
        }
        let reach: i128 = k as i128 * self.step as i128;
        match side {
            Side::Sell => clamped(self.base_sell as i128 + reach),
            Side::Buy => clamped(self.base_buy as i128 - reach),
        }
    }

    /// A price outside of the forbidden zone and inside of the cycle.
    fn is_admitted(&self, side: Side, price: i64) -> (r: bool)
        ensures
            r == self.admits(side, price),
    {
        let p: i128 = price as i128;
        let mid: i128 = self.mid as i128;
        let half: i128 = self.half_spread as i128;
        match side {
            Side::Sell => p >= mid + half - EPSILON as i128 && price <= self.cycle_upper,
            Side::Buy => p <= mid - half + EPSILON as i128 && price >= self.cycle_lower,
        }
    }
}

impl GridPass {
    /// How many orders a side still needs.
    pub open spec fn need(self, side: Side) -> usize {
        match side {
            Side::Sell => self.need_sells,
            Side::Buy => self.need_buys,
        }
    }

    /// The level is admitted, and no order rests at its price.
    pub open spec fn vacant(self, side: Side, k: int) -> bool {
        let p = self.levels.price(side, k);
        self.levels.admits(side, p) && !self.occupied@.contains(
            round_div(p as int, CENT as int) as i64,
        )
    }

    /// The first vacant level from `k` on.
    pub open spec fn vacancy(self, side: Side, k: int) -> Option<u32>
        decreases LAST_LEVEL + 1 - k,
    {
        if k > LAST_LEVEL {
            None
        } else if self.vacant(side, k) {
            Some(k as u32)
        } else {
            self.vacancy(side, k + 1)
        }
    }

    /// The entry that a side gets next: its first vacant level, in the first
    /// basket that can take it.
    pub open spec fn offer(self, m: Map<u128, Basket>, side: Side) -> Option<(u32, u128)> {
        match self.vacancy(side, self.k as int) {
            Some(k) if self.need(side) > 0 => match first_taking(m, opens(side), self.levels.qty) {
                Some(id) => Some((k, id)),
                None => None,
            },
            _ => None,
        }
    }

    /// The pass after it offered a level.
    pub open spec fn past(self, k: u32) -> GridPass {
        GridPass { k: (k + 1) as u32, ..self }
    }

    /// The pass with its sells done.
    pub open spec fn turned(self) -> GridPass {
        GridPass { side: Side::Buy, k: 0, ..self }
    }

    /// The pass with everything done.
    pub open spec fn ended(self) -> GridPass {
        GridPass { need_buys: 0, ..self }
    }

    /// The order for an offer.
    pub open spec fn placing(self, side: Side, offer: (u32, u128)) -> GridStep {
        GridStep::Place {
            side,
            price: self.levels.price(side, offer.0 as int),
            qty: self.levels.qty,
            basket_id: offer.1,
        }
    }

    /// What the pass does next, and the pass after it.
    pub open spec fn step_of(self, m: Map<u128, Basket>) -> (GridPass, GridStep) {
        if self.side == Side::Sell {
            match self.offer(m, Side::Sell) {
                Some(o) => (self.past(o.0), self.placing(Side::Sell, o)),
                None => self.turned().buy_step_of(m),
            }
        } else {
            self.buy_step_of(m)
        }
    }

    /// What the pass does next on the buy side, and the pass after it.
    pub open spec fn buy_step_of(self, m: Map<u128, Basket>) -> (GridPass, GridStep) {
        match self.offer(m, Side::Buy) {
            Some(o) => (self.past(o.0), self.placing(Side::Buy, o)),
            None => (self.ended(), GridStep::Done),
        }
    }

    /// The pass after an entry of a side was placed.
    pub open spec fn placed_on(self, side: Side) -> GridPass {
        match side {
            Side::Sell => GridPass {
                need_sells: larger(self.need_sells - 1, 0) as usize,
                ..self
            },
            Side::Buy => GridPass { need_buys: larger(self.need_buys - 1, 0) as usize, ..self },
        }
    }

    /// An order rests at this price, to the cent.
    fn is_occupied(&self, price: i64) -> (r: bool)
        ensures
            r == self.occupied@.contains(round_div(price as int, CENT as int) as i64),
    {
        let key: i64 = cents(price);
        let mut n: usize = 0;
        while n < self.occupied.len()
            invariant
                n <= self.occupied@.len(),
                key == round_div(price as int, CENT as int),
                forall|i: int| 0 <= i < n ==> self.occupied@[i] != key,
            decreases self.occupied@.len() - n,
        {
            if self.occupied[n] == key {
                return true;
            }
            n += 1;
        }
        false
    }

    /// The first vacant level from `k` on.
    fn find_vacancy(&self, side: Side, from: u32) -> (r: Option<u32>)
        ensures
            r == self.vacancy(side, from as int),
            r matches Some(k) ==> k <= LAST_LEVEL,
    {
        let mut k: u32 = from;
        while k <= LAST_LEVEL
            invariant
                from <= k,
                k <= LAST_LEVEL + 1 || k == from,
                self.vacancy(side, k as int) == self.vacancy(side, from as int),
            decreases LAST_LEVEL + 1 - k,
        {
            let price: i64 = self.levels.price_of(side, k);
            if self.levels.is_admitted(side, price) && !self.is_occupied(price) {
                return Some(k);
            }
            k += 1;
        }
        None
    }

    /// The entry that a side gets next.
    fn find_offer(&self, basket_mgr: &BasketManager, side: Side) -> (r: Option<(u32, u128)>)
        requires
            basket_mgr.wf(),
        ensures
            r == self.offer(basket_mgr.book(), side),
            r matches Some(o) ==> o.0 <= LAST_LEVEL,
    {
        let need: usize = match side {
            Side::Sell => self.need_sells,
            Side::Buy => self.need_buys,
        };
        if need == 0 {
            return None;
        }
        match self.find_vacancy(side, self.k) {
            Some(k) => {
                let basket_side: BasketSide = match side {
                    Side::Sell => BasketSide::Short,
                    Side::Buy => BasketSide::Long,
                };
                match basket_mgr.find_basket_with_capacity_by_side(basket_side, self.levels.qty) {
                    Some(id) => Some((k, id)),
                    None => None,
                }
            },
            None => None,
        }
    }

    /// The next entry to place, or the end of the pass. A side ends when it
    /// has its orders, when no level is left, or when no basket can take more.
    pub fn next(&mut self, basket_mgr: &BasketManager) -> (r: GridStep)
        requires
            basket_mgr.wf(),
        ensures
            (*final(self), r) == old(self).step_of(basket_mgr.book()),
    {
        if self.side == Side::Sell {
            if let Some(o) = self.find_offer(basket_mgr, Side::Sell) {
                self.k = o.0 + 1;
                return GridStep::Place {
                    side: Side::Sell,
                    price: self.levels.price_of(Side::Sell, o.0),
                    qty: self.levels.qty,
                    basket_id: o.1,
                };
            }
            self.side = Side::Buy;
            self.k = 0;
        }
        match self.find_offer(basket_mgr, Side::Buy) {
            Some(o) => {
                self.k = o.0 + 1;
                GridStep::Place {
                    side: Side::Buy,
                    price: self.levels.price_of(Side::Buy, o.0),
                    qty: self.levels.qty,
                    basket_id: o.1,
                }
            },
            None => {
                self.need_buys = 0;
                GridStep::Done
            },
        }
    }

    /// Records that an entry was placed: the order belongs to the basket, and
    /// its side needs one less. An entry that was not placed changes nothing.
    pub fn placed(
        &mut self,
        basket_mgr: &mut BasketManager,
        side: Side,
        order_id: u128,
        basket_id: u128,
    )
        ensures
            *final(self) == old(self).placed_on(side),
            final(basket_mgr).links() == old(basket_mgr).links().insert(order_id, basket_id),
            final(basket_mgr).book() == old(basket_mgr).book(),
            final(basket_mgr).config == old(basket_mgr).config,
            final(basket_mgr).active_basket_id == old(basket_mgr).active_basket_id,
    {
        basket_mgr.link_order(order_id, basket_id);
        match side {
            Side::Sell => {
                if self.need_sells > 0 {
                    self.need_sells -= 1;
                }
            },
            Side::Buy => {
                if self.need_buys > 0 {
                    self.need_buys -= 1;
                }
            },
        }
    }
}

/// The composition of the grid.
pub(crate) fn tally(open: &Vec<Order>, mid: i64) -> (r: (usize, usize, usize, usize))
    ensures
        (r.0 as nat, r.1 as nat, r.2 as nat, r.3 as nat) == composition(open@, mid),
        r.0 + r.1 <= usize::MAX,
{
    let mut over: usize = 0;
    let mut under: usize = 0;
    let mut entry_count: usize = 0;
    let mut target_count: usize = 0;
    let mut n: usize = 0;
    while n < open.len()
        invariant
            n <= open@.len(),
            (over as nat, under as nat, entry_count as nat, target_count as nat) == composition(
                open@.take(n as int),
                mid,
            ),
            over + under <= n,
            entry_count <= n,
            target_count <= n,
        decreases open@.len() - n,
    {
        proof {
            lemma_filter_step(open@, above(mid), n as int);
            lemma_filter_step(open@, below(mid), n as int);
            lemma_filter_step(open@, entries(), n as int);
            lemma_filter_step(open@, targets(), n as int);
        }
        if open[n].price > mid {
            over += 1;
        }
        if open[n].price < mid {
            under += 1;
        }
        if open[n].purpose == OrderPurpose::Entry {
            entry_count += 1;
        }
        if open[n].purpose == OrderPurpose::TakeProfit {
            target_count += 1;
        }
        n += 1;
    }
    assert(open@.take(open@.len() as int) =~= open@);
    (over, under, entry_count, target_count)
}

impl GridEngine {
    /// A grid that has logged nothing yet.
    pub fn new(trading: TradingConfig, max_position_cap: i64) -> (r: Self)
        ensures
            r.trading == trading,
            r.max_position_cap == max_position_cap,
            r.last_grid_summary is None,
            r.pending_log@.len() == 0,
    {
        GridEngine { trading, max_position_cap, last_grid_summary: None, pending_log: Vec::new() }
    }

    /// Hands over the lines for the status log.
    pub fn take_pending_log(&mut self) -> (r: Vec<String>)
        ensures
            r == old(self).pending_log,
            final(self).pending_log@.len() == 0,
            final(self).trading == old(self).trading,
            final(self).max_position_cap == old(self).max_position_cap,
            final(self).last_grid_summary == old(self).last_grid_summary,
    {
        let mut taken: Vec<String> = Vec::new();
        std::mem::swap(&mut taken, &mut self.pending_log);
        taken
    }

    /// Adds a line on the grid's composition to the log, if it has changed
    /// since the last such line.
    pub fn note_grid_summary(&mut self, open: &Vec<Order>, mid: i64)
        ensures
            final(self).trading == old(self).trading,
            final(self).max_position_cap == old(self).max_position_cap,
            final(self).last_grid_summary matches Some(t) && (
                t.0 as nat,
                t.1 as nat,
                t.2 as nat,
                t.3 as nat,
            ) == composition(open@, mid),
            if old(self).last_grid_summary == final(self).last_grid_summary {
                final(self).pending_log == old(self).pending_log
            } else {
                &&& final(self).pending_log@.len() == old(self).pending_log@.len() + 1
                &&& final(self).pending_log@.drop_last() == old(self).pending_log@
                &&& final(self).pending_log@.last()@ == grid_line(composition(open@, mid))
            },
    {
        let t: (usize, usize, usize, usize) = tally(open, mid);
        let same: bool = match self.last_grid_summary {
            Some(s) => s.0 == t.0 && s.1 == t.1 && s.2 == t.2 && s.3 == t.3,
            None => false,
        };
        if same {
            return;
        }
        self.last_grid_summary = Some(t);
        let mut line: String = String::new();
        line.append("Grid: ");
        push_number(&mut line, t.0 as u64);
        line.append(" above + ");
        push_number(&mut line, t.1 as u64);
        line.append(" below = ");
        push_number(&mut line, (t.0 + t.1) as u64);
        line.append(" (");
        push_number(&mut line, t.2 as u64);
        line.append(" entries, ");
        push_number(&mut line, t.3 as u64);
        line.append(" targets)");
        assert(line@ =~= grid_line(composition(open@, mid)));
        self.pending_log.push(line);
        assert(self.pending_log@.drop_last() =~= old(self).pending_log@);
    }

    /// There is a grid to keep: some basket may trade, and the cycle has an
    /// anchor and a width.
    pub open spec fn is_armed(m: Map<u128, Basket>, anchor: i64, distance: i64) -> bool {
        !every_killed(m) && anchor > 0 && distance > 0
    }

    /// The grid can be priced: there is a mid, and levels are apart.
    pub open spec fn is_priced(self, mid: i64) -> bool {
        mid > 0 && self.trading.grid_step > 0
    }

    /// There is a grid to keep: some basket may trade, and the cycle has an
    /// anchor and a width.
    pub fn armed(&self, basket_mgr: &BasketManager, anchor: i64, distance: i64) -> (r: bool)
        ensures
            r == Self::is_armed(basket_mgr.book(), anchor, distance),
    {
        !basket_mgr.all_killed() && anchor > 0 && distance > 0
    }

    /// The grid can be priced: there is a mid, and levels are apart.
    pub fn priced(&self, mid: i64) -> (r: bool)
        ensures
            r == self.is_priced(mid),
    {
        mid > 0 && self.trading.grid_step > 0
    }

    /// The resting orders to be cancelled: crossed entries, and take-profits
    /// too far from mid.
    pub fn stale(&self, open: &Vec<Order>, mid: i64) -> (r: Vec<u128>)
        ensures
            r@ == open@.filter(is_stale(mid, self.trading.grid_step)).map_values(
                |o: Order| o.order_id,
            ),
    {
        let ghost id = |o: Order| o.order_id;
        let ghost p = is_stale(mid, self.trading.grid_step);
        let mut out: Vec<u128> = Vec::new();
        let mut n: usize = 0;
        while n < open.len()
            invariant
                n <= open@.len(),
                id == (|o: Order| o.order_id),
                p == is_stale(mid, self.trading.grid_step),
                out@ == open@.take(n as int).filter(p).map_values(id),
            decreases open@.len() - n,
        {
            let o: Order = open[n];
            let price: i128 = o.price as i128;
            let drop: bool = match o.purpose {
                OrderPurpose::Entry => match o.side {
                    Side::Sell => price <= mid as i128 + EPSILON as i128,
                    Side::Buy => price >= mid as i128 - EPSILON as i128,
                },
                OrderPurpose::TakeProfit => gap(o.price, mid) as i128 > TARGET_STEPS as i128
                    * self.trading.grid_step as i128,
                OrderPurpose::StopLossExit => false,
                OrderPurpose::KillSwitchExit => false,
            };
            proof {
                lemma_filter_step(open@, p, n as int);
            }
            if drop {
                out.push(o.order_id);
            }
            assert(out@ =~= open@.take(n + 1).filter(p).map_values(id));
            n += 1;
        }
        assert(open@.take(open@.len() as int) =~= open@);
        out
    }

    /// The prices of a pass at this mid, in a cycle around `anchor`.
    pub open spec fn levels_at(self, mid: i64, anchor: i64, distance: i64) -> GridLevels {
        let half_spread = larger(ratio(self.trading.tp_spread as int, 1, 2) as int, 0) as i64;
        GridLevels {
            mid,
            half_spread,
            base_sell: clamp(round_up(clamp(mid + half_spread) as int, TICK as int)),
            base_buy: clamp(round_down(clamp(mid - half_spread) as int, TICK as int)),
            step: self.trading.grid_step,
            cycle_lower: clamp(anchor - distance),
            cycle_upper: clamp(anchor + distance),
            qty: self.trading.per_step_qty,
        }
    }

    /// How many orders each side should have: at least one.
    pub open spec fn depth(self) -> int {
        larger(self.trading.grid_depth as int, 1)
    }

    /// `pass` is a new pass at this mid, in a cycle around `anchor`, over an
    /// exchange where `open` rests: each side needs what it lacks of its depth.
    pub open spec fn begins(
        self,
        open: Seq<Order>,
        mid: i64,
        anchor: i64,
        distance: i64,
        pass: GridPass,
    ) -> bool {
        &&& pass.levels == self.levels_at(mid, anchor, distance)
        &&& pass.occupied@ == open.map_values(
            |o: Order| round_div(o.price as int, CENT as int) as i64,
        )
        &&& pass.side == Side::Sell
        &&& pass.k == 0
        &&& pass.need_sells == larger(self.depth() - composition(open, mid).0, 0)
        &&& pass.need_buys == larger(self.depth() - composition(open, mid).1, 0)
    }

    /// Plans the entries of a pass from what rests once stale entries are
    /// gone. `None` when there is no grid to keep, when it cannot be priced,
    /// or when the exposure cap leaves no room for more.
    pub fn step(
        &self,
        basket_mgr: &BasketManager,
        open: &Vec<Order>,
        mid: i64,
        anchor: i64,
        distance: i64,
    ) -> (r: Option<GridPass>)
        ensures
            r is None <==> !Self::is_armed(basket_mgr.book(), anchor, distance) || !self.is_priced(
                mid,
            ) || clamp(open_total(basket_mgr.book())) >= self.max_position_cap,
            r matches Some(pass) ==> self.begins(open@, mid, anchor, distance, pass),
    {
        if !self.armed(basket_mgr, anchor, distance) || !self.priced(mid) {
            return None;
        }
        if basket_mgr.total_open_qty() >= self.max_position_cap {
            return None;
        }
        let half_spread: i64 = max(scale(self.trading.tp_spread, 1, 2), 0);
        let levels: GridLevels = GridLevels {
            mid,
            half_spread,
            base_sell: tick_up(plus(mid, half_spread)),
            base_buy: tick_down(minus(mid, half_spread)),
            step: self.trading.grid_step,
            cycle_lower: minus(anchor, distance),
            cycle_upper: plus(anchor, distance),
            qty: self.trading.per_step_qty,
        };
        let t: (usize, usize, usize, usize) = tally(open, mid);
        let depth: usize = if self.trading.grid_depth >= 1 {
            self.trading.grid_depth as usize
        } else {
            1
        };
        let need_sells: usize = if depth > t.0 {
            depth - t.0
        } else {
            0
        };
        let need_buys: usize = if depth > t.1 {
            depth - t.1
        } else {
            0
        };
        let ghost key = |o: Order| round_div(o.price as int, CENT as int) as i64;
        let mut occupied: Vec<i64> = Vec::new();
        let mut n: usize = 0;
        while n < open.len()
            invariant
                n <= open@.len(),
                key == (|o: Order| round_div(o.price as int, CENT as int) as i64),
                occupied@ == open@.take(n as int).map_values(key),
            decreases open@.len() - n,
        {
            occupied.push(cents(open[n].price));
            assert(occupied@ =~= open@.take(n + 1).map_values(key));
            n += 1;
        }
        assert(open@.take(open@.len() as int) =~= open@);
        Some(GridPass { levels, occupied, side: Side::Sell, k: 0, need_sells, need_buys })
    }
}

/// What a vacancy is: a vacant level, not before `k`, with none in between.
pub proof fn lemma_vacancy(pass: GridPass, side: Side, k: int)
    requires
        0 <= k,
    ensures
        pass.vacancy(side, k) matches Some(v) ==> k <= v <= LAST_LEVEL && pass.vacant(
            side,
            v as int,
        ),
    decreases LAST_LEVEL + 1 - k,
{
    if k <= LAST_LEVEL && !pass.vacant(side, k) {
        lemma_vacancy(pass, side, k + 1);
    }
}

/// An entry is never placed inside the forbidden zone, outside of the cycle,
/// or where an order already rests, and the basket that it goes to trades its
/// direction and can take it.
pub proof fn entries_respect_the_grid(pass: GridPass, m: Map<u128, Basket>)
    ensures
        pass.step_of(m).1 matches GridStep::Place { side, price, qty, basket_id } ==> {
            &&& pass.levels.admits(side, price)
            &&& !pass.occupied@.contains(round_div(price as int, CENT as int) as i64)
            &&& m.dom().contains(basket_id)
            &&& m[basket_id].side == opens(side)
            &&& m[basket_id].takes(qty)
            &&& qty == pass.levels.qty
        },
{
    let q = pass.levels.qty;
    lemma_lowest_is(m, (Fit::RoomOn { side: BasketSide::Short, qty: q }).test());
    lemma_lowest_is(m, (Fit::RoomOn { side: BasketSide::Long, qty: q }).test());
    lemma_vacancy(pass, Side::Sell, pass.k as int);
    lemma_vacancy(pass.turned(), Side::Buy, 0);
    lemma_vacancy(pass, Side::Buy, pass.k as int);
}

/// Entries are makers: with a forbidden zone that is wider than the tolerance,
/// sells rest above mid and buys below.
pub proof fn entries_are_makers(pass: GridPass, m: Map<u128, Basket>)
    requires
        pass.levels.half_spread > EPSILON,
    ensures
        pass.step_of(m).1 matches GridStep::Place { side, price, qty, basket_id } ==> match side {
            Side::Sell => price > pass.levels.mid,
            Side::Buy => price < pass.levels.mid,
        },
{
    entries_respect_the_grid(pass, m);
}

/// A side that has its orders gets no more: a pass offers an entry only where
/// one is needed, and every placed entry is one less to place.
pub proof fn a_full_side_gets_no_entry(pass: GridPass, m: Map<u128, Basket>)
    ensures
        pass.step_of(m).1 matches GridStep::Place { side, price, qty, basket_id } ==> {
            &&& pass.need(side) > 0
            &&& pass.step_of(m).0.placed_on(side).need(side) == pass.need(side) - 1
        },
{
}

/// A pass tries no level twice and ends: every entry moves it on to a later
/// level of the same side, or over to the buys, within the last level.
pub proof fn a_pass_moves_on(pass: GridPass, m: Map<u128, Basket>)
    ensures
        pass.step_of(m).1 matches GridStep::Place { side, price, qty, basket_id } ==> {
            let after = pass.step_of(m).0;
            &&& after.side == side
            &&& after.k <= LAST_LEVEL + 1
            &&& pass.side == side ==> pass.k < after.k
            &&& pass.side != side ==> pass.side == Side::Sell
        },
        pass.step_of(m).1 == GridStep::Done ==> pass.step_of(m).0.step_of(m).1 == GridStep::Done,
{
    lemma_vacancy(pass, Side::Sell, pass.k as int);
    lemma_vacancy(pass.turned(), Side::Buy, 0);
    lemma_vacancy(pass, Side::Buy, pass.k as int);
}

/// The first sell and the first buy are at least the take-profit spread apart,
/// and neither is inside the forbidden zone, at prices that do not saturate.
pub proof fn first_levels_are_a_spread_apart(
    grid: GridEngine,
    mid: i64,
    anchor: i64,
    distance: i64,
)
    requires
        0 <= grid.trading.tp_spread <= 0x1000_0000_0000_0000,
        0 <= mid <= 0x1000_0000_0000_0000,
    ensures
        ({
            let l = grid.levels_at(mid, anchor, distance);
            &&& l.base_sell - l.base_buy >= grid.trading.tp_spread
            &&& l.base_sell >= mid + l.half_spread
            &&& l.base_buy <= mid - l.half_spread
        }),
{
    let l = grid.levels_at(mid, anchor, distance);
    let half = l.half_spread as int;
    assert(grid.trading.tp_spread * 1 == grid.trading.tp_spread);
    assert(2 * half >= grid.trading.tp_spread);
    let up = mid + half;
    let down = mid - half;
    assert(round_up(up, TICK as int) >= up);
    assert(round_up(up, TICK as int) < up + TICK);
    assert(round_down(down, TICK as int) <= down);
    assert(round_down(down, TICK as int) > down - TICK);
}

/// A fresh grid has two sides: over baskets as a manager seeds them, with room
/// for an entry and a cycle that reaches the first level on either side, a pass
/// over an empty exchange offers a sell at the first level above mid, in a
/// short basket, and, with the sells done, a buy at the first level below, in a
/// long one. This is stated where the identifiers differ and prices do not
/// saturate.
pub proof fn a_fresh_grid_has_two_sides(
    grid: GridEngine,
    ids: Seq<u128>,
    size: i64,
    is_inverse: bool,
    tp_spread: i64,
    mid: i64,
    anchor: i64,
    distance: i64,
    pass: GridPass,
)
    requires
        2 <= ids.len() <= u32::MAX,
        ids.no_duplicates(),
        grid.trading.per_step_qty <= size,
        0 <= grid.trading.tp_spread <= 0x1000_0000_0000_0000,
        0 <= mid <= 0x1000_0000_0000_0000,
        grid.begins(Seq::empty(), mid, anchor, distance, pass),
        pass.levels.base_sell <= pass.levels.cycle_upper,
        pass.levels.cycle_lower <= pass.levels.base_buy,
    ensures
        ({
            let m = seeded(ids, size, is_inverse, tp_spread);
            &&& pass.offer(m, Side::Sell) is Some
            &&& pass.offer(m, Side::Buy) is Some
            &&& pass.step_of(m).1 matches GridStep::Place { side, price, qty, basket_id } && side
                == Side::Sell && price == pass.levels.base_sell && price >= mid && qty
                == grid.trading.per_step_qty && m[basket_id].side == BasketSide::Short
            &&& pass.turned().step_of(m).1 matches GridStep::Place { side, price, qty, basket_id }
                && side == Side::Buy && price == pass.levels.base_buy && price <= mid && qty
                == grid.trading.per_step_qty && m[basket_id].side == BasketSide::Long
        }),
{
    let m = seeded(ids, size, is_inverse, tp_spread);
    let q = grid.trading.per_step_qty;
    lemma_seeded(ids, size, is_inverse, tp_spread);
    seeded_is_full(ids, size, is_inverse, tp_spread);
    assert(m.dom().contains(ids[0]) && m.dom().contains(ids[1]));
    lemma_lowest_is(m, (Fit::RoomOn { side: BasketSide::Short, qty: q }).test());
    lemma_lowest_is(m, (Fit::RoomOn { side: BasketSide::Long, qty: q }).test());
    first_levels_are_a_spread_apart(grid, mid, anchor, distance);
    let none = Seq::<Order>::empty();
    assert(none.filter(above(mid)).len() == 0) by {
        reveal(Seq::filter);
    }
    assert(none.filter(below(mid)).len() == 0) by {
        reveal(Seq::filter);
    }
    assert(0 * pass.levels.step == 0);
    assert(pass.levels.price(Side::Sell, 0) == pass.levels.base_sell);
    assert(pass.levels.price(Side::Buy, 0) == pass.levels.base_buy);
    assert(pass.vacant(Side::Sell, 0));
    assert(pass.vacant(Side::Buy, 0));
    assert(pass.turned().vacant(Side::Buy, 0));
    assert(pass.vacancy(Side::Sell, 0) == Some(0u32));
    assert(pass.vacancy(Side::Buy, 0) == Some(0u32));
    assert(pass.turned().vacancy(Side::Buy, 0) == Some(0u32));
}

/// A stale order is a crossed entry or a take-profit too far from mid. Exits
/// never go stale, and neither does a take-profit within its steps.
pub proof fn exits_never_go_stale(open: Seq<Order>, mid: i64, step: i64, o: Order)
    requires
        open.filter(is_stale(mid, step)).contains(o),
    ensures
        open.contains(o),
        o.purpose == OrderPurpose::Entry || o.purpose == OrderPurpose::TakeProfit,
        o.purpose == OrderPurpose::TakeProfit ==> abs(o.price - mid) > TARGET_STEPS * step,
{
    crate::lists::lemma_filter_is(open, is_stale(mid, step));
}

/// A take-profit that rests too many steps from mid is cancelled.
pub proof fn far_take_profits_go_stale(open: Seq<Order>, mid: i64, step: i64, i: int)
    requires
        0 <= i < open.len(),
        open[i].purpose == OrderPurpose::TakeProfit,
        abs(open[i].price - mid) > TARGET_STEPS * step,
    ensures
        open.filter(is_stale(mid, step)).contains(open[i]),
{
    crate::lists::lemma_filter_is(open, is_stale(mid, step));
}

} // verus!
