//! Laws of the entry grid.
use vstd::prelude::*;

use crate::amount::round_div;
use crate::engines::basket_manager::{lemma_lowest_is, open_total, BasketManager, Fit};
use crate::engines::grid::{
    above, below, entries, is_stale, lemma_vacancy, targets, GridEngine, GridPass, GridStep,
};
use crate::laws::amounts::{held, quotients_are_nearest};
use crate::laws::words::{all_digits, lemma_digits, spells};
use crate::lists::lemma_filter_is;
use crate::models::basket::{Basket, BasketSide, BasketStatus};
use crate::models::config::TradingConfig;
use crate::models::order::{Order, OrderPurpose, Side};
use crate::text::digits;

verus! {

/// `pass` is the pass that began as `begun`, however many entries later.
pub open spec fn goes_on(begun: GridPass, pass: GridPass) -> bool {
    pass.levels == begun.levels && pass.occupied@ == begun.occupied@
}

/// The basket trades a direction, may trade, and has room for a quantity.
pub open spec fn has_room(b: Basket, side: BasketSide, qty: i64) -> bool {
    b.side == side && b.status != BasketStatus::Killed && b.open_qty + qty <= b.max_qty
}

/// Two prices are the same to the cent.
pub open spec fn same_cent(p: i64, q: i64) -> bool {
    exists|c: int|
        {
            &&& -1_000_000 < 2 * (p - #[trigger] (c * 1_000_000)) < 1_000_000
            &&& -1_000_000 < 2 * (q - c * 1_000_000) < 1_000_000
        }
}

/// Prices a cent apart are not the same to the cent, and equal ones are.
proof fn lemma_cents(p: i64, q: i64)
    ensures
        p - q >= 1_000_000 || q - p >= 1_000_000 ==> round_div(p as int, 1_000_000) != round_div(
            q as int,
            1_000_000,
        ),
        same_cent(p, q) || p == q ==> round_div(p as int, 1_000_000) == round_div(
            q as int,
            1_000_000,
        ),
{
    quotients_are_nearest(p as int, 1_000_000);
    quotients_are_nearest(q as int, 1_000_000);
}

/// The cents of an amount can be written as one.
proof fn lemma_cents_fit(p: i64)
    ensures
        round_div(p as int, 1_000_000) as i64 == round_div(p as int, 1_000_000),
{
    quotients_are_nearest(p as int, 1_000_000);
}

/// A pass goes on with the levels and the occupied prices that it began with:
/// neither an offer nor a placed order changes them.
pub proof fn a_pass_keeps_its_levels(
    begun: GridPass,
    pass: &mut GridPass,
    at: &BasketManager,
    step: GridStep,
    placing: &mut GridPass,
    mgr: &mut BasketManager,
    side: Side,
    order_id: u128,
    basket_id: u128,
)
    requires
        goes_on(begun, *old(pass)),
        call_ensures(GridPass::next, (pass, at), step),
        goes_on(begun, *old(placing)),
        call_ensures(GridPass::placed, (placing, mgr, side, order_id, basket_id), ()),
    ensures
        goes_on(begun, *final(pass)),
        goes_on(begun, *final(placing)),
        final(mgr).links() == old(mgr).links().insert(order_id, basket_id),
        final(mgr).book() == old(mgr).book(),
        side == Side::Sell ==> final(placing).need_buys == old(placing).need_buys,
        side == Side::Buy ==> final(placing).need_sells == old(placing).need_sells,
        side == Side::Sell && old(placing).need_sells > 0 ==> final(placing).need_sells + 1
            == old(placing).need_sells,
        side == Side::Buy && old(placing).need_buys > 0 ==> final(placing).need_buys + 1
            == old(placing).need_buys,
{
}

/// An entry of a pass stays in the cycle that the pass was planned in: no sell
/// above `anchor + distance`, no buy below `anchor - distance`.
pub proof fn entries_stay_in_the_cycle(
    grid: &GridEngine,
    mgr: &BasketManager,
    open: &Vec<Order>,
    mid: i64,
    anchor: i64,
    distance: i64,
    begun: GridPass,
    pass: &mut GridPass,
    at: &BasketManager,
    step: GridStep,
)
    requires
        call_ensures(GridEngine::step, (grid, mgr, open, mid, anchor, distance), Some(begun)),
        goes_on(begun, *old(pass)),
        call_ensures(GridPass::next, (pass, at), step),
    ensures
        step matches GridStep::Place { side, price, qty, basket_id } ==> {
            &&& side == Side::Sell ==> price <= anchor + distance
            &&& side == Side::Buy ==> anchor - distance <= price
        },
{
    lemma_offers(*old(pass), at.book());
}

/// The same of what a pass offers, whichever book it is held against.
pub proof fn offers_stay_in_the_cycle(
    grid: GridEngine,
    open: Seq<Order>,
    mid: i64,
    anchor: i64,
    distance: i64,
    begun: GridPass,
    pass: GridPass,
    m: Map<u128, Basket>,
)
    requires
        grid.begins(open, mid, anchor, distance, begun),
        goes_on(begun, pass),
        anchor > 0,
        distance > 0,
    ensures
        pass.step_of(m).1 matches GridStep::Place { side, price, qty, basket_id } ==> {
            &&& side == Side::Sell ==> price <= anchor + distance
            &&& side == Side::Buy ==> anchor - distance <= price
        },
        goes_on(begun, pass.step_of(m).0),
        goes_on(begun, pass.placed_on(Side::Sell)),
        goes_on(begun, pass.placed_on(Side::Buy)),
{
    lemma_offers(pass, m);
}

/// Where an offered entry lies among the levels of its pass.
proof fn lemma_offers(pass: GridPass, m: Map<u128, Basket>)
    ensures
        pass.step_of(m).1 matches GridStep::Place { side, price, qty, basket_id } ==> exists|
            k: u32,
        |
            k <= 20 && price == #[trigger] pass.levels.price(side, k as int) && pass.levels.admits(
                side,
                price,
            ) && !pass.occupied@.contains(round_div(price as int, 1_000_000) as i64),
{
    lemma_vacancy(pass, Side::Sell, pass.k as int);
    lemma_vacancy(pass.turned(), Side::Buy, 0);
    lemma_vacancy(pass, Side::Buy, pass.k as int);
    match pass.step_of(m).1 {
        GridStep::Place { side, price, qty, basket_id } => {
            let k = (pass.step_of(m).0.k - 1) as u32;
            assert(price == pass.levels.price(side, k as int));
        },
        GridStep::Done => {},
    }
}

/// Entries lie on the grid. The first sell is at the first tick at or above
/// half a take-profit spread over mid, the first buy at the first tick at or
/// below as much under mid, and the others follow outward in whole grid steps,
/// twenty at most. Each is for the quantity of a step. This is stated of
/// figures that do not saturate.
pub proof fn entries_lie_on_the_grid(
    grid: &GridEngine,
    mgr: &BasketManager,
    open: &Vec<Order>,
    mid: i64,
    anchor: i64,
    distance: i64,
    begun: GridPass,
    pass: &mut GridPass,
    at: &BasketManager,
    step: GridStep,
)
    requires
        call_ensures(GridEngine::step, (grid, mgr, open, mid, anchor, distance), Some(begun)),
        goes_on(begun, *old(pass)),
        call_ensures(GridPass::next, (pass, at), step),
        0 <= grid.trading.tp_spread <= 0x1000_0000_0000_0000,
        0 <= mid <= 0x1000_0000_0000_0000,
        0 < grid.trading.grid_step <= 0x0010_0000_0000_0000,
    ensures
        step matches GridStep::Place { side, price, qty, basket_id } ==> {
            let spread = grid.trading.tp_spread;
            &&& qty == grid.trading.per_step_qty
            &&& exists|k: int|
                {
                    let out = #[trigger] (k * grid.trading.grid_step);
                    &&& 0 <= k <= 20
                    &&& side == Side::Sell ==> {
                        &&& (price - out) % 50_000_000 == 0
                        &&& 2 * mid + spread <= 2 * (price - out) < 2 * mid + spread + 100_000_000
                    }
                    &&& side == Side::Buy ==> {
                        &&& (price + out) % 50_000_000 == 0
                        &&& 2 * mid - spread - 100_000_000 < 2 * (price + out) <= 2 * mid - spread
                    }
                }
        },
{
    let l = begun.levels;
    lemma_offers(*old(pass), at.book());
    lemma_first_levels(*grid, mid, anchor, distance);
    match step {
        GridStep::Place { side, price, qty, basket_id } => {
            let k = choose|k: u32| k <= 20 && price == #[trigger] l.price(side, k as int);
            let kk = k as int;
            let s = grid.trading.grid_step as int;
            assert(0 <= kk * s <= 20 * 0x0010_0000_0000_0000) by (nonlinear_arith)
                requires
                    0 <= kk <= 20,
                    0 < s <= 0x0010_0000_0000_0000,
            ;
            let out = kk * grid.trading.grid_step;
            assert(out == kk * s);
        },
        GridStep::Done => {},
    }
}

/// The first levels of a pass.
proof fn lemma_first_levels(grid: GridEngine, mid: i64, anchor: i64, distance: i64)
    requires
        0 <= grid.trading.tp_spread <= 0x1000_0000_0000_0000,
        0 <= mid <= 0x1000_0000_0000_0000,
    ensures
        ({
            let l = grid.levels_at(mid, anchor, distance);
            let spread = grid.trading.tp_spread;
            &&& l.base_sell as int % 50_000_000 == 0
            &&& 2 * mid + spread <= 2 * l.base_sell < 2 * mid + spread + 100_000_000
            &&& l.base_buy as int % 50_000_000 == 0
            &&& 2 * mid - spread - 100_000_000 < 2 * l.base_buy <= 2 * mid - spread
            &&& -0x3000_0000_0000_0000 <= l.base_buy
            &&& l.base_sell <= 0x3000_0000_0000_0000
        }),
{
    let spread = grid.trading.tp_spread as int;
    assert(spread * 1 == spread);
    quotients_are_nearest(spread, 2);
}

/// A pass is planned around mid, inside the cycle around the anchor: the
/// forbidden zone is half a take-profit spread to either side of mid, and the
/// cycle reaches exactly `distance` to either side of `anchor`.
pub proof fn a_pass_is_planned_around_mid_and_anchor(
    grid: &GridEngine,
    mgr: &BasketManager,
    open: &Vec<Order>,
    mid: i64,
    anchor: i64,
    distance: i64,
    begun: GridPass,
)
    requires
        call_ensures(GridEngine::step, (grid, mgr, open, mid, anchor, distance), Some(begun)),
    ensures
        ({
            let l = begun.levels;
            let spread = grid.trading.tp_spread;
            &&& l.mid == mid
            &&& l.step == grid.trading.grid_step
            &&& l.qty == grid.trading.per_step_qty
            &&& held(l.cycle_upper, anchor + distance)
            &&& held(l.cycle_lower, anchor - distance)
            &&& spread >= 0 ==> spread <= 2 * l.half_spread <= spread + 1
            &&& spread <= 0 ==> l.half_spread == 0
            &&& forall|s: i64| #[trigger]
                held(s, mid + l.half_spread) ==> {
                    &&& l.base_sell < i64::MAX ==> l.base_sell as int % 50_000_000 == 0 && s
                        <= l.base_sell < s + 50_000_000
                    &&& l.base_sell == i64::MAX ==> s + 50_000_000 > i64::MAX
                }
            &&& forall|s: i64| #[trigger]
                held(s, mid - l.half_spread) ==> {
                    &&& l.base_buy > i64::MIN ==> l.base_buy as int % 50_000_000 == 0 && s
                        - 50_000_000 < l.base_buy <= s
                    &&& l.base_buy == i64::MIN ==> s - 50_000_000 < i64::MIN
                }
        }),
{
    let spread = grid.trading.tp_spread as int;
    assert(spread * 1 == spread);
    quotients_are_nearest(spread, 2);
}

/// An entry goes where no order rests: no resting order that the pass was
/// planned over has the price of the entry, to the cent.
pub proof fn entries_avoid_resting_orders(
    grid: &GridEngine,
    mgr: &BasketManager,
    open: &Vec<Order>,
    mid: i64,
    anchor: i64,
    distance: i64,
    begun: GridPass,
    pass: &mut GridPass,
    at: &BasketManager,
    step: GridStep,
    i: int,
)
    requires
        call_ensures(GridEngine::step, (grid, mgr, open, mid, anchor, distance), Some(begun)),
        goes_on(begun, *old(pass)),
        call_ensures(GridPass::next, (pass, at), step),
        0 <= i < open@.len(),
    ensures
        step matches GridStep::Place { side, price, qty, basket_id } ==> price != open@[i].price
            && !same_cent(price, open@[i].price),
{
    lemma_offers(*old(pass), at.book());
    match step {
        GridStep::Place { side, price, qty, basket_id } => {
            lemma_cents(price, open@[i].price);
            assert(begun.occupied@[i] == round_div(open@[i].price as int, 1_000_000) as i64);
        },
        GridStep::Done => {},
    }
}

/// An entry goes to the basket of lowest index that trades its direction, may
/// trade and has room: sells to short baskets, buys to long ones.
pub proof fn entries_go_to_the_first_basket_with_room(
    pass: &mut GridPass,
    at: &BasketManager,
    step: GridStep,
)
    requires
        call_ensures(GridPass::next, (pass, at), step),
    ensures
        step matches GridStep::Place { side, price, qty, basket_id } ==> {
            let way = match side {
                Side::Sell => BasketSide::Short,
                Side::Buy => BasketSide::Long,
            };
            &&& at.book().dom().contains(basket_id)
            &&& has_room(at.book()[basket_id], way, qty)
            &&& forall|k: u128| #[trigger]
                at.book().dom().contains(k) && has_room(at.book()[k], way, qty)
                    ==> at.book()[basket_id].index <= at.book()[k].index
        },
{
    let m = at.book();
    let q = old(pass).levels.qty;
    let short = (Fit::RoomOn { side: BasketSide::Short, qty: q }).test();
    let long = (Fit::RoomOn { side: BasketSide::Long, qty: q }).test();
    lemma_lowest_is(m, short);
    lemma_lowest_is(m, long);
    assert forall|k: u128| #[trigger] m.dom().contains(k) && has_room(
        m[k],
        BasketSide::Short,
        q,
    ) implies short(m[k]) by {}
    assert forall|k: u128| #[trigger] m.dom().contains(k) && has_room(
        m[k],
        BasketSide::Long,
        q,
    ) implies long(m[k]) by {}
}

/// A pass that still needs sells offers one where it can: while a level from
/// the next one on is outside of the forbidden zone, inside of the cycle and
/// free, and a short basket has room, the next step is a sell no further out
/// than that level.
pub proof fn needed_sells_are_offered(
    begun: GridPass,
    open: Seq<Order>,
    pass: &mut GridPass,
    at: &BasketManager,
    step: GridStep,
    k: u32,
    b: u128,
)
    requires
        goes_on(begun, *old(pass)),
        begun.occupied@ == open.map_values(
            |o: Order| round_div(o.price as int, 1_000_000) as i64,
        ),
        call_ensures(GridPass::next, (pass, at), step),
        old(pass).side == Side::Sell,
        old(pass).need_sells > 0,
        old(pass).k <= k <= 20,
        begun.levels.step >= 0,
        ({
            let p = begun.levels.base_sell + k * begun.levels.step;
            &&& i64::MIN <= p <= begun.levels.cycle_upper
            &&& p >= begun.levels.mid + begun.levels.half_spread - 100
            &&& forall|i: int|
                0 <= i < open.len() ==> p - (#[trigger] open[i]).price >= 1_000_000
                    || open[i].price - p >= 1_000_000
        }),
        at.book().dom().contains(b),
        has_room(at.book()[b], BasketSide::Short, begun.levels.qty),
    ensures
        step matches GridStep::Place { side, price, qty, basket_id } && side == Side::Sell && price
            <= begun.levels.base_sell + k * begun.levels.step,
{
    let before = *old(pass);
    let l = begun.levels;
    let p = (l.base_sell + k * l.step) as i64;
    lemma_free(before, open, p);
    assert(before.levels.price(Side::Sell, k as int) == p);
    assert(before.vacant(Side::Sell, k as int));
    lemma_first_vacancy(before, Side::Sell, before.k as int, k as int);
    let fit = (Fit::RoomOn { side: BasketSide::Short, qty: l.qty }).test();
    lemma_lowest_is(at.book(), fit);
    assert(fit(at.book()[b]));
    let v = before.vacancy(Side::Sell, before.k as int)->0;
    let s = l.step as int;
    assert(v * s <= k * s) by (nonlinear_arith)
        requires
            0 <= v <= k,
            s >= 0,
    ;
}

/// A pass that offers no sell and still needs buys offers a buy where it can,
/// likewise: sells that cannot be placed do not keep it from buying.
pub proof fn needed_buys_are_offered(
    begun: GridPass,
    open: Seq<Order>,
    pass: &mut GridPass,
    at: &BasketManager,
    step: GridStep,
    k: u32,
    b: u128,
)
    requires
        goes_on(begun, *old(pass)),
        begun.occupied@ == open.map_values(
            |o: Order| round_div(o.price as int, 1_000_000) as i64,
        ),
        call_ensures(GridPass::next, (pass, at), step),
        !(step matches GridStep::Place { side, price, qty, basket_id } && side == Side::Sell),
        old(pass).need_buys > 0,
        old(pass).side == Side::Buy ==> old(pass).k <= k,
        k <= 20,
        begun.levels.step >= 0,
        ({
            let p = begun.levels.base_buy - k * begun.levels.step;
            &&& begun.levels.cycle_lower <= p <= i64::MAX
            &&& p <= begun.levels.mid - begun.levels.half_spread + 100
            &&& forall|i: int|
                0 <= i < open.len() ==> p - (#[trigger] open[i]).price >= 1_000_000
                    || open[i].price - p >= 1_000_000
        }),
        at.book().dom().contains(b),
        has_room(at.book()[b], BasketSide::Long, begun.levels.qty),
    ensures
        step matches GridStep::Place { side, price, qty, basket_id } && side == Side::Buy && price
            >= begun.levels.base_buy - k * begun.levels.step,
{
    let before = if old(pass).side == Side::Sell {
        old(pass).turned()
    } else {
        *old(pass)
    };
    let l = begun.levels;
    let p = (l.base_buy - k * l.step) as i64;
    lemma_free(before, open, p);
    assert(before.levels.price(Side::Buy, k as int) == p);
    assert(before.vacant(Side::Buy, k as int));
    lemma_first_vacancy(before, Side::Buy, before.k as int, k as int);
    let fit = (Fit::RoomOn { side: BasketSide::Long, qty: l.qty }).test();
    lemma_lowest_is(at.book(), fit);
    assert(fit(at.book()[b]));
    let v = before.vacancy(Side::Buy, before.k as int)->0;
    let s = l.step as int;
    assert(v * s <= k * s) by (nonlinear_arith)
        requires
            0 <= v <= k,
            s >= 0,
    ;
}

/// A price a cent or more from every resting order is not occupied.
proof fn lemma_free(pass: GridPass, open: Seq<Order>, p: i64)
    requires
        pass.occupied@ == open.map_values(
            |o: Order| round_div(o.price as int, 1_000_000) as i64,
        ),
        forall|i: int|
            0 <= i < open.len() ==> p - (#[trigger] open[i]).price >= 1_000_000 || open[i].price - p
                >= 1_000_000,
    ensures
        !pass.occupied@.contains(round_div(p as int, 1_000_000) as i64),
{
    let key = round_div(p as int, 1_000_000) as i64;
    lemma_cents_fit(p);
    if pass.occupied@.contains(key) {
        let i = choose|i: int| 0 <= i < pass.occupied@.len() && pass.occupied@[i] == key;
        lemma_cents(p, open[i].price);
        lemma_cents_fit(open[i].price);
    }
}

/// A vacant level bounds the first vacant one.
proof fn lemma_first_vacancy(pass: GridPass, side: Side, from: int, k: int)
    requires
        0 <= from <= k <= 20,
        pass.vacant(side, k),
    ensures
        pass.vacancy(side, from) matches Some(v) && from <= v <= k,
    decreases k - from,
{
    if !pass.vacant(side, from) {
        lemma_first_vacancy(pass, side, from + 1, k);
    }
}

/// A pass begins with the sells, at the first level, and needs on either side
/// of mid what the orders there lack of the depth, which is at least one.
pub proof fn a_pass_tops_up_both_sides(
    grid: &GridEngine,
    mgr: &BasketManager,
    open: &Vec<Order>,
    mid: i64,
    anchor: i64,
    distance: i64,
    begun: GridPass,
)
    requires
        call_ensures(GridEngine::step, (grid, mgr, open, mid, anchor, distance), Some(begun)),
    ensures
        ({
            let depth = if grid.trading.grid_depth > 1 {
                grid.trading.grid_depth as int
            } else {
                1
            };
            let over = open@.filter(|o: Order| o.price > mid).len();
            let under = open@.filter(|o: Order| o.price < mid).len();
            &&& begun.side == Side::Sell
            &&& begun.k == 0
            &&& over < depth ==> begun.need_sells == depth - over
            &&& over >= depth ==> begun.need_sells == 0
            &&& under < depth ==> begun.need_buys == depth - under
            &&& under >= depth ==> begun.need_buys == 0
            &&& begun.occupied@ == open@.map_values(
                |o: Order| round_div(o.price as int, 1_000_000) as i64,
            )
        }),
{
    assert(above(mid) =~= |o: Order| o.price > mid);
    assert(below(mid) =~= |o: Order| o.price < mid);
}

/// There is no pass while every basket is killed, while the cycle has no
/// anchor or no width, without a mid or a grid step, or when the positions
/// have reached the cap; otherwise there is one.
pub proof fn a_pass_needs_a_live_priced_cycle(
    grid: &GridEngine,
    mgr: &BasketManager,
    open: &Vec<Order>,
    mid: i64,
    anchor: i64,
    distance: i64,
    r: Option<GridPass>,
    armed: bool,
    priced: bool,
    total: i64,
)
    requires
        call_ensures(GridEngine::step, (grid, mgr, open, mid, anchor, distance), r),
        call_ensures(GridEngine::armed, (grid, mgr, anchor, distance), armed),
        call_ensures(GridEngine::priced, (grid, mid), priced),
        held(total, open_total(mgr.book())),
    ensures
        ({
            let m = mgr.book();
            let dead = (exists|k: u128| m.dom().contains(k)) && (forall|k: u128| #[trigger]
                m.dom().contains(k) ==> m[k].status == BasketStatus::Killed);
            &&& armed <==> !dead && anchor > 0 && distance > 0
            &&& priced <==> mid > 0 && grid.trading.grid_step > 0
            &&& r is Some <==> !dead && anchor > 0 && distance > 0 && mid > 0
                && grid.trading.grid_step > 0 && total < grid.max_position_cap
        }),
{
    let m = mgr.book();
    if forall|k: u128| !m.dom().contains(k) {
        assert(m.dom() =~= Set::<u128>::empty());
    }
}

/// The order would take liquidity as an entry, or is a take-profit more than
/// three grid steps from mid.
pub open spec fn must_go(o: Order, mid: i64, step: i64) -> bool {
    ||| o.purpose == OrderPurpose::Entry && o.side == Side::Sell && o.price <= mid + 100
    ||| o.purpose == OrderPurpose::Entry && o.side == Side::Buy && o.price >= mid - 100
    ||| o.purpose == OrderPurpose::TakeProfit && (o.price - mid > 3 * step || mid - o.price > 3
        * step)
}

/// Exactly the crossed entries and the take-profits more than three steps from
/// mid are cancelled.
pub proof fn stale_orders_are_the_crossed_and_the_far(
    grid: &GridEngine,
    open: &Vec<Order>,
    mid: i64,
    r: Vec<u128>,
    i: int,
    j: int,
)
    requires
        call_ensures(GridEngine::stale, (grid, open, mid), r),
    ensures
        0 <= i < open@.len() && must_go(open@[i], mid, grid.trading.grid_step) ==> r@.contains(
            open@[i].order_id,
        ),
        0 <= j < r@.len() ==> exists|n: int|
            0 <= n < open@.len() && (#[trigger] open@[n]).order_id == r@[j] && must_go(
                open@[n],
                mid,
                grid.trading.grid_step,
            ),
{
    let p = is_stale(mid, grid.trading.grid_step);
    let kept = open@.filter(p);
    lemma_filter_is(open@, p);
    assert(r@ == kept.map_values(|o: Order| o.order_id));
    if 0 <= i < open@.len() && must_go(open@[i], mid, grid.trading.grid_step) {
        assert(p(open@[i]));
        assert(kept.contains(open@[i]));
        let n = choose|n: int| 0 <= n < kept.len() && kept[n] == open@[i];
        assert(r@[n] == open@[i].order_id);
    }
    if 0 <= j < r@.len() {
        assert(kept.contains(kept[j]));
        let n = choose|n: int| 0 <= n < open@.len() && open@[n] == kept[j];
        assert(open@[n].order_id == r@[j]);
    }
}

/// The composition that is logged counts the orders above and below mid, the
/// entries and the take-profits.
pub proof fn the_log_counts_the_grid(grid: &mut GridEngine, open: &Vec<Order>, mid: i64)
    requires
        call_ensures(GridEngine::note_grid_summary, (grid, open, mid), ()),
    ensures
        final(grid).last_grid_summary matches Some(t) && {
            &&& t.0 == open@.filter(|o: Order| o.price > mid).len()
            &&& t.1 == open@.filter(|o: Order| o.price < mid).len()
            &&& t.2 == open@.filter(|o: Order| o.purpose == OrderPurpose::Entry).len()
            &&& t.3 == open@.filter(|o: Order| o.purpose == OrderPurpose::TakeProfit).len()
        },
        old(grid).last_grid_summary == final(grid).last_grid_summary
            ==> final(grid).pending_log@ == old(grid).pending_log@,
        old(grid).last_grid_summary != final(grid).last_grid_summary
            ==> final(grid).pending_log@.len() == old(grid).pending_log@.len() + 1,
{
    assert(above(mid) =~= |o: Order| o.price > mid);
    assert(below(mid) =~= |o: Order| o.price < mid);
    assert(entries() =~= |o: Order| o.purpose == OrderPurpose::Entry);
    assert(targets() =~= |o: Order| o.purpose == OrderPurpose::TakeProfit);
}

/// An entry is offered only where its side still needs one, and sells only
/// before the pass has turned to buys.
pub proof fn entries_are_offered_only_where_needed(
    pass: &mut GridPass,
    at: &BasketManager,
    step: GridStep,
)
    requires
        call_ensures(GridPass::next, (pass, at), step),
    ensures
        step matches GridStep::Place { side, price, qty, basket_id } ==> {
            &&& side == Side::Sell ==> old(pass).need_sells > 0 && old(pass).side == Side::Sell
            &&& side == Side::Buy ==> old(pass).need_buys > 0
            &&& final(pass).side == side
            &&& final(pass).need_sells == old(pass).need_sells
            &&& final(pass).need_buys == old(pass).need_buys
        },
        step == GridStep::Done ==> final(pass).need_buys == 0 && final(pass).side == Side::Buy,
{
}

/// A grid keeps its configuration, and hands over the lines that it gathered,
/// once.
pub proof fn log_lines_are_handed_over_once(
    trading: TradingConfig,
    cap: i64,
    fresh: GridEngine,
    grid: &mut GridEngine,
    r: Vec<String>,
)
    requires
        call_ensures(GridEngine::new, (trading, cap), fresh),
        call_ensures(GridEngine::take_pending_log, (grid,), r),
    ensures
        fresh.trading == trading && fresh.max_position_cap == cap,
        fresh.last_grid_summary is None && fresh.pending_log@.len() == 0,
        r@ == old(grid).pending_log@,
        final(grid).pending_log@.len() == 0,
        final(grid).last_grid_summary == old(grid).last_grid_summary,
        final(grid).trading == old(grid).trading,
        final(grid).max_position_cap == old(grid).max_position_cap,
{
}

/// An entry is a whole number of steps outward from the first level of its
/// side, twenty at most, outside of the forbidden zone, to within a millionth
/// of a unit, and for the quantity of a step.
pub proof fn entries_are_whole_steps_from_the_first(
    pass: &mut GridPass,
    at: &BasketManager,
    step: GridStep,
)
    requires
        call_ensures(GridPass::next, (pass, at), step),
    ensures
        step matches GridStep::Place { side, price, qty, basket_id } ==> {
            let l = old(pass).levels;
            &&& qty == l.qty
            &&& side == Side::Sell ==> price >= l.mid + l.half_spread - 100
            &&& side == Side::Buy ==> price <= l.mid - l.half_spread + 100
            &&& exists|k: int|
                {
                    let out = #[trigger] (k * l.step);
                    &&& 0 <= k <= 20
                    &&& side == Side::Sell ==> held(price, l.base_sell + out)
                    &&& side == Side::Buy ==> held(price, l.base_buy - out)
                }
        },
{
    let l = old(pass).levels;
    lemma_offers(*old(pass), at.book());
    match step {
        GridStep::Place { side, price, qty, basket_id } => {
            let k = choose|k: u32| k <= 20 && price == #[trigger] l.price(side, k as int);
            let kk = k as int;
            let out = kk * l.step;
            assert(out == k * l.step);
        },
        GridStep::Done => {},
    }
}

/// A new composition is logged in words that spell its counts.
pub proof fn the_log_spells_the_grid(grid: &mut GridEngine, open: &Vec<Order>, mid: i64)
    requires
        call_ensures(GridEngine::note_grid_summary, (grid, open, mid), ()),
        old(grid).last_grid_summary != final(grid).last_grid_summary,
    ensures
        exists|a: Seq<char>, b: Seq<char>, c: Seq<char>, d: Seq<char>, e: Seq<char>|
            #[trigger] spells_grid(
                final(grid).pending_log@.last()@,
                final(grid).last_grid_summary->0,
                a,
                b,
                c,
                d,
                e,
            ),
        final(grid).pending_log@.drop_last() == old(grid).pending_log@,
{
    let t = final(grid).last_grid_summary->0;
    lemma_digits(t.0 as nat);
    lemma_digits(t.1 as nat);
    lemma_digits((t.0 + t.1) as nat);
    lemma_digits(t.2 as nat);
    lemma_digits(t.3 as nat);
    assert(spells_grid(
        final(grid).pending_log@.last()@,
        t,
        digits(t.0 as nat),
        digits(t.1 as nat),
        digits((t.0 + t.1) as nat),
        digits(t.2 as nat),
        digits(t.3 as nat),
    ));
}

/// Decimal digits that spell a number.
pub open spec fn is_number(s: Seq<char>, n: int) -> bool {
    all_digits(s) && spells(s) == n
}

/// The words tell how many orders rest above and below, their sum, and how many
/// of them are entries and targets.
pub open spec fn spells_grid(
    words: Seq<char>,
    t: (usize, usize, usize, usize),
    above: Seq<char>,
    below: Seq<char>,
    sum: Seq<char>,
    entries: Seq<char>,
    targets: Seq<char>,
) -> bool {
    &&& is_number(above, t.0 as int)
    &&& is_number(below, t.1 as int)
    &&& is_number(sum, t.0 + t.1)
    &&& is_number(entries, t.2 as int)
    &&& is_number(targets, t.3 as int)
    &&& words == "Grid: "@ + above + " above + "@ + below + " below = "@ + sum + " ("@ + entries
        + " entries, "@ + targets + " targets)"@
}

} // verus!
