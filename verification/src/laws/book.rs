//! Laws of the book of baskets, and of the limits that it is held against.
use vstd::prelude::*;

use crate::engines::basket_manager::{
    first_alive, first_roomy, first_taking, lemma_lowest_is, lemma_seeded, lemma_total_remove, lemma_total_replace,
    net_total, open_total, realized_total, seeded, seeded_is_full, seeded_is_half_and_half, BasketManager,
    Choice, Fit,
};
use crate::engines::risk::{RiskEngine, RiskState};
use crate::laws::amounts::{held, lemma_rounds_to, rounds_to};
use crate::laws::baskets::{closed, lemma_exited};
use crate::laws::entries::has_room;
use crate::laws::exits::fires;
use crate::laws::words::{lemma_amount_text, spells_amount};
use crate::models::basket::{Basket, BasketSide, BasketStatus};
use crate::models::config::{BasketConfig, KillSwitchConfig};
use crate::models::order::Side;
use crate::text::amount_text;

verus! {

/// A manager starts with one untraded basket per identifier, indexed in order,
/// long at even places and short at odd ones, so that half of them are long and
/// half short, and with no orders and no active basket.
pub proof fn new_books_alternate(
    config: BasketConfig,
    ids: &Vec<u128>,
    is_inverse: bool,
    tp_spread: i64,
    r: BasketManager,
    i: int,
)
    requires
        call_ensures(BasketManager::with_ids, (config, ids, is_inverse, tp_spread), r),
        ids@.len() <= u32::MAX,
        ids@.no_duplicates(),
    ensures
        r.book().dom().len() == ids@.len(),
        r.links() == Map::<u128, u128>::empty(),
        r.active_basket_id is None,
        r.config == config,
        r.book().dom().filter(|k: u128| r.book()[k].side == BasketSide::Long).len() == (ids@.len()
            + 1) / 2,
        r.book().dom().filter(|k: u128| r.book()[k].side == BasketSide::Short).len() == ids@.len()
            / 2,
        0 <= i < ids@.len() ==> {
            let b = r.book()[ids@[i]];
            &&& r.book().dom().contains(ids@[i])
            &&& b.basket_id == ids@[i]
            &&& b.index == i
            &&& i % 2 == 0 ==> b.side == BasketSide::Long
            &&& i % 2 == 1 ==> b.side == BasketSide::Short
            &&& b.max_qty == config.basket_size_qty
            &&& b.is_inverse == is_inverse
            &&& b.tp_spread == tp_spread
            &&& b.status == BasketStatus::Idle
            &&& b.open_qty == 0 && b.avg_price == 0 && b.realized_pnl == 0
            &&& b.anchor_price == 0 && b.upper_sl == 0 && b.lower_sl == 0
            &&& b.fills_count == 0 && b.tp_count == 0 && b.unrealized_pnl == 0
        },
{
    let size = config.basket_size_qty;
    lemma_seeded(ids@, size, is_inverse, tp_spread);
    seeded_is_full(ids@, size, is_inverse, tp_spread);
    seeded_is_half_and_half(ids@, size, is_inverse, tp_spread);
    let m = r.book();
    let long = |b: Basket| b.side == BasketSide::Long;
    let short = |b: Basket| b.side == BasketSide::Short;
    assert(m.dom().filter(|k: u128| long(m[k])) =~= m.dom().filter(
        |k: u128| r.book()[k].side == BasketSide::Long,
    ));
    assert(m.dom().filter(|k: u128| short(m[k])) =~= m.dom().filter(
        |k: u128| r.book()[k].side == BasketSide::Short,
    ));
}

/// What was put is got, and nothing else changes. Orders are found under the
/// basket that they were linked to.
pub proof fn what_is_put_is_got(
    m: &mut BasketManager,
    b: Basket,
    l: &mut BasketManager,
    order_id: u128,
    basket_id: u128,
    g: &BasketManager,
    k: u128,
    got: Option<Basket>,
    of: Option<u128>,
)
    requires
        call_ensures(BasketManager::put, (m, b), ()),
        call_ensures(BasketManager::link_order, (l, order_id, basket_id), ()),
        call_ensures(BasketManager::get, (g, k), got),
        call_ensures(BasketManager::basket_for_order, (g, k), of),
    ensures
        final(m).book().dom().contains(b.basket_id) && final(m).book()[b.basket_id] == b,
        k != b.basket_id ==> (final(m).book().dom().contains(k) <==> old(m).book().dom().contains(
            k,
        )) && final(m).book()[k] == old(m).book()[k],
        final(m).links() == old(m).links(),
        final(l).links().dom().contains(order_id) && final(l).links()[order_id] == basket_id,
        k != order_id ==> (final(l).links().dom().contains(k) <==> old(l).links().dom().contains(
            k,
        )) && final(l).links()[k] == old(l).links()[k],
        final(l).book() == old(l).book(),
        got is Some <==> g.book().dom().contains(k),
        got matches Some(x) ==> x == g.book()[k],
        of is Some <==> g.links().dom().contains(k),
        of matches Some(x) ==> x == g.links()[k],
{
}

/// All baskets are listed by rising index, each once.
pub proof fn books_are_listed_by_index(m: &BasketManager, r: Vec<Basket>, n: usize, i: int, k: u128)
    requires
        call_ensures(BasketManager::all, (m,), r),
        call_ensures(BasketManager::len, (m,), n),
    ensures
        r@.len() == n,
        n == m.book().dom().len(),
        0 <= i < r@.len() ==> m.book().dom().contains(r@[i].basket_id)
            && m.book()[r@[i].basket_id] == r@[i],
        m.book().dom().contains(k) ==> r@.contains(m.book()[k]),
        forall|j: int| 0 <= i < j < r@.len() ==> r@[i].index < (#[trigger] r@[j]).index,
{
}

/// The baskets of a choice are all of that choice, and no others.
pub proof fn choices_take_what_they_say(
    m: &BasketManager,
    mid: i64,
    stopped: Vec<Basket>,
    holding: Vec<Basket>,
    exposed: Vec<Basket>,
    k: u128,
)
    requires
        call_ensures(BasketManager::select, (m, Choice::StoppedOut { mid }), stopped),
        call_ensures(BasketManager::select, (m, Choice::Holding), holding),
        call_ensures(BasketManager::select, (m, Choice::Exposed), exposed),
        m.wf(),
        m.book().dom().contains(k),
    ensures
        stopped@.contains(m.book()[k]) <==> fires(m.book()[k], mid),
        holding@.contains(m.book()[k]) <==> m.book()[k].open_qty > 0,
        exposed@.contains(m.book()[k]) <==> m.book()[k].open_qty != 0,
{
    let b = m.book()[k];
    let c = Choice::StoppedOut { mid };
    if fires(b, mid) {
        assert(c.takes(b));
    }
    if b.open_qty > 0 {
        assert(Choice::Holding.takes(b));
    }
    if b.open_qty != 0 {
        assert(Choice::Exposed.takes(b));
    }
}

/// Baskets are alive or killed, and are counted as such.
pub proof fn baskets_are_alive_or_killed(
    m: &BasketManager,
    alive: usize,
    killed: usize,
    all: bool,
    n: usize,
)
    requires
        call_ensures(BasketManager::active_count, (m,), alive),
        call_ensures(BasketManager::killed_count, (m,), killed),
        call_ensures(BasketManager::all_killed, (m,), all),
        call_ensures(BasketManager::len, (m,), n),
    ensures
        killed == m.book().dom().filter(
            |k: u128| m.book()[k].status == BasketStatus::Killed,
        ).len(),
        alive == m.book().dom().filter(
            |k: u128| m.book()[k].status != BasketStatus::Killed,
        ).len(),
        all <==> (exists|k: u128| m.book().dom().contains(k)) && (forall|k: u128| #[trigger]
            m.book().dom().contains(k) ==> m.book()[k].status == BasketStatus::Killed),
{
    let b = m.book();
    let dead = |x: Basket| x.status == BasketStatus::Killed;
    let live = |x: Basket| x.status != BasketStatus::Killed;
    assert(b.dom().filter(|k: u128| dead(b[k])) =~= b.dom().filter(
        |k: u128| m.book()[k].status == BasketStatus::Killed,
    ));
    assert(b.dom().filter(|k: u128| live(b[k])) =~= b.dom().filter(
        |k: u128| m.book()[k].status != BasketStatus::Killed,
    ));
    if forall|k: u128| !b.dom().contains(k) {
        assert(b.dom() =~= Set::<u128>::empty());
    }
}

/// `r` is the basket of lowest index among those that are fit; none where none
/// is.
pub open spec fn is_first(
    r: Option<u128>,
    m: Map<u128, Basket>,
    fit: spec_fn(Basket) -> bool,
) -> bool {
    match r {
        Some(k) => m.dom().contains(k) && fit(m[k]) && forall|j: u128| #[trigger]
            m.dom().contains(j) && fit(m[j]) ==> m[k].index <= m[j].index,
        None => forall|j: u128| #[trigger] m.dom().contains(j) ==> !fit(m[j]),
    }
}

/// Entries go to the first basket that may trade and has room, on a side or on
/// any. The active basket goes first while it has room; else the one that was
/// found becomes active, or, where none has room, the first that may trade.
pub proof fn entries_go_to_the_first_with_room(
    a: &mut BasketManager,
    next: Option<u128>,
    f: &mut BasketManager,
    qty: i64,
    entry_side: Side,
    found: Option<u128>,
    m: &BasketManager,
    side: BasketSide,
    on_side: Option<u128>,
    active: Option<u128>,
)
    requires
        call_ensures(BasketManager::activate_next_idle, (a,), next),
        call_ensures(BasketManager::find_basket_with_capacity, (f, qty, entry_side), found),
        call_ensures(BasketManager::find_basket_with_capacity_by_side, (m, side, qty), on_side),
        call_ensures(BasketManager::active_id, (m,), active),
    ensures
        is_first(next, old(a).book(), |b: Basket| b.status != BasketStatus::Killed),
        final(a).active_basket_id == next,
        is_first(on_side, m.book(), |b: Basket| has_room(b, side, qty)),
        match m.active_basket_id {
            Some(k) if m.book().dom().contains(k) && m.book()[k].status != BasketStatus::Killed =>
                active == Some(k),
            _ => active is None,
        },
        ({
            let b = old(f).book();
            let roomy = |x: Basket|
                x.status != BasketStatus::Killed && x.open_qty + qty <= x.max_qty;
            match old(f).active_basket_id {
                Some(k) if b.dom().contains(k) && roomy(b[k]) => found == Some(k)
                    && final(f).active_basket_id == Some(k),
                _ => is_first(found, b, roomy) && (found is Some ==> final(f).active_basket_id
                    == found) && (found is None ==> is_first(
                    final(f).active_basket_id,
                    b,
                    |x: Basket| x.status != BasketStatus::Killed,
                )),
            }
        }),
        final(f).book() == old(f).book(),
        final(a).book() == old(a).book(),
{
    lemma_lowest_is(old(a).book(), Fit::Alive.test());
    lemma_lowest_is(old(f).book(), Fit::Alive.test());
    lemma_lowest_is(old(f).book(), (Fit::Room { qty }).test());
    lemma_lowest_is(m.book(), (Fit::RoomOn { side, qty }).test());
    lemma_first(old(a).book(), Fit::Alive, first_alive(old(a).book()));
    lemma_first(old(f).book(), Fit::Alive, first_alive(old(f).book()));
    lemma_first(old(f).book(), Fit::Room { qty }, first_roomy(old(f).book(), qty));
    lemma_first(m.book(), Fit::RoomOn { side, qty }, first_taking(m.book(), side, qty));
    let alive = Fit::Alive.test();
    let room = (Fit::Room { qty }).test();
    let room_on = (Fit::RoomOn { side, qty }).test();
    assert(alive =~= |b: Basket| b.status != BasketStatus::Killed);
    assert(room =~= |x: Basket|
        x.status != BasketStatus::Killed && x.open_qty + qty <= x.max_qty);
    assert(room_on =~= |b: Basket| has_room(b, side, qty));
}

/// The basket of lowest index that fits is the first.
proof fn lemma_first(m: Map<u128, Basket>, fit: Fit, r: Option<u128>)
    requires
        r == crate::engines::basket_manager::lowest(m, fit.test()),
    ensures
        is_first(r, m, fit.test()),
{
    lemma_lowest_is(m, fit.test());
}

/// The position of a basket, signed by its direction.
pub open spec fn signed(b: Basket) -> int {
    if b.side == BasketSide::Long {
        b.open_qty as int
    } else {
        -b.open_qty
    }
}

/// The totals of an empty book are zero, and a basket that is put adds its own
/// share in place of what was under its identifier: its size, its result, and
/// its position signed by its direction. So every basket counts once.
pub proof fn totals_add_up(m: &mut BasketManager, b: Basket)
    requires
        call_ensures(BasketManager::put, (m, b), ()),
        old(m).book().dom().finite(),
    ensures
        ({
            let before = old(m).book();
            let after = final(m).book();
            let was = before.dom().contains(b.basket_id);
            let x = before[b.basket_id];
            &&& open_total(after) - open_total(before) == b.open_qty - if was {
                x.open_qty as int
            } else {
                0
            }
            &&& realized_total(after) - realized_total(before) == b.realized_pnl - if was {
                x.realized_pnl as int
            } else {
                0
            }
            &&& net_total(after) - net_total(before) == signed(b) - if was {
                signed(x)
            } else {
                0
            }
        }),
        open_total(Map::empty()) == 0,
        realized_total(Map::empty()) == 0,
        net_total(Map::empty()) == 0,
{
    let before = old(m).book();
    let after = final(m).book();
    let k = b.basket_id;
    let f = |b: Basket| b.open_qty as int;
    let g = |b: Basket| b.realized_pnl as int;
    let h = |b: Basket| b.net();
    if before.dom().contains(k) {
        lemma_total_replace(before, f, k, b);
        lemma_total_replace(before, g, k, b);
        lemma_total_replace(before, h, k, b);
    } else {
        assert(after.remove(k) =~= before);
        lemma_total_remove(after, f, k);
        lemma_total_remove(after, g, k);
        lemma_total_remove(after, h, k);
    }
}

/// The totals that are told are those of the book.
pub proof fn told_totals_are_those_of_the_book(m: &BasketManager, open: i64, realized: i64, net: i64)
    requires
        call_ensures(BasketManager::total_open_qty, (m,), open),
        call_ensures(BasketManager::total_realized_pnl, (m,), realized),
        call_ensures(BasketManager::net_qty, (m,), net),
    ensures
        held(open, open_total(m.book())),
        held(realized, realized_total(m.book())),
        held(net, net_total(m.book())),
{
}

/// Killing all changes statuses and nothing else; resetting all closes every
/// basket that may trade at the price and leaves the killed ones as they are.
pub proof fn all_are_killed_or_reset(
    m: &mut BasketManager,
    n: &mut BasketManager,
    price: i64,
    k: u128,
)
    requires
        call_ensures(BasketManager::mark_all_killed, (m,), ()),
        call_ensures(BasketManager::reset_all, (n, price), ()),
    ensures
        final(m).book().dom() == old(m).book().dom(),
        old(m).book().dom().contains(k) ==> final(m).book()[k] == (Basket {
            status: BasketStatus::Killed,
            ..old(m).book()[k]
        }),
        final(n).book().dom() == old(n).book().dom(),
        old(n).book().dom().contains(k) ==> {
            let a = old(n).book()[k];
            let b = final(n).book()[k];
            &&& a.status == BasketStatus::Killed ==> b == a
            &&& a.status != BasketStatus::Killed ==> closed(a, b, price) && b.status
                == BasketStatus::Hit && b.avg_price == 0
        },
{
    assert(final(m).book().dom() =~= old(m).book().dom());
    assert(final(n).book().dom() =~= old(n).book().dom());
    if old(n).book().dom().contains(k) {
        lemma_exited(old(n).book()[k], price);
    }
}

/// The exposure cap is the one in coins where that is set and there is a mid,
/// at mid where positions are in quote currency; else the one in quantity.
pub proof fn caps_in_coins_go_first(e: &RiskEngine, mid: i64, r: i64)
    requires
        call_ensures(RiskEngine::effective_cap, (e, mid), r),
    ensures
        ({
            let coins = e.config.max_position_cap_coins;
            &&& coins > 0 && mid > 0 && e.is_inverse ==> rounds_to(r, coins * mid, 100_000_000)
            &&& coins > 0 && mid > 0 && !e.is_inverse ==> r == coins
            &&& coins <= 0 || mid <= 0 ==> r == e.config.max_position_cap
        }),
{
    lemma_rounds_to(e.config.max_position_cap_coins * mid, 100_000_000);
}

/// A limit is broken exactly when the exposure is over the cap, the loss is
/// over the daily limit, or the exchange is not connected; each is judged on
/// its own, and there is a reason exactly when one is broken.
pub proof fn limits_are_judged_one_by_one(
    e: &RiskEngine,
    total_open: i64,
    realized: i64,
    mid: i64,
    cap: i64,
    r: RiskState,
    healthy: bool,
)
    requires
        call_ensures(RiskEngine::effective_cap, (e, mid), cap),
        call_ensures(RiskEngine::judge, (e, total_open, realized, mid), r),
        call_ensures(RiskState::healthy, (&r,), healthy),
    ensures
        r.max_exposure_ok <==> total_open <= cap,
        r.daily_loss_ok <==> realized + e.config.max_daily_loss >= 0,
        r.api_connected <==> e.api_connected,
        r.missing_sl_ok && r.slippage_ok && r.liquidity_ok && r.runaway_ok,
        r.breach_reason is Some <==> total_open > cap || realized + e.config.max_daily_loss < 0
            || !e.api_connected,
        healthy <==> r.breach_reason is None,
{
}

/// The verdict on a book is the one on its totals.
pub proof fn books_are_judged_by_their_totals(
    e: &RiskEngine,
    m: &BasketManager,
    mid: i64,
    cap: i64,
    r: RiskState,
    open: i64,
    realized: i64,
)
    requires
        call_ensures(RiskEngine::effective_cap, (e, mid), cap),
        call_ensures(RiskEngine::assess, (e, m, mid), r),
        held(open, open_total(m.book())),
        held(realized, realized_total(m.book())),
    ensures
        r.max_exposure_ok <==> open <= cap,
        r.daily_loss_ok <==> realized + e.config.max_daily_loss >= 0,
        r.api_connected <==> e.api_connected,
        r.breach_reason is Some <==> open > cap || realized + e.config.max_daily_loss < 0
            || !e.api_connected,
{
}

/// A new manager has as many baskets as configured, long and short by turns,
/// each of the configured size and untraded, where no two identifiers were
/// drawn alike.
pub proof fn new_managers_alternate(
    config: BasketConfig,
    is_inverse: bool,
    tp_spread: i64,
    r: BasketManager,
    k: u128,
)
    requires
        call_ensures(BasketManager::new, (config, is_inverse, tp_spread), r),
        r.book().dom().len() == config.num_baskets,
    ensures
        r.book().dom().contains(k) ==> {
            let b = r.book()[k];
            &&& b.basket_id == k
            &&& b.index < config.num_baskets
            &&& b.index % 2 == 0 ==> b.side == BasketSide::Long
            &&& b.index % 2 == 1 ==> b.side == BasketSide::Short
            &&& b.max_qty == config.basket_size_qty
            &&& b.is_inverse == is_inverse
            &&& b.tp_spread == tp_spread
            &&& b.status == BasketStatus::Idle
            &&& b.open_qty == 0 && b.realized_pnl == 0 && b.anchor_price == 0
        },
        r.links() == Map::<u128, u128>::empty(),
        r.active_basket_id is None,
{
    let ids = choose|ids: Seq<u128>|
        {
            &&& #[trigger] ids.len() == config.num_baskets
            &&& r.book() == seeded(ids, config.basket_size_qty, is_inverse, tp_spread)
        };
    lemma_seeded(ids, config.basket_size_qty, is_inverse, tp_spread);
}

/// `words` name the first broken limit, exposure before loss before connection,
/// with the figures that broke it.
pub open spec fn names_the_limit(
    words: Seq<char>,
    e: RiskEngine,
    total_open: i64,
    realized: i64,
    mid: i64,
    cap: i64,
) -> bool {
    if total_open > cap {
        exists|a: Seq<char>, b: Seq<char>|
            {
                &&& #[trigger] spells_amount(a, total_open, 4)
                &&& #[trigger] spells_cap(b, e, mid, cap)
                &&& words == "exposure "@ + a + " > max_position_cap ("@ + b + ")"@
            }
    } else if realized + e.config.max_daily_loss < 0 {
        exists|loss: i64, a: Seq<char>, b: Seq<char>|
            {
                &&& held(loss, -realized)
                &&& #[trigger] spells_amount(a, loss, 2)
                &&& #[trigger] spells_amount(b, e.config.max_daily_loss, 2)
                &&& words == "daily loss "@ + a + " > max_daily_loss "@ + b
            }
    } else {
        words == "API disconnect"@
    }
}

/// `t` spells the exposure cap, and how it comes of coins where it does.
pub open spec fn spells_cap(t: Seq<char>, e: RiskEngine, mid: i64, cap: i64) -> bool {
    let coins = e.config.max_position_cap_coins;
    if coins > 0 && mid > 0 {
        exists|a: Seq<char>, b: Seq<char>, c: Seq<char>|
            {
                &&& #[trigger] spells_amount(a, coins, 4)
                &&& #[trigger] spells_amount(b, mid, 2)
                &&& #[trigger] spells_amount(c, cap, 4)
                &&& t == a + " coins × "@ + b + " = "@ + c
            }
    } else {
        spells_amount(t, e.config.max_position_cap, 4)
    }
}

/// What the words of a broken limit are.
pub proof fn lemma_limit(e: RiskEngine, total_open: i64, realized: i64, mid: i64)
    ensures
        e.breach(total_open, realized, mid) matches Some(words) ==> names_the_limit(
            words,
            e,
            total_open,
            realized,
            mid,
            e.cap(mid),
        ),
{
    let coins = e.config.max_position_cap_coins;
    let cap = e.cap(mid);
    let loss = crate::amount::clamp(-realized);
    lemma_amount_text(total_open, 4);
    lemma_amount_text(coins, 4);
    lemma_amount_text(mid, 2);
    lemma_amount_text(cap, 4);
    lemma_amount_text(e.config.max_position_cap, 4);
    lemma_amount_text(loss, 2);
    lemma_amount_text(e.config.max_daily_loss, 2);
    assert(held(loss, -realized));
    let b = e.cap_text(mid);
    assert(spells_cap(b, e, mid, cap)) by {
        if coins > 0 && mid > 0 {
            let x = amount_text(coins, 4);
            let y = amount_text(mid, 2);
            let z = amount_text(cap, 4);
            assert(spells_amount(x, coins, 4) && spells_amount(y, mid, 2) && spells_amount(
                z,
                cap,
                4,
            ));
            assert(b == x + " coins × "@ + y + " = "@ + z);
        }
    }
}

/// The reason of a verdict names the first broken limit.
pub proof fn reasons_name_the_first_broken_limit(
    e: &RiskEngine,
    total_open: i64,
    realized: i64,
    mid: i64,
    cap: i64,
    r: RiskState,
)
    requires
        call_ensures(RiskEngine::effective_cap, (e, mid), cap),
        call_ensures(RiskEngine::judge, (e, total_open, realized, mid), r),
    ensures
        r.breach_reason matches Some(s) ==> names_the_limit(
            s@,
            *e,
            total_open,
            realized,
            mid,
            cap,
        ),
{
    lemma_limit(*e, total_open, realized, mid);
}

/// A new risk engine has its limits and sees the exchange as connected.
pub proof fn new_risk_engines_are_connected(
    config: KillSwitchConfig,
    is_inverse: bool,
    r: RiskEngine,
)
    requires
        call_ensures(RiskEngine::new, (config, is_inverse), r),
    ensures
        r.config == config && r.api_connected && r.is_inverse == is_inverse,
{
}

} // verus!
