//! Laws of a single basket.
use vstd::prelude::*;

use crate::laws::amounts::{held, lemma_rounds_to, rounds_to};
use crate::models::basket::{exit_orders, Basket, BasketSide, BasketStatus, ExitOrder};
use crate::models::order::{OrderPurpose, Side};

verus! {

/// `pnl` is what a favourable move per unit earns on a quantity: the move times
/// the quantity, over the entry price where quantities are in quote currency.
pub open spec fn earns(pnl: i64, gain: int, qty: i64, entry_price: i64, is_inverse: bool) -> bool {
    rounds_to(
        pnl,
        gain * qty,
        if is_inverse && entry_price > 0 {
            entry_price as int
        } else {
            100_000_000
        },
    )
}

/// How far a price lies on the profitable side of a basket's mean price.
pub open spec fn gain_at(b: Basket, price: i64) -> int {
    match b.side {
        BasketSide::Long => price - b.avg_price,
        BasketSide::Short => b.avg_price - price,
    }
}

/// The same basket: what identifies and sizes it is unchanged.
pub open spec fn same_basket(a: Basket, b: Basket) -> bool {
    &&& a.basket_id == b.basket_id
    &&& a.index == b.index
    &&& a.side == b.side
    &&& a.max_qty == b.max_qty
    &&& a.is_inverse == b.is_inverse
    &&& a.tp_spread == b.tp_spread
    &&& a.unrealized_pnl == b.unrealized_pnl
}

/// The stop-loss bounds are unchanged.
pub open spec fn same_bounds(a: Basket, b: Basket) -> bool {
    a.anchor_price == b.anchor_price && a.upper_sl == b.upper_sl && a.lower_sl == b.lower_sl
}

/// A killed basket is still killed; any other has the status.
pub open spec fn turned(a: Basket, b: Basket, status: BasketStatus) -> bool {
    if a.status == BasketStatus::Killed {
        b.status == BasketStatus::Killed
    } else {
        b.status == status
    }
}

/// `b` is `a` after an entry of a quantity at a price.
pub open spec fn grew(a: Basket, b: Basket, qty: i64, price: i64) -> bool {
    &&& same_basket(a, b)
    &&& held(b.open_qty, a.open_qty + qty)
    &&& b.open_qty > 0 ==> rounds_to(
        b.avg_price,
        a.open_qty * a.avg_price + qty * price,
        b.open_qty as int,
    )
    &&& b.open_qty <= 0 ==> b.avg_price == a.avg_price
    &&& turned(a, b, BasketStatus::Active)
    &&& b.fills_count == a.fills_count.wrapping_add(1)
    &&& b.tp_count == a.tp_count
    &&& b.realized_pnl == a.realized_pnl
}

/// `b` has the bounds that an anchor gives `a`: its own while it is anchored,
/// else the distance to either side of the anchor.
pub open spec fn bounded(a: Basket, b: Basket, anchor: i64, distance: i64) -> bool {
    let reach = if distance > 0 {
        distance as int
    } else {
        0
    };
    if a.anchor_price > 0 {
        same_bounds(a, b)
    } else {
        b.anchor_price == anchor && held(b.upper_sl, anchor + reach) && held(
            b.lower_sl,
            anchor - reach,
        )
    }
}

/// `b` is `a` after a take-profit of a quantity.
pub open spec fn shrank(a: Basket, b: Basket, qty: i64) -> bool {
    &&& same_basket(a, b)
    &&& exists|pnl: i64|
        #[trigger] earns(pnl, a.tp_spread as int, qty, a.avg_price, a.is_inverse) && held(
            b.realized_pnl,
            a.realized_pnl + pnl,
        )
    &&& b.tp_count == a.tp_count.wrapping_add(1)
    &&& b.fills_count == a.fills_count
    &&& if a.open_qty > qty {
        &&& held(b.open_qty, a.open_qty - qty)
        &&& turned(a, b, BasketStatus::TpRecycling)
        &&& b.avg_price == a.avg_price
        &&& same_bounds(a, b)
    } else {
        &&& b.open_qty == 0
        &&& turned(a, b, BasketStatus::Idle)
        &&& b.avg_price == 0
        &&& b.anchor_price == 0
        &&& b.upper_sl == 0
        &&& b.lower_sl == 0
    }
}

/// `b` is `a` with its whole position closed at a price.
pub open spec fn closed(a: Basket, b: Basket, price: i64) -> bool {
    &&& same_basket(a, b)
    &&& same_bounds(a, b)
    &&& b.open_qty == 0
    &&& b.fills_count == a.fills_count
    &&& b.tp_count == a.tp_count
    &&& a.open_qty <= 0 ==> b.realized_pnl == a.realized_pnl
    &&& a.open_qty > 0 ==> exists|gain: i64, pnl: i64|
        {
            &&& held(gain, gain_at(a, price))
            &&& #[trigger] earns(pnl, gain as int, a.open_qty, a.avg_price, a.is_inverse)
            &&& held(b.realized_pnl, a.realized_pnl + pnl)
        }
}

/// The result of a move.
proof fn lemma_earns(b: Basket, gain: i64, qty: i64, entry_price: i64)
    ensures
        earns(b.result_of(gain, qty, entry_price), gain as int, qty, entry_price, b.is_inverse),
{
    if b.is_inverse && entry_price > 0 {
        lemma_rounds_to(gain * qty, entry_price as int);
    } else {
        lemma_rounds_to(gain * qty, 100_000_000);
    }
}

/// What an entry makes of a basket.
pub proof fn lemma_entered(a: Basket, qty: i64, price: i64)
    ensures
        grew(a, a.entered(qty, price), qty, price),
        same_bounds(a, a.entered(qty, price)),
{
    let b = a.entered(qty, price);
    if b.open_qty > 0 {
        lemma_rounds_to(a.open_qty * a.avg_price + qty * price, b.open_qty as int);
    }
}

/// What a take-profit makes of a basket.
pub proof fn lemma_recycled(a: Basket, qty: i64)
    ensures
        shrank(a, a.recycled(qty), qty),
{
    lemma_earns(a, a.tp_spread, qty, a.avg_price);
}

/// What an exit books.
pub proof fn lemma_exited(a: Basket, price: i64)
    ensures
        closed(a, a.killed(price), price),
        a.killed(price).status == BasketStatus::Killed,
        a.killed(price).avg_price == a.avg_price,
        closed(a, a.soft_resetted(price), price),
        turned(a, a.soft_resetted(price), BasketStatus::Hit),
        a.soft_resetted(price).avg_price == 0,
{
    if a.open_qty > 0 {
        let gain = crate::amount::clamp(gain_at(a, price));
        assert(held(gain, gain_at(a, price)));
        lemma_earns(a, gain, a.open_qty, a.avg_price);
    }
}

/// An entry adds its quantity to the position, and the mean price is that of
/// all that was filled.
pub proof fn entries_average_the_price(b: &mut Basket, qty: i64, price: i64)
    requires
        call_ensures(Basket::apply_entry_fill, (b, qty, price), ()),
    ensures
        grew(*old(b), *final(b), qty, price),
        same_bounds(*old(b), *final(b)),
{
    lemma_entered(*old(b), qty, price);
}

/// The first anchor sets the bounds at its distance, and later ones change
/// nothing.
pub proof fn the_first_anchor_counts(b: &mut Basket, anchor: i64, distance: i64)
    requires
        call_ensures(Basket::set_sl_anchor, (b, anchor, distance), ()),
    ensures
        bounded(*old(b), *final(b), anchor, distance),
        *final(b) == (Basket {
            anchor_price: final(b).anchor_price,
            upper_sl: final(b).upper_sl,
            lower_sl: final(b).lower_sl,
            ..*old(b)
        }),
{
}

/// A take-profit earns the spread on its quantity, at whatever price it
/// filled, and empties or shrinks the position.
pub proof fn take_profits_book_the_spread(b: &mut Basket, qty: i64, price: i64)
    requires
        call_ensures(Basket::apply_tp_fill, (b, qty, price), ()),
    ensures
        shrank(*old(b), *final(b), qty),
{
    lemma_recycled(*old(b), qty);
}

/// A kill books the result of the whole position at the exit price, long or
/// short, and is for good.
pub proof fn kills_book_the_exit(b: &mut Basket, price: i64)
    requires
        call_ensures(Basket::kill, (b, price), ()),
    ensures
        closed(*old(b), *final(b), price),
        final(b).status == BasketStatus::Killed,
        final(b).avg_price == old(b).avg_price,
{
    lemma_exited(*old(b), price);
}

/// A reset books the same result and leaves the basket to trade on, unless it
/// is killed.
pub proof fn resets_book_the_exit(b: &mut Basket, price: i64)
    requires
        call_ensures(Basket::soft_reset, (b, price), ()),
    ensures
        closed(*old(b), *final(b), price),
        turned(*old(b), *final(b), BasketStatus::Hit),
        final(b).avg_price == 0,
{
    lemma_exited(*old(b), price);
}

/// The result of a move is the move times the quantity, over the reference
/// price on an inverse venue that has one.
pub proof fn results_follow_the_move(
    b: &Basket,
    price_diff: i64,
    qty: i64,
    entry_ref: i64,
    r: i64,
)
    requires
        call_ensures(Basket::pnl_usd, (b, price_diff, qty, entry_ref), r),
    ensures
        earns(r, price_diff as int, qty, entry_ref, b.is_inverse),
{
    lemma_earns(*b, price_diff, qty, entry_ref);
}

/// A stop-loss has fired exactly when there is an anchored position of a
/// basket that may trade and mid has reached a bound.
pub proof fn stops_fire_at_the_bounds(b: &Basket, mid: i64, r: bool)
    requires
        call_ensures(Basket::sl_breached, (b, mid), r),
    ensures
        r <==> b.anchor_price > 0 && b.open_qty > 0 && b.status != BasketStatus::Killed && (mid
            <= b.lower_sl || mid >= b.upper_sl),
{
}

/// A basket has room exactly when it may trade and would stay within its size.
pub proof fn room_is_what_is_left_of_the_size(b: &Basket, qty: i64, r: bool)
    requires
        call_ensures(Basket::has_capacity, (b, qty), r),
    ensures
        r <==> b.status != BasketStatus::Killed && b.open_qty + qty <= b.max_qty,
{
}

/// A position counts by its direction, and its exit is the opposite of it.
pub proof fn exits_undo_positions(b: &Basket, purpose: OrderPurpose, net: i64, exit: ExitOrder)
    requires
        call_ensures(Basket::net_qty, (b,), net),
        call_ensures(Basket::exit_order, (b, purpose), exit),
    ensures
        b.side == BasketSide::Long ==> net == b.open_qty,
        b.side == BasketSide::Short ==> held(net, -b.open_qty),
        exit.basket_id == b.basket_id,
        exit.index == b.index,
        exit.purpose == purpose,
        b.open_qty > 0 ==> exit.qty == b.open_qty,
        b.open_qty > 0 && b.side == BasketSide::Long ==> exit.side == Side::Sell,
        b.open_qty > 0 && b.side == BasketSide::Short ==> exit.side == Side::Buy,
        b.open_qty == 0 ==> exit.qty == 0,
{
}

/// The exits of several baskets close each of them in turn.
pub proof fn exits_are_one_per_basket(
    list: &Vec<Basket>,
    purpose: OrderPurpose,
    r: Vec<ExitOrder>,
    i: int,
)
    requires
        call_ensures(exit_orders, (list, purpose), r),
        0 <= i < list@.len(),
        list@[i].open_qty > 0,
    ensures
        r@.len() == list@.len(),
        r@[i].basket_id == list@[i].basket_id,
        r@[i].index == list@[i].index,
        r@[i].qty == list@[i].open_qty,
        r@[i].purpose == purpose,
        list@[i].side == BasketSide::Long ==> r@[i].side == Side::Sell,
        list@[i].side == BasketSide::Short ==> r@[i].side == Side::Buy,
{
}

/// Longs are closed by selling, shorts by buying.
pub proof fn closing_is_the_other_side(side: BasketSide, r: Side)
    requires
        call_ensures(BasketSide::closing_side, (side,), r),
    ensures
        side == BasketSide::Long <==> r == Side::Sell,
        side == BasketSide::Short <==> r == Side::Buy,
{
}

/// A new basket is idle and has no position, result, count or anchor.
pub proof fn new_baskets_are_empty(
    basket_id: u128,
    index: u32,
    side: BasketSide,
    max_qty: i64,
    is_inverse: bool,
    tp_spread: i64,
    b: Basket,
)
    requires
        call_ensures(
            Basket::with_id,
            (basket_id, index, side, max_qty, is_inverse, tp_spread),
            b,
        ),
    ensures
        b.basket_id == basket_id,
        b.index == index,
        b.side == side,
        b.max_qty == max_qty,
        b.is_inverse == is_inverse,
        b.tp_spread == tp_spread,
        b.status == BasketStatus::Idle,
        b.open_qty == 0 && b.avg_price == 0,
        b.realized_pnl == 0 && b.unrealized_pnl == 0,
        b.fills_count == 0 && b.tp_count == 0,
        b.anchor_price == 0 && b.upper_sl == 0 && b.lower_sl == 0,
{
}

} // verus!
