//! Laws of the arithmetic on amounts.
use vstd::prelude::*;

use crate::amount::{
    average_of, cents, clamp, clamped, exact_times, gap, magnitude, max, min, minus, nearest, plus,
    plus_wide, rate_of, round_div, scale, share_of, snap, tick_down, tick_up, times, weighted_mean,
};

verus! {

/// `r` is `x`, or the end of the range of amounts on the side where `x` lies
/// outside.
pub open spec fn held(r: i64, x: int) -> bool {
    &&& i64::MIN <= x <= i64::MAX ==> r == x
    &&& x > i64::MAX ==> r == i64::MAX
    &&& x < i64::MIN ==> r == i64::MIN
}

/// `r` is `n / d` to within one half, or the end of the range of amounts
/// beyond which `n / d` lies, to within one half.
pub open spec fn rounds_to(r: i64, n: int, d: int) -> bool {
    &&& r > i64::MIN ==> (2 * r - 1) * d <= 2 * n
    &&& r < i64::MAX ==> 2 * n <= (2 * r + 1) * d
}

/// A quotient is rounded to the nearest whole number, halves away from zero.
pub proof fn quotients_are_nearest(n: int, d: int)
    requires
        d > 0,
    ensures
        n >= 0 ==> 2 * n - d < 2 * (round_div(n, d) * d) <= 2 * n + d,
        n <= 0 ==> 2 * n - d <= 2 * (round_div(n, d) * d) < 2 * n + d,
        round_div(-n, d) == -round_div(n, d),
{
    let m = if n >= 0 {
        n
    } else {
        -n
    };
    let q = m / d;
    let e = m % d;
    assert(m == q * d + e && 0 <= e < d) by (nonlinear_arith)
        requires
            d > 0,
            q == m / d,
            e == m % d,
    ;
    let k = nearest(m, d);
    assert((q + 1) * d == q * d + d) by (nonlinear_arith);
    assert(2 * m - d < 2 * (k * d) <= 2 * m + d);
    assert((-k) * d == -(k * d)) by (nonlinear_arith);
    assert(0int % d == 0 && 0int / d == 0) by (nonlinear_arith)
        requires
            d > 0,
    ;
}

/// A held, rounded quotient is within one half of the quotient.
pub proof fn lemma_rounds_to(n: int, d: int)
    requires
        d > 0,
    ensures
        rounds_to(clamp(round_div(n, d)), n, d),
{
    quotients_are_nearest(n, d);
    let q = round_div(n, d);
    let r = clamp(q) as int;
    let lo = (2 * r - 1) * d;
    let hi = (2 * r + 1) * d;
    assert(lo == 2 * (r * d) - d && hi == 2 * (r * d) + d) by (nonlinear_arith)
        requires
            lo == (2 * r - 1) * d,
            hi == (2 * r + 1) * d,
    ;
    if q > i64::MAX {
        assert(r * d <= q * d) by (nonlinear_arith)
            requires
                r <= q,
                d > 0,
        ;
    }
    if q < i64::MIN {
        assert(q * d <= r * d) by (nonlinear_arith)
            requires
                q <= r,
                d > 0,
        ;
    }
}

/// Sums and differences are exact within the range of amounts.
pub proof fn sums_are_exact(a: i64, b: i64, sum: i64, difference: i64)
    requires
        call_ensures(plus, (a, b), sum),
        call_ensures(minus, (a, b), difference),
    ensures
        held(sum, a + b),
        held(difference, a - b),
{
}

/// A wide value is held inside the range of amounts, and a sum of wide ones is
/// exact inside theirs.
pub proof fn wide_values_are_held(x: i128, y: i128, r: i64, sum: i128)
    requires
        call_ensures(clamped, (x,), r),
        call_ensures(plus_wide, (x, y), sum),
    ensures
        held(r, x as int),
        i128::MIN <= x + y <= i128::MAX ==> sum == x + y,
        x + y > i128::MAX ==> sum == i128::MAX,
        x + y < i128::MIN ==> sum == i128::MIN,
{
}

/// The distance of two amounts, and the magnitude of one.
pub proof fn distances_are_exact(a: i64, b: i64, apart: u64, size: i64)
    requires
        call_ensures(gap, (a, b), apart),
        call_ensures(magnitude, (a,), size),
    ensures
        apart == a - b || apart == b - a,
        size >= 0,
        a > i64::MIN ==> size == a || size == -a,
        a == i64::MIN ==> size == i64::MAX,
{
}

/// The larger and the smaller of two amounts are those amounts, in order.
pub proof fn extremes_are_the_two(a: i64, b: i64, high: i64, low: i64)
    requires
        call_ensures(max, (a, b), high),
        call_ensures(min, (a, b), low),
    ensures
        low <= a <= high,
        low <= b <= high,
        high + low == a + b,
        high == a || high == b,
{
}

/// A scaled amount is the product over the divisor, to within one half; halves
/// go away from zero.
pub proof fn scaling_is_nearest(a: i64, b: i64, c: i64, r: i64)
    requires
        c > 0,
        call_ensures(scale, (a, b, c), r),
    ensures
        rounds_to(r, a * b, c as int),
        r < i64::MAX && a * b >= 0 ==> 2 * (a * b) < (2 * r + 1) * c,
        r > i64::MIN && a * b <= 0 ==> (2 * r - 1) * c < 2 * (a * b),
{
    lemma_rounds_to(a * b, c as int);
    lemma_halves(a * b, c as int);
}

/// Halves go away from zero.
proof fn lemma_halves(n: int, d: int)
    requires
        d > 0,
    ensures
        ({
            let r = clamp(round_div(n, d));
            &&& r < i64::MAX && n >= 0 ==> 2 * n < (2 * r + 1) * d
            &&& r > i64::MIN && n <= 0 ==> (2 * r - 1) * d < 2 * n
        }),
{
    quotients_are_nearest(n, d);
    let q = round_div(n, d);
    let r = clamp(q) as int;
    assert((2 * r + 1) * d == 2 * (r * d) + d) by (nonlinear_arith);
    assert((2 * r - 1) * d == 2 * (r * d) - d) by (nonlinear_arith);
    if n >= 0 {
        assert(q >= 0) by (nonlinear_arith)
            requires
                2 * n - d < 2 * (q * d),
                n >= 0,
                d > 0,
        ;
    } else {
        assert(q <= 0) by (nonlinear_arith)
            requires
                2 * (q * d) < 2 * n + d,
                n <= 0,
                d > 0,
        ;
    }
}

/// The product of two amounts is that of the numbers they stand for, to the
/// nearest hundred-millionth. A whole unit changes nothing, and the order of
/// the two does not matter.
pub proof fn products_are_nearest(a: i64, b: i64, r: i64, swapped: i64, whole: i64)
    requires
        call_ensures(times, (a, b), r),
        call_ensures(times, (b, a), swapped),
        call_ensures(times, (a, 100_000_000i64), whole),
    ensures
        rounds_to(r, a * b, 100_000_000),
        swapped == r,
        whole == a,
{
    lemma_rounds_to(a * b, 100_000_000);
    assert(a * b == b * a) by (nonlinear_arith);
    lemma_rounds_to(a * 100_000_000, 100_000_000);
}

/// A weighted mean times the total weight is the sum of the weighted parts, to
/// within half of the total weight.
pub proof fn means_are_nearest(p: i64, a: i64, q: i64, b: i64, d: i64, r: i64)
    requires
        d > 0,
        call_ensures(weighted_mean, (p, a, q, b, d), r),
    ensures
        rounds_to(r, p * a + q * b, d as int),
{
    lemma_rounds_to(p * a + q * b, d as int);
}

/// A mean price times its quantity is the sum it was made of, to within half
/// of the quantity. Sums of prices times quantities are exact.
pub proof fn averages_are_nearest(sum: i128, qty: i64, r: i64, price: i64, exact: i128)
    requires
        qty > 0,
        call_ensures(average_of, (sum, qty), r),
        call_ensures(exact_times, (price, qty), exact),
    ensures
        rounds_to(r, sum as int, qty as int),
        exact == price * qty,
{
    lemma_rounds_to(sum as int, qty as int);
}

/// A snapped amount is a multiple of the step, no further than half a step from
/// where it was, and a multiple stays where it is.
pub proof fn snapping_finds_the_nearest_multiple(x: i64, step: i64, r: i64)
    requires
        step > 0,
        call_ensures(snap, (x, step), r),
    ensures
        i64::MIN < r < i64::MAX ==> r as int % step as int == 0,
        i64::MIN < r < i64::MAX ==> -step <= 2 * (r - x) <= step,
        x as int % step as int == 0 ==> r == x,
{
    quotients_are_nearest(x as int, step as int);
    let d = step as int;
    let q = round_div(x as int, d);
    assert((q * d) % d == 0) by (nonlinear_arith)
        requires
            d > 0,
    ;
    if x as int % d == 0 {
        let k = x as int / d;
        assert(x == k * d) by (nonlinear_arith)
            requires
                d > 0,
                k == x as int / d,
                x as int % d == 0,
        ;
        assert(q == k) by (nonlinear_arith)
            requires
                2 * (k * d) - d <= 2 * (q * d) <= 2 * (k * d) + d,
                d > 0,
        ;
    }
}

/// What falls to each of `n` is the amount over `n`, to within one half.
pub proof fn shares_are_nearest(x: i64, n: u64, r: i64)
    requires
        n > 0,
        call_ensures(share_of, (x, n), r),
    ensures
        rounds_to(r, x as int, n as int),
{
    lemma_rounds_to(x as int, n as int);
}

/// A rate is the count times the span over the time, in whole units.
pub proof fn rates_are_nearest(count: u64, span: u32, over: i64, r: i64)
    requires
        over > 0,
        call_ensures(rate_of, (count, span, over), r),
    ensures
        rounds_to(r, count * 100_000_000 * span, over as int),
{
    lemma_rounds_to(count * 100_000_000 * span, over as int);
}

/// A price moves to the next tick, a multiple of half a unit, never past it.
pub proof fn ticks_are_next(x: i64, down: i64, up: i64)
    requires
        call_ensures(tick_down, (x,), down),
        call_ensures(tick_up, (x,), up),
    ensures
        i64::MIN < down ==> down as int % 50_000_000 == 0 && x - 50_000_000 < down <= x,
        up < i64::MAX ==> up as int % 50_000_000 == 0 && x <= up < x + 50_000_000,
{
}

/// A price in cents is a hundredth of a unit each, to the nearest.
pub proof fn cents_are_nearest(x: i64, r: i64)
    requires
        call_ensures(cents, (x,), r),
    ensures
        -1_000_000 <= 2 * (r * 1_000_000 - x) <= 1_000_000,
{
    quotients_are_nearest(x as int, 1_000_000);
}

} // verus!
