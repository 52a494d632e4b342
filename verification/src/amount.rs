//! Fixed-point amounts.
//!
//! A price, a quantity or a sum of money is an `i64` that counts
//! hundred-millionths of its unit. Sums, products and quotients are the exact
//! mathematical values, rounded once to the nearest hundred-millionth (halves
//! away from zero) and held inside the range of `i64`, so no operation here
//! overflows or wraps.
use vstd::prelude::*;

verus! {

/// One whole unit.
pub const UNIT: i64 = 100_000_000;

/// The price tick that first grid levels are aligned to: half a unit.
pub const TICK: i64 = 50_000_000;

/// One hundredth of a unit.
pub const CENT: i64 = 1_000_000;

/// `x` held inside the range of `i64`.
pub open spec fn clamp(x: int) -> i64 {
    if x > i64::MAX {
        i64::MAX
    } else if x < i64::MIN {
        i64::MIN
    } else {
        x as i64
    }
}

/// The absolute value.
pub open spec fn abs(x: int) -> int {
    if x < 0 {
        -x
    } else {
        x
    }
}

/// The larger of two numbers.
pub open spec fn larger(a: int, b: int) -> int {
    if a >= b {
        a
    } else {
        b
    }
}

/// The smaller of two numbers.
pub open spec fn smaller(a: int, b: int) -> int {
    if a <= b {
        a
    } else {
        b
    }
}

/// `m / d` for `m >= 0`, rounded to the nearest whole number, halves up.
pub open spec fn nearest(m: int, d: int) -> int {
    if 2 * (m % d) >= d {
        m / d + 1
    } else {
        m / d
    }
}

/// `n / d` rounded to the nearest whole number, halves away from zero.
pub open spec fn round_div(n: int, d: int) -> int {
    if n >= 0 {
        nearest(n, d)
    } else {
        -nearest(-n, d)
    }
}

/// The amount `a * b / c`.
pub open spec fn ratio(a: int, b: int, c: int) -> i64 {
    clamp(round_div(a * b, c))
}

/// The amount that is the product of two amounts.
pub open spec fn product(a: i64, b: i64) -> i64 {
    ratio(a as int, b as int, UNIT as int)
}

/// The mean of `a` and `b`, weighted by `p` and `q`, over a total weight `d`.
pub open spec fn mean(p: i64, a: i64, q: i64, b: i64, d: i64) -> i64 {
    clamp(round_div(p * a + q * b, d as int))
}

/// Holds a wide value inside the range of `i64`.
pub fn clamped(x: i128) -> (r: i64)
    ensures
        r == clamp(x as int),
{
    if x > i64::MAX as i128 {
        i64::MAX
    } else if x < i64::MIN as i128 {
        i64::MIN
    } else {
        x as i64
    }
}

/// `a + b`.
pub fn plus(a: i64, b: i64) -> (r: i64)
    ensures
        r == clamp(a + b),
{
    clamped(a as i128 + b as i128)
}

/// `a - b`.
pub fn minus(a: i64, b: i64) -> (r: i64)
    ensures
        r == clamp(a - b),
{
    clamped(a as i128 - b as i128)
}

/// The distance between two amounts, exactly.
pub fn gap(a: i64, b: i64) -> (r: u64)
    ensures
        r == abs(a - b),
{
    let d: i128 = a as i128 - b as i128;
    if d < 0 {
        (-d) as u64
    } else {
        d as u64
    }
}

/// The magnitude of an amount.
pub fn magnitude(a: i64) -> (r: i64)
    ensures
        r == clamp(abs(a as int)),
{
    if a < 0 {
        minus(0, a)
    } else {
        a
    }
}

/// The larger of two amounts.
pub fn max(a: i64, b: i64) -> (r: i64)
    ensures
        r == larger(a as int, b as int),
{
    if a >= b {
        a
    } else {
        b
    }
}

/// The smaller of two amounts.
pub fn min(a: i64, b: i64) -> (r: i64)
    ensures
        r == smaller(a as int, b as int),
{
    if a <= b {
        a
    } else {
        b
    }
}

/// `m / d` to the nearest whole number, negated when `negative`, as an amount.
fn rounded(negative: bool, m: u128, d: u64) -> (r: i64)
    requires
        d > 0,
        m <= 0x8000_0000_0000_0000_0000_0000_0000_0000,
    ensures
        r == clamp(
            if negative {
                -nearest(m as int, d as int)
            } else {
                nearest(m as int, d as int)
            },
        ),
{
    let w: u128 = d as u128;
    let q: u128 = m / w;
    let rem: u128 = m % w;
    assert(0 <= q <= m) by (nonlinear_arith)
        requires
            q == m as int / w as int,
            w > 0,
            m >= 0,
    ;
    let up: u128 = if rem >= w - rem {
        q + 1
    } else {
        q
    };
    if negative {
        if up > 0x8000_0000_0000_0000 {
            i64::MIN
        } else {
            clamped(-(up as i128))
        }
    } else if up > 0x7fff_ffff_ffff_ffff {
        i64::MAX
    } else {
        up as i64
    }
}

/// Bounds the product of two amounts.
proof fn lemma_product_range(a: int, b: int)
    requires
        i64::MIN <= a <= i64::MAX,
        i64::MIN <= b <= i64::MAX,
    ensures
        -0x4000_0000_0000_0000_0000_0000_0000_0000 < a * b <= 0x4000_0000_0000_0000_0000_0000_0000_0000,
{
    let m: int = 0x8000_0000_0000_0000;
    assert(-(m * m) < a * b <= m * m) by (nonlinear_arith)
        requires
            -m <= a < m,
            -m <= b < m,
            m == 0x8000_0000_0000_0000,
    ;
}

/// `a * b / c`, rounded to the nearest hundred-millionth.
pub fn scale(a: i64, b: i64, c: i64) -> (r: i64)
    requires
        c > 0,
    ensures
        r == ratio(a as int, b as int, c as int),
{
    proof {
        lemma_product_range(a as int, b as int);
    }
    let n: i128 = a as i128 * b as i128;
    if n >= 0 {
        rounded(false, n as u128, c as u64)
    } else {
        rounded(true, (-n) as u128, c as u64)
    }
}

/// The product of two amounts.
pub fn times(a: i64, b: i64) -> (r: i64)
    ensures
        r == product(a, b),
{
    scale(a, b, UNIT)
}

/// The mean of `a` and `b`, weighted by `p` and `q`, over a total weight `d`.
pub fn weighted_mean(p: i64, a: i64, q: i64, b: i64, d: i64) -> (r: i64)
    requires
        d > 0,
    ensures
        r == mean(p, a, q, b, d),
{
    proof {
        lemma_product_range(p as int, a as int);
        lemma_product_range(q as int, b as int);
    }
    let x: i128 = p as i128 * a as i128;
    let y: i128 = q as i128 * b as i128;
    match x.checked_add(y) {
        Some(n) => {
            if n >= 0 {
                rounded(false, n as u128, d as u64)
            } else {
                rounded(true, (-n) as u128, d as u64)
            }
        },
        None => rounded(false, 0x8000_0000_0000_0000_0000_0000_0000_0000, d as u64),
    }
}

/// `x` held inside the range of `i128`.
pub open spec fn clamp_wide(x: int) -> i128 {
    if x > i128::MAX {
        i128::MAX
    } else if x < i128::MIN {
        i128::MIN
    } else {
        x as i128
    }
}

/// The mean price of `qty` whose prices times quantities sum to `sum`, where
/// the sum is exact: neither rounded nor scaled back to an amount.
pub open spec fn average(sum: i128, qty: i64) -> i64 {
    clamp(round_div(sum as int, qty as int))
}

/// A price times a quantity, exactly.
pub fn exact_times(price: i64, qty: i64) -> (r: i128)
    ensures
        r == price * qty,
{
    proof {
        lemma_product_range(price as int, qty as int);
    }
    price as i128 * qty as i128
}

/// `a + b` on exact sums.
pub fn plus_wide(a: i128, b: i128) -> (r: i128)
    ensures
        r == clamp_wide(a + b),
{
    match a.checked_add(b) {
        Some(n) => n,
        None => if a > 0 {
            i128::MAX
        } else {
            i128::MIN
        },
    }
}

/// The mean price of `qty` whose prices times quantities sum to `sum`.
pub fn average_of(sum: i128, qty: i64) -> (r: i64)
    requires
        qty > 0,
    ensures
        r == average(sum, qty),
{
    if sum >= 0 {
        rounded(false, sum as u128, qty as u64)
    } else if sum == i128::MIN {
        rounded(true, 0x8000_0000_0000_0000_0000_0000_0000_0000, qty as u64)
    } else {
        rounded(true, (-sum) as u128, qty as u64)
    }
}

/// The multiple of `step` nearest to `x`.
pub open spec fn snapped(x: i64, step: i64) -> i64 {
    clamp(round_div(x as int, step as int) * step)
}

/// The multiple of `step` nearest to `x`.
pub fn snap(x: i64, step: i64) -> (r: i64)
    requires
        step > 0,
    ensures
        r == snapped(x, step),
{
    let n: i64 = if x >= 0 {
        rounded(false, x as u128, step as u64)
    } else {
        rounded(true, (-(x as i128)) as u128, step as u64)
    };
    proof {
        let a = abs(x as int);
        let d = step as int;
        assert(0 <= a / d <= a) by (nonlinear_arith)
            requires
                a >= 0,
                d > 0,
        ;
        assert(d == 1 ==> a % d == 0) by (nonlinear_arith)
            requires
                a >= 0,
                d > 0,
        ;
        assert(d >= 2 ==> a / d <= a / 2) by (nonlinear_arith)
            requires
                a >= 0,
                d > 0,
        ;
        assert(n == round_div(x as int, d));
        lemma_product_range(n as int, d);
    }
    clamped(n as i128 * step as i128)
}

/// The share of an amount that falls to each of `n`.
pub open spec fn share(x: i64, n: u64) -> i64 {
    clamp(round_div(x as int, n as int))
}

/// The share of an amount that falls to each of `n`.
pub fn share_of(x: i64, n: u64) -> (r: i64)
    requires
        n > 0,
    ensures
        r == share(x, n),
{
    if x >= 0 {
        rounded(false, x as u128, n)
    } else {
        rounded(true, (-(x as i128)) as u128, n)
    }
}

/// The amount that is `count * b / c` whole units.
pub open spec fn rate(count: u64, b: u32, c: i64) -> i64 {
    clamp(round_div(count * UNIT * b, c as int))
}

/// `count * b / c` whole units, as an amount.
pub fn rate_of(count: u64, b: u32, c: i64) -> (r: i64)
    requires
        c > 0,
    ensures
        r == rate(count, b, c),
{
    proof {
        let n = count as int;
        let u = UNIT as int;
        assert(0 <= n * u <= 0x1_0000_0000_0000_0000 * 100_000_000) by (nonlinear_arith)
            requires
                0 <= n <= 0x1_0000_0000_0000_0000,
                u == 100_000_000,
        ;
        assert(0 <= (n * u) * b <= (0x1_0000_0000_0000_0000 * 100_000_000) * 0x1_0000_0000)
            by (nonlinear_arith)
            requires
                0 <= n * u <= 0x1_0000_0000_0000_0000 * 100_000_000,
                0 <= b <= 0x1_0000_0000,
        ;
    }
    rounded(false, count as u128 * UNIT as u128 * b as u128, c as u64)
}

/// The least multiple of `step` that is not below `x`.
pub open spec fn round_up(x: int, step: int) -> int {
    -((-x) / step) * step
}

/// The greatest multiple of `step` that is not above `x`.
pub open spec fn round_down(x: int, step: int) -> int {
    (x / step) * step
}

/// `x` moved down to a tick.
pub fn tick_down(x: i64) -> (r: i64)
    ensures
        r == clamp(round_down(x as int, TICK as int)),
        r <= x || r == i64::MIN,
{
    let w: i128 = x as i128;
    let t: i128 = TICK as i128;
    let rem: i128 = if w >= 0 {
        w % t
    } else {
        let back: i128 = (-w) % t;
        if back == 0 {
            0
        } else {
            t - back
        }
    };
    proof {
        let xi = x as int;
        let ti = TICK as int;
        if xi < 0 {
            let back = (-xi) % ti;
            assert(xi % ti == if back == 0 { 0 } else { ti - back });
        }
        assert(round_down(xi, ti) == xi - xi % ti);
    }
    clamped(w - rem)
}

/// `x` moved up to a tick.
pub fn tick_up(x: i64) -> (r: i64)
    ensures
        r == clamp(round_up(x as int, TICK as int)),
        r >= x || r == i64::MAX,
{
    let w: i128 = x as i128;
    let t: i128 = TICK as i128;
    let rem: i128 = if w <= 0 {
        (-w) % t
    } else {
        let over: i128 = w % t;
        if over == 0 {
            0
        } else {
            t - over
        }
    };
    proof {
        let xi = x as int;
        let ti = TICK as int;
        if xi > 0 {
            let over = xi % ti;
            assert((-xi) % ti == if over == 0 { 0 } else { ti - over });
        }
        assert(round_up(xi, ti) == xi + (-xi) % ti);
    }
    clamped(w + rem)
}

/// The nearest whole number of cents.
pub fn cents(x: i64) -> (r: i64)
    ensures
        r == round_div(x as int, CENT as int),
{
    let r: i64 = if x >= 0 {
        rounded(false, x as u128, CENT as u64)
    } else {
        rounded(true, (-(x as i128)) as u128, CENT as u64)
    };
    r
}

/// The average of a quantity at one price is that price.
pub proof fn one_price_is_its_average(price: i64, qty: i64)
    requires
        qty > 0,
    ensures
        average((price * qty) as i128, qty) == price,
{
    lemma_product_range(price as int, qty as int);
    let q = qty as int;
    let a = abs(price as int);
    assert(abs(price * qty) == a * q) by (nonlinear_arith)
        requires
            q == qty,
            qty > 0,
            a == abs(price as int),
    ;
    assert((a * q) % q == 0 && (a * q) / q == a) by (nonlinear_arith)
        requires
            q > 0,
            a >= 0,
    ;
    assert(price >= 0 <==> price * qty >= 0) by (nonlinear_arith)
        requires
            qty > 0,
    ;
}

/// A mean of amounts at or above a floor, under non-negative weights, is not
/// below that floor, and likewise for a ceiling.
pub proof fn mean_between(p: i64, a: i64, q: i64, b: i64, lo: i64, hi: i64)
    requires
        p >= 0,
        q >= 0,
        0 < p + q <= i64::MAX,
        lo <= a <= hi,
        lo <= b <= hi,
    ensures
        lo <= mean(p, a, q, b, (p + q) as i64) <= hi,
{
    let d = p + q;
    let n = p * a + q * b;
    assert(lo * d <= n <= hi * d) by (nonlinear_arith)
        requires
            p >= 0,
            q >= 0,
            d == p + q,
            n == p * a + q * b,
            lo <= a <= hi,
            lo <= b <= hi,
    ;
    lemma_round_div_between(n, d, lo as int, hi as int);
}

/// Rounding keeps a quotient between whole bounds.
proof fn lemma_round_div_between(n: int, d: int, lo: int, hi: int)
    requires
        d > 0,
        lo * d <= n <= hi * d,
    ensures
        lo <= round_div(n, d) <= hi,
{
    if n >= 0 {
        lemma_nearest_between(n, d, lo, hi);
    } else {
        assert((-hi) * d <= -n <= (-lo) * d) by (nonlinear_arith)
            requires
                lo * d <= n <= hi * d,
        ;
        lemma_nearest_between(-n, d, -hi, -lo);
    }
}

proof fn lemma_nearest_between(m: int, d: int, lo: int, hi: int)
    requires
        d > 0,
        m >= 0,
        lo * d <= m <= hi * d,
    ensures
        lo <= nearest(m, d) <= hi,
{
    let q = m / d;
    let r = m % d;
    assert(m == q * d + r && 0 <= r < d) by (nonlinear_arith)
        requires
            d > 0,
            q == m / d,
            r == m % d,
    ;
    assert(lo <= q) by (nonlinear_arith)
        requires
            lo * d <= q * d + r,
            0 <= r < d,
            d > 0,
    ;
    assert(q <= hi && (r > 0 ==> q < hi)) by (nonlinear_arith)
        requires
            q * d + r <= hi * d,
            0 <= r < d,
            d > 0,
    ;
}

} // verus!
