//! Laws of texts and lists.
use vstd::prelude::*;

use crate::amount::{abs, nearest};
use crate::api::snapshots::{fields_in, frozen};
use crate::exchanges::deribit::base_url;
use crate::exchanges::instruments::{
    collect_perps, deribit_listing_url, fetch_deribit_perps, fetch_hyperliquid_perps,
    requested_source, source_of, InstrumentSource, Listing,
};
use crate::laws::amounts::{lemma_rounds_to, quotients_are_nearest, rounds_to};
use crate::lists::keep_last;
use crate::models::order::{halfway, readable, readable_levels, OrderBook, OrderBookLevel};
use crate::names::{holds, sorted_list, sorted_set, texts};
use crate::tables::{lemma_walk_reaches, lists_values, values_of, walks};
use crate::text::{
    amount_text, chars_of, digit, digits, eq_ignore_case, is_white, padded, precedes, push_amount, push_number,
    rank, ten_to, text_of, trim, trim_back, trim_front, trimmed, upper_begins_with, upper_of, white, Rank,
};

verus! {

/// The number that decimal digits spell.
pub open spec fn spells(s: Seq<char>) -> int
    decreases s.len(),
{
    if s.len() == 0 {
        0
    } else {
        10 * spells(s.drop_last()) + (s.last() as int - 48)
    }
}

/// Every character is a decimal digit.
pub open spec fn all_digits(s: Seq<char>) -> bool {
    forall|i: int| 0 <= i < s.len() ==> '0' <= (#[trigger] s[i]) && s[i] <= '9'
}

/// The digit of a number below ten.
proof fn lemma_digit(d: int)
    requires
        0 <= d < 10,
    ensures
        digit(d) as int == 48 + d,
        '0' <= digit(d) && digit(d) <= '9',
        d > 0 ==> digit(d) != '0',
{
}

/// What digits spell.
pub proof fn lemma_digits(n: nat)
    ensures
        spells(digits(n)) == n,
        all_digits(digits(n)),
        digits(n).len() > 0,
        n > 0 ==> digits(n)[0] != '0',
    decreases n,
{
    reveal_with_fuel(spells, 2);
    if n < 10 {
        lemma_digit(n as int);
        assert(digits(n).drop_last() =~= Seq::empty());
    } else {
        lemma_digits(n / 10);
        lemma_digit((n % 10) as int);
        assert(digits(n).drop_last() =~= digits(n / 10));
    }
}

/// What padded digits spell.
proof fn lemma_padded(n: nat, width: nat)
    requires
        n < ten_to(width),
    ensures
        spells(padded(n, width)) == n,
        all_digits(padded(n, width)),
        padded(n, width).len() == width,
    decreases width,
{
    if width > 0 {
        lemma_padded(n / 10, (width - 1) as nat);
        lemma_digit((n % 10) as int);
        assert(padded(n, width).drop_last() =~= padded(n / 10, (width - 1) as nat));
    }
}

/// A number is appended in decimal digits, without leading zeros.
pub proof fn numbers_are_spelled_out(s: &mut String, n: u64, d: Seq<char>)
    requires
        call_ensures(push_number, (s, n), ()),
        final(s)@ == old(s)@ + d,
    ensures
        spells(d) == n,
        all_digits(d),
        d.len() > 0,
        n > 0 ==> d[0] != '0',
{
    lemma_digits(n as nat);
    let e = digits(n as nat);
    assert((old(s)@ + d).len() == (old(s)@ + e).len());
    assert forall|i: int| 0 <= i < d.len() implies d[i] == e[i] by {
        assert((old(s)@ + d)[old(s)@.len() + i] == (old(s)@ + e)[old(s)@.len() + i]);
    }
    assert(d =~= e);
}

/// `t` spells an amount with a number of decimals: a sign where it is negative,
/// whole units, and the decimals behind a point; together the nearest to the
/// amount that so many decimals allow.
pub open spec fn spells_amount(t: Seq<char>, x: i64, places: nat) -> bool {
    exists|whole: Seq<char>, part: Seq<char>|
        {
            let size = if x < 0 {
                -x
            } else {
                x as int
            };
            let unit = ten_to((8 - places) as nat) as int;
            let m = spells(whole) * ten_to(places) + spells(part);
            &&& #[trigger] all_digits(whole)
            &&& #[trigger] all_digits(part)
            &&& whole.len() > 0
            &&& part.len() == places
            &&& t == (if x < 0 {
                seq!['-']
            } else {
                Seq::empty()
            }) + whole + (if places > 0 {
                seq!['.'] + part
            } else {
                Seq::empty()
            })
            &&& -unit <= 2 * (m * unit - size) <= unit
        }
}

/// Ten to a power is positive.
proof fn lemma_ten_to(n: nat)
    ensures
        ten_to(n) > 0,
    decreases n,
{
    if n > 0 {
        lemma_ten_to((n - 1) as nat);
    }
}

/// What the text of an amount is.
pub proof fn lemma_amount_text(x: i64, places: nat)
    requires
        places <= 8,
    ensures
        spells_amount(amount_text(x, places), x, places),
{
    let size = abs(x as int);
    let unit = ten_to((8 - places) as nat) as int;
    let base = ten_to(places) as int;
    lemma_ten_to((8 - places) as nat);
    lemma_ten_to(places);
    quotients_are_nearest(size, unit);
    let m = nearest(size, unit);
    assert(0 <= size / unit) by (nonlinear_arith)
        requires
            size >= 0,
            unit > 0,
    ;
    assert(m >= 0);
    let n = m as nat;
    assert(n == (n / ten_to(places)) * base + n % ten_to(places) && 0 <= n % ten_to(places)
        < base) by (nonlinear_arith)
        requires
            base > 0,
            base == ten_to(places),
    ;
    let whole = digits(n / ten_to(places));
    let part = padded(n % ten_to(places), places);
    lemma_digits(n / ten_to(places));
    lemma_padded(n % ten_to(places), places);
    assert(all_digits(whole));
    assert(all_digits(part));
    let sign = if x < 0 {
        seq!['-']
    } else {
        Seq::<char>::empty()
    };
    if places > 0 {
        assert(amount_text(x, places) =~= sign + whole + (seq!['.'] + part));
    } else {
        assert(amount_text(x, places) =~= sign + whole + Seq::<char>::empty());
    }
}

/// An amount is appended with its sign and the nearest decimals.
pub proof fn amounts_are_spelled_out(s: &mut String, x: i64, places: u32, t: Seq<char>)
    requires
        call_ensures(push_amount, (s, x, places), ()),
        places <= 8,
        final(s)@ == old(s)@ + t,
    ensures
        spells_amount(t, x, places as nat),
{
    lemma_amount_text(x, places as nat);
    let e = amount_text(x, places as nat);
    assert((old(s)@ + t).len() == (old(s)@ + e).len());
    assert forall|i: int| 0 <= i < t.len() implies t[i] == e[i] by {
        assert((old(s)@ + t)[old(s)@.len() + i] == (old(s)@ + e)[old(s)@.len() + i]);
    }
    assert(t =~= e);
}

/// Two characters are the same letter of the ASCII alphabet in either case, or
/// the same character.
pub open spec fn same_letter(a: char, b: char) -> bool {
    ||| a == b
    ||| 'a' <= a && a <= 'z' && b as int == a as int - 32
    ||| 'a' <= b && b <= 'z' && a as int == b as int - 32
}

/// Case makes no difference to letters, and only to letters.
pub proof fn case_makes_no_difference(a: &str, b: &str, r: bool, c: char, u: char)
    requires
        call_ensures(eq_ignore_case, (a, b), r),
        call_ensures(upper_of, (c,), u),
    ensures
        r <==> a@.len() == b@.len() && forall|i: int|
            0 <= i < a@.len() ==> same_letter(#[trigger] a@[i], b@[i]),
        'a' <= c && c <= 'z' ==> u as int == c as int - 32,
        !('a' <= c && c <= 'z') ==> u == c,
{
    let up = |c: char| crate::text::ascii_upper(c);
    let p = a@.map_values(up);
    let q = b@.map_values(up);
    if p == q {
        assert(p.len() == q.len());
        assert forall|i: int| 0 <= i < a@.len() implies same_letter(#[trigger] a@[i], b@[i]) by {
            assert(p[i] == q[i]);
        }
    }
    if a@.len() == b@.len() && forall|i: int|
        0 <= i < a@.len() ==> same_letter(#[trigger] a@[i], b@[i]) {
        assert forall|i: int| 0 <= i < p.len() implies p[i] == q[i] by {
            assert(same_letter(a@[i], b@[i]));
        }
        assert(p =~= q);
    }
}

/// A text begins with a prefix in capitals when its first characters are those
/// capitals in either case.
pub proof fn prefixes_are_at_the_front(s: &str, prefix: &str, r: bool)
    requires
        call_ensures(upper_begins_with, (s, prefix), r),
        forall|i: int|
            0 <= i < prefix@.len() ==> !('a' <= (#[trigger] prefix@[i]) && prefix@[i] <= 'z'),
    ensures
        r <==> prefix@.len() <= s@.len() && forall|i: int|
            0 <= i < prefix@.len() ==> same_letter(s@[i], #[trigger] prefix@[i]),
{
    let up = |c: char| crate::text::ascii_upper(c);
    if prefix@.len() <= s@.len() {
        let head = s@.take(prefix@.len() as int).map_values(up);
        if head == prefix@ {
            assert forall|i: int| 0 <= i < prefix@.len() implies same_letter(
                s@[i],
                #[trigger] prefix@[i],
            ) by {
                assert(head[i] == prefix@[i]);
            }
        }
        if forall|i: int| 0 <= i < prefix@.len() ==> same_letter(s@[i], #[trigger] prefix@[i]) {
            assert forall|i: int| 0 <= i < head.len() implies head[i] == prefix@[i] by {
                assert(same_letter(s@[i], prefix@[i]));
            }
            assert(head =~= prefix@);
        }
    }
}

/// White space is the tab, the breaks behind it, the space and the few others
/// that Unicode lists.
pub proof fn white_space_is_what_unicode_lists(c: char, r: bool)
    requires
        call_ensures(white, (c,), r),
    ensures
        r <==> ({
            let n = c as int;
            ||| 9 <= n <= 13
            ||| n == 32 || n == 133 || n == 160 || n == 5760
            ||| 8192 <= n <= 8202
            ||| n == 8232 || n == 8233 || n == 8239 || n == 8287 || n == 12288
        }),
{
}

/// `t` is what is left of `s` without the white space around it.
pub open spec fn is_trim(s: Seq<char>, t: Seq<char>) -> bool {
    exists|from: int, to: int|
        {
            &&& 0 <= from <= to <= s.len()
            &&& t == #[trigger] s.subrange(from, to)
            &&& forall|i: int| 0 <= i < from ==> is_white(#[trigger] s[i])
            &&& forall|i: int| to <= i < s.len() ==> is_white(#[trigger] s[i])
            &&& from < to ==> !is_white(s[from]) && !is_white(s[to - 1])
        }
}

/// What is left without white space in front.
proof fn lemma_front(s: Seq<char>) -> (from: int)
    ensures
        0 <= from <= s.len(),
        trim_front(s) == s.subrange(from, s.len() as int),
        forall|i: int| 0 <= i < from ==> is_white(#[trigger] s[i]),
        from < s.len() ==> !is_white(s[from]),
    decreases s.len(),
{
    if s.len() > 0 && is_white(s[0]) {
        let rest = s.skip(1);
        let f = lemma_front(rest);
        assert(trim_front(s) =~= s.subrange(f + 1, s.len() as int));
        assert forall|i: int| 0 <= i < f + 1 implies is_white(#[trigger] s[i]) by {
            if i > 0 {
                assert(rest[i - 1] == s[i]);
            }
        }
        f + 1
    } else {
        assert(s =~= s.subrange(0, s.len() as int));
        0
    }
}

/// What is left without white space at the end.
proof fn lemma_back(s: Seq<char>) -> (to: int)
    ensures
        0 <= to <= s.len(),
        trim_back(s) == s.subrange(0, to),
        forall|i: int| to <= i < s.len() ==> is_white(#[trigger] s[i]),
        to > 0 ==> !is_white(s[to - 1]),
    decreases s.len(),
{
    if s.len() > 0 && is_white(s.last()) {
        let front = s.drop_last();
        let t = lemma_back(front);
        assert(trim_back(s) =~= s.subrange(0, t));
        assert forall|i: int| t <= i < s.len() implies is_white(#[trigger] s[i]) by {
            if i < front.len() {
                assert(front[i] == s[i]);
            }
        }
        t
    } else {
        assert(s =~= s.subrange(0, s.len() as int));
        s.len() as int
    }
}

/// What is left without white space around it.
pub proof fn lemma_trimmed(s: Seq<char>)
    ensures
        is_trim(s, trimmed(s)),
{
    let from = lemma_front(s);
    let front = trim_front(s);
    let len = lemma_back(front);
    let to = from + len;
    assert(trimmed(s) =~= s.subrange(from, to));
    assert forall|i: int| to <= i < s.len() implies is_white(#[trigger] s[i]) by {
        assert(front[i - from] == s[i]);
    }
    if from < to {
        assert(front[len - 1] == s[to - 1]);
    }
}

/// Trimming takes the white space around a text, all of it and nothing else.
pub proof fn trimming_takes_the_white_space_around(s: &str, r: String)
    requires
        call_ensures(trim, (s,), r),
    ensures
        is_trim(s@, r@),
{
    lemma_trimmed(s@);
}

/// A text comes before another where they first differ, by code point, or where
/// it ends and the other goes on.
pub open spec fn comes_before(a: Seq<char>, b: Seq<char>) -> bool {
    exists|n: int|
        {
            &&& 0 <= n <= a.len() && n < b.len()
            &&& a.take(n) == #[trigger] b.take(n)
            &&& n < a.len() ==> a[n] < b[n]
        }
}

/// What preceding is.
pub proof fn lemma_precedes(a: Seq<char>, b: Seq<char>)
    ensures
        precedes(a, b) <==> comes_before(a, b),
    decreases a.len(),
{
    if b.len() > 0 && a.len() > 0 && a[0] == b[0] {
        let x = a.skip(1);
        let y = b.skip(1);
        lemma_precedes(x, y);
        if comes_before(x, y) {
            let n = choose|n: int|
                {
                    &&& 0 <= n <= x.len() && n < y.len()
                    &&& x.take(n) == #[trigger] y.take(n)
                    &&& n < x.len() ==> x[n] < y[n]
                };
            assert forall|i: int| 0 <= i < n + 1 implies a[i] == b[i] by {
                if i > 0 {
                    assert(x.take(n)[i - 1] == y.take(n)[i - 1]);
                }
            }
            assert(a.take(n + 1) =~= b.take(n + 1));
        }
        if comes_before(a, b) {
            let n = choose|n: int|
                {
                    &&& 0 <= n <= a.len() && n < b.len()
                    &&& a.take(n) == #[trigger] b.take(n)
                    &&& n < a.len() ==> a[n] < b[n]
                };
            assert(n > 0);
            assert forall|i: int| 0 <= i < n - 1 implies x[i] == y[i] by {
                assert(a.take(n)[i + 1] == b.take(n)[i + 1]);
            }
            assert(x.take(n - 1) =~= y.take(n - 1));
        }
    } else if b.len() > 0 {
        assert(a.take(0) =~= b.take(0));
        if comes_before(a, b) && a.len() > 0 {
            let n = choose|n: int|
                {
                    &&& 0 <= n <= a.len() && n < b.len()
                    &&& a.take(n) == #[trigger] b.take(n)
                    &&& n < a.len() ==> a[n] < b[n]
                };
            if n > 0 {
                assert(a.take(n)[0] == b.take(n)[0]);
            }
        }
    }
}

/// Texts rank by their first difference.
pub proof fn texts_rank_by_their_first_difference(a: &str, b: &str, r: Rank)
    requires
        call_ensures(rank, (a, b), r),
    ensures
        r == Rank::Before <==> comes_before(a@, b@),
        r == Rank::Same <==> a@ == b@,
        r == Rank::After <==> comes_before(b@, a@),
{
    lemma_precedes(a@, b@);
    lemma_precedes(b@, a@);
    crate::text::one_text_precedes(a@, b@);
}

/// The names that are shown are in order and are those that were found, each
/// once for Deribit and as often as found for Hyperliquid.
pub proof fn instruments_are_listed_in_order(
    names: &Vec<String>,
    d: Vec<String>,
    h: Vec<String>,
    i: int,
    j: int,
    t: Seq<char>,
)
    requires
        call_ensures(fetch_deribit_perps, (names,), d),
        call_ensures(fetch_hyperliquid_perps, (names,), h),
    ensures
        0 <= i < j < d@.len() ==> comes_before(d@[i]@, d@[j]@),
        texts(d@).contains(t) <==> texts(names@).contains(t),
        0 <= i < j < h@.len() ==> !comes_before(h@[j]@, h@[i]@),
        texts(h@).to_multiset().count(t) == texts(names@).to_multiset().count(t),
{
    if 0 <= i < j < d@.len() {
        lemma_precedes(d@[i]@, d@[j]@);
        assert(precedes(texts(d@)[i], texts(d@)[j]));
    }
    if 0 <= i < j < h@.len() {
        lemma_precedes(h@[j]@, h@[i]@);
        assert(!precedes(texts(h@)[j], texts(h@)[i]));
    }
}

/// An instrument is shown exactly when it is a perpetual and has a name.
pub proof fn named_perpetuals_are_collected(
    names: &mut Vec<String>,
    listings: &Vec<Listing>,
    t: Seq<char>,
)
    requires
        call_ensures(collect_perps, (names, listings), ()),
    ensures
        texts(final(names)@).contains(t) <==> texts(old(names)@).contains(t) || exists|i: int|
            0 <= i < listings@.len() && #[trigger] is_perpetual_named(listings@[i], t),
{
    let a = texts(old(names)@);
    let p = crate::exchanges::instruments::perp_names(listings@);
    lemma_perps(listings@, t);
    let all = a + p;
    if all.contains(t) {
        let i = choose|i: int| 0 <= i < all.len() && all[i] == t;
        if i < a.len() {
            assert(a[i] == t);
        } else {
            assert(p[i - a.len()] == t);
        }
    }
    if a.contains(t) {
        let i = choose|i: int| 0 <= i < a.len() && a[i] == t;
        assert(all[i] == t);
    }
    if p.contains(t) {
        let i = choose|i: int| 0 <= i < p.len() && p[i] == t;
        assert(all[a.len() + i] == t);
    }
}

/// A listing is a perpetual of a name.
pub open spec fn is_perpetual_named(l: Listing, t: Seq<char>) -> bool {
    &&& l.settlement_period matches Some(s) && s@ == "perpetual"@
    &&& l.instrument_name matches Some(n) && n@ == t
}

/// Which names perpetuals have.
proof fn lemma_perps(listings: Seq<Listing>, t: Seq<char>)
    ensures
        crate::exchanges::instruments::perp_names(listings).contains(t) <==> exists|i: int|
            0 <= i < listings.len() && #[trigger] is_perpetual_named(listings[i], t),
    decreases listings.len(),
{
    let names = crate::exchanges::instruments::perp_names(listings);
    if listings.len() > 0 {
        let front = listings.drop_last();
        let before = crate::exchanges::instruments::perp_names(front);
        lemma_perps(front, t);
        assert(forall|i: int| 0 <= i < front.len() ==> front[i] == listings[i]);
        if names.contains(t) {
            let i = choose|i: int| 0 <= i < names.len() && names[i] == t;
            if i < before.len() {
                assert(before[i] == t);
                assert(before.contains(t));
                let x = choose|x: int|
                    0 <= x < front.len() && #[trigger] is_perpetual_named(front[x], t);
                assert(is_perpetual_named(listings[x], t));
            } else {
                assert(is_perpetual_named(listings[listings.len() - 1], t));
            }
        }
        if exists|i: int|
            0 <= i < listings.len() && #[trigger] is_perpetual_named(listings[i], t) {
            let x = choose|x: int|
                0 <= x < listings.len() && #[trigger] is_perpetual_named(listings[x], t);
            if x < front.len() {
                assert(is_perpetual_named(front[x], t));
                let i = choose|i: int| 0 <= i < before.len() && before[i] == t;
                assert(names[i] == t);
            } else {
                assert(names[names.len() - 1] == t);
            }
        }
    }
}

/// A list keeps its latest elements, in order, up to its limit.
pub proof fn lists_keep_their_latest<A>(v: &mut Vec<A>, cap: usize, i: int)
    requires
        call_ensures(keep_last::<A>, (v, cap), ()),
    ensures
        final(v)@.len() == if old(v)@.len() > cap {
            cap as nat
        } else {
            old(v)@.len()
        },
        0 <= i < final(v)@.len() ==> final(v)@[i] == old(v)@[old(v)@.len() - final(v)@.len() + i],
{
}

/// A list holds a name that stands in it.
pub proof fn lists_hold_what_stands_in_them(names: &Vec<String>, name: &str, r: bool)
    requires
        call_ensures(holds, (names, name), r),
    ensures
        r <==> exists|i: int| 0 <= i < names@.len() && (#[trigger] names@[i])@ == name@,
{
    let t = texts(names@);
    if t.contains(name@) {
        let i = choose|i: int| 0 <= i < t.len() && t[i] == name@;
        assert(names@[i]@ == name@);
    }
    if exists|i: int| 0 <= i < names@.len() && (#[trigger] names@[i])@ == name@ {
        let i = choose|i: int| 0 <= i < names@.len() && (#[trigger] names@[i])@ == name@;
        assert(t[i] == name@);
    }
}

/// The mid of a book is half way between its best levels, or what stands in for
/// it where a side is empty.
pub proof fn mids_are_half_way(
    bids: Vec<OrderBookLevel>,
    asks: Vec<OrderBookLevel>,
    otherwise: i64,
    r: OrderBook,
    a: i64,
    b: i64,
    half: i64,
)
    requires
        call_ensures(OrderBook::quoted, (bids, asks, otherwise), r),
        call_ensures(halfway, (a, b), half),
    ensures
        r.bids@ == bids@ && r.asks@ == asks@,
        bids@.len() > 0 && asks@.len() > 0 ==> rounds_to(
            r.mid,
            bids@[0].price + asks@[0].price,
            2,
        ),
        bids@.len() == 0 || asks@.len() == 0 ==> r.mid == otherwise,
        rounds_to(half, a + b, 2),
{
    lemma_rounds_to(a + b, 2);
    if bids@.len() > 0 && asks@.len() > 0 {
        lemma_rounds_to(bids@[0].price + asks@[0].price, 2);
    }
}

/// The readable levels of a side are kept, in order, and the others dropped.
pub proof fn readable_levels_are_kept(
    levels: &Vec<Option<OrderBookLevel>>,
    r: Vec<OrderBookLevel>,
)
    requires
        call_ensures(readable_levels, (levels,), r),
    ensures
        r@ == levels@.filter(|l: Option<OrderBookLevel>| l is Some).map_values(
            |l: Option<OrderBookLevel>| l->0,
        ),
{
    lemma_readable(levels@);
}

/// Which levels are readable.
pub proof fn lemma_readable(levels: Seq<Option<OrderBookLevel>>)
    ensures
        readable(levels) == levels.filter(|l: Option<OrderBookLevel>| l is Some).map_values(
            |l: Option<OrderBookLevel>| l->0,
        ),
    decreases levels.len(),
{
    reveal(Seq::filter);
    let kept = levels.filter(|l: Option<OrderBookLevel>| l is Some).map_values(
        |l: Option<OrderBookLevel>| l->0,
    );
    if levels.len() > 0 {
        lemma_readable(levels.drop_last());
    }
    assert(readable(levels) =~= kept);
}

/// A source is known by its name.
pub proof fn sources_go_by_their_names(name: &String, r: InstrumentSource)
    requires
        call_ensures(source_of, (name,), r),
    ensures
        r == InstrumentSource::Deribit <==> name@ == "deribit"@,
        r == InstrumentSource::Hyperliquid <==> name@ == "hyperliquid"@,
        r == InstrumentSource::Mock <==> name@ == "mock"@,
{
    reveal_strlit("deribit");
    reveal_strlit("hyperliquid");
    reveal_strlit("mock");
    assert("deribit"@.len() == 7 && "hyperliquid"@.len() == 11 && "mock"@.len() == 4);
}

/// A list of the values of a map has one per key.
pub proof fn lemma_lists_values<K, V>(list: Seq<V>, m: Map<K, V>, k: K, i: int)
    requires
        lists_values(list, m),
    ensures
        list.len() == m.dom().len(),
        m.dom().contains(k) ==> list.contains(m[k]),
        0 <= i < list.len() ==> exists|j: K| #[trigger] m.dom().contains(j) && m[j] == list[i],
{
    let listing = choose|listing: Seq<(K, V)>| #[trigger]
        walks(listing, m) && list == values_of(listing);
    if m.dom().contains(k) {
        lemma_walk_reaches(listing, m, k);
        let x = choose|x: int| 0 <= x < listing.len() && (#[trigger] listing[x]).0 == k;
        assert(list[x] == m[k]);
    }
    if 0 <= i < list.len() {
        assert(m.dom().contains(listing[i].0) && m[listing[i].0] == list[i]);
    }
}

/// A snapshot that is shown after its agent stopped is marked as frozen and as
/// not running, and shows every other field as it was saved. One that is no
/// object stays as it was.
pub proof fn frozen_snapshots_keep_the_rest(
    v: serde_json::Value,
    r: serde_json::Value,
    name: Seq<char>,
)
    requires
        call_ensures(frozen, (v,), r),
    ensures
        fields_in(v) is None ==> r == v,
        fields_in(v) matches Some(m) ==> {
            &&& fields_in(r) matches Some(n) && n.dom().contains("running"@) && n["running"@]
                == "false"@ && n.dom().contains("frozen"@) && n["frozen"@] == "true"@ && (name
                != "running"@ && name != "frozen"@ ==> (n.dom().contains(name) <==> m.dom().contains(
                name,
            )) && n[name] == m[name])
        },
{
    if let Some(m) = fields_in(v) {
        crate::api::snapshots::frozen_is_not_running(m, name);
    }
}

/// Lists are put in order without losing a name: each once in a set, as often
/// as it stood there in a list.
pub proof fn names_are_put_in_order(
    names: &Vec<String>,
    set: Vec<String>,
    list: Vec<String>,
    i: int,
    j: int,
    t: Seq<char>,
)
    requires
        call_ensures(sorted_set, (names,), set),
        call_ensures(sorted_list, (names,), list),
    ensures
        0 <= i < j < set@.len() ==> comes_before(set@[i]@, set@[j]@),
        texts(set@).contains(t) <==> texts(names@).contains(t),
        0 <= i < j < list@.len() ==> !comes_before(list@[j]@, list@[i]@),
        texts(list@).to_multiset().count(t) == texts(names@).to_multiset().count(t),
{
    if 0 <= i < j < set@.len() {
        lemma_precedes(set@[i]@, set@[j]@);
        assert(precedes(texts(set@)[i], texts(set@)[j]));
    }
    if 0 <= i < j < list@.len() {
        lemma_precedes(list@[j]@, list@[i]@);
        assert(!precedes(texts(list@)[j], texts(list@)[i]));
    }
}

/// A text and its characters are the same.
pub proof fn texts_are_their_characters(s: &str, r: Vec<char>, v: &Vec<char>, t: String)
    requires
        call_ensures(chars_of, (s,), r),
        call_ensures(text_of, (v,), t),
    ensures
        r@ == s@,
        t@ == v@,
{
}

/// The book of a fetch that failed is empty and has no mid.
pub proof fn failed_fetches_show_nothing(timestamp: i64, r: OrderBook)
    requires
        call_ensures(OrderBook::unavailable_at, (timestamp,), r),
    ensures
        r.bids@.len() == 0 && r.asks@.len() == 0 && r.mid == 0 && r.timestamp == timestamp,
{
}

/// Requests go to the main network unless the test network is asked for.
pub proof fn addresses_are_of_the_network_asked_for(
    mainnet: bool,
    base: String,
    testnet: bool,
    currency: &str,
    listing: String,
)
    requires
        call_ensures(base_url, (mainnet,), base),
        call_ensures(deribit_listing_url, (testnet, currency), listing),
    ensures
        mainnet ==> base@ == "https://www.deribit.com/api/v2"@,
        !mainnet ==> base@ == "https://test.deribit.com/api/v2"@,
        mainnet != testnet ==> listing@ == base@ + "/public/get_instruments?currency="@ + currency@
            + "&kind=future&expired=false"@,
{
}

/// A request is answered for the source that it names in any case.
pub proof fn requests_name_their_source(
    exchange: &str,
    r: (InstrumentSource, String),
    s: InstrumentSource,
)
    requires
        call_ensures(requested_source, (exchange,), r),
        call_ensures(source_of, (&r.1,), s),
    ensures
        r.1@ == crate::text::lowercase(exchange@),
        r.0 == s,
{
}

} // verus!
