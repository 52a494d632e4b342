//! Text that the engine produces and reads: whole numbers, fixed-point
//! amounts, and the few string operations that the rules need.
use vstd::prelude::*;

use crate::amount::nearest;

verus! {

/// `String::push`: the character is added at the end.
pub assume_specification[ String::push ](s: &mut String, c: char)
    ensures
        final(s)@ == old(s)@.push(c),
;

/// The digit character of a number below ten.
pub open spec fn digit(d: int) -> char {
    (48 + d) as char
}

/// The decimal digits of a number, without leading zeros.
pub open spec fn digits(n: nat) -> Seq<char>
    decreases n,
{
    if n < 10 {
        seq![digit(n as int)]
    } else {
        digits(n / 10).push(digit((n % 10) as int))
    }
}

/// The last `width` decimal digits of a number, with leading zeros.
pub open spec fn padded(n: nat, width: nat) -> Seq<char>
    decreases width,
{
    if width == 0 {
        Seq::empty()
    } else {
        padded(n / 10, (width - 1) as nat).push(digit((n % 10) as int))
    }
}

/// Ten to a power.
pub open spec fn ten_to(n: nat) -> nat
    decreases n,
{
    if n == 0 {
        1
    } else {
        10 * ten_to((n - 1) as nat)
    }
}

/// An amount with a fixed number of decimals, rounded to the nearest, with a
/// sign when it is negative.
pub open spec fn amount_text(x: i64, places: nat) -> Seq<char> {
    let m = nearest(crate::amount::abs(x as int), ten_to((8 - places) as nat) as int) as nat;
    let sign = if x < 0 {
        seq!['-']
    } else {
        Seq::empty()
    };
    let whole = sign + digits(m / ten_to(places));
    if places == 0 {
        whole
    } else {
        whole + seq!['.'] + padded(m % ten_to(places), places)
    }
}

/// The digit character of a number below ten.
fn digit_of(d: u64) -> (c: char)
    requires
        d < 10,
    ensures
        c == digit(d as int),
{
    (48u8 + d as u8) as char
}

/// Appends the decimal digits of a number.
pub fn push_number(s: &mut String, n: u64)
    ensures
        final(s)@ == old(s)@ + digits(n as nat),
    decreases n,
{
    if n >= 10 {
        push_number(s, n / 10);
    }
    let c: char = digit_of(n % 10);
    s.push(c);
    assert(s@ =~= old(s)@ + digits(n as nat));
}

/// Appends the last `width` digits of a number, with leading zeros.
fn push_padded(s: &mut String, n: u64, width: u32)
    ensures
        final(s)@ == old(s)@ + padded(n as nat, width as nat),
    decreases width,
{
    if width > 0 {
        push_padded(s, n / 10, width - 1);
        let c: char = digit_of(n % 10);
        s.push(c);
    }
    assert(s@ =~= old(s)@ + padded(n as nat, width as nat));
}

/// Ten to a power that a `u64` holds.
fn ten_power(n: u32) -> (r: u64)
    requires
        n <= 8,
    ensures
        r == ten_to(n as nat),
        1 <= r <= 100_000_000,
{
    proof {
        reveal_with_fuel(ten_to, 9);
    }
    match n {
        0 => 1,
        1 => 10,
        2 => 100,
        3 => 1_000,
        4 => 10_000,
        5 => 100_000,
        6 => 1_000_000,
        7 => 10_000_000,
        _ => 100_000_000,
    }
}

/// Appends an amount with a fixed number of decimals.
pub fn push_amount(s: &mut String, x: i64, places: u32)
    requires
        places <= 8,
    ensures
        final(s)@ == old(s)@ + amount_text(x, places as nat),
{
    let m: u64 = crate::amount::gap(x, 0);
    let cut: u64 = ten_power(8 - places);
    let q: u64 = m / cut;
    let rem: u64 = m % cut;
    let n: u64 = if rem >= cut - rem {
        q + 1
    } else {
        q
    };
    let one: u64 = ten_power(places);
    if x < 0 {
        s.push('-');
    }
    push_number(s, n / one);
    if places > 0 {
        s.push('.');
        push_padded(s, n % one, places);
    }
    assert(s@ =~= old(s)@ + amount_text(x, places as nat));
}

/// The characters of a text.
pub fn chars_of(s: &str) -> (r: Vec<char>)
    ensures
        r@ == s@,
{
    let n: usize = s.unicode_len();
    let mut out: Vec<char> = Vec::new();
    let mut i: usize = 0;
    while i < n
        invariant
            i <= n == s@.len(),
            out@ == s@.take(i as int),
        decreases n - i,
    {
        out.push(s.get_char(i));
        i += 1;
        assert(out@ =~= s@.take(i as int));
    }
    assert(s@.take(n as int) =~= s@);
    out
}

/// The text made of some characters.
pub fn text_of(chars: &Vec<char>) -> (r: String)
    ensures
        r@ == chars@,
{
    let mut out: String = String::new();
    let mut i: usize = 0;
    while i < chars.len()
        invariant
            i <= chars@.len(),
            out@ == chars@.take(i as int),
        decreases chars@.len() - i,
    {
        out.push(chars[i]);
        i += 1;
        assert(out@ =~= chars@.take(i as int));
    }
    assert(chars@.take(chars@.len() as int) =~= chars@);
    out
}

/// A letter of the ASCII alphabet in upper case; any other character as it is.
pub open spec fn ascii_upper(c: char) -> char {
    if 'a' <= c && c <= 'z' {
        (c as u32 - 32) as char
    } else {
        c
    }
}

/// A letter of the ASCII alphabet in upper case; any other character as it is.
pub fn upper_of(c: char) -> (r: char)
    ensures
        r == ascii_upper(c),
{
    if 'a' <= c && c <= 'z' {
        (c as u8 - 32) as char
    } else {
        c
    }
}

/// The same text, whatever the case of its ASCII letters.
pub open spec fn same_letters(a: Seq<char>, b: Seq<char>) -> bool {
    a.map_values(|c: char| ascii_upper(c)) == b.map_values(|c: char| ascii_upper(c))
}

/// The same text, whatever the case of its ASCII letters.
pub fn eq_ignore_case(a: &str, b: &str) -> (r: bool)
    ensures
        r == same_letters(a@, b@),
{
    let x: Vec<char> = chars_of(a);
    let y: Vec<char> = chars_of(b);
    let ghost up = |c: char| ascii_upper(c);
    let ghost p = a@.map_values(up);
    let ghost q = b@.map_values(up);
    if x.len() != y.len() {
        assert(p.len() != q.len());
        return false;
    }
    let mut i: usize = 0;
    while i < x.len()
        invariant
            i <= x@.len() == y@.len(),
            x@ == a@,
            y@ == b@,
            up == (|c: char| ascii_upper(c)),
            p == a@.map_values(up),
            q == b@.map_values(up),
            forall|j: int| 0 <= j < i ==> ascii_upper(x@[j]) == ascii_upper(y@[j]),
        decreases x@.len() - i,
    {
        if upper_of(x[i]) != upper_of(y[i]) {
            assert(p[i as int] != q[i as int]);
            return false;
        }
        i += 1;
    }
    assert(p =~= q);
    true
}

/// The text begins with a prefix, whatever the case of its ASCII letters.
pub open spec fn begins_with(s: Seq<char>, prefix: Seq<char>) -> bool {
    prefix.len() <= s.len() && s.take(prefix.len() as int).map_values(|c: char| ascii_upper(c))
        == prefix
}

/// The text, in upper case, begins with a prefix.
pub fn upper_begins_with(s: &str, prefix: &str) -> (r: bool)
    ensures
        r == begins_with(s@, prefix@),
{
    let x: Vec<char> = chars_of(s);
    let y: Vec<char> = chars_of(prefix);
    let ghost up = |c: char| ascii_upper(c);
    if y.len() > x.len() {
        return false;
    }
    let ghost head = s@.take(prefix@.len() as int).map_values(up);
    let mut i: usize = 0;
    while i < y.len()
        invariant
            i <= y@.len() <= x@.len(),
            x@ == s@,
            y@ == prefix@,
            up == (|c: char| ascii_upper(c)),
            head == s@.take(prefix@.len() as int).map_values(up),
            forall|j: int| 0 <= j < i ==> ascii_upper(x@[j]) == y@[j],
        decreases y@.len() - i,
    {
        if upper_of(x[i]) != y[i] {
            assert(head[i as int] != prefix@[i as int]);
            return false;
        }
        i += 1;
    }
    assert(head =~= prefix@);
    true
}

/// A character with the Unicode property `White_Space`.
pub open spec fn is_white(c: char) -> bool {
    let n = c as u32;
    ||| 0x9 <= n <= 0xD
    ||| n == 0x20
    ||| n == 0x85
    ||| n == 0xA0
    ||| n == 0x1680
    ||| 0x2000 <= n <= 0x200A
    ||| n == 0x2028
    ||| n == 0x2029
    ||| n == 0x202F
    ||| n == 0x205F
    ||| n == 0x3000
}

/// A character with the Unicode property `White_Space`.
pub fn white(c: char) -> (r: bool)
    ensures
        r == is_white(c),
{
    let n: u32 = c as u32;
    (0x9 <= n && n <= 0xD) || n == 0x20 || n == 0x85 || n == 0xA0 || n == 0x1680 || (0x2000 <= n
        && n <= 0x200A) || n == 0x2028 || n == 0x2029 || n == 0x202F || n == 0x205F || n == 0x3000
}

/// A text without the white space in front.
pub open spec fn trim_front(s: Seq<char>) -> Seq<char>
    decreases s.len(),
{
    if s.len() > 0 && is_white(s[0]) {
        trim_front(s.skip(1))
    } else {
        s
    }
}

/// A text without the white space at the end.
pub open spec fn trim_back(s: Seq<char>) -> Seq<char>
    decreases s.len(),
{
    if s.len() > 0 && is_white(s.last()) {
        trim_back(s.drop_last())
    } else {
        s
    }
}

/// A text without the white space around it.
pub open spec fn trimmed(s: Seq<char>) -> Seq<char> {
    trim_back(trim_front(s))
}

/// A text without the white space around it.
pub fn trim(s: &str) -> (r: String)
    ensures
        r@ == trimmed(s@),
{
    let all: Vec<char> = chars_of(s);
    let n: usize = all.len();
    let mut from: usize = 0;
    assert(s@.skip(0) =~= s@);
    while from < n && white(all[from])
        invariant
            from <= n == all@.len(),
            all@ == s@,
            trim_front(s@.skip(from as int)) == trim_front(s@),
        decreases n - from,
    {
        assert(s@.skip(from as int).skip(1) =~= s@.skip(from + 1));
        from += 1;
    }
    assert(s@.skip(from as int) == trim_front(s@));
    let mut to: usize = n;
    assert(s@.subrange(from as int, n as int) =~= s@.skip(from as int));
    while to > from && white(all[to - 1])
        invariant
            from <= to <= n == all@.len(),
            all@ == s@,
            trim_back(s@.subrange(from as int, to as int)) == trimmed(s@),
        decreases to,
    {
        let ghost part = s@.subrange(from as int, to as int);
        assert(part.last() == s@[to - 1]);
        assert(part.drop_last() =~= s@.subrange(from as int, to - 1));
        to -= 1;
    }
    let ghost part = s@.subrange(from as int, to as int);
    assert(part == trimmed(s@)) by {
        if part.len() > 0 {
            assert(part.last() == s@[to - 1]);
        }
    }
    let mut out: Vec<char> = Vec::new();
    let mut i: usize = from;
    while i < to
        invariant
            from <= i <= to <= all@.len(),
            all@ == s@,
            out@ == s@.subrange(from as int, i as int),
        decreases to - i,
    {
        out.push(all[i]);
        i += 1;
        assert(out@ =~= s@.subrange(from as int, i as int));
    }
    text_of(&out)
}

/// A text comes before another: at the first difference, by code point; a
/// text before its continuations.
pub open spec fn precedes(a: Seq<char>, b: Seq<char>) -> bool
    decreases a.len(),
{
    if b.len() == 0 {
        false
    } else if a.len() == 0 {
        true
    } else if a[0] != b[0] {
        a[0] < b[0]
    } else {
        precedes(a.skip(1), b.skip(1))
    }
}

/// Of two texts that differ, one comes before the other, and not both.
pub proof fn one_text_precedes(a: Seq<char>, b: Seq<char>)
    ensures
        precedes(a, b) ==> !precedes(b, a) && a != b,
        !precedes(a, b) && !precedes(b, a) ==> a == b,
        !precedes(a, a),
    decreases a.len(),
{
    if a.len() > 0 && b.len() > 0 {
        one_text_precedes(a.skip(1), b.skip(1));
        one_text_precedes(a.skip(1), a.skip(1));
        if !precedes(a, b) && !precedes(b, a) {
            assert(a[0] == b[0]);
            assert(a =~= seq![a[0]] + a.skip(1));
            assert(b =~= seq![b[0]] + b.skip(1));
        }
    } else if a.len() == 0 && b.len() == 0 {
        assert(a =~= b);
    } else if a.len() > 0 {
        one_text_precedes(a.skip(1), a.skip(1));
    }
}

/// The order of texts is transitive.
pub proof fn precedes_transitive(a: Seq<char>, b: Seq<char>, c: Seq<char>)
    requires
        precedes(a, b),
        precedes(b, c),
    ensures
        precedes(a, c),
    decreases a.len(),
{
    if a.len() > 0 && a[0] == b[0] && b[0] == c[0] {
        precedes_transitive(a.skip(1), b.skip(1), c.skip(1));
    }
}

/// How two texts compare.
#[derive(Debug, Clone, Copy, PartialEq, Eq, Structural)]
pub enum Rank {
    Before,
    Same,
    After,
}

/// How two texts compare.
pub open spec fn rank_of(a: Seq<char>, b: Seq<char>) -> Rank {
    if precedes(a, b) {
        Rank::Before
    } else if a == b {
        Rank::Same
    } else {
        Rank::After
    }
}

/// How two texts compare.
pub fn rank(a: &str, b: &str) -> (r: Rank)
    ensures
        r == rank_of(a@, b@),
{
    let x: Vec<char> = chars_of(a);
    let y: Vec<char> = chars_of(b);
    let mut i: usize = 0;
    assert(a@.skip(0) =~= a@ && b@.skip(0) =~= b@);
    proof {
        one_text_precedes(a@, b@);
    }
    while i < x.len() && i < y.len()
        invariant
            i <= x@.len(),
            i <= y@.len(),
            x@ == a@,
            y@ == b@,
            forall|j: int| 0 <= j < i ==> a@[j] == b@[j],
            precedes(a@, b@) == precedes(a@.skip(i as int), b@.skip(i as int)),
            precedes(b@, a@) == precedes(b@.skip(i as int), a@.skip(i as int)),
        decreases x@.len() - i,
    {
        assert(a@.skip(i as int)[0] == a@[i as int]);
        assert(b@.skip(i as int)[0] == b@[i as int]);
        if x[i] != y[i] {
            if x[i] < y[i] {
                return Rank::Before;
            }
            assert(a@ != b@);
            return Rank::After;
        }
        assert(a@.skip(i as int).skip(1) =~= a@.skip(i + 1));
        assert(b@.skip(i as int).skip(1) =~= b@.skip(i + 1));
        i += 1;
    }
    if x.len() < y.len() {
        Rank::Before
    } else if x.len() > y.len() {
        assert(a@ != b@);
        Rank::After
    } else {
        assert(a@ =~= b@);
        Rank::Same
    }
}

/// `str::to_lowercase`: the text in lower case, by the rules of Unicode. The
/// result is only named.
pub uninterp spec fn lowercase(s: Seq<char>) -> Seq<char>;

/// `str::to_lowercase`: the text in lower case. Claimed: the result depends on
/// the text alone, and is what [`lowercase`] names.
#[verifier::external_body]
pub(crate) fn lowered(s: &str) -> (r: String)
    ensures
        r@ == lowercase(s@),
{
    s.to_lowercase()
}

} // verus!
