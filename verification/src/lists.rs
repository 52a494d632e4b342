//! Facts about sequences that loops over vectors build up step by step.
use vstd::prelude::*;

verus! {

/// The last `cap` elements, or all of them when there are no more.
pub open spec fn last_of<A>(s: Seq<A>, cap: nat) -> Seq<A> {
    if s.len() > cap {
        s.skip(s.len() - cap)
    } else {
        s
    }
}

/// Drops elements from the front until at most `cap` are left.
pub fn keep_last<A>(v: &mut Vec<A>, cap: usize)
    ensures
        final(v)@ == last_of(old(v)@, cap as nat),
{
    let ghost all = v@;
    assert(all.skip(0) =~= all);
    while v.len() > cap
        invariant
            v@.len() <= all.len(),
            v@ == all.skip(all.len() - v@.len()),
            all.len() <= cap ==> v@ == all,
            all.len() > cap ==> v@.len() >= cap,
        decreases v@.len(),
    {
        let ghost before = v@;
        let _ = v.remove(0);
        assert(v@ =~= before.skip(1));
        assert(v@ =~= all.skip(all.len() - v@.len()));
    }
}

/// Filtering one element more keeps it if it passes.
pub proof fn lemma_filter_step<A>(s: Seq<A>, p: spec_fn(A) -> bool, n: int)
    requires
        0 <= n < s.len(),
    ensures
        s.take(n + 1).filter(p) == if p(s[n]) {
            s.take(n).filter(p).push(s[n])
        } else {
            s.take(n).filter(p)
        },
{
    reveal(Seq::filter);
    assert(s.take(n + 1).drop_last() =~= s.take(n));
    assert(s.take(n + 1).last() == s[n]);
}

/// What a filter keeps was there and passes, and whatever passes is kept.
pub proof fn lemma_filter_is<A>(s: Seq<A>, p: spec_fn(A) -> bool)
    ensures
        forall|x: A| #[trigger] s.filter(p).contains(x) <==> s.contains(x) && p(x),
    decreases s.len(),
{
    reveal(Seq::filter);
    if s.len() > 0 {
        let front = s.drop_last();
        lemma_filter_is(front, p);
        assert forall|x: A| #[trigger] s.filter(p).contains(x) <==> s.contains(x) && p(x) by {
            if s.contains(x) && p(x) {
                let i = choose|i: int| 0 <= i < s.len() && s[i] == x;
                if i < front.len() {
                    assert(front[i] == x);
                    assert(front.filter(p).contains(x));
                    let j = choose|j: int| 0 <= j < front.filter(p).len() && front.filter(p)[j] == x;
                    assert(s.filter(p)[j] == x);
                } else {
                    assert(s.filter(p).last() == x);
                }
            }
            if s.filter(p).contains(x) {
                let j = choose|j: int| 0 <= j < s.filter(p).len() && s.filter(p)[j] == x;
                if j < front.filter(p).len() {
                    assert(front.filter(p)[j] == x);
                    assert(front.filter(p).contains(x));
                    let i = choose|i: int| 0 <= i < front.len() && front[i] == x;
                    assert(s[i] == x);
                } else {
                    assert(s.last() == x);
                }
            }
        }
    }
}

} // verus!
