//! Lists of names in order.
use vstd::prelude::*;

use crate::text::{one_text_precedes, precedes, precedes_transitive, rank, Rank};

verus! {

/// The characters of every text of a list.
pub open spec fn texts(v: Seq<String>) -> Seq<Seq<char>> {
    v.map_values(|s: String| s@)
}

/// In order, without repetition.
pub open spec fn ascending(s: Seq<Seq<char>>) -> bool {
    forall|i: int, j: int| 0 <= i < j < s.len() ==> precedes(#[trigger] s[i], #[trigger] s[j])
}

/// In order, repetitions side by side.
pub open spec fn in_order(s: Seq<Seq<char>>) -> bool {
    forall|i: int, j: int| 0 <= i < j < s.len() ==> !precedes(#[trigger] s[j], #[trigger] s[i])
}

/// The texts of a longer list.
proof fn lemma_texts_insert(v: Seq<String>, at: int, s: String)
    requires
        0 <= at <= v.len(),
    ensures
        texts(v.insert(at, s)) == texts(v).insert(at, s@),
{
    assert(texts(v.insert(at, s)) =~= texts(v).insert(at, s@));
}

/// The first place of an ordered list that a text does not come after: every
/// text before it precedes the new one, and none from it on does.
fn place_for(v: &Vec<String>, name: &String) -> (at: usize)
    requires
        in_order(texts(v@)),
    ensures
        at <= v@.len(),
        forall|i: int| 0 <= i < at ==> precedes(#[trigger] texts(v@)[i], name@),
        forall|i: int| at <= i < v@.len() ==> !precedes(#[trigger] texts(v@)[i], name@),
{
    let mut at: usize = 0;
    while at < v.len()
        invariant
            at <= v@.len(),
            in_order(texts(v@)),
            forall|i: int| 0 <= i < at ==> precedes(#[trigger] texts(v@)[i], name@),
        decreases v@.len() - at,
    {
        assert(texts(v@)[at as int] == v@[at as int]@);
        match rank(v[at].as_str(), name.as_str()) {
            Rank::Before => {},
            _ => {
                proof {
                    let t = texts(v@);
                    assert forall|i: int| at <= i < v@.len() implies !precedes(
                        #[trigger] t[i],
                        name@,
                    ) by {
                        if i > at && precedes(t[i], name@) {
                            one_text_precedes(t[at as int], name@);
                            one_text_precedes(t[i], t[at as int]);
                            if t[at as int] == name@ {
                                assert(precedes(t[i], t[at as int]));
                            } else {
                                assert(precedes(name@, t[at as int]));
                                precedes_transitive(t[i], name@, t[at as int]);
                            }
                        }
                    }
                }
                return at;
            },
        }
        at += 1;
    }
    at
}

/// A list in order, without repetition, is in order.
proof fn lemma_ascending_in_order(s: Seq<Seq<char>>)
    requires
        ascending(s),
    ensures
        in_order(s),
{
    assert forall|i: int, j: int| 0 <= i < j < s.len() implies !precedes(
        #[trigger] s[j],
        #[trigger] s[i],
    ) by {
        one_text_precedes(s[i], s[j]);
    }
}

/// The names of a list in order, each once.
pub fn sorted_set(names: &Vec<String>) -> (r: Vec<String>)
    ensures
        ascending(texts(r@)),
        forall|t: Seq<char>| #[trigger] texts(r@).contains(t) <==> texts(names@).contains(t),
{
    let mut out: Vec<String> = Vec::new();
    let mut n: usize = 0;
    while n < names.len()
        invariant
            n <= names@.len(),
            ascending(texts(out@)),
            forall|t: Seq<char>| #[trigger]
                texts(out@).contains(t) <==> texts(names@.take(n as int)).contains(t),
        decreases names@.len() - n,
    {
        let name: &String = &names[n];
        let ghost t0 = texts(out@);
        let ghost had = texts(names@.take(n as int));
        proof {
            lemma_ascending_in_order(t0);
        }
        let at: usize = place_for(&out, name);
        let known: bool = at < out.len() && out[at] == *name;
        if !known {
            proof {
                lemma_texts_insert(out@, at as int, *name);
                let t1 = t0.insert(at as int, name@);
                assert forall|i: int, j: int| 0 <= i < j < t1.len() implies precedes(
                    #[trigger] t1[i],
                    #[trigger] t1[j],
                ) by {
                    if j < at {
                        assert(precedes(t0[i], t0[j]));
                    } else if j == at {
                        assert(precedes(t0[i], name@));
                    } else if i < at {
                        assert(precedes(t0[i], t0[j - 1]));
                    } else if i > at {
                        assert(precedes(t0[i - 1], t0[j - 1]));
                    } else {
                        assert(!precedes(t0[at as int], name@));
                        one_text_precedes(t0[at as int], name@);
                        assert(precedes(name@, t0[at as int]));
                        if j - 1 > at {
                            assert(precedes(t0[at as int], t0[j - 1]));
                            precedes_transitive(name@, t0[at as int], t0[j - 1]);
                        }
                    }
                }
            }
            out.insert(at, name.clone());
        }
        proof {
            let now = texts(names@.take(n + 1));
            assert(now =~= had.push(name@));
            let t2 = texts(out@);
            assert forall|t: Seq<char>| #[trigger] t2.contains(t) <==> now.contains(t) by {
                if t2.contains(t) {
                    let i = choose|i: int| 0 <= i < t2.len() && t2[i] == t;
                    if known {
                        assert(had.contains(t));
                        let x = choose|x: int| 0 <= x < had.len() && had[x] == t;
                        assert(now[x] == t);
                    } else if i == at {
                        assert(now[n as int] == t);
                    } else {
                        if i < at {
                            assert(t0[i] == t);
                        } else {
                            assert(t0[i - 1] == t);
                        }
                        assert(t0.contains(t));
                        assert(had.contains(t));
                        let x = choose|x: int| 0 <= x < had.len() && had[x] == t;
                        assert(now[x] == t);
                    }
                }
                if now.contains(t) {
                    let x = choose|x: int| 0 <= x < now.len() && now[x] == t;
                    if x < n {
                        assert(had[x] == t);
                        assert(t0.contains(t));
                        let i = choose|i: int| 0 <= i < t0.len() && t0[i] == t;
                        if !known {
                            if i < at {
                                assert(t2[i] == t);
                            } else {
                                assert(t2[i + 1] == t);
                            }
                        }
                    } else {
                        assert(t2[at as int] == name@);
                    }
                }
            }
        }
        n += 1;
    }
    assert(names@.take(names@.len() as int) =~= names@);
    out
}

/// The names of a list in order, repetitions kept.
pub fn sorted_list(names: &Vec<String>) -> (r: Vec<String>)
    ensures
        in_order(texts(r@)),
        texts(r@).to_multiset() == texts(names@).to_multiset(),
{
    let mut out: Vec<String> = Vec::new();
    let mut n: usize = 0;
    assert(texts(out@) =~= texts(names@.take(0)));
    while n < names.len()
        invariant
            n <= names@.len(),
            in_order(texts(out@)),
            texts(out@).to_multiset() == texts(names@.take(n as int)).to_multiset(),
        decreases names@.len() - n,
    {
        let name: &String = &names[n];
        let ghost t0 = texts(out@);
        let ghost had = texts(names@.take(n as int));
        let at: usize = place_for(&out, name);
        proof {
            broadcast use vstd::seq_lib::group_to_multiset_ensures;

            lemma_texts_insert(out@, at as int, *name);
            let t1 = t0.insert(at as int, name@);
            assert forall|i: int, j: int| 0 <= i < j < t1.len() implies !precedes(
                #[trigger] t1[j],
                #[trigger] t1[i],
            ) by {
                if j < at {
                    assert(!precedes(t0[j], t0[i]));
                } else if j == at {
                    one_text_precedes(t0[i], name@);
                } else if i < at {
                    assert(!precedes(t0[j - 1], t0[i]));
                } else if i > at {
                    assert(!precedes(t0[j - 1], t0[i - 1]));
                } else {
                    assert(!precedes(t0[j - 1], name@));
                }
            }
            assert(texts(names@.take(n + 1)) =~= had.push(name@));
        }
        out.insert(at, name.clone());
        n += 1;
    }
    assert(names@.take(names@.len() as int) =~= names@);
    out
}

/// A list contains a name.
pub fn holds(names: &Vec<String>, name: &str) -> (r: bool)
    ensures
        r == texts(names@).contains(name@),
{
    let mut n: usize = 0;
    while n < names.len()
        invariant
            n <= names@.len(),
            forall|i: int| 0 <= i < n ==> texts(names@)[i] != name@,
        decreases names@.len() - n,
    {
        assert(texts(names@)[n as int] == names@[n as int]@);
        if let Rank::Same = rank(names[n].as_str(), name) {
            proof {
                one_text_precedes(names@[n as int]@, name@);
            }
            return true;
        }
        proof {
            one_text_precedes(names@[n as int]@, name@);
        }
        n += 1;
    }
    false
}

} // verus!
