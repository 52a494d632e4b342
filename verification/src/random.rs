//! Chance.
use vstd::prelude::*;

verus! {

/// `rand::Rng::gen_range` on the thread's generator, over `lo..hi`. Claimed of
/// every draw: it lies in the range. It panics on an empty one, which is left
/// out.
#[verifier::external_body]
pub(crate) fn draw(lo: i64, hi: i64) -> (r: i64)
    requires
        lo < hi,
    ensures
        lo <= r < hi,
{
    rand::Rng::gen_range(&mut rand::thread_rng(), lo..hi)
}

/// `rand::Rng::gen_ratio` on the thread's generator: true in `n` of `of` cases.
/// Claimed of every draw: none of no cases, and all of all cases. It panics
/// when there are no cases or too many, which is left out.
#[verifier::external_body]
pub(crate) fn chance(n: u32, of: u32) -> (r: bool)
    requires
        of > 0,
        n <= of,
    ensures
        n == 0 ==> !r,
        n == of ==> r,
{
    rand::Rng::gen_ratio(&mut rand::thread_rng(), n, of)
}

} // verus!
