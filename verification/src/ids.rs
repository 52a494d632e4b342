//! Identifiers of baskets, orders, fills and round trips: the 128 bits of a
//! UUID, as one integer.
use vstd::prelude::*;

verus! {

/// The version and variant bits that mark a random UUID.
pub open spec fn is_random_id(id: u128) -> bool {
    id & 0xF000_C000_0000_0000_0000u128 == 0x4000_8000_0000_0000_0000u128
}

/// Draws an identifier with `uuid::Uuid::new_v4` and hands its 128 bits out
/// with `as_u128`. Claimed of every draw: the version nibble is 4 and the two
/// variant bits are 10. The other bits are random; that two draws differ is
/// not claimed.
#[verifier::external_body]
pub(crate) fn fresh_id() -> (id: u128)
    ensures
        is_random_id(id),
{
    uuid::Uuid::new_v4().as_u128()
}

} // verus!
