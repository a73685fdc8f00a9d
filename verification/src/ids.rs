//! Vector ids: random version-4 UUIDs, held as their 128-bit value.

use vstd::prelude::*;

verus! {

/// `id` is laid out as a random (version 4, RFC 4122 variant) UUID: the
/// version nibble is 4 and the two variant bits are `10`.
pub open spec fn is_v4_id(id: u128) -> bool {
    &&& (id >> 76u128) & 0xFu128 == 4
    &&& (id >> 62u128) & 0x3u128 == 2
}

/// Calls `uuid::Uuid::new_v4` and returns the UUID's 128-bit value
/// (`Uuid::as_u128`). The value is random; the contract states only the
/// version and variant bits, which `new_v4` sets on every value it makes.
#[verifier::external_body]
fn uuid_new_v4_bits() -> (id: u128)
    ensures
        is_v4_id(id),
{
    uuid::Uuid::new_v4().as_u128()
}

/// A fresh random id.
pub fn new_id() -> (id: u128)
    ensures
        is_v4_id(id),
{
    uuid_new_v4_bits()
}

} // verus!
