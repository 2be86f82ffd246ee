//! Randomness from the operating system, drawn through random (version 4)
//! UUIDs.

use vstd::prelude::*;

verus! {

/// Whether `c` is a lowercase hexadecimal digit.
pub open spec fn is_lower_hex_char(c: char) -> bool {
    ('0' <= c && c <= '9') || ('a' <= c && c <= 'f')
}

/// Relies on uuid's `Uuid::new_v4` and `Uuid::as_bytes`: the first four bytes
/// of a fresh random identifier, read little-endian. Nothing is promised of
/// the value.
#[verifier::external_body]
pub(crate) fn random_u32() -> u32 {
    let id = uuid::Uuid::new_v4();
    let b = id.as_bytes();
    u32::from_le_bytes([b[0], b[1], b[2], b[3]])
}

/// Relies on uuid's `Uuid::new_v4` and its `simple` format: a fresh random
/// identifier written as 32 lowercase hexadecimal digits.
#[verifier::external_body]
pub(crate) fn random_hex32() -> (r: String)
    ensures
        r@.len() == 32,
        forall|i: int| 0 <= i < r@.len() ==> is_lower_hex_char(#[trigger] r@[i]),
{
    uuid::Uuid::new_v4().as_simple().to_string()
}

} // verus!
