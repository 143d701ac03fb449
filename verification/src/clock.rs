//! Fresh identifiers and the current time, taken from `uuid` and `chrono`.
use vstd::prelude::*;

verus! {

/// `id` is a random (version 4) UUID: its version field (bits 76 to 79) holds 4 and
/// its variant field (bits 62 and 63) holds the RFC 4122 variant, `10`.
pub open spec fn is_v4_id(id: u128) -> bool {
    (id >> 76u128) & 0xfu128 == 4u128 && (id >> 62u128) & 3u128 == 2u128
}

/// A version 4 UUID is never the nil UUID.
pub proof fn lemma_v4_id_not_nil(id: u128)
    requires
        is_v4_id(id),
    ensures
        id != 0,
{
    assert(is_v4_id(id) ==> id != 0) by (bit_vector);
}

/// Calls `uuid::Uuid::new_v4` and returns the 128-bit value of the new identifier. The
/// identifier is random; what `new_v4` fixes of it is its version (4) and its variant
/// (RFC 4122): it masks random bits with `0xFFFFFFFFFFFF4FFFBFFFFFFFFFFFFFFF` and sets
/// `0x40008000000000000000`.
#[verifier::external_body]
pub(crate) fn new_id() -> (id: u128)
    ensures
        is_v4_id(id),
{
    uuid::Uuid::new_v4().as_u128()
}

/// Calls `chrono::Utc::now` and returns the current time in microseconds since the
/// UNIX epoch. It depends on the system clock, so nothing is stated of it.
#[verifier::external_body]
pub(crate) fn now_micros() -> (t: i64) {
    chrono::Utc::now().timestamp_micros()
}

/// Calls `chrono::Utc::now` and returns the current time in seconds since the UNIX
/// epoch. It depends on the system clock, so nothing is stated of it.
#[verifier::external_body]
pub(crate) fn now_secs() -> (t: i64) {
    chrono::Utc::now().timestamp()
}

} // verus!
