//! System-dependent values: fresh identifiers and the wall clock.
//!
//! Everything here returns a value that depends on the machine's state,
//! so the contracts state only what holds of every outcome.

use vstd::prelude::*;

use crate::ids::Uid;

verus! {

/// Relies on `uuid::Uuid::now_v7`: a freshly generated version-7 UUID,
/// carried as its 128-bit value.  The generator guarantees the version
/// nibble (bits 76..80) is 7 and the variant bits (62..64) are `10`;
/// nothing else is assumed of the value.
#[verifier::external_body]
pub fn fresh_v7_id() -> (r: Uid)
    ensures
        (r.value >> 76) & 0xf == 7,
        (r.value >> 62) & 0x3 == 2,
{
    Uid { value: uuid::Uuid::now_v7().as_u128() }
}

/// Relies on `time::OffsetDateTime::now_utc`: the current wall-clock
/// time as seconds since the Unix epoch.  Nothing is assumed of the
/// value.
#[verifier::external_body]
pub fn now_unix_seconds() -> i64 {
    time::OffsetDateTime::now_utc().unix_timestamp()
}

} // verus!
