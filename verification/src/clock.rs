//! The wall clock, behind trusted wrappers. Nothing is promised of the
//! values: they depend on the time of the call.

use vstd::prelude::*;

verus! {

/// Relies on `std::time::SystemTime::now`: seconds since the Unix epoch,
/// zero if the clock reads before it. Time-dependent, so nothing is
/// promised of the result.
#[verifier::external_body]
pub fn now_seconds() -> (r: u64) {
    std::time::SystemTime::now()
        .duration_since(std::time::UNIX_EPOCH)
        .unwrap_or_default()
        .as_secs()
}

/// Relies on `std::time::SystemTime::now`: the sub-second nanoseconds of
/// the current time. Time-dependent, so nothing is promised of the result.
#[verifier::external_body]
pub fn now_subsec_nanos() -> (r: u32) {
    std::time::SystemTime::now()
        .duration_since(std::time::UNIX_EPOCH)
        .unwrap_or_default()
        .subsec_nanos()
}

} // verus!
