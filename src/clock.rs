//! Monotonic time, read through std's `Instant`.

use vstd::prelude::*;

verus! {

#[verifier::external_type_specification]
#[verifier::external_body]
pub struct ExInstant(std::time::Instant);

/// Relies on std's `Instant::now`: a reading of the monotonic clock.
#[verifier::external_body]
pub(crate) fn instant_now() -> std::time::Instant {
    std::time::Instant::now()
}

/// Relies on std's `Instant::elapsed`: whole seconds since `t` was read.
/// Nothing is promised of the value, which depends on the clock.
#[verifier::external_body]
pub(crate) fn elapsed_secs(t: &std::time::Instant) -> u64 {
    t.elapsed().as_secs()
}

} // verus!
