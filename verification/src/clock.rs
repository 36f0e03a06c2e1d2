//! Wall-clock measurement of a migration's execution time. Nothing is assumed
//! of the clock's readings; the engine only attaches them to the record.

use vstd::prelude::*;
use std::time::Instant;
use core::time::Duration;

verus! {

#[verifier::external_type_specification]
#[verifier::external_body]
pub struct ExInstant(Instant);

/// Relies on std::time::Instant::now: an opaque reading of the monotonic
/// clock; nothing is assumed of its value.
#[verifier::external_body]
pub fn instant_now() -> Instant {
    Instant::now()
}

/// Relies on std::time::Instant::elapsed: the time since `start`, of which
/// nothing is assumed.
#[verifier::external_body]
pub fn elapsed_since(start: &Instant) -> Duration {
    start.elapsed()
}

/// Relies on core::time::Duration::as_millis: the duration in whole
/// milliseconds, truncated.
#[verifier::external_body]
pub fn duration_as_millis(d: &Duration) -> u128 {
    d.as_millis()
}

} // verus!
