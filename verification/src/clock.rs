//! The monotonic wall clock, reached through `std::time::Instant`.
//!
//! Readings depend on when they are taken, so nothing is promised about their values: the
//! code that reads the clock hands the reading to a function with an exact contract.

use vstd::prelude::*;

verus! {

#[verifier::external_type_specification]
#[verifier::external_body]
pub struct ExInstant(std::time::Instant);

/// The current instant. Calls `Instant::now`; the value depends on the time of the call.
#[verifier::external_body]
pub(crate) fn instant_now() -> std::time::Instant {
    std::time::Instant::now()
}

/// The whole milliseconds of a duration. Calls `Duration::as_millis`; nothing is stated of
/// the value.
#[verifier::external_body]
fn duration_millis(d: &std::time::Duration) -> u128 {
    d.as_millis()
}

/// The whole microseconds of a duration. Calls `Duration::as_micros`; nothing is stated of
/// the value.
#[verifier::external_body]
fn duration_micros(d: &std::time::Duration) -> u128 {
    d.as_micros()
}

/// Whole milliseconds since `epoch`, truncated to 64 bits. The value depends on the time
/// of the call, so nothing is stated.
pub(crate) fn elapsed_ms(epoch: &std::time::Instant) -> u64 {
    let d = elapsed(epoch);
    duration_millis(&d) as u64
}

/// Whole microseconds since `epoch`, truncated to 64 bits. The value depends on the time
/// of the call, so nothing is stated.
pub(crate) fn elapsed_us(epoch: &std::time::Instant) -> u64 {
    let d = elapsed(epoch);
    duration_micros(&d) as u64
}

/// The duration since `epoch`. Calls `Instant::elapsed`; nothing is stated of the value.
#[verifier::external_body]
pub(crate) fn elapsed(epoch: &std::time::Instant) -> std::time::Duration {
    epoch.elapsed()
}

} // verus!
