//! Monotonic and wall-clock time sources, one standard-library call each.
use vstd::prelude::*;

verus! {

#[verifier::external_type_specification]
#[verifier::external_body]
pub struct ExInstant(std::time::Instant);

#[verifier::external_type_specification]
#[verifier::external_body]
pub struct ExSystemTime(std::time::SystemTime);

/// Calls `std::time::Instant::now`; nothing is promised of the instant it
/// returns.
#[verifier::external_body]
pub(crate) fn instant_now() -> std::time::Instant {
    std::time::Instant::now()
}

/// Calls `Instant::elapsed`: the time since `start` (zero when the clock
/// reads earlier). It depends on the clock, so nothing is promised of it.
#[verifier::external_body]
fn elapsed(start: &std::time::Instant) -> std::time::Duration {
    start.elapsed()
}

/// Calls `Duration::as_micros`: the duration in whole microseconds.
/// Durations are opaque here, so nothing is promised of the number.
#[verifier::external_body]
fn duration_micros(d: &std::time::Duration) -> u128 {
    d.as_micros()
}

/// Calls `Duration::as_secs`: the whole seconds of the duration.
#[verifier::external_body]
pub(crate) fn duration_secs(d: &std::time::Duration) -> u64 {
    d.as_secs()
}

/// Calls `Duration::subsec_millis`: the fractional part in whole
/// milliseconds, which std documents as less than one thousand.
#[verifier::external_body]
pub(crate) fn duration_subsec_millis(d: &std::time::Duration) -> (r: u32)
    ensures
        r < 1000,
{
    d.subsec_millis()
}

/// Calls `std::time::SystemTime::now`; nothing is promised of the time it
/// returns.
#[verifier::external_body]
pub(crate) fn system_now() -> std::time::SystemTime {
    std::time::SystemTime::now()
}

/// Calls `SystemTime::duration_since(UNIX_EPOCH)`: the time since the Unix
/// epoch, or `None` when `t` lies before it. It depends on the clock, so
/// nothing is promised of it.
#[verifier::external_body]
pub(crate) fn since_unix_epoch(t: &std::time::SystemTime) -> Option<std::time::Duration> {
    match t.duration_since(std::time::UNIX_EPOCH) {
        Ok(d) => Some(d),
        Err(_) => None,
    }
}

/// Whole microseconds elapsed since `start`, truncated to `u64`.
pub(crate) fn micros_since(start: &std::time::Instant) -> u64 {
    let d = elapsed(start);
    let us = duration_micros(&d);
    us as u64
}

} // verus!
