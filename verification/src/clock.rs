//! Reading the clocks of the standard library: the monotonic clock for
//! timings and the system clock for ages. Nothing is stated of the times
//! read.
use vstd::prelude::*;
use std::time::{Duration, Instant, SystemTime, UNIX_EPOCH};

verus! {

#[verifier::external_type_specification]
#[verifier::external_body]
pub struct ExInstant(Instant);

#[verifier::external_type_specification]
#[verifier::external_body]
pub struct ExSystemTime(SystemTime);

/// `Instant::now`: the monotonic clock now.
#[verifier::external_body]
pub(crate) fn instant_now() -> Instant {
    Instant::now()
}

/// `Instant::elapsed`: time gone by since `start`.
#[verifier::external_body]
pub(crate) fn elapsed_since(start: &Instant) -> Duration {
    start.elapsed()
}

/// `Duration::as_micros`: whole microseconds of a duration.
#[verifier::external_body]
pub(crate) fn whole_micros(duration: &Duration) -> u128 {
    duration.as_micros()
}

/// `Duration::as_secs`: whole seconds of a duration.
#[verifier::external_body]
pub(crate) fn whole_seconds(duration: &Duration) -> u64 {
    duration.as_secs()
}

/// `SystemTime::now`: the system clock now.
#[verifier::external_body]
pub(crate) fn system_now() -> SystemTime {
    SystemTime::now()
}

/// `SystemTime::duration_since` the Unix epoch: `None` when the time is
/// before it.
#[verifier::external_body]
pub(crate) fn since_unix_epoch(time: &SystemTime) -> Option<Duration> {
    time.duration_since(UNIX_EPOCH).ok()
}

/// Microseconds since `start` on the monotonic clock.
pub(crate) fn micros_since(start: &Instant) -> u128 {
    let elapsed = elapsed_since(start);
    whole_micros(&elapsed)
}

} // verus!
