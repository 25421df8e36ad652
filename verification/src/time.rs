//! Durations and instants of `std::time`.
//!
//! The clock is read through trusted items; nothing is known of what it
//! returns.
use std::time::{Duration, Instant, SystemTime, SystemTimeError};
use vstd::prelude::*;

verus! {

/// `std::time::Instant`, a reading of a monotonic clock.
#[verifier::external_type_specification]
#[verifier::external_body]
pub struct ExInstant(Instant);

/// `std::time::SystemTime`, a reading of the system clock.
#[verifier::external_type_specification]
#[verifier::external_body]
pub struct ExSystemTime(SystemTime);

/// `std::time::SystemTimeError`: a reading earlier than the time asked about.
#[verifier::external_type_specification]
#[verifier::external_body]
pub struct ExSystemTimeError(SystemTimeError);

/// The length of a `Duration` in nanoseconds.
pub uninterp spec fn duration_nanos(d: Duration) -> nat;

/// `Duration::from_secs`: a duration of `secs` seconds.
#[verifier::external_body]
pub(crate) fn duration_from_secs(secs: u64) -> (r: Duration)
    ensures
        duration_nanos(r) == secs * 1_000_000_000,
{
    Duration::from_secs(secs)
}

/// `Duration::from_millis`: a duration of `millis` milliseconds.
#[verifier::external_body]
pub(crate) fn duration_from_millis(millis: u64) -> (r: Duration)
    ensures
        duration_nanos(r) == millis * 1_000_000,
{
    Duration::from_millis(millis)
}

/// `<Duration as PartialOrd>::gt`: whether `a` is longer than `b`.
#[verifier::external_body]
pub(crate) fn duration_longer(a: &Duration, b: &Duration) -> (r: bool)
    ensures
        r == (duration_nanos(*a) > duration_nanos(*b)),
{
    a > b
}

/// `Duration::as_secs`: the whole seconds of `d`, that is its nanoseconds
/// divided by 10^9, rounded down.
#[verifier::external_body]
pub(crate) fn duration_as_secs(d: &Duration) -> (r: u64)
    ensures
        r == duration_nanos(*d) / 1_000_000_000,
{
    d.as_secs()
}

/// `SystemTime::now`: the current reading of the system clock; nothing is
/// known of it.
#[verifier::external_body]
pub(crate) fn system_time_now() -> (r: SystemTime) {
    SystemTime::now()
}

/// `SystemTime::duration_since(UNIX_EPOCH)`: the time from the Unix epoch to
/// `t`, or an error if `t` is earlier. It depends on the clock reading, so
/// nothing is stated of it.
#[verifier::external_body]
pub(crate) fn duration_since_unix_epoch(t: &SystemTime) -> (r: Result<Duration, SystemTimeError>) {
    t.duration_since(std::time::UNIX_EPOCH)
}

/// `Instant::now`: the current reading of the clock.
#[verifier::external_body]
pub(crate) fn instant_now() -> (r: Instant) {
    Instant::now()
}

/// `Instant::elapsed`: the time passed since `i`.
#[verifier::external_body]
pub(crate) fn instant_elapsed(i: &Instant) -> (r: Duration) {
    i.elapsed()
}

} // verus!
