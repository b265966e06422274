//! The wall clock and the monotonic clock.

use std::time::{Duration, Instant, SystemTime, SystemTimeError, UNIX_EPOCH};
use vstd::prelude::*;

verus! {

/// A point of the wall clock.
#[verifier::external_type_specification]
#[verifier::external_body]
pub struct ExSystemTime(SystemTime);

/// The error of a wall clock that stands before the point it is measured from.
#[verifier::external_type_specification]
#[verifier::external_body]
pub struct ExSystemTimeError(SystemTimeError);

/// A point of the monotonic clock.
#[verifier::external_type_specification]
#[verifier::external_body]
pub struct ExInstant(Instant);

/// Calls `SystemTime::now`. Nothing is promised of the time.
#[verifier::external_body]
fn wall_clock() -> (r: SystemTime) {
    SystemTime::now()
}

/// The span from the Unix epoch to a point of the wall clock; an error where the point lies before
/// the epoch.
pub uninterp spec fn epoch_span(t: SystemTime) -> Result<Duration, SystemTimeError>;

/// Calls `SystemTime::duration_since` with the Unix epoch. The span is that from the epoch to `t`.
#[verifier::external_body]
fn since_epoch(t: SystemTime) -> (r: Result<Duration, SystemTimeError>)
    ensures
        r == epoch_span(t),
{
    t.duration_since(UNIX_EPOCH)
}

/// The nanoseconds of a span.
pub uninterp spec fn span_nanos(d: Duration) -> u128;

/// Calls `Duration::as_secs`. The number counts the whole seconds among the nanoseconds of the span.
#[verifier::external_body]
fn whole_seconds(d: &Duration) -> (r: u64)
    ensures
        r as int == span_nanos(*d) as int / 1_000_000_000,
{
    d.as_secs()
}

/// Calls `Instant::now`. Nothing is promised of the time.
#[verifier::external_body]
fn monotonic_now() -> (r: Instant) {
    Instant::now()
}

/// The span between two points of the monotonic clock; none where `later` lies before `earlier`.
pub uninterp spec fn instant_span(later: Instant, earlier: Instant) -> Duration;

/// Calls `Instant::saturating_duration_since`. The span is that between the two points.
#[verifier::external_body]
fn span_between(later: &Instant, earlier: &Instant) -> (r: Duration)
    ensures
        r == instant_span(*later, *earlier),
{
    later.saturating_duration_since(*earlier)
}

/// Calls `Duration::as_nanos`. The number counts the nanoseconds of the span.
#[verifier::external_body]
fn whole_nanos(d: &Duration) -> (r: u128)
    ensures
        r == span_nanos(*d),
{
    d.as_nanos()
}

/// The whole seconds from the Unix epoch to a point of the wall clock; 0 for a point before the epoch.
pub open spec fn unix_seconds(t: SystemTime) -> int {
    match epoch_span(t) {
        Ok(d) => span_nanos(d) as int / 1_000_000_000,
        Err(_) => 0,
    }
}

/// The whole seconds from the Unix epoch to `t`; 0 where `t` lies before it.
pub fn secs_at(t: SystemTime) -> (r: u64)
    ensures
        r == unix_seconds(t),
{
    match since_epoch(t) {
        Ok(d) => whole_seconds(&d),
        Err(_) => 0,
    }
}

/// The seconds since the Unix epoch; 0 where the clock stands before it. Which point of the clock is
/// read is up to the machine.
pub fn now_secs() -> (r: u64)
    ensures
        exists|t: SystemTime| r == #[trigger] unix_seconds(t),
{
    secs_at(wall_clock())
}

/// The nanoseconds from `at` to `now`.
pub open spec fn age(now: Instant, at: Instant) -> u128 {
    span_nanos(instant_span(now, at))
}

/// The nanoseconds from `since` to `now`.
pub fn nanos_between(now: &Instant, since: &Instant) -> (r: u128)
    ensures
        r == age(*now, *since),
{
    whole_nanos(&span_between(now, since))
}

/// The nanoseconds since `since`. Which point of the clock is read is up to the machine.
pub fn nanos_since(since: &Instant) -> (r: u128)
    ensures
        exists|now: Instant| r == #[trigger] age(now, *since),
{
    nanos_between(&monotonic_now(), since)
}

/// The present point of the monotonic clock.
pub fn monotonic() -> (r: Instant) {
    monotonic_now()
}

/// The seconds since the epoch are whole: the nanoseconds of the span lie within the second that is told.
pub proof fn law_seconds_are_whole(t: SystemTime)
    ensures
        epoch_span(t) matches Ok(d) ==> unix_seconds(t) * 1_000_000_000 <= span_nanos(d) < (unix_seconds(t)
            + 1) * 1_000_000_000,
        epoch_span(t) is Err ==> unix_seconds(t) == 0,
{
}

/// An age is the span from the earlier point to the later one, in nanoseconds.
pub proof fn law_ages_are_spans(now: Instant, at: Instant)
    ensures
        age(now, at) == span_nanos(instant_span(now, at)),
{
}

} // verus!
