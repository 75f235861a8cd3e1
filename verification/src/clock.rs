//! The clocks that the proxy reads.

use std::time::{Duration, Instant, SystemTime, SystemTimeError};

use vstd::prelude::*;

verus! {

/// A point on the system clock of `std`.
#[verifier::external_type_specification]
#[verifier::external_body]
pub struct ExSystemTime(SystemTime);

/// What `SystemTime::duration_since` returns where the clock stands before the given point.
#[verifier::external_type_specification]
#[verifier::external_body]
pub struct ExSystemTimeError(SystemTimeError);

/// A point on the monotonic clock of `std`.
#[verifier::external_type_specification]
#[verifier::external_body]
pub struct ExInstant(Instant);

/// How long after the Unix epoch `SystemTime::duration_since` puts a point on the system clock, or
/// `None` where it fails.
pub uninterp spec fn since_epoch_of(time: SystemTime) -> Option<Duration>;

/// How long a duration is, in nanoseconds, which is as fine as a `Duration` is.
pub uninterp spec fn nanos_of(duration: Duration) -> nat;

/// Where an instant lies on the monotonic clock, in nanoseconds from a point that is the same for
/// all instants.
pub uninterp spec fn ticks(instant: Instant) -> int;

/// `SystemTime::now`. Nothing is claimed of what the clock shows.
#[verifier::external_body]
fn system_now() -> SystemTime {
    SystemTime::now()
}

/// `SystemTime::duration_since`, from the Unix epoch: a function of the point in time.
#[verifier::external_body]
fn since_epoch(time: SystemTime) -> (r: Result<Duration, SystemTimeError>)
    ensures
        match r {
            Ok(duration) => since_epoch_of(time) == Some(duration),
            Err(_) => since_epoch_of(time) is None,
        },
{
    time.duration_since(std::time::UNIX_EPOCH)
}

/// `Duration::as_millis`: the whole milliseconds of the duration.
#[verifier::external_body]
fn whole_millis(duration: Duration) -> (r: u128)
    ensures
        r == nanos_of(duration) / 1_000_000,
{
    duration.as_millis()
}

/// `Duration::as_secs`: the whole seconds of the duration.
#[verifier::external_body]
fn whole_seconds(duration: Duration) -> (r: u64)
    ensures
        r == nanos_of(duration) / 1_000_000_000,
{
    duration.as_secs()
}

/// `Instant::now`. Nothing is claimed of what the clock shows.
#[verifier::external_body]
pub(crate) fn instant_now() -> Instant {
    Instant::now()
}

/// `Instant::saturating_duration_since`: the time from `earlier` to `later`, and none where `earlier`
/// is the later one.
#[verifier::external_body]
fn span(earlier: &Instant, later: &Instant) -> (r: Duration)
    ensures
        nanos_of(r) == if ticks(*earlier) <= ticks(*later) {
            ticks(*later) - ticks(*earlier)
        } else {
            0
        },
{
    later.saturating_duration_since(*earlier)
}

/// The nanoseconds from `earlier` to `later`, and 0 where `earlier` is the later one.
pub open spec fn span_nanos(earlier: Instant, later: Instant) -> nat {
    if ticks(earlier) <= ticks(later) {
        (ticks(later) - ticks(earlier)) as nat
    } else {
        0
    }
}

/// The low 64 bits of a reading in milliseconds since the Unix epoch; 0 for a clock that stands
/// before the epoch.
pub open spec fn low_millis(reading: Option<nat>) -> nat {
    match reading {
        Some(ms) => ms % 0x1_0000_0000_0000_0000,
        None => 0,
    }
}

/// The milliseconds since the Unix epoch at a point on the system clock.
pub open spec fn millis_at(time: SystemTime) -> u64 {
    low_millis(
        match since_epoch_of(time) {
            Some(duration) => Some(nanos_of(duration) / 1_000_000),
            None => None,
        },
    ) as u64
}

/// The low 64 bits of a reading in milliseconds since the Unix epoch; 0 for a clock that stands
/// before the epoch.
pub fn epoch_millis(reading: Option<u128>) -> (r: u64)
    ensures
        r == low_millis(
            match reading {
                Some(ms) => Some(ms as nat),
                None => None,
            },
        ),
        reading matches Some(ms) ==> r == ms as int % 0x1_0000_0000_0000_0000,
        reading is None ==> r == 0,
{
    match reading {
        Some(ms) => (ms % 0x1_0000_0000_0000_0000) as u64,
        None => 0,
    }
}

/// What the system clock shows, in milliseconds since the Unix epoch: the reading of some point in
/// time. Which point that is depends on the clock, and nothing is claimed of it.
pub fn now_millis() -> (r: u64)
    ensures
        exists|time: SystemTime| r == #[trigger] millis_at(time),
{
    let now = system_now();
    let reading: Option<u128> = match since_epoch(now) {
        Ok(duration) => Some(whole_millis(duration)),
        Err(_) => None,
    };
    let r: u64 = epoch_millis(reading);
    assert(r == millis_at(now));
    r
}

/// The point at which it is called. It depends on the clock alone, and nothing is claimed of it.
pub fn start() -> Instant {
    instant_now()
}

/// The whole seconds from `start` to `now`.
pub open spec fn uptime(start: Instant, now: Instant) -> nat {
    span_nanos(start, now) / 1_000_000_000
}

/// The whole seconds from `start` to `now`.
pub fn uptime_seconds(start: &Instant, now: &Instant) -> (r: u64)
    ensures
        r == uptime(*start, *now),
{
    whole_seconds(span(start, now))
}

/// The uptime does not go down as the clock goes on.
pub proof fn law_uptime_does_not_go_down(start: Instant, earlier: Instant, later: Instant)
    requires
        ticks(earlier) <= ticks(later),
    ensures
        uptime(start, earlier) <= uptime(start, later),
{
    vstd::arithmetic::div_mod::lemma_div_is_ordered(
        span_nanos(start, earlier) as int,
        span_nanos(start, later) as int,
        1_000_000_000,
    );
}

/// The uptime is the number of whole seconds that fit between the two instants.
pub proof fn law_uptime_counts_whole_seconds(start: Instant, now: Instant)
    ensures
        ticks(start) <= ticks(now) ==> uptime(start, now) * 1_000_000_000 <= ticks(now) - ticks(
            start,
        ) < (uptime(start, now) + 1) * 1_000_000_000,
        ticks(now) <= ticks(start) ==> uptime(start, now) == 0,
{
}

/// The milliseconds at a point in time are the whole ones since the epoch, in 64 bits, and 0 before
/// the epoch.
pub proof fn law_millis_are_counted_from_the_epoch(time: SystemTime)
    ensures
        match since_epoch_of(time) {
            Some(duration) => millis_at(time) == (nanos_of(duration) / 1_000_000)
                % 0x1_0000_0000_0000_0000,
            None => millis_at(time) == 0,
        },
{
}

} // verus!
