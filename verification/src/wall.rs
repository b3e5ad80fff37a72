//! The system clock.
use vstd::prelude::*;

verus! {

/// A reading of the system clock, carried through without looking inside.
#[verifier::external_type_specification]
#[verifier::external_body]
pub struct ExSystemTime(std::time::SystemTime);

/// What comes back where the later of two readings shows the earlier time.
#[verifier::external_type_specification]
#[verifier::external_body]
pub struct ExSystemTimeError(std::time::SystemTimeError);

/// `SystemTime::now` of std: reads the system clock. Nothing is promised of what it shows.
pub assume_specification[ std::time::SystemTime::now ]() -> std::time::SystemTime;

/// Whether a reading is one that `SystemTime::now` of std may give.
pub open spec fn is_reading(t: std::time::SystemTime) -> bool {
    call_ensures(std::time::SystemTime::now, (), t)
}

/// A reading of the system clock.
pub fn read_clock() -> (r: std::time::SystemTime)
    ensures
        is_reading(r),
{
    std::time::SystemTime::now()
}

/// The nanoseconds of a duration, as `Duration::as_nanos` of std counts them.
pub uninterp spec fn duration_nanos(d: std::time::Duration) -> nat;

/// The nanoseconds from one reading to another, as `SystemTime::duration_since` of std finds them:
/// none where the second reading is the later one.
pub uninterp spec fn time_between(
    later: std::time::SystemTime,
    earlier: std::time::SystemTime,
) -> Option<nat>;

/// Whether a reading is the constant `std::time::UNIX_EPOCH`.
pub uninterp spec fn is_epoch(t: std::time::SystemTime) -> bool;

/// `SystemTime::duration_since` of std: the time from one reading to another, or an error where
/// that would be negative. It depends on the two readings alone.
pub assume_specification[ std::time::SystemTime::duration_since ](
    later: &std::time::SystemTime,
    earlier: std::time::SystemTime,
) -> (r: Result<std::time::Duration, std::time::SystemTimeError>)
    ensures
        time_between(*later, earlier) == (match r {
            Ok(d) => Some(duration_nanos(d)),
            Err(_) => None,
        }),
;

/// `Duration::as_secs` of std: the whole seconds of a duration.
pub assume_specification[ std::time::Duration::as_secs ](d: &std::time::Duration) -> (r: u64)
    ensures
        r == duration_nanos(*d) / 1_000_000_000,
;

/// `Duration::as_nanos` of std: the nanoseconds of a duration.
pub assume_specification[ std::time::Duration::as_nanos ](d: &std::time::Duration) -> (r: u128)
    ensures
        r == duration_nanos(*d),
;

/// The constant `std::time::UNIX_EPOCH`, from which seconds are counted.
#[verifier::external_body]
fn unix_epoch() -> (r: std::time::SystemTime)
    ensures
        is_epoch(r),
{
    std::time::UNIX_EPOCH
}

/// The whole seconds of a time between two readings; none are counted where it is negative.
pub open spec fn whole_seconds(between: Option<nat>) -> nat {
    match between {
        Some(n) => n / 1_000_000_000,
        None => 0,
    }
}

/// The nanoseconds of a time between two readings; none are counted where it is negative.
pub open spec fn whole_nanos(between: Option<nat>) -> nat {
    match between {
        Some(n) => n,
        None => 0,
    }
}

/// The milliseconds of a time between two readings, in 64 bits; none are counted where it is
/// negative.
pub open spec fn whole_millis(between: Option<nat>) -> nat {
    match between {
        Some(n) => n / 1_000_000 % 0x1_0000_0000_0000_0000,
        None => 0,
    }
}

/// Whether the system clock may show `s` whole seconds since the Unix epoch: they are those of a
/// reading of it.
pub open spec fn is_clock_second(s: u64) -> bool {
    exists|now: std::time::SystemTime, epoch: std::time::SystemTime|
        is_reading(now) && is_epoch(epoch) && s == whole_seconds(#[trigger] time_between(now, epoch))
}

/// Whether the system clock may show `ms` milliseconds since the Unix epoch: they are those of a
/// reading of it.
pub open spec fn is_clock_millisecond(ms: u64) -> bool {
    exists|now: std::time::SystemTime, epoch: std::time::SystemTime|
        is_reading(now) && is_epoch(epoch) && ms == whole_millis(#[trigger] time_between(now, epoch))
}

/// The seconds to report for a reading that lies `elapsed` seconds after the epoch: none are
/// known for a reading before it, which counts as the epoch itself.
pub fn seconds_or_epoch(elapsed: Option<u64>) -> (r: u64)
    ensures
        r == (match elapsed {
            Some(s) => s,
            None => 0,
        }),
{
    match elapsed {
        Some(s) => s,
        None => 0,
    }
}

/// The seconds since the Unix epoch that the system clock shows, 0 where it shows a time before
/// it. The reading is one of the system clock; what that shows is not for this function to promise.
pub fn now_unix() -> (r: u64)
    ensures
        is_clock_second(r),
{
    let now = read_clock();
    let epoch = unix_epoch();
    let elapsed = match now.duration_since(epoch) {
        Ok(d) => Some(d.as_secs()),
        Err(_) => None,
    };
    seconds_or_epoch(elapsed)
}

/// The nanoseconds that have gone by since `start`, 0 where the clock was set back behind it.
/// What the clock shows is not for this function to promise.
pub fn nanos_since(start: &std::time::SystemTime) -> (r: u128)
    ensures
        exists|now: std::time::SystemTime|
            is_reading(now) && r == whole_nanos(#[trigger] time_between(now, *start)),
{
    let now = read_clock();
    match now.duration_since(*start) {
        Ok(d) => d.as_nanos(),
        Err(_) => 0,
    }
}

/// The milliseconds to report for a reading that lies `elapsed` nanoseconds after the epoch, in 64
/// bits; a reading before it counts as the epoch itself.
pub fn millis_or_epoch(elapsed: Option<u128>) -> (r: u64)
    ensures
        r == (match elapsed {
            Some(n) => n as int / 1_000_000 % 0x1_0000_0000_0000_0000,
            None => 0,
        }),
{
    match elapsed {
        Some(n) => (n / 1_000_000 % 0x1_0000_0000_0000_0000) as u64,
        None => 0,
    }
}

/// The milliseconds since the Unix epoch that the system clock shows, 0 where it shows a time
/// before it. The reading is one of the system clock; what that shows is not for this function to
/// promise.
pub fn now_millis() -> (r: u64)
    ensures
        is_clock_millisecond(r),
{
    let now = read_clock();
    let epoch = unix_epoch();
    let elapsed = match now.duration_since(epoch) {
        Ok(d) => Some(d.as_nanos()),
        Err(_) => None,
    };
    millis_or_epoch(elapsed)
}

} // verus!
