//! The time at which a scan takes place.
use std::time::{Duration, SystemTime};
use vstd::prelude::*;

verus! {

/// A reading of the system clock.
#[verifier::external_type_specification]
#[verifier::external_body]
pub struct ExSystemTime(std::time::SystemTime);

/// `SystemTime::now` reads the system clock; nothing is known of what it shows.
pub assume_specification[ SystemTime::now ]() -> SystemTime
;

/// The time from the Unix epoch to a reading of the clock; `None` for a reading
/// before the epoch.
pub uninterp spec fn time_since_epoch(time: std::time::SystemTime) -> Option<std::time::Duration>;

/// Calls `SystemTime::duration_since` with the Unix epoch: how much later than the
/// epoch a reading of the clock is, or that it is earlier. That is a function of
/// the reading alone.
#[verifier::external_body]
fn since_epoch(time: &SystemTime) -> (r: Option<Duration>)
    ensures
        r == time_since_epoch(*time),
{
    time.duration_since(std::time::UNIX_EPOCH).ok()
}

/// The whole seconds of a duration.
pub uninterp spec fn whole_seconds(duration: std::time::Duration) -> u64;

/// `Duration::as_secs` gives the whole seconds of a duration, a function of the
/// duration alone.
pub assume_specification[ Duration::as_secs ](duration: &Duration) -> (seconds: u64)
    ensures
        seconds == whole_seconds(*duration),
;

/// The seconds since the epoch as a time stamp; a clock before the epoch counts
/// as the epoch.
pub open spec fn stamp_of(seconds: Option<u64>) -> i64 {
    match seconds {
        Some(s) => s as i64,
        None => 0,
    }
}

/// Makes a time stamp of the seconds since the epoch.
pub fn stamp(seconds: Option<u64>) -> (r: i64)
    ensures
        r == stamp_of(seconds),
{
    match seconds {
        Some(s) => s as i64,
        None => 0,
    }
}

/// The whole seconds from the Unix epoch to a reading of the clock.
pub open spec fn epoch_seconds(time: SystemTime) -> Option<u64> {
    match time_since_epoch(time) {
        Some(d) => Some(whole_seconds(d)),
        None => None,
    }
}

/// The present time in seconds since the Unix epoch. Nothing is known of what the
/// clock shows: the time stamp is that of some reading of it.
pub fn now() -> (r: i64)
    ensures
        exists|time: SystemTime| r == stamp_of(#[trigger] epoch_seconds(time)),
{
    let time = SystemTime::now();
    let seconds: Option<u64> = match since_epoch(&time) {
        Some(d) => Some(d.as_secs()),
        None => None,
    };
    assert(seconds == epoch_seconds(time));
    stamp(seconds)
}

} // verus!
