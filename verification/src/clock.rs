//! The wall clock.

use vstd::prelude::*;

verus! {

/// A moment of the system's clock.
#[verifier::external_type_specification]
#[verifier::external_body]
pub struct ExSystemTime(std::time::SystemTime);

/// The error of a moment that is earlier than it should be.
#[verifier::external_type_specification]
#[verifier::external_body]
pub struct ExSystemTimeError(std::time::SystemTimeError);

/// Trusts `SystemTime::now`: it reads the system's clock. Nothing is claimed of what the clock
/// shows.
#[verifier::external_body]
fn clock() -> (r: std::time::SystemTime) {
    std::time::SystemTime::now()
}

/// What `SystemTime::duration_since` gives for a moment and the Unix epoch: the time between the
/// two, or nothing where the moment is the earlier one.
pub uninterp spec fn time_since_epoch(time: std::time::SystemTime) -> Option<std::time::Duration>;

/// Trusts `SystemTime::duration_since` with the Unix epoch: whether it gives a duration, and which
/// one, depends on the moment alone.
#[verifier::external_body]
fn since_epoch(time: &std::time::SystemTime) -> (r: Result<
    std::time::Duration,
    std::time::SystemTimeError,
>)
    ensures
        match r {
            Ok(duration) => time_since_epoch(*time) == Some(duration),
            Err(_) => time_since_epoch(*time) is None,
        },
{
    time.duration_since(std::time::UNIX_EPOCH)
}

/// What `Duration::as_secs` gives for a duration: its whole seconds.
pub uninterp spec fn whole_seconds(duration: std::time::Duration) -> u64;

/// Trusts `Duration::as_secs`: the whole seconds of a duration depend on the duration alone.
pub assume_specification[ std::time::Duration::as_secs ](duration: &std::time::Duration) -> (r: u64)
    ensures
        r == whole_seconds(*duration),
;

/// The whole seconds from the Unix epoch to a moment; 0 for a moment before the epoch.
pub open spec fn epoch_seconds(time: std::time::SystemTime) -> u64 {
    match time_since_epoch(time) {
        Some(duration) => whole_seconds(duration),
        None => 0,
    }
}

/// The seconds since the epoch for what the clock gave; 0 where it stands before the epoch.
pub fn seconds_or_zero(seconds: Option<u64>) -> (r: u64)
    ensures
        r == match seconds {
            Some(seconds) => seconds,
            None => 0,
        },
{
    match seconds {
        Some(seconds) => seconds,
        None => 0,
    }
}

/// The seconds from the Unix epoch to a moment.
pub fn seconds_at(time: &std::time::SystemTime) -> (r: u64)
    ensures
        r == epoch_seconds(*time),
{
    match since_epoch(time) {
        Ok(duration) => seconds_or_zero(Some(duration.as_secs())),
        Err(_) => seconds_or_zero(None),
    }
}

/// The seconds since the Unix epoch. Which moment the clock shows is not known beforehand.
pub fn now() -> (r: u64)
    ensures
        exists|time: std::time::SystemTime| r == #[trigger] epoch_seconds(time),
{
    let time = clock();
    seconds_at(&time)
}

} // verus!
