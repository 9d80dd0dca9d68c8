//! The wall clock, in whole seconds since the Unix epoch.

use vstd::prelude::*;

verus! {

/// `std::time::SystemTime`, carried through and never looked into.
#[verifier::external_type_specification]
#[verifier::external_body]
pub struct ExSystemTime(std::time::SystemTime);

/// `std::time::SystemTimeError`, carried through and never looked into.
#[verifier::external_type_specification]
#[verifier::external_body]
pub struct ExSystemTimeError(std::time::SystemTimeError);

/// `std::time::SystemTime::now`: the reading of the system clock. Nothing is
/// claimed of it.
#[verifier::external_body]
fn system_clock() -> (reading: std::time::SystemTime) {
    std::time::SystemTime::now()
}

/// `std::time::SystemTime::duration_since` against `UNIX_EPOCH`: how far the
/// reading lies after the epoch, or an error where it lies before. Nothing is
/// claimed of it.
#[verifier::external_body]
fn since_epoch(reading: &std::time::SystemTime) -> (elapsed: Result<
    core::time::Duration,
    std::time::SystemTimeError,
>) {
    reading.duration_since(std::time::SystemTime::UNIX_EPOCH)
}

/// The whole seconds of a duration: what `core::time::Duration::as_secs`
/// gives for it. A duration is carried through and never looked into, so its
/// seconds are only named. They depend on the duration alone, not on when or
/// where they are asked for: the clock is read before, in `system_clock`, and
/// of that reading nothing is claimed.
pub uninterp spec fn duration_secs(elapsed: core::time::Duration) -> u64;

/// The current time in seconds since the Unix epoch, for the `now` arguments
/// of the session store: `epoch_seconds` of a reading of the system clock, so
/// `None` where the clock is set before the epoch. Of the reading no more holds.
pub fn now_sec() -> (now: Option<u64>) {
    let reading = system_clock();
    epoch_seconds(since_epoch(&reading))
}

/// `core::time::Duration::as_secs`: the whole seconds of a duration.
#[verifier::external_body]
fn whole_seconds(elapsed: &core::time::Duration) -> (secs: u64)
    ensures
        secs == duration_secs(*elapsed),
{
    elapsed.as_secs()
}

/// What a reading of the clock against the epoch comes to: the whole seconds
/// that have gone by, or nothing where the clock is set before the epoch.
pub open spec fn seconds_of(
    elapsed: Result<core::time::Duration, std::time::SystemTimeError>,
) -> Option<u64> {
    match elapsed {
        Ok(gone) => Some(duration_secs(gone)),
        Err(_) => None,
    }
}

/// The time that a reading of the clock against the epoch stands for.
pub fn epoch_seconds(
    elapsed: Result<core::time::Duration, std::time::SystemTimeError>,
) -> (now: Option<u64>)
    ensures
        now == seconds_of(elapsed),
{
    match elapsed {
        Ok(gone) => Some(whole_seconds(&gone)),
        Err(_) => None,
    }
}

} // verus!
