//! The wall clock, in whole seconds since the Unix epoch.

use vstd::prelude::*;
use std::time::{Duration, SystemTime, SystemTimeError};

verus! {

#[verifier::external_type_specification]
#[verifier::external_body]
pub struct ExSystemTime(SystemTime);

#[verifier::external_type_specification]
#[verifier::external_body]
pub struct ExSystemTimeError(SystemTimeError);

/// `SystemTime::now`: the time depends on the machine's clock, so nothing is stated of it.
#[verifier::external_body]
fn system_now() -> SystemTime {
    SystemTime::now()
}

/// How long after the Unix epoch a time is; an error for a time before the epoch.
pub uninterp spec fn time_since_epoch(t: SystemTime) -> Result<Duration, SystemTimeError>;

/// The whole seconds of a duration.
pub uninterp spec fn duration_secs(d: Duration) -> u64;

/// `SystemTime::duration_since` with the Unix epoch as the earlier time; it fails when the
/// time is before the epoch. The outcome is named by `time_since_epoch`.
#[verifier::external_body]
fn since_epoch(t: &SystemTime) -> (r: Result<Duration, SystemTimeError>)
    ensures
        r == time_since_epoch(*t),
{
    t.duration_since(std::time::UNIX_EPOCH)
}

/// `Duration::as_secs`: the whole seconds of the duration, named by `duration_secs`.
#[verifier::external_body]
fn whole_seconds(d: &Duration) -> (r: u64)
    ensures
        r == duration_secs(*d),
{
    d.as_secs()
}

/// The seconds since the Unix epoch that the time `t` reads as; 0 for a time before the
/// epoch.
pub open spec fn epoch_seconds(t: SystemTime) -> u64 {
    match time_since_epoch(t) {
        Ok(d) => duration_secs(d),
        Err(_) => 0,
    }
}

/// The current time in seconds since the Unix epoch; 0 when the clock reads a time before
/// the epoch. Which time the clock reads is not stated.
pub fn unix_now() -> (r: u64)
    ensures
        exists|t: SystemTime| r == epoch_seconds(t),
{
    let now = system_now();
    let r = match since_epoch(&now) {
        Ok(d) => whole_seconds(&d),
        Err(_) => 0,
    };
    assert(r == epoch_seconds(now));
    r
}

} // verus!
