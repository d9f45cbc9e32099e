//! Wall-clock reading and uptime arithmetic.
use std::time::{Duration, SystemTime, SystemTimeError};
use vstd::prelude::*;

verus! {

#[verifier::external_type_specification]
#[verifier::external_body]
pub struct ExSystemTime(SystemTime);

#[verifier::external_type_specification]
#[verifier::external_body]
pub struct ExSystemTimeError(SystemTimeError);

/// Reads the system clock with `SystemTime::now`. Nothing is claimed of the value:
/// it depends on the time of the call.
#[verifier::external_body]
fn clock_now() -> SystemTime {
    SystemTime::now()
}

/// `t.duration_since(UNIX_EPOCH)`. Nothing is claimed: the outcome depends on the
/// clock reading `t`, which is opaque here.
#[verifier::external_body]
fn since_unix_epoch(t: &SystemTime) -> Result<Duration, SystemTimeError> {
    t.duration_since(std::time::UNIX_EPOCH)
}

/// `Duration::as_secs`. Nothing is claimed: a `Duration` is opaque here.
#[verifier::external_body]
fn duration_secs(d: &Duration) -> u64 {
    d.as_secs()
}

/// The whole seconds since the Unix epoch that a clock reading gave, or 0 when
/// the clock stood before the epoch.
pub fn unix_secs_or_zero(since_epoch: Option<u64>) -> (r: u64)
    ensures
        r == match since_epoch {
            Some(s) => s,
            None => 0,
        },
{
    match since_epoch {
        Some(s) => s,
        None => 0,
    }
}

/// Whole seconds since the Unix epoch now, or 0 when the clock is set before it.
/// The value comes from the clock; it is whatever `unix_secs_or_zero` makes of
/// the reading.
pub fn now_unix() -> u64 {
    let t = clock_now();
    let since = match since_unix_epoch(&t) {
        Ok(d) => Some(duration_secs(&d)),
        Err(_) => None,
    };
    unix_secs_or_zero(since)
}

/// Seconds elapsed from `boot` to `now`, or 0 when `now` is not after `boot`.
pub fn uptime_secs(now: u64, boot: u64) -> (r: u64)
    ensures
        r == if now >= boot {
            (now - boot) as u64
        } else {
            0
        },
{
    now.saturating_sub(boot)
}

/// Whole days in `secs` seconds.
pub fn days_running(secs: u64) -> (r: u64)
    ensures
        r == secs / 86400,
{
    secs / 86400
}

} // verus!
