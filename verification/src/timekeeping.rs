//! Clock readings and Windows FILETIME conversion.

use vstd::prelude::*;
use std::time::{Duration, SystemTime, UNIX_EPOCH};

verus! {

/// Seconds between 1601-01-01 (the FILETIME epoch) and 1970-01-01.
pub const FILETIME_EPOCH_OFFSET_SECS: i64 = 11_644_473_600;

/// FILETIME ticks (100 ns) per second.
pub const FILETIME_TICKS_PER_SEC: u64 = 10_000_000;

/// Unix seconds for a FILETIME value; 0 stands for "never".
pub open spec fn spec_filetime_to_unix(ft: u64) -> int {
    if ft == 0 {
        0
    } else {
        ft as int / 10_000_000 - 11_644_473_600
    }
}

/// Windows FILETIME (100 ns ticks since 1601) to Unix seconds; a zero
/// FILETIME (never recorded) maps to 0.
pub fn filetime_to_unix(ft: u64) -> (r: i64)
    ensures
        r as int == spec_filetime_to_unix(ft),
{
    if ft == 0 {
        return 0;
    }
    (ft / FILETIME_TICKS_PER_SEC) as i64 - FILETIME_EPOCH_OFFSET_SECS
}

/// The timestamp stored for a clock reading: the whole seconds since the
/// Unix epoch (cast to `i64`, wrapping above `i64::MAX`), or 0 when the clock is
/// before the epoch.
pub open spec fn spec_unix_seconds(since_epoch: Option<u64>) -> i64 {
    match since_epoch {
        Some(secs) => secs as i64,
        None => 0,
    }
}

pub fn unix_seconds(since_epoch: Option<u64>) -> (r: i64)
    ensures
        r == spec_unix_seconds(since_epoch),
{
    match since_epoch {
        Some(secs) => secs as i64,
        None => 0,
    }
}

#[verifier::external_type_specification]
#[verifier::external_body]
pub struct ExSystemTime(SystemTime);

/// A wrapper for `SystemTime::now`; the wall clock, so nothing is claimed.
#[verifier::external_body]
fn system_now() -> SystemTime {
    SystemTime::now()
}

/// A wrapper for `SystemTime::duration_since(UNIX_EPOCH)`, with the error
/// (a time before the epoch) turned into `None`; nothing is claimed about
/// the duration.
#[verifier::external_body]
fn since_unix_epoch(t: &SystemTime) -> Option<Duration> {
    t.duration_since(UNIX_EPOCH).ok()
}

/// A wrapper for `Duration::as_secs`; the duration is opaque here, so
/// nothing is claimed about the number.
#[verifier::external_body]
fn whole_seconds(d: &Duration) -> u64 {
    d.as_secs()
}

/// The current time as Unix seconds (0 if the clock reads before 1970).
/// The reading itself comes from the system clock; `unix_seconds` states
/// how it is turned into the stored timestamp.
pub fn now_ts() -> i64 {
    let now = system_now();
    match since_unix_epoch(&now) {
        Some(d) => unix_seconds(Some(whole_seconds(&d))),
        None => unix_seconds(None),
    }
}

} // verus!
