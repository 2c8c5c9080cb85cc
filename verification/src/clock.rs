//! Wall-clock seconds since the Unix epoch.
use std::time::{Duration, SystemTime};
use vstd::prelude::*;

verus! {

#[verifier::external_type_specification]
#[verifier::external_body]
pub struct ExSystemTime(SystemTime);

/// `SystemTime::now`: the current time of the system clock. Nothing is promised
/// of the value, which depends on the clock.
#[verifier::external_body]
fn system_now() -> SystemTime {
    SystemTime::now()
}

/// `SystemTime::duration_since(UNIX_EPOCH)`, as an `Option`: `None` where the
/// clock reads a time before the epoch. Nothing is promised of the value.
#[verifier::external_body]
fn since_unix_epoch(t: &SystemTime) -> Option<Duration> {
    t.duration_since(std::time::UNIX_EPOCH).ok()
}

/// `Duration::as_secs`: the whole seconds of `d`. `Duration` is opaque here, so
/// nothing is promised of the value.
#[verifier::external_body]
fn duration_secs(d: &Duration) -> u64 {
    d.as_secs()
}

/// Whole seconds since the Unix epoch by the system clock; a clock set before
/// the epoch reads as 0. The value depends on the clock alone, so no clause
/// states it.
pub fn unix_now() -> u64 {
    let now = system_now();
    match since_unix_epoch(&now) {
        Some(d) => duration_secs(&d),
        None => 0,
    }
}

} // verus!
