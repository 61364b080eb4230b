//! Reading the system clock.

use std::time::{Duration, SystemTime};
use vstd::prelude::*;

verus! {

#[verifier::external_type_specification]
#[verifier::external_body]
pub struct ExSystemTime(SystemTime);

/// Calls `std::time::SystemTime::now`. Nothing is claimed of the time that
/// comes back.
#[verifier::external_body]
pub(crate) fn now() -> (t: SystemTime) {
    SystemTime::now()
}

/// Calls `std::time::SystemTime::elapsed`, which fails where the clock has
/// gone backwards since `since`; the failure becomes `None`. Nothing is
/// claimed of the duration that comes back.
#[verifier::external_body]
pub(crate) fn elapsed(since: &SystemTime) -> (d: Option<Duration>) {
    match since.elapsed() {
        Ok(d) => Some(d),
        Err(_) => None,
    }
}

/// Calls `std::time::Duration::as_secs`: the whole seconds of a duration.
/// Nothing is claimed of their number.
#[verifier::external_body]
pub(crate) fn whole_secs(d: &Duration) -> (secs: u64) {
    d.as_secs()
}

/// Reads how many whole seconds have passed since `start`, if the clock can
/// tell, and sets `start` to the present.
pub(crate) fn restart(start: &mut SystemTime) -> (secs: Option<u64>) {
    let secs = match elapsed(start) {
        Some(d) => Some(whole_secs(&d)),
        None => None,
    };
    *start = now();
    secs
}

/// Reads how many whole seconds have passed since `start`, if the clock can
/// tell.
pub(crate) fn seconds_since(start: &SystemTime) -> (secs: Option<u64>) {
    match elapsed(start) {
        Some(d) => Some(whole_secs(&d)),
        None => None,
    }
}

} // verus!
