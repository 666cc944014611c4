//! The wall clock, read in milliseconds since the Unix epoch.

use std::time::Duration;
use std::time::SystemTime;
use std::time::SystemTimeError;
use vstd::prelude::*;

verus! {

/// `std::time::SystemTime`, an instant of the system clock, carried through
/// unread.
#[verifier::external_type_specification]
#[verifier::external_body]
pub struct ExSystemTime(SystemTime);

/// `std::time::SystemTime`, an instant of the system clock, carried through
/// unread.
/// `std::time::SystemTimeError`, the error of `SystemTime::duration_since`,
/// carried through unread.
#[verifier::external_type_specification]
#[verifier::external_body]
pub struct ExSystemTimeError(SystemTimeError);

/// `SystemTime::now` reads the system clock. Nothing is claimed of the
/// instant it returns.
pub assume_specification[ SystemTime::now ]() -> (t: SystemTime);

/// `SystemTime::duration_since` gives the time between two instants, or an
/// error where the second is the later one. Nothing is claimed of either.
pub assume_specification[ SystemTime::duration_since ](
    t: &SystemTime,
    earlier: SystemTime,
) -> (r: Result<Duration, SystemTimeError>);

/// `Duration::as_millis` gives a duration in whole milliseconds. Nothing is
/// claimed of the number.
pub assume_specification[ Duration::as_millis ](d: &Duration) -> (ms: u128);

/// The constant `std::time::UNIX_EPOCH`, the instant from which the clock
/// counts.
#[verifier::external_body]
fn unix_epoch() -> (t: SystemTime) {
    std::time::UNIX_EPOCH
}

/// The milliseconds that have passed since the Unix epoch, by the system
/// clock; zero where the clock is set before the epoch.
///
/// The clock decides what comes back, so nothing is promised of it: every
/// function that reckons with time takes the reading as an argument.
pub fn now_millis() -> (ms: u128) {
    let now = SystemTime::now();
    match now.duration_since(unix_epoch()) {
        Ok(d) => d.as_millis(),
        Err(_) => 0,
    }
}

} // verus!
