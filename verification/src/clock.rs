//! Readings of the system and monotonic clocks.
//!
//! A clock reading depends on the moment it is taken, so nothing is stated
//! of the values these wrappers return; the functions that use them are
//! verified for every value that can come back.

use std::time::{Duration, Instant, SystemTime};

use vstd::prelude::*;

verus! {

#[verifier::external_type_specification]
#[verifier::external_body]
pub struct ExInstant(std::time::Instant);

#[verifier::external_type_specification]
#[verifier::external_body]
pub struct ExSystemTime(std::time::SystemTime);

/// `Instant::now`: a reading of the monotonic clock.
#[verifier::external_body]
pub(crate) fn instant_now() -> (r: Instant) {
    Instant::now()
}

/// `Instant::saturating_duration_since`: the time from `earlier` to `later`,
/// zero when `earlier` is the later reading.
#[verifier::external_body]
pub(crate) fn saturating_duration_since(later: Instant, earlier: Instant) -> (r: Duration) {
    later.saturating_duration_since(earlier)
}

/// `Duration::as_millis`: the whole milliseconds of a duration.
#[verifier::external_body]
pub(crate) fn duration_as_millis(d: Duration) -> (r: u128) {
    d.as_millis()
}

/// `SystemTime::now`: a reading of the wall clock.
#[verifier::external_body]
pub(crate) fn system_now() -> (r: SystemTime) {
    SystemTime::now()
}

/// `SystemTime::duration_since(UNIX_EPOCH)`: the time since the epoch, or
/// `None` for a reading before it.
#[verifier::external_body]
fn since_unix_epoch(t: SystemTime) -> (r: Option<Duration>) {
    t.duration_since(std::time::UNIX_EPOCH).ok()
}

/// Unix milliseconds from the whole milliseconds elapsed since the epoch,
/// or 0 when the clock is before the epoch or beyond the 64-bit range.
pub fn unix_ms_from_clock(elapsed_since_epoch_ms: Option<u128>) -> (r: i64)
    ensures
        r == match elapsed_since_epoch_ms {
            Some(ms) => if ms <= i64::MAX as u128 {
                ms as i64
            } else {
                0i64
            },
            None => 0i64,
        },
{
    match elapsed_since_epoch_ms {
        Some(ms) => if ms <= i64::MAX as u128 {
            ms as i64
        } else {
            0
        },
        None => 0,
    }
}

/// The current unix time in milliseconds, 0 when the clock reads before the
/// epoch or beyond the 64-bit range.
pub fn now_unix_ms() -> (r: i64)
    ensures
        r >= 0,
{
    let now = system_now();
    let elapsed = match since_unix_epoch(now) {
        Some(d) => Some(duration_as_millis(d)),
        None => None,
    };
    unix_ms_from_clock(elapsed)
}

} // verus!
