//! The wall clock, in whole seconds since the Unix epoch.

use time::OffsetDateTime;
use vstd::prelude::*;

verus! {

/// Reads the clock with `time::OffsetDateTime::now_utc` and takes its
/// `unix_timestamp`. Trusted to return; nothing is claimed of the value.
#[verifier::external_body]
pub(crate) fn clock_reading() -> i64 {
    OffsetDateTime::now_utc().unix_timestamp()
}

/// A clock reading as seconds since the epoch. A clock set before the epoch
/// reads as the epoch itself.
pub fn seconds_since_epoch(reading: i64) -> (seconds: u64)
    ensures
        seconds == if reading < 0 {
            0
        } else {
            reading as u64
        },
{
    if reading < 0 {
        0
    } else {
        reading as u64
    }
}

/// The time the clock shows, in seconds since the epoch.
pub fn unix_now() -> (seconds: u64)
    ensures
        exists|reading: i64| seconds == #[trigger] epoch_seconds(reading),
        seconds <= i64::MAX,
{
    let reading: i64 = clock_reading();
    let seconds: u64 = seconds_since_epoch(reading);
    assert(seconds == epoch_seconds(reading));
    seconds
}

/// What a clock reading counts as: its seconds since the epoch, and the
/// epoch itself for a reading before it.
pub open spec fn epoch_seconds(reading: i64) -> u64 {
    if reading < 0 {
        0
    } else {
        reading as u64
    }
}

} // verus!
