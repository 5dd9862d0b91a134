//! Windows FILETIME values and the UTC instants they denote.

use chrono::{DateTime, Utc};
use vstd::prelude::*;

verus! {

/// Seconds between 1601-01-01T00:00:00Z, the origin of FILETIME, and
/// 1970-01-01T00:00:00Z.
pub const FILETIME_UNIX_DIFF: u64 = 11_644_473_600;

/// The number of 100-nanosecond FILETIME ticks in one second.
pub const FILETIME_TICKS_PER_SECOND: u64 = 10_000_000;

/// An instant in UTC: whole seconds since 1970-01-01T00:00:00Z and the
/// nanoseconds past that second.
#[derive(Debug, Clone, Copy, PartialEq, Eq, Structural)]
pub struct Timestamp {
    pub seconds: i64,
    pub nanos: u32,
}

impl Timestamp {
    /// The nanoseconds stay below one second.
    pub open spec fn wf(&self) -> bool {
        self.nanos < 1_000_000_000
    }
}

/// The instant that a FILETIME denotes. A FILETIME of zero, or one before
/// 1970, denotes none.
pub open spec fn filetime_instant(filetime: u64) -> Option<Timestamp> {
    if filetime == 0 || filetime / FILETIME_TICKS_PER_SECOND < FILETIME_UNIX_DIFF {
        None
    } else {
        Some(
            Timestamp {
                seconds: (filetime / FILETIME_TICKS_PER_SECOND - FILETIME_UNIX_DIFF) as i64,
                nanos: ((filetime % FILETIME_TICKS_PER_SECOND) * 100) as u32,
            },
        )
    }
}

/// The FILETIME of an instant, in whole ticks.
pub open spec fn instant_filetime(t: Timestamp) -> int {
    (t.seconds + FILETIME_UNIX_DIFF) * FILETIME_TICKS_PER_SECOND + t.nanos as int / 100
}

/// The whole seconds of the largest FILETIME.
pub const MAX_FILETIME_SECONDS: i64 = 1_844_674_407_370;

/// `chrono::DateTime::<Utc>::from_timestamp`, read back through `timestamp`
/// and `timestamp_subsec_nanos`. The outside crate documents that the two
/// read back what was given, and that it refuses only seconds outside its
/// calendar, which ends in the year 262142, and nanoseconds that are no part
/// of a second. The contract promises an instant for the seconds that a
/// FILETIME can hold, the last of which falls in the year 60425.
#[verifier::external_body]
fn utc_from_timestamp(seconds: i64, nanos: u32) -> (r: Option<(i64, u32)>)
    ensures
        r matches Some(p) ==> p.0 == seconds && p.1 == nanos,
        0 <= seconds <= MAX_FILETIME_SECONDS && nanos < 1_000_000_000 ==> r is Some,
{
    match DateTime::<Utc>::from_timestamp(seconds, nanos) {
        Some(t) => Some((t.timestamp(), t.timestamp_subsec_nanos())),
        None => None,
    }
}

/// Converts a FILETIME to the UTC instant it denotes.
pub fn windows_filetime_to_datetime(filetime: u64) -> (r: Option<Timestamp>)
    ensures
        r == filetime_instant(filetime),
        r matches Some(t) ==> t.wf(),
{
    if filetime == 0 {
        return None;
    }
    let ticks_seconds: u64 = filetime / FILETIME_TICKS_PER_SECOND;
    if ticks_seconds < FILETIME_UNIX_DIFF {
        return None;
    }
    let unix_seconds: u64 = ticks_seconds - FILETIME_UNIX_DIFF;
    let nanos: u64 = (filetime % FILETIME_TICKS_PER_SECOND) * 100;
    match utc_from_timestamp(unix_seconds as i64, nanos as u32) {
        Some((seconds, nanos)) => Some(Timestamp { seconds, nanos }),
        None => None,
    }
}

/// A FILETIME at or after 1970 is the FILETIME of the instant it converts to:
/// nothing is lost to the 100-nanosecond tick.
pub proof fn lemma_filetime_round_trip(filetime: u64)
    requires
        filetime_instant(filetime) is Some,
    ensures
        instant_filetime(filetime_instant(filetime)->0) == filetime,
{
    let q = filetime / FILETIME_TICKS_PER_SECOND;
    let r = filetime % FILETIME_TICKS_PER_SECOND;
    assert(filetime == q * FILETIME_TICKS_PER_SECOND + r);
    assert((r * 100) / 100 == r);
}

} // verus!
