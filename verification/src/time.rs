//! FILETIME arithmetic.
//!
//! Timestamps travel as FILETIME: 100-nanosecond ticks since 1601-01-01
//! UTC. Display layers work in Unix time; the two scales differ by a fixed
//! number of seconds.
use vstd::prelude::*;

verus! {

/// Seconds between 1601-01-01 and 1970-01-01, both UTC.
pub const EPOCH_DIFFERENCE: u64 = 11644473600;

/// FILETIME ticks per second.
pub const TICKS_PER_SEC: u64 = 10000000;

/// Splits a FILETIME into Unix seconds and the leftover nanoseconds.
/// Times before 1970 are not representable here and are left out.
pub fn filetime_to_unix(filetime: u64) -> (r: (i64, u32))
    requires
        filetime / TICKS_PER_SEC >= EPOCH_DIFFERENCE,
    ensures
        r.0 == filetime as int / TICKS_PER_SEC as int - EPOCH_DIFFERENCE as int,
        r.1 == (filetime as int % TICKS_PER_SEC as int) * 100,
{
    let total_secs = filetime / TICKS_PER_SEC;
    let unix_secs = (total_secs - EPOCH_DIFFERENCE) as i64;
    let subsec_nanos = ((filetime % TICKS_PER_SEC) * 100) as u32;
    (unix_secs, subsec_nanos)
}

/// Turns microseconds since the Unix epoch into a FILETIME.
pub fn unix_micros_to_filetime(micros: u64) -> (r: u64)
    requires
        micros * 10 + EPOCH_DIFFERENCE * TICKS_PER_SEC <= u64::MAX,
    ensures
        r == micros * 10 + EPOCH_DIFFERENCE * TICKS_PER_SEC,
{
    micros * 10 + EPOCH_DIFFERENCE * TICKS_PER_SEC
}

} // verus!
