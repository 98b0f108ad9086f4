//! Points in time, in nanoseconds on a clock that does not run backwards.

use vstd::prelude::*;

verus! {

pub const NANOS_PER_SEC: u64 = 1_000_000_000;

/// The latest Unix second at which a clock may be started, so that a timestamp
/// derived from it fits.
pub const UNIX_LIMIT: u64 = 0xFFFF_FFF0_0000_0000;

/// The time from `since` to `now`, which is zero where `since` lies ahead.
pub open spec fn elapsed(since: u64, now: u64) -> u64 {
    if now >= since {
        (now - since) as u64
    } else {
        0
    }
}

/// The time from `since` to `now`, which is zero where `since` lies ahead.
pub fn elapsed_ns(since: u64, now: u64) -> (r: u64)
    ensures
        r == elapsed(since, now),
{
    if now >= since {
        now - since
    } else {
        0
    }
}

/// The whole seconds from `since` to `now`.
pub open spec fn elapsed_secs(since: u64, now: u64) -> u64 {
    elapsed(since, now) / NANOS_PER_SEC
}

/// A second has passed since the last time, or there was none.
pub open spec fn second_passed(last: Option<u64>, now: u64) -> bool {
    match last {
        Some(t) => elapsed(t, now) >= NANOS_PER_SEC,
        None => true,
    }
}

/// Whether a second has passed since the last time, or there was none.
pub fn is_second_passed(last: Option<u64>, now: u64) -> (r: bool)
    ensures
        r == second_passed(last, now),
{
    match last {
        Some(t) => elapsed_ns(t, now) >= NANOS_PER_SEC,
        None => true,
    }
}

} // verus!
