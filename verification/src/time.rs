//! Readings of the clocks, as plain numbers.
//!
//! Durations and monotonic readings are nanoseconds throughout.

use vstd::prelude::*;

verus! {

pub const MILLISECOND: u64 = 1_000_000;

pub const SECOND: u64 = 1_000_000_000;

/// The two clocks at one moment.
#[derive(Debug, Clone, Copy, PartialEq, Eq, Structural)]
pub struct Clock {
    /// Nanoseconds on a clock that never runs backwards.
    pub monotonic: u64,
    /// Seconds since the start of 1970, cut to 32 bits.
    pub unix_seconds: u32,
}

/// How long after `start` the reading `now` is, and zero where it is not after.
pub open spec fn elapsed(now: u64, start: u64) -> int {
    if now >= start {
        now - start
    } else {
        0
    }
}

pub fn since(now: u64, start: u64) -> (r: u64)
    ensures
        r == elapsed(now, start),
{
    now.saturating_sub(start)
}

/// The reading that is `wait` after `now`, or the last one there is.
pub open spec fn later(now: u64, wait: u64) -> u64 {
    if now + wait <= u64::MAX {
        (now + wait) as u64
    } else {
        u64::MAX
    }
}

pub fn after(now: u64, wait: u64) -> (r: u64)
    ensures
        r == later(now, wait),
{
    now.saturating_add(wait)
}

} // verus!
