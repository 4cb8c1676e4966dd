//! Whether this machine can reach the Internet at all, measured outside every
//! node.

use vstd::prelude::*;

verus! {

/// Gap between two probes of the uplink.
pub const PROBE_INTERVAL: u64 = 2_000_000_000;

/// Probes in a row that have to fail before the uplink is called down.
pub const FAILURES_BEFORE_DOWN: u32 = 3;

/// What the monitor makes of the uplink.
#[derive(Debug, Clone, Copy, PartialEq, Eq, Structural)]
pub enum UplinkState {
    Up,
    Down,
    /// Nothing has been measured, which is where a router that filters ICMP
    /// leaves it.
    Unknown,
}

impl UplinkState {
    pub open spec fn word(self) -> Seq<char> {
        match self {
            UplinkState::Up => "up"@,
            UplinkState::Down => "down"@,
            UplinkState::Unknown => "unknown"@,
        }
    }

    pub fn as_str(self) -> (r: &'static str)
        ensures
            r@ == self.word(),
    {
        match self {
            UplinkState::Up => "up",
            UplinkState::Down => "down",
            UplinkState::Unknown => "unknown",
        }
    }
}

} // verus!
