//! A multipath tunnel engine: the rules, codecs and state machines behind it.

pub mod adapter;
pub mod auth;
pub mod bits;
pub mod bytes;
pub mod capture;
pub mod commands;
pub mod dns;
pub mod ipc;
pub mod l2tp;
pub mod log;
pub mod mtu;
pub mod net;
pub mod netconfig;
pub mod netutil;
pub mod openvpn;
pub mod packet;
pub mod policy;
pub mod protocol;
mod random;
pub mod relay_path;
pub mod replay;
pub mod rtt;
pub mod scheduler;
pub mod session;
pub mod socks5;
pub mod text;
pub mod time;
pub mod uplink;
pub mod utf16;

use vstd::prelude::*;

verus! {

/// Public IPv4 address used to measure end-to-end reachability through a tunnel,
/// both as the direct-session ICMP probe target and as the benchmark server
/// reported to the user: 8.8.8.8, as the number that a [`net::Ipv4`] holds.
///
/// It only ever receives echo requests, so the requirement is simply that it
/// answers them from everywhere a user might connect from. Cloudflare's 1.1.1.1
/// does not meet that: several national filters blackhole or hijack it outright,
/// which makes a perfectly healthy tunnel measure as silent.
pub const BENCHMARK_TARGET: u32 = 0x0808_0808;

} // verus!
