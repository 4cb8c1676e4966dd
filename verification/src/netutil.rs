//! Address resolution, per-route MTU discovery and the IPv6 exposure report.

use vstd::prelude::*;
use vstd::string::StringExecFns;

use crate::mtu::{EffectiveMtu, LINK_MTU};
use crate::net;
use crate::net::{IpAddress, Ipv4, Ipv6};
use crate::text;

verus! {

pub const NOT_IPV4: &'static str = "relay did not resolve to IPv4";

/// The first IPv4 address among some.
pub open spec fn first_ipv4(addresses: Seq<IpAddress>) -> Option<Ipv4>
    decreases addresses.len(),
{
    if addresses.len() == 0 {
        None
    } else {
        match addresses[0] {
            IpAddress::V4(address) => Some(address),
            IpAddress::V6(_) => first_ipv4(addresses.skip(1)),
        }
    }
}

/// Looks for the first IPv4 address of a list.
pub(crate) fn find_ipv4(addresses: &Vec<IpAddress>) -> (r: Option<Ipv4>)
    ensures
        r == first_ipv4(addresses@),
{
    let mut at: usize = 0;
    assert(addresses@.skip(0) =~= addresses@);
    while at < addresses.len()
        invariant
            at <= addresses@.len(),
            first_ipv4(addresses@) == first_ipv4(addresses@.skip(at as int)),
        decreases addresses@.len() - at,
    {
        let ghost rest = addresses@.skip(at as int);
        assert(rest[0] == addresses@[at as int]);
        assert(rest.skip(1) =~= addresses@.skip(at + 1));
        match addresses[at] {
            IpAddress::V4(address) => return Some(address),
            IpAddress::V6(_) => {},
        }
        at = at + 1;
    }
    None
}

/// The address to reach the relay at, given what its name resolved to.
pub fn pick_ipv4(addresses: &Vec<IpAddress>) -> (r: Result<Ipv4, String>)
    ensures
        match first_ipv4(addresses@) {
            Some(address) => r == Ok::<Ipv4, String>(address),
            None => r matches Err(message) && message@ == NOT_IPV4@,
        },
{
    match find_ipv4(addresses) {
        Some(address) => Ok(address),
        None => Err(NOT_IPV4.to_owned()),
    }
}

/// The least of some link MTUs, leaving out those that could not be found.
pub open spec fn tightest(reports: Seq<Option<u16>>) -> Option<u16>
    decreases reports.len(),
{
    if reports.len() == 0 {
        None
    } else {
        match (tightest(reports.drop_last()), reports.last()) {
            (Some(before), Some(mtu)) => if mtu < before {
                Some(mtu)
            } else {
                Some(before)
            },
            (None, mtu) => mtu,
            (before, None) => before,
        }
    }
}

/// Uses the tightest successfully inspected endpoint route. Discovery is an
/// optimisation, never a connection requirement: a filtered query falls back
/// to the proven 1500-byte budget for only that path.
pub fn link_mtu_for_endpoints(reports: &Vec<Option<u16>>) -> (r: u16)
    ensures
        r == match tightest(reports@) {
            Some(mtu) => mtu,
            None => LINK_MTU,
        },
{
    let mut smallest: Option<u16> = None;
    let mut at: usize = 0;
    assert(reports@.take(0) =~= Seq::<Option<u16>>::empty());
    while at < reports.len()
        invariant
            at <= reports@.len(),
            smallest == tightest(reports@.take(at as int)),
        decreases reports@.len() - at,
    {
        assert(reports@.take(at + 1).drop_last() =~= reports@.take(at as int));
        match (smallest, reports[at]) {
            (Some(before), Some(mtu)) => {
                if mtu < before {
                    smallest = Some(mtu);
                }
            },
            (None, Some(mtu)) => {
                smallest = Some(mtu);
            },
            _ => {},
        }
        at = at + 1;
    }
    assert(reports@.take(at as int) =~= reports@);
    match smallest {
        Some(mtu) => mtu,
        None => LINK_MTU,
    }
}

/// What is said when the tunnel floor had to be held above what the link leaves.
pub open spec fn below_budget_text(mtu: EffectiveMtu, link_mtu: u16) -> Seq<char> {
    let left = if link_mtu > mtu.overhead {
        (link_mtu - mtu.overhead) as nat
    } else {
        0
    };
    "a "@ + text::decimal(link_mtu as nat) + "-byte uplink leaves "@ + text::decimal(left)
        + " bytes after "@ + text::decimal(mtu.overhead as nat)
        + " bytes of encapsulation, under the "@ + text::decimal(mtu.mtu as nat)
        + "-byte tunnel floor; holding the floor, so full-size packets fragment on this link"@
}

/// Says so when the 1280-byte tunnel floor had to be held above what the link
/// leaves after encapsulation.
///
/// The session still runs, because the floor is not negotiable, but on such a
/// link full-size packets fragment, and that would otherwise surface as
/// latency and loss with nothing in the log to explain it.
pub fn warn_if_below_link_budget(mtu: EffectiveMtu, link_mtu: u16) -> (r: Option<String>)
    ensures
        r is Some <==> mtu.below_link_budget,
        r matches Some(line) ==> line@ == below_budget_text(mtu, link_mtu),
{
    if !mtu.below_link_budget {
        return None;
    }
    let left: u16 = link_mtu.saturating_sub(mtu.overhead);
    let mut r = text::concat5(
        "a ",
        text::decimal_text(link_mtu as u64).as_str(),
        "-byte uplink leaves ",
        text::decimal_text(left as u64).as_str(),
        " bytes after ",
    );
    r.append(text::decimal_text(mtu.overhead as u64).as_str());
    r.append(" bytes of encapsulation, under the ");
    r.append(text::decimal_text(mtu.mtu as u64).as_str());
    r.append("-byte tunnel floor; holding the floor, so full-size packets fragment on this link");
    Some(r)
}

/// What IPv6 traffic a session does and does not carry.
#[derive(Debug, Clone, Copy, PartialEq, Eq, Structural)]
pub struct Ipv6Exposure {
    pub carried: bool,
    pub system_has_route: bool,
}

/// What IPv6 traffic a session does and does not carry, given the address that
/// the machine would reach the Internet from.
///
/// Only IPv4 is tunnelled: the capture filter, the address rewriting and the
/// relay framing are all IPv4. On a dual-stack connection IPv6 therefore keeps
/// using the normal route, which is a leak if the user believed all-traffic mode
/// meant all traffic. Reporting it is the honest minimum.
pub fn ipv6_exposure(source: Option<Ipv6>) -> (r: Ipv6Exposure)
    ensures
        !r.carried,
        r.system_has_route == (source matches Some(address) && net::globally_routable_v6(
            address.0@,
        )),
{
    let system_has_route: bool = match source {
        Some(address) => net::is_globally_routable_ipv6(address),
        None => false,
    };
    Ipv6Exposure { carried: false, system_has_route }
}

/// A name is reached by its first IPv4 address, whatever IPv6 addresses stand
/// before it.
pub proof fn the_first_ipv4_address_is_taken(addresses: Seq<IpAddress>, i: int)
    requires
        0 <= i < addresses.len(),
        addresses[i] is V4,
        forall|j: int| 0 <= j < i ==> (#[trigger] addresses[j]) is V6,
    ensures
        first_ipv4(addresses) matches Some(found) && addresses[i] == IpAddress::V4(found),
    decreases i,
{
    if i > 0 {
        assert(addresses[0] is V6);
        let rest = addresses.skip(1);
        assert(rest[i - 1] == addresses[i]);
        assert forall|j: int| 0 <= j < i - 1 implies (#[trigger] rest[j]) is V6 by {
            assert(rest[j] == addresses[j + 1]);
        }
        the_first_ipv4_address_is_taken(rest, i - 1);
    }
}

/// A name that only resolves to IPv6 is not reached.
pub proof fn a_name_needs_an_ipv4_address(addresses: Seq<IpAddress>)
    requires
        forall|j: int| 0 <= j < addresses.len() ==> (#[trigger] addresses[j]) is V6,
    ensures
        first_ipv4(addresses) is None,
    decreases addresses.len(),
{
    if addresses.len() > 0 {
        assert(addresses[0] is V6);
        let rest = addresses.skip(1);
        assert forall|j: int| 0 <= j < rest.len() implies (#[trigger] rest[j]) is V6 by {
            assert(rest[j] == addresses[j + 1]);
        }
        a_name_needs_an_ipv4_address(rest);
    }
}

/// The tightest report is one that was made, and none is tighter.
pub proof fn the_tightest_report_was_made(reports: Seq<Option<u16>>)
    ensures
        tightest(reports) is None <==> forall|i: int|
            0 <= i < reports.len() ==> (#[trigger] reports[i]) is None,
        tightest(reports) matches Some(least) ==> reports.contains(Some(least)) && forall|i: int|
            0 <= i < reports.len() ==> ((#[trigger] reports[i]) matches Some(other) ==> least
                <= other),
    decreases reports.len(),
{
    if reports.len() > 0 {
        let less = reports.drop_last();
        let last = reports.len() - 1;
        the_tightest_report_was_made(less);
        assert(reports.last() == reports[last]);
        assert forall|i: int| 0 <= i < last implies #[trigger] less[i] == reports[i] by {}
        if let Some(least) = tightest(less) {
            let i = choose|i: int| 0 <= i < less.len() && less[i] == Some(least);
            assert(reports[i] == Some(least));
            if let Some(found) = tightest(reports) {
                assert forall|j: int| 0 <= j < reports.len() implies ((
                #[trigger] reports[j]) matches Some(other) ==> found <= other) by {
                    if j < last {
                        assert(less[j] == reports[j]);
                    }
                }
                if found != least {
                    assert(reports[last] == Some(found));
                }
            }
        } else {
            assert forall|j: int| 0 <= j < last implies (#[trigger] reports[j]) is None by {
                assert(less[j] == reports[j]);
            }
            if let Some(found) = tightest(reports) {
                assert(reports[last] == Some(found));
            }
        }
    }
}

} // verus!
