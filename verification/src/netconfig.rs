//! Native IP configuration: which route leaves the machine, what its link can
//! carry, and what the tables of the operating system are to hold.

use vstd::prelude::*;
use vstd::string::StringExecFns;

use crate::mtu;
use crate::mtu::normalize_link_mtu;
use crate::net::Ipv4;
use crate::text;
use crate::time;

verus! {

/// The status of a call that went well.
pub const NO_ERROR: u32 = 0;

/// The status of a call that needs administrator rights.
pub const ERROR_ACCESS_DENIED: u32 = 5;

/// The status of a call that would add what is there already.
pub const ERROR_OBJECT_ALREADY_EXISTS: u32 = 5010;

pub const NO_DEFAULT_ROUTE: &'static str = "no usable default IPv4 route was found";

pub const NEEDS_RIGHTS: &'static str = "; this needs administrator rights";

/// One row of the route table.
#[derive(Debug, Clone, Copy, PartialEq, Eq, Structural)]
pub struct RouteRow {
    pub destination: Ipv4,
    pub prefix_length: u8,
    /// The gateway. The unspecified address means on-link.
    pub next_hop: Ipv4,
    pub interface_index: u32,
    pub metric: u32,
}

/// A way out of the machine: the gateway, the interface and the route's metric.
pub type Candidate = (Ipv4, u32, u32);

/// The default routes among some rows that have a gateway.
pub open spec fn candidates_of(rows: Seq<RouteRow>) -> Seq<Candidate>
    decreases rows.len(),
{
    if rows.len() == 0 {
        Seq::<Candidate>::empty()
    } else {
        let before = candidates_of(rows.drop_last());
        let row = rows.last();
        if row.prefix_length == 0 && row.next_hop.0 != 0 {
            before.push((row.next_hop, row.interface_index, row.metric))
        } else {
            before
        }
    }
}

/// Every default route that has a gateway.
///
/// Only a prefix of no bits counts, so the two halves of a split default
/// (`0.0.0.0/1` and `128.0.0.0/1`) are never mistaken for the physical route,
/// and an on-link default -- one with no gateway to send bypass traffic to -- is
/// skipped.
pub fn default_ipv4_route_candidates(rows: &Vec<RouteRow>) -> (r: Vec<Candidate>)
    ensures
        r@ == candidates_of(rows@),
{
    let mut r: Vec<Candidate> = Vec::new();
    let mut at: usize = 0;
    assert(rows@.take(0) =~= Seq::<RouteRow>::empty());
    assert(r@ =~= Seq::<Candidate>::empty());
    while at < rows.len()
        invariant
            at <= rows@.len(),
            r@ == candidates_of(rows@.take(at as int)),
        decreases rows@.len() - at,
    {
        assert(rows@.take(at + 1).drop_last() =~= rows@.take(at as int));
        let row: RouteRow = rows[at];
        if row.prefix_length == 0 && row.next_hop.0 != 0 {
            r.push((row.next_hop, row.interface_index, row.metric));
        }
        at = at + 1;
    }
    assert(rows@.take(at as int) =~= rows@);
    r
}

/// What a way out costs: the route's metric and the interface's. An interface
/// that will not say ranks last.
pub open spec fn route_rank(candidate: Candidate, interface_metric: Option<u32>) -> int {
    candidate.2 + match interface_metric {
        Some(metric) => metric as int,
        None => u32::MAX as int,
    }
}

/// The cheapest of the first `n` ways out, and the first of them on a tie.
pub open spec fn cheapest(
    candidates: Seq<Candidate>,
    metrics: Seq<Option<u32>>,
    n: nat,
) -> Option<int>
    decreases n,
{
    if n == 0 {
        None
    } else {
        match cheapest(candidates, metrics, (n - 1) as nat) {
            Some(best) => if route_rank(candidates[n - 1], metrics[n - 1]) < route_rank(
                candidates[best],
                metrics[best],
            ) {
                Some(n - 1)
            } else {
                Some(best)
            },
            None => Some(n - 1),
        }
    }
}

fn rank_of(candidate: Candidate, interface_metric: Option<u32>) -> (r: u64)
    ensures
        r == route_rank(candidate, interface_metric),
{
    let metric: u64 = match interface_metric {
        Some(metric) => metric as u64,
        None => u32::MAX as u64,
    };
    candidate.2 as u64 + metric
}

/// Picks the default route the operating system itself would, given the metric
/// of each candidate's interface.
///
/// The stack chooses between default routes on the route metric *plus* the
/// metric of the interface it leaves by. On a laptop with Ethernet and Wi-Fi
/// both up, both default routes commonly carry route metric 0, and picking the
/// wrong one pins the relay and node bypass routes to an interface whose gateway
/// cannot reach them. A route whose interface will not answer is still a route:
/// it ranks last rather than being dropped, so an unreadable row cannot leave a
/// machine that does have a way out looking like it has none.
pub fn rank_default_routes(candidates: &Vec<Candidate>, metrics: &Vec<Option<u32>>) -> (r: Option<
    (Ipv4, u32),
>)
    requires
        candidates@.len() == metrics@.len(),
    ensures
        r == match cheapest(candidates@, metrics@, candidates@.len()) {
            Some(best) => Some((candidates@[best].0, candidates@[best].1)),
            None => None,
        },
{
    let mut best: Option<usize> = None;
    let mut at: usize = 0;
    while at < candidates.len()
        invariant
            at <= candidates@.len() == metrics@.len(),
            match cheapest(candidates@, metrics@, at as nat) {
                Some(i) => best matches Some(found) && found == i && found < at,
                None => best is None && at == 0,
            },
        decreases candidates@.len() - at,
    {
        let better: bool = match best {
            Some(i) => rank_of(candidates[at], metrics[at]) < rank_of(candidates[i], metrics[i]),
            None => true,
        };
        if better {
            best = Some(at);
        }
        at = at + 1;
    }
    match best {
        Some(i) => Some((candidates[i].0, candidates[i].1)),
        None => None,
    }
}

/// The gateway and interface that the machine leaves by.
pub fn default_ipv4_route(candidates: &Vec<Candidate>, metrics: &Vec<Option<u32>>) -> (r: Result<
    (Ipv4, u32),
    String,
>)
    requires
        candidates@.len() == metrics@.len(),
    ensures
        match cheapest(candidates@, metrics@, candidates@.len()) {
            Some(best) => r == Ok::<(Ipv4, u32), String>(
                (candidates@[best].0, candidates@[best].1),
            ),
            None => r matches Err(message) && message@ == NO_DEFAULT_ROUTE@,
        },
{
    match rank_default_routes(candidates, metrics) {
        Some(route) => Ok(route),
        None => Err(NO_DEFAULT_ROUTE.to_owned()),
    }
}

/// The route that is picked is one of the candidates, no other is cheaper, and
/// one is picked whenever there is any: a machine that has a way out never looks
/// as if it had none.
pub proof fn the_cheapest_way_out_is_picked(
    candidates: Seq<Candidate>,
    metrics: Seq<Option<u32>>,
    n: nat,
)
    requires
        n <= candidates.len(),
        candidates.len() == metrics.len(),
    ensures
        cheapest(candidates, metrics, n) is Some <==> n > 0,
        cheapest(candidates, metrics, n) matches Some(best) ==> 0 <= best < n && forall|i: int|
            0 <= i < n ==> route_rank(candidates[best], metrics[best]) <= route_rank(
                #[trigger] candidates[i],
                metrics[i],
            ),
    decreases n,
{
    if n > 0 {
        the_cheapest_way_out_is_picked(candidates, metrics, (n - 1) as nat);
    }
}

/// How long a measured route MTU stays usable before it is read again.
///
/// The measurement is microseconds, so this is not about saving work: it is
/// about how long a wrong answer could survive. A laptop moving from Ethernet to
/// Wi-Fi, or onto a phone hotspot, changes the real budget, and a cached value
/// that is too *large* is the harmful direction -- it fragments or silently
/// drops every full-size game packet until it expires. Half a minute covers the
/// burst of lookups one session start makes across its endpoints, and repeated
/// restarts while a user tunes their setup, without letting a stale figure
/// outlive a network change by long.
pub const ROUTE_MTU_TTL: u64 = 30_000_000_000;

/// A measured route: where it leads, its MTU, and when it was measured.
pub type MeasuredRoute = (Ipv4, u16, u64);

/// The link MTUs of routes measured lately.
pub struct RouteMtuCache {
    pub routes: Vec<MeasuredRoute>,
}

/// Whether a measurement is still usable.
pub open spec fn is_recent(route: MeasuredRoute, now: u64) -> bool {
    time::elapsed(now, route.2) < ROUTE_MTU_TTL
}

/// The measurement of a destination that is still usable.
pub open spec fn remembered_mtu(routes: Seq<MeasuredRoute>, destination: Ipv4, now: u64) -> Option<
    u16,
>
    decreases routes.len(),
{
    if routes.len() == 0 {
        None
    } else if routes.last().0 == destination {
        if is_recent(routes.last(), now) {
            Some(routes.last().1)
        } else {
            None
        }
    } else {
        remembered_mtu(routes.drop_last(), destination, now)
    }
}

/// The measurements that are still usable, without those of one destination.
pub open spec fn others(routes: Seq<MeasuredRoute>, destination: Ipv4, now: u64) -> Seq<
    MeasuredRoute,
>
    decreases routes.len(),
{
    if routes.len() == 0 {
        routes
    } else {
        let before = others(routes.drop_last(), destination, now);
        if routes.last().0 != destination && is_recent(routes.last(), now) {
            before.push(routes.last())
        } else {
            before
        }
    }
}

impl RouteMtuCache {
    pub fn new() -> (r: Self)
        ensures
            r.routes@.len() == 0,
    {
        RouteMtuCache { routes: Vec::new() }
    }

    /// The link MTU of the route to `destination`, where it was measured lately.
    pub fn get(&self, destination: Ipv4, now: u64) -> (r: Option<u16>)
        ensures
            r == remembered_mtu(self.routes@, destination, now),
    {
        let mut at: usize = self.routes.len();
        assert(self.routes@.take(at as int) =~= self.routes@);
        while at > 0
            invariant
                at <= self.routes@.len(),
                remembered_mtu(self.routes@, destination, now) == remembered_mtu(
                    self.routes@.take(at as int),
                    destination,
                    now,
                ),
            decreases at,
        {
            let ghost head = self.routes@.take(at as int);
            assert(head.last() == self.routes@[at - 1]);
            assert(head.drop_last() =~= self.routes@.take(at - 1));
            let route: MeasuredRoute = self.routes[at - 1];
            if route.0 == destination {
                return if time::since(now, route.2) < ROUTE_MTU_TTL {
                    Some(route.1)
                } else {
                    None
                };
            }
            at = at - 1;
        }
        None
    }

    /// Remembers a measurement. Expired ones are dropped here rather than on a
    /// timer: they are by tunnel endpoint, so they are few, and this is the only
    /// thing that ever touches them.
    pub fn store(&mut self, destination: Ipv4, mtu: u16, now: u64)
        ensures
            final(self).routes@ == others(old(self).routes@, destination, now).push(
                (destination, mtu, now),
            ),
    {
        let ghost all = self.routes@;
        let mut kept: Vec<MeasuredRoute> = Vec::new();
        let mut at: usize = 0;
        assert(all.take(0) =~= Seq::<MeasuredRoute>::empty());
        assert(kept@ =~= others(all.take(0), destination, now));
        while at < self.routes.len()
            invariant
                at <= self.routes@.len(),
                all == self.routes@,
                kept@ == others(all.take(at as int), destination, now),
            decreases self.routes@.len() - at,
        {
            assert(all.take(at + 1).drop_last() =~= all.take(at as int));
            let route: MeasuredRoute = self.routes[at];
            if route.0 != destination && time::since(now, route.2) < ROUTE_MTU_TTL {
                kept.push(route);
            }
            at = at + 1;
        }
        assert(all.take(at as int) =~= all);
        kept.push((destination, mtu, now));
        self.routes = kept;
    }
}

/// Drops every measurement. Worth calling from anything that knows the uplink
/// changed underneath, which is the one event that waiting alone can only
/// outlast.
pub fn invalidate_route_mtu_cache(cache: &mut RouteMtuCache)
    ensures
        final(cache).routes@.len() == 0,
{
    cache.routes = Vec::new();
}

proof fn lemma_others_keep(
    routes: Seq<MeasuredRoute>,
    destination: Ipv4,
    other: Ipv4,
    now: u64,
)
    requires
        other != destination,
    ensures
        remembered_mtu(routes, other, now) matches Some(mtu) ==> remembered_mtu(
            others(routes, destination, now),
            other,
            now,
        ) == Some(mtu),
    decreases routes.len(),
{
    if routes.len() > 0 {
        lemma_others_keep(routes.drop_last(), destination, other, now);
        let before = others(routes.drop_last(), destination, now);
        if routes.last().0 != destination && is_recent(routes.last(), now) {
            assert(before.push(routes.last()).drop_last() =~= before);
        }
    }
}

/// What was measured is answered until it expires, and nothing that was measured
/// of another destination is lost by it.
pub proof fn a_measurement_is_answered_until_it_expires(
    routes: Seq<MeasuredRoute>,
    destination: Ipv4,
    other: Ipv4,
    mtu: u16,
    stored: u64,
    now: u64,
)
    requires
        other != destination,
    ensures
        ({
            let after = others(routes, destination, stored).push((destination, mtu, stored));
            &&& remembered_mtu(after, destination, now) == if time::elapsed(now, stored)
                < ROUTE_MTU_TTL {
                Some(mtu)
            } else {
                None
            }
            &&& remembered_mtu(routes, other, stored) matches Some(known) ==> remembered_mtu(
                after,
                other,
                stored,
            ) == Some(known)
        }),
{
    let kept = others(routes, destination, stored);
    assert(kept.push((destination, mtu, stored)).drop_last() =~= kept);
    lemma_others_keep(routes, destination, other, stored);
}

/// A link MTU as the operating system reports it, made safe to use.
pub fn usable_link_mtu(reported: u32) -> (r: u16)
    ensures
        r == mtu::normalized(
            if reported <= u16::MAX {
                reported as u16
            } else {
                u16::MAX
            },
        ),
        mtu::MIN_TUNNEL_MTU <= r <= mtu::LINK_MTU,
{
    let short: u16 = if reported <= u16::MAX as u32 {
        reported as u16
    } else {
        u16::MAX
    };
    normalize_link_mtu(short)
}

/// How long a just-created adapter is given to publish its interface.
pub const INTERFACE_READY_TIMEOUT: u64 = 3_000_000_000;

/// What is configured of an interface.
#[derive(Debug, Clone, Copy, PartialEq, Eq, Structural)]
pub struct InterfaceRow {
    pub mtu: u32,
    pub metric: u32,
    pub use_automatic_metric: bool,
    pub dad_transmits: u32,
    pub site_prefix_length: u32,
    pub router_discovery: bool,
    pub disable_default_routes: bool,
}

/// The row of a tunnel adapter: its MTU, a fixed low metric so that it is
/// preferred, and no duplicate-address probing to delay it coming up. A metric
/// is ignored unless the automatic one is switched off, and a point-to-point
/// tunnel address cannot collide.
pub open spec fn tunnel_row(row: InterfaceRow, mtu: u16) -> InterfaceRow {
    InterfaceRow {
        mtu: mtu as u32,
        metric: 5,
        use_automatic_metric: false,
        dad_transmits: 0,
        site_prefix_length: 0,
        ..row
    }
}

/// What to write to a tunnel adapter's interface, given what reading its row came
/// to, or nothing yet.
///
/// The adapter has only just been created, so its interface may not be
/// registered: it is read again until `deadline`.
pub fn configure_tunnel_interface(
    read: Result<InterfaceRow, String>,
    mtu: u16,
    deadline: u64,
    now: u64,
) -> (r: Result<Option<InterfaceRow>, String>)
    ensures
        match read {
            Ok(row) => r == Ok::<Option<InterfaceRow>, String>(Some(tunnel_row(row, mtu))),
            Err(error) => if now >= deadline {
                r == Err::<Option<InterfaceRow>, String>(error)
            } else {
                r == Ok::<Option<InterfaceRow>, String>(None)
            },
        },
{
    match read {
        Ok(row) => Ok(
            Some(
                InterfaceRow {
                    mtu: mtu as u32,
                    metric: 5,
                    use_automatic_metric: false,
                    dad_transmits: 0,
                    site_prefix_length: 0,
                    router_discovery: row.router_discovery,
                    disable_default_routes: row.disable_default_routes,
                },
            ),
        ),
        Err(error) => if now >= deadline {
            Err(error)
        } else {
            Ok(None)
        },
    }
}

/// An error number in brackets, and what it takes where rights are missing.
pub open spec fn status_text(status: u32) -> Seq<char> {
    " (error "@ + text::decimal(status as nat) + ")"@ + if status == ERROR_ACCESS_DENIED {
        NEEDS_RIGHTS@
    } else {
        Seq::<char>::empty()
    }
}

fn status_of(status: u32) -> (r: String)
    ensures
        r@ == status_text(status),
{
    let mut r = text::concat3(" (error ", text::decimal_text(status as u64).as_str(), ")");
    if status == ERROR_ACCESS_DENIED {
        r.append(NEEDS_RIGHTS);
    } else {
        assert(r@ + Seq::<char>::empty() =~= r@);
    }
    r
}

/// What configuring a tunnel adapter's interface came to.
pub fn interface_configured(interface_index: u32, status: u32) -> (r: Result<(), String>)
    ensures
        r is Ok <==> status == NO_ERROR,
        r matches Err(message) ==> message@ == "could not configure GamePath interface "@
            + text::decimal(interface_index as nat) + " (error "@ + text::decimal(status as nat)
            + ")"@,
{
    if status == NO_ERROR {
        return Ok(());
    }
    Err(
        text::concat5(
            "could not configure GamePath interface ",
            text::decimal_text(interface_index as u64).as_str(),
            " (error ",
            text::decimal_text(status as u64).as_str(),
            ")",
        ),
    )
}

/// What setting an interface's MTU came to.
pub fn interface_mtu_written(mtu: u16, interface_index: u32, status: u32) -> (r: Result<(), String>)
    ensures
        r is Ok <==> status == NO_ERROR,
        r matches Err(message) ==> message@ == "Windows refused MTU "@ + text::decimal(mtu as nat)
            + " on interface "@ + text::decimal(interface_index as nat) + " (error "@
            + text::decimal(status as nat) + ")"@,
{
    if status == NO_ERROR {
        return Ok(());
    }
    let mut message = text::concat5(
        "Windows refused MTU ",
        text::decimal_text(mtu as u64).as_str(),
        " on interface ",
        text::decimal_text(interface_index as u64).as_str(),
        " (error ",
    );
    message.append(text::decimal_text(status as u64).as_str());
    message.append(")");
    Err(message)
}

/// What switching an interface's router discovery off came to.
pub fn router_discovery_disabled(interface_index: u32, status: u32) -> (r: Result<(), String>)
    ensures
        r is Ok <==> status == NO_ERROR,
        r matches Err(message) ==> message@
            == "could not disable IPv6 router discovery on interface "@ + text::decimal(
            interface_index as nat,
        ) + status_text(status),
{
    if status == NO_ERROR {
        return Ok(());
    }
    Err(
        text::concat3(
            "could not disable IPv6 router discovery on interface ",
            text::decimal_text(interface_index as u64).as_str(),
            status_of(status).as_str(),
        ),
    )
}

/// What pointing an adapter at its resolvers came to.
pub fn interface_dns_written(status: u32) -> (r: Result<(), String>)
    ensures
        r is Ok <==> status == NO_ERROR,
        r matches Err(message) ==> message@
            == "Windows refused the DNS servers for the tunnel adapter"@ + status_text(status),
{
    if status == NO_ERROR {
        return Ok(());
    }
    Err(
        text::concat2(
            "Windows refused the DNS servers for the tunnel adapter",
            status_of(status).as_str(),
        ),
    )
}

/// The interface that holds an address, in a table of addresses and the
/// interfaces they are assigned to.
pub open spec fn holder(rows: Seq<(Ipv4, u32)>, address: Ipv4) -> Option<u32>
    decreases rows.len(),
{
    if rows.len() == 0 {
        None
    } else if rows[0].0 == address {
        Some(rows[0].1)
    } else {
        holder(rows.skip(1), address)
    }
}

/// The interface index that currently holds `address`, or `None` when no adapter
/// has it.
pub fn interface_index_for_address(rows: &Vec<(Ipv4, u32)>, address: Ipv4) -> (r: Option<u32>)
    ensures
        r == holder(rows@, address),
{
    let mut at: usize = 0;
    assert(rows@.skip(0) =~= rows@);
    while at < rows.len()
        invariant
            at <= rows@.len(),
            holder(rows@, address) == holder(rows@.skip(at as int), address),
        decreases rows@.len() - at,
    {
        assert(rows@.skip(at as int).skip(1) =~= rows@.skip(at + 1));
        if rows[at].0 == address {
            return Some(rows[at].1);
        }
        at = at + 1;
    }
    None
}

/// Whether `interface_index` still holds an address, given what looking the
/// address up came to.
///
/// Used to tell a live adapter from one that has already been torn down, where a
/// wrong answer costs a working connection, so a failed lookup reports "not
/// active" rather than guessing.
pub fn address_is_active(found: Result<Option<u32>, String>, interface_index: u32) -> (r: bool)
    ensures
        r == (found == Ok::<Option<u32>, String>(Some(interface_index))),
{
    match found {
        Ok(Some(index)) => index == interface_index,
        _ => false,
    }
}

/// The interface that owns an address just assigned, or nothing yet.
///
/// The negotiated address is reported before the adapter finishes appearing in
/// the tables, so the lookup is repeated until `deadline`.
pub fn wait_for_interface_index(
    found: Result<Option<u32>, String>,
    address: Ipv4,
    deadline: u64,
    now: u64,
) -> (r: Result<Option<u32>, String>)
    ensures
        match found {
            Err(_) => r == found,
            Ok(Some(_)) => r == found,
            Ok(None) => if now >= deadline {
                r matches Err(message) && message@ == "Windows assigned "@ + address.dotted()
                    + " but its network adapter did not become ready"@
            } else {
                r == found
            },
        },
{
    match found {
        Ok(None) => if now >= deadline {
            Err(
                text::concat3(
                    "Windows assigned ",
                    address.to_text().as_str(),
                    " but its network adapter did not become ready",
                ),
            )
        } else {
            Ok(None)
        },
        other => other,
    }
}

/// Whether a row of the IPv6 route table is a default route of an interface.
pub open spec fn is_default_of(row: (u32, u8), interface_index: u32) -> bool {
    row.0 == interface_index && row.1 == 0
}

/// The places of an interface's default routes in the IPv6 route table, whose
/// rows are given by their interface and the length of their prefix.
///
/// The next hop of an advertised route is a link-local address that is never
/// seen, so the rows are found by walking the table rather than reconstructed
/// and deleted by name.
pub fn ipv6_default_routes(rows: &Vec<(u32, u8)>, interface_index: u32) -> (r: Vec<usize>)
    ensures
        forall|i: int, j: int| 0 <= i < j < r@.len() ==> r@[i] < r@[j],
        forall|k: usize|
            #![trigger r@.contains(k)]
            r@.contains(k) <==> k < rows@.len() && is_default_of(rows@[k as int], interface_index),
{
    let mut r: Vec<usize> = Vec::new();
    let mut at: usize = 0;
    while at < rows.len()
        invariant
            at <= rows@.len(),
            forall|i: int| 0 <= i < r@.len() ==> r@[i] < at,
            forall|i: int, j: int| 0 <= i < j < r@.len() ==> r@[i] < r@[j],
            forall|k: usize|
                #![trigger r@.contains(k)]
                r@.contains(k) <==> k < at && is_default_of(rows@[k as int], interface_index),
        decreases rows@.len() - at,
    {
        let ghost before = r@;
        if rows[at].0 == interface_index && rows[at].1 == 0 {
            r.push(at);
            assert forall|k: usize| #![trigger r@.contains(k)] r@.contains(k) <==> k < at + 1
                && is_default_of(rows@[k as int], interface_index) by {
                if before.contains(k) {
                    let i = before.index_of(k);
                    assert(r@[i] == k);
                }
                if r@.contains(k) {
                    let i = r@.index_of(k);
                    if i < before.len() {
                        assert(before[i] == k);
                    }
                }
                assert(r@[before.len() as int] == at);
            }
        }
        at = at + 1;
    }
    r
}

/// The link MTU of an interface, where its row could be read.
pub fn interface_mtu(read: Result<InterfaceRow, String>) -> (r: Result<u32, String>)
    ensures
        match read {
            Ok(row) => r == Ok::<u32, String>(row.mtu),
            Err(error) => r == Err::<u32, String>(error),
        },
{
    match read {
        Ok(row) => Ok(row.mtu),
        Err(error) => Err(error),
    }
}

/// The row with another MTU, where that is a change.
///
/// The site prefix length that is read back can be one that is refused when it
/// is written. Zero is the documented way to leave it unchanged.
pub fn set_interface_mtu(row: InterfaceRow, mtu: u16) -> (r: Option<InterfaceRow>)
    ensures
        r == if row.mtu == mtu {
            None
        } else {
            Some(InterfaceRow { mtu: mtu as u32, site_prefix_length: 0, ..row })
        },
{
    if row.mtu == mtu as u32 {
        return None;
    }
    Some(
        InterfaceRow {
            mtu: mtu as u32,
            metric: row.metric,
            use_automatic_metric: row.use_automatic_metric,
            dad_transmits: row.dad_transmits,
            site_prefix_length: 0,
            router_discovery: row.router_discovery,
            disable_default_routes: row.disable_default_routes,
        },
    )
}

/// The row that acts on no further router advertisement, where that is a change.
pub fn disable_ipv6_router_discovery(row: InterfaceRow) -> (r: Option<InterfaceRow>)
    ensures
        r == if row.router_discovery {
            Some(InterfaceRow { router_discovery: false, disable_default_routes: true, ..row })
        } else {
            None
        },
{
    if !row.router_discovery {
        return None;
    }
    Some(
        InterfaceRow {
            mtu: row.mtu,
            metric: row.metric,
            use_automatic_metric: row.use_automatic_metric,
            dad_transmits: row.dad_transmits,
            site_prefix_length: row.site_prefix_length,
            router_discovery: false,
            disable_default_routes: true,
        },
    )
}

/// The outcome of keeping a tunnel adapter from holding an IPv6 default route.
///
/// Both halves are needed. Disabling router discovery stops the next
/// advertisement being acted on; the sweep removes one that already arrived.
/// The sweep is the half that fixes the symptom, so it is done first, whatever
/// the interface lets be configured afterwards, and its error comes first.
pub fn disable_ipv6_default_route(
    swept: Result<(), String>,
    configured: Result<(), String>,
) -> (r: Result<(), String>)
    ensures
        r is Ok <==> swept is Ok && configured is Ok,
        swept is Err ==> r == swept,
        swept is Ok ==> r == configured,
{
    match swept {
        Err(error) => Err(error),
        Ok(_) => configured,
    }
}

/// What is said where reading an interface failed.
pub fn interface_error(interface_index: u32, status: u32) -> (r: String)
    ensures
        r@ == "could not read interface "@ + text::decimal(interface_index as nat) + " (error "@
            + text::decimal(status as nat) + ")"@,
{
    text::concat5(
        "could not read interface ",
        text::decimal_text(interface_index as u64).as_str(),
        " (error ",
        text::decimal_text(status as u64).as_str(),
        ")",
    )
}

/// What a sweep of an interface's IPv6 default routes came to.
pub fn swept_routes(failures: u32, interface_index: u32) -> (r: Result<(), String>)
    ensures
        r is Ok <==> failures == 0,
        r matches Err(message) ==> message@ == "could not remove "@ + text::decimal(failures as nat)
            + " IPv6 default route(s) from interface "@ + text::decimal(interface_index as nat),
{
    if failures == 0 {
        return Ok(());
    }
    let mut message = text::concat3(
        "could not remove ",
        text::decimal_text(failures as u64).as_str(),
        " IPv6 default route(s) from interface ",
    );
    message.append(text::decimal_text(interface_index as u64).as_str());
    Err(message)
}

/// Builds a route row. An unspecified `next_hop` means on-link; anything else is
/// a gateway the packet is handed to.
pub fn forward_row(
    destination: Ipv4,
    prefix_length: u8,
    next_hop: Ipv4,
    interface_index: u32,
    metric: u32,
) -> (r: RouteRow)
    ensures
        r == (RouteRow { destination, prefix_length, next_hop, interface_index, metric }),
{
    RouteRow { destination, prefix_length, next_hop, interface_index, metric }
}

/// What to do once a route has been added, or was to be.
pub enum AddStep {
    Done,
    /// A route for the same prefix is there and may point somewhere else: it is
    /// deleted rather than left to win, and this one added again.
    Replace,
    Failed(String),
}

/// What is said of a route that was refused.
pub open spec fn refused_route_text(row: RouteRow, status: u32) -> Seq<char> {
    "Windows could not route "@ + row.destination.dotted() + "/"@ + text::decimal(
        row.prefix_length as nat,
    ) + " through interface "@ + text::decimal(row.interface_index as nat) + status_text(status)
}

/// What adding a route came to. Replacing what is there makes this idempotent: a
/// leftover from a session that did not get to clean up is replaced instead of
/// failing the next one.
pub fn route_added(row: RouteRow, status: u32) -> (r: AddStep)
    ensures
        match r {
            AddStep::Done => status == NO_ERROR,
            AddStep::Replace => status == ERROR_OBJECT_ALREADY_EXISTS,
            AddStep::Failed(message) => status != NO_ERROR && status != ERROR_OBJECT_ALREADY_EXISTS
                && message@ == refused_route_text(row, status),
        },
{
    if status == NO_ERROR {
        return AddStep::Done;
    }
    if status == ERROR_OBJECT_ALREADY_EXISTS {
        return AddStep::Replace;
    }
    let mut message = text::concat5(
        "Windows could not route ",
        row.destination.to_text().as_str(),
        "/",
        text::decimal_text(row.prefix_length as u64).as_str(),
        " through interface ",
    );
    message.append(text::decimal_text(row.interface_index as u64).as_str());
    message.append(status_of(status).as_str());
    AddStep::Failed(message)
}

/// What adding a route came to once the one that was there had been deleted.
pub fn route_replaced(row: RouteRow, status: u32) -> (r: Result<(), String>)
    ensures
        r is Ok <==> status == NO_ERROR,
        r matches Err(message) ==> message@ == "Windows could not replace the existing route for "@
            + row.destination.dotted() + "/"@ + text::decimal(row.prefix_length as nat)
            + " on interface "@ + text::decimal(row.interface_index as nat) + " (error "@
            + text::decimal(status as nat) + ")"@,
{
    if status == NO_ERROR {
        return Ok(());
    }
    let mut message = text::concat5(
        "Windows could not replace the existing route for ",
        row.destination.to_text().as_str(),
        "/",
        text::decimal_text(row.prefix_length as u64).as_str(),
        " on interface ",
    );
    message.append(text::decimal_text(row.interface_index as u64).as_str());
    message.append(" (error ");
    message.append(text::decimal_text(status as u64).as_str());
    message.append(")");
    Err(message)
}

/// The texts of some addresses.
pub open spec fn dotted_texts(addresses: Seq<Ipv4>) -> Seq<Seq<char>> {
    Seq::new(addresses.len(), |i: int| addresses[i].dotted())
}

/// The resolvers of an adapter in the form that it is given them, or nothing to
/// clear them.
pub fn dns_server_list(servers: &Vec<Ipv4>) -> (r: Option<String>)
    ensures
        r is None <==> servers@.len() == 0,
        r matches Some(list) ==> list@ == text::separated(dotted_texts(servers@), ","@),
{
    if servers.len() == 0 {
        return None;
    }
    let mut texts: Vec<String> = Vec::new();
    let mut at: usize = 0;
    while at < servers.len()
        invariant
            at <= servers@.len(),
            texts@.len() == at,
            forall|i: int| 0 <= i < at ==> (#[trigger] texts@[i])@ == servers@[i].dotted(),
        decreases servers@.len() - at,
    {
        texts.push(servers[at].to_text());
        at = at + 1;
    }
    assert(text::string_views(texts@) =~= dotted_texts(servers@));
    Some(text::join(&texts, ","))
}

/// A way out is a route of no bits with a gateway, in the order of the table.
pub proof fn a_way_out_has_a_gateway(rows: Seq<RouteRow>, row: RouteRow)
    ensures
        candidates_of(rows.push(row)) == if row.prefix_length == 0 && row.next_hop.0 != 0 {
            candidates_of(rows).push((row.next_hop, row.interface_index, row.metric))
        } else {
            candidates_of(rows)
        },
        candidates_of(Seq::<RouteRow>::empty()).len() == 0,
{
    assert(rows.push(row).drop_last() =~= rows);
}

/// Of the ways out the one is picked whose own metric and whose interface's
/// metric come to the least, the first of them where two come to the same; an
/// interface whose metric is not known comes after all that are.
pub proof fn the_least_metric_is_picked(
    candidates: Seq<Candidate>,
    metrics: Seq<Option<u32>>,
    n: nat,
    i: int,
)
    requires
        n <= candidates.len(),
        candidates.len() == metrics.len(),
        0 <= i < n,
    ensures
        cheapest(candidates, metrics, n) matches Some(best) && 0 <= best < n && {
            let least = candidates[best].2 + (match metrics[best] {
                Some(metric) => metric as int,
                None => 0xffff_ffff,
            });
            let other = candidates[i].2 + (match metrics[i] {
                Some(metric) => metric as int,
                None => 0xffff_ffff,
            });
            least < other || (least == other && best <= i)
        },
    decreases n,
{
    the_cheapest_way_out_is_picked(candidates, metrics, n);
    if n > 1 {
        if i < n - 1 {
            the_least_metric_is_picked(candidates, metrics, (n - 1) as nat, i);
        } else {
            the_cheapest_way_out_is_picked(candidates, metrics, (n - 1) as nat);
        }
    } else {
        assert(cheapest(candidates, metrics, 0) is None);
    }
}

/// The holder of an address is the interface of the first row with it.
pub proof fn the_first_row_holds_an_address(
    rows: Seq<(Ipv4, u32)>,
    address: Ipv4,
    i: int,
)
    requires
        0 <= i < rows.len(),
        rows[i].0 == address,
        forall|j: int| 0 <= j < i ==> (#[trigger] rows[j]).0 != address,
    ensures
        holder(rows, address) == Some(rows[i].1),
    decreases i,
{
    if i > 0 {
        assert(rows[0].0 != address);
        let rest = rows.skip(1);
        assert(rest[i - 1] == rows[i]);
        assert forall|j: int| 0 <= j < i - 1 implies (#[trigger] rest[j]).0 != address by {
            assert(rest[j] == rows[j + 1]);
        }
        the_first_row_holds_an_address(rest, address, i - 1);
    }
}

/// An address that no row has is held by nobody.
pub proof fn an_unknown_address_has_no_holder(rows: Seq<(Ipv4, u32)>, address: Ipv4)
    requires
        forall|j: int| 0 <= j < rows.len() ==> (#[trigger] rows[j]).0 != address,
    ensures
        holder(rows, address) is None,
    decreases rows.len(),
{
    if rows.len() > 0 {
        assert(rows[0].0 != address);
        let rest = rows.skip(1);
        assert forall|j: int| 0 <= j < rest.len() implies (#[trigger] rest[j]).0 != address by {
            assert(rest[j] == rows[j + 1]);
        }
        an_unknown_address_has_no_holder(rest, address);
    }
}

/// The tunnel's interface gets the tunnel's MTU and a fixed low metric, skips
/// the wait for duplicate addresses, and keeps what else it has.
pub proof fn a_tunnel_row_sets_what_it_names(row: InterfaceRow, mtu: u16)
    ensures
        tunnel_row(row, mtu).mtu == mtu,
        tunnel_row(row, mtu).metric == 5,
        !tunnel_row(row, mtu).use_automatic_metric,
        tunnel_row(row, mtu).dad_transmits == 0,
        tunnel_row(row, mtu).site_prefix_length == 0,
        tunnel_row(row, mtu).router_discovery == row.router_discovery,
        tunnel_row(row, mtu).disable_default_routes == row.disable_default_routes,
{
}

/// A measurement is good for half a minute.
pub proof fn a_measurement_lasts_half_a_minute(route: MeasuredRoute, now: u64)
    requires
        route.2 <= now,
    ensures
        is_recent(route, now) <==> now - route.2 < 30_000_000_000,
        remembered_mtu(seq![route], route.0, now) == if now - route.2 < 30_000_000_000 {
            Some(route.1)
        } else {
            None
        },
{
}

} // verus!
