//! What the packet capture that feeds a running session installs and takes.
//!
//! All-traffic mode puts an adapter in front of the default route; split mode
//! filters in the kernel. Both are torn down and replaced by a policy change
//! without the multipath session underneath ever restarting.

use vstd::prelude::*;

use crate::dns;
use crate::mtu::EffectiveMtu;
use crate::net;
use crate::net::{Endpoint, Ipv4};
use crate::netconfig::RouteRow;
use crate::packet;
use crate::policy;
use crate::policy::RuleSpec;
use crate::text;

verus! {

pub const NO_SESSION: &'static str = "start the multipath session before packet capture";

pub const NO_SPLIT_CAPTURE: &'static str = "live target updates require an active split capture";

pub const NOT_SPLIT: &'static str = "live target updates require split traffic mode";

pub const WINDOWS_ONLY: &'static str = "packet capture is available only on Windows";

/// How traffic is captured.
#[derive(Debug, Clone, Copy, PartialEq, Eq, Structural)]
pub enum CaptureKind {
    All,
    Split,
}

/// Checks what a capture is asked to take, before a live one is dropped: a
/// rejected live rule edit leaves the previous policy fully operational.
pub fn check_request(traffic_mode: &str, rules: &[RuleSpec]) -> (r: Result<CaptureKind, String>)
    ensures
        if traffic_mode@ == "split"@ {
            match policy::compiled("split"@, policy::rule_models(rules@)) {
                Ok(_) => r == Ok::<CaptureKind, String>(CaptureKind::Split),
                Err(why) => r matches Err(message) && message@ == why,
            }
        } else if traffic_mode@ == "all"@ {
            r == Ok::<CaptureKind, String>(CaptureKind::All)
        } else {
            r matches Err(message) && message@ == policy::BAD_MODE@
        },
{
    if text::same(traffic_mode, "split") {
        return match policy::compile("split", rules) {
            Ok(_) => Ok(CaptureKind::Split),
            Err(message) => Err(message),
        };
    }
    if text::same(traffic_mode, "all") {
        return Ok(CaptureKind::All);
    }
    Err(policy::BAD_MODE.to_owned())
}

/// Refuses a live change of targets where there is no split capture to change.
pub fn check_update(split_active: bool, traffic_mode: Option<&str>) -> (r: Result<(), String>)
    ensures
        if !split_active {
            r matches Err(message) && message@ == NO_SPLIT_CAPTURE@
        } else if traffic_mode matches Some(mode) && mode@ == "split"@ {
            r is Ok
        } else {
            r matches Err(message) && message@ == NOT_SPLIT@
        },
{
    if !split_active {
        return Err(NO_SPLIT_CAPTURE.to_owned());
    }
    let split: bool = match traffic_mode {
        Some(mode) => text::same(mode, "split"),
        None => false,
    };
    if split {
        Ok(())
    } else {
        Err(NOT_SPLIT.to_owned())
    }
}

/// The first host of the network that the adapter's address is in.
pub open spec fn gateway_of(address: Ipv4) -> Ipv4 {
    Ipv4::made(address.byte(0), address.byte(1), address.byte(2), 1)
}

/// The next hop of what goes into the tunnel. It has to sit inside the adapter's
/// own /24 for a route to be accepted. A relay hands out 10.203.0.x, so this is
/// 10.203.0.1 there; a direct session's address comes from the node's provider
/// and gets the matching first host of its subnet.
pub fn tunnel_gateway(address: Ipv4) -> (r: Ipv4)
    ensures
        r == gateway_of(address),
{
    let octets = address.octets();
    Ipv4::new(octets[0], octets[1], octets[2], 1)
}

/// The routes that keep some addresses outside the tunnel.
pub open spec fn bypass_routes(addresses: Seq<Ipv4>, gateway: Ipv4, interface: u32) -> Seq<
    RouteRow,
> {
    Seq::new(
        addresses.len(),
        |i: int|
            RouteRow {
                destination: addresses[i],
                prefix_length: 32,
                next_hop: gateway,
                interface_index: interface,
                metric: 1,
            },
    )
}

/// One half of the addresses there are, into the tunnel.
pub open spec fn half_route(destination: u32, gateway: Ipv4, adapter: u32) -> RouteRow {
    RouteRow {
        destination: Ipv4(destination),
        prefix_length: 1,
        next_hop: gateway,
        interface_index: adapter,
        metric: 5,
    }
}

/// The routes that a capture installs.
pub open spec fn capture_routes(
    bypass: Seq<Ipv4>,
    default_gateway: Ipv4,
    default_interface: u32,
    address: Ipv4,
    adapter: u32,
) -> Seq<RouteRow> {
    bypass_routes(bypass, default_gateway, default_interface).push(
        half_route(0, gateway_of(address), adapter),
    ).push(half_route(0x8000_0000, gateway_of(address), adapter))
}

/// The routes to install, in order: what has to keep reaching the Internet
/// directly first, then everything else in two halves rather than one default,
/// so the physical default route is left in place and simply out-specified. They
/// are removed in the opposite order.
pub fn plan_routes(
    bypass: &Vec<Ipv4>,
    default_gateway: Ipv4,
    default_interface: u32,
    address: Ipv4,
    adapter: u32,
) -> (r: Vec<RouteRow>)
    ensures
        r@ == capture_routes(bypass@, default_gateway, default_interface, address, adapter),
{
    let mut r: Vec<RouteRow> = Vec::new();
    let mut at: usize = 0;
    while at < bypass.len()
        invariant
            at <= bypass@.len(),
            r@.len() == at,
            forall|i: int|
                0 <= i < at ==> #[trigger] r@[i] == bypass_routes(
                    bypass@,
                    default_gateway,
                    default_interface,
                )[i],
        decreases bypass@.len() - at,
    {
        r.push(
            RouteRow {
                destination: bypass[at],
                prefix_length: 32,
                next_hop: default_gateway,
                interface_index: default_interface,
                metric: 1,
            },
        );
        at = at + 1;
    }
    assert(r@ =~= bypass_routes(bypass@, default_gateway, default_interface));
    let gateway = tunnel_gateway(address);
    r.push(
        RouteRow {
            destination: Ipv4(0),
            prefix_length: 1,
            next_hop: gateway,
            interface_index: adapter,
            metric: 5,
        },
    );
    r.push(
        RouteRow {
            destination: Ipv4(0x8000_0000),
            prefix_length: 1,
            next_hop: gateway,
            interface_index: adapter,
            metric: 5,
        },
    );
    r
}

/// The addresses that a prefix of so many bits covers.
pub open spec fn block_size(prefix_length: u8) -> nat {
    if prefix_length == 0 {
        0x1_0000_0000
    } else if prefix_length == 1 {
        0x8000_0000
    } else {
        1
    }
}

/// Whether a route of no, one or all bits covers an address.
pub open spec fn covers(row: RouteRow, address: Ipv4) -> bool {
    row.destination.0 <= address.0 < row.destination.0 + block_size(row.prefix_length)
}

/// Whether a row is the most specific of some that cover an address.
pub open spec fn is_taken(rows: Seq<RouteRow>, i: int, address: Ipv4) -> bool {
    &&& 0 <= i < rows.len()
    &&& covers(rows[i], address)
    &&& forall|j: int|
        0 <= j < rows.len() && covers(#[trigger] rows[j], address) ==> rows[j].prefix_length
            <= rows[i].prefix_length
}

/// Every address but those kept out of it goes into the tunnel, whatever default
/// route the machine has, and those leave by the physical gateway: of all routes
/// that cover an address, the most specific one says so.
pub proof fn everything_else_goes_into_the_tunnel(
    bypass: Seq<Ipv4>,
    default_gateway: Ipv4,
    default_interface: u32,
    own: Ipv4,
    adapter: u32,
    default_route: RouteRow,
    address: Ipv4,
    i: int,
)
    requires
        default_route.prefix_length == 0,
        default_route.destination.0 == 0,
        is_taken(
            capture_routes(bypass, default_gateway, default_interface, own, adapter).push(
                default_route,
            ),
            i,
            address,
        ),
    ensures
        ({
            let rows = capture_routes(
                bypass,
                default_gateway,
                default_interface,
                own,
                adapter,
            ).push(default_route);
            if bypass.contains(address) {
                rows[i].next_hop == default_gateway && rows[i].interface_index == default_interface
            } else {
                rows[i].next_hop == gateway_of(own) && rows[i].interface_index == adapter
            }
        }),
{
    let rows = capture_routes(bypass, default_gateway, default_interface, own, adapter).push(
        default_route,
    );
    let n = bypass.len() as int;
    assert(rows[n] == half_route(0, gateway_of(own), adapter));
    assert(rows[n + 1] == half_route(0x8000_0000, gateway_of(own), adapter));
    assert(covers(rows[n], address) || covers(rows[n + 1], address));
    if bypass.contains(address) {
        let k = choose|k: int| 0 <= k < bypass.len() && bypass[k] == address;
        assert(rows[k] == bypass_routes(bypass, default_gateway, default_interface)[k]);
        assert(covers(rows[k], address));
    } else if i < n {
        assert(rows[i] == bypass_routes(bypass, default_gateway, default_interface)[i]);
        assert(bypass[i] == address);
    }
}

/// What a session says of itself to a capture.
pub struct SessionFacts {
    pub virtual_ipv4: Ipv4,
    pub bypass_ips: Vec<Ipv4>,
    pub effective_mtu: EffectiveMtu,
}

/// What a capture needs of the session underneath, which has to be running.
pub fn session_facts(session: Option<SessionFacts>) -> (r: Result<SessionFacts, String>)
    ensures
        match session {
            Some(facts) => r == Ok::<SessionFacts, String>(facts),
            None => r matches Err(message) && message@ == NO_SESSION@,
        },
{
    match session {
        Some(facts) => Ok(facts),
        None => Err(NO_SESSION.to_owned()),
    }
}

/// How far the start of a capture has come.
#[derive(Debug, Clone, Copy, PartialEq, Eq, Structural)]
pub enum CaptureStage {
    Routing,
    /// Every route is there, and the tunnel's resolver is being asked.
    Asking,
    /// The adapter is being pointed at its resolvers.
    Naming,
    Capturing,
    Failed,
}

/// What came of the last step.
pub enum CaptureEvent {
    RouteAdded(Result<(), String>),
    /// Whether the tunnel's resolver answered a name lookup.
    ResolverAsked(bool),
    ResolversSet(Result<(), String>),
}

/// What to do next.
pub enum CaptureAction {
    AddRoute(RouteRow),
    /// Ask this resolver through the tunnel.
    AskResolver(Ipv4),
    /// Point the adapter at these resolvers.
    SetResolvers(Vec<Ipv4>),
    /// The capture runs, and resolves through these.
    Started(Vec<Ipv4>),
    /// The capture did not start: what was done is to be undone.
    Failed(String),
}

/// The start of an all-traffic capture, once the adapter is up.
///
/// Each step is done by the caller, who reports what came of it. What is to be
/// undone is known at every moment.
pub struct CaptureStart {
    pub plan: Vec<RouteRow>,
    /// How many routes of the plan are there.
    pub installed: usize,
    pub gateway: Ipv4,
    /// The resolvers to use, once that is known.
    pub resolvers: Vec<Ipv4>,
    /// Whether the adapter was pointed at them.
    pub named: bool,
    pub stage: CaptureStage,
}

/// The state of a start.
#[verifier::ext_equal]
pub struct StartModel {
    pub plan: Seq<RouteRow>,
    pub installed: int,
    pub gateway: Ipv4,
    pub resolvers: Seq<Ipv4>,
    pub named: bool,
    pub stage: CaptureStage,
}

impl View for CaptureStart {
    type V = StartModel;

    open spec fn view(&self) -> StartModel {
        StartModel {
            plan: self.plan@,
            installed: self.installed as int,
            gateway: self.gateway,
            resolvers: self.resolvers@,
            named: self.named,
            stage: self.stage,
        }
    }
}

pub const OUT_OF_TURN: &'static str = "packet capture reported out of turn";

/// What is logged where the adapter was not pointed at its resolvers. That is not
/// fatal: a session that carries traffic is worth more than this.
pub fn resolvers_refused(error: &str) -> (r: String)
    ensures
        r@ == "name resolution will not go through the tunnel: "@ + error@,
{
    text::concat2("name resolution will not go through the tunnel: ", error)
}

/// What is logged where the tunnel's own resolver did not answer.
pub fn resolver_silent(gateway: Ipv4) -> (r: String)
    ensures
        r@ == gateway.dotted()
            + " did not answer a name lookup, so this session resolves through the public fallback instead; install a resolver on the relay to keep lookups inside it"@,
{
    text::concat2(
        gateway.to_text().as_str(),
        " did not answer a name lookup, so this session resolves through the public fallback instead; install a resolver on the relay to keep lookups inside it",
    )
}

/// Some resolvers, in order.
fn copy_addresses(addresses: &Vec<Ipv4>) -> (r: Vec<Ipv4>)
    ensures
        r@ == addresses@,
{
    let mut r: Vec<Ipv4> = Vec::new();
    r.extend_from_slice(addresses.as_slice());
    assert(r@ =~= addresses@);
    r
}

impl StartModel {
    /// Resolvers are asked and set only once every route is there.
    pub open spec fn wf(self) -> bool {
        &&& 0 <= self.installed <= self.plan.len()
        &&& self.stage == CaptureStage::Routing ==> self.installed < self.plan.len()
        &&& (self.stage == CaptureStage::Asking || self.stage == CaptureStage::Naming || self.named)
            ==> self.installed == self.plan.len()
    }

    /// The routes that have to be removed again, in this order: the last first.
    pub open spec fn undone(self) -> Seq<RouteRow> {
        self.plan.take(self.installed).reverse()
    }

    /// What an event leads to, and what is done next.
    pub open spec fn moves(
        self,
        event: CaptureEvent,
        next: StartModel,
        action: CaptureAction,
    ) -> bool {
        match (self.stage, event) {
            (CaptureStage::Routing, CaptureEvent::RouteAdded(Ok(()))) => {
                let at = self.installed + 1;
                if at < self.plan.len() {
                    &&& next == (StartModel { installed: at, ..self })
                    &&& action == CaptureAction::AddRoute(self.plan[at])
                } else {
                    &&& next == (StartModel { installed: at, stage: CaptureStage::Asking, ..self })
                    &&& action == CaptureAction::AskResolver(self.gateway)
                }
            },
            (CaptureStage::Routing, CaptureEvent::RouteAdded(Err(error))) => {
                &&& next == (StartModel { stage: CaptureStage::Failed, ..self })
                &&& action == CaptureAction::Failed(error)
            },
            (CaptureStage::Asking, CaptureEvent::ResolverAsked(answered)) => {
                let resolvers = dns::resolvers(
                    if answered {
                        Some(self.gateway)
                    } else {
                        None
                    },
                );
                &&& next == (StartModel { resolvers, stage: CaptureStage::Naming, ..self })
                &&& action matches CaptureAction::SetResolvers(servers)
                &&& servers@ == resolvers
            },
            (CaptureStage::Naming, CaptureEvent::ResolversSet(result)) => {
                &&& next == (StartModel {
                    named: result is Ok,
                    stage: CaptureStage::Capturing,
                    ..self
                })
                &&& action matches CaptureAction::Started(servers)
                &&& servers@ == if result is Ok {
                    self.resolvers
                } else {
                    Seq::<Ipv4>::empty()
                }
            },
            _ => {
                &&& next == (StartModel { stage: CaptureStage::Failed, ..self })
                &&& action matches CaptureAction::Failed(message)
                &&& message@ == OUT_OF_TURN@
            },
        }
    }
}

/// What undoes a capture.
pub struct Undo {
    /// Whether the adapter's resolvers are cleared. That comes before the
    /// routes, so there is never a moment where the system is pointed at a
    /// resolver the tunnel can no longer reach.
    pub clear_resolvers: bool,
    /// The routes to remove, in order.
    pub routes: Vec<RouteRow>,
}

impl CaptureStart {
    /// Starts with the first of the routes. There are always the two halves.
    pub fn begin(
        facts: &SessionFacts,
        default_gateway: Ipv4,
        default_interface: u32,
        adapter: u32,
    ) -> (r: (Self, CaptureAction))
        ensures
            r.0@ == (StartModel {
                plan: capture_routes(
                    facts.bypass_ips@,
                    default_gateway,
                    default_interface,
                    facts.virtual_ipv4,
                    adapter,
                ),
                installed: 0,
                gateway: gateway_of(facts.virtual_ipv4),
                resolvers: Seq::<Ipv4>::empty(),
                named: false,
                stage: CaptureStage::Routing,
            }),
            r.0@.wf(),
            r.1 == CaptureAction::AddRoute(r.0@.plan[0]),
    {
        let plan = plan_routes(
            &facts.bypass_ips,
            default_gateway,
            default_interface,
            facts.virtual_ipv4,
            adapter,
        );
        let first: RouteRow = plan[0];
        let start = CaptureStart {
            plan,
            installed: 0,
            gateway: tunnel_gateway(facts.virtual_ipv4),
            resolvers: Vec::new(),
            named: false,
            stage: CaptureStage::Routing,
        };
        assert(start@.resolvers =~= Seq::<Ipv4>::empty());
        (start, CaptureAction::AddRoute(first))
    }

    /// Takes in what came of the last step.
    pub fn next(&mut self, event: CaptureEvent) -> (r: CaptureAction)
        requires
            old(self)@.wf(),
        ensures
            final(self)@.wf(),
            old(self)@.moves(event, final(self)@, r),
    {
        match (self.stage, event) {
            (CaptureStage::Routing, CaptureEvent::RouteAdded(Ok(()))) => {
                let count: usize = self.plan.len();
                self.installed = self.installed + 1;
                if self.installed < count {
                    CaptureAction::AddRoute(self.plan[self.installed])
                } else {
                    self.stage = CaptureStage::Asking;
                    CaptureAction::AskResolver(self.gateway)
                }
            },
            (CaptureStage::Routing, CaptureEvent::RouteAdded(Err(error))) => {
                self.stage = CaptureStage::Failed;
                CaptureAction::Failed(error)
            },
            (CaptureStage::Asking, CaptureEvent::ResolverAsked(answered)) => {
                self.resolvers = dns::resolver_order(
                    if answered {
                        Some(self.gateway)
                    } else {
                        None
                    },
                );
                self.stage = CaptureStage::Naming;
                CaptureAction::SetResolvers(copy_addresses(&self.resolvers))
            },
            (CaptureStage::Naming, CaptureEvent::ResolversSet(result)) => {
                self.stage = CaptureStage::Capturing;
                self.named = result.is_ok();
                if self.named {
                    CaptureAction::Started(copy_addresses(&self.resolvers))
                } else {
                    let none: Vec<Ipv4> = Vec::new();
                    assert(none@ =~= Seq::<Ipv4>::empty());
                    CaptureAction::Started(none)
                }
            },
            _ => {
                self.stage = CaptureStage::Failed;
                CaptureAction::Failed(OUT_OF_TURN.to_owned())
            },
        }
    }

    /// What undoes everything that was done so far, and nothing else.
    pub fn undo(&self) -> (r: Undo)
        requires
            self@.wf(),
        ensures
            r.clear_resolvers == self@.named,
            r.routes@ == self@.undone(),
    {
        let mut routes: Vec<RouteRow> = Vec::new();
        let mut left: usize = self.installed;
        while left > 0
            invariant
                left <= self.installed <= self.plan@.len(),
                routes@.len() == self.installed - left,
                forall|i: int|
                    0 <= i < routes@.len() ==> #[trigger] routes@[i] == self.plan@[self.installed - 1
                        - i],
            decreases left,
        {
            left = left - 1;
            routes.push(self.plan[left]);
        }
        assert(routes@ =~= self@.undone());
        Undo { clear_resolvers: self.named, routes }
    }
}

/// A capture never resolves through a tunnel that has no routes: whenever its
/// resolver is asked, or the adapter is pointed at resolvers, all are there.
pub proof fn resolvers_come_last(
    start: StartModel,
    event: CaptureEvent,
    next: StartModel,
    action: CaptureAction,
)
    requires
        start.wf(),
        start.moves(event, next, action),
    ensures
        action is AskResolver || action is SetResolvers ==> next.installed == next.plan.len(),
{
}

/// What is removed is what was added and nothing else, the last first: a route
/// that was refused is not among it, and the one added before it comes first.
pub proof fn what_was_added_is_removed(
    start: StartModel,
    event: CaptureEvent,
    next: StartModel,
    action: CaptureAction,
)
    requires
        start.wf(),
        start.moves(event, next, action),
    ensures
        next.undone() == if next.installed > start.installed {
            seq![start.plan[start.installed]] + start.undone()
        } else {
            start.undone()
        },
        next.installed > start.installed <==> (start.stage == CaptureStage::Routing && event
            is RouteAdded && event->RouteAdded_0 is Ok),
{
    if next.installed > start.installed {
        assert(next.plan == start.plan);
        assert(next.undone() =~= seq![start.plan[start.installed]] + start.undone());
    }
}

/// Where an IPv4 packet comes from.
pub open spec fn source_of(packet: Seq<u8>) -> Option<Ipv4> {
    if packet.len() < 20 || packet[0] / 16 != 4 {
        None
    } else {
        Some(Ipv4::made(packet[12], packet[13], packet[14], packet[15]))
    }
}

/// Where an IPv4 packet comes from.
pub fn ipv4_source_address(packet: &[u8]) -> (r: Option<Ipv4>)
    ensures
        r == source_of(packet@),
{
    if packet.len() < 20 || packet[0] / 16 != 4 {
        return None;
    }
    Some(Ipv4::new(packet[12], packet[13], packet[14], packet[15]))
}

/// Whether a packet out of the adapter goes into the session.
pub fn takes_packet(packet: &[u8], own: Ipv4) -> (r: bool)
    ensures
        r == (source_of(packet@) == Some(own)),
{
    match ipv4_source_address(packet) {
        Some(source) => source == own,
        None => false,
    }
}

/// Whether a packet from the session fits the adapter's ring.
pub fn fits_ring(packet: &[u8]) -> (r: bool)
    ensures
        r == (packet@.len() <= u16::MAX),
{
    packet.len() <= u16::MAX as usize
}

/// The tunnel's gateway is the first address of its network of 256, and what is
/// routed round the tunnel goes there address by address, ahead of the two
/// halves that everything else falls into.
pub proof fn the_routes_of_a_capture(
    bypass: Seq<Ipv4>,
    default_gateway: Ipv4,
    default_interface: u32,
    own: Ipv4,
    adapter: u32,
    i: int,
)
    requires
        0 <= i < bypass.len(),
    ensures
        gateway_of(own).byte(0) == own.byte(0),
        gateway_of(own).byte(1) == own.byte(1),
        gateway_of(own).byte(2) == own.byte(2),
        gateway_of(own).byte(3) == 1,
        ({
            let rows = capture_routes(bypass, default_gateway, default_interface, own, adapter);
            &&& rows.len() == bypass.len() + 2
            &&& rows[i].destination == bypass[i] && rows[i].prefix_length == 32
            &&& rows[i].next_hop == default_gateway && rows[i].interface_index == default_interface
            &&& rows[bypass.len() as int].destination.0 == 0
            &&& rows[bypass.len() as int + 1].destination.0 == 0x8000_0000
            &&& rows[bypass.len() as int].prefix_length == 1
            &&& rows[bypass.len() as int + 1].prefix_length == 1
            &&& rows[bypass.len() as int].interface_index == adapter
            &&& rows[bypass.len() as int + 1].interface_index == adapter
        }),
{
    net::a_dotted_address_reads_back(own.byte(0), own.byte(1), own.byte(2), 1);
    let rows = capture_routes(bypass, default_gateway, default_interface, own, adapter);
    let own_rows = bypass_routes(bypass, default_gateway, default_interface);
    assert(rows[i] == own_rows[i]);
}

/// The routes are added one by one in the order of the plan; then the tunnel's
/// resolver is asked, and it is used where it answered, with a public one behind
/// it, and two public ones where it did not.
pub proof fn a_capture_starts_step_by_step(
    start: StartModel,
    event: CaptureEvent,
    next: StartModel,
    action: CaptureAction,
)
    requires
        start.wf(),
        start.moves(event, next, action),
    ensures
        next.plan == start.plan,
        next.gateway == start.gateway,
        start.stage == CaptureStage::Routing && event == CaptureEvent::RouteAdded(Ok(()))
            && start.installed + 1 < start.plan.len() ==> action == CaptureAction::AddRoute(
            start.plan[start.installed + 1],
        ) && next.stage == CaptureStage::Routing,
        start.stage == CaptureStage::Routing && event == CaptureEvent::RouteAdded(Ok(()))
            && start.installed + 1 == start.plan.len() ==> action == CaptureAction::AskResolver(
            start.gateway,
        ),
        start.stage == CaptureStage::Asking && event == CaptureEvent::ResolverAsked(true)
            ==> next.resolvers == seq![start.gateway, Ipv4(0x0808_0808)],
        start.stage == CaptureStage::Asking && event == CaptureEvent::ResolverAsked(false)
            ==> next.resolvers == seq![Ipv4(0x0808_0808), Ipv4(0x0808_0404)],
        action matches CaptureAction::SetResolvers(servers) ==> servers@ == next.resolvers,
        action is Started ==> start.stage == CaptureStage::Naming,
        start.stage == CaptureStage::Naming && event == CaptureEvent::ResolversSet(Ok(())) ==> (
        action matches CaptureAction::Started(servers) && servers@ == start.resolvers)
            && next.named,
        event matches CaptureEvent::RouteAdded(Err(_)) ==> action is Failed && next.stage
            == CaptureStage::Failed && next.installed == start.installed,
{
}

/// A packet's sender is read from where every IPv4 packet has it.
pub proof fn a_sender_reads_back(
    source: Endpoint,
    destination: Endpoint,
    payload: Seq<u8>,
)
    requires
        payload.len() <= packet::MAX_PAYLOAD,
    ensures
        source_of(packet::udp_packet(source, destination, payload)) == Some(source.address),
{
    packet::lemma_udp_addresses(source, destination, payload);
}

} // verus!
