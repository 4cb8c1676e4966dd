//! Bringing a session up.
//!
//! The two halves are deliberately different shapes. A relay session dials every
//! enabled node, keeps the ones that answered and records why the rest were left
//! out, then derives one capture MTU that fits the tightest of them. A direct
//! session has a single node that *is* the last hop, so there is nothing to
//! duplicate across and nothing to seal frames for.

use vstd::prelude::*;
use vstd::string::StringExecFns;

use crate::bits;
use crate::mtu;
use crate::mtu::EffectiveMtu;
use crate::net::Ipv4;
use crate::relay_path;
use crate::relay_path::{DirectPath, NodeSpec, OpenPlan, PathIdentity, SessionMode};
use crate::scheduler;
use crate::scheduler::PathMetrics;
use crate::session::health;
use crate::session::state;
use crate::session::state::{initial_status, PathSessionStatus, SkippedRoute};
use crate::text;

verus! {

pub const NO_NODES: &'static str =
    "at least one WireGuard, OpenVPN, L2TP/IPsec, or SOCKS5 node is required";

pub const DUPLICATE_ROUTE: &'static str = "another enabled route already uses this endpoint and key";

pub const NO_ROUTE: &'static str = "no route could be opened: ";

pub const ONE_NODE_ONLY: &'static str = "direct mode sends traffic through exactly one node, but ";

pub const ONE_NODE_ADVICE: &'static str =
    " are enabled. Enable a single WireGuard, OpenVPN or L2TP/IPsec node, or switch to relay mode to combine them.";

/// Refuses a session without nodes.
pub fn check_nodes(nodes: &Vec<NodeSpec>) -> (r: Result<(), String>)
    ensures
        r is Err <==> nodes@.len() == 0,
        r matches Err(message) ==> message@ == NO_NODES@,
{
    if nodes.len() == 0 {
        Err(NO_NODES.to_owned())
    } else {
        Ok(())
    }
}

/// What a path that was opened says of itself.
pub struct OpenedPath {
    pub endpoint: String,
    pub identity: PathIdentity,
    pub bypass: Option<Ipv4>,
    /// The tunnel MTU that the provider's configuration asks for.
    pub tunnel_mtu: Option<u16>,
}

/// A route of the session.
pub struct PlannedRoute {
    pub route: usize,
    pub label: String,
    pub kind: &'static str,
    pub path: OpenedPath,
}

/// What tells one route from another.
#[verifier::ext_equal]
pub struct RouteModel {
    pub route: usize,
    pub label: Seq<char>,
    pub kind: Seq<char>,
    pub endpoint: Seq<char>,
    pub identity: PathIdentity,
    pub bypass: Option<Ipv4>,
    pub tunnel_mtu: Option<u16>,
}

impl PlannedRoute {
    pub open spec fn model(&self) -> RouteModel {
        RouteModel {
            route: self.route,
            label: self.label@,
            kind: self.kind@,
            endpoint: self.path.endpoint@,
            identity: self.path.identity,
            bypass: self.path.bypass,
            tunnel_mtu: self.path.tunnel_mtu,
        }
    }
}

/// A route that did not join.
#[verifier::ext_equal]
pub struct SkippedModel {
    pub route: usize,
    pub label: Seq<char>,
    pub reason: Seq<char>,
}

pub open spec fn skipped_model(skipped: SkippedRoute) -> SkippedModel {
    SkippedModel { route: skipped.route, label: skipped.label@, reason: skipped.reason@ }
}

/// The routes of a session that is being put together, and those left out.
pub struct RoutePlan {
    pub routes: Vec<PlannedRoute>,
    pub skipped: Vec<SkippedRoute>,
}

#[verifier::ext_equal]
pub struct PlanModel {
    pub routes: Seq<RouteModel>,
    pub skipped: Seq<SkippedModel>,
}

impl View for RoutePlan {
    type V = PlanModel;

    open spec fn view(&self) -> PlanModel {
        PlanModel {
            routes: Seq::new(self.routes@.len(), |i: int| self.routes@[i].model()),
            skipped: Seq::new(self.skipped@.len(), |i: int| skipped_model(self.skipped@[i])),
        }
    }
}

/// The name a route goes by: the one its node was given, else the one the
/// request gives it, else one made from its kind and number.
pub open spec fn route_label(node: NodeSpec, labels: Seq<Seq<char>>, index: int) -> Seq<char> {
    match node.label_text() {
        Some(label) => label,
        None => if 0 <= index < labels.len() && text::trimmed(labels[index]).len() > 0 {
            text::trimmed(labels[index])
        } else {
            node.numbered((index + 1) as nat)
        },
    }
}

fn choose_label(node: &NodeSpec, labels: &Vec<String>, index: usize) -> (r: String)
    requires
        index < usize::MAX,
    ensures
        r@ == route_label(*node, text::string_views(labels@), index as int),
{
    match node.label() {
        Some(label) => label,
        None => {
            if index < labels.len() {
                let chars = text::chars(labels[index].as_str());
                let bare = text::trim(chars.as_slice());
                if bare.len() > 0 {
                    return text::string(bare);
                }
            }
            node.default_label(index + 1)
        },
    }
}

impl PlanModel {
    /// Whether some route already runs under this identity.
    pub open spec fn taken(self, identity: PathIdentity) -> bool {
        exists|i: int| 0 <= i < self.routes.len() && (#[trigger] self.routes[i]).identity.same(identity)
    }

    /// The plan once a node has been opened, or not.
    pub open spec fn with_opened(
        self,
        index: int,
        node: NodeSpec,
        labels: Seq<Seq<char>>,
        result: Result<OpenedPath, String>,
    ) -> PlanModel {
        match result {
            Err(error) => self.with_skipped((index + 1) as usize, node, error@),
            Ok(path) => if self.taken(path.identity) {
                self.with_skipped((index + 1) as usize, node, DUPLICATE_ROUTE@)
            } else {
                PlanModel {
                    routes: self.routes.push(
                        RouteModel {
                            route: (index + 1) as usize,
                            label: route_label(node, labels, index),
                            kind: node.kind_word(),
                            endpoint: path.endpoint@,
                            identity: path.identity,
                            bypass: path.bypass,
                            tunnel_mtu: path.tunnel_mtu,
                        },
                    ),
                    ..self
                }
            },
        }
    }

    pub open spec fn with_skipped(self, route: usize, node: NodeSpec, reason: Seq<char>) -> PlanModel {
        PlanModel {
            skipped: self.skipped.push(
                SkippedModel { route, label: node.description(), reason },
            ),
            ..self
        }
    }

    /// No two routes share an identity, and the routes are in the order of their
    /// nodes.
    pub open spec fn wf(self) -> bool {
        &&& forall|i: int, j: int|
            #![trigger self.routes[i], self.routes[j]]
            0 <= i < j < self.routes.len() ==> !self.routes[i].identity.same(
                self.routes[j].identity,
            ) && self.routes[i].route < self.routes[j].route
    }

    /// Whether every route so far is one of the first `n` nodes.
    pub open spec fn within(self, n: int) -> bool {
        forall|i: int| 0 <= i < self.routes.len() ==> (#[trigger] self.routes[i]).route <= n
    }
}

/// Why a session has no route at all.
pub open spec fn skip_lines(skipped: Seq<SkippedModel>) -> Seq<Seq<char>> {
    Seq::new(
        skipped.len(),
        |i: int|
            "route "@ + text::decimal(skipped[i].route as nat) + " ("@ + skipped[i].label + "): "@
                + skipped[i].reason,
    )
}

impl RoutePlan {
    pub fn new() -> (r: Self)
        ensures
            r@ == (PlanModel {
                routes: Seq::<RouteModel>::empty(),
                skipped: Seq::<SkippedModel>::empty(),
            }),
            r@.wf(),
            r@.within(0),
    {
        let r = RoutePlan { routes: Vec::new(), skipped: Vec::new() };
        assert(r@ =~= PlanModel {
            routes: Seq::<RouteModel>::empty(),
            skipped: Seq::<SkippedModel>::empty(),
        });
        r
    }

    fn identity_taken(&self, identity: &PathIdentity) -> (r: bool)
        ensures
            r == self@.taken(*identity),
    {
        let mut at: usize = 0;
        while at < self.routes.len()
            invariant
                at <= self.routes@.len(),
                forall|i: int|
                    0 <= i < at ==> !(#[trigger] self@.routes[i]).identity.same(*identity),
            decreases self.routes@.len() - at,
        {
            assert(self@.routes[at as int] == self.routes@[at as int].model());
            if self.routes[at].path.identity.is_same(identity) {
                return true;
            }
            at = at + 1;
        }
        false
    }

    fn skip(&mut self, route: usize, node: &NodeSpec, reason: String)
        ensures
            final(self)@ == old(self)@.with_skipped(route, *node, reason@),
    {
        let ghost before = self@;
        self.skipped.push(SkippedRoute { route, label: node.describe(), reason });
        assert(self@ =~= before.with_skipped(route, *node, reason@));
    }

    /// Takes in what opening node `index` came to. One node failing costs its
    /// own route: the session runs on the rest. Says whether the route joins.
    pub fn opened(
        &mut self,
        index: usize,
        node: &NodeSpec,
        labels: &Vec<String>,
        result: Result<OpenedPath, String>,
    ) -> (r: bool)
        requires
            index < usize::MAX,
            old(self)@.wf(),
            old(self)@.within(index as int),
        ensures
            final(self)@.wf(),
            final(self)@.within(index + 1),
            final(self)@ == old(self)@.with_opened(
                index as int,
                *node,
                text::string_views(labels@),
                result,
            ),
            match result {
                Err(error) => {
                    &&& !r
                    &&& final(self)@ == old(self)@.with_skipped(
                        (index + 1) as usize,
                        *node,
                        error@,
                    )
                },
                Ok(path) => if old(self)@.taken(path.identity) {
                    &&& !r
                    &&& final(self)@ == old(self)@.with_skipped(
                        (index + 1) as usize,
                        *node,
                        DUPLICATE_ROUTE@,
                    )
                } else {
                    &&& r
                    &&& final(self)@ == (PlanModel {
                        routes: old(self)@.routes.push(
                            RouteModel {
                                route: (index + 1) as usize,
                                label: route_label(
                                    *node,
                                    text::string_views(labels@),
                                    index as int,
                                ),
                                kind: node.kind_word(),
                                endpoint: path.endpoint@,
                                identity: path.identity,
                                bypass: path.bypass,
                                tunnel_mtu: path.tunnel_mtu,
                            },
                        ),
                        ..old(self)@
                    })
                },
            },
    {
        let route: usize = index + 1;
        match result {
            Err(error) => {
                self.skip(route, node, error);
                false
            },
            Ok(path) => {
                if self.identity_taken(&path.identity) {
                    self.skip(route, node, DUPLICATE_ROUTE.to_owned());
                    return false;
                }
                let ghost before = self@;
                let label = choose_label(node, labels, index);
                let planned = PlannedRoute { route, label, kind: node.kind(), path };
                let ghost model = planned.model();
                self.routes.push(planned);
                proof {
                    assert(self@.routes =~= before.routes.push(model));
                    assert(self@.skipped =~= before.skipped);
                }
                true
            },
        }
    }

    /// Refuses a session that no route joined, and says why each one did not.
    pub fn check_routes(&self) -> (r: Result<(), String>)
        ensures
            r is Err <==> self@.routes.len() == 0,
            r matches Err(message) ==> message@ == NO_ROUTE@ + text::separated(
                skip_lines(self@.skipped),
                "; "@,
            ),
    {
        if self.routes.len() > 0 {
            return Ok(());
        }
        let mut lines: Vec<String> = Vec::new();
        let mut at: usize = 0;
        while at < self.skipped.len()
            invariant
                at <= self.skipped@.len(),
                lines@.len() == at,
                forall|i: int|
                    0 <= i < at ==> (#[trigger] lines@[i])@ == skip_lines(self@.skipped)[i],
            decreases self.skipped@.len() - at,
        {
            let skipped = &self.skipped[at];
            let mut line = text::concat5(
                "route ",
                text::decimal_text(skipped.route as u64).as_str(),
                " (",
                skipped.label.as_str(),
                "): ",
            );
            line.append(skipped.reason.as_str());
            assert(self@.skipped[at as int] == skipped_model(self.skipped@[at as int]));
            lines.push(line);
            at = at + 1;
        }
        assert(text::string_views(lines@) =~= skip_lines(self@.skipped));
        Err(text::concat2(NO_ROUTE, text::join(&lines, "; ").as_str()))
    }

    /// The outer addresses of the routes, whose links the tunnel has to fit.
    pub fn outer_addresses(&self) -> (r: Vec<Ipv4>)
        ensures
            r@ == bypasses(self@.routes),
    {
        let mut r: Vec<Ipv4> = Vec::new();
        let mut at: usize = 0;
        assert(self@.routes.take(0) =~= Seq::<RouteModel>::empty());
        assert(r@ =~= Seq::<Ipv4>::empty());
        while at < self.routes.len()
            invariant
                at <= self.routes@.len(),
                r@ == bypasses(self@.routes.take(at as int)),
            decreases self.routes@.len() - at,
        {
            assert(self@.routes.take(at + 1).drop_last() =~= self@.routes.take(at as int));
            assert(self@.routes.take(at + 1).last() == self.routes@[at as int].model());
            match self.routes[at].path.bypass {
                Some(address) => r.push(address),
                None => {},
            }
            at = at + 1;
        }
        assert(self@.routes.take(at as int) =~= self@.routes);
        r
    }

    /// The strictest MTU that a provider asks for.
    fn provider_mtu(&self) -> (r: Option<u16>)
        ensures
            r == strictest(self@.routes),
    {
        let mut r: Option<u16> = None;
        let mut at: usize = 0;
        assert(self@.routes.take(0) =~= Seq::<RouteModel>::empty());
        while at < self.routes.len()
            invariant
                at <= self.routes@.len(),
                r == strictest(self@.routes.take(at as int)),
            decreases self.routes@.len() - at,
        {
            assert(self@.routes.take(at + 1).drop_last() =~= self@.routes.take(at as int));
            assert(self@.routes.take(at + 1).last() == self.routes@[at as int].model());
            match (r, self.routes[at].path.tunnel_mtu) {
                (Some(before), Some(limit)) => {
                    if limit < before {
                        r = Some(limit);
                    }
                },
                (None, Some(limit)) => {
                    r = Some(limit);
                },
                _ => {},
            }
            at = at + 1;
        }
        assert(self@.routes.take(at as int) =~= self@.routes);
        r
    }

    fn kinds(&self) -> (r: Vec<&'static str>)
        ensures
            text::str_views(r@) == route_kinds(self@.routes),
    {
        let mut r: Vec<&'static str> = Vec::new();
        let mut at: usize = 0;
        while at < self.routes.len()
            invariant
                at <= self.routes@.len(),
                r@.len() == at,
                forall|i: int| 0 <= i < at ==> (#[trigger] r@[i])@ == self.routes@[i].kind@,
            decreases self.routes@.len() - at,
        {
            r.push(self.routes[at].kind);
            at = at + 1;
        }
        assert(text::str_views(r@) =~= route_kinds(self@.routes));
        r
    }

    /// The session that the routes make, reached at `relay` over a link of this
    /// MTU. One capture adapter serves every selected path, so its MTU has to
    /// fit the smallest outer route and the strictest provider's tunnel cap.
    pub fn set_up(&self, relay: Ipv4, link_mtu: u16) -> (r: RelaySetup)
        ensures
            r.effective_mtu == mtu::limited(
                mtu::fitted(
                    link_mtu,
                    mtu::session_overhead(SessionMode::Relay, route_kinds(self@.routes)),
                ),
                strictest(self@.routes),
            ),
            is_address_set(r.bypass_ips@, bypasses(self@.routes).push(relay)),
            forall|k: u64|
                k < 64 ==> bits::bit(r.initial_mask, k) == (k < self@.routes.len()),
            r.statuses@.len() == self@.routes.len(),
            forall|i: int|
                0 <= i < r.statuses@.len() ==> (#[trigger] r.statuses@[i])@ == state::untouched(
                    self@.routes[i].route,
                    self@.routes[i].kind,
                    self@.routes[i].label,
                    self@.routes[i].endpoint,
                ),
            r.metrics@.len() == self@.routes.len(),
            forall|i: int|
                0 <= i < r.metrics@.len() ==> is_unmeasured(
                    #[trigger] r.metrics@[i],
                    text::decimal(i as nat),
                ),
    {
        let kinds = self.kinds();
        let effective_mtu = EffectiveMtu::for_session(
            SessionMode::Relay,
            kinds.as_slice(),
            link_mtu,
        ).with_tunnel_limit(self.provider_mtu());
        let mut addresses = self.outer_addresses();
        addresses.push(relay);
        let bypass_ips = address_set(&addresses);
        let mut statuses: Vec<PathSessionStatus> = Vec::new();
        let mut metrics: Vec<PathMetrics> = Vec::new();
        let mut at: usize = 0;
        while at < self.routes.len()
            invariant
                at <= self.routes@.len(),
                statuses@.len() == at,
                metrics@.len() == at,
                forall|i: int|
                    0 <= i < at ==> (#[trigger] statuses@[i])@ == state::untouched(
                        self@.routes[i].route,
                        self@.routes[i].kind,
                        self@.routes[i].label,
                        self@.routes[i].endpoint,
                    ),
                forall|i: int|
                    0 <= i < at ==> is_unmeasured(#[trigger] metrics@[i], text::decimal(i as nat)),
            decreases self.routes@.len() - at,
        {
            let planned = &self.routes[at];
            statuses.push(
                initial_status(
                    planned.route,
                    planned.kind,
                    planned.label.clone(),
                    planned.path.endpoint.clone(),
                ),
            );
            metrics.push(PathMetrics::new(text::decimal_text(at as u64)));
            at = at + 1;
        }
        RelaySetup {
            effective_mtu,
            bypass_ips,
            initial_mask: full_mask(self.routes.len()),
            statuses,
            metrics,
        }
    }
}

/// A path that nothing has been measured of.
pub open spec fn is_unmeasured(path: PathMetrics, id: Seq<char>) -> bool {
    path.id@ == id && path.active && path.samples == 0 && path.estimate is None
        && path.consecutive_losses == 0
}

/// A relay session, as its routes make it.
pub struct RelaySetup {
    pub effective_mtu: EffectiveMtu,
    /// What has to keep reaching the Internet directly once the tunnel owns the
    /// default route.
    pub bypass_ips: Vec<Ipv4>,
    /// Every route, which is what carries traffic until the scheduler knows
    /// better.
    pub initial_mask: u64,
    pub statuses: Vec<PathSessionStatus>,
    pub metrics: Vec<PathMetrics>,
}

/// The kinds of some routes.
pub open spec fn route_kinds(routes: Seq<RouteModel>) -> Seq<Seq<char>> {
    Seq::new(routes.len(), |i: int| routes[i].kind)
}

/// The outer addresses of some routes.
pub open spec fn bypasses(routes: Seq<RouteModel>) -> Seq<Ipv4>
    decreases routes.len(),
{
    if routes.len() == 0 {
        Seq::<Ipv4>::empty()
    } else {
        let before = bypasses(routes.drop_last());
        match routes.last().bypass {
            Some(address) => before.push(address),
            None => before,
        }
    }
}

/// The least of the MTUs that some routes' providers ask for.
pub open spec fn strictest(routes: Seq<RouteModel>) -> Option<u16>
    decreases routes.len(),
{
    if routes.len() == 0 {
        None
    } else {
        match (strictest(routes.drop_last()), routes.last().tunnel_mtu) {
            (Some(before), Some(limit)) => if limit < before {
                Some(limit)
            } else {
                Some(before)
            },
            (None, limit) => limit,
            (before, None) => before,
        }
    }
}

/// Whether a list holds exactly these addresses, each once, in ascending order.
pub open spec fn is_address_set(list: Seq<Ipv4>, addresses: Seq<Ipv4>) -> bool {
    &&& forall|i: int, j: int|
        #![trigger list[i], list[j]]
        0 <= i < j < list.len() ==> list[i].0 < list[j].0
    &&& forall|i: int| 0 <= i < list.len() ==> addresses.contains(#[trigger] list[i])
    &&& forall|i: int| 0 <= i < addresses.len() ==> list.contains(#[trigger] addresses[i])
}

/// The addresses in ascending order, each once.
pub fn address_set(addresses: &Vec<Ipv4>) -> (list: Vec<Ipv4>)
    ensures
        is_address_set(list@, addresses@),
{
    let mut list: Vec<Ipv4> = Vec::new();
    let mut n: usize = 0;
    while n < addresses.len()
        invariant
            n <= addresses@.len(),
            is_address_set(list@, addresses@.take(n as int)),
        decreases addresses@.len() - n,
    {
        let address: Ipv4 = addresses[n];
        let ghost earlier = addresses@.take(n as int);
        let ghost more = addresses@.take(n + 1);
        let mut at: usize = 0;
        while at < list.len() && list[at].0 < address.0
            invariant
                at <= list@.len(),
                forall|i: int| 0 <= i < at ==> (#[trigger] list@[i]).0 < address.0,
            decreases list@.len() - at,
        {
            at = at + 1;
        }
        let ghost before = list@;
        if at < list.len() && list[at].0 == address.0 {
            proof {
                assert(before[at as int] == address);
                assert forall|i: int| 0 <= i < more.len() implies before.contains(
                    #[trigger] more[i],
                ) by {
                    if i < n {
                        assert(earlier[i] == more[i]);
                    } else {
                        assert(before[at as int] == more[i]);
                    }
                }
            }
        } else {
            list.insert(at, address);
            proof {
                assert(list@ =~= before.insert(at as int, address));
                assert forall|i: int, j: int|
                    #![trigger list@[i], list@[j]]
                    0 <= i < j < list@.len() implies list@[i].0 < list@[j].0 by {
                    if i < at && j > at {
                        assert(list@[i] == before[i] && list@[j] == before[j - 1]);
                    } else if j < at {
                        assert(list@[i] == before[i] && list@[j] == before[j]);
                    } else if i > at {
                        assert(list@[i] == before[i - 1] && list@[j] == before[j - 1]);
                    } else if j == at {
                        assert(list@[i] == before[i]);
                    } else {
                        assert(list@[j] == before[j - 1]);
                        if j - 1 > at {
                            assert(before[at as int].0 < before[j - 1].0);
                        }
                    }
                }
                assert forall|i: int| 0 <= i < more.len() implies list@.contains(
                    #[trigger] more[i],
                ) by {
                    if i < n {
                        assert(earlier[i] == more[i]);
                        assert(before.contains(more[i]));
                        let k = choose|k: int| 0 <= k < before.len() && before[k] == more[i];
                        if k < at {
                            assert(list@[k] == more[i]);
                        } else {
                            assert(list@[k + 1] == more[i]);
                        }
                    } else {
                        assert(list@[at as int] == more[i]);
                    }
                }
            }
        }
        proof {
            assert forall|i: int| 0 <= i < list@.len() implies more.contains(
                #[trigger] list@[i],
            ) by {
                if list@[i] == address {
                    assert(more[n as int] == address);
                } else {
                    let k = if list@.len() == before.len() || i < at {
                        i
                    } else {
                        i - 1
                    };
                    assert(list@[i] == before[k]);
                    assert(earlier.contains(before[k]));
                    let m = choose|m: int| 0 <= m < earlier.len() && earlier[m] == before[k];
                    assert(more[m] == list@[i]);
                }
            }
        }
        n = n + 1;
    }
    assert(addresses@.take(n as int) =~= addresses@);
    list
}

/// A mask with every one of `count` paths in it.
pub fn full_mask(count: usize) -> (r: u64)
    ensures
        forall|k: u64| k < 64 ==> #[trigger] bits::bit(r, k) == (k < count),
{
    if count >= 64 {
        proof {
            assert forall|k: u64| k < 64 implies #[trigger] bits::bit(u64::MAX, k) by {
                bits::lemma_bit_and(u64::MAX, u64::MAX, k);
            }
        }
        u64::MAX
    } else {
        let n: u64 = count as u64;
        proof {
            bits::lemma_low_bits(n, 0);
            assert forall|k: u64| k < 64 implies #[trigger] bits::bit(
                ((1u64 << n) - 1) as u64,
                k,
            ) == (k < n) by {
                bits::lemma_low_bits(n, k);
            }
        }
        (1u64 << n) - 1
    }
}

/// The single node of a direct session, and what opening it comes to.
///
/// Duplication is the only reason to run several paths, and duplication needs a
/// relay to recognise the copies. That is said rather than silently using the
/// first node and leaving the rest looking active.
pub fn start_direct(nodes: &Vec<NodeSpec>) -> (r: Result<OpenPlan, String>)
    ensures
        nodes@.len() != 1 ==> (r matches Err(message) && message@ == ONE_NODE_ONLY@
            + text::decimal(nodes@.len()) + ONE_NODE_ADVICE@),
        nodes@.len() == 1 ==> match nodes@[0].direct_refusal() {
            Some(why) => r matches Err(message) && message@ == nodes@[0].description() + ": "@
                + why,
            None => r matches Ok(plan) && relay_path::plans(plan, nodes@[0], false),
        },
{
    if nodes.len() != 1 {
        return Err(
            text::concat3(
                ONE_NODE_ONLY,
                text::decimal_text(nodes.len() as u64).as_str(),
                ONE_NODE_ADVICE,
            ),
        );
    }
    match nodes[0].open_direct() {
        Ok(plan) => Ok(plan),
        Err(error) => Err(text::concat3(nodes[0].describe().as_str(), ": ", error.as_str())),
    }
}

/// A direct session, as its node makes it.
pub struct DirectSetup {
    pub virtual_ipv4: Ipv4,
    pub effective_mtu: EffectiveMtu,
    pub bypass_ips: Vec<Ipv4>,
    pub status: PathSessionStatus,
}

/// The session that a single node makes, over a link of this MTU.
pub fn set_up_direct(
    node: &NodeSpec,
    path: &DirectPath,
    link_mtu: u16,
    tunnel_mtu: Option<u16>,
) -> (r: DirectSetup)
    ensures
        r.virtual_ipv4 == path.own_address(),
        r.effective_mtu == mtu::limited(
            mtu::fitted(
                link_mtu,
                mtu::overhead_of(
                    SessionMode::Direct,
                    match path {
                        DirectPath::WireGuard(_) => relay_path::KIND_WIREGUARD@,
                        DirectPath::OpenVpn(_) => relay_path::KIND_OPENVPN@,
                    },
                ),
            ),
            tunnel_mtu,
        ),
        match path {
            DirectPath::WireGuard(inner) => match inner.tunnel.endpoint.v4() {
                Some(address) => r.bypass_ips@ == seq![address],
                None => r.bypass_ips@.len() == 0,
            },
            DirectPath::OpenVpn(inner) => r.bypass_ips@ == seq![inner.endpoint.address],
        },
        r.status@ == state::untouched(
            1,
            match path {
                DirectPath::WireGuard(_) => relay_path::KIND_WIREGUARD@,
                DirectPath::OpenVpn(_) => relay_path::KIND_OPENVPN@,
            },
            route_label(*node, Seq::<Seq<char>>::empty(), 0),
            match path {
                DirectPath::WireGuard(inner) => inner.tunnel.endpoint.written(),
                DirectPath::OpenVpn(inner) => inner.endpoint.written(),
            },
        ),
{
    let kind = path.kind();
    let kinds: [&str; 1] = [kind];
    proof {
        let views = text::str_views(kinds@);
        assert(views.drop_last() =~= Seq::<Seq<char>>::empty());
        assert(views.last() == kind@);
        assert(mtu::worst_overhead(SessionMode::Direct, views.drop_last(), 0) == 0);
    }
    let effective_mtu = EffectiveMtu::for_session(
        SessionMode::Direct,
        kinds.as_slice(),
        link_mtu,
    ).with_tunnel_limit(tunnel_mtu);
    let mut bypass_ips: Vec<Ipv4> = Vec::new();
    match path.bypass_ipv4() {
        Some(address) => bypass_ips.push(address),
        None => {},
    }
    let label = match node.label() {
        Some(label) => label,
        None => node.default_label(1),
    };
    DirectSetup {
        virtual_ipv4: path.address(),
        effective_mtu,
        bypass_ips,
        status: initial_status(1, kind, label, path.endpoint().to_text()),
    }
}

/// One bad node costs its own route and nothing else: what it came to changes
/// neither the routes that joined before nor how they are numbered.
pub proof fn a_bad_node_costs_its_own_route(
    plan: PlanModel,
    route: usize,
    node: NodeSpec,
    reason: Seq<char>,
)
    ensures
        plan.with_skipped(route, node, reason).routes == plan.routes,
        plan.with_skipped(route, node, reason).skipped.len() == plan.skipped.len() + 1,
{
}

/// A session's tunnel fits every route of it: no route on its own would be given
/// less than the session is, before a provider's limit.
pub proof fn the_tunnel_fits_every_route(routes: Seq<RouteModel>, i: int, link: u16)
    requires
        0 <= i < routes.len(),
    ensures
        mtu::limited(
            mtu::fitted(link, mtu::session_overhead(SessionMode::Relay, route_kinds(routes))),
            strictest(routes),
        ).mtu <= mtu::fitted(link, mtu::overhead_of(SessionMode::Relay, routes[i].kind)).mtu,
{
    mtu::the_most_expensive_path_decides(SessionMode::Relay, route_kinds(routes), i, link);
    mtu::a_limit_can_only_reduce(
        link,
        mtu::session_overhead(SessionMode::Relay, route_kinds(routes)),
        strictest(routes),
    );
}

/// The strictest tunnel MTU is that of some route, and no route asks for less.
pub proof fn the_strictest_limit_is_a_route_s(routes: Seq<RouteModel>)
    ensures
        strictest(routes) is None <==> forall|i: int|
            0 <= i < routes.len() ==> (#[trigger] routes[i]).tunnel_mtu is None,
        strictest(routes) matches Some(least) ==> (exists|i: int|
            0 <= i < routes.len() && (#[trigger] routes[i]).tunnel_mtu == Some(least)) && forall|
            i: int,
        |
            0 <= i < routes.len() ==> ((#[trigger] routes[i]).tunnel_mtu matches Some(other)
                ==> least <= other),
    decreases routes.len(),
{
    if routes.len() > 0 {
        let less = routes.drop_last();
        let last = routes.len() - 1;
        the_strictest_limit_is_a_route_s(less);
        assert(routes.last() == routes[last]);
        assert forall|i: int| 0 <= i < last implies #[trigger] less[i] == routes[i] by {}
        if let Some(least) = strictest(less) {
            let i = choose|i: int|
                0 <= i < less.len() && (#[trigger] less[i]).tunnel_mtu == Some(least);
            assert(routes[i].tunnel_mtu == Some(least));
            if let Some(found) = strictest(routes) {
                assert forall|j: int| 0 <= j < routes.len() implies ((
                #[trigger] routes[j]).tunnel_mtu matches Some(other) ==> found <= other) by {
                    if j < last {
                        assert(less[j] == routes[j]);
                    }
                }
                if found != least {
                    assert(routes[last].tunnel_mtu == Some(found));
                }
            }
        } else {
            assert forall|j: int| 0 <= j < last implies (#[trigger] routes[j]).tunnel_mtu is None by {
                assert(less[j] == routes[j]);
            }
        }
    }
}

/// Every address that a route has to reach outside the tunnel is let past it,
/// and no other.
pub proof fn every_outside_address_is_let_past(routes: Seq<RouteModel>, address: Ipv4)
    ensures
        bypasses(routes).contains(address) <==> exists|i: int|
            0 <= i < routes.len() && (#[trigger] routes[i]).bypass == Some(address),
    decreases routes.len(),
{
    if routes.len() > 0 {
        let less = routes.drop_last();
        let last = routes.len() - 1;
        every_outside_address_is_let_past(less, address);
        assert(routes.last() == routes[last]);
        let before = bypasses(less);
        if before.contains(address) {
            let i = choose|i: int|
                0 <= i < less.len() && (#[trigger] less[i]).bypass == Some(address);
            assert(routes[i].bypass == Some(address));
            let m = choose|m: int| 0 <= m < before.len() && before[m] == address;
            assert(bypasses(routes)[m] == address);
        }
        if routes[last].bypass == Some(address) {
            assert(bypasses(routes)[before.len() as int] == address);
        }
        if exists|i: int| 0 <= i < routes.len() && (#[trigger] routes[i]).bypass == Some(address) {
            let i = choose|i: int|
                0 <= i < routes.len() && (#[trigger] routes[i]).bypass == Some(address);
            if i < last {
                assert(less[i] == routes[i]);
            }
        }
        if bypasses(routes).contains(address) && !before.contains(address) {
            let m = choose|m: int|
                0 <= m < bypasses(routes).len() && bypasses(routes)[m] == address;
            if m < before.len() {
                assert(before[m] == address);
            }
        }
    }
}

/// A route is called by its node's own label, else by the label that the session
/// was given for it, else by its kind and its number, counted from one.
pub proof fn a_route_is_called_by_its_label(node: NodeSpec, labels: Seq<Seq<char>>, index: int)
    requires
        0 <= index,
    ensures
        node.given_label() matches Some(own) ==> text::trimmed(own@).len() > 0 ==> route_label(
            node,
            labels,
            index,
        ) == text::trimmed(own@),
        node.given_label() is None && index < labels.len() && text::trimmed(labels[index]).len() > 0
            ==> route_label(node, labels, index) == text::trimmed(labels[index]),
        node.given_label() is None && index >= labels.len() ==> route_label(node, labels, index)
            == match node {
            NodeSpec::WireGuard { .. } => "WireGuard route "@ + text::decimal((index + 1) as nat),
            NodeSpec::Socks5 { .. } => "SOCKS5 route "@ + text::decimal((index + 1) as nat),
            NodeSpec::OpenVpn { .. } => "OpenVPN route "@ + text::decimal((index + 1) as nat),
            NodeSpec::L2tp { .. } => "L2TP route "@ + text::decimal((index + 1) as nat),
        },
{
}

/// Every node of a session becomes a route or is skipped, and never both. It is
/// skipped where it could not be opened, with the reason, and where an earlier
/// route already meets the same place; otherwise it is the next route, by what
/// was opened. Either way it goes by its place in the list, counted from one, and
/// no other route changes.
pub proof fn every_node_is_a_route_or_skipped(
    plan: PlanModel,
    index: int,
    node: NodeSpec,
    labels: Seq<Seq<char>>,
    result: Result<OpenedPath, String>,
)
    requires
        0 <= index < usize::MAX,
    ensures
        ({
            let after = plan.with_opened(index, node, labels, result);
            let shared = result matches Ok(path) && exists|i: int|
                0 <= i < plan.routes.len() && (#[trigger] plan.routes[i]).identity.same(
                    path.identity,
                );
            &&& after.routes.len() + after.skipped.len() == plan.routes.len() + plan.skipped.len()
                + 1
            &&& result matches Err(error) ==> {
                &&& after.routes == plan.routes
                &&& after.skipped.last().route == index + 1
                &&& after.skipped.last().reason == error@
                &&& after.skipped.last().label == node.description()
                &&& after.skipped.drop_last() == plan.skipped
            }
            &&& shared ==> {
                &&& after.routes == plan.routes
                &&& after.skipped.last().route == index + 1
                &&& after.skipped.last().reason
                    == "another enabled route already uses this endpoint and key"@
            }
            &&& !shared ==> (result matches Ok(path) ==> {
                let added = after.routes.last();
                &&& after.skipped == plan.skipped
                &&& after.routes.drop_last() == plan.routes
                &&& added.route == index + 1
                &&& added.endpoint == path.endpoint@ && added.identity == path.identity
                &&& added.bypass == path.bypass && added.tunnel_mtu == path.tunnel_mtu
                &&& added.kind == (match node {
                    NodeSpec::WireGuard { .. } => "wireguard"@,
                    NodeSpec::Socks5 { .. } => "socks5"@,
                    NodeSpec::OpenVpn { .. } => "openvpn"@,
                    NodeSpec::L2tp { .. } => "l2tp"@,
                })
                &&& added.label == route_label(node, labels, index)
            })
        }),
{
    let after = plan.with_opened(index, node, labels, result);
    if after.skipped.len() > plan.skipped.len() {
        assert(after.skipped.drop_last() =~= plan.skipped);
    } else {
        assert(after.routes.drop_last() =~= plan.routes);
    }
}

/// What is let past the tunnel is the relay and every address that a route has to
/// reach outside it, each once, the lowest first.
pub proof fn the_relay_is_let_past_the_tunnel(
    list: Seq<Ipv4>,
    routes: Seq<RouteModel>,
    relay: Ipv4,
    address: Ipv4,
)
    requires
        is_address_set(list, bypasses(routes).push(relay)),
    ensures
        list.contains(address) <==> address == relay || exists|i: int|
            0 <= i < routes.len() && (#[trigger] routes[i]).bypass == Some(address),
        forall|i: int, j: int|
            #![trigger list[i], list[j]]
            0 <= i < j < list.len() ==> list[i].0 < list[j].0,
{
    every_outside_address_is_let_past(routes, address);
    let all = bypasses(routes).push(relay);
    assert(all.contains(address) <==> bypasses(routes).contains(address) || address == relay) by {
        if bypasses(routes).contains(address) {
            let m = choose|m: int| 0 <= m < bypasses(routes).len() && bypasses(routes)[m] == address;
            assert(all[m] == address);
        }
        if address == relay {
            assert(all[bypasses(routes).len() as int] == address);
        }
        if all.contains(address) && address != relay {
            let m = choose|m: int| 0 <= m < all.len() && all[m] == address;
            assert(bypasses(routes)[m] == address);
        }
    }
    if all.contains(address) {
        let m = choose|m: int| 0 <= m < all.len() && all[m] == address;
        assert(list.contains(all[m]));
    }
    if list.contains(address) {
        let m = choose|m: int| 0 <= m < list.len() && list[m] == address;
        assert(all.contains(list[m]));
    }
}

/// A session starts with nothing measured, so that its first choice is none and
/// every route carries traffic until a probe is answered.
pub proof fn every_route_carries_until_one_is_measured(
    metrics: Seq<PathMetrics>,
    strategy: scheduler::Strategy,
    incumbent: Seq<Seq<char>>,
    fallback: u64,
)
    requires
        forall|i: int|
            0 <= i < metrics.len() ==> is_unmeasured(#[trigger] metrics[i], text::decimal(i as nat)),
    ensures
        scheduler::chosen(metrics, strategy, incumbent) is Drop,
        health::choice_mask(
            metrics,
            scheduler::chosen(metrics, strategy, incumbent),
            fallback,
        ) == fallback,
{
    scheduler::an_outage_keeps_one_path(metrics, strategy, incumbent);
}

/// A route that nothing is known of is not reachable, has no latency and no
/// error, and has counted nothing.
pub proof fn a_new_route_has_counted_nothing(
    route: usize,
    kind: Seq<char>,
    label: Seq<char>,
    endpoint: Seq<char>,
)
    ensures
        ({
            let status = state::untouched(route, kind, label, endpoint);
            &&& status.route == route && status.path_kind == kind
            &&& status.label == label && status.endpoint == endpoint
            &&& !status.reachable && status.latency is None && status.last_error is None
            &&& status.packets_sent == 0 && status.packets_received == 0
            &&& status.bytes_sent == 0 && status.bytes_received == 0
            &&& status.probes_sent == 0 && status.probes_received == 0 && status.probes_lost == 0
        }),
{
}

} // verus!
