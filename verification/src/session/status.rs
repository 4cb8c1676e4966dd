//! What the user interface is told about a running session.
//!
//! The workers publish their counters and the scheduler its pick in separate
//! places, so this is where they are joined into one snapshot -- including the
//! reconciliation that keeps a route from being reported as carrying traffic
//! while the dispatcher is skipping it.

use vstd::prelude::*;

use crate::bits;
use crate::mtu::EffectiveMtu;
use crate::relay_path::SessionMode;
use crate::scheduler::Strategy;
use crate::session::health;
use crate::session::health::selected_paths;
use crate::session::state::PathSessionStatus;
use crate::session::worker::PATH_QUEUE_DEPTH;
use crate::uplink::UplinkState;

verus! {

/// What the dispatcher uses of the routes, by their numbers.
pub open spec fn routes_selected(statuses: Seq<PathSessionStatus>, selected: u64, n: nat) -> Seq<
    usize,
>
    decreases n,
{
    if n == 0 {
        Seq::<usize>::empty()
    } else {
        let before = routes_selected(statuses, selected, (n - 1) as nat);
        if n <= 64 && bits::bit(selected, (n - 1) as u64) {
            before.push(statuses[n - 1].route)
        } else {
            before
        }
    }
}

/// The routes that are not reachable, by their numbers.
pub open spec fn routes_down(statuses: Seq<PathSessionStatus>, n: nat) -> Seq<usize>
    decreases n,
{
    if n == 0 {
        Seq::<usize>::empty()
    } else {
        let before = routes_down(statuses, (n - 1) as nat);
        if statuses[n - 1].reachable {
            before
        } else {
            before.push(statuses[n - 1].route)
        }
    }
}

/// Whether any route is reachable.
pub open spec fn any_up(statuses: Seq<PathSessionStatus>) -> bool {
    exists|i: int| 0 <= i < statuses.len() && (#[trigger] statuses[i]).reachable
}

/// Whether there are routes, and all of them are reachable.
pub open spec fn all_up(statuses: Seq<PathSessionStatus>) -> bool {
    statuses.len() > 0 && forall|i: int|
        0 <= i < statuses.len() ==> (#[trigger] statuses[i]).reachable
}

/// What the dispatcher actually uses. Reporting the raw pick would show a route
/// as carrying traffic while it is being skipped.
pub fn selected_routes(statuses: &Vec<PathSessionStatus>, decision: u64, healthy: u64) -> (r: Vec<
    usize,
>)
    ensures
        r@ == routes_selected(
            statuses@,
            health::selection(decision, healthy),
            statuses@.len(),
        ),
{
    let selected: u64 = selected_paths(decision, healthy);
    let mut r: Vec<usize> = Vec::new();
    let mut at: usize = 0;
    assert(r@ =~= Seq::<usize>::empty());
    while at < statuses.len()
        invariant
            at <= statuses@.len(),
            r@ == routes_selected(statuses@, selected, at as nat),
        decreases statuses@.len() - at,
    {
        if at < 64 && (selected >> (at as u64)) & 1 == 1 {
            r.push(statuses[at].route);
        }
        at = at + 1;
    }
    r
}

/// Routes the session started or carried on without, so that a path can be said
/// to be down without implying the session is.
pub fn degraded_routes(statuses: &Vec<PathSessionStatus>) -> (r: Vec<usize>)
    ensures
        r@ == routes_down(statuses@, statuses@.len()),
{
    let mut r: Vec<usize> = Vec::new();
    let mut at: usize = 0;
    assert(r@ =~= Seq::<usize>::empty());
    while at < statuses.len()
        invariant
            at <= statuses@.len(),
            r@ == routes_down(statuses@, at as nat),
        decreases statuses@.len() - at,
    {
        if !statuses[at].reachable {
            r.push(statuses[at].route);
        }
        at = at + 1;
    }
    r
}

pub fn any_path_reachable(statuses: &Vec<PathSessionStatus>) -> (r: bool)
    ensures
        r == any_up(statuses@),
{
    let mut at: usize = 0;
    while at < statuses.len()
        invariant
            at <= statuses@.len(),
            forall|i: int| 0 <= i < at ==> !(#[trigger] statuses@[i]).reachable,
        decreases statuses@.len() - at,
    {
        if statuses[at].reachable {
            return true;
        }
        at = at + 1;
    }
    false
}

pub fn all_paths_reachable(statuses: &Vec<PathSessionStatus>) -> (r: bool)
    ensures
        r == all_up(statuses@),
{
    let mut at: usize = 0;
    while at < statuses.len()
        invariant
            at <= statuses@.len(),
            forall|i: int| 0 <= i < at ==> (#[trigger] statuses@[i]).reachable,
        decreases statuses@.len() - at,
    {
        if !statuses[at].reachable {
            return false;
        }
        at = at + 1;
    }
    statuses.len() > 0
}

/// What a running session is reported as, besides the numbers that are passed
/// on as they are.
pub struct StatusReport {
    pub state: &'static str,
    pub mode: &'static str,
    pub strategy: &'static str,
    pub selected_routes: Vec<usize>,
    pub degraded_routes: Vec<usize>,
    pub queue_capacity: usize,
    pub effective_mtu: u16,
    pub transport_overhead: u16,
    pub uplink: &'static str,
}

/// Reports on a running session. One path cannot be scheduled between, so for a
/// direct session nothing is chosen.
pub fn report(
    mode: SessionMode,
    strategy: Strategy,
    statuses: &Vec<PathSessionStatus>,
    decision: u64,
    healthy: u64,
    mtu: EffectiveMtu,
    uplink: UplinkState,
) -> (r: StatusReport)
    ensures
        r.state@ == if any_up(statuses@) {
            "connected"@
        } else {
            "connecting"@
        },
        r.mode@ == mode.word(),
        r.strategy@ == match mode {
            SessionMode::Relay => strategy.word(),
            SessionMode::Direct => "single-path"@,
        },
        r.selected_routes@ == routes_selected(
            statuses@,
            health::selection(decision, healthy),
            statuses@.len(),
        ),
        r.degraded_routes@ == routes_down(statuses@, statuses@.len()),
        r.queue_capacity == PATH_QUEUE_DEPTH,
        r.effective_mtu == mtu.mtu,
        r.transport_overhead == mtu.overhead,
        r.uplink@ == uplink.word(),
{
    StatusReport {
        state: if any_path_reachable(statuses) {
            "connected"
        } else {
            "connecting"
        },
        mode: mode.as_str(),
        strategy: match mode {
            SessionMode::Relay => strategy.as_str(),
            SessionMode::Direct => "single-path",
        },
        selected_routes: selected_routes(statuses, decision, healthy),
        degraded_routes: degraded_routes(statuses),
        queue_capacity: PATH_QUEUE_DEPTH,
        effective_mtu: mtu.mtu,
        transport_overhead: mtu.overhead,
        uplink: uplink.as_str(),
    }
}

/// A route is never reported as carrying traffic while another is healthy and
/// it is not.
pub proof fn a_skipped_route_is_not_reported_as_selected(
    statuses: Seq<PathSessionStatus>,
    decision: u64,
    healthy: u64,
    n: nat,
    k: int,
)
    requires
        healthy != 0,
        n <= statuses.len(),
        0 <= k < routes_selected(statuses, health::selection(decision, healthy), n).len(),
    ensures
        exists|i: int|
            0 <= i < n && i < 64 && bits::bit(healthy, i as u64) && (#[trigger] statuses[i]).route
                == routes_selected(statuses, health::selection(decision, healthy), n)[k],
    decreases n,
{
    let selected = health::selection(decision, healthy);
    let before = routes_selected(statuses, selected, (n - 1) as nat);
    if k < before.len() {
        a_skipped_route_is_not_reported_as_selected(
            statuses,
            decision,
            healthy,
            (n - 1) as nat,
            k,
        );
        let i = choose|i: int|
            0 <= i < n - 1 && i < 64 && bits::bit(healthy, i as u64) && (
            #[trigger] statuses[i]).route == before[k];
        assert(statuses[i].route == routes_selected(statuses, selected, n)[k]);
    } else {
        health::a_dead_route_is_not_chosen_while_another_is_healthy(
            decision,
            healthy,
            (n - 1) as u64,
        );
        assert(statuses[n - 1].route == routes_selected(statuses, selected, n)[k]);
    }
}

proof fn lemma_listed(list: Seq<usize>, route: usize, other: usize)
    ensures
        list.push(route).contains(other) <==> list.contains(other) || route == other,
{
    let all = list.push(route);
    if list.contains(other) {
        let m = choose|m: int| 0 <= m < list.len() && list[m] == other;
        assert(all[m] == other);
    }
    if route == other {
        assert(all[list.len() as int] == other);
    }
    if all.contains(other) && route != other {
        let m = choose|m: int| 0 <= m < all.len() && all[m] == other;
        assert(list[m] == other);
    }
}

/// A route is reported as selected exactly where the mask holds its path, and as
/// degraded exactly where its path is not reachable.
pub proof fn a_report_lists_each_route(
    statuses: Seq<PathSessionStatus>,
    selected: u64,
    n: nat,
    route: usize,
)
    requires
        n <= statuses.len(),
    ensures
        routes_selected(statuses, selected, n).contains(route) <==> exists|i: int|
            0 <= i < n && i < 64 && (#[trigger] statuses[i]).route == route && bits::bit(
                selected,
                i as u64,
            ),
        routes_down(statuses, n).contains(route) <==> exists|i: int|
            0 <= i < n && (#[trigger] statuses[i]).route == route && !statuses[i].reachable,
        routes_selected(statuses, selected, n).len() <= n,
        routes_down(statuses, n).len() <= n,
    decreases n,
{
    if n > 0 {
        let last = n - 1;
        a_report_lists_each_route(statuses, selected, last as nat, route);
        lemma_listed(
            routes_selected(statuses, selected, last as nat),
            statuses[last].route,
            route,
        );
        lemma_listed(routes_down(statuses, last as nat), statuses[last].route, route);
    }
}

} // verus!
