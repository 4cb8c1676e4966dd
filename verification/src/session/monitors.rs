//! What a running session writes to its log beside its paths' own transitions:
//! packet shedding, promptly but not per packet, and a periodic summary that
//! gives a transition the context it would otherwise lack.

use vstd::prelude::*;
use vstd::string::StringExecFns;

use crate::bits;
use crate::session::health;
use crate::session::health::selected_paths;
use crate::session::state::PathSessionStatus;
use crate::session::worker::PathCounters;
use crate::text;
use crate::time;
use crate::uplink::UplinkState;

verus! {

/// Queue shedding is logged promptly, but a burst is combined into one update
/// rather than producing a line for every discarded packet.
pub const DROP_LOG_INTERVAL: u64 = 10_000_000_000;

/// How often a running session writes its summary line.
pub const SESSION_SUMMARY_INTERVAL: u64 = 60_000_000_000;

/// What has already been reported of one route.
#[derive(Debug, Clone, Copy, PartialEq, Eq, Structural)]
pub struct Reported {
    pub dropped: u64,
    pub full: u64,
    pub stale: u64,
    pub inbound: u64,
}

/// How far a counter has moved.
pub open spec fn moved(now: u64, before: u64) -> u64 {
    if now > before {
        (now - before) as u64
    } else {
        0
    }
}

fn moved_by(now: u64, before: u64) -> (r: u64)
    ensures
        r == moved(now, before),
{
    now.saturating_sub(before)
}

/// What is said of one route that has shed packets.
pub open spec fn drop_line(route: nat, counters: PathCounters, reported: Reported) -> Seq<char> {
    text::decimal(route) + ":+"@ + text::decimal(moved(counters.dropped, reported.dropped) as nat)
        + " (full +"@ + text::decimal(moved(counters.queue_full_dropped, reported.full) as nat)
        + ", stale +"@ + text::decimal(moved(counters.stale_dropped, reported.stale) as nat)
        + ", inbound +"@ + text::decimal(moved(counters.inbound_dropped, reported.inbound) as nat)
        + ", q="@ + text::decimal(counters.queue_depth as nat) + ", peak="@ + text::decimal(
        counters.queue_peak as nat,
    ) + ")"@
}

/// What is said of the first `n` routes.
pub open spec fn drop_lines(counters: Seq<PathCounters>, reported: Seq<Reported>, n: nat) -> Seq<
    Seq<char>,
>
    decreases n,
{
    if n == 0 {
        Seq::<Seq<char>>::empty()
    } else {
        let before = drop_lines(counters, reported, (n - 1) as nat);
        if counters[n - 1].dropped > reported[n - 1].dropped {
            before.push(drop_line(n, counters[n - 1], reported[n - 1]))
        } else {
            before
        }
    }
}

/// What has been reported of a route once its drops have been.
pub open spec fn now_reported(counters: PathCounters, reported: Reported) -> Reported {
    if counters.dropped > reported.dropped {
        Reported {
            dropped: counters.dropped,
            full: counters.queue_full_dropped,
            stale: counters.stale_dropped,
            inbound: counters.inbound_dropped,
        }
    } else {
        Reported { dropped: counters.dropped, ..reported }
    }
}

fn write_drop_line(route: usize, counters: &PathCounters, reported: &Reported) -> (r: String)
    ensures
        r@ == drop_line(route as nat, *counters, *reported),
{
    let mut r = text::decimal_text(route as u64);
    r.append(":+");
    r.append(text::decimal_text(moved_by(counters.dropped, reported.dropped)).as_str());
    r.append(" (full +");
    r.append(text::decimal_text(moved_by(counters.queue_full_dropped, reported.full)).as_str());
    r.append(", stale +");
    r.append(text::decimal_text(moved_by(counters.stale_dropped, reported.stale)).as_str());
    r.append(", inbound +");
    r.append(text::decimal_text(moved_by(counters.inbound_dropped, reported.inbound)).as_str());
    r.append(", q=");
    r.append(text::decimal_text(counters.queue_depth).as_str());
    r.append(", peak=");
    r.append(text::decimal_text(counters.queue_peak).as_str());
    r.append(")");
    r
}

/// Reports packet shedding.
pub struct DropLog {
    pub reported: Vec<Reported>,
    pub last_log: Option<u64>,
}

impl DropLog {
    pub fn new(routes: usize) -> (r: Self)
        ensures
            r.reported@.len() == routes,
            forall|i: int|
                0 <= i < routes ==> #[trigger] r.reported@[i] == (Reported {
                    dropped: 0,
                    full: 0,
                    stale: 0,
                    inbound: 0,
                }),
            r.last_log is None,
    {
        let mut reported: Vec<Reported> = Vec::new();
        let mut at: usize = 0;
        while at < routes
            invariant
                at <= routes,
                reported@.len() == at,
                forall|i: int|
                    0 <= i < at ==> #[trigger] reported@[i] == (Reported {
                        dropped: 0,
                        full: 0,
                        stale: 0,
                        inbound: 0,
                    }),
            decreases routes - at,
        {
            reported.push(Reported { dropped: 0, full: 0, stale: 0, inbound: 0 });
            at = at + 1;
        }
        DropLog { reported, last_log: None }
    }

    /// Whether a report is due.
    pub open spec fn due(&self, counters: Seq<PathCounters>, now: u64) -> bool {
        &&& exists|i: int|
            0 <= i < counters.len() && (#[trigger] counters[i]).dropped > self.reported@[i].dropped
        &&& match self.last_log {
            Some(logged) => time::elapsed(now, logged) >= DROP_LOG_INTERVAL,
            None => true,
        }
    }

    /// A line on what each route has shed since the last one, where there is
    /// anything to say and the last one is long enough ago.
    pub fn report(&mut self, session_id: u64, counters: &Vec<PathCounters>, now: u64) -> (r: Option<
        String,
    >)
        requires
            old(self).reported@.len() == counters@.len(),
        ensures
            final(self).reported@.len() == counters@.len(),
            if old(self).due(counters@, now) {
                &&& r matches Some(line)
                &&& line@ == "session "@ + text::decimal(session_id as nat)
                    + " packet shedding by route: "@ + text::separated(
                    drop_lines(counters@, old(self).reported@, counters@.len()),
                    " | "@,
                )
                &&& final(self).last_log == Some(now)
                &&& forall|i: int|
                    0 <= i < counters@.len() ==> #[trigger] final(self).reported@[i]
                        == now_reported(counters@[i], old(self).reported@[i])
            } else {
                &&& r is None
                &&& *final(self) == *old(self)
            },
    {
        let mut news: bool = false;
        let mut at: usize = 0;
        while at < counters.len()
            invariant
                at <= counters@.len() == self.reported@.len(),
                news == (exists|i: int|
                    0 <= i < at && (#[trigger] counters@[i]).dropped > self.reported@[i].dropped),
            decreases counters@.len() - at,
        {
            if counters[at].dropped > self.reported[at].dropped {
                news = true;
                assert(counters@[at as int].dropped > self.reported@[at as int].dropped);
            }
            at = at + 1;
        }
        let quiet: bool = match self.last_log {
            Some(logged) => time::since(now, logged) < DROP_LOG_INTERVAL,
            None => false,
        };
        if !news || quiet {
            return None;
        }
        let ghost before = self.reported@;
        let mut lines: Vec<String> = Vec::new();
        at = 0;
        assert(text::string_views(lines@) =~= Seq::<Seq<char>>::empty());
        while at < counters.len()
            invariant
                at <= counters@.len() == self.reported@.len(),
                before.len() == counters@.len(),
                forall|i: int| at <= i < before.len() ==> #[trigger] self.reported@[i] == before[i],
                forall|i: int|
                    0 <= i < at ==> #[trigger] self.reported@[i] == now_reported(
                        counters@[i],
                        before[i],
                    ),
                text::string_views(lines@) == drop_lines(counters@, before, at as nat),
                self.last_log == old(self).last_log,
            decreases counters@.len() - at,
        {
            let count: PathCounters = counters[at];
            let seen: Reported = self.reported[at];
            if count.dropped > seen.dropped {
                let ghost so_far = lines@;
                lines.push(write_drop_line(at + 1, &count, &seen));
                assert(text::string_views(lines@) =~= text::string_views(so_far).push(
                    drop_line((at + 1) as nat, count, seen),
                ));
                self.reported.set(
                    at,
                    Reported {
                        dropped: count.dropped,
                        full: count.queue_full_dropped,
                        stale: count.stale_dropped,
                        inbound: count.inbound_dropped,
                    },
                );
            } else {
                self.reported.set(
                    at,
                    Reported {
                        dropped: count.dropped,
                        full: seen.full,
                        stale: seen.stale,
                        inbound: seen.inbound,
                    },
                );
            }
            at = at + 1;
        }
        self.last_log = Some(now);
        let mut line = text::concat3(
            "session ",
            text::decimal_text(session_id).as_str(),
            " packet shedding by route: ",
        );
        line.append(text::join(&lines, " | ").as_str());
        Some(line)
    }
}

/// The counts at the last summary of one route.
#[derive(Debug, Clone, Copy, PartialEq, Eq, Structural)]
pub struct Snapshot {
    pub lost: u64,
    pub dropped: u64,
    pub sent: u64,
    pub received: u64,
}

/// What a summary says of one route besides its current numbers.
#[derive(Debug, Clone, Copy, PartialEq, Eq, Structural)]
pub struct RouteSummary {
    pub route: usize,
    pub reachable: bool,
    pub carrying: bool,
    pub lost: u64,
    pub dropped: u64,
    pub sent: u64,
    pub received: u64,
}

/// The counts of one route now.
pub open spec fn snapshot_of(status: PathSessionStatus, counters: PathCounters) -> Snapshot {
    Snapshot {
        lost: status.probes_lost,
        dropped: counters.dropped,
        sent: status.packets_sent,
        received: status.packets_received,
    }
}

/// What is said of one route, given the counts at the last summary.
pub open spec fn summary_of(
    index: int,
    status: PathSessionStatus,
    counters: PathCounters,
    previous: Snapshot,
    selected: u64,
) -> RouteSummary {
    RouteSummary {
        route: status.route,
        reachable: status.reachable,
        carrying: index < 64 && bits::bit(selected, index as u64),
        lost: moved(status.probes_lost, previous.lost),
        dropped: moved(counters.dropped, previous.dropped),
        sent: moved(status.packets_sent, previous.sent),
        received: moved(status.packets_received, previous.received),
    }
}

/// Summarises a session once a minute.
///
/// This is the context a transition on its own does not give: what the other
/// routes were doing at the time, whether queues were backing up, and how much
/// had been shed. One line a minute remains small enough for the rotation cap.
pub struct SummaryLog {
    pub previous: Vec<Snapshot>,
    pub next: u64,
}

impl SummaryLog {
    pub fn new(routes: usize, now: u64) -> (r: Self)
        ensures
            r.previous@.len() == routes,
            forall|i: int|
                0 <= i < routes ==> #[trigger] r.previous@[i] == (Snapshot {
                    lost: 0,
                    dropped: 0,
                    sent: 0,
                    received: 0,
                }),
            r.next == time::later(now, SESSION_SUMMARY_INTERVAL),
    {
        let mut previous: Vec<Snapshot> = Vec::new();
        let mut at: usize = 0;
        while at < routes
            invariant
                at <= routes,
                previous@.len() == at,
                forall|i: int|
                    0 <= i < at ==> #[trigger] previous@[i] == (Snapshot {
                        lost: 0,
                        dropped: 0,
                        sent: 0,
                        received: 0,
                    }),
            decreases routes - at,
        {
            previous.push(Snapshot { lost: 0, dropped: 0, sent: 0, received: 0 });
            at = at + 1;
        }
        SummaryLog { previous, next: time::after(now, SESSION_SUMMARY_INTERVAL) }
    }

    /// What every route did since the last summary, once one is due.
    pub fn summarize(
        &mut self,
        statuses: &Vec<PathSessionStatus>,
        counters: &Vec<PathCounters>,
        decision: u64,
        healthy: u64,
        now: u64,
    ) -> (r: Option<Vec<RouteSummary>>)
        requires
            old(self).previous@.len() == statuses@.len(),
            counters@.len() == statuses@.len(),
        ensures
            final(self).previous@.len() == statuses@.len(),
            if now >= old(self).next {
                &&& r matches Some(routes)
                &&& routes@.len() == statuses@.len()
                &&& final(self).next == time::later(now, SESSION_SUMMARY_INTERVAL)
                &&& forall|i: int|
                    0 <= i < statuses@.len() ==> #[trigger] routes@[i] == summary_of(
                        i,
                        statuses@[i],
                        counters@[i],
                        old(self).previous@[i],
                        health::selection(decision, healthy),
                    )
                &&& forall|i: int|
                    0 <= i < statuses@.len() ==> #[trigger] final(self).previous@[i] == snapshot_of(
                        statuses@[i],
                        counters@[i],
                    )
            } else {
                &&& r is None
                &&& *final(self) == *old(self)
            },
    {
        if now < self.next {
            return None;
        }
        self.next = time::after(now, SESSION_SUMMARY_INTERVAL);
        let selected: u64 = selected_paths(decision, healthy);
        let ghost before = self.previous@;
        let mut routes: Vec<RouteSummary> = Vec::new();
        let mut at: usize = 0;
        while at < statuses.len()
            invariant
                at <= statuses@.len() == counters@.len() == before.len(),
                self.previous@.len() == before.len(),
                self.next == time::later(now, SESSION_SUMMARY_INTERVAL),
                selected == health::selection(decision, healthy),
                routes@.len() == at,
                forall|i: int| at <= i < before.len() ==> #[trigger] self.previous@[i] == before[i],
                forall|i: int|
                    0 <= i < at ==> #[trigger] self.previous@[i] == snapshot_of(
                        statuses@[i],
                        counters@[i],
                    ),
                forall|i: int|
                    0 <= i < at ==> #[trigger] routes@[i] == summary_of(
                        i,
                        statuses@[i],
                        counters@[i],
                        before[i],
                        selected,
                    ),
            decreases statuses@.len() - at,
        {
            let status = &statuses[at];
            let count: PathCounters = counters[at];
            let last: Snapshot = self.previous[at];
            let carrying: bool = at < 64 && (selected >> (at as u64)) & 1 == 1;
            routes.push(
                RouteSummary {
                    route: status.route,
                    reachable: status.reachable,
                    carrying,
                    lost: moved_by(status.probes_lost, last.lost),
                    dropped: moved_by(count.dropped, last.dropped),
                    sent: moved_by(status.packets_sent, last.sent),
                    received: moved_by(status.packets_received, last.received),
                },
            );
            self.previous.set(
                at,
                Snapshot {
                    lost: status.probes_lost,
                    dropped: count.dropped,
                    sent: status.packets_sent,
                    received: status.packets_received,
                },
            );
            at = at + 1;
        }
        Some(routes)
    }
}

/// The measured numbers of one route, rounded for a line of text.
#[derive(Debug, Clone)]
pub struct Measured {
    /// The last round trip to the relay, in milliseconds, where there was one.
    pub relay_rtt: Option<String>,
    /// The smoothed latency, in milliseconds.
    pub ewma: String,
    /// The smoothed jitter, in milliseconds.
    pub jitter: String,
    /// The smoothed loss, in percent.
    pub loss: String,
}

/// What a summary line says of one route.
pub open spec fn route_line(
    summary: RouteSummary,
    status: PathSessionStatus,
    counters: PathCounters,
    measured: Measured,
) -> Seq<char> {
    text::decimal(summary.route as nat) + ":"@ + (if summary.reachable {
        "up"@
    } else {
        "down"@
    }) + (if summary.carrying {
        "/active"@
    } else {
        ""@
    }) + " relay-rtt="@ + (match measured.relay_rtt {
        Some(rtt) => rtt@ + "ms"@,
        None => "-"@,
    }) + " ewma="@ + measured.ewma@ + "ms jitter="@ + measured.jitter@ + "ms loss-ewma="@
        + measured.loss@ + "% probes-lost="@ + text::decimal(status.probes_lost as nat) + " (+"@
        + text::decimal(summary.lost as nat) + ") q="@ + text::decimal(counters.queue_depth as nat)
        + "/peak="@ + text::decimal(counters.queue_peak as nat) + " drop="@ + text::decimal(
        counters.dropped as nat,
    ) + " (+"@ + text::decimal(summary.dropped as nat) + "; full="@ + text::decimal(
        counters.queue_full_dropped as nat,
    ) + " stale="@ + text::decimal(counters.stale_dropped as nat) + " inbound="@ + text::decimal(
        counters.inbound_dropped as nat,
    ) + ") packets=+"@ + text::decimal(summary.sent as nat) + "/+"@ + text::decimal(
        summary.received as nat,
    ) + " worker-gap-peak="@ + text::decimal(counters.worker_gap_peak_ms as nat) + "ms"@
}

fn write_route_line(
    summary: &RouteSummary,
    status: &PathSessionStatus,
    counters: &PathCounters,
    measured: &Measured,
) -> (r: String)
    ensures
        r@ == route_line(*summary, *status, *counters, *measured),
{
    let mut r = text::decimal_text(summary.route as u64);
    r.append(":");
    r.append(
        if summary.reachable {
            "up"
        } else {
            "down"
        },
    );
    r.append(
        if summary.carrying {
            "/active"
        } else {
            ""
        },
    );
    r.append(" relay-rtt=");
    let rtt: String = match &measured.relay_rtt {
        Some(rtt) => text::concat2(rtt.as_str(), "ms"),
        None => "-".to_owned(),
    };
    r.append(rtt.as_str());
    r.append(" ewma=");
    r.append(measured.ewma.as_str());
    r.append("ms jitter=");
    r.append(measured.jitter.as_str());
    r.append("ms loss-ewma=");
    r.append(measured.loss.as_str());
    r.append("% probes-lost=");
    r.append(text::decimal_text(status.probes_lost).as_str());
    r.append(" (+");
    r.append(text::decimal_text(summary.lost).as_str());
    r.append(") q=");
    r.append(text::decimal_text(counters.queue_depth).as_str());
    r.append("/peak=");
    r.append(text::decimal_text(counters.queue_peak).as_str());
    r.append(" drop=");
    r.append(text::decimal_text(counters.dropped).as_str());
    r.append(" (+");
    r.append(text::decimal_text(summary.dropped).as_str());
    r.append("; full=");
    r.append(text::decimal_text(counters.queue_full_dropped).as_str());
    r.append(" stale=");
    r.append(text::decimal_text(counters.stale_dropped).as_str());
    r.append(" inbound=");
    r.append(text::decimal_text(counters.inbound_dropped).as_str());
    r.append(") packets=+");
    r.append(text::decimal_text(summary.sent).as_str());
    r.append("/+");
    r.append(text::decimal_text(summary.received).as_str());
    r.append(" worker-gap-peak=");
    r.append(text::decimal_text(counters.worker_gap_peak_ms).as_str());
    r.append("ms");
    r
}

/// What a summary line says of every route.
pub open spec fn route_lines(
    routes: Seq<RouteSummary>,
    statuses: Seq<PathSessionStatus>,
    counters: Seq<PathCounters>,
    measured: Seq<Measured>,
) -> Seq<Seq<char>> {
    Seq::new(
        routes.len(),
        |i: int| route_line(routes[i], statuses[i], counters[i], measured[i]),
    )
}

/// The state of the uplink, as a summary line names it.
pub open spec fn uplink_name(state: UplinkState) -> Seq<char> {
    match state {
        UplinkState::Up => "Up"@,
        UplinkState::Down => "Down"@,
        UplinkState::Unknown => "Unknown"@,
    }
}

/// The line that summarises a session: the uplink, then every route.
pub fn summary_line(
    session_id: u64,
    uplink: UplinkState,
    routes: &Vec<RouteSummary>,
    statuses: &Vec<PathSessionStatus>,
    counters: &Vec<PathCounters>,
    measured: &Vec<Measured>,
) -> (r: String)
    requires
        statuses@.len() == routes@.len(),
        counters@.len() == routes@.len(),
        measured@.len() == routes@.len(),
    ensures
        r@ == "session "@ + text::decimal(session_id as nat) + ": uplink "@ + uplink_name(uplink)
            + " | "@ + text::separated(
            route_lines(routes@, statuses@, counters@, measured@),
            " | "@,
        ),
{
    let mut lines: Vec<String> = Vec::new();
    let mut at: usize = 0;
    while at < routes.len()
        invariant
            at <= routes@.len() == statuses@.len() == counters@.len() == measured@.len(),
            lines@.len() == at,
            forall|i: int|
                0 <= i < at ==> (#[trigger] lines@[i])@ == route_line(
                    routes@[i],
                    statuses@[i],
                    counters@[i],
                    measured@[i],
                ),
        decreases routes@.len() - at,
    {
        lines.push(
            write_route_line(&routes[at], &statuses[at], &counters[at], &measured[at]),
        );
        at = at + 1;
    }
    assert(text::string_views(lines@) =~= route_lines(
        routes@,
        statuses@,
        counters@,
        measured@,
    ));
    let mut r = text::concat3("session ", text::decimal_text(session_id).as_str(), ": uplink ");
    r.append(
        match uplink {
            UplinkState::Up => "Up",
            UplinkState::Down => "Down",
            UplinkState::Unknown => "Unknown",
        },
    );
    r.append(" | ");
    r.append(text::join(&lines, " | ").as_str());
    r
}

/// A burst is reported once: once every route's drops have been reported,
/// nothing is due until packets have been shed again, however long that is.
pub proof fn a_burst_is_reported_once(
    log: DropLog,
    counters: Seq<PathCounters>,
    before: Seq<Reported>,
    now: u64,
)
    requires
        forall|i: int|
            0 <= i < counters.len() ==> log.reported@[i] == now_reported(
                #[trigger] counters[i],
                before[i],
            ),
    ensures
        !log.due(counters, now),
{
}

/// What is reported of a path is what was dropped since the last report: the two
/// add up to the path's count.
pub proof fn reports_add_up(counters: PathCounters, reported: Reported)
    requires
        reported.dropped <= counters.dropped,
        reported.full <= counters.queue_full_dropped,
        reported.stale <= counters.stale_dropped,
        reported.inbound <= counters.inbound_dropped,
    ensures
        reported.dropped + moved(counters.dropped, reported.dropped) == counters.dropped,
        reported.full + moved(counters.queue_full_dropped, reported.full)
            == counters.queue_full_dropped,
        reported.stale + moved(counters.stale_dropped, reported.stale) == counters.stale_dropped,
        reported.inbound + moved(counters.inbound_dropped, reported.inbound)
            == counters.inbound_dropped,
        now_reported(counters, reported).dropped == counters.dropped,
        counters.dropped > reported.dropped ==> now_reported(counters, reported) == (Reported {
            dropped: counters.dropped,
            full: counters.queue_full_dropped,
            stale: counters.stale_dropped,
            inbound: counters.inbound_dropped,
        }),
{
}

/// Drops are reported where a path has new ones, at most every ten seconds.
pub proof fn drops_are_reported_now_and_then(
    log: DropLog,
    counters: Seq<PathCounters>,
    i: int,
    now: u64,
)
    requires
        0 <= i < counters.len(),
        counters[i].dropped > log.reported@[i].dropped,
        log.last_log matches Some(logged) ==> logged <= now,
    ensures
        log.due(counters, now) <==> (log.last_log matches Some(logged) ==> now - logged
            >= 10_000_000_000),
{
}

/// There is a line for each path with new drops and for no other, in order.
pub proof fn each_lossy_path_has_a_line(
    counters: Seq<PathCounters>,
    reported: Seq<Reported>,
    n: nat,
)
    ensures
        drop_lines(counters, reported, n + 1) == if counters[n as int].dropped
            > reported[n as int].dropped {
            drop_lines(counters, reported, n).push(
                drop_line(n + 1, counters[n as int], reported[n as int]),
            )
        } else {
            drop_lines(counters, reported, n)
        },
        drop_lines(counters, reported, 0).len() == 0,
{
}

/// A summary tells what moved since the one before, and whether the path carries
/// traffic.
pub proof fn a_summary_tells_what_moved(
    index: int,
    status: PathSessionStatus,
    counters: PathCounters,
    previous: Snapshot,
    selected: u64,
)
    requires
        0 <= index < 64,
        previous.lost <= status.probes_lost,
        previous.dropped <= counters.dropped,
        previous.sent <= status.packets_sent,
        previous.received <= status.packets_received,
    ensures
        ({
            let told = summary_of(index, status, counters, previous, selected);
            let next = snapshot_of(status, counters);
            &&& told.route == status.route && told.reachable == status.reachable
            &&& told.carrying == bits::bit(selected, index as u64)
            &&& previous.lost + told.lost == next.lost && next.lost == status.probes_lost
            &&& previous.dropped + told.dropped == next.dropped && next.dropped == counters.dropped
            &&& previous.sent + told.sent == next.sent && next.sent == status.packets_sent
            &&& previous.received + told.received == next.received && next.received
                == status.packets_received
        }),
{
}

} // verus!
