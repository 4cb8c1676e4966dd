//! The single worker that a direct session runs: no relay to exchange control
//! frames with, so the node's own handshake decides whether it is up and an
//! ICMP echo through the tunnel is telemetry on top of that.
//!
//! The WireGuard handshake decides whether the node is up: it either answered
//! or it did not, and nothing about the user's traffic can make that ambiguous.
//! An ICMP echo through the tunnel then measures the whole trip out to the
//! Internet -- but only as telemetry. Plenty of providers filter ICMP while
//! routing everything else perfectly, so after a few unanswered probes this
//! stops asking so often and never counts them as loss, rather than reporting a
//! healthy node as totally lossy.

use std::collections::VecDeque;
use vstd::prelude::*;

use crate::net::Ipv4;
use crate::packet;
use crate::rtt::{RttEstimator, MIN_TIMEOUT};
use crate::scheduler;
use crate::session::health;
use crate::session::health::{publish_path_health, record_path_receive, PROBE_INTERVAL};
use crate::session::latency::{LatencyWatch, Observation, Reading};
use crate::session::state::{PathSessionStatus, StatusModel};
use crate::session::worker;
use crate::session::worker::{GapWatch, PathCounters};
use crate::text;
use crate::time;
use crate::BENCHMARK_TARGET;

verus! {

/// How many unanswered probes it takes to conclude the node filters ICMP.
pub const DIRECT_PROBE_ATTEMPTS: u64 = 3;

/// How many probes a node that *had* been answering may miss in a row before
/// it is reported as down. There is no second path to fail over to here, so
/// this only decides when the user is told, and a twitchier number would
/// report a hiccup as an outage.
pub const DIRECT_LOSS_LIMIT: u64 = 3;

/// How recently the node must have sent something authenticated for the path to
/// count as carrying traffic regardless of what the ICMP probes say.
pub const DIRECT_LIVENESS_WINDOW: u64 = 5_000_000_000;

/// Probe interval once a node has shown it will not answer ICMP. Slow enough
/// to be free, frequent enough that a node which starts answering is noticed.
pub const DIRECT_QUIET_PROBE_INTERVAL: u64 = 15_000_000_000;

/// How long a WireGuard node may stay silent before that is said.
pub const SILENCE_LIMIT: u64 = 3_000_000_000;

pub const STOPPED_ANSWERING: &'static str = " stopped answering probes sent through the tunnel";

pub const NO_HANDSHAKE: &'static str = "no WireGuard handshake reply from ";

pub const CHECK_CONFIG: &'static str =
    "; check the configuration's Endpoint, PrivateKey and Peer PublicKey";

/// Where a direct session's latency probe is aimed. A public resolver that
/// answers echo requests, reached through the node like any game server.
pub const DIRECT_PROBE_TARGET: u32 = BENCHMARK_TARGET;

/// The state of the single path of a direct session.
pub struct DirectWorker {
    /// Where the node is, as it is named to the user.
    pub endpoint: String,
    /// Whether the node is a WireGuard one.
    pub wireguard: bool,
    pub probe_sequence: u16,
    pub next_probe: u64,
    pub pending_probe: Option<u64>,
    /// The probe deadline follows this node's own round trip, so a provider that
    /// is simply distant is not mistaken for one that is losing packets.
    pub rtt: RttEstimator,
    pub watch: LatencyWatch,
    pub gap: GapWatch,
    pub probes_attempted: u64,
    pub consecutive_losses: u64,
    pub echo_answered: bool,
    pub published_health: (Option<u64>, bool),
    pub published_error: bool,
    /// Set once this worker has a specific answer for why the node is not
    /// usable. Transport errors are noisier and less useful than that answer,
    /// so they stop overwriting it.
    pub verdict: bool,
    pub started: u64,
    pub reported_silence: bool,
    /// Any packet the node sends back has already passed the tunnel's own
    /// authentication, so it proves the tunnel is alive whether or not ICMP is
    /// carried. Handshake age alone does not: a node can complete one and then
    /// stop forwarding.
    pub last_authenticated_receive: Option<u64>,
    pub published_healthy: bool,
}

/// The state of the worker.
#[verifier::ext_equal]
pub struct DirectModel {
    pub endpoint: Seq<char>,
    pub wireguard: bool,
    pub probe_sequence: u16,
    pub next_probe: u64,
    pub pending_probe: Option<u64>,
    pub rtt: RttEstimator,
    pub watch: LatencyWatch,
    pub gap: GapWatch,
    pub probes_attempted: u64,
    pub consecutive_losses: u64,
    pub echo_answered: bool,
    pub published_health: (Option<u64>, bool),
    pub published_error: bool,
    pub verdict: bool,
    pub started: u64,
    pub reported_silence: bool,
    pub last_authenticated_receive: Option<u64>,
    pub published_healthy: bool,
}

impl View for DirectWorker {
    type V = DirectModel;

    open spec fn view(&self) -> DirectModel {
        DirectModel {
            endpoint: self.endpoint@,
            wireguard: self.wireguard,
            probe_sequence: self.probe_sequence,
            next_probe: self.next_probe,
            pending_probe: self.pending_probe,
            rtt: self.rtt,
            watch: self.watch,
            gap: self.gap,
            probes_attempted: self.probes_attempted,
            consecutive_losses: self.consecutive_losses,
            echo_answered: self.echo_answered,
            published_health: self.published_health,
            published_error: self.published_error,
            verdict: self.verdict,
            started: self.started,
            reported_silence: self.reported_silence,
            last_authenticated_receive: self.last_authenticated_receive,
            published_healthy: self.published_healthy,
        }
    }
}

impl DirectModel {
    pub open spec fn wf(self) -> bool {
        self.rtt.wf() && self.watch.wf()
    }

    pub open spec fn fresh(endpoint: Seq<char>, wireguard: bool, now: u64) -> DirectModel {
        DirectModel {
            endpoint,
            wireguard,
            probe_sequence: 0,
            next_probe: now,
            pending_probe: None,
            rtt: RttEstimator::unmeasured(MIN_TIMEOUT),
            watch: LatencyWatch::fresh(),
            gap: GapWatch { last_iteration: now, last_log: None },
            probes_attempted: 0,
            consecutive_losses: 0,
            echo_answered: false,
            published_health: (None, false),
            published_error: false,
            verdict: false,
            started: now,
            reported_silence: false,
            last_authenticated_receive: None,
            published_healthy: false,
        }
    }

    /// Whether the node has sent something authenticated lately. That outranks
    /// what the probes say: a node that is demonstrably carrying packets is not
    /// down because ICMP is being filtered somewhere past it.
    pub open spec fn carrying(self, now: u64) -> bool {
        self.last_authenticated_receive matches Some(seen) && time::elapsed(now, seen)
            <= DIRECT_LIVENESS_WINDOW
    }

    /// Whether a node that had been answering has stopped.
    pub open spec fn losing(self, now: u64) -> bool {
        self.echo_answered && self.consecutive_losses >= DIRECT_LOSS_LIMIT && !self.carrying(now)
    }

    /// Whether the node is up, given what its handshake took.
    pub open spec fn up(self, handshake: Option<u64>, now: u64) -> bool {
        handshake is Some && !self.losing(now)
    }

    pub open spec fn judged(self, handshake: Option<u64>, now: u64) -> DirectModel {
        let reachable = self.up(handshake, now);
        let next = DirectModel { published_healthy: reachable, ..self };
        if self.published_health != (handshake, reachable) {
            DirectModel {
                published_error: self.losing(now),
                verdict: self.losing(now),
                published_health: (handshake, reachable),
                ..next
            }
        } else {
            next
        }
    }

    /// The status that goes with it. The handshake stands in for the end-to-end
    /// number until a probe answers, so a node that filters ICMP still reports a
    /// real measurement. WireGuard's handshake is one round trip, so it doubles
    /// as a hop estimate; OpenVPN's spans a TLS negotiation whose round-trip
    /// count depends on the server, so none is offered.
    pub open spec fn judged_status(
        self,
        handshake: Option<u64>,
        status: StatusModel,
        now: u64,
    ) -> StatusModel {
        let reachable = self.up(handshake, now);
        if self.published_health != (handshake, reachable) {
            StatusModel {
                reachable,
                handshake,
                handshake_round_trips: if self.wireguard {
                    Some(1u8)
                } else {
                    None
                },
                latency: if status.latency is None {
                    handshake
                } else {
                    status.latency
                },
                last_error: if self.losing(now) {
                    Some(self.endpoint + STOPPED_ANSWERING@)
                } else {
                    None
                },
                ..status
            }
        } else {
            status
        }
    }

    pub open spec fn wants_probe(self, now: u64) -> bool {
        self.pending_probe is None && now >= self.next_probe
    }

    /// A failed send or receive is noted, unless there is a better answer.
    pub open spec fn noted(self) -> DirectModel {
        if self.verdict {
            self
        } else {
            DirectModel { published_error: true, ..self }
        }
    }

    pub open spec fn noted_status(self, error: Seq<char>, status: StatusModel) -> StatusModel {
        if self.verdict {
            status
        } else {
            StatusModel { last_error: Some(error), ..status }
        }
    }

    /// The worker once its probe was answered.
    pub open spec fn answered(self, now: u64) -> DirectModel {
        match self.pending_probe {
            Some(started) => DirectModel {
                pending_probe: None,
                rtt: self.rtt.recorded(time::elapsed(now, started) as u64),
                echo_answered: true,
                consecutive_losses: 0,
                last_authenticated_receive: Some(now),
                ..self
            },
            None => self,
        }
    }

    /// The probe this answers was sent before ICMP was known to work, so it was
    /// not counted then.
    pub open spec fn answered_status(self, status: StatusModel, now: u64) -> StatusModel {
        match self.pending_probe {
            Some(started) => StatusModel {
                probes_sent: if self.echo_answered {
                    status.probes_sent
                } else {
                    scheduler::counted(status.probes_sent)
                },
                probes_received: scheduler::counted(status.probes_received),
                latency: Some(time::elapsed(now, started) as u64),
                ..status
            },
            None => status,
        }
    }

    pub open spec fn silent(self, handshake: Option<u64>, now: u64) -> bool {
        !self.reported_silence && self.wireguard && handshake is None && time::elapsed(
            now,
            self.started,
        ) > SILENCE_LIMIT
    }

    pub open spec fn probe_overdue(self, now: u64) -> bool {
        self.pending_probe matches Some(started) && time::elapsed(now, started)
            > self.rtt.deadline()
    }

    /// The worker once its probe has missed its deadline. A node that never
    /// answered once does not carry ICMP, which says nothing about the traffic
    /// it does carry: the probes back off to a slow retry rather than stopping
    /// for the session, so a node that starts answering later is measured again.
    pub open spec fn timed_out(self, now: u64) -> DirectModel {
        let next = DirectModel { pending_probe: None, ..self };
        if self.echo_answered {
            DirectModel {
                consecutive_losses: scheduler::counted(self.consecutive_losses),
                ..next
            }
        } else if self.probes_attempted >= DIRECT_PROBE_ATTEMPTS {
            DirectModel { next_probe: time::later(now, DIRECT_QUIET_PROBE_INTERVAL), ..next }
        } else {
            next
        }
    }

    /// Probes that are counted as on their way.
    pub open spec fn in_flight(self) -> int {
        if self.echo_answered && self.pending_probe is Some {
            1
        } else {
            0
        }
    }

    /// Every answered or lost probe is counted against one that was sent, and a
    /// node that never answered reports no probes at all.
    pub open spec fn tallies(self, status: StatusModel) -> bool {
        &&& status.probes_received + status.probes_lost + self.in_flight() <= status.probes_sent
        &&& !self.echo_answered ==> status.probes_sent == 0
        &&& status.probes_sent < u64::MAX
    }
}

impl DirectWorker {
    pub fn new(endpoint: String, wireguard: bool, now: u64) -> (r: Self)
        ensures
            r@ == DirectModel::fresh(endpoint@, wireguard, now),
            r@.wf(),
    {
        DirectWorker {
            endpoint,
            wireguard,
            probe_sequence: 0,
            next_probe: now,
            pending_probe: None,
            rtt: RttEstimator::default(),
            watch: LatencyWatch::default(),
            gap: GapWatch::new(now),
            probes_attempted: 0,
            consecutive_losses: 0,
            echo_answered: false,
            published_health: (None, false),
            published_error: false,
            verdict: false,
            started: now,
            reported_silence: false,
            last_authenticated_receive: None,
            published_healthy: false,
        }
    }

    /// An iteration begins. The gap since the last one, in milliseconds, where
    /// it is worth a line.
    pub fn begin(&mut self, counters: &mut PathCounters, now: u64) -> (r: Option<u64>)
        ensures
            final(self)@ == (DirectModel { gap: old(self)@.gap.begun(now), ..old(self)@ }),
            ({
                let gap = time::elapsed(now, old(self)@.gap.last_iteration) / 1_000_000;
                &&& r == if old(self)@.gap.reports(now) {
                    Some(gap as u64)
                } else {
                    None
                }
                &&& *final(counters) == (PathCounters {
                    iterations: worker::plus(old(counters).iterations, 1),
                    worker_gap_peak_ms: if gap > old(counters).worker_gap_peak_ms {
                        gap as u64
                    } else {
                        old(counters).worker_gap_peak_ms
                    },
                    ..*old(counters)
                })
            }),
    {
        self.gap.begin(counters, now)
    }

    /// Decides whether the node is up, given what its handshake took, and
    /// publishes that where it moved.
    pub fn judge(
        &mut self,
        handshake: Option<u64>,
        status: &mut PathSessionStatus,
        healthy: &mut u64,
        now: u64,
    )
        ensures
            final(self)@ == old(self)@.judged(handshake, now),
            final(status)@ == old(self)@.judged_status(handshake, old(status)@, now),
            *final(healthy) == if old(self)@.up(handshake, now) != old(self)@.published_healthy {
                health::published(*old(healthy), 0, old(self)@.up(handshake, now))
            } else {
                *old(healthy)
            },
    {
        let carrying: bool = match self.last_authenticated_receive {
            Some(seen) => time::since(now, seen) <= DIRECT_LIVENESS_WINDOW,
            None => false,
        };
        let losing: bool = self.echo_answered && self.consecutive_losses >= DIRECT_LOSS_LIMIT
            && !carrying;
        let reachable: bool = handshake.is_some() && !losing;
        if reachable != self.published_healthy {
            publish_path_health(healthy, 0, reachable);
            self.published_healthy = reachable;
        }
        let same: bool = reachable == self.published_health.1 && match (
            handshake,
            self.published_health.0,
        ) {
            (Some(a), Some(b)) => a == b,
            (None, None) => true,
            _ => false,
        };
        if !same {
            status.reachable = reachable;
            status.handshake = handshake;
            status.handshake_round_trips = if self.wireguard {
                Some(1)
            } else {
                None
            };
            if status.latency.is_none() {
                status.latency = handshake;
            }
            status.last_error = if losing {
                Some(text::concat2(self.endpoint.as_str(), STOPPED_ANSWERING))
            } else {
                None
            };
            self.published_error = losing;
            self.verdict = losing;
            self.published_health = (handshake, reachable);
        }
    }

    pub fn probe_due(&self, now: u64) -> (r: bool)
        ensures
            r == self@.wants_probe(now),
    {
        self.pending_probe.is_none() && now >= self.next_probe
    }

    /// The sequence of the probe to send.
    pub fn next_sequence(&mut self) -> (r: u16)
        ensures
            r == (old(self)@.probe_sequence + 1) % 0x1_0000,
            final(self)@ == (DirectModel { probe_sequence: r, ..old(self)@ }),
    {
        self.probe_sequence = self.probe_sequence.wrapping_add(1);
        self.probe_sequence
    }

    /// The probe to send: an echo to the far end of the Internet, under the next
    /// sequence.
    pub fn make_probe(&mut self, address: Ipv4, identifier: u16) -> (r: Vec<u8>)
        ensures
            final(self)@ == (DirectModel {
                probe_sequence: ((old(self)@.probe_sequence + 1) % 0x1_0000) as u16,
                ..old(self)@
            }),
            r@ == packet::echo_bytes(
                address,
                Ipv4(DIRECT_PROBE_TARGET),
                identifier,
                final(self)@.probe_sequence,
                false,
            ),
    {
        let sequence: u16 = self.next_sequence();
        packet::echo_packet(address, Ipv4(DIRECT_PROBE_TARGET), identifier, sequence, false)
    }

    /// A probe is on its way. Until one probe is answered nothing is published,
    /// so a node that filters ICMP never reports probes it did send and never
    /// looks totally lossy because of it.
    pub fn probe_sent(&mut self, status: &mut PathSessionStatus, now: u64)
        ensures
            final(self)@ == (DirectModel {
                probes_attempted: scheduler::counted(old(self)@.probes_attempted),
                pending_probe: Some(now),
                next_probe: time::later(now, PROBE_INTERVAL),
                ..old(self)@
            }),
            final(status)@ == if old(self)@.echo_answered {
                StatusModel {
                    probes_sent: scheduler::counted(old(status)@.probes_sent),
                    ..old(status)@
                }
            } else {
                old(status)@
            },
    {
        self.probes_attempted = self.probes_attempted.saturating_add(1);
        if self.echo_answered {
            status.probes_sent = status.probes_sent.saturating_add(1);
        }
        self.pending_probe = Some(now);
        self.next_probe = time::after(now, PROBE_INTERVAL);
    }

    /// A probe could not be sent. The handshake, not this probe, decides whether
    /// the node is up, so this is recorded and the loop carries on.
    pub fn probe_send_failed(&mut self, error: String, status: &mut PathSessionStatus, now: u64)
        ensures
            final(self)@ == (DirectModel {
                next_probe: time::later(now, PROBE_INTERVAL),
                ..old(self)@.noted()
            }),
            final(status)@ == old(self)@.noted_status(error@, old(status)@),
    {
        self.receive_failed(error, status);
        self.next_probe = time::after(now, PROBE_INTERVAL);
    }

    /// The reply to a probe came in. How long it took, where one was on its way.
    pub fn reply_received(&mut self, status: &mut PathSessionStatus, now: u64) -> (r: Option<u64>)
        requires
            old(self)@.wf(),
        ensures
            final(self)@.wf(),
            final(self)@ == old(self)@.answered(now),
            final(status)@ == old(self)@.answered_status(old(status)@, now),
            r == match old(self)@.pending_probe {
                Some(started) => Some(time::elapsed(now, started) as u64),
                None => None,
            },
    {
        match self.pending_probe {
            Some(started) => {
                self.pending_probe = None;
                let elapsed: u64 = time::since(now, started);
                self.rtt.record(elapsed);
                if !self.echo_answered {
                    status.probes_sent = status.probes_sent.saturating_add(1);
                }
                self.echo_answered = true;
                self.consecutive_losses = 0;
                status.probes_received = status.probes_received.saturating_add(1);
                status.latency = Some(elapsed);
                self.last_authenticated_receive = Some(now);
                Some(elapsed)
            },
            None => None,
        }
    }

    /// A packet for the user came in. Blocking on a full queue would stall the
    /// probe and timer work that decides whether this path is still usable, so
    /// it is dropped there.
    pub fn packet_received(
        &mut self,
        packet: Vec<u8>,
        inbound: &mut VecDeque<Vec<u8>>,
        capacity: usize,
        status: &mut PathSessionStatus,
        counters: &mut PathCounters,
        now: u64,
    )
        ensures
            final(self)@ == (DirectModel {
                last_authenticated_receive: Some(now),
                ..old(self)@
            }),
            final(status)@ == (StatusModel {
                packets_received: scheduler::counted(old(status)@.packets_received),
                bytes_received: health::summed(old(status)@.bytes_received, packet@.len()),
                ..old(status)@
            }),
            if old(inbound)@.len() < capacity {
                &&& final(inbound)@ == old(inbound)@.push(packet)
                &&& *final(counters) == *old(counters)
            } else {
                &&& final(inbound)@ == old(inbound)@
                &&& *final(counters) == (PathCounters {
                    dropped: worker::plus(old(counters).dropped, 1),
                    inbound_dropped: worker::plus(old(counters).inbound_dropped, 1),
                    ..*old(counters)
                })
            },
    {
        record_path_receive(status, packet.len());
        self.last_authenticated_receive = Some(now);
        if inbound.len() < capacity {
            inbound.push_back(packet);
        } else {
            counters.dropped = worker::count_up(counters.dropped, 1);
            counters.inbound_dropped = worker::count_up(counters.inbound_dropped, 1);
        }
    }

    /// A packet came out of the tunnel: the answer to a probe, or one for the
    /// user. How long the probe took, where it answers one.
    pub fn take_packet(
        &mut self,
        packet: Vec<u8>,
        address: Ipv4,
        identifier: u16,
        inbound: &mut VecDeque<Vec<u8>>,
        capacity: usize,
        status: &mut PathSessionStatus,
        counters: &mut PathCounters,
        now: u64,
    ) -> (r: Option<u64>)
        requires
            old(self)@.wf(),
        ensures
            final(self)@.wf(),
            if packet::answers_echo(packet@, Ipv4(DIRECT_PROBE_TARGET), address, identifier) {
                &&& final(self)@ == old(self)@.answered(now)
                &&& final(status)@ == old(self)@.answered_status(old(status)@, now)
                &&& final(inbound)@ == old(inbound)@
                &&& *final(counters) == *old(counters)
                &&& r == match old(self)@.pending_probe {
                    Some(started) => Some(time::elapsed(now, started) as u64),
                    None => None,
                }
            } else {
                &&& r is None
                &&& final(self)@ == (DirectModel {
                    last_authenticated_receive: Some(now),
                    ..old(self)@
                })
                &&& final(status)@ == (StatusModel {
                    packets_received: scheduler::counted(old(status)@.packets_received),
                    bytes_received: health::summed(old(status)@.bytes_received, packet@.len()),
                    ..old(status)@
                })
                &&& if old(inbound)@.len() < capacity {
                    &&& final(inbound)@ == old(inbound)@.push(packet)
                    &&& *final(counters) == *old(counters)
                } else {
                    &&& final(inbound)@ == old(inbound)@
                    &&& *final(counters) == (PathCounters {
                        dropped: worker::plus(old(counters).dropped, 1),
                        inbound_dropped: worker::plus(old(counters).inbound_dropped, 1),
                        ..*old(counters)
                    })
                }
            },
    {
        if packet::is_echo_reply(
            packet.as_slice(),
            Ipv4(DIRECT_PROBE_TARGET),
            address,
            identifier,
        ) {
            self.reply_received(status, now)
        } else {
            self.packet_received(packet, inbound, capacity, status, counters, now);
            None
        }
    }

    /// Reading went well. Windows reports an unreachable endpoint on the next
    /// read of a connected UDP socket, so a restarting node leaves an error
    /// behind that its next reply disproves.
    pub fn receive_succeeded(&mut self, status: &mut PathSessionStatus)
        ensures
            if old(self)@.published_error && old(self)@.published_healthy {
                &&& final(self)@ == (DirectModel { published_error: false, ..old(self)@ })
                &&& final(status)@ == (StatusModel { last_error: None, ..old(status)@ })
            } else {
                &&& final(self)@ == old(self)@
                &&& final(status)@ == old(status)@
            },
    {
        if self.published_error && self.published_healthy {
            status.last_error = None;
            self.published_error = false;
        }
    }

    /// Reading failed.
    pub fn receive_failed(&mut self, error: String, status: &mut PathSessionStatus)
        ensures
            final(self)@ == old(self)@.noted(),
            final(status)@ == old(self)@.noted_status(error@, old(status)@),
    {
        if !self.verdict {
            status.last_error = Some(error);
            self.published_error = true;
        }
    }

    /// Says what to look at where a WireGuard node stays silent. A silent peer
    /// is the usual way a direct session fails to start, and the timeout alone
    /// would not say which part of the file to look at.
    pub fn check_silence(
        &mut self,
        handshake: Option<u64>,
        status: &mut PathSessionStatus,
        now: u64,
    )
        ensures
            if old(self)@.silent(handshake, now) {
                &&& final(self)@ == (DirectModel {
                    reported_silence: true,
                    published_error: true,
                    verdict: true,
                    ..old(self)@
                })
                &&& final(status)@ == (StatusModel {
                    last_error: Some(NO_HANDSHAKE@ + old(self)@.endpoint + CHECK_CONFIG@),
                    ..old(status)@
                })
            } else {
                &&& final(self)@ == old(self)@
                &&& final(status)@ == old(status)@
            },
    {
        if !self.reported_silence && self.wireguard && handshake.is_none() && time::since(
            now,
            self.started,
        ) > SILENCE_LIMIT {
            self.reported_silence = true;
            self.published_error = true;
            self.verdict = true;
            status.last_error = Some(
                text::concat3(NO_HANDSHAKE, self.endpoint.as_str(), CHECK_CONFIG),
            );
        }
    }

    /// Writes the probe on its way off where it has missed its deadline, and
    /// says whether that counts as a loss.
    pub fn check_timeout(&mut self, status: &mut PathSessionStatus, now: u64) -> (r: bool)
        requires
            old(self)@.wf(),
        ensures
            final(self)@.wf(),
            r == (old(self)@.probe_overdue(now) && old(self)@.echo_answered),
            final(self)@ == if old(self)@.probe_overdue(now) {
                old(self)@.timed_out(now)
            } else {
                old(self)@
            },
            final(status)@ == if r {
                StatusModel {
                    probes_lost: scheduler::counted(old(status)@.probes_lost),
                    ..old(status)@
                }
            } else {
                old(status)@
            },
    {
        let overdue: bool = match self.pending_probe {
            Some(started) => time::since(now, started) > self.rtt.timeout(),
            None => false,
        };
        if !overdue {
            return false;
        }
        self.pending_probe = None;
        if self.echo_answered {
            self.consecutive_losses = self.consecutive_losses.saturating_add(1);
            status.probes_lost = status.probes_lost.saturating_add(1);
            true
        } else {
            if self.probes_attempted >= DIRECT_PROBE_ATTEMPTS {
                self.next_probe = time::after(now, DIRECT_QUIET_PROBE_INTERVAL);
            }
            false
        }
    }

    /// Takes in how the last round trip compares with the baseline.
    pub fn observe_latency(&mut self, reading: Reading, now: u64) -> (r: Observation)
        requires
            old(self)@.wf(),
        ensures
            final(self)@.wf(),
            ({
                let (watch, seen) = old(self)@.watch.observed(reading, now);
                &&& r == seen
                &&& final(self)@ == (DirectModel { watch, ..old(self)@ })
            }),
    {
        self.watch.observe(reading, now)
    }
}

/// A node that never answered a probe is judged by its handshake alone: no
/// probe that it filters counts as a loss, or against it.
pub proof fn a_node_that_filters_probes_is_not_lossy(
    node: DirectModel,
    handshake: Option<u64>,
    now: u64,
)
    requires
        !node.echo_answered,
    ensures
        node.up(handshake, now) == (handshake is Some),
        node.timed_out(now).consecutive_losses == node.consecutive_losses,
        !node.timed_out(now).echo_answered,
{
}

/// A node that is demonstrably carrying packets is not down, whatever the
/// probes say.
pub proof fn a_carrying_node_is_up(node: DirectModel, handshake: Option<u64>, now: u64)
    requires
        node.carrying(now),
        handshake is Some,
    ensures
        node.up(handshake, now),
{
}

/// A node that had been answering and falls silent is reported down once it has
/// missed the limit of probes and sent nothing for the window.
pub proof fn a_node_that_stops_answering_is_down(
    node: DirectModel,
    handshake: Option<u64>,
    now: u64,
)
    requires
        node.echo_answered,
        node.consecutive_losses >= DIRECT_LOSS_LIMIT,
        !node.carrying(now),
    ensures
        !node.up(handshake, now),
        !node.judged(handshake, now).published_healthy,
{
}

/// Every answered or lost probe is counted against one that was sent: sending
/// one, hearing its reply and writing it off all keep the tally.
pub proof fn probes_are_counted_once(node: DirectModel, status: StatusModel, now: u64)
    requires
        node.tallies(status),
        status.probes_sent + 1 < u64::MAX,
    ensures
        node.pending_probe is None ==> (DirectModel { pending_probe: Some(now), ..node }).tallies(
            if node.echo_answered {
                StatusModel { probes_sent: scheduler::counted(status.probes_sent), ..status }
            } else {
                status
            },
        ),
        node.answered(now).tallies(node.answered_status(status, now)),
        node.pending_probe is Some ==> node.timed_out(now).tallies(
            if node.echo_answered {
                StatusModel { probes_lost: scheduler::counted(status.probes_lost), ..status }
            } else {
                status
            },
        ),
{
}

/// A node that has answered is taken for dead at the third probe lost in a row,
/// once nothing has come from it for five seconds; an answer at any time brings
/// it back.
pub proof fn three_lost_probes_take_a_node_down(
    node: DirectModel,
    handshake: Option<u64>,
    times: Seq<u64>,
)
    requires
        times.len() == 5,
        node.pending_probe is Some,
        handshake is Some,
        times[0] + 5_000_000_000 < times[4],
    ensures
        ({
            let alive = node.answered(times[0]);
            let once = (DirectModel { pending_probe: Some(times[0]), ..alive }).timed_out(times[1]);
            let twice = (DirectModel { pending_probe: Some(times[1]), ..once }).timed_out(times[2]);
            let thrice = (DirectModel { pending_probe: Some(times[2]), ..twice }).timed_out(
                times[3],
            );
            &&& alive.up(handshake, times[4])
            &&& once.up(handshake, times[4])
            &&& twice.up(handshake, times[4])
            &&& !thrice.up(handshake, times[4])
            &&& !thrice.judged(handshake, times[4]).published_healthy
            &&& (DirectModel { last_authenticated_receive: Some(times[4]), ..thrice }).up(
                handshake,
                times[4],
            )
            &&& (DirectModel { pending_probe: Some(times[3]), ..thrice }).answered(times[4]).up(
                handshake,
                times[4],
            )
            &&& !alive.up(None, times[4])
        }),
{
}

/// A node that has never answered an echo is asked three times at the usual pace
/// and every fifteen seconds from then on.
pub proof fn a_quiet_node_is_left_alone(node: DirectModel, now: u64)
    requires
        !node.echo_answered,
        now + 15_000_000_000 <= u64::MAX,
    ensures
        node.probes_attempted < 3 ==> node.timed_out(now).next_probe == node.next_probe,
        node.probes_attempted >= 3 ==> node.timed_out(now).next_probe == now + 15_000_000_000,
        node.timed_out(now).pending_probe is None,
{
}

/// A WireGuard node that completes no handshake is reported after three seconds,
/// once, and no other kind of node is.
pub proof fn a_silent_node_is_reported(node: DirectModel, handshake: Option<u64>, now: u64)
    requires
        node.started <= now,
    ensures
        node.silent(handshake, now) <==> node.wireguard && handshake is None && now - node.started
            > 3_000_000_000 && !node.reported_silence,
{
}

/// The answer to a probe is its round trip; an answer that nobody waits for
/// changes nothing.
pub proof fn an_answer_is_its_round_trip(node: DirectModel, status: StatusModel, now: u64)
    requires
        node.pending_probe matches Some(started) ==> started <= now,
        status.probes_received < u64::MAX,
    ensures
        node.pending_probe matches Some(started) ==> node.answered_status(status, now).latency
            == Some((now - started) as u64) && node.answered_status(status, now).probes_received
            == status.probes_received + 1 && node.answered(now).rtt == node.rtt.recorded(
            (now - started) as u64,
        ),
        node.pending_probe is None ==> node.answered(now) == node && node.answered_status(
            status,
            now,
        ) == status,
{
}

/// Once a node has been judged unusable, the noise of its transport does not
/// cover that up; until then the last error is shown.
pub proof fn a_judgement_is_not_covered_up(node: DirectModel, status: StatusModel, error: Seq<char>)
    ensures
        node.verdict ==> node.noted_status(error, status) == status && node.noted() == node,
        !node.verdict ==> node.noted_status(error, status).last_error == Some(error)
            && node.noted_status(error, status).reachable == status.reachable
            && node.noted().published_error,
{
}

/// What is published of a node: whether it is up, and why not where it stopped
/// answering. Its handshake stands in for its latency until a probe is answered.
pub proof fn what_is_published_of_a_node(
    node: DirectModel,
    handshake: Option<u64>,
    status: StatusModel,
    now: u64,
)
    requires
        node.published_health != (handshake, node.up(handshake, now)),
    ensures
        ({
            let told = node.judged_status(handshake, status, now);
            &&& told.reachable == node.up(handshake, now)
            &&& told.handshake == handshake
            &&& status.latency is None ==> told.latency == handshake
            &&& status.latency is Some ==> told.latency == status.latency
            &&& told.last_error is Some <==> node.echo_answered && node.consecutive_losses >= 3
                && !node.carrying(now)
            &&& told.last_error is Some ==> told.last_error == Some(
                node.endpoint + " stopped answering probes sent through the tunnel"@,
            )
            &&& node.judged(handshake, now).published_healthy == told.reachable
            &&& node.judged(handshake, now).published_health == (handshake, told.reachable)
        }),
        node.last_authenticated_receive matches Some(seen) ==> seen <= now ==> (node.carrying(now)
            <==> now - seen <= 5_000_000_000),
{
}

/// A new node is probed at once, and a probe is only ever sent while none is on
/// its way.
pub proof fn a_new_node_is_probed_at_once(
    endpoint: Seq<char>,
    wireguard: bool,
    now: u64,
    node: DirectModel,
)
    ensures
        ({
            let fresh = DirectModel::fresh(endpoint, wireguard, now);
            &&& fresh.wants_probe(now)
            &&& fresh.endpoint == endpoint && fresh.wireguard == wireguard
            &&& fresh.started == now && !fresh.echo_answered && fresh.consecutive_losses == 0
            &&& fresh.rtt.smoothed is None && fresh.rtt.floor == 200_000_000
            &&& !fresh.verdict && !fresh.published_healthy
        }),
        node.pending_probe is Some ==> !node.wants_probe(now),
        node.pending_probe is None ==> (node.wants_probe(now) <==> now >= node.next_probe),
        node.pending_probe matches Some(started) ==> started <= now ==> (node.probe_overdue(now)
            <==> now - started > node.rtt.deadline()),
        node.pending_probe is None ==> !node.probe_overdue(now),
{
}

} // verus!
