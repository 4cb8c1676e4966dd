//! One worker per relay path: it carries the dispatcher's packets, probes the
//! relay through its own transport, and decides when that transport has to be
//! dialled again.
//!
//! The worker here is all decisions. Its owner runs the loop: it polls the dial,
//! sends what it is given, hands in what arrived, and says what time it is.

use std::collections::VecDeque;
use vstd::prelude::*;

use crate::auth;
use crate::auth::{SessionCrypto, CLIENT_TO_SERVER_NONCE, SERVER_TO_CLIENT_NONCE};
use crate::bits;
use crate::bytes;
use crate::protocol;
use crate::protocol::{FrameHeader, HeaderModel, FLAG_CONTROL, FLAG_SERVER_TO_CLIENT};
use crate::rtt::{RttEstimator, MAX_TIMEOUT};
use crate::scheduler;
use crate::scheduler::{Estimate, PathMetrics, Strategy};
use crate::session::dialer;
use crate::session::dialer::{
    another_path_is_up, hold_redial_for_common_mode, next_backoff, schedule_redial, PathDialer,
    ReconnectAttempt, ReconnectPoll, RECONNECT_BACKOFF_MIN, UPLINK_DOWN_BACKOFF,
};
use crate::session::health;
use crate::session::health::{
    healthy_probe_interval, publish_path_health, record_path_receive, remember_expired_probe,
    selected_paths, take_late_probe_reply, update_path_status, update_scheduler_probe, ProbeResult,
    HEALTH_FAILURE_THRESHOLD, PROBE_INTERVAL, PROBE_INTERVAL_DEGRADED, PROBE_INTERVAL_STANDBY,
};
use crate::session::latency::{LatencyWatch, Observation, Reading};
use crate::session::state;
use crate::session::state::{PathSessionStatus, RelayIngress, StatusModel};
use crate::session::worker;
use crate::session::worker::{GapWatch, PathCounters};
use crate::text;
use crate::time;
use crate::uplink::UplinkState;

verus! {

pub const RECONNECTED: &'static str = "reconnected; waiting for a probe";

pub const RECONNECT_FAILED: &'static str = "reconnect failed, retrying: ";

pub const RECONNECTING: &'static str = "reconnecting";

pub const RECONNECT_REFUSED: &'static str = "could not start a reconnect attempt: ";

pub const TRANSPORT_GONE: &'static str = "the transport underneath this route is gone";

pub const TIMED_OUT: &'static str = "path health check timed out";

/// What a new transport says of itself.
pub struct Transport {
    pub endpoint: String,
    /// The shortest deadline that a probe on it may be given.
    pub deadline_floor: u64,
}

/// What to do about a path that may have to be dialled again.
#[derive(Debug, Clone, Copy, PartialEq, Eq, Structural)]
pub enum RedialStep {
    /// Nothing is due.
    Wait,
    /// One is due, but every route is down at once, so the uplink is the likely
    /// cause.
    Held,
    /// Start one.
    Dial,
}

/// How much a failed health check says of a path.
#[derive(Debug, Clone, Copy, PartialEq, Eq, Structural)]
pub enum Trouble {
    /// A loss like any other.
    Loss,
    /// One more takes the path out of service.
    Degraded,
    /// This one does.
    Unavailable,
    /// It was out of service already.
    Down,
}

/// What a frame turned out to be.
#[derive(Debug, Clone, Copy, PartialEq, Eq, Structural)]
pub enum Heard {
    /// Nothing of interest.
    Nothing,
    /// The reply to a probe already written off, and how long that one took.
    Late { elapsed: u64 },
    /// The reply to the probe on its way: how long that took, how many checks
    /// had failed before, and whether to say that the relay does not tag its
    /// replies.
    Answered { elapsed: u64, failures: u32, legacy: bool },
    /// Traffic, whether it was wanted or not.
    Traffic,
}

/// What an answered probe led to.
#[derive(Debug, Clone, Copy, PartialEq, Eq)]
pub struct Followed {
    /// The scheduler's pick before and after, where it changed.
    pub repicked: Option<(u64, u64)>,
    /// How the round trip compares with the baseline.
    pub seen: Observation,
}

/// The state of one relay path.
pub struct RelayWorker {
    pub index: usize,
    pub client_id: [u8; 16],
    pub session_id: u64,
    pub route_count: usize,
    pub next_probe: u64,
    /// The probe on its way, and when it was sent.
    pub pending_probe: Option<(u64, u64)>,
    /// Probes already written off, kept briefly so a reply that arrives after
    /// the deadline can still tell the estimator how slow this path really is.
    pub expired_probes: Vec<(u64, u64)>,
    pub correlated_probes: bool,
    pub warned_legacy_probes: bool,
    pub published_setup: Option<u64>,
    /// The probe deadline tracks this path rather than being a constant that has
    /// to suit both a 60 ms route and a congested one. Its floor comes from the
    /// transport, because a stream-carried path stalls for its own retransmit
    /// and answering later than that is not the same as not answering.
    pub rtt: RttEstimator,
    pub watch: LatencyWatch,
    pub gap: GapWatch,
    /// Consecutive failed health checks and the next redial deadline reset as
    /// soon as the path answers. An already-running redial stays owned until
    /// it finishes, then is discarded if that recovery made it obsolete.
    pub failures: u32,
    pub backoff: u64,
    pub next_redial: Option<u64>,
    /// Set once this transport's own verdict has been acted on, so a socket that
    /// stays broken is reported once rather than on every loop iteration.
    pub reported_transport_failure: bool,
    /// When every path in this session was first seen down at the same moment.
    /// Cleared as soon as any of them answers, so it measures one episode rather
    /// than accumulating across unrelated ones.
    pub common_mode_since: Option<u64>,
    /// Whether any path in this session has ever been healthy. Distinguishes a
    /// session that collapsed from one that has not come up yet.
    pub carried_traffic: bool,
    /// A dial can take seconds, so it runs on its own and the result is
    /// collected here. The worker keeps probing while it is in flight.
    pub dialing: Option<ReconnectAttempt>,
}

/// The state of a worker.
#[verifier::ext_equal]
pub struct WorkerModel {
    pub index: usize,
    pub client_id: Seq<u8>,
    pub session_id: u64,
    pub route_count: usize,
    pub next_probe: u64,
    pub pending_probe: Option<(u64, u64)>,
    pub expired_probes: Seq<(u64, u64)>,
    pub correlated_probes: bool,
    pub warned_legacy_probes: bool,
    pub published_setup: Option<u64>,
    pub rtt: RttEstimator,
    pub watch: LatencyWatch,
    pub gap: GapWatch,
    pub failures: u32,
    pub backoff: u64,
    pub next_redial: Option<u64>,
    pub reported_transport_failure: bool,
    pub common_mode_since: Option<u64>,
    pub carried_traffic: bool,
    pub dialing: Option<ReconnectAttempt>,
}

impl View for RelayWorker {
    type V = WorkerModel;

    open spec fn view(&self) -> WorkerModel {
        WorkerModel {
            index: self.index,
            client_id: self.client_id@,
            session_id: self.session_id,
            route_count: self.route_count,
            next_probe: self.next_probe,
            pending_probe: self.pending_probe,
            expired_probes: self.expired_probes@,
            correlated_probes: self.correlated_probes,
            warned_legacy_probes: self.warned_legacy_probes,
            published_setup: self.published_setup,
            rtt: self.rtt,
            watch: self.watch,
            gap: self.gap,
            failures: self.failures,
            backoff: self.backoff,
            next_redial: self.next_redial,
            reported_transport_failure: self.reported_transport_failure,
            common_mode_since: self.common_mode_since,
            carried_traffic: self.carried_traffic,
            dialing: self.dialing,
        }
    }
}

/// One more failed check, up to the greatest number there is.
pub open spec fn one_more(failures: u32) -> u32 {
    if failures < u32::MAX {
        (failures + 1) as u32
    } else {
        failures
    }
}

/// What the number of failed checks in a row says.
pub open spec fn trouble_of(failures: u32) -> Trouble {
    if failures + 1 < HEALTH_FAILURE_THRESHOLD {
        Trouble::Loss
    } else if failures + 1 == HEALTH_FAILURE_THRESHOLD {
        Trouble::Degraded
    } else if failures == HEALTH_FAILURE_THRESHOLD {
        Trouble::Unavailable
    } else {
        Trouble::Down
    }
}

fn trouble(failures: u32) -> (r: Trouble)
    ensures
        r == trouble_of(failures),
{
    if failures < HEALTH_FAILURE_THRESHOLD - 1 {
        Trouble::Loss
    } else if failures == HEALTH_FAILURE_THRESHOLD - 1 {
        Trouble::Degraded
    } else if failures == HEALTH_FAILURE_THRESHOLD {
        Trouble::Unavailable
    } else {
        Trouble::Down
    }
}

impl WorkerModel {
    pub open spec fn wf(self) -> bool {
        self.rtt.wf() && self.watch.wf()
    }

    /// A worker at the start of a session.
    pub open spec fn fresh(
        index: usize,
        client_id: Seq<u8>,
        session_id: u64,
        route_count: usize,
        deadline_floor: u64,
        now: u64,
    ) -> WorkerModel {
        WorkerModel {
            index,
            client_id,
            session_id,
            route_count,
            next_probe: now,
            pending_probe: None,
            expired_probes: Seq::<(u64, u64)>::empty(),
            correlated_probes: false,
            warned_legacy_probes: false,
            published_setup: None,
            rtt: RttEstimator::unmeasured(deadline_floor),
            watch: LatencyWatch::fresh(),
            gap: GapWatch { last_iteration: now, last_log: None },
            failures: 0,
            backoff: RECONNECT_BACKOFF_MIN,
            next_redial: None,
            reported_transport_failure: false,
            common_mode_since: None,
            carried_traffic: false,
            dialing: None,
        }
    }

    /// The worker once a dial has brought a new transport.
    ///
    /// A redial may fall back from UDP to TCP (or recover to UDP), so neither
    /// the old samples nor the old deadline floor apply. Opening a socket is not
    /// recovery: repeated replacements that never answer back off until a real
    /// reply arrives, and only an answered probe puts the path back into the
    /// dispatcher's selection.
    pub open spec fn replaced(self, deadline_floor: u64, now: u64) -> WorkerModel {
        WorkerModel {
            dialing: None,
            reported_transport_failure: false,
            rtt: RttEstimator::unmeasured(deadline_floor),
            watch: LatencyWatch::fresh(),
            failures: 0,
            backoff: dialer::backed_off(self.backoff),
            next_redial: None,
            pending_probe: None,
            published_setup: None,
            next_probe: now,
            ..self
        }
    }

    /// The worker once a dial has failed.
    pub open spec fn redial_failed(self, now: u64) -> WorkerModel {
        let backoff = dialer::backed_off(self.backoff);
        WorkerModel {
            dialing: None,
            backoff,
            next_redial: Some(time::later(now, backoff)),
            ..self
        }
    }

    /// Whether every path of the session is down after some had been up. Until
    /// some path has carried traffic, "nothing is up" is a session that has not
    /// finished starting, and holding its redials would only slow it down.
    pub open spec fn collapsed(self, healthy: u64) -> bool {
        self.route_count > 1 && (self.carried_traffic || healthy != 0) && !dialer::another_up(
            healthy,
            self.index,
        )
    }

    /// Since when the session has been seen collapsed.
    pub open spec fn collapsed_since(self, healthy: u64, now: u64) -> Option<u64> {
        if self.collapsed(healthy) {
            match self.common_mode_since {
                Some(since) => Some(since),
                None => Some(now),
            }
        } else {
            None
        }
    }

    /// Whether a redial has to be held. The monitor answers that directly when
    /// it can, but it is slow to change its mind, so every path being down at
    /// once is evidence in its own right -- fresher than the monitor, and the
    /// only thing that catches a stall too short for the monitor to see.
    pub open spec fn held(self, healthy: u64, uplink: UplinkState, now: u64) -> bool {
        dialer::holds_redial(
            uplink,
            match self.collapsed_since(healthy, now) {
                Some(since) => Some(time::elapsed(now, since) as u64),
                None => None,
            },
        )
    }

    /// Whether a redial is due and none is running.
    pub open spec fn redial_due(self, now: u64) -> bool {
        &&& self.dialing is None
        &&& self.next_redial matches Some(at)
        &&& now >= at
    }

    pub open spec fn redial_step(self, healthy: u64, uplink: UplinkState, now: u64) -> RedialStep {
        if !self.redial_due(now) {
            RedialStep::Wait
        } else if self.held(healthy, uplink, now) {
            RedialStep::Held
        } else {
            RedialStep::Dial
        }
    }

    pub open spec fn redial_decided(
        self,
        healthy: u64,
        uplink: UplinkState,
        now: u64,
    ) -> WorkerModel {
        WorkerModel {
            carried_traffic: self.carried_traffic || healthy != 0,
            common_mode_since: self.collapsed_since(healthy, now),
            next_redial: match self.redial_step(healthy, uplink, now) {
                RedialStep::Wait => self.next_redial,
                RedialStep::Held => Some(time::later(now, UPLINK_DOWN_BACKOFF)),
                RedialStep::Dial => None,
            },
            ..self
        }
    }

    /// The worker once its transport has said that it is gone.
    pub open spec fn transport_lost(self, now: u64) -> WorkerModel {
        let failures = if self.failures < HEALTH_FAILURE_THRESHOLD {
            HEALTH_FAILURE_THRESHOLD
        } else {
            self.failures
        };
        WorkerModel {
            reported_transport_failure: true,
            failures,
            next_redial: dialer::armed(failures, self.backoff, self.next_redial, now),
            ..self
        }
    }

    /// When the next probe of a path that answers is due: later where the path
    /// carries traffic, which keeps it warm.
    pub open spec fn probe_after(self, decision: u64, healthy: u64, now: u64) -> u64 {
        time::later(
            now,
            if self.index < 64 && bits::bit(
                health::selection(decision, healthy),
                self.index as u64,
            ) {
                PROBE_INTERVAL
            } else {
                PROBE_INTERVAL_STANDBY
            },
        )
    }

    pub open spec fn wants_probe(self, now: u64) -> bool {
        now >= self.next_probe && self.pending_probe is None
    }

    /// The header of a probe.
    pub open spec fn probe_header(self, sequence: u64) -> HeaderModel {
        HeaderModel {
            flags: FLAG_CONTROL,
            client_id: self.client_id,
            session_id: self.session_id,
            sequence,
        }
    }

    /// The worker once a health check has failed.
    pub open spec fn check_failed(self, now: u64) -> WorkerModel {
        let failures = one_more(self.failures);
        WorkerModel {
            failures,
            next_redial: dialer::armed(failures, self.backoff, self.next_redial, now),
            next_probe: time::later(now, PROBE_INTERVAL_DEGRADED),
            ..self
        }
    }

    /// The mask once a health check has failed. Only a run of failed checks
    /// takes the path out of service. A single loss is recorded against the
    /// path's score, which is the proportionate response to it.
    pub open spec fn mask_after_failure(self, healthy: u64) -> u64 {
        if one_more(self.failures) >= HEALTH_FAILURE_THRESHOLD {
            health::published(healthy, self.index, false)
        } else {
            healthy
        }
    }

    /// Whether a control frame answers the probe on its way.
    pub open spec fn answers_pending(self, flags: u8, plaintext: Seq<u8>) -> bool {
        &&& state::flagged(flags, FLAG_SERVER_TO_CLIENT)
        &&& self.pending_probe matches Some((sequence, _))
        &&& protocol::answers(plaintext, sequence, !self.correlated_probes)
    }

    /// The worker once its probe was answered.
    pub open spec fn answered(self, tagged: bool, now: u64) -> WorkerModel {
        let elapsed = time::elapsed(now, (self.pending_probe->0).1) as u64;
        WorkerModel {
            correlated_probes: self.correlated_probes || tagged,
            warned_legacy_probes: self.warned_legacy_probes || !tagged,
            pending_probe: None,
            rtt: self.rtt.recorded(elapsed),
            failures: 0,
            backoff: RECONNECT_BACKOFF_MIN,
            next_redial: None,
            dialing: match self.dialing {
                Some(_) => Some(ReconnectAttempt { superseded: true }),
                None => None,
            },
            ..self
        }
    }

    /// The worker once a frame came that answers no probe on its way.
    pub open spec fn late_reply(self, flags: u8, plaintext: Seq<u8>, now: u64) -> WorkerModel {
        let at = health::answered_at(self.expired_probes, plaintext) as int;
        if state::flagged(flags, FLAG_SERVER_TO_CLIENT) && at < self.expired_probes.len() {
            WorkerModel {
                rtt: self.rtt.recorded(
                    time::elapsed(now, self.expired_probes[at].1) as u64,
                ),
                expired_probes: self.expired_probes.remove(at),
                ..self
            }
        } else {
            self
        }
    }

    /// What a control frame is to the worker.
    pub open spec fn control_heard(self, flags: u8, plaintext: Seq<u8>, now: u64) -> Heard {
        let at = health::answered_at(self.expired_probes, plaintext) as int;
        if self.answers_pending(flags, plaintext) {
            Heard::Answered {
                elapsed: time::elapsed(now, (self.pending_probe->0).1) as u64,
                failures: self.failures,
                legacy: plaintext.len() != 12 && !self.warned_legacy_probes,
            }
        } else if state::flagged(flags, FLAG_SERVER_TO_CLIENT) && at < self.expired_probes.len() {
            Heard::Late { elapsed: time::elapsed(now, self.expired_probes[at].1) as u64 }
        } else {
            Heard::Nothing
        }
    }

    pub open spec fn control_taken(self, flags: u8, plaintext: Seq<u8>, now: u64) -> WorkerModel {
        if self.answers_pending(flags, plaintext) {
            self.answered(plaintext.len() == 12, now)
        } else {
            self.late_reply(flags, plaintext, now)
        }
    }

    /// Whether the probe on its way has missed its deadline.
    pub open spec fn probe_overdue(self, now: u64) -> bool {
        self.pending_probe matches Some((_, started)) && time::elapsed(now, started)
            > self.rtt.deadline()
    }

    /// The worker once its probe has missed its deadline.
    pub open spec fn timed_out(self, now: u64) -> WorkerModel {
        let (sequence, started) = self.pending_probe->0;
        WorkerModel {
            pending_probe: None,
            expired_probes: health::remembered(self.expired_probes, sequence, started, now),
            ..self.check_failed(now)
        }
    }
}

/// A status with one more probe lost.
pub open spec fn one_lost(status: StatusModel) -> StatusModel {
    StatusModel { probes_lost: scheduler::counted(status.probes_lost), ..status }
}

/// A status with one more probe answered, in so many nanoseconds.
pub open spec fn one_answered(status: StatusModel, elapsed: u64) -> StatusModel {
    health::status_updated(
        StatusModel { probes_received: scheduler::counted(status.probes_received), ..status },
        Ok(elapsed),
    )
}

impl RelayWorker {
    pub fn new(
        index: usize,
        client_id: [u8; 16],
        session_id: u64,
        route_count: usize,
        deadline_floor: u64,
        now: u64,
    ) -> (r: Self)
        requires
            deadline_floor <= MAX_TIMEOUT,
        ensures
            r@ == WorkerModel::fresh(
                index,
                client_id@,
                session_id,
                route_count,
                deadline_floor,
                now,
            ),
            r@.wf(),
    {
        let expired_probes: Vec<(u64, u64)> = Vec::new();
        assert(expired_probes@ =~= Seq::<(u64, u64)>::empty());
        RelayWorker {
            index,
            client_id,
            session_id,
            route_count,
            next_probe: now,
            pending_probe: None,
            expired_probes,
            correlated_probes: false,
            warned_legacy_probes: false,
            published_setup: None,
            rtt: RttEstimator::with_floor(deadline_floor),
            watch: LatencyWatch::default(),
            gap: GapWatch::new(now),
            failures: 0,
            backoff: RECONNECT_BACKOFF_MIN,
            next_redial: None,
            reported_transport_failure: false,
            common_mode_since: None,
            carried_traffic: false,
            dialing: None,
        }
    }

    /// An iteration begins. The gap since the last one, in milliseconds, where
    /// it is worth a line.
    pub fn begin(&mut self, counters: &mut PathCounters, now: u64) -> (r: Option<u64>)
        ensures
            final(self)@ == (WorkerModel { gap: old(self)@.gap.begun(now), ..old(self)@ }),
            ({
                let gap = time::elapsed(now, old(self)@.gap.last_iteration) / 1_000_000;
                &&& r == if old(self)@.gap.reports(now) {
                    Some(gap as u64)
                } else {
                    None
                }
                &&& *final(counters) == (PathCounters {
                    iterations: worker::plus(old(counters).iterations, 1),
                    worker_gap_peak_ms: if gap > old(counters).worker_gap_peak_ms {
                        gap as u64
                    } else {
                        old(counters).worker_gap_peak_ms
                    },
                    ..*old(counters)
                })
            }),
    {
        self.gap.begin(counters, now)
    }

    /// Takes in what a poll of the dial says.
    pub fn reconnect_polled(
        &mut self,
        poll: ReconnectPoll<Transport>,
        status: &mut PathSessionStatus,
        healthy: &mut u64,
        now: u64,
    )
        requires
            old(self)@.wf(),
            poll matches ReconnectPoll::Finished(Ok(transport)) ==> transport.deadline_floor
                <= MAX_TIMEOUT,
        ensures
            final(self)@.wf(),
            match poll {
                ReconnectPoll::Finished(Ok(transport)) => {
                    &&& final(self)@ == old(self)@.replaced(transport.deadline_floor, now)
                    &&& *final(healthy) == health::published(
                        *old(healthy),
                        old(self)@.index,
                        false,
                    )
                    &&& final(status)@ == (StatusModel {
                        reachable: false,
                        endpoint: transport.endpoint@,
                        last_error: Some(RECONNECTED@),
                        ..old(status)@
                    })
                },
                ReconnectPoll::Finished(Err(error)) => {
                    &&& final(self)@ == old(self)@.redial_failed(now)
                    &&& *final(healthy) == *old(healthy)
                    &&& final(status)@ == (StatusModel {
                        last_error: Some(RECONNECT_FAILED@ + error@),
                        ..old(status)@
                    })
                },
                ReconnectPoll::Discarded => {
                    &&& final(self)@ == (WorkerModel { dialing: None, ..old(self)@ })
                    &&& *final(healthy) == *old(healthy)
                    &&& final(status)@ == old(status)@
                },
                ReconnectPoll::Pending => {
                    &&& final(self)@ == old(self)@
                    &&& *final(healthy) == *old(healthy)
                    &&& final(status)@ == old(status)@
                },
            },
    {
        match poll {
            ReconnectPoll::Finished(Ok(transport)) => {
                self.dialing = None;
                self.reported_transport_failure = false;
                publish_path_health(healthy, self.index, false);
                self.rtt = RttEstimator::with_floor(transport.deadline_floor);
                self.watch.reset();
                self.failures = 0;
                self.backoff = next_backoff(self.backoff);
                self.next_redial = None;
                self.pending_probe = None;
                self.published_setup = None;
                self.next_probe = now;
                status.reachable = false;
                status.endpoint = transport.endpoint;
                status.last_error = Some(RECONNECTED.to_owned());
            },
            ReconnectPoll::Finished(Err(error)) => {
                self.dialing = None;
                self.backoff = next_backoff(self.backoff);
                self.next_redial = Some(time::after(now, self.backoff));
                status.last_error = Some(text::concat2(RECONNECT_FAILED, error.as_str()));
            },
            ReconnectPoll::Discarded => {
                self.dialing = None;
            },
            ReconnectPoll::Pending => {},
        }
    }

    /// Decides whether the transport is dialled again now.
    pub fn decide_redial(&mut self, healthy: u64, uplink: UplinkState, now: u64) -> (r: RedialStep)
        ensures
            r == old(self)@.redial_step(healthy, uplink, now),
            final(self)@ == old(self)@.redial_decided(healthy, uplink, now),
    {
        if healthy != 0 {
            self.carried_traffic = true;
        }
        let common_mode_for: Option<u64> = if self.route_count > 1 && self.carried_traffic
            && !another_path_is_up(healthy, self.index) {
            let since: u64 = match self.common_mode_since {
                Some(since) => since,
                None => now,
            };
            self.common_mode_since = Some(since);
            Some(time::since(now, since))
        } else {
            // One path answering ends it: whatever happened was not shared.
            self.common_mode_since = None;
            None
        };
        let held: bool = hold_redial_for_common_mode(uplink, common_mode_for);
        let due: bool = self.dialing.is_none() && match self.next_redial {
            Some(at) => now >= at,
            None => false,
        };
        if !due {
            RedialStep::Wait
        } else if held {
            self.next_redial = Some(time::after(now, UPLINK_DOWN_BACKOFF));
            RedialStep::Held
        } else {
            self.next_redial = None;
            RedialStep::Dial
        }
    }

    /// A dial has been started.
    pub fn dial_started(&mut self, status: &mut PathSessionStatus)
        ensures
            final(self)@ == (WorkerModel {
                dialing: Some(ReconnectAttempt { superseded: false }),
                ..old(self)@
            }),
            final(status)@ == (StatusModel {
                last_error: Some(RECONNECTING@),
                ..old(status)@
            }),
    {
        self.dialing = Some(ReconnectAttempt::new());
        status.last_error = Some(RECONNECTING.to_owned());
    }

    /// A dial could not be started.
    pub fn dial_refused(&mut self, error: &str, status: &mut PathSessionStatus, now: u64)
        ensures
            final(self)@ == (WorkerModel {
                dialing: old(self)@.dialing,
                ..old(self)@.redial_failed(now)
            }),
            final(status)@ == (StatusModel {
                last_error: Some(RECONNECT_REFUSED@ + error@),
                ..old(status)@
            }),
    {
        self.backoff = next_backoff(self.backoff);
        self.next_redial = Some(time::after(now, self.backoff));
        status.last_error = Some(text::concat2(RECONNECT_REFUSED, error));
    }

    /// Takes in whether the transport says that it is gone, and whether that is
    /// news.
    ///
    /// A transport that has established it is gone will not answer a probe
    /// either, so waiting three of them out only costs the user the traffic
    /// handed to a socket that cannot carry it. The probe machinery still runs;
    /// this only stops the dispatcher choosing this path meanwhile.
    pub fn transport_checked(
        &mut self,
        gone: bool,
        status: &mut PathSessionStatus,
        healthy: &mut u64,
        now: u64,
    ) -> (r: bool)
        ensures
            r == (gone && !old(self)@.reported_transport_failure),
            if r {
                &&& final(self)@ == old(self)@.transport_lost(now)
                &&& *final(healthy) == health::published(*old(healthy), old(self)@.index, false)
                &&& final(status)@ == health::status_updated(old(status)@, Err(TRANSPORT_GONE@))
            } else {
                &&& final(self)@ == old(self)@
                &&& *final(healthy) == *old(healthy)
                &&& final(status)@ == old(status)@
            },
    {
        if !gone || self.reported_transport_failure {
            return false;
        }
        self.reported_transport_failure = true;
        if self.failures < HEALTH_FAILURE_THRESHOLD {
            self.failures = HEALTH_FAILURE_THRESHOLD;
        }
        publish_path_health(healthy, self.index, false);
        update_path_status(status, Err(TRANSPORT_GONE.to_owned()));
        schedule_redial(self.failures, self.backoff, &mut self.next_redial, now);
        true
    }

    pub fn probe_due(&self, now: u64) -> (r: bool)
        ensures
            r == self@.wants_probe(now),
    {
        now >= self.next_probe && self.pending_probe.is_none()
    }

    /// The sealed probe to send.
    pub fn make_probe(
        &self,
        crypto: &SessionCrypto,
        sequence: u64,
        status: &mut PathSessionStatus,
    ) -> (r: Result<Vec<u8>, String>)
        ensures
            r matches Ok(frame) && frame@ == auth::sealed_frame(
                crypto.client_key(),
                CLIENT_TO_SERVER_NONCE,
                self@.probe_header(sequence),
                protocol::request_bytes(sequence),
            ),
            final(status)@ == (StatusModel {
                packets_sent: scheduler::counted(old(status)@.packets_sent),
                probes_sent: scheduler::counted(old(status)@.probes_sent),
                ..old(status)@
            }),
    {
        let header = FrameHeader {
            flags: FLAG_CONTROL,
            client_id: self.client_id,
            session_id: self.session_id,
            sequence,
        };
        let request = protocol::probe_request(sequence);
        proof {
            bytes::lemma_be_bytes_len(sequence as nat, 8);
        }
        let sealed = crypto.seal_client(header, request.as_slice());
        if sealed.is_ok() {
            status.packets_sent = status.packets_sent.saturating_add(1);
            status.probes_sent = status.probes_sent.saturating_add(1);
        }
        sealed
    }

    /// A probe is on its way.
    pub fn probe_sent(&mut self, sequence: u64, now: u64)
        ensures
            final(self)@ == (WorkerModel {
                pending_probe: Some((sequence, now)),
                ..old(self)@
            }),
    {
        self.pending_probe = Some((sequence, now));
    }

    /// A probe could not be sent.
    pub fn probe_send_failed(
        &mut self,
        error: String,
        status: &mut PathSessionStatus,
        healthy: &mut u64,
        now: u64,
    ) -> (r: Trouble)
        ensures
            final(self)@ == old(self)@.check_failed(now),
            r == trouble_of(one_more(old(self)@.failures)),
            *final(healthy) == old(self)@.mask_after_failure(*old(healthy)),
            final(status)@ == health::status_updated(one_lost(old(status)@), Err(error@)),
    {
        status.probes_lost = status.probes_lost.saturating_add(1);
        update_path_status(status, Err(error));
        self.failures = self.failures.saturating_add(1);
        if self.failures >= HEALTH_FAILURE_THRESHOLD {
            publish_path_health(healthy, self.index, false);
        }
        schedule_redial(self.failures, self.backoff, &mut self.next_redial, now);
        self.next_probe = time::after(now, PROBE_INTERVAL_DEGRADED);
        trouble(self.failures)
    }

    /// Takes in a control frame that opened under this session's keys.
    ///
    /// An authenticated reply is the one unambiguous sign this path is carrying
    /// traffic, so this is where it rejoins the dispatcher, and where any
    /// pending reconnect is called off. A frame that does not answer the probe
    /// on its way may answer one already written off, and that measurement is
    /// the one the deadline most needs.
    pub fn control_received(
        &mut self,
        flags: u8,
        plaintext: &[u8],
        dialer: &mut PathDialer,
        status: &mut PathSessionStatus,
        healthy: &mut u64,
        now: u64,
    ) -> (r: Heard)
        requires
            old(self)@.wf(),
        ensures
            final(self)@.wf(),
            r == old(self)@.control_heard(flags, plaintext@, now),
            final(self)@ == old(self)@.control_taken(flags, plaintext@, now),
            match r {
                Heard::Answered { elapsed, .. } => {
                    &&& final(status)@ == one_answered(old(status)@, elapsed)
                    &&& *final(healthy) == health::published(*old(healthy), old(self)@.index, true)
                    &&& *final(dialer) == (PathDialer { cheap_reopen: true, ..*old(dialer) })
                },
                _ => {
                    &&& final(status)@ == old(status)@
                    &&& *final(healthy) == *old(healthy)
                    &&& *final(dialer) == *old(dialer)
                },
            },
    {
        if flags & FLAG_SERVER_TO_CLIENT == 0 {
            return Heard::Nothing;
        }
        if let Some((sequence, started)) = self.pending_probe {
            if protocol::probe_reply_matches(plaintext, sequence, !self.correlated_probes) {
                let mut legacy: bool = false;
                if plaintext.len() == 12 {
                    self.correlated_probes = true;
                } else {
                    legacy = !self.warned_legacy_probes;
                    self.warned_legacy_probes = true;
                }
                self.pending_probe = None;
                let elapsed: u64 = time::since(now, started);
                self.rtt.record(elapsed);
                status.probes_received = status.probes_received.saturating_add(1);
                update_path_status(status, Ok(elapsed));
                publish_path_health(healthy, self.index, true);
                let failures: u32 = self.failures;
                self.failures = 0;
                self.backoff = RECONNECT_BACKOFF_MIN;
                self.next_redial = None;
                // The path works, so the next outage gets a cheap first attempt
                // again.
                dialer.allow_cheap_reopen();
                if self.dialing.is_some() {
                    self.dialing = Some(ReconnectAttempt { superseded: true });
                }
                return Heard::Answered { elapsed, failures, legacy };
            }
        }
        match take_late_probe_reply(&mut self.expired_probes, plaintext, now) {
            Some(elapsed) => {
                self.rtt.record(elapsed);
                Heard::Late { elapsed }
            },
            None => Heard::Nothing,
        }
    }

    /// Sets when the next probe goes out, once the scheduler has taken in that
    /// this one was answered.
    pub fn schedule_probe(&mut self, decision: u64, healthy: u64, now: u64)
        ensures
            final(self)@ == (WorkerModel {
                next_probe: old(self)@.probe_after(decision, healthy, now),
                ..old(self)@
            }),
    {
        let selected: u64 = selected_paths(decision, healthy);
        let carrying: bool = self.index < 64 && (selected >> (self.index as u64)) & 1 == 1;
        self.next_probe = time::after(now, healthy_probe_interval(carrying));
    }

    /// Takes in a frame that came out of the transport.
    pub fn frame_received(
        &mut self,
        frame: &[u8],
        crypto: &SessionCrypto,
        ingress: &mut RelayIngress,
        inbound: &mut VecDeque<Vec<u8>>,
        capacity: usize,
        dialer: &mut PathDialer,
        status: &mut PathSessionStatus,
        counters: &mut PathCounters,
        healthy: &mut u64,
        now: u64,
    ) -> (r: Heard)
        requires
            old(self)@.wf(),
            old(ingress).wf(),
        ensures
            final(self)@.wf(),
            final(ingress).wf(),
            final(ingress).client_id == old(ingress).client_id,
            final(ingress).session_id == old(ingress).session_id,
            match auth::opened_frame(crypto.server_key(), SERVER_TO_CLIENT_NONCE, frame@) {
                Ok((header, plaintext)) if header.client_id == old(self)@.client_id
                    && header.session_id == old(self)@.session_id => if state::flagged(
                    header.flags,
                    FLAG_CONTROL,
                ) {
                    &&& r == old(self)@.control_heard(header.flags, plaintext, now)
                    &&& final(self)@ == old(self)@.control_taken(header.flags, plaintext, now)
                    &&& final(ingress).server_replay == old(ingress).server_replay
                    &&& final(inbound)@ == old(inbound)@
                    &&& *final(counters) == *old(counters)
                    &&& match r {
                        Heard::Answered { elapsed, .. } => {
                            &&& final(status)@ == one_answered(old(status)@, elapsed)
                            &&& *final(healthy) == health::published(
                                *old(healthy),
                                old(self)@.index,
                                true,
                            )
                            &&& *final(dialer) == (PathDialer {
                                cheap_reopen: true,
                                ..*old(dialer)
                            })
                        },
                        _ => {
                            &&& final(status)@ == old(status)@
                            &&& *final(healthy) == *old(healthy)
                            &&& *final(dialer) == *old(dialer)
                        },
                    }
                } else if state::flagged(header.flags, FLAG_SERVER_TO_CLIENT) {
                    &&& r == Heard::Traffic
                    &&& final(self)@ == old(self)@
                    &&& *final(healthy) == *old(healthy)
                    &&& *final(dialer) == *old(dialer)
                    &&& final(status)@ == (StatusModel {
                        packets_received: scheduler::counted(old(status)@.packets_received),
                        bytes_received: health::summed(
                            old(status)@.bytes_received,
                            frame@.len(),
                        ),
                        ..old(status)@
                    })
                    &&& if !old(ingress).wants(header) {
                        &&& final(ingress).server_replay == old(ingress).server_replay
                        &&& final(inbound)@ == old(inbound)@
                        &&& *final(counters) == *old(counters)
                    } else if old(inbound)@.len() < capacity {
                        &&& old(ingress).server_replay.offered(
                            header.sequence,
                            &final(ingress).server_replay,
                        )
                        &&& final(inbound)@.len() == old(inbound)@.len() + 1
                        &&& final(inbound)@.drop_last() == old(inbound)@
                        &&& final(inbound)@.last()@ == plaintext
                        &&& *final(counters) == *old(counters)
                    } else {
                        &&& final(ingress).server_replay == old(ingress).server_replay
                        &&& final(inbound)@ == old(inbound)@
                        &&& *final(counters) == (PathCounters {
                            dropped: worker::plus(old(counters).dropped, 1),
                            inbound_dropped: worker::plus(old(counters).inbound_dropped, 1),
                            ..*old(counters)
                        })
                    }
                } else {
                    &&& r == Heard::Nothing
                    &&& final(self)@ == old(self)@
                    &&& final(ingress).server_replay == old(ingress).server_replay
                    &&& final(inbound)@ == old(inbound)@
                    &&& *final(counters) == *old(counters)
                    &&& final(status)@ == old(status)@
                    &&& *final(healthy) == *old(healthy)
                    &&& *final(dialer) == *old(dialer)
                },
                _ => {
                    &&& r == Heard::Nothing
                    &&& final(self)@ == old(self)@
                    &&& final(ingress).server_replay == old(ingress).server_replay
                    &&& final(inbound)@ == old(inbound)@
                    &&& *final(counters) == *old(counters)
                    &&& final(status)@ == old(status)@
                    &&& *final(healthy) == *old(healthy)
                    &&& *final(dialer) == *old(dialer)
                },
            },
    {
        match crypto.open_server(frame) {
            Ok((header, plaintext)) => {
                if !bytes::constant_time_eq(header.client_id.as_slice(), self.client_id.as_slice())
                    || header.session_id != self.session_id {
                    return Heard::Nothing;
                }
                if header.flags & FLAG_CONTROL != 0 {
                    self.control_received(
                        header.flags,
                        plaintext.as_slice(),
                        dialer,
                        status,
                        healthy,
                        now,
                    )
                } else if header.flags & FLAG_SERVER_TO_CLIENT != 0 {
                    record_path_receive(status, frame.len());
                    // Blocking on a saturated inbound queue would stall this
                    // path's probes and timers, which is how a busy path ends up
                    // reported as a dead one.
                    let ghost before = inbound@;
                    let taken = ingress.enqueue_authenticated(
                        &header,
                        plaintext,
                        inbound,
                        capacity,
                    );
                    proof {
                        if inbound@.len() == before.len() + 1 {
                            assert(inbound@.drop_last() =~= before);
                        }
                    }
                    if taken.is_err() {
                        counters.dropped = worker::count_up(counters.dropped, 1);
                        counters.inbound_dropped = worker::count_up(counters.inbound_dropped, 1);
                    }
                    Heard::Traffic
                } else {
                    Heard::Nothing
                }
            },
            Err(_) => Heard::Nothing,
        }
    }

    /// Reading from the transport failed.
    ///
    /// This says nothing of its health: Windows surfaces an earlier send's ICMP unreachable
    /// on the next read, and a restarting node's next reply disproves it. The
    /// probe timeout is what takes a path out of the dispatcher, so a transient
    /// like this cannot interrupt duplication.
    pub fn receive_failed(&self, error: String, status: &mut PathSessionStatus)
        ensures
            final(status)@ == health::status_updated(old(status)@, Err(error@)),
    {
        update_path_status(status, Err(error));
    }

    /// Publishes what setting the transport up cost, where that has changed, and
    /// says whether it had.
    pub fn publish_setup(
        &mut self,
        setup: Option<u64>,
        round_trips: Option<u8>,
        status: &mut PathSessionStatus,
    ) -> (r: bool)
        ensures
            r == (setup != old(self)@.published_setup),
            final(self)@ == (WorkerModel { published_setup: setup, ..old(self)@ }),
            final(status)@ == if r {
                StatusModel {
                    handshake: setup,
                    handshake_round_trips: round_trips,
                    ..old(status)@
                }
            } else {
                old(status)@
            },
    {
        let same: bool = match (setup, self.published_setup) {
            (Some(a), Some(b)) => a == b,
            (None, None) => true,
            _ => false,
        };
        if same {
            return false;
        }
        status.handshake = setup;
        status.handshake_round_trips = round_trips;
        self.published_setup = setup;
        true
    }

    /// Writes the probe on its way off where it has missed its deadline. `note`
    /// is what the transport has to add.
    pub fn check_timeout(
        &mut self,
        note: Option<String>,
        status: &mut PathSessionStatus,
        healthy: &mut u64,
        now: u64,
    ) -> (r: Option<Trouble>)
        requires
            old(self)@.wf(),
        ensures
            final(self)@.wf(),
            if old(self)@.probe_overdue(now) {
                &&& r == Some(trouble_of(one_more(old(self)@.failures)))
                &&& final(self)@ == old(self)@.timed_out(now)
                &&& *final(healthy) == old(self)@.mask_after_failure(*old(healthy))
                &&& final(status)@ == if one_more(old(self)@.failures)
                    >= HEALTH_FAILURE_THRESHOLD {
                    health::status_updated(
                        one_lost(old(status)@),
                        Err(
                            match note {
                                Some(note) => TIMED_OUT@ + ": "@ + note@,
                                None => TIMED_OUT@,
                            },
                        ),
                    )
                } else {
                    one_lost(old(status)@)
                }
            } else {
                &&& r is None
                &&& final(self)@ == old(self)@
                &&& *final(healthy) == *old(healthy)
                &&& final(status)@ == old(status)@
            },
    {
        let (sequence, started) = match self.pending_probe {
            Some(probe) => probe,
            None => return None,
        };
        if time::since(now, started) <= self.rtt.timeout() {
            return None;
        }
        self.pending_probe = None;
        remember_expired_probe(&mut self.expired_probes, sequence, started, now);
        status.probes_lost = status.probes_lost.saturating_add(1);
        self.failures = self.failures.saturating_add(1);
        schedule_redial(self.failures, self.backoff, &mut self.next_redial, now);
        if self.failures >= HEALTH_FAILURE_THRESHOLD {
            publish_path_health(healthy, self.index, false);
            let message = match note {
                Some(note) => text::concat3(TIMED_OUT, ": ", note.as_str()),
                None => TIMED_OUT.to_owned(),
            };
            update_path_status(status, Err(message));
        }
        self.next_probe = time::after(now, PROBE_INTERVAL_DEGRADED);
        Some(trouble(self.failures))
    }

    /// Follows up an answered probe, once the measurements have become
    /// `estimate`: the scheduler picks again, the round trip is compared with
    /// the baseline, and the next probe is timed by the new pick.
    pub fn probe_answered(
        &mut self,
        metrics: &mut Vec<PathMetrics>,
        decision: &mut u64,
        fallback: u64,
        strategy: Strategy,
        healthy: u64,
        estimate: Estimate,
        reading: Reading,
        now: u64,
    ) -> (r: Followed)
        requires
            old(self)@.wf(),
        ensures
            final(self)@.wf(),
            final(metrics)@ == health::after_result(
                old(metrics)@,
                old(self)@.index,
                ProbeResult::Answered(estimate),
            ),
            *final(decision) == health::repicked(
                old(metrics)@,
                *old(decision),
                fallback,
                old(self)@.index,
                ProbeResult::Answered(estimate),
                strategy,
            ),
            r.repicked == health::moved_pick(*old(decision), *final(decision)),
            r.seen == old(self)@.watch.observed(reading, now).1,
            final(self)@ == (WorkerModel {
                watch: old(self)@.watch.observed(reading, now).0,
                next_probe: old(self)@.probe_after(*final(decision), healthy, now),
                ..old(self)@
            }),
    {
        let repicked = update_scheduler_probe(
            metrics,
            decision,
            fallback,
            self.index,
            ProbeResult::Answered(estimate),
            strategy,
        );
        let seen = self.observe_latency(reading, now);
        self.schedule_probe(*decision, healthy, now);
        Followed { repicked, seen }
    }

    /// Follows up a lost probe, once the measurements have become `estimate`: the
    /// scheduler picks again.
    pub fn probe_lost(
        &self,
        metrics: &mut Vec<PathMetrics>,
        decision: &mut u64,
        fallback: u64,
        strategy: Strategy,
        estimate: Estimate,
    ) -> (r: Option<(u64, u64)>)
        ensures
            final(metrics)@ == health::after_result(
                old(metrics)@,
                self@.index,
                ProbeResult::Lost(estimate),
            ),
            *final(decision) == health::repicked(
                old(metrics)@,
                *old(decision),
                fallback,
                self@.index,
                ProbeResult::Lost(estimate),
                strategy,
            ),
            r == health::moved_pick(*old(decision), *final(decision)),
    {
        update_scheduler_probe(
            metrics,
            decision,
            fallback,
            self.index,
            ProbeResult::Lost(estimate),
            strategy,
        )
    }

    /// Takes in how the last round trip compares with the baseline.
    pub fn observe_latency(&mut self, reading: Reading, now: u64) -> (r: Observation)
        requires
            old(self)@.wf(),
        ensures
            final(self)@.wf(),
            ({
                let (watch, seen) = old(self)@.watch.observed(reading, now);
                &&& r == seen
                &&& final(self)@ == (WorkerModel { watch, ..old(self)@ })
            }),
    {
        self.watch.observe(reading, now)
    }
}

/// One lost probe does not take a path out of service, nor do two: the mask is
/// untouched until a third check in a row has failed, and then the path's own
/// bit is cleared and no other.
pub proof fn a_path_stays_in_service_until_three_checks_fail(
    worker: WorkerModel,
    healthy: u64,
    k: u64,
)
    requires
        worker.index < 64,
        k < 64,
    ensures
        worker.failures + 1 < HEALTH_FAILURE_THRESHOLD ==> worker.mask_after_failure(healthy)
            == healthy,
        worker.failures + 1 >= HEALTH_FAILURE_THRESHOLD ==> (bits::bit(
            worker.mask_after_failure(healthy),
            k,
        ) <==> (k != worker.index && bits::bit(healthy, k))),
{
    health::each_path_is_tracked_on_its_own(healthy, worker.index, false, k);
}

/// An answered probe ends an outage: nothing has failed any more, no redial is
/// armed, one already running will be discarded, and the wait before the next
/// one starts over.
pub proof fn an_answer_ends_the_outage(worker: WorkerModel, flags: u8, plaintext: Seq<u8>, now: u64)
    requires
        worker.answers_pending(flags, plaintext),
    ensures
        ({
            let next = worker.control_taken(flags, plaintext, now);
            &&& next.failures == 0
            &&& next.next_redial is None
            &&& next.backoff == RECONNECT_BACKOFF_MIN
            &&& next.pending_probe is None
            &&& next.dialing matches Some(attempt) ==> attempt.superseded
        }),
{
}

/// Two dials of one path never overlap: none is started while one is running,
/// and the one that is started is the one that runs.
pub proof fn dials_do_not_overlap(
    worker: WorkerModel,
    healthy: u64,
    uplink: UplinkState,
    now: u64,
)
    ensures
        worker.dialing is Some ==> worker.redial_step(healthy, uplink, now) == RedialStep::Wait,
        worker.redial_decided(healthy, uplink, now).dialing == worker.dialing,
{
}

/// A path of a session with a single route is never held back by what other
/// routes do, nor is one of a session that has not come up yet.
pub proof fn a_lone_or_starting_path_is_not_held(
    worker: WorkerModel,
    healthy: u64,
    uplink: UplinkState,
    now: u64,
)
    requires
        worker.route_count <= 1 || (!worker.carried_traffic && healthy == 0),
        uplink != UplinkState::Down,
    ensures
        !worker.held(healthy, uplink, now),
{
}

/// A replacement that never answers does not shorten the wait before the next:
/// every failed or silent attempt makes it longer, up to the ceiling.
pub proof fn silent_replacements_back_off(worker: WorkerModel, floor: u64, now: u64)
    requires
        worker.backoff <= dialer::RECONNECT_BACKOFF_MAX,
    ensures
        worker.replaced(floor, now).backoff > worker.backoff || worker.replaced(floor, now).backoff
            == dialer::RECONNECT_BACKOFF_MAX,
        worker.redial_failed(now).backoff == worker.replaced(floor, now).backoff,
{
}

/// A legacy reply answers a probe only until the relay has once sent a tagged
/// one.
pub proof fn a_tagged_relay_is_not_downgraded(worker: WorkerModel, flags: u8)
    requires
        worker.correlated_probes,
    ensures
        !worker.answers_pending(flags, protocol::pong_word()),
{
    match worker.pending_probe {
        Some((sequence, _)) => protocol::a_tagged_peer_is_never_downgraded(sequence),
        None => {},
    }
}

/// An outage as it runs: the first two checks that fail leave the path in
/// service and only probe it harder, every 150 milliseconds; the third takes it
/// out of service and sets a redial.
pub proof fn the_third_failed_check_is_an_outage(worker: WorkerModel, healthy: u64, times: Seq<u64>)
    requires
        worker.failures == 0,
        worker.next_redial is None,
        worker.index < 64,
        bits::bit(healthy, worker.index as u64),
        times.len() == 3,
        times[0] + 150_000_000 <= u64::MAX,
        times[2] + worker.backoff <= u64::MAX,
    ensures
        ({
            let once = worker.check_failed(times[0]);
            let twice = once.check_failed(times[1]);
            let out = twice.check_failed(times[2]);
            &&& once.next_probe == times[0] + 150_000_000
            &&& once.next_redial is None && twice.next_redial is None
            &&& out.next_redial == Some((times[2] + worker.backoff) as u64)
            &&& worker.mask_after_failure(healthy) == healthy
            &&& once.mask_after_failure(healthy) == healthy
            &&& !bits::bit(twice.mask_after_failure(healthy), worker.index as u64)
            &&& trouble_of(once.failures) == Trouble::Loss
            &&& trouble_of(twice.failures) == Trouble::Degraded
            &&& trouble_of(out.failures) == Trouble::Unavailable
            &&& trouble_of(out.check_failed(times[2]).failures) == Trouble::Down
            &&& out.check_failed(times[2]).next_redial == out.next_redial
            &&& out.pending_probe == worker.pending_probe && out.rtt == worker.rtt
        }),
{
    health::each_path_is_tracked_on_its_own(healthy, worker.index, false, worker.index as u64);
}

/// A redial that is due is made at once while another route is up and the uplink
/// is not known to be down. Where all routes of a session that had been up went
/// down together, it is put off by six seconds: as long as the uplink is unknown
/// or down, and for the first eight seconds even where the uplink seems up.
pub proof fn a_common_outage_puts_redials_off(
    worker: WorkerModel,
    healthy: u64,
    other: u64,
    now: u64,
    since: u64,
)
    requires
        worker.dialing is None,
        worker.next_redial matches Some(at) && at <= now,
        worker.route_count > 1,
        worker.carried_traffic,
        worker.common_mode_since == Some(since),
        since <= now,
        now + 6_000_000_000 <= u64::MAX,
        other < 64,
        other != worker.index,
    ensures
        bits::bit(healthy, other) ==> {
            &&& worker.redial_step(healthy, UplinkState::Up, now) == RedialStep::Dial
            &&& worker.redial_step(healthy, UplinkState::Unknown, now) == RedialStep::Dial
            &&& worker.redial_step(healthy, UplinkState::Down, now) == RedialStep::Held
            &&& worker.redial_decided(healthy, UplinkState::Up, now).next_redial is None
            &&& worker.redial_decided(healthy, UplinkState::Up, now).common_mode_since is None
        },
        ({
            let none = 0u64;
            &&& worker.redial_step(none, UplinkState::Down, now) == RedialStep::Held
            &&& worker.redial_step(none, UplinkState::Unknown, now) == RedialStep::Held
            &&& worker.redial_step(none, UplinkState::Up, now) == if now - since < 8_000_000_000 {
                RedialStep::Held
            } else {
                RedialStep::Dial
            }
            &&& worker.redial_decided(none, UplinkState::Unknown, now).next_redial == Some(
                (now + 6_000_000_000) as u64,
            )
            &&& worker.redial_decided(none, UplinkState::Unknown, now).common_mode_since == Some(
                since,
            )
        }),
{
    assert forall|k: u64| k < 64 implies !#[trigger] bits::bit(0, k) by {
        bits::lemma_bit_and(0, 0, k);
    }
    assert(!dialer::another_up(0, worker.index));
    if bits::bit(healthy, other) {
        assert(dialer::another_up(healthy, worker.index));
    }
}

/// A path that carries traffic is probed every second, and one that stands by
/// four times as often.
pub proof fn a_standby_path_is_probed_more_often(
    worker: WorkerModel,
    decision: u64,
    healthy: u64,
    now: u64,
)
    requires
        worker.index < 64,
        now + 1_000_000_000 <= u64::MAX,
        bits::bit(healthy, worker.index as u64),
    ensures
        worker.probe_after(decision, healthy, now) == if bits::bit(decision, worker.index as u64)
            || decision & healthy == 0 {
            now + 1_000_000_000
        } else {
            now + 250_000_000
        },
        worker.wants_probe(now) <==> now >= worker.next_probe && worker.pending_probe is None,
{
    let k = worker.index as u64;
    bits::lemma_bit_and(decision, healthy, k);
    bits::lemma_bit_and(decision & healthy, 0, k);
    bits::lemma_bit_and(healthy, 0, k);
}

/// The relay's answer to the probe on its way is credited to it, with its round
/// trip, and ends the outage; an answer to a probe that was written off only
/// tells how slow the path is.
pub proof fn an_answer_is_credited_to_its_probe(
    worker: WorkerModel,
    sequence: u64,
    started: u64,
    now: u64,
)
    requires
        started <= now,
        worker.pending_probe matches Some((pending, _)) ==> pending != sequence,
    ensures
        ({
            let reply = protocol::response_bytes(protocol::request_bytes(sequence))->0;
            let waiting = WorkerModel { pending_probe: Some((sequence, started)), ..worker };
            let heard = waiting.control_taken(2, reply, now);
            &&& waiting.control_heard(2, reply, now) == (Heard::Answered {
                elapsed: (now - started) as u64,
                failures: worker.failures,
                legacy: false,
            })
            &&& heard.failures == 0 && heard.pending_probe is None && heard.next_redial is None
            &&& heard.backoff == 0
            &&& heard.rtt == worker.rtt.recorded((now - started) as u64)
            &&& heard.correlated_probes
            &&& waiting.control_heard(0, reply, now) is Nothing
        }),
        ({
            let reply = protocol::response_bytes(protocol::request_bytes(sequence))->0;
            let late = WorkerModel { expired_probes: seq![(sequence, started)], ..worker };
            let heard = late.control_taken(2, reply, now);
            &&& late.control_heard(2, reply, now) == (Heard::Late {
                elapsed: (now - started) as u64,
            })
            &&& heard.rtt == worker.rtt.recorded((now - started) as u64)
            &&& heard.expired_probes.len() == 0
            &&& heard.failures == worker.failures && heard.pending_probe == worker.pending_probe
            &&& heard.next_redial == worker.next_redial && heard.dialing == worker.dialing
        }),
{
    assert(2u8 & 2 != 0) by (bit_vector);
    assert(0u8 & 2 == 0) by (bit_vector);
    protocol::a_probe_is_answered_with_its_number(
        sequence,
        protocol::request_bytes(sequence),
    );
    protocol::a_tagged_reply_answers_only_its_own_probe(
        sequence,
        sequence,
        !worker.correlated_probes,
    );
    let reply = protocol::response_bytes(protocol::request_bytes(sequence))->0;
    let late = seq![(sequence, started)];
    health::a_late_answer_finds_its_probe(late, 0);
    if let Some((pending, _)) = worker.pending_probe {
        protocol::a_tagged_reply_answers_only_its_own_probe(
            sequence,
            pending,
            !worker.correlated_probes,
        );
    }
    assert(late.remove(0).len() == 0);
}

/// A probe is overdue once it has been out longer than the deadline; it is then
/// written off as the newest of those, and counts as a failed check.
pub proof fn an_overdue_probe_is_written_off(
    worker: WorkerModel,
    sequence: u64,
    started: u64,
    now: u64,
)
    requires
        worker.pending_probe == Some((sequence, started)),
        started <= now,
        worker.expired_probes.len() <= 32,
        worker.failures < u32::MAX,
    ensures
        worker.probe_overdue(now) <==> now - started > worker.rtt.deadline(),
        worker.timed_out(now).pending_probe is None,
        worker.timed_out(now).expired_probes.last() == (sequence, started),
        worker.timed_out(now).failures == worker.failures + 1,
        worker.timed_out(now).rtt == worker.rtt,
{
}

/// A transport that is gone is an outage at once: a redial is set without
/// waiting for checks to fail.
pub proof fn a_lost_transport_is_an_outage_at_once(worker: WorkerModel, now: u64)
    requires
        worker.next_redial is None,
        now + worker.backoff <= u64::MAX,
    ensures
        worker.transport_lost(now).next_redial == Some((now + worker.backoff) as u64),
        worker.transport_lost(now).failures >= 3,
        worker.transport_lost(now).failures >= worker.failures,
        worker.transport_lost(now).dialing == worker.dialing,
{
}

/// A path on a new transport starts over, with a probe at once and a deadline of
/// its own, but for its wait before the next redial, which grows until a probe
/// is answered.
pub proof fn a_new_transport_starts_over(worker: WorkerModel, floor: u64, now: u64)
    ensures
        ({
            let next = worker.replaced(floor, now);
            &&& next.failures == 0 && next.next_redial is None && next.dialing is None
            &&& next.pending_probe is None && next.next_probe == now
            &&& next.rtt.smoothed is None && next.rtt.floor == floor
            &&& next.watch == LatencyWatch::fresh()
            &&& next.index == worker.index && next.session_id == worker.session_id
            &&& next.client_id == worker.client_id
            &&& next.correlated_probes == worker.correlated_probes
            &&& worker.backoff == 0 ==> next.backoff == 1_000_000_000
            &&& 0 < worker.backoff < 15_000_000_000 ==> next.backoff == 2 * worker.backoff
            &&& worker.backoff >= 15_000_000_000 ==> next.backoff == 30_000_000_000
        }),
        worker.backoff == 0 && now + 1_000_000_000 <= u64::MAX ==> worker.redial_failed(
            now,
        ).next_redial == Some((now + 1_000_000_000) as u64),
        worker.redial_failed(now).dialing is None,
        worker.redial_failed(now).failures == worker.failures,
{
}

/// A probe goes out as a control message of this client and this session.
pub proof fn a_probe_is_a_control_message(worker: WorkerModel, sequence: u64)
    ensures
        worker.probe_header(sequence) == (HeaderModel {
            flags: 1,
            client_id: worker.client_id,
            session_id: worker.session_id,
            sequence,
        }),
{
}

/// A lost probe is counted as lost and an answered one as answered; only the
/// answer makes the path reachable, with its round trip and no error.
pub proof fn probes_are_tallied(status: StatusModel, elapsed: u64)
    requires
        status.probes_lost < u64::MAX,
        status.probes_received < u64::MAX,
    ensures
        one_lost(status).probes_lost == status.probes_lost + 1,
        one_lost(status).probes_received == status.probes_received,
        one_lost(status).reachable == status.reachable,
        one_answered(status, elapsed).probes_received == status.probes_received + 1,
        one_answered(status, elapsed).probes_lost == status.probes_lost,
        one_answered(status, elapsed).reachable,
        one_answered(status, elapsed).latency == Some(elapsed),
        one_answered(status, elapsed).last_error is None,
{
}

/// A new path is probed at once, with nothing held against it.
pub proof fn a_new_path_is_probed_at_once(
    index: usize,
    client_id: Seq<u8>,
    session_id: u64,
    route_count: usize,
    floor: u64,
    now: u64,
)
    ensures
        ({
            let fresh = WorkerModel::fresh(index, client_id, session_id, route_count, floor, now);
            &&& fresh.wants_probe(now)
            &&& fresh.index == index && fresh.client_id == client_id
            &&& fresh.session_id == session_id && fresh.route_count == route_count
            &&& fresh.failures == 0 && fresh.backoff == 0 && fresh.next_redial is None
            &&& fresh.dialing is None && fresh.rtt.floor == floor && fresh.rtt.smoothed is None
            &&& !fresh.correlated_probes && !fresh.carried_traffic
            &&& fresh.expired_probes.len() == 0
        }),
{
}

} // verus!
