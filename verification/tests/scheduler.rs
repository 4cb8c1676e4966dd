use gamepath_engine::auth::SessionCrypto;
use gamepath_engine::protocol::{FrameHeader, FLAG_CONTROL, FLAG_SERVER_TO_CLIENT};
use gamepath_engine::replay::ReplayWindow;
use gamepath_engine::scheduler;
use gamepath_engine::scheduler::{
    Decision, Estimate, PathMetrics as Metrics, Strategy, LOSSES_BEFORE_INACTIVE, UNREACHABLE,
};
use gamepath_engine::session::health::{
    mask_for_decision, selected_paths, update_scheduler_probe, ProbeResult,
};
use gamepath_engine::session::state::RelayIngress;
use std::collections::VecDeque;

const SMOOTHING: f64 = 0.2;
const LOSS_SMOOTHING: f64 = 0.05;
const DELAY_BUDGET_MS: f64 = 100.0;
const INCUMBENCY_MARGIN: f64 = 8.0;

/// An integer that is ordered as the number is.
fn order_key(value: f64) -> i64 {
    let bits = value.to_bits() as i64;
    bits ^ (((bits >> 63) as u64) >> 1) as i64
}

/// A path and what has been measured of it.
#[derive(Clone)]
struct PathMetrics {
    metrics: Metrics,
    active: bool,
    latency_ms: f64,
    jitter_ms: f64,
    loss_ratio: f64,
    last_latency_ms: Option<f64>,
}

impl PathMetrics {
    fn new(id: &str) -> Self {
        Self {
            metrics: Metrics::new(id.to_owned()),
            active: true,
            latency_ms: 0.0,
            jitter_ms: 0.0,
            loss_ratio: 0.0,
            last_latency_ms: None,
        }
    }

    fn estimate(&self) -> Estimate {
        let cost = self.latency_ms + self.jitter_ms * 2.0;
        let score = self.latency_ms + (self.jitter_ms * 2.0) + (self.loss_ratio * 200.0);
        let delivery = cost.max(self.last_latency_ms.unwrap_or(0.0));
        Estimate {
            score: order_key(score),
            held_score: order_key(score - INCUMBENCY_MARGIN),
            cost: order_key(cost),
            held_cost: order_key(cost - INCUMBENCY_MARGIN),
            delivery: order_key(delivery),
            delivery_limit: order_key(delivery + DELAY_BUDGET_MS),
            degraded: self.loss_ratio >= 0.5 || self.jitter_ms >= 50.0,
        }
    }

    fn record_probe(&mut self, latency_ms: f64) {
        if self.last_latency_ms.is_none() {
            self.latency_ms = latency_ms;
        } else {
            let deviation = (latency_ms - self.latency_ms).abs();
            self.jitter_ms += SMOOTHING * (deviation - self.jitter_ms);
            self.latency_ms += SMOOTHING * (latency_ms - self.latency_ms);
        }
        self.loss_ratio += LOSS_SMOOTHING * (0.0 - self.loss_ratio);
        self.last_latency_ms = Some(latency_ms);
        let estimate = self.estimate();
        self.metrics.record_probe(estimate);
        self.active = self.metrics.active;
    }

    fn record_loss(&mut self) {
        self.loss_ratio += LOSS_SMOOTHING * (1.0 - self.loss_ratio);
        let estimate = self.estimate();
        self.metrics.record_loss(estimate);
        self.active = self.metrics.active;
    }

    fn score(&self) -> i64 {
        self.metrics.score()
    }
}

fn metrics_of(paths: &[PathMetrics]) -> Vec<Metrics> {
    paths.iter().map(|path| path.metrics.clone()).collect()
}

fn choose_paths(paths: &[PathMetrics], strategy: Strategy) -> Decision {
    scheduler::choose_paths(&metrics_of(paths), strategy)
}

fn choose_paths_with_incumbent(
    paths: &[PathMetrics],
    strategy: Strategy,
    incumbent: &[&str],
) -> Decision {
    scheduler::choose_paths_with_incumbent(&metrics_of(paths), strategy, incumbent)
}

fn measured(id: &str, latency: f64) -> PathMetrics {
    let mut path = PathMetrics::new(id);
    path.record_probe(latency);
    path
}

/// A path whose score is exactly `score`, for replaying figures recorded in
/// a log rather than re-deriving them through the smoothing.
fn scored(id: &str, score: f64) -> PathMetrics {
    let mut path = measured(id, score);
    path.latency_ms = score;
    path.jitter_ms = 0.0;
    path.metrics.estimate = Some(path.estimate());
    path
}

/// Runs a recorded sequence of per-route scores through the ranking and
/// returns how many times the set of carried routes changed.
fn selection_changes(snapshots: &[[f64; 3]], margin_applies: bool) -> usize {
    let mut carried: Vec<String> = Vec::new();
    let mut changes = 0;
    for scores in snapshots {
        let paths: Vec<_> = scores
            .iter()
            .enumerate()
            .map(|(route, score)| scored(&route.to_string(), *score))
            .collect();
        let incumbent: Vec<&str> = if margin_applies {
            carried.iter().map(String::as_str).collect()
        } else {
            Vec::new()
        };
        let Decision::Duplicate { path_ids } =
            choose_paths_with_incumbent(&paths, Strategy::Adaptive, &incumbent)
        else {
            panic!("three healthy routes should duplicate");
        };
        let mut next = path_ids;
        next.sort();
        if !carried.is_empty() && next != carried {
            changes += 1;
        }
        carried = next;
    }
    changes
}

/// The recorded incident. Three consecutive selections inside 2.1 seconds on
/// a live three-route session, every route at ~52 ms with no loss, the pick
/// turning on one point. Replaying those scores must now settle.
#[test]
fn recorded_near_identical_routes_stop_trading_places() {
    // 22:31:23.679, 22:31:24.319 and 22:31:25.795.
    let recorded = [[52.0, 57.0, 58.0], [58.0, 57.0, 58.0], [58.0, 64.0, 57.0]];
    assert!(
        selection_changes(&recorded, false) > 0,
        "the recorded scores did not reproduce the flapping this guards"
    );
    assert_eq!(
        selection_changes(&recorded, true),
        0,
        "a one-point difference still moved the session between routes"
    );
}

#[test]
fn a_marginally_better_challenger_does_not_take_the_slot() {
    let paths = [scored("0", 50.0), scored("1", 58.0), scored("2", 57.0)];
    let Decision::Duplicate { path_ids } =
        choose_paths_with_incumbent(&paths, Strategy::Adaptive, &["0", "1"])
    else {
        panic!("three healthy routes should duplicate");
    };
    assert!(
        path_ids.contains(&"1".to_owned()),
        "a route carrying traffic lost its slot to one point: {path_ids:?}"
    );
}

/// And the margin must not become a lock. A route that is genuinely better
/// still takes the slot, or hysteresis would cost exactly the latency the
/// scheduler exists to find.
#[test]
fn a_clearly_better_challenger_still_takes_the_slot() {
    let paths = [scored("0", 50.0), scored("1", 58.0), scored("2", 40.0)];
    let Decision::Duplicate { path_ids } =
        choose_paths_with_incumbent(&paths, Strategy::Adaptive, &["0", "1"])
    else {
        panic!("three healthy routes should duplicate");
    };
    assert_eq!(path_ids.len(), 2);
    assert!(
        path_ids.contains(&"2".to_owned()),
        "a route 18 points better was kept out by incumbency: {path_ids:?}"
    );
}

/// The live spread this was sized against: two 47 ms WireGuard routes and an
/// 86 ms L2TP one. Incumbency must be nowhere near wide enough to hold the
/// slow route in the pick.
#[test]
fn incumbency_is_narrower_than_a_real_route_difference() {
    let paths = [scored("0", 47.0), scored("1", 47.0), scored("2", 86.0)];
    let Decision::Duplicate { path_ids } =
        choose_paths_with_incumbent(&paths, Strategy::Adaptive, &["2"])
    else {
        panic!("three healthy routes should duplicate");
    };
    assert!(
        !path_ids.contains(&"2".to_owned()),
        "incumbency held an 86 ms route against two 47 ms ones: {path_ids:?}"
    );
}

/// The property that makes the margin affordable: it ranks, and a path taken
/// out by consecutive losses is not ranked at all.
#[test]
fn incumbency_cannot_hold_a_path_that_stopped_answering() {
    let mut failing = measured("0", 40.0);
    for _ in 0..LOSSES_BEFORE_INACTIVE {
        failing.record_loss();
    }
    let paths = [failing, measured("1", 70.0), measured("2", 75.0)];
    let decision = choose_paths_with_incumbent(&paths, Strategy::Adaptive, &["0"]);
    let Decision::Duplicate { path_ids } = decision else {
        panic!("two healthy routes remain, so they should duplicate");
    };
    assert!(
        !path_ids.contains(&"0".to_owned()),
        "a dead route kept its slot because it used to hold one: {path_ids:?}"
    );
}

/// A path that degrades without ever missing three probes in a row is the
/// case only the score can catch, so the margin must not swallow it either.
#[test]
fn incumbency_does_not_outlast_a_real_degradation() {
    let mut degrading = measured("0", 45.0);
    for _ in 0..40 {
        degrading.record_probe(140.0);
    }
    let paths = [degrading, measured("1", 60.0), measured("2", 65.0)];
    let Decision::Duplicate { path_ids } =
        choose_paths_with_incumbent(&paths, Strategy::Adaptive, &["0", "1"])
    else {
        panic!("three healthy routes should duplicate");
    };
    assert!(
        !path_ids.contains(&"0".to_owned()),
        "a route that drifted to 140 ms kept its slot: {path_ids:?}"
    );
}

/// Nothing carries traffic yet at startup, so the first pick is decided on
/// the scores alone.
#[test]
fn with_nothing_carrying_traffic_the_best_routes_win_outright() {
    let paths = [scored("0", 90.0), scored("1", 50.0), scored("2", 55.0)];
    assert_eq!(
        choose_paths_with_incumbent(&paths, Strategy::Adaptive, &[]),
        choose_paths(&paths, Strategy::Adaptive),
    );
}

/// Two routes both down and close together used to alternate as the armed
/// fallback on every timeout, which is the same flapping one layer down.
#[test]
fn a_total_outage_holds_the_route_it_already_armed() {
    let mut first = measured("0", 52.0);
    let mut second = measured("1", 50.0);
    for _ in 0..LOSSES_BEFORE_INACTIVE {
        first.record_loss();
        second.record_loss();
    }
    assert_eq!(
        choose_paths_with_incumbent(&[first, second], Strategy::Adaptive, &["0"]),
        Decision::Single {
            path_id: "0".into()
        }
    );
}

#[test]
fn fastest_path_uses_lowest_score() {
    let paths = [measured("slow", 80.0), measured("fast", 41.0)];
    assert_eq!(
        choose_paths(&paths, Strategy::FastestPath),
        Decision::Single {
            path_id: "fast".into()
        }
    );
}

/// Substantial degradation on both candidates suppresses extra load. This
/// is a conservative policy, not proof of where congestion occurred.
#[test]
fn adaptive_mode_stops_duplicating_when_every_path_is_degraded() {
    let mut first = measured("first", 60.0);
    let mut second = measured("second", 65.0);
    for _ in 0..20 {
        first.record_probe(250.0);
        second.record_probe(255.0);
        first.record_probe(60.0);
        second.record_probe(65.0);
    }
    assert!(matches!(
        choose_paths(&[first, second], Strategy::Adaptive),
        Decision::Single { .. }
    ));
}

#[test]
fn an_explicit_duplicate_strategy_still_duplicates_when_all_are_degraded() {
    let mut first = measured("first", 60.0);
    let mut second = measured("second", 65.0);
    first.record_loss();
    second.record_loss();
    assert!(matches!(
        choose_paths(&[first, second], Strategy::Duplicate),
        Decision::Duplicate { .. }
    ));
}

#[test]
fn adaptive_mode_duplicates_on_loss() {
    let mut unstable = measured("unstable", 35.0);
    unstable.record_loss();
    let paths = [unstable, measured("backup", 52.0)];
    assert!(matches!(
        choose_paths(&paths, Strategy::Adaptive),
        Decision::Duplicate { .. }
    ));
}

#[test]
fn adaptive_mode_does_not_duplicate_onto_a_slow_backup() {
    let mut unstable = measured("fast", 50.0);
    unstable.record_loss();
    let paths = [unstable, measured("slow", 180.0)];
    assert_eq!(
        choose_paths(&paths, Strategy::Adaptive),
        Decision::Single {
            path_id: "fast".into()
        }
    );
}

#[test]
fn adaptive_mode_does_not_duplicate_onto_a_jittering_backup() {
    let stable = measured("stable", 50.0);
    let mut jittering = measured("jittering", 50.0);
    jittering.record_probe(500.0);
    assert_eq!(
        choose_paths(&[stable, jittering], Strategy::Adaptive),
        Decision::Single {
            path_id: "stable".into()
        }
    );
}

#[test]
fn healthy_paths_are_already_duplicating_before_a_failure() {
    assert!(matches!(
        choose_paths(
            &[measured("wg", 50.0), measured("tcp", 88.0)],
            Strategy::Adaptive
        ),
        Decision::Duplicate { .. }
    ));
}

#[test]
fn all_paths_mode_keeps_every_healthy_enabled_route_active() {
    assert_eq!(
        choose_paths(
            &[
                measured("wg", 50.0),
                measured("tcp", 65.0),
                measured("socks", 95.0)
            ],
            Strategy::AllPaths,
        ),
        Decision::Duplicate {
            path_ids: vec!["wg".into(), "tcp".into(), "socks".into()],
        }
    );
}

#[test]
fn intermittent_loss_on_both_paths_keeps_redundancy() {
    let mut paths = [measured("wg", 50.0), measured("udp", 60.0)];
    for path in &mut paths {
        path.record_loss();
    }
    assert!(matches!(
        choose_paths(&paths, Strategy::Adaptive),
        Decision::Duplicate { .. }
    ));
}

#[test]
fn a_path_that_only_lost_probes_is_never_rated_as_zero_ms() {
    let mut unproven = PathMetrics::new("unproven");
    unproven.record_loss();
    assert_eq!(
        choose_paths(
            &[unproven.clone(), measured("working", 90.0)],
            Strategy::Adaptive
        ),
        Decision::Single {
            path_id: "working".into()
        }
    );
    unproven.record_probe(90.0);
    assert_eq!(unproven.latency_ms, 90.0);
}

#[test]
fn failed_primary_is_replaced_by_two_working_backups_and_can_recover() {
    let mut paths = [
        measured("wg", 40.0),
        measured("tcp", 60.0),
        measured("socks", 70.0),
    ];
    for _ in 0..3 {
        paths[0].record_loss();
    }
    assert_eq!(
        choose_paths(&paths, Strategy::Adaptive),
        Decision::Duplicate {
            path_ids: vec!["tcp".into(), "socks".into()]
        }
    );
    for _ in 0..20 {
        paths[0].record_probe(40.0);
    }
    assert_eq!(
        choose_paths(&paths, Strategy::Adaptive),
        Decision::Duplicate {
            path_ids: vec!["wg".into(), "tcp".into()]
        }
    );
}

#[test]
fn total_outage_does_not_expand_outbound_traffic_to_all_paths() {
    let mut paths = [
        measured("wg", 40.0),
        measured("tcp", 60.0),
        measured("socks", 70.0),
    ];
    for path in &mut paths {
        for _ in 0..3 {
            path.record_loss();
        }
    }
    assert_eq!(
        choose_paths(&paths, Strategy::Adaptive),
        Decision::Single {
            path_id: "wg".into()
        }
    );
    paths[2].record_probe(70.0);
    assert_eq!(
        choose_paths(&paths, Strategy::Adaptive),
        Decision::Single {
            path_id: "socks".into()
        }
    );
}

#[test]
fn a_total_outage_holds_one_last_known_route_instead_of_flipping_on_loss() {
    let mut first = measured("first", 45.0);
    let mut second = measured("second", 60.0);
    for _ in 0..3 {
        first.record_loss();
        second.record_loss();
    }
    for _ in 0..10 {
        first.record_loss();
        assert_eq!(
            choose_paths(&[first.clone(), second.clone()], Strategy::Adaptive),
            Decision::Single {
                path_id: "first".into()
            }
        );
        second.record_loss();
        assert_eq!(
            choose_paths(&[first.clone(), second.clone()], Strategy::Adaptive),
            Decision::Single {
                path_id: "first".into()
            }
        );
    }
}

/// A lost probe is one packet, and must read as one packet. The old
/// smoothing turned it into a 20% loss rate that decayed through the teens
/// for several seconds, which is what users saw and reported as a loss
/// spike on a link whose real loss was a few percent.
#[test]
fn one_lost_probe_reads_as_one_probe_not_a_loss_spike() {
    let mut path = measured("route", 47.0);
    path.record_loss();
    assert!(
        path.loss_ratio <= 0.05 + f64::EPSILON,
        "one probe reported {:.0}% loss",
        path.loss_ratio * 100.0
    );
}

/// The property that makes the number worth showing anyone: the reading at
/// an arbitrary moment is close to the path's real loss rate.
///
/// Any smoothing gets this right *on average* — it is an EWMA over a 0/1
/// indicator, so its expectation is the loss rate either way. What the old
/// constant got wrong was the spread around that average: at 0.2 a
/// one-in-twenty path swung between 20% just after a loss and 0.6% just
/// before the next one, so whenever anyone actually looked, the figure was
/// wrong. This samples mid-stream rather than averaging, which is why it
/// fails against the old constant.
#[test]
fn the_loss_estimate_settles_on_the_real_loss_rate() {
    for (lose_one_in, expected) in [(20, 0.05), (10, 0.10), (4, 0.25)] {
        let mut path = measured("route", 50.0);
        for probe in 0..4_000 {
            if probe % lose_one_in == 0 {
                path.record_loss();
            } else {
                path.record_probe(50.0);
            }
        }
        assert!(
            (path.loss_ratio - expected).abs() < 0.03,
            "1-in-{lose_one_in} loss settled at {:.1}%, expected about {:.0}%",
            path.loss_ratio * 100.0,
            expected * 100.0
        );
    }
}

/// The live regression. Two WireGuard routes at 47 ms and an L2TP route at
/// 86 ms: losing a single probe on a fast route must not hand the session
/// to one 39 ms slower. This is the flapping that produced 50 selection
/// changes in six minutes.
#[test]
fn a_single_loss_does_not_promote_a_route_that_is_far_slower() {
    let mut fast = measured("fast", 47.0);
    let steady = measured("steady", 47.0);
    let slow = measured("slow", 86.0);
    fast.record_loss();
    let Decision::Duplicate { path_ids } =
        choose_paths(&[fast, steady, slow], Strategy::Adaptive)
    else {
        panic!("three healthy routes should still duplicate");
    };
    assert!(
        !path_ids.contains(&"slow".to_owned()),
        "one lost probe promoted the slow route: {path_ids:?}"
    );
}

/// And the estimate still has to be able to condemn a path. A route losing
/// most of its probes without ever losing three in a row is exactly the
/// case `consecutive_losses` cannot catch, so the ratio has to carry it.
#[test]
fn sustained_heavy_loss_still_reaches_the_degraded_threshold() {
    let mut path = measured("lossy", 50.0);
    for probe in 0..400 {
        // Two lost, one delivered: never three in a row, so the path stays
        // `active` and only the loss estimate can speak against it.
        if probe % 3 == 2 {
            path.record_probe(50.0);
        } else {
            path.record_loss();
        }
    }
    assert!(path.active, "this path never lost three probes in a row");
    assert!(
        path.loss_ratio >= 0.5,
        "two-in-three loss only reached {:.0}%",
        path.loss_ratio * 100.0
    );
}

/// Slowing the estimate must not slow down the thing that actually reacts
/// to a dead path, which is a run of consecutive losses.
#[test]
fn a_dead_path_is_still_dropped_after_three_consecutive_losses() {
    let mut path = measured("dead", 40.0);
    for _ in 0..LOSSES_BEFORE_INACTIVE - 1 {
        path.record_loss();
        assert!(path.active);
    }
    path.record_loss();
    assert!(!path.active);
    assert_eq!(path.score(), UNREACHABLE);
    assert_eq!(UNREACHABLE, order_key(f64::INFINITY));
    // And one good probe brings it straight back.
    path.record_probe(40.0);
    assert!(path.active);
}

#[test]
fn scheduler_mask_keeps_single_route_armed_after_loss() {
    let mut route = PathMetrics::new("0");
    route.record_probe(40.0);
    route.record_loss();
    assert_eq!(
        mask_for_decision(&choose_paths(&[route], Strategy::Adaptive), 0b1),
        0b1
    );
}

#[test]
fn scheduler_mask_keeps_two_healthy_routes_ready() {
    let mut slower = PathMetrics::new("0");
    slower.record_probe(70.0);
    let mut faster = PathMetrics::new("1");
    faster.record_probe(35.0);
    assert_eq!(
        mask_for_decision(&choose_paths(&[slower, faster], Strategy::Adaptive), 0b11),
        0b11
    );
}

#[test]
fn scheduler_mask_duplicates_degraded_routes() {
    let mut degraded = PathMetrics::new("0");
    degraded.record_probe(35.0);
    degraded.record_loss();
    let mut backup = PathMetrics::new("1");
    backup.record_probe(50.0);
    assert_eq!(
        mask_for_decision(&choose_paths(&[degraded, backup], Strategy::Adaptive), 0b11),
        0b11
    );
}

#[test]
fn scheduler_mask_falls_back_when_all_routes_are_unrated() {
    let routes = [PathMetrics::new("0"), PathMetrics::new("1")];
    assert_eq!(
        mask_for_decision(&choose_paths(&routes, Strategy::Adaptive), 0b11),
        0b11
    );
}

#[test]
fn a_probe_republishes_the_decision_only_where_it_changes() {
    let mut paths = [measured("0", 40.0), measured("1", 60.0)];
    let mut metrics = metrics_of(&paths);
    let mut mask = 0b01;
    paths[1].record_probe(60.0);
    let estimate = paths[1].estimate();
    assert_eq!(
        update_scheduler_probe(
            &mut metrics,
            &mut mask,
            0b11,
            1,
            ProbeResult::Answered(estimate),
            Strategy::Adaptive
        ),
        Some((0b01, 0b11))
    );
    assert_eq!(mask, 0b11);
    assert_eq!(
        update_scheduler_probe(
            &mut metrics,
            &mut mask,
            0b11,
            1,
            ProbeResult::Lost(estimate),
            Strategy::Adaptive
        ),
        None
    );
    assert_eq!(metrics[1].consecutive_losses, 1);
}

fn ingress() -> RelayIngress {
    RelayIngress::new([7; 16], 123)
}

fn header(sequence: u64) -> FrameHeader {
    FrameHeader {
        flags: FLAG_SERVER_TO_CLIENT,
        client_id: [7; 16],
        session_id: 123,
        sequence,
    }
}

#[test]
fn slow_duplicate_bursts_cannot_fill_the_game_queue() {
    let mut ingress = ingress();
    let mut queue = VecDeque::new();
    assert!(ingress
        .enqueue_authenticated(&header(1), vec![1], &mut queue, 2)
        .unwrap());
    // The first fast reply occupies one slot. A TCP tunnel then releases a
    // burst of copies of that reply: they must consume no additional slots.
    for _ in 0..4096 {
        assert!(!ingress
            .enqueue_authenticated(&header(1), vec![1], &mut queue, 2)
            .unwrap());
    }
    assert!(ingress
        .enqueue_authenticated(&header(2), vec![2], &mut queue, 2)
        .unwrap());
    assert_eq!(queue.pop_front().unwrap(), vec![1]);
    assert_eq!(queue.pop_front().unwrap(), vec![2]);
    assert!(queue.pop_front().is_none());
}

#[test]
fn a_backup_can_rescue_a_copy_rejected_by_a_full_queue() {
    let mut ingress = ingress();
    let mut queue = VecDeque::new();
    ingress
        .enqueue_authenticated(&header(1), vec![1], &mut queue, 1)
        .unwrap();
    assert_eq!(
        ingress.enqueue_authenticated(&header(2), vec![2], &mut queue, 1),
        Err(vec![2])
    );
    assert_eq!(queue.pop_front().unwrap(), vec![1]);
    // Retry the exact same sealed sequence through another worker.
    assert!(ingress
        .enqueue_authenticated(&header(2), vec![2], &mut queue, 1)
        .unwrap());
    assert_eq!(queue.pop_front().unwrap(), vec![2]);
}

/// Three paths deliver the same packets, in every interleaving that a lock
/// around the ingress can give a round of them.
#[test]
fn concurrent_paths_deliver_each_packet_exactly_once() {
    let mut ingress = ingress();
    let mut queue = VecDeque::new();
    for round in 0..512_u64 {
        for path in 0..3_u64 {
            let sequence = 1 + (round + path * 7) % 512;
            ingress
                .enqueue_authenticated(
                    &header(sequence),
                    sequence.to_be_bytes().to_vec(),
                    &mut queue,
                    512,
                )
                .unwrap();
        }
    }
    let mut packets: Vec<_> = queue
        .into_iter()
        .map(|packet| u64::from_be_bytes(packet.try_into().unwrap()))
        .collect();
    packets.sort_unstable();
    assert_eq!(packets, (1..=512).collect::<Vec<_>>());
}

#[test]
fn a_first_copy_from_any_path_is_useful_even_after_a_selection_change() {
    let mut ingress = ingress();
    let mut queue = VecDeque::new();
    // Fast path delivers packet 2; packet 1 was lost there. Its backup copy
    // remains useful even if the outbound scheduler has since deselected it.
    assert!(ingress
        .enqueue_authenticated(&header(2), vec![2], &mut queue, 3)
        .unwrap());
    assert!(ingress
        .enqueue_authenticated(&header(1), vec![1], &mut queue, 3)
        .unwrap());
    assert!(!ingress
        .enqueue_authenticated(&header(2), vec![2], &mut queue, 3)
        .unwrap());
    assert_eq!(
        queue.into_iter().collect::<Vec<_>>(),
        vec![vec![2], vec![1]]
    );
}

#[test]
fn wrong_session_client_or_direction_cannot_poison_replay_state() {
    let mut ingress = ingress();
    let mut queue = VecDeque::new();
    let mut wrong = header(1);
    wrong.session_id += 1;
    assert!(!ingress
        .enqueue_authenticated(&wrong, vec![0], &mut queue, 1)
        .unwrap());
    wrong = header(1);
    wrong.client_id = [0; 16];
    assert!(!ingress
        .enqueue_authenticated(&wrong, vec![0], &mut queue, 1)
        .unwrap());
    wrong = header(1);
    wrong.flags = 0;
    assert!(!ingress
        .enqueue_authenticated(&wrong, vec![0], &mut queue, 1)
        .unwrap());
    wrong.flags = FLAG_SERVER_TO_CLIENT | FLAG_CONTROL;
    assert!(!ingress
        .enqueue_authenticated(&wrong, vec![0], &mut queue, 1)
        .unwrap());
    assert!(ingress
        .enqueue_authenticated(&header(1), vec![1], &mut queue, 1)
        .unwrap());
    assert_eq!(queue.pop_front().unwrap(), vec![1]);
}

#[test]
fn sudden_primary_loss_and_tcp_stalls_preserve_the_working_path() {
    let crypto = SessionCrypto::new(&[9; 32], 123).ok().unwrap();
    let mut ingress = ingress();
    let mut queue = VecDeque::new();
    let mut paths = [
        PathMetrics::new("0"),
        PathMetrics::new("1"),
        PathMetrics::new("2"),
    ];
    for (path, latency) in paths.iter_mut().zip([50.0, 60.0, 80.0]) {
        path.record_probe(latency);
    }
    let mut healthy = 0b111;
    let mut arrivals = Vec::new();
    // The same client identity/session remains in use throughout: the game
    // never changes its source by bypassing the relay during route failure.
    for sequence in 1..=200_u64 {
        let mask = selected_paths(
            mask_for_decision(&choose_paths(&paths, Strategy::Adaptive), 0b111),
            healthy,
        );
        let h = FrameHeader {
            flags: 0,
            ..header(sequence)
        };
        let frame = crypto.seal_client(h, &sequence.to_be_bytes()).unwrap();
        for index in 0..3 {
            if mask & (1 << index) == 0 {
                continue;
            }
            // Path 0 disappears without advance warning, then recovers.
            if index == 0 && (40..120).contains(&sequence) {
                continue;
            }
            // Path 1 stalls by 500 ms on every fifth packet (TCP recovery).
            let delay = if index == 1 && sequence >= 45 && sequence % 5 == 0 {
                500
            } else {
                [25, 30, 40][index]
            };
            arrivals.push((sequence * 10 + delay, frame.clone()));
        }
        // Feedback intentionally follows the affected send. Backup copies
        // must already exist during the first unobserved failure.
        if (40..43).contains(&sequence) {
            paths[0].record_loss();
        }
        if sequence == 42 {
            healthy &= !1;
        }
        if sequence == 120 {
            healthy |= 1;
        }
        if sequence >= 120 {
            paths[0].record_probe(50.0);
        }
    }
    arrivals.sort_by_key(|(at, _)| *at);
    let mut relay_replay = ReplayWindow::default();
    let mut delivered = Vec::new();
    for (at, frame) in arrivals {
        let (h, payload) = crypto.open_client(&frame).unwrap();
        if !relay_replay.accept(h.sequence) {
            continue;
        }
        let reply = crypto.seal_server(header(h.sequence), &payload).unwrap();
        // Return copies can race or arrive in reverse order; ingress must
        // enqueue only one without waiting for either route's health probe.
        let (h, payload) = crypto.open_server(&reply).unwrap();
        assert!(ingress
            .enqueue_authenticated(&h, payload.clone(), &mut queue, 256)
            .unwrap());
        assert!(!ingress
            .enqueue_authenticated(&h, payload, &mut queue, 256)
            .unwrap());
        delivered.push((h.sequence, at - h.sequence * 10));
    }
    delivered.sort_by_key(|(sequence, _)| *sequence);
    assert_eq!(delivered.len(), 200, "a packet fell into the failover gap");
    assert!(
        delivered.iter().all(|(_, delay)| *delay <= 40),
        "a stalled path delayed a working copy"
    );
    assert_eq!(queue.len(), 200);
}
