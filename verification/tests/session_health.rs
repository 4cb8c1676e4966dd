use gamepath_engine::net::Endpoint;
use gamepath_engine::net::Ipv4;
use gamepath_engine::protocol::{probe_request, probe_response};
use gamepath_engine::relay_path::{NodeSpec, OpenPlan, ReopenEffort};
use gamepath_engine::rtt::{RttEstimator, MAX_TIMEOUT, MIN_TIMEOUT, STREAMED_MIN_TIMEOUT};
use gamepath_engine::session::dialer::{
    another_path_is_up, choose_reopen_effort, hold_redial_for_common_mode, next_backoff,
    schedule_redial, Dial, PathDialer, ReconnectAttempt, ReconnectPoll, COMMON_MODE_CONFIRM_WINDOW,
    RECONNECT_AFTER_FAILURES, RECONNECT_BACKOFF_MAX, RECONNECT_BACKOFF_MIN, RECONNECT_BACKOFF_STEP,
    UPLINK_DOWN_BACKOFF,
};
use gamepath_engine::session::health::{
    bit_for_path, healthy_probe_interval, publish_path_health, record_path_receive,
    record_path_send, remember_expired_probe, route_mask, selected_paths, take_late_probe_reply,
    update_path_status, HEALTH_FAILURE_THRESHOLD, LATE_REPLY_CAPACITY, LATE_REPLY_WINDOW,
    PROBE_INTERVAL, PROBE_INTERVAL_DEGRADED, PROBE_INTERVAL_STANDBY,
};
use gamepath_engine::session::latency::{
    Baseline, LatencyEvent, LatencyWatch, Peak, Reading, LATENCY_BASELINE_SAMPLES,
    LATENCY_RECOVERY_SAMPLES,
};
use gamepath_engine::session::state::{initial_status, Arrival, DataReceiver};
use gamepath_engine::session::worker::{
    drain_send_queue, try_send, Drained, GapWatch, PathCommand, PathCounters, PATH_QUEUE_DEPTH,
    PATH_QUEUE_MAX_AGE, PATH_SEND_BATCH, WORKER_GAP_WARN,
};
use gamepath_engine::time::{MILLISECOND, SECOND};
use gamepath_engine::uplink;
use gamepath_engine::uplink::UplinkState;
use std::collections::VecDeque;

const NOW: u64 = 1_000 * SECOND;

/// A standby route was reported 18 ms slower and 14 ms jitterier than the same
/// route carrying traffic, purely because it was idle. It has to be measured
/// more often than a carrying route or the failover decision keeps being made
/// on a cold path.
#[test]
fn a_standby_path_is_measured_more_often_than_a_carrying_one() {
    assert!(healthy_probe_interval(false) < healthy_probe_interval(true));
    assert_eq!(healthy_probe_interval(true), PROBE_INTERVAL);
    assert_eq!(healthy_probe_interval(false), PROBE_INTERVAL_STANDBY);
}

/// Warming a standby path must never outrank finding out whether a path
/// that just missed a reply is coming back.
#[test]
fn a_path_in_doubt_is_still_probed_hardest() {
    assert!(PROBE_INTERVAL_DEGRADED <= healthy_probe_interval(false));
    assert!(PROBE_INTERVAL_DEGRADED < healthy_probe_interval(true));
}

/// Standby probing is an accuracy cost, not a bandwidth one: it has to stay
/// a small multiple of the carrying cadence rather than approach the rate
/// of real traffic.
#[test]
fn standby_probing_stays_a_background_cost() {
    let carrying = PROBE_INTERVAL / MILLISECOND;
    let standby = healthy_probe_interval(false) / MILLISECOND;
    assert!(
        carrying / standby <= 8,
        "a standby path probes {}x as often as a carrying one",
        carrying / standby
    );
}

/// A single lost probe is ordinary on a real network. Acting on it took a
/// healthy WireGuard route out of service roughly once every ninety seconds
/// and reported it as a disconnect.
#[test]
fn one_lost_probe_does_not_take_a_path_out_of_service() {
    let mut mask = 0;
    publish_path_health(&mut mask, 0, true);
    // What the worker does on each consecutive timeout: it stays up until
    // the threshold is reached, then goes down and stays down.
    let expected: Vec<bool> = (1..=HEALTH_FAILURE_THRESHOLD + 1)
        .map(|failures| failures < HEALTH_FAILURE_THRESHOLD)
        .collect();
    let mut failures = 0_u32;
    for expected_up in expected {
        failures += 1;
        if failures >= HEALTH_FAILURE_THRESHOLD {
            publish_path_health(&mut mask, 0, false);
        }
        assert_eq!(
            mask & 1 != 0,
            expected_up,
            "after {failures} consecutive lost probe(s)"
        );
    }
}

/// Detection has to be quick enough to matter in a game. The deadline is
/// the path's own, so this is what the threshold actually costs on a
/// healthy route rather than on the old worst-case constant.
#[test]
fn a_dead_path_on_a_fast_route_is_noticed_within_a_second() {
    // A settled 60 ms route sits at the estimator's floor, and a missed
    // probe drops the gap to the degraded interval.
    let cycle = MIN_TIMEOUT + PROBE_INTERVAL_DEGRADED;
    let detection = cycle * u64::from(HEALTH_FAILURE_THRESHOLD);
    assert!(
        detection <= 2 * SECOND,
        "a dead path would take {detection:?} to notice"
    );
}

/// Even a path slow enough to sit at the ceiling has to resolve in seconds.
#[test]
fn a_dead_path_on_the_slowest_route_still_resolves_in_seconds() {
    let cycle = MAX_TIMEOUT + PROBE_INTERVAL_DEGRADED;
    let detection = cycle * u64::from(HEALTH_FAILURE_THRESHOLD);
    assert!(
        detection <= 6 * SECOND,
        "the worst case is {detection:?}"
    );
}

/// A stream-carried path waits out one retransmission before calling a
/// probe lost, so it is slower to declare dead. That is the point, but it
/// still has to land inside a few seconds.
#[test]
fn a_dead_stream_path_costs_more_to_notice_but_still_resolves() {
    let cycle = STREAMED_MIN_TIMEOUT + PROBE_INTERVAL_DEGRADED;
    let detection = cycle * u64::from(HEALTH_FAILURE_THRESHOLD);
    assert!(
        detection > MIN_TIMEOUT * u64::from(HEALTH_FAILURE_THRESHOLD),
        "the whole point is that it waits longer"
    );
    assert!(
        detection <= 4 * SECOND,
        "a dead stream path would take {detection:?} to notice"
    );
}

/// Raising the threshold only pays for itself because the deadline shrank.
/// If someone puts the constant back, this says why that is not free.
#[test]
fn the_threshold_is_affordable_because_the_deadline_adapts() {
    let threshold = u64::from(HEALTH_FAILURE_THRESHOLD);
    let adaptive = (MIN_TIMEOUT + PROBE_INTERVAL_DEGRADED) * threshold;
    let fixed = (1500 * MILLISECOND + PROBE_INTERVAL) * threshold;
    assert!(
        adaptive * 4 < fixed,
        "the adaptive deadline should be far cheaper: {adaptive:?} vs {fixed:?}"
    );
}

#[test]
fn the_health_mask_tracks_each_path_independently() {
    let mut mask = 0;
    publish_path_health(&mut mask, 0, true);
    publish_path_health(&mut mask, 2, true);
    assert_eq!(mask, 0b101);
    publish_path_health(&mut mask, 0, false);
    assert_eq!(mask, 0b100);
    // Out of range is ignored rather than corrupting the mask.
    publish_path_health(&mut mask, 64, true);
    assert_eq!(mask, 0b100);
}

#[test]
fn a_dead_route_is_left_out_of_the_pick_but_never_leaves_it_empty() {
    // Two routes picked, only the second one up.
    assert_eq!(selected_paths(0b11, 0b10), 0b10);
    // Nothing reported healthy yet: the scheduler's pick still stands, so
    // the first packets of a session are not dropped while probes fly.
    assert_eq!(selected_paths(0b11, 0b00), 0b11);
    // A stale pick must not blackhole packets while another route is up.
    assert_eq!(selected_paths(0b01, 0b10), 0b10);
    assert_eq!(selected_paths(0b11, 0b11), 0b11);
}

#[test]
fn openvpn_failure_and_recovery_keep_the_other_route_available() {
    let mut healthy = 0b11;
    let stale_openvpn_pick = 0b10;
    publish_path_health(&mut healthy, 1, false);
    // The scheduler has not republished yet. WireGuard must carry traffic
    // immediately, without waiting for another probe or reconnect.
    assert_eq!(selected_paths(stale_openvpn_pick, healthy), 0b01);
    publish_path_health(&mut healthy, 1, true);
    // Recovery allows both routes to carry copies again.
    assert_eq!(selected_paths(0b11, healthy), 0b11);
    publish_path_health(&mut healthy, 0, false);
    assert_eq!(selected_paths(0b01, healthy), 0b10);
}

#[test]
fn dispatch_never_chooses_a_dead_route_when_a_healthy_route_exists() {
    // Cover every scheduler/health snapshot for four independent routes,
    // including an empty scheduler pick during initialization.
    for decision in 0_u64..16 {
        for healthy in 1_u64..16 {
            let selected = selected_paths(decision, healthy);
            assert_ne!(selected, 0);
            assert_eq!(selected & !healthy, 0);
        }
    }
}

fn probe_reply(sequence: u64) -> Vec<u8> {
    probe_response(&probe_request(sequence)).expect("a tagged request has a tagged response")
}

/// A path whose replies keep arriving just past the deadline has to be able to
/// widen it; otherwise every probe times out for the same reason and the
/// estimator never hears the sample that would fix it.
#[test]
fn late_replies_let_the_deadline_catch_up_with_a_slowing_path() {
    let mut settled = RttEstimator::default();
    for _ in 0..40 {
        settled.record(50 * MILLISECOND);
    }
    assert_eq!(settled.timeout(), MIN_TIMEOUT);

    // Congestion doubles the path. These replies land past the deadline,
    // so they are exactly the ones that used to be discarded.
    let slow = 260 * MILLISECOND;
    assert!(slow > settled.timeout());

    let mut learning = settled;
    for _ in 0..20 {
        learning.record(slow);
    }
    assert!(
        learning.timeout() > slow,
        "a path answering in {slow:?} still gets a {:?} deadline",
        learning.timeout()
    );
    assert!(learning.timeout() <= MAX_TIMEOUT);
}

#[test]
fn a_late_reply_is_matched_to_the_probe_it_answers() {
    let mut expired = Vec::new();
    remember_expired_probe(&mut expired, 7, NOW - 300 * MILLISECOND, NOW);
    remember_expired_probe(&mut expired, 8, NOW, NOW);
    let elapsed = take_late_probe_reply(&mut expired, &probe_reply(7), NOW)
        .expect("the reply names probe 7");
    assert!(elapsed >= 300 * MILLISECOND, "got {elapsed:?}");
    // Taken rather than left to be counted twice.
    assert_eq!(
        take_late_probe_reply(&mut expired, &probe_reply(7), NOW),
        None
    );
    // And the unrelated probe is untouched.
    assert!(take_late_probe_reply(&mut expired, &probe_reply(8), NOW).is_some());
}

/// A legacy relay's bare `pong` cannot say which probe it answers, so
/// crediting it to one would invent a round trip instead of measuring one.
#[test]
fn an_untagged_reply_is_never_credited_to_a_probe() {
    let mut expired = Vec::new();
    remember_expired_probe(&mut expired, 3, NOW - 250 * MILLISECOND, NOW);
    assert_eq!(take_late_probe_reply(&mut expired, b"pong", NOW), None);
    assert_eq!(
        take_late_probe_reply(&mut expired, &probe_reply(4), NOW),
        None
    );
    assert!(take_late_probe_reply(&mut expired, &probe_reply(3), NOW).is_some());
}

#[test]
fn written_off_probes_cannot_grow_without_bound() {
    let mut expired = Vec::new();
    let last = LATE_REPLY_CAPACITY as u64 * 3;
    for sequence in 0..=last {
        remember_expired_probe(&mut expired, sequence, NOW, NOW);
    }
    assert!(expired.len() <= LATE_REPLY_CAPACITY, "{}", expired.len());
    // The newest are the ones still worth answering.
    assert!(take_late_probe_reply(&mut expired, &probe_reply(last), NOW).is_some());
    assert_eq!(
        take_late_probe_reply(&mut expired, &probe_reply(0), NOW),
        None
    );
}

#[test]
fn a_probe_older_than_the_window_is_forgotten() {
    let mut expired = Vec::new();
    remember_expired_probe(
        &mut expired,
        1,
        NOW - (LATE_REPLY_WINDOW + MILLISECOND),
        NOW,
    );
    // Pruning happens as the next one is remembered.
    remember_expired_probe(&mut expired, 2, NOW, NOW);
    assert_eq!(
        take_late_probe_reply(&mut expired, &probe_reply(1), NOW),
        None
    );
    assert!(take_late_probe_reply(&mut expired, &probe_reply(2), NOW).is_some());
}

/// The window has to outlast the widest deadline a probe can be given, or
/// the reply to the slowest probe would be forgotten before it arrived.
#[test]
fn the_late_reply_window_outlasts_the_widest_deadline() {
    assert!(LATE_REPLY_WINDOW >= MAX_TIMEOUT * 2);
    // And the window, not the capacity, is what expires an entry even when
    // a degraded path is probing as fast as it ever does.
    let in_flight = LATE_REPLY_WINDOW / PROBE_INTERVAL_DEGRADED;
    assert!(
        (in_flight as usize) < LATE_REPLY_CAPACITY,
        "{in_flight} probes can be outstanding, capacity is {LATE_REPLY_CAPACITY}"
    );
}

#[test]
fn routes_are_named_from_one_and_ids_from_zero() {
    assert_eq!(bit_for_path("0"), 1);
    assert_eq!(bit_for_path("3"), 8);
    assert_eq!(bit_for_path("64"), 0);
    assert_eq!(bit_for_path("x"), 0);
    assert_eq!(route_mask(0b101), "1+3");
}

#[test]
fn a_status_follows_what_the_path_does() {
    let mut status = initial_status(1, "wireguard", "A".into(), "127.0.0.1:1".into());
    assert!(!status.reachable);
    update_path_status(&mut status, Ok(30 * MILLISECOND));
    assert!(status.reachable);
    assert_eq!(status.latency, Some(30 * MILLISECOND));
    record_path_send(&mut status, 100, Ok(()));
    assert_eq!((status.packets_sent, status.bytes_sent), (1, 100));
    record_path_receive(&mut status, 60);
    assert_eq!((status.packets_received, status.bytes_received), (2, 60));
    update_path_status(&mut status, Err("gone".to_string()));
    assert!(!status.reachable);
    assert_eq!(status.last_error.as_deref(), Some("gone"));
}

#[test]
fn a_recovery_discards_an_already_running_reconnect() {
    let mut attempt = ReconnectAttempt::new();
    attempt.recovered();
    let dial = Dial::Done(Ok::<_, String>(42_u8));
    assert!(matches!(attempt.poll(dial), ReconnectPoll::Discarded));
}

#[test]
fn a_reconnect_result_is_used_when_the_old_path_never_recovers() {
    let attempt = ReconnectAttempt::new();
    let dial = Dial::Done(Ok::<_, String>(42_u8));
    assert!(matches!(attempt.poll(dial), ReconnectPoll::Finished(Ok(42))));
}

#[test]
fn a_dial_that_is_still_running_is_waited_for_and_a_lost_one_is_an_error() {
    let attempt = ReconnectAttempt::new();
    assert!(matches!(
        attempt.poll(Dial::<u8>::Running),
        ReconnectPoll::Pending
    ));
    assert!(matches!(
        attempt.poll(Dial::<u8>::Lost),
        ReconnectPoll::Finished(Err(_))
    ));
}

/// One cheap attempt per outage, then the real thing. Getting this wrong
/// either way is expensive: never escalating leaves a path rebuilding a
/// socket that cannot help, and never offering the cheap attempt pays a
/// twenty-second RAS redial for a relay that merely went quiet.
#[test]
fn a_reopen_escalates_after_the_cheap_attempt_is_spent() {
    let mut allowed = true;
    assert_eq!(choose_reopen_effort(&mut allowed), ReopenEffort::Cheap);
    // Spent: every further attempt in this outage rebuilds properly.
    assert_eq!(choose_reopen_effort(&mut allowed), ReopenEffort::Full);
    assert_eq!(choose_reopen_effort(&mut allowed), ReopenEffort::Full);
}

#[test]
fn a_recovered_path_is_offered_the_cheap_attempt_again() {
    let mut allowed = true;
    assert_eq!(choose_reopen_effort(&mut allowed), ReopenEffort::Cheap);
    assert_eq!(choose_reopen_effort(&mut allowed), ReopenEffort::Full);
    // What the worker does once a probe is answered.
    allowed = true;
    assert_eq!(choose_reopen_effort(&mut allowed), ReopenEffort::Cheap);
}

/// A path that has never come up must not get the cheap attempt, or a
/// session whose adapter was never usable would keep reusing it.
#[test]
fn a_dialer_that_is_not_offered_the_cheap_route_rebuilds() {
    let mut allowed = false;
    assert_eq!(choose_reopen_effort(&mut allowed), ReopenEffort::Full);
}

#[test]
fn a_dialer_opens_its_node() {
    let mut dialer = PathDialer {
        node: NodeSpec::WireGuard {
            config: "[Interface]".into(),
            label: None,
        },
        relay: Endpoint {
            address: Ipv4::new(203, 0, 113, 8),
            port: 51821,
        },
        cheap_reopen: false,
    };
    dialer.allow_cheap_reopen();
    assert!(dialer.cheap_reopen);
    assert!(matches!(dialer.open(), Ok(OpenPlan::WireGuard { .. })));
    assert!(!dialer.cheap_reopen);
}

#[test]
fn the_uplink_backoff_is_longer_than_the_ordinary_one() {
    // Otherwise the guard would not actually slow anything down.
    assert!(UPLINK_DOWN_BACKOFF > RECONNECT_BACKOFF_STEP);
}

#[test]
fn a_path_is_not_redialled_until_it_has_failed_repeatedly() {
    let mut next_redial = None;
    for failures in 1..RECONNECT_AFTER_FAILURES {
        schedule_redial(failures, RECONNECT_BACKOFF_MIN, &mut next_redial, NOW);
        assert!(
            next_redial.is_none(),
            "a working socket was torn down after {failures} lost probes"
        );
    }
    schedule_redial(
        RECONNECT_AFTER_FAILURES,
        RECONNECT_BACKOFF_MIN,
        &mut next_redial,
        NOW,
    );
    assert!(next_redial.is_some());
}

#[test]
fn further_failures_do_not_restart_an_armed_backoff() {
    let armed = NOW + 9 * SECOND;
    let mut next_redial = Some(armed);
    schedule_redial(
        RECONNECT_AFTER_FAILURES + 5,
        RECONNECT_BACKOFF_MIN,
        &mut next_redial,
        NOW,
    );
    assert_eq!(next_redial, Some(armed));
}

#[test]
fn the_first_redial_is_immediate_and_later_ones_back_off() {
    let mut backoff = RECONNECT_BACKOFF_MIN;
    let mut waits = vec![backoff];
    for _ in 0..12 {
        backoff = next_backoff(backoff);
        waits.push(backoff);
    }
    // The path has already missed several probes and another path is up, so
    // the uplink is known good: the first attempt waits for nothing.
    assert_eq!(waits[0], 0);
    assert_eq!(waits[1], RECONNECT_BACKOFF_STEP);
    assert_eq!(waits[2], RECONNECT_BACKOFF_STEP * 2);
    assert!(
        waits
            .windows(2)
            .skip(1)
            .all(|pair| pair[1] > pair[0] || pair[1] == RECONNECT_BACKOFF_MAX),
        "the backoff has to keep growing until it reaches the ceiling"
    );
    // A provider that stays down is retried forever, never faster than the
    // ceiling and never so slowly that recovery is missed.
    assert_eq!(*waits.last().unwrap(), RECONNECT_BACKOFF_MAX);
    assert!(waits.iter().all(|wait| *wait <= RECONNECT_BACKOFF_MAX));
}

/// The whole point of this path is speed: a route that dies while another
/// is up has to be back in service quickly enough to matter in a match.
#[test]
fn a_dead_route_is_redialled_within_a_few_seconds() {
    // On a settled fast route every cycle is the estimator's floor plus the
    // degraded gap, and the first dial itself waits for nothing.
    let cycle = MIN_TIMEOUT + PROBE_INTERVAL_DEGRADED;
    let total = cycle * u64::from(RECONNECT_AFTER_FAILURES) + RECONNECT_BACKOFF_MIN;
    assert!(
        total <= 3 * SECOND,
        "a dead route would take {total:?} to redial"
    );
}

/// The monitor answers directly where it can, and the inference covers
/// where it cannot.
#[test]
fn a_measured_uplink_overrides_the_inference_in_both_directions() {
    let recent = Some(0);
    let none = None;
    // Measured down: no redial, even though another path looks up.
    assert!(hold_redial_for_common_mode(UplinkState::Down, none));
    // Something else is carrying traffic, so this path is on its own and
    // redials whatever the monitor thinks.
    assert!(!hold_redial_for_common_mode(UplinkState::Up, none));
    assert!(!hold_redial_for_common_mode(UplinkState::Unknown, none));
    // No measurement and nothing up: the inference is all there is.
    assert!(hold_redial_for_common_mode(UplinkState::Unknown, recent));
}

/// The monitor needs several seconds to turn `Up` into `Down`, and a path gives
/// up in about one, so a short uplink stall used to leave every path redialling
/// at once while the monitor still said `Up`.
#[test]
fn a_stale_up_does_not_override_every_path_failing_at_once() {
    assert!(hold_redial_for_common_mode(UplinkState::Up, Some(0)));
    assert!(hold_redial_for_common_mode(
        UplinkState::Up,
        Some(COMMON_MODE_CONFIRM_WINDOW - MILLISECOND)
    ));
}

/// But it is a window, not a veto: once the monitor has had time to agree
/// and has not, the paths are down for their own reasons and have to be
/// allowed to recover. Without this the session could hold every redial
/// indefinitely on transports that cannot come back without one.
#[test]
fn a_monitor_that_keeps_reporting_up_eventually_wins() {
    assert!(!hold_redial_for_common_mode(
        UplinkState::Up,
        Some(COMMON_MODE_CONFIRM_WINDOW)
    ));
    assert!(!hold_redial_for_common_mode(
        UplinkState::Up,
        Some(COMMON_MODE_CONFIRM_WINDOW * 10)
    ));
}

/// The window has to outlast the monitor's own verdict, or it would expire
/// while a real outage was still being confirmed - which is exactly the
/// case it exists to cover.
#[test]
fn the_confirmation_window_outlasts_the_monitors_decision() {
    let worst_case_to_declare_down = uplink::PROBE_INTERVAL
        * u64::from(uplink::FAILURES_BEFORE_DOWN + 1)
        - uplink::PROBE_INTERVAL;
    assert!(
        COMMON_MODE_CONFIRM_WINDOW >= worst_case_to_declare_down,
        "{COMMON_MODE_CONFIRM_WINDOW:?} is shorter than the {worst_case_to_declare_down:?} the monitor needs"
    );
    // And it is not so long that a path is stranded: the guard re-arms in
    // UPLINK_DOWN_BACKOFF steps, so this bounds one episode, not recovery.
    assert!(COMMON_MODE_CONFIRM_WINDOW <= 15 * SECOND);
}

/// A single-path session has nothing to compare against, so it is never
/// held back - the caller passes `None` for it. The same goes for a session
/// still starting up, where no path has carried traffic yet: that is not a
/// collapse and its retries must not be slowed down.
#[test]
fn a_single_path_session_or_one_still_starting_always_redials() {
    for state in [UplinkState::Up, UplinkState::Unknown] {
        assert!(!hold_redial_for_common_mode(state, None));
    }
}

#[test]
fn a_path_only_redials_while_another_path_proves_the_uplink_is_up() {
    let mut mask = 0;
    // Nothing is up: from route 0's view the uplink is the suspect.
    assert!(!another_path_is_up(mask, 0));
    assert!(!another_path_is_up(mask, 1));
    // Route 0 alone being up says nothing to route 0 itself, but proves the
    // uplink to route 1.
    publish_path_health(&mut mask, 0, true);
    assert!(!another_path_is_up(mask, 0));
    assert!(another_path_is_up(mask, 1));
    // Both up: each can see the other.
    publish_path_health(&mut mask, 1, true);
    assert!(another_path_is_up(mask, 0));
    assert!(another_path_is_up(mask, 1));
}

fn queued(frame: Vec<u8>, age: u64) -> PathCommand {
    PathCommand {
        frame,
        queued_at: NOW - age,
    }
}

/// Sends a batch, with the time that each packet is taken at.
fn drained(
    queue: &mut VecDeque<PathCommand>,
    counters: &mut PathCounters,
    clock: impl Fn(usize) -> u64,
) -> Vec<Vec<u8>> {
    let mut sent = Vec::new();
    for taken in 0.. {
        match drain_send_queue(queue, counters, taken, clock(taken)) {
            Drained::Frame(frame) => sent.push(frame),
            Drained::Stale => {}
            Drained::Over => break,
        }
    }
    sent
}

#[test]
fn a_packet_that_goes_stale_behind_a_slow_send_is_shed() {
    let mut queue = VecDeque::new();
    let mut counters = PathCounters::default();
    counters.queue_depth = 3;
    for frame in 1..=3 {
        try_send(&mut queue, 4, queued(vec![frame], 0)).unwrap();
    }
    // The second send takes longer than a packet may wait.
    let sent = drained(&mut queue, &mut counters, |taken| {
        if taken < 2 {
            NOW + PATH_QUEUE_MAX_AGE
        } else {
            NOW + PATH_QUEUE_MAX_AGE + 1
        }
    });
    assert_eq!(sent, [[1], [2]]);
    assert_eq!(counters.stale_dropped, 1);
    assert_eq!(counters.queue_depth, 0);
}

#[test]
fn a_worker_sends_a_bounded_batch_and_leaves_the_rest_queued() {
    let mut queue = VecDeque::new();
    let mut counters = PathCounters::default();
    for _ in 0..PATH_SEND_BATCH * 2 {
        try_send(&mut queue, PATH_QUEUE_DEPTH, queued(vec![0; 64], 0)).unwrap();
        counters.queue_depth += 1;
    }
    let sent = drained(&mut queue, &mut counters, |_| NOW);
    // The point is that the loop gets back to inbound frames and probes
    // rather than emptying a burst first.
    assert_eq!(sent.len(), PATH_SEND_BATCH);
    assert_eq!(counters.queue_depth as usize, PATH_SEND_BATCH);
    assert_eq!(counters.dropped, 0);
}

#[test]
fn a_packet_that_waited_too_long_is_dropped_rather_than_sent_late() {
    let mut queue = VecDeque::new();
    let mut counters = PathCounters::default();
    counters.queue_depth = 2;
    try_send(&mut queue, 4, queued(vec![1; 64], PATH_QUEUE_MAX_AGE * 2)).unwrap();
    try_send(&mut queue, 4, queued(vec![2; 64], 0)).unwrap();
    let sent: Vec<usize> = drained(&mut queue, &mut counters, |_| NOW)
        .iter()
        .map(|frame| frame.len())
        .collect();
    assert_eq!(sent, [64]);
    assert_eq!(counters.dropped, 1);
    assert_eq!(counters.stale_dropped, 1);
    assert_eq!(counters.queue_depth, 0);
}

#[test]
fn a_saturated_queue_sheds_packets_instead_of_growing() {
    let mut queue = VecDeque::new();
    assert!(try_send(&mut queue, 2, queued(vec![0; 8], 0)).is_ok());
    assert!(try_send(&mut queue, 2, queued(vec![0; 8], 0)).is_ok());
    assert!(matches!(
        try_send(&mut queue, 2, queued(vec![0; 8], 0)),
        Err(PathCommand { .. })
    ));
}

#[test]
fn a_stalled_worker_is_reported_once_in_a_while() {
    let mut watch = GapWatch::new(NOW);
    let mut counters = PathCounters::default();
    assert_eq!(watch.begin(&mut counters, NOW + MILLISECOND), None);
    let stalled = NOW + MILLISECOND + WORKER_GAP_WARN;
    assert_eq!(watch.begin(&mut counters, stalled), Some(100));
    assert_eq!(watch.begin(&mut counters, stalled + WORKER_GAP_WARN), None);
    assert_eq!(counters.worker_gap_peak_ms, 100);
    assert_eq!(counters.iterations, 3);
}

#[test]
fn received_packets_are_counted_and_a_stopped_session_says_so() {
    let mut receiver = DataReceiver {
        user_bytes_received: 0,
    };
    assert_eq!(
        receiver.receive(Arrival::Packet(vec![1, 2, 3])),
        Ok(Some(vec![1, 2, 3]))
    );
    assert_eq!(receiver.receive(Arrival::Timeout), Ok(None));
    assert_eq!(receiver.user_bytes_received, 3);
    assert_eq!(
        receiver.receive(Arrival::Disconnected).unwrap_err(),
        "all path receivers stopped"
    );
}

/// A watch and the numbers it is fed from.
struct Measured {
    watch: LatencyWatch,
    baseline: f64,
    peak: f64,
}

impl Measured {
    fn new() -> Self {
        Self {
            watch: LatencyWatch::default(),
            baseline: 0.0,
            peak: 0.0,
        }
    }

    /// What one round trip leads to, with the peak where an incident ends.
    fn observe(&mut self, latency_ms: f64, now: u64) -> Option<(LatencyEvent, f64)> {
        let rise = latency_ms - self.baseline;
        let reading = Reading {
            settled: latency_ms <= self.baseline + 6.0,
            risen: rise >= (self.baseline * 0.10).max(12.0),
            severe: rise >= (self.baseline * 0.75).max(50.0),
        };
        let seen = self.watch.observe(reading, now);
        match seen.baseline {
            Baseline::Sample => self.baseline = latency_ms,
            Baseline::Drift => self.baseline += 0.05 * (latency_ms - self.baseline),
            Baseline::Keep => {}
        }
        let reported = self.peak.max(latency_ms);
        match seen.peak {
            Peak::Clear => self.peak = 0.0,
            Peak::Raise => self.peak = reported,
            Peak::Report => self.peak = 0.0,
            Peak::Keep => {}
        }
        seen.event.map(|event| (event, reported))
    }
}

#[test]
fn latency_watch_reports_a_sustained_small_step_once_then_recovers_once() {
    let mut watch = Measured::new();
    for offset in 0..LATENCY_BASELINE_SAMPLES {
        assert_eq!(watch.observe(105.0, NOW + offset * MILLISECOND), None);
    }
    assert_eq!(
        watch.observe(120.0, NOW + SECOND),
        None,
        "one modest sample is not an incident"
    );
    assert!(matches!(
        watch.observe(121.0, NOW + 2 * SECOND),
        Some((LatencyEvent::Degraded, _))
    ));
    assert_eq!(
        watch.observe(123.0, NOW + 3 * SECOND),
        None,
        "an active incident must not log every sample"
    );
    for second in 4..4 + u64::from(LATENCY_RECOVERY_SAMPLES) - 1 {
        assert_eq!(watch.observe(106.0, NOW + second * SECOND), None);
    }
    assert!(matches!(
        watch.observe(106.0, NOW + 6 * SECOND),
        Some((LatencyEvent::Recovered { duration }, peak_ms))
            if peak_ms == 123.0 && duration == 4 * SECOND
    ));
}

#[test]
fn latency_watch_reports_one_severe_spike_immediately() {
    let mut watch = Measured::new();
    for offset in 0..LATENCY_BASELINE_SAMPLES {
        assert_eq!(watch.observe(50.0, NOW + offset * MILLISECOND), None);
    }
    assert!(matches!(
        watch.observe(120.0, NOW + SECOND),
        Some((LatencyEvent::Degraded, _))
    ));
}
