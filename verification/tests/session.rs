use gamepath_engine::auth::SessionCrypto;
use gamepath_engine::capture::{
    check_request, check_update, fits_ring, ipv4_source_address, plan_routes, resolver_silent,
    resolvers_refused, session_facts, takes_packet, tunnel_gateway, CaptureAction, CaptureEvent,
    CaptureKind, CaptureStart, SessionFacts,
};
use gamepath_engine::dns;
use gamepath_engine::mtu::{EffectiveMtu, LINK_MTU};
use gamepath_engine::net::{Endpoint, Ipv4, SocketAddress};
use gamepath_engine::packet::{echo_packet, ipv4_udp_packet, ipv4_udp_payload};
use gamepath_engine::policy::RuleSpec;
use gamepath_engine::protocol::{
    probe_request, probe_response, FrameHeader, FLAG_CONTROL, FLAG_SERVER_TO_CLIENT,
};
use gamepath_engine::relay_path::{
    DirectPath, DirectWireGuardPath, NodeSpec, OpenPlan, PathIdentity, SessionMode,
    WireGuardTunnel,
};
use gamepath_engine::rtt::{MAX_TIMEOUT, MIN_TIMEOUT};
use gamepath_engine::scheduler::{Estimate, PathMetrics, Strategy};
use gamepath_engine::session::dataplane::{
    await_packet, data_plane_request, enqueue_data_packet, judge_data_plane, judge_resolver_reply,
    probe_timeout, resolver_question, split_hops, wrap_packet, ResolverReply,
};
use gamepath_engine::session::dialer::{
    PathDialer, ReconnectPoll, RECONNECT_AFTER_FAILURES, UPLINK_DOWN_BACKOFF,
};
use gamepath_engine::session::direct_worker::DirectWorker;
use gamepath_engine::session::health::{
    HEALTH_FAILURE_THRESHOLD, PROBE_INTERVAL, PROBE_INTERVAL_STANDBY,
};
use gamepath_engine::session::latency::{Baseline, Reading};
use gamepath_engine::session::monitors::{
    summary_line, DropLog, Measured, SummaryLog, DROP_LOG_INTERVAL, SESSION_SUMMARY_INTERVAL,
};
use gamepath_engine::session::relay_worker::{
    Heard, RedialStep, RelayWorker, Transport, Trouble,
};
use gamepath_engine::session::start::{
    address_set, check_nodes, full_mask, set_up_direct, start_direct, OpenedPath, RoutePlan,
};
use gamepath_engine::session::state::{
    initial_status, PathSessionStatus, RelayIngress, SessionOverlay,
};
use gamepath_engine::session::status::{degraded_routes, report, selected_routes};
use gamepath_engine::session::worker::PathCounters;
use gamepath_engine::session::{
    not_ready, wait_until_ready, Readiness, DEGRADED_START_SETTLE, SESSION_READY_TIMEOUT,
};
use gamepath_engine::time::{MILLISECOND, SECOND};
use gamepath_engine::uplink::UplinkState;
use gamepath_engine::BENCHMARK_TARGET;
use std::collections::VecDeque;

const NOW: u64 = 1_000 * SECOND;

fn wireguard_node() -> NodeSpec {
    NodeSpec::WireGuard {
        config: "[Interface]".into(),
        label: None,
    }
}

fn status(route: usize, reachable: bool) -> PathSessionStatus {
    let mut status = initial_status(
        route,
        "wireguard",
        format!("Route {route}"),
        "127.0.0.1:51820".into(),
    );
    status.reachable = reachable;
    status
}

#[test]
fn a_direct_session_refuses_to_pick_one_node_out_of_several() {
    let error = start_direct(&vec![wireguard_node(), wireguard_node()])
        .err()
        .unwrap();
    assert!(error.contains("exactly one node"), "{error}");
    // The message has to name both ways out, since either is reasonable.
    assert!(
        error.contains("single WireGuard, OpenVPN or L2TP/IPsec node"),
        "{error}"
    );
    assert!(error.contains("relay mode"), "{error}");
    assert!(matches!(
        start_direct(&vec![wireguard_node()]),
        Ok(OpenPlan::WireGuard { .. })
    ));
    assert!(check_nodes(&Vec::new()).is_err());
}

fn opened(key: u8) -> OpenedPath {
    OpenedPath {
        endpoint: "203.0.113.8:51820".into(),
        identity: PathIdentity::WireGuard {
            endpoint: SocketAddress::over_ipv4(Ipv4::new(203, 0, 113, 8), 51820),
            fingerprint: [key; 32],
        },
        bypass: Some(Ipv4::new(203, 0, 113, 8)),
        tunnel_mtu: None,
    }
}

#[test]
fn a_route_that_cannot_be_opened_costs_itself_alone() {
    let labels = vec!["One".to_string(), "Two".to_string(), "Three".to_string()];
    let mut plan = RoutePlan::new();
    assert!(plan.opened(0, &wireguard_node(), &labels, Ok(opened(1))));
    assert!(!plan.opened(1, &wireguard_node(), &labels, Err("offline".into())));
    // The same account at the same server would only displace the first.
    assert!(!plan.opened(2, &wireguard_node(), &labels, Ok(opened(1))));
    assert_eq!(plan.routes.len(), 1);
    assert_eq!(plan.skipped.len(), 2);
    assert!(plan.skipped[0].reason.contains("offline"));
    assert_eq!(plan.check_routes(), Ok(()));
    assert_eq!(plan.outer_addresses(), vec![Ipv4::new(203, 0, 113, 8)]);
    let setup = plan.set_up(Ipv4::new(198, 51, 100, 1), LINK_MTU);
    assert_eq!(setup.effective_mtu.mtu, 1356);
    assert_eq!(setup.initial_mask, 0b1);
    assert_eq!(setup.statuses.len(), 1);
    assert_eq!(setup.metrics[0].id, "0");
    assert_eq!(setup.bypass_ips.len(), 2);
    assert!(setup.bypass_ips.contains(&Ipv4::new(198, 51, 100, 1)));

    let mut none = RoutePlan::new();
    assert!(!none.opened(0, &wireguard_node(), &labels, Err("offline".into())));
    assert!(none.check_routes().unwrap_err().contains("offline"));
}

#[test]
fn a_direct_session_is_sized_for_its_one_node() {
    let path = DirectPath::WireGuard(Box::new(DirectWireGuardPath {
        tunnel: WireGuardTunnel {
            address: Ipv4::new(10, 0, 0, 2),
            endpoint: SocketAddress::over_ipv4(Ipv4::new(203, 0, 113, 8), 51820),
            identity_fingerprint: [1; 32],
        },
    }));
    let setup = set_up_direct(&wireguard_node(), &path, LINK_MTU, Some(1400));
    assert_eq!(setup.virtual_ipv4, Ipv4::new(10, 0, 0, 2));
    assert_eq!(setup.effective_mtu.mtu, 1400);
    assert_eq!(setup.bypass_ips, vec![Ipv4::new(203, 0, 113, 8)]);
    assert_eq!(setup.status.route, 1);
}

#[test]
fn masks_and_address_lists_hold_each_thing_once() {
    assert_eq!(full_mask(0), 0);
    assert_eq!(full_mask(3), 0b111);
    assert_eq!(full_mask(64), u64::MAX);
    let (a, b) = (Ipv4::new(1, 1, 1, 1), Ipv4::new(2, 2, 2, 2));
    assert_eq!(address_set(&vec![b, a, b, a]), vec![a, b]);
}

#[test]
fn a_session_starts_on_the_paths_that_answered() {
    let both = vec![status(1, true), status(2, true)];
    let one = vec![status(1, true), status(2, false)];
    let none = vec![status(1, false), status(2, false)];
    assert_eq!(wait_until_ready(&both, NOW, NOW), Readiness::Ready);
    assert_eq!(wait_until_ready(&one, NOW, NOW), Readiness::Waiting);
    assert_eq!(
        wait_until_ready(&one, NOW, NOW + DEGRADED_START_SETTLE),
        Readiness::Ready
    );
    assert_eq!(
        wait_until_ready(&none, NOW, NOW + DEGRADED_START_SETTLE),
        Readiness::Waiting
    );
    assert_eq!(
        wait_until_ready(&both, NOW, NOW + SESSION_READY_TIMEOUT),
        Readiness::TimedOut
    );
    assert_eq!(
        not_ready(SessionMode::Relay, &none),
        "relay paths did not become ready before timeout"
    );
    let mut explained = none.clone();
    explained[0].last_error = Some("handshake timed out".into());
    explained[1].last_error = Some("refused".into());
    assert_eq!(
        not_ready(SessionMode::Direct, &explained),
        "the node did not become ready: handshake timed out; refused"
    );
}

fn queues(count: usize) -> (Vec<VecDeque<gamepath_engine::session::worker::PathCommand>>, Vec<PathCounters>) {
    (
        (0..count).map(|_| VecDeque::new()).collect(),
        vec![PathCounters::default(); count],
    )
}

#[test]
fn a_packet_goes_to_every_selected_path_once_sealed() {
    let crypto = SessionCrypto::new(&[7; 32], 9).ok().unwrap();
    let overlay = SessionOverlay::Relay {
        client_id: [3; 16],
        crypto,
    };
    let (mut queues, mut counters) = queues(3);
    let (mut sequences, mut sent) = (5, 0);
    let accepted = enqueue_data_packet(
        &overlay,
        9,
        &mut sequences,
        b"packet",
        0b101,
        0b111,
        0b111,
        &mut queues,
        4,
        &mut counters,
        &mut sent,
        NOW,
    );
    assert_eq!(accepted, Ok(true));
    assert_eq!(sequences, 6);
    assert_eq!(sent, 6);
    assert_eq!(
        queues.iter().map(VecDeque::len).collect::<Vec<_>>(),
        [1, 0, 1]
    );
    assert_eq!(queues[0][0].frame, queues[2][0].frame);
    let reader = SessionCrypto::new(&[7; 32], 9).ok().unwrap();
    let (header, payload) = reader.open_client(&queues[0][0].frame).unwrap();
    assert_eq!(payload, b"packet".to_vec());
    assert_eq!((header.session_id, header.client_id), (9, [3; 16]));
    assert_eq!(counters[0].queue_depth, 1);
}

#[test]
fn a_direct_packet_goes_out_as_it_is_and_a_full_queue_is_counted() {
    let overlay = SessionOverlay::Direct;
    let mut sequences = 5;
    assert_eq!(
        wrap_packet(&overlay, 9, &mut sequences, b"packet").unwrap(),
        b"packet".to_vec()
    );
    assert_eq!(sequences, 5);
    let (mut queues, mut counters) = queues(1);
    let mut sent = 0;
    for expected in [Ok(true), Ok(false)] {
        let accepted = enqueue_data_packet(
            &overlay,
            9,
            &mut sequences,
            b"packet",
            0b1,
            0b1,
            0b1,
            &mut queues,
            1,
            &mut counters,
            &mut sent,
            NOW,
        );
        assert_eq!(accepted, expected);
    }
    assert_eq!(counters[0].queue_full_dropped, 1);
    assert_eq!(sent, 6);
    let nowhere = enqueue_data_packet(
        &overlay,
        9,
        &mut sequences,
        b"packet",
        0,
        0,
        0b1,
        &mut queues,
        1,
        &mut counters,
        &mut sent,
        NOW,
    );
    // A path whose worker has ended takes nothing and loses nothing.
    let ended = enqueue_data_packet(
        &overlay,
        9,
        &mut sequences,
        b"packet",
        0b1,
        0b1,
        0,
        &mut queues,
        1,
        &mut counters,
        &mut sent,
        NOW,
    );
    assert_eq!(ended, Ok(false));
    assert_eq!(counters[0].queue_full_dropped, 1);
    assert_eq!(
        nowhere.unwrap_err(),
        "no active path workers accepted the packet"
    );
}

#[test]
fn only_the_resolver_asked_is_credited() {
    let (resolver, address) = (Ipv4::new(10, 203, 0, 1), Ipv4::new(10, 203, 0, 2));
    let mut payload = dns::query(7, dns::PROBE_HOSTNAME).unwrap();
    payload[2] = 0x81;
    payload[3] = 0x83;
    let (server, client) = (
        Endpoint {
            address: resolver,
            port: 53,
        },
        Endpoint {
            address,
            port: 5000,
        },
    );
    let asked = ipv4_udp_payload(&resolver_question(address, resolver, 5000, 7).unwrap()).unwrap();
    assert_eq!((asked.source, asked.destination), (client, server));
    let arrived = ipv4_udp_packet(server, client, &payload).unwrap();
    assert_eq!(
        judge_resolver_reply(&arrived, resolver, address, 5000, 7),
        ResolverReply::Answered { refused: Some(3) }
    );
    assert_eq!(
        judge_resolver_reply(&arrived, resolver, address, 5001, 7),
        ResolverReply::Other
    );
    assert_eq!(
        judge_resolver_reply(&arrived, resolver, address, 5000, 8),
        ResolverReply::Other
    );
    assert_eq!(
        judge_resolver_reply(&arrived[..27], resolver, address, 5000, 7),
        ResolverReply::Other
    );
}

#[test]
fn a_silent_data_plane_is_a_fault_only_of_a_relay() {
    assert_eq!(probe_timeout(SessionMode::Relay), 8 * SECOND);
    assert_eq!(probe_timeout(SessionMode::Direct), 2 * SECOND);
    let address = Ipv4::new(10, 203, 0, 2);
    let answer = echo_packet(Ipv4(BENCHMARK_TARGET), address, 9, 1, true);
    for mode in [SessionMode::Relay, SessionMode::Direct] {
        assert_eq!(
            judge_data_plane(mode, Ok(answer.clone()), address, 9),
            Ok(Some(28))
        );
    }
    assert_eq!(
        judge_data_plane(SessionMode::Relay, Ok(data_plane_request(address, 9)), address, 9)
            .unwrap_err(),
        "relay data plane returned an unexpected packet"
    );
    assert_eq!(
        judge_data_plane(SessionMode::Relay, Err("silent".into()), address, 9).unwrap_err(),
        "silent"
    );
    assert_eq!(
        judge_data_plane(SessionMode::Direct, Err("silent".into()), address, 9),
        Ok(None)
    );
    assert_eq!(await_packet(Ok(None), 10, 9), None);
    assert_eq!(await_packet(Ok(Some(vec![1])), 10, 10), Some(Ok(vec![1])));
    assert_eq!(
        await_packet(Ok(None), 10, 10),
        Some(Err(
            "no path returned the relayed packet before timeout".to_string()
        ))
    );
    let mut near = status(1, true);
    near.latency = Some(20 * MILLISECOND);
    let mut far = status(2, true);
    far.latency = Some(60 * MILLISECOND);
    let hops = split_hops(70 * MILLISECOND, &vec![far, near]);
    assert_eq!(hops.user_to_relay, 20 * MILLISECOND);
    assert_eq!(hops.relay_to_server, Some(50 * MILLISECOND));
}

#[test]
fn a_report_names_routes_by_their_numbers() {
    let statuses = vec![status(1, true), status(3, false)];
    assert_eq!(selected_routes(&statuses, 0b11, 0b01), vec![1]);
    assert_eq!(degraded_routes(&statuses), vec![3]);
    let mtu = EffectiveMtu::for_session(SessionMode::Relay, &["wireguard"], LINK_MTU);
    let shown = report(
        SessionMode::Relay,
        Strategy::Adaptive,
        &statuses,
        0b11,
        0b01,
        mtu,
        UplinkState::Up,
    );
    assert_eq!(shown.state, "connected");
    assert_eq!(shown.mode, "relay");
    assert_eq!(shown.strategy, "adaptive");
    assert_eq!(shown.selected_routes, vec![1]);
    assert_eq!(shown.effective_mtu, 1356);
    assert_eq!(shown.uplink, "up");
}

#[test]
fn shedding_is_reported_once_for_a_burst() {
    let mut log = DropLog::new(1);
    let mut counters = vec![PathCounters::default()];
    assert_eq!(log.report(4, &counters, NOW), None);
    counters[0].dropped = 3;
    counters[0].stale_dropped = 3;
    let line = log.report(4, &counters, NOW).unwrap();
    assert!(line.starts_with("session 4 packet shedding by route: "), "{line}");
    assert_eq!(log.report(4, &counters, NOW + DROP_LOG_INTERVAL), None);
    counters[0].dropped = 4;
    assert_eq!(log.report(4, &counters, NOW + 1), None);
    assert!(log.report(4, &counters, NOW + DROP_LOG_INTERVAL).is_some());
}

#[test]
fn a_summary_counts_what_moved_since_the_last_one() {
    let mut log = SummaryLog::new(1, NOW);
    let mut statuses = vec![status(1, true)];
    let counters = vec![PathCounters::default()];
    statuses[0].packets_sent = 10;
    assert!(log.summarize(&statuses, &counters, 0b1, 0b1, NOW).is_none());
    let first = log
        .summarize(&statuses, &counters, 0b1, 0b1, NOW + SESSION_SUMMARY_INTERVAL)
        .unwrap();
    assert_eq!((first[0].route, first[0].sent, first[0].carrying), (1, 10, true));
    statuses[0].packets_sent = 14;
    let second = log
        .summarize(
            &statuses,
            &counters,
            0b1,
            0b1,
            NOW + 2 * SESSION_SUMMARY_INTERVAL,
        )
        .unwrap();
    assert_eq!(second[0].sent, 4);
}

fn dialer() -> PathDialer {
    PathDialer {
        node: wireguard_node(),
        relay: Endpoint {
            address: Ipv4::new(203, 0, 113, 8),
            port: 51821,
        },
        cheap_reopen: false,
    }
}

#[test]
fn a_relay_path_lives_and_dies_by_its_probes() {
    let crypto = SessionCrypto::new(&[7; 32], 9).ok().unwrap();
    let mut worker = RelayWorker::new(0, [3; 16], 9, 2, MIN_TIMEOUT, NOW);
    let mut shown = status(1, false);
    let (mut healthy, mut dialer) = (0b10_u64, dialer());
    let mut ingress = RelayIngress::new([3; 16], 9);
    let (mut inbound, mut counters) = (VecDeque::new(), PathCounters::default());

    // A probe goes out and its answer puts the path into service.
    assert!(worker.probe_due(NOW));
    let frame = worker.make_probe(&crypto, 1, &mut shown).unwrap();
    let (asked, payload) = crypto.open_client(&frame).unwrap();
    assert_eq!(payload, probe_request(1));
    worker.probe_sent(1, NOW);
    assert!(!worker.probe_due(NOW + SECOND));
    let answer = crypto
        .seal_server(
            FrameHeader {
                flags: FLAG_CONTROL | FLAG_SERVER_TO_CLIENT,
                sequence: 1,
                ..asked
            },
            &probe_response(&payload).unwrap(),
        )
        .unwrap();
    let heard = worker.frame_received(
        &answer,
        &crypto,
        &mut ingress,
        &mut inbound,
        4,
        &mut dialer,
        &mut shown,
        &mut counters,
        &mut healthy,
        NOW + 30 * MILLISECOND,
    );
    assert!(matches!(
        heard,
        Heard::Answered { elapsed, failures: 0, legacy: false } if elapsed == 30 * MILLISECOND
    ));
    assert!(shown.reachable);
    assert_eq!(healthy, 0b11);
    assert!(dialer.cheap_reopen);
    worker.schedule_probe(0b01, healthy, NOW);
    assert_eq!(worker.next_probe, NOW + PROBE_INTERVAL);
    worker.schedule_probe(0b10, healthy, NOW);
    assert_eq!(worker.next_probe, NOW + PROBE_INTERVAL_STANDBY);

    // A packet of the game's is handed on, and its copy is not.
    let game = crypto
        .seal_server(
            FrameHeader {
                flags: FLAG_SERVER_TO_CLIENT,
                sequence: 2,
                ..asked
            },
            b"game",
        )
        .unwrap();
    for _ in 0..2 {
        worker.frame_received(
            &game,
            &crypto,
            &mut ingress,
            &mut inbound,
            4,
            &mut dialer,
            &mut shown,
            &mut counters,
            &mut healthy,
            NOW + SECOND,
        );
    }
    assert_eq!(inbound, VecDeque::from(vec![b"game".to_vec()]));

    // Three checks in a row have to fail before the path is given up.
    let mut now = NOW + SECOND;
    for check in 1..=HEALTH_FAILURE_THRESHOLD {
        worker.probe_sent(u64::from(check) + 1, now);
        now += MAX_TIMEOUT;
        let trouble = worker
            .check_timeout(None, &mut shown, &mut healthy, now)
            .unwrap();
        if check < HEALTH_FAILURE_THRESHOLD {
            assert_eq!(healthy, 0b11, "after {check} failed check(s)");
        } else {
            assert_eq!(trouble, Trouble::Unavailable);
            assert_eq!(healthy, 0b10);
        }
    }
    assert_eq!(worker.failures, RECONNECT_AFTER_FAILURES);
    assert_eq!(shown.probes_lost, 3);

    // Another path is up, so the first redial is immediate, and one at a time.
    assert_eq!(
        worker.decide_redial(healthy, UplinkState::Unknown, now),
        RedialStep::Dial
    );
    worker.dial_started(&mut shown);
    assert_eq!(
        worker.decide_redial(healthy, UplinkState::Unknown, now),
        RedialStep::Wait
    );
    worker.reconnect_polled(
        ReconnectPoll::Finished(Ok(Transport {
            endpoint: "203.0.113.9:51820".into(),
            deadline_floor: MIN_TIMEOUT,
        })),
        &mut shown,
        &mut healthy,
        now,
    );
    assert_eq!(shown.endpoint, "203.0.113.9:51820");
    assert!(worker.probe_due(now));
}

#[test]
fn a_collapse_of_every_path_holds_the_redials() {
    let mut worker = RelayWorker::new(0, [3; 16], 9, 2, MIN_TIMEOUT, NOW);
    let mut shown = status(1, true);
    let mut healthy = 0b11_u64;
    worker.decide_redial(healthy, UplinkState::Up, NOW);
    assert!(worker.transport_checked(true, &mut shown, &mut healthy, NOW));
    assert!(!worker.transport_checked(true, &mut shown, &mut healthy, NOW));
    assert_eq!(healthy, 0b10);
    // Everything else went down with it: the uplink is the suspect.
    healthy = 0;
    assert_eq!(
        worker.decide_redial(healthy, UplinkState::Up, NOW),
        RedialStep::Held
    );
    assert_eq!(
        worker.decide_redial(healthy, UplinkState::Up, NOW + UPLINK_DOWN_BACKOFF - 1),
        RedialStep::Wait
    );
    worker.dial_refused("no thread", &mut shown, NOW);
    assert_eq!(
        shown.last_error.as_deref(),
        Some("could not start a reconnect attempt: no thread")
    );
}

/// Plays the node: it answers at first, and then nothing comes back.
#[test]
fn a_direct_node_that_stops_answering_stops_reporting_itself_healthy() {
    let mut worker = DirectWorker::new("127.0.0.1:51820".into(), true, NOW);
    let mut shown = status(1, false);
    let mut healthy = 0_u64;
    let handshake = Some(40 * MILLISECOND);
    let mut now = NOW;
    worker.judge(handshake, &mut shown, &mut healthy, now);
    assert!(worker.probe_due(now));
    let address = Ipv4::new(10, 66, 66, 2);
    let target = Ipv4(BENCHMARK_TARGET);
    assert_eq!(
        worker.make_probe(address, 0x1234),
        echo_packet(address, target, 0x1234, 1, false)
    );
    worker.probe_sent(&mut shown, now);
    now += 30 * MILLISECOND;
    let (mut inbound, mut counters) = (VecDeque::new(), PathCounters::default());
    for (packet, took) in [
        (b"for the user".to_vec(), None),
        (
            echo_packet(target, address, 0x1234, 1, true),
            Some(30 * MILLISECOND),
        ),
    ] {
        let heard = worker.take_packet(
            packet,
            address,
            0x1234,
            &mut inbound,
            4,
            &mut shown,
            &mut counters,
            now,
        );
        assert_eq!(heard, took);
    }
    assert_eq!(inbound.len(), 1);
    worker.judge(handshake, &mut shown, &mut healthy, now);
    assert!(shown.reachable && shown.probes_received > 0);
    assert_eq!(healthy, 1);
    // Every answered probe is counted against one that was sent.
    assert!(shown.probes_sent >= shown.probes_received);
    assert!(shown.handshake.is_some());
    assert!(shown.latency.is_some());
    assert!(shown.last_error.is_none());

    // The node goes away. A completed handshake is not evidence that it is
    // still there, so the path has to notice and say so.
    let gone = now;
    while shown.reachable && now < gone + 20 * SECOND {
        now += 50 * MILLISECOND;
        worker.judge(handshake, &mut shown, &mut healthy, now);
        if worker.probe_due(now) {
            worker.next_sequence();
            worker.probe_sent(&mut shown, now);
        }
        worker.check_timeout(&mut shown, now);
    }
    assert!(
        !shown.reachable,
        "a node that stopped answering still reported itself healthy"
    );
    assert_eq!(healthy, 0);
    assert!(
        shown
            .last_error
            .as_deref()
            .is_some_and(|error| error.contains("stopped answering")),
        "{:?}",
        shown.last_error
    );
}

#[test]
fn a_node_that_filters_probes_does_not_look_lossy() {
    let mut worker = DirectWorker::new("127.0.0.1:51820".into(), true, NOW);
    let mut shown = status(1, false);
    let mut now = NOW;
    for _ in 0..5 {
        worker.probe_sent(&mut shown, now);
        now += MAX_TIMEOUT;
        assert!(!worker.check_timeout(&mut shown, now));
    }
    assert_eq!(
        (shown.probes_sent, shown.probes_received, shown.probes_lost),
        (0, 0, 0)
    );
    // What it sends back shows that it carries traffic all the same.
    let (mut inbound, mut counters) = (VecDeque::new(), PathCounters::default());
    worker.packet_received(
        b"packet".to_vec(),
        &mut inbound,
        4,
        &mut shown,
        &mut counters,
        now,
    );
    let mut healthy = 0;
    worker.judge(Some(MILLISECOND), &mut shown, &mut healthy, now);
    assert!(shown.reachable);
}

#[test]
fn a_capture_takes_its_own_packets_and_routes_everything_else_in() {
    let rules = [RuleSpec {
        kind: "hostname".into(),
        value: "game.example".into(),
    }];
    assert_eq!(check_request("all", &[]), Ok(CaptureKind::All));
    assert_eq!(check_request("split", &rules), Ok(CaptureKind::Split));
    assert!(check_request("split", &[]).is_err());
    assert!(check_request("some", &rules).is_err());
    assert_eq!(check_update(true, Some("split")), Ok(()));
    assert!(check_update(false, Some("split")).is_err());
    assert!(check_update(true, Some("all")).is_err());

    let own = Ipv4::new(10, 203, 0, 2);
    let mut packet = vec![0_u8; 20];
    packet[0] = 0x45;
    packet[12..16].copy_from_slice(&own.octets());
    assert_eq!(ipv4_source_address(&packet), Some(own));
    assert!(takes_packet(&packet, own));
    assert!(!takes_packet(&packet, Ipv4::new(10, 203, 0, 3)));
    assert!(!takes_packet(&packet[..19], own));
    assert!(fits_ring(&packet) && !fits_ring(&vec![0; 65_536]));

    let routes = plan_routes(
        &vec![Ipv4::new(203, 0, 113, 8)],
        Ipv4::new(192, 168, 1, 1),
        6,
        own,
        12,
    );
    assert_eq!(tunnel_gateway(own), Ipv4::new(10, 203, 0, 1));
    let bypass = &routes[0];
    assert_eq!(
        (bypass.destination, bypass.prefix_length, bypass.interface_index),
        (Ipv4::new(203, 0, 113, 8), 32, 6)
    );
    let halves: Vec<_> = routes
        .iter()
        .filter(|row| row.prefix_length == 1)
        .map(|row| (row.destination, row.interface_index))
        .collect();
    assert_eq!(halves, vec![(Ipv4(0), 12), (Ipv4::new(128, 0, 0, 0), 12)]);
}

#[test]
fn a_capture_undoes_exactly_what_it_did() {
    let facts = SessionFacts {
        virtual_ipv4: Ipv4::new(10, 203, 0, 2),
        bypass_ips: vec![Ipv4::new(203, 0, 113, 8)],
        effective_mtu: EffectiveMtu::for_session(SessionMode::Relay, &["wireguard"], LINK_MTU),
    };
    let (mut start, first) = CaptureStart::begin(&facts, Ipv4::new(192, 168, 1, 1), 6, 12);
    assert!(matches!(first, CaptureAction::AddRoute(row) if row.interface_index == 6));
    assert!(start.undo().routes.is_empty());
    assert!(matches!(
        start.next(CaptureEvent::RouteAdded(Ok(()))),
        CaptureAction::AddRoute(row) if row.prefix_length == 1 && row.destination == Ipv4(0)
    ));
    assert!(matches!(
        start.next(CaptureEvent::RouteAdded(Ok(()))),
        CaptureAction::AddRoute(row) if row.destination == Ipv4::new(128, 0, 0, 0)
    ));
    // The last route is refused: the two before it are removed, the last first.
    let (mut refused, _) = CaptureStart::begin(&facts, Ipv4::new(192, 168, 1, 1), 6, 12);
    refused.next(CaptureEvent::RouteAdded(Ok(())));
    refused.next(CaptureEvent::RouteAdded(Ok(())));
    assert!(matches!(
        refused.next(CaptureEvent::RouteAdded(Err("denied".into()))),
        CaptureAction::Failed(message) if message == "denied"
    ));
    let undo = refused.undo();
    assert!(!undo.clear_resolvers);
    assert_eq!(
        undo.routes
            .iter()
            .map(|row| row.prefix_length)
            .collect::<Vec<_>>(),
        [1, 32]
    );

    let gateway = Ipv4::new(10, 203, 0, 1);
    assert!(matches!(
        start.next(CaptureEvent::RouteAdded(Ok(()))),
        CaptureAction::AskResolver(asked) if asked == gateway
    ));
    assert!(matches!(
        start.next(CaptureEvent::ResolverAsked(true)),
        CaptureAction::SetResolvers(servers) if servers == vec![gateway, Ipv4::new(8, 8, 8, 8)]
    ));
    assert!(matches!(
        start.next(CaptureEvent::ResolversSet(Ok(()))),
        CaptureAction::Started(servers) if servers.len() == 2
    ));
    let undo = start.undo();
    assert!(undo.clear_resolvers);
    assert_eq!(undo.routes.len(), 3);
    assert!(matches!(
        start.next(CaptureEvent::ResolverAsked(true)),
        CaptureAction::Failed(_)
    ));
    assert!(resolver_silent(gateway).starts_with("10.203.0.1 did not answer"));
    assert_eq!(
        resolvers_refused("error 5"),
        "name resolution will not go through the tunnel: error 5"
    );
    assert!(session_facts(None).is_err());
}

#[test]
fn a_summary_line_shows_every_route() {
    let mut statuses = vec![status(1, true)];
    statuses[0].probes_lost = 2;
    let mut counters = vec![PathCounters::default()];
    counters[0].dropped = 5;
    counters[0].stale_dropped = 5;
    let mut log = SummaryLog::new(1, NOW);
    let routes = log
        .summarize(&statuses, &counters, 0b1, 0b1, NOW + SESSION_SUMMARY_INTERVAL)
        .unwrap();
    let measured = vec![Measured {
        relay_rtt: Some("42".into()),
        ewma: "40".into(),
        jitter: "3".into(),
        loss: "1".into(),
    }];
    assert_eq!(
        summary_line(7, UplinkState::Up, &routes, &statuses, &counters, &measured),
        "session 7: uplink Up | 1:up/active relay-rtt=42ms ewma=40ms jitter=3ms loss-ewma=1% \
         probes-lost=2 (+2) q=0/peak=0 drop=5 (+5; full=0 stale=5 inbound=0) packets=+0/+0 \
         worker-gap-peak=0ms"
    );
}

#[test]
fn a_probe_moves_the_pick_and_the_next_probe_follows_it() {
    let estimate = |score: i64| Estimate {
        score,
        held_score: score - 8,
        cost: score,
        held_cost: score - 8,
        delivery: score,
        delivery_limit: score + 100,
        degraded: false,
    };
    let steady = Reading {
        settled: true,
        risen: false,
        severe: false,
    };
    let mut metrics = vec![
        PathMetrics::new("0".to_owned()),
        PathMetrics::new("1".to_owned()),
    ];
    let mut decision = 0b11;
    let mut worker = RelayWorker::new(0, [3; 16], 9, 2, MIN_TIMEOUT, NOW);
    let followed = worker.probe_answered(
        &mut metrics,
        &mut decision,
        0b11,
        Strategy::FastestPath,
        0b11,
        estimate(50),
        steady,
        NOW,
    );
    // The only measured path carries everything, so it is warm already.
    assert_eq!(decision, 0b01);
    assert_eq!(followed.repicked, Some((0b11, 0b01)));
    assert_eq!(followed.seen.baseline, Baseline::Sample);
    assert_eq!(worker.next_probe, NOW + PROBE_INTERVAL);

    let mut other = RelayWorker::new(1, [3; 16], 9, 2, MIN_TIMEOUT, NOW);
    let followed = other.probe_answered(
        &mut metrics,
        &mut decision,
        0b11,
        Strategy::FastestPath,
        0b11,
        estimate(49),
        steady,
        NOW,
    );
    // One point better does not take the slot, and a path that stands by is
    // asked more often.
    assert_eq!(followed.repicked, None);
    assert_eq!(other.next_probe, NOW + PROBE_INTERVAL_STANDBY);

    for _ in 0..2 {
        let lost = worker.probe_lost(
            &mut metrics,
            &mut decision,
            0b11,
            Strategy::FastestPath,
            estimate(50),
        );
        assert_eq!(lost, None);
    }
    let lost = worker.probe_lost(
        &mut metrics,
        &mut decision,
        0b11,
        Strategy::FastestPath,
        estimate(50),
    );
    assert_eq!(lost, Some((0b01, 0b10)));
}
