use gamepath_engine::adapter::{inspect_library, Load};
use gamepath_engine::auth::{EnrollmentToken, SessionCrypto};
use gamepath_engine::commands::{
    active_interfaces, answers_dns_without_forwarding, check_answer, check_configs,
    prepare_session, probe_frame, probe_relay, probe_socks5_node, probe_wireguard_route,
    proxy_refusal, unanswerable_query, PrepareRequest,
};
use gamepath_engine::ipc::{default_relay_strategy, parse_strategy, Command, SessionRequest};
use gamepath_engine::net::{Endpoint, IpAddress, Ipv4};
use gamepath_engine::packet::ipv4_udp_packet;
use gamepath_engine::policy::RuleSpec;
use gamepath_engine::protocol::{
    probe_response, FrameHeader, FLAG_CONTROL, FLAG_SERVER_TO_CLIENT,
};
use gamepath_engine::relay_path::{FrameRoute, NodeSpec, SessionMode};
use gamepath_engine::scheduler::Strategy;

fn direct_request(rules: Vec<RuleSpec>) -> PrepareRequest {
    PrepareRequest {
        mode: SessionMode::Direct,
        route_ids: vec!["node-1".to_string()],
        traffic_mode: "split".to_string(),
        rules,
        relay_host: String::new(),
        relay_port: 0,
    }
}

fn relay_request(route_ids: &[&str]) -> PrepareRequest {
    PrepareRequest {
        mode: SessionMode::default(),
        route_ids: route_ids.iter().map(|id| id.to_string()).collect(),
        traffic_mode: "all".to_string(),
        rules: Vec::new(),
        relay_host: "relay.example".to_string(),
        relay_port: 51821,
    }
}

#[test]
fn prepare_plans_a_direct_session_without_relay_details() {
    let request = direct_request(vec![RuleSpec {
        kind: "application".to_string(),
        value: "C:\\Games\\game.exe".to_string(),
    }]);
    let no_token = || Err("invalid GamePath enrollment token prefix".to_string());
    let plan = prepare_session(&request, no_token()).ok().unwrap();
    assert_eq!(plan.mode, "direct");
    // Nothing relay-shaped is invented for a session that has no relay.
    assert!(plan.client.is_none());
    // The capture policy is still planned, and still has to compile.
    assert_eq!(plan.interception.backend, "wfp");
    assert!(prepare_session(&direct_request(Vec::new()), no_token()).is_err());
}

#[test]
fn prepare_rejects_no_routes() {
    let result = prepare_session(
        &relay_request(&[]),
        EnrollmentToken::decode_payload("bad").and(EnrollmentToken::decode(None)),
    );
    assert!(result.is_err());
}

#[test]
fn prepare_accepts_all_traffic_without_rules() {
    let token = EnrollmentToken::generate(Ipv4::new(10, 203, 0, 2));
    let plan = prepare_session(&relay_request(&["one", "two"]), Ok(token))
        .ok()
        .unwrap();
    assert_eq!(plan.mode, "relay");
    assert_eq!(plan.route_count, 2);
}

#[test]
fn a_relay_session_shows_its_client_and_needs_a_relay() {
    let token = EnrollmentToken::with_material([0xff; 16], [2; 32], Ipv4::new(10, 203, 0, 2));
    let plan = prepare_session(&relay_request(&["one"]), Ok(token.clone()))
        .ok()
        .unwrap();
    assert_eq!(
        plan.client,
        Some((
            "_____________________w".to_string(),
            Ipv4::new(10, 203, 0, 2)
        ))
    );
    let mut nowhere = relay_request(&["one"]);
    nowhere.relay_host = "  ".to_string();
    assert_eq!(
        prepare_session(&nowhere, Ok(token)).err().unwrap(),
        "a relay host and port are required"
    );
    assert_eq!(
        prepare_session(&relay_request(&["one"]), Err("no token".to_string()))
            .err()
            .unwrap(),
        "no token"
    );
}

#[test]
fn a_relay_probe_is_answered_by_its_own_relay() {
    let crypto = SessionCrypto::new(&[7; 32], 5).ok().unwrap();
    let frame = probe_frame(&crypto, [3; 16], 5, 1).unwrap();
    let (header, payload) = crypto.open_client(&frame).unwrap();
    assert_eq!(header.flags, FLAG_CONTROL);
    let answer = FrameHeader {
        flags: FLAG_CONTROL | FLAG_SERVER_TO_CLIENT,
        ..header
    };
    let reply = crypto
        .seal_server(answer, &probe_response(&payload).unwrap())
        .unwrap();
    assert_eq!(check_answer(&crypto, &reply, &[3; 16], 5, "refused"), Ok(()));
    assert_eq!(
        check_answer(&crypto, &reply, &[4; 16], 5, "refused").unwrap_err(),
        "refused"
    );
    assert!(check_answer(&crypto, &frame, &[3; 16], 5, "refused").is_err());

    // Straight from the relay, and from nowhere else.
    let relay = IpAddress::V4(Ipv4::new(203, 0, 113, 8));
    let other = IpAddress::V4(Ipv4::new(203, 0, 113, 9));
    assert_eq!(probe_relay(&crypto, &[3; 16], 5, &relay, &relay, &reply), Ok(()));
    assert_eq!(
        probe_relay(&crypto, &[3; 16], 5, &relay, &other, &reply).unwrap_err(),
        "relay probe came from an unexpected address"
    );
    assert_eq!(
        probe_relay(&crypto, &[4; 16], 5, &relay, &relay, &reply).unwrap_err(),
        "relay returned an invalid authenticated probe"
    );

    // Through a tunnel, on the flow that was opened.
    let route = FrameRoute {
        local: Endpoint {
            address: Ipv4::new(10, 0, 0, 2),
            port: 50_000,
        },
        relay: Endpoint {
            address: Ipv4::new(203, 0, 113, 8),
            port: 51_821,
        },
    };
    let packet = ipv4_udp_packet(route.relay, route.local, &reply).unwrap();
    assert_eq!(
        probe_wireguard_route(&crypto, &[3; 16], 5, route, &packet),
        Ok(())
    );
    assert_eq!(
        probe_wireguard_route(&crypto, &[3; 16], 5, route, &packet[..20]).unwrap_err(),
        "WireGuard path returned a non-UDP packet"
    );
    let stray = ipv4_udp_packet(route.local, route.relay, &reply).unwrap();
    assert_eq!(
        probe_wireguard_route(&crypto, &[3; 16], 5, route, &stray).unwrap_err(),
        "WireGuard path returned an unexpected UDP flow"
    );
    assert_eq!(
        probe_wireguard_route(&crypto, &[4; 16], 5, route, &packet).unwrap_err(),
        "WireGuard path returned an invalid authenticated relay response"
    );

    // Through a proxy, among whatever else comes back.
    assert!(probe_socks5_node(&crypto, &[3; 16], 5, &vec![vec![1, 2], reply]));
    assert!(!probe_socks5_node(&crypto, &[3; 16], 5, &vec![frame]));
    assert_eq!(answers_dns_without_forwarding(Some(1), 10, 0), Some(true));
    assert_eq!(answers_dns_without_forwarding(Some(0), 10, 9), None);
    assert_eq!(answers_dns_without_forwarding(Some(0), 10, 10), Some(false));
    assert_eq!(answers_dns_without_forwarding(None, 10, 0), Some(false));
    assert_eq!(active_interfaces(Some("wg0 wg1\n")), vec!["wg0", "wg1"]);
    assert!(active_interfaces(None).is_empty());
}

#[test]
fn a_benchmark_needs_two_configurations() {
    assert!(check_configs(1).is_err());
    assert_eq!(check_configs(2), Ok(()));
    assert!(unanswerable_query().is_some());
    assert!(proxy_refusal(true, 51821, "relay.example").contains("DNS"));
    assert!(proxy_refusal(false, 51821, "relay.example").contains("51821"));
}

fn request() -> SessionRequest {
    SessionRequest {
        mode: SessionMode::default(),
        relay_host: "relay.example".to_string(),
        relay_port: 51821,
        enrollment_token: "gpe1_token".to_string(),
        nodes: Vec::new(),
        wireguard_configs: Vec::new(),
        route_labels: Vec::new(),
        strategy: default_relay_strategy(),
    }
}

#[test]
fn a_tagged_node_list_keeps_its_order_and_kinds() {
    let request = SessionRequest {
        nodes: vec![
            NodeSpec::WireGuard {
                config: "[Interface]".to_string(),
                label: Some("Provider A".to_string()),
            },
            NodeSpec::Socks5 {
                host: "127.0.0.1".to_string(),
                port: 2080,
                username: None,
                password: None,
                label: Some("Local proxy".to_string()),
            },
            NodeSpec::Socks5 {
                host: "proxy.example".to_string(),
                port: 1080,
                username: Some("player".to_string()),
                password: Some("secret".to_string()),
                label: None,
            },
        ],
        ..request()
    };
    let nodes = request.resolved_nodes();
    assert_eq!(nodes.len(), 3);
    assert!(matches!(nodes[0], NodeSpec::WireGuard { .. }));
    assert_eq!(nodes[0].label().as_deref(), Some("Provider A"));
    assert_eq!(nodes[1].label().as_deref(), Some("Local proxy"));
    assert_eq!(nodes[1].describe(), "SOCKS5 proxy 127.0.0.1:2080");
    assert_eq!(nodes[2].label(), None);
    assert_eq!(nodes[2].default_label(3), "SOCKS5 route 3");
    assert!(matches!(
        &nodes[2],
        NodeSpec::Socks5 { username, password, .. }
            if username.as_deref() == Some("player") && password.as_deref() == Some("secret")
    ));
}

#[test]
fn a_wireguard_only_request_still_works_without_the_node_list() {
    let request = SessionRequest {
        wireguard_configs: vec!["[Interface] one".to_string(), "[Interface] two".to_string()],
        route_labels: vec!["Falcon".to_string(), "  ".to_string()],
        ..request()
    };
    let nodes = request.resolved_nodes();
    assert_eq!(nodes.len(), 2);
    assert_eq!(nodes[0].label().as_deref(), Some("Falcon"));
    // A blank label falls back to the generated route name.
    assert_eq!(nodes[1].label(), None);
    assert_eq!(nodes[1].default_label(2), "WireGuard route 2");
}

#[test]
fn a_request_without_a_mode_still_means_a_relay_session() {
    let request = SessionRequest {
        wireguard_configs: vec!["[Interface] one".to_string()],
        ..request()
    };
    assert_eq!(request.mode, SessionMode::Relay);
    assert_eq!(request.strategy, Strategy::Adaptive);
}

#[test]
fn a_manual_request_keeps_all_healthy_paths_enabled() {
    let request = SessionRequest {
        wireguard_configs: vec!["[Interface] one".to_string()],
        strategy: parse_strategy("all-paths").unwrap(),
        ..request()
    };
    assert_eq!(request.strategy, Strategy::AllPaths);
}

#[test]
fn a_direct_request_carries_no_relay_details() {
    let request = SessionRequest {
        mode: SessionMode::Direct,
        relay_host: String::new(),
        relay_port: 0,
        enrollment_token: String::new(),
        nodes: vec![NodeSpec::WireGuard {
            config: "[Interface]".to_string(),
            label: Some("Provider A".to_string()),
        }],
        ..request()
    };
    assert_eq!(request.mode, SessionMode::Direct);
    assert_eq!(request.mode.as_str(), "direct");
    assert!(request.relay_host.is_empty());
    assert_eq!(request.relay_port, 0);
    assert!(request.enrollment_token.is_empty());
    assert_eq!(request.resolved_nodes().len(), 1);
}

#[test]
fn every_strategy_reads_back_and_others_do_not() {
    for strategy in [
        Strategy::FastestPath,
        Strategy::Duplicate,
        Strategy::Adaptive,
        Strategy::AllPaths,
    ] {
        assert_eq!(parse_strategy(strategy.as_str()), Some(strategy));
    }
    assert_eq!(parse_strategy("smart"), None);
}

#[test]
fn an_unknown_command_is_named_in_the_refusal() {
    assert_eq!(Command::parse("hello"), Ok(Command::Hello));
    assert_eq!(
        Command::parse("dance").unwrap_err(),
        "unknown command: dance"
    );
}

#[test]
fn a_missing_driver_is_reported() {
    let missing = inspect_library(Load::Missing);
    assert!(!missing.library_available && !missing.library_loaded);
    assert_eq!(missing.message, "wintun.dll was not found");
    let ready = inspect_library(Load::Loaded(Some("0.14".to_string())));
    assert_eq!(ready.driver_version.as_deref(), Some("0.14"));
    let failed = inspect_library(Load::Failed("bad image".to_string()));
    assert_eq!(failed.message, "Wintun could not be loaded: bad image");
    assert!(inspect_library(Load::Unsupported { file: true }).library_available);
}
