use gamepath_engine::l2tp::{
    active_script, adapter_index, dial_error, l2tp_mtu, login_fields, projected_address, put,
    redial_failed, redial_reason, relay_prefix, removes_route, socket_failed, take, unroute_script,
    wide, L2tpRelayPath, L2tpRuntime, OpenAction, OpenEvent, Opening, Redial, RedialAction,
    RedialEvent,
};
use gamepath_engine::net::{Endpoint, Ipv4, SocketAddress};
use gamepath_engine::packet::{echo_packet, ipv4_udp_packet, ipv4_udp_payload, is_echo_reply};
use gamepath_engine::relay_path::{
    ipv4_destination, keep_addressed_to, DirectPath, DirectWireGuardPath, NodeSpec,
    OpenPlan, PathIdentity, ReopenEffort, Socks5RelayPath, WireGuardRelayPath, WireGuardTunnel,
    FIRST_SOURCE_PORT, KIND_L2TP, KIND_OPENVPN, KIND_SOCKS5, KIND_WIREGUARD,
};
use gamepath_engine::utf16;

const RELAY: Endpoint = Endpoint {
    address: Ipv4(0xcb00_7108),
    port: 51_821,
};

/// What a prepared tunnel says of itself: the same key at the same endpoint has
/// the same fingerprint.
fn wireguard(key: u8, port: u16) -> WireGuardTunnel {
    WireGuardTunnel {
        address: Ipv4::new(10, 0, 0, 2),
        endpoint: SocketAddress::over_ipv4(Ipv4::new(127, 0, 0, 1), port),
        identity_fingerprint: [key; 32],
    }
}

#[test]
fn identical_wireguard_identities_collide_and_distinct_ones_do_not() {
    let first = WireGuardRelayPath::through(wireguard(3, 51820), RELAY);
    let duplicate = WireGuardRelayPath::through(wireguard(3, 51820), RELAY);
    let other_endpoint = WireGuardRelayPath::through(wireguard(3, 51821), RELAY);
    let other_identity = WireGuardRelayPath::through(wireguard(4, 51820), RELAY);
    assert!(first.identity().is_same(&duplicate.identity()));
    assert!(!first.identity().is_same(&other_endpoint.identity()));
    assert!(!first.identity().is_same(&other_identity.identity()));
    assert_eq!(first.kind(), KIND_WIREGUARD);
    assert_eq!(first.bypass_ipv4(), Some(Ipv4::new(127, 0, 0, 1)));
}

fn socks5_node(host: &str) -> NodeSpec {
    NodeSpec::Socks5 {
        host: host.to_owned(),
        port: 2080,
        username: None,
        password: None,
        label: None,
    }
}

#[test]
fn proxies_on_this_machine_are_recognised() {
    for host in ["127.0.0.1", "127.5.0.9", "localhost", "LOCALHOST", " ::1 "] {
        assert!(socks5_node(host).is_loopback_proxy(), "{host}");
    }
    for host in ["203.0.113.8", "proxy.example", "10.0.0.4"] {
        assert!(!socks5_node(host).is_loopback_proxy(), "{host}");
    }
    assert!(!NodeSpec::WireGuard {
        config: "[Interface]".into(),
        label: None,
    }
    .is_loopback_proxy());
}

#[test]
fn node_shapes_are_checked_before_any_network_use() {
    assert!(socks5_node("127.0.0.1").validate().is_ok());
    assert_eq!(socks5_node("127.0.0.1").kind(), KIND_SOCKS5);
    assert!(socks5_node("  ").validate().is_err());
    assert!(NodeSpec::WireGuard {
        config: "   ".into(),
        label: None,
    }
    .validate()
    .is_err());
    // A username without a password would silently fall back to no auth.
    assert!(NodeSpec::Socks5 {
        host: "127.0.0.1".into(),
        port: 2080,
        username: Some("player".into()),
        password: None,
        label: None,
    }
    .validate()
    .is_err());
}

fn l2tp_node() -> NodeSpec {
    NodeSpec::L2tp {
        server: "vpn.example".into(),
        username: "player".into(),
        password: "secret".into(),
        pre_shared_key: "shared-secret".into(),
        label: None,
        runtime: None,
    }
}

fn runtime() -> L2tpRuntime {
    L2tpRuntime {
        local_address: Ipv4::new(10, 0, 0, 2),
        virtual_address: Ipv4::new(10, 203, 201, 2),
        server_address: Ipv4::new(203, 0, 113, 8),
        interface_index: 42,
        mtu: 1384,
        setup_latency_bits: 125.0_f64.to_bits(),
        profile_name: "GamePath-L2TP-test".into(),
        phonebook_path: r"C:\ProgramData\rasphone.pbk".into(),
    }
}

#[test]
fn only_a_tunnelling_node_can_carry_a_direct_session() {
    let wireguard = NodeSpec::WireGuard {
        config: "[Interface]\nAddress = 10.0.0.2/32".into(),
        label: None,
    };
    assert!(wireguard.supports_direct());
    assert!(matches!(
        wireguard.open_direct(),
        Ok(OpenPlan::WireGuard { config }) if config == "[Interface]\nAddress = 10.0.0.2/32"
    ));

    let proxy = socks5_node("203.0.113.8");
    assert!(!proxy.supports_direct());
    // The refusal has to name the way forward, since the node itself is
    // perfectly usable in the other mode.
    let error = proxy.open_direct().err().unwrap();
    assert!(
        error.contains("OpenVPN or L2TP/IPsec node for direct mode"),
        "{error}"
    );
    assert!(error.contains("relay"), "{error}");

    let l2tp = l2tp_node();
    assert!(l2tp.supports_direct());
    assert_eq!(l2tp.kind(), KIND_L2TP);
    assert!(l2tp.validate().is_ok());
    let mut prepared = l2tp.clone();
    if let NodeSpec::L2tp {
        pre_shared_key,
        runtime: connected,
        ..
    } = &mut prepared
    {
        pre_shared_key.clear();
        *connected = Some(runtime());
    }
    assert!(prepared.validate().is_ok());

    let mut missing_psk = l2tp.clone();
    if let NodeSpec::L2tp { pre_shared_key, .. } = &mut missing_psk {
        pre_shared_key.clear();
    }
    assert!(missing_psk.validate().is_err());

    // An OpenVPN node routes IP packets just as a WireGuard one does, so it
    // is offered for direct mode too.
    let openvpn = NodeSpec::OpenVpn {
        config: String::new(),
        username: None,
        password: None,
        label: None,
    };
    assert!(openvpn.supports_direct());
    assert_eq!(openvpn.kind(), KIND_OPENVPN);
}

#[test]
fn replies_for_other_addresses_in_the_peer_subnet_are_dropped() {
    let mut packet = vec![0_u8; 20];
    packet[0] = 0x45;
    packet[16..20].copy_from_slice(&Ipv4::new(10, 0, 0, 2).octets());
    assert_eq!(ipv4_destination(&packet), Some(Ipv4::new(10, 0, 0, 2)));
    let kept = keep_addressed_to(vec![packet.clone(), vec![1]], Ipv4::new(10, 0, 0, 2));
    assert_eq!(kept, vec![packet.clone()]);
    assert!(keep_addressed_to(vec![packet.clone()], Ipv4::new(10, 0, 0, 3)).is_empty());
    // Too short to hold a header, and not IPv4 at all.
    assert_eq!(ipv4_destination(&packet[..19]), None);
    packet[0] = 0x60;
    assert_eq!(ipv4_destination(&packet), None);
}

#[test]
fn socks5_and_wireguard_identities_never_collide() {
    let wireguard = WireGuardRelayPath::through(wireguard(3, 51820), RELAY);
    let proxy = PathIdentity::Socks5 {
        proxy: SocketAddress::over_ipv4(Ipv4::new(127, 0, 0, 1), 51820),
    };
    assert!(!wireguard.identity().is_same(&proxy));
}

#[test]
fn l2tp_routes_to_the_same_server_are_one_failure_domain() {
    let first = PathIdentity::L2tp {
        server: Ipv4::new(203, 0, 113, 8),
    };
    let second = PathIdentity::L2tp {
        server: Ipv4::new(203, 0, 113, 8),
    };
    let distinct = PathIdentity::L2tp {
        server: Ipv4::new(203, 0, 113, 9),
    };
    assert!(first.is_same(&second));
    assert!(!first.is_same(&distinct));
}

#[test]
fn only_the_relays_own_answers_are_frames() {
    let path = WireGuardRelayPath::through(wireguard(3, 51820), RELAY);
    assert!(path.source_port >= FIRST_SOURCE_PORT);
    let route = path.route();
    let answer = ipv4_udp_packet(route.relay, route.local, b"frame").unwrap();
    let stranger = route.send_frame(b"frame").unwrap();
    let arrived = vec![vec![1, 2, 3], answer, stranger];
    assert_eq!(route.receive_frames(&arrived), vec![b"frame".to_vec()]);
}

#[test]
fn a_node_opens_as_what_it_is() {
    assert!(matches!(
        socks5_node("203.0.113.8").open(),
        Ok(OpenPlan::Socks5 { proxy }) if proxy.port == 2080
    ));
    assert!(socks5_node("203.0.113.8").socks5_config().is_some());
    assert!(l2tp_node().open().is_err());
    let mut connected = l2tp_node();
    if let NodeSpec::L2tp { runtime: known, .. } = &mut connected {
        *known = Some(runtime());
    }
    assert!(matches!(
        connected.open(),
        Ok(OpenPlan::L2tp { redial: false, .. })
    ));
    assert!(matches!(
        connected.reopen(ReopenEffort::Full),
        Ok(OpenPlan::L2tp { redial: true, .. })
    ));
    assert!(matches!(
        connected.reopen(ReopenEffort::Cheap),
        Ok(OpenPlan::L2tp { redial: false, .. })
    ));
}

#[test]
fn a_description_leaves_the_secrets_out() {
    let described = l2tp_node().describe();
    assert!(described.contains("vpn.example"), "{described}");
    assert!(!described.contains("secret"), "{described}");
    assert!(!described.contains("player"), "{described}");
}

#[test]
fn a_proxy_on_this_machine_needs_no_way_around_the_tunnel() {
    let remote = Socks5RelayPath {
        proxy: SocketAddress::over_ipv4(Ipv4::new(203, 0, 113, 8), 1080),
        control_closed: false,
    };
    assert_eq!(remote.bypass_ipv4(), Some(Ipv4::new(203, 0, 113, 8)));
    let local = Socks5RelayPath {
        proxy: SocketAddress::over_ipv4(Ipv4::new(127, 0, 0, 1), 1080),
        control_closed: true,
    };
    assert_eq!(local.bypass_ipv4(), None);
    assert_ne!(local.health_note(), remote.health_note());
    assert_eq!(local.setup_round_trips(), Some(3));
}

#[test]
fn a_direct_path_speaks_for_its_tunnel() {
    let path = DirectPath::WireGuard(Box::new(DirectWireGuardPath {
        tunnel: wireguard(3, 51820),
    }));
    assert_eq!(path.kind(), KIND_WIREGUARD);
    assert_eq!(path.address(), Ipv4::new(10, 0, 0, 2));
    assert_eq!(path.endpoint().to_text(), "127.0.0.1:51820");
    assert_eq!(path.bypass_ipv4(), Some(Ipv4::new(127, 0, 0, 1)));
}

#[test]
fn a_text_field_of_windows_reads_back() {
    let mut field = vec![0_u16; 8];
    put(&mut field, "vpn é").unwrap();
    assert_eq!(take(&field), "vpn é");
    assert!(put(&mut field, "far too long").is_err());
    assert_eq!(wide("a"), vec![97, 0]);
    assert_eq!(utf16::decode(&utf16::encode("a😀")), "a😀");
    assert_eq!(utf16::encode("😀"), vec![0xd83d, 0xde00]);
    // Half of a pair is shown as the replacement character.
    assert_eq!(utf16::decode(&[0xd83d, 97]), "\u{fffd}a");
}

#[test]
fn a_reconnected_l2tp_adapter_is_read_back() {
    assert_eq!(l2tp_mtu(None), 1384);
    assert_eq!(l2tp_mtu(Some(1300)), 1300);
    assert_eq!(redial_reason(false, true), None);
    assert_eq!(
        redial_reason(true, true),
        Some("the L2TP data plane stopped answering")
    );
    assert_eq!(
        redial_reason(false, false),
        Some("the Windows L2TP adapter is no longer active")
    );
    assert_eq!(
        redial_failed("gone", "busy"),
        "the L2TP adapter stopped working (gone); Windows could not reconnect it: busy"
    );
    assert_eq!(
        socket_failed("refused"),
        "Windows reconnected L2TP but its relay socket could not open: refused"
    );
    assert_eq!(dial_error(691), "RAS error 691");
    assert_eq!(
        projected_address(0, 0, &wide("10.0.0.9")),
        Ok(Ipv4::new(10, 0, 0, 9))
    );
    assert!(projected_address(0, 0, &wide("nowhere")).is_err());
    assert!(projected_address(1, 0, &wide("10.0.0.9")).is_err());
    assert_eq!(adapter_index(true, 0, " 42\r\n"), Ok(42));
    assert!(adapter_index(true, 0, "none").is_err());
    assert!(adapter_index(false, 0, "42").is_err());
    assert_eq!(relay_prefix(Ipv4::new(203, 0, 113, 8)), "203.0.113.8/32");
    assert!(removes_route(false, true) && !removes_route(true, true));

    let path = L2tpRelayPath {
        server: "vpn.example".into(),
        runtime: runtime(),
    };
    assert_eq!(path.endpoint(), "vpn.example");
    assert_eq!(path.kind(), KIND_L2TP);
    assert_eq!(path.bypass_ipv4(), Some(Ipv4::new(203, 0, 113, 8)));
}

#[test]
fn a_lost_adapter_is_dialled_again_and_prepared() {
    let relay = Ipv4::new(198, 51, 100, 1);
    let mut redial = Redial::new(&runtime(), relay);
    assert!(matches!(
        redial.next(RedialEvent::Dialled {
            status: 0,
            handle: true
        }),
        RedialAction::Project
    ));
    let found = redial.next(RedialEvent::Projected {
        status: 0,
        error: 0,
        address: wide("10.0.0.9"),
    });
    assert!(matches!(found, RedialAction::Run { script } if script.contains("'10.0.0.9'")));
    let sized = redial.next(RedialEvent::Ran {
        success: true,
        output: "43".into(),
        complaint: String::new(),
        elapsed: 0,
    });
    assert!(matches!(
        sized,
        RedialAction::Run { script } if script
            == "Set-NetIPInterface -AddressFamily IPv4 -InterfaceIndex 43 -NlMtuBytes 1384 -ErrorAction Stop"
    ));
    let routed = redial.next(RedialEvent::Ran {
        success: true,
        output: String::new(),
        complaint: String::new(),
        elapsed: 0,
    });
    assert!(matches!(
        routed,
        RedialAction::Run { script } if script.contains("'198.51.100.1/32'")
            && script.contains("-NextHop '0.0.0.0'")
            && script.starts_with(&unroute_script("198.51.100.1/32", 43))
    ));
    let done = redial.next(RedialEvent::Ran {
        success: true,
        output: String::new(),
        complaint: String::new(),
        elapsed: 0,
    });
    assert!(matches!(
        done,
        RedialAction::Finish { local_address, interface_index: 43, relay_prefix }
            if local_address == Ipv4::new(10, 0, 0, 9) && relay_prefix == "198.51.100.1/32"
    ));
}

#[test]
fn a_connection_that_cannot_be_used_is_hung_up() {
    let relay = Ipv4::new(198, 51, 100, 1);
    let mut refused = Redial::new(&runtime(), relay);
    assert!(matches!(
        refused.next(RedialEvent::Dialled { status: 691, handle: false }),
        RedialAction::Abandon { message, hang_up: false } if message == "RAS error 691"
    ));
    let mut stuck = Redial::new(&runtime(), relay);
    stuck.next(RedialEvent::Dialled {
        status: 0,
        handle: true,
    });
    stuck.next(RedialEvent::Projected {
        status: 0,
        error: 0,
        address: wide("10.0.0.9"),
    });
    stuck.next(RedialEvent::Ran {
        success: true,
        output: "43".into(),
        complaint: String::new(),
        elapsed: 0,
    });
    assert!(matches!(
        stuck.next(RedialEvent::Ran {
            success: false,
            output: String::new(),
            complaint: " denied\n".into(),
            elapsed: 0,
        }),
        RedialAction::Abandon { message, hang_up: true }
            if message == "Windows could not restore the L2TP MTU after reconnect: denied"
    ));
}

#[test]
fn a_path_is_opened_on_its_adapter_or_on_a_new_one() {
    let (mut opening, first) = Opening::begin(runtime(), false, true);
    assert!(matches!(first, OpenAction::OpenSocket));
    assert!(matches!(
        opening.next(OpenEvent::Socket(Err("unreachable".into()))),
        OpenAction::Redial { disconnect: false }
    ));
    assert!(matches!(
        opening.next(OpenEvent::Redialled(Ok((Ipv4::new(10, 0, 0, 9), 43)))),
        OpenAction::OpenSocket
    ));
    assert_eq!(opening.runtime.interface_index, 43);
    assert_eq!(opening.runtime.local_address, Ipv4::new(10, 0, 0, 9));
    assert_eq!(opening.runtime.mtu, 1384);
    assert!(matches!(
        opening.next(OpenEvent::Socket(Ok(()))),
        OpenAction::Open
    ));

    let (mut silent, first) = Opening::begin(runtime(), true, true);
    assert!(matches!(first, OpenAction::Redial { disconnect: true }));
    assert!(matches!(
        silent.next(OpenEvent::Redialled(Err("RAS error 691".into()))),
        OpenAction::Failed(message) if message
            == "the L2TP adapter stopped working (the L2TP data plane stopped answering); Windows could not reconnect it: RAS error 691"
    ));
}

#[test]
fn a_login_has_to_fit_its_fields() {
    let fields = login_fields(&runtime(), "player", "secret", 32, 8, 8)
        .ok()
        .unwrap();
    assert_eq!(take(&fields.entry), "GamePath-L2TP-test");
    assert_eq!(take(&fields.user), "player");
    assert_eq!(fields.password.len(), 8);
    assert_eq!(
        login_fields(&runtime(), "player", "secret", 32, 6, 8)
            .err()
            .unwrap(),
        "the L2TP login is too long"
    );
    assert_eq!(
        active_script(42, Ipv4::new(10, 0, 0, 2)),
        "if(Get-NetIPAddress -AddressFamily IPv4 -InterfaceIndex 42 -IPAddress '10.0.0.2' -ErrorAction SilentlyContinue){exit 0}else{exit 1}"
    );
}

#[test]
fn a_packet_inside_a_tunnel_is_a_plain_ipv4_datagram() {
    let (from, to) = (
        Endpoint {
            address: Ipv4::new(10, 0, 0, 2),
            port: 50_000,
        },
        RELAY,
    );
    let packet = ipv4_udp_packet(from, to, b"hi").unwrap();
    assert_eq!(packet.len(), 30);
    assert_eq!(&packet[..4], &[0x45, 0, 0, 30]);
    assert_eq!(packet[9], 17);
    assert_eq!(&packet[20..28], &[0xc3, 0x50, 0xca, 0x6d, 0, 10, 0, 0]);
    // The words of a header with its checksum add up to all ones.
    let mut sum: u32 = packet[..20]
        .chunks(2)
        .map(|word| u32::from(word[0]) * 256 + u32::from(word[1]))
        .sum();
    while sum > 0xffff {
        sum = (sum >> 16) + (sum & 0xffff);
    }
    assert_eq!(sum, 0xffff);
    let read = ipv4_udp_payload(&packet).unwrap();
    assert_eq!((read.source, read.destination), (from, to));
    assert_eq!(read.payload, b"hi".to_vec());
    assert!(ipv4_udp_payload(&packet[..29]).is_none());
    let mut fragment = packet.clone();
    fragment[6] = 0x20;
    assert!(ipv4_udp_payload(&fragment).is_none());
    assert!(ipv4_udp_packet(from, to, &vec![0; 65_508]).is_err());
}

#[test]
fn an_echo_is_answered_by_its_own_reply() {
    let (here, there) = (Ipv4::new(10, 0, 0, 2), Ipv4::new(8, 8, 8, 8));
    let request = echo_packet(here, there, 0x1234, 7, false);
    assert_eq!(request.len(), 28);
    assert_eq!(&request[24..28], &[0x12, 0x34, 0, 7]);
    assert!(!is_echo_reply(&request, there, here, 0x1234));
    let reply = echo_packet(there, here, 0x1234, 7, true);
    assert!(is_echo_reply(&reply, there, here, 0x1234));
    assert!(!is_echo_reply(&reply, there, here, 0x1235));
    assert!(!is_echo_reply(&reply, here, there, 0x1234));
    assert!(!is_echo_reply(&reply[..27], there, here, 0x1234));
}

#[test]
fn a_node_brings_the_limit_of_its_tunnel() {
    let openvpn = |line: &str| NodeSpec::OpenVpn {
        config: format!(
            "client\ndev tun\nremote vpn.example 1194 udp\nauth-user-pass\n{line}\n\
             <ca>\n-----BEGIN CERTIFICATE-----\n\
             MIIBIjCByaADAgECAgEBMAoGCCqGSM49BAMCMBIxEDAOBgNVBAMMB1Rlc3QgQ0Ew\n\
             -----END CERTIFICATE-----\n</ca>\n"
        ),
        username: Some("someone".into()),
        password: Some("secret".into()),
        label: None,
    };
    assert_eq!(openvpn("tun-mtu 1400").configured_tunnel_mtu(), Some(1400));
    // What cannot safely be configured is no limit.
    assert_eq!(openvpn("tun-mtu 9000").configured_tunnel_mtu(), None);
    assert_eq!(openvpn("dev tap").configured_tunnel_mtu(), None);
    let mut connected = l2tp_node();
    assert_eq!(connected.configured_tunnel_mtu(), None);
    if let NodeSpec::L2tp { runtime: known, .. } = &mut connected {
        *known = Some(runtime());
    }
    assert_eq!(connected.configured_tunnel_mtu(), Some(1384));
    assert_eq!(socks5_node("proxy.example").configured_tunnel_mtu(), None);
}
