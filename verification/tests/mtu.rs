use gamepath_engine::mtu::{
    configured_tunnel_mtu, normalize_link_mtu, path_overhead_bytes, relay_tun_mtu, EffectiveMtu,
    LINK_MTU, MIN_TUNNEL_MTU, OUTER_IPV4_UDP,
};
use gamepath_engine::relay_path::{
    SessionMode, KIND_L2TP, KIND_OPENVPN, KIND_SOCKS5, KIND_WIREGUARD,
};

#[test]
fn relay_over_wireguard_fits_a_1500_byte_link() {
    let mtu = EffectiveMtu::for_session(SessionMode::Relay, &["wireguard"], LINK_MTU);
    assert_eq!(mtu.overhead, 144);
    assert_eq!(mtu.mtu, 1356);
    assert!(u32::from(mtu.mtu) + u32::from(mtu.overhead) <= u32::from(LINK_MTU));
}

#[test]
fn direct_wireguard_keeps_the_relay_overlay_out_of_the_budget() {
    let mtu = EffectiveMtu::for_session(SessionMode::Direct, &["wireguard"], LINK_MTU);
    assert_eq!(mtu.overhead, 60);
    assert_eq!(mtu.mtu, 1440);
}

#[test]
fn l2tp_counts_its_outer_headers_only_once() {
    let direct = EffectiveMtu::for_session(SessionMode::Direct, &["l2tp"], LINK_MTU);
    assert_eq!(direct.overhead, 116);
    assert_eq!(direct.mtu, 1384);

    let relay = EffectiveMtu::for_session(SessionMode::Relay, &["l2tp"], LINK_MTU);
    assert_eq!(relay.overhead, 200);
    assert_eq!(relay.mtu, 1300);
}

#[test]
fn the_most_expensive_path_sets_the_session_mtu() {
    let mixed = EffectiveMtu::for_session(SessionMode::Relay, &["wireguard", "openvpn"], LINK_MTU);
    let openvpn = EffectiveMtu::for_session(SessionMode::Relay, &["openvpn"], LINK_MTU);
    assert_eq!(mixed, openvpn);
    assert!(mixed.mtu < 1356);
}

/// An OpenVPN path is sized for TCP whichever protocol its profile names,
/// because a UDP remote is retried over TCP and the `kind` string says
/// `openvpn` either way. A tunnel sized for UDP and then run over TCP puts the
/// tail of every full-size packet past the end of the link.
#[test]
fn openvpn_is_costed_for_the_stream_framing_it_can_fall_back_to() {
    // Direct mode leaves only the transport's own cost in the figure.
    let overhead = path_overhead_bytes(SessionMode::Direct, "openvpn");
    // What UDP-only accounting charged: no record length, UDP outer.
    let as_if_udp = OUTER_IPV4_UDP + 4 + 16 + 8 + 32;
    assert!(
        // A TCP header in place of the UDP one, plus the record length.
        overhead >= as_if_udp + (20 - 8) + 2,
        "an openvpn path is charged {overhead} bytes, barely more than the \
         {as_if_udp} a udp-only path costs"
    );
}

#[test]
fn mss_leaves_room_for_the_ipv4_and_tcp_headers() {
    let mtu = EffectiveMtu::for_session(SessionMode::Relay, &["wireguard"], LINK_MTU);
    assert_eq!(mtu.tcp_mss(), 1316);
    // The old fixed clamp cost 316 bytes of payload on every segment.
    assert!(mtu.tcp_mss() > 1000);
}

#[test]
fn the_relay_tun_fits_inside_every_client_transport() {
    let relay = relay_tun_mtu(LINK_MTU);
    for kind in ["wireguard", "socks5", "openvpn", "l2tp"] {
        let client = EffectiveMtu::for_session(SessionMode::Relay, &[kind], LINK_MTU);
        assert!(
            relay <= client.mtu,
            "a {kind} client cannot carry a {relay}-byte packet back"
        );
        assert!(u32::from(relay) + u32::from(client.overhead) <= u32::from(LINK_MTU));
    }
    // The old fixed 1380 did not, which is what this guards.
    assert!(relay < 1380);
}

/// The floor wins on a link that cannot hold it, and says so rather than
/// quietly handing back a tunnel under 1280.
#[test]
fn a_small_link_is_held_at_the_floor_and_flagged() {
    let mtu = EffectiveMtu::for_session(SessionMode::Relay, &["openvpn"], 1280);
    assert_eq!(mtu.mtu, MIN_TUNNEL_MTU);
    assert!(mtu.below_link_budget);
    // The cost of the floor, which is what the flag exists to let a caller
    // report: this much of every full-size packet has to fragment.
    assert!(u32::from(mtu.mtu) + u32::from(mtu.overhead) > 1280);
}

/// A link with room to spare is untouched by the floor, and is not
/// flagged as if it were constrained.
#[test]
fn a_roomy_link_keeps_its_real_budget_and_is_not_flagged() {
    let mtu = EffectiveMtu::for_session(SessionMode::Relay, &["openvpn"], LINK_MTU);
    assert!(mtu.mtu > MIN_TUNNEL_MTU);
    assert!(!mtu.below_link_budget);
    assert_eq!(
        u32::from(mtu.mtu) + u32::from(mtu.overhead),
        u32::from(LINK_MTU)
    );
}

/// Across every transport, every mode, and every link MTU the normaliser can
/// produce.
#[test]
fn no_session_is_ever_configured_below_the_floor() {
    for link in [0_u16, 576, 1000, 1280, 1400, 1492, 1500, 9000, u16::MAX] {
        for mode in [SessionMode::Relay, SessionMode::Direct] {
            for kind in ["wireguard", "openvpn", "socks5", "l2tp", "something-new"] {
                let mtu = EffectiveMtu::for_session(mode, &[kind], link);
                assert!(
                    mtu.mtu >= MIN_TUNNEL_MTU,
                    "{kind} on a {link}-byte link produced {}",
                    mtu.mtu
                );
                // A provider cap must not be able to duck under it either.
                for configured in [None, Some(0), Some(1279), Some(1280), Some(1400)] {
                    assert!(mtu.with_tunnel_limit(configured).mtu >= MIN_TUNNEL_MTU);
                }
            }
        }
    }
    assert!(relay_tun_mtu(1280) >= MIN_TUNNEL_MTU);
}

#[test]
fn a_provider_limit_can_only_reduce_the_safe_result() {
    let mtu = EffectiveMtu::for_session(SessionMode::Direct, &["wireguard"], LINK_MTU)
        .with_tunnel_limit(Some(1280));
    assert_eq!(mtu.mtu, 1280);
    assert_eq!(mtu.overhead, 60);
    assert_eq!(configured_tunnel_mtu(1279), None);
    assert_eq!(configured_tunnel_mtu(1501), None);
}

#[test]
fn the_kind_literals_match_the_transport_constants() {
    assert_eq!(KIND_WIREGUARD, "wireguard");
    assert_eq!(KIND_SOCKS5, "socks5");
    assert_eq!(KIND_L2TP, "l2tp");
    assert_eq!(KIND_OPENVPN, "openvpn");
}

#[test]
fn an_unknown_transport_is_costed_as_the_most_expensive_one() {
    assert_eq!(
        path_overhead_bytes(SessionMode::Relay, "something-new"),
        path_overhead_bytes(SessionMode::Relay, "l2tp"),
    );
}

#[test]
fn a_reported_link_is_held_between_the_floor_and_ethernet() {
    assert_eq!(normalize_link_mtu(0), 1280);
    assert_eq!(normalize_link_mtu(1400), 1400);
    assert_eq!(normalize_link_mtu(9000), 1500);
    let mtu = EffectiveMtu::for_session(SessionMode::Relay, &["wireguard"], LINK_MTU);
    assert_eq!(mtu.probe_floor(), 1280);
}
