use gamepath_engine::mtu::{EffectiveMtu, LINK_MTU};
use gamepath_engine::net::{
    is_globally_routable_ipv4, is_globally_routable_ipv6, is_loopback_text, parse_ipv4, parse_ipv6,
    Endpoint, IpAddress, Ipv4, Ipv6, SocketAddress,
};
use gamepath_engine::netutil::{
    ipv6_exposure, link_mtu_for_endpoints, pick_ipv4, warn_if_below_link_budget,
};
use gamepath_engine::relay_path::SessionMode;

fn v4(text: &str) -> Option<Ipv4> {
    parse_ipv4(&text.chars().collect::<Vec<char>>())
}

fn v6(text: &str) -> Option<Ipv6> {
    parse_ipv6(&text.chars().collect::<Vec<char>>())
}

/// Every address family the relay cannot resolve to the same machine this
/// one meant. Each of these has been seen selected by a split-mode rule:
/// `192.168.1.1:53` from the DNS rule, `224.0.0.251:5353` from an
/// application rule naming a game launcher.
#[test]
fn an_address_the_relay_cannot_reach_is_not_globally_routable() {
    for address in [
        "192.168.1.1",
        "10.0.0.1",
        "172.16.0.1",
        "127.0.0.1",
        "169.254.1.1",
        "224.0.0.251",
        "255.255.255.255",
        "0.0.0.0",
        "192.0.2.1",
        // 100.64.0.0/10, the ISP's own interior.
        "100.64.0.1",
        "100.127.255.254",
    ] {
        assert!(
            !is_globally_routable_ipv4(v4(address).unwrap()),
            "{address} was treated as reachable through the tunnel"
        );
    }
}

#[test]
fn a_public_address_is_globally_routable() {
    for address in [
        "8.8.8.8",
        "1.1.1.1",
        "153.52.92.254",
        "100.63.255.255",
        "100.128.0.1",
    ] {
        assert!(
            is_globally_routable_ipv4(v4(address).unwrap()),
            "{address} was withheld from the tunnel"
        );
    }
}

#[test]
fn only_a_globally_routable_address_counts_as_ipv6_exposure() {
    assert!(is_globally_routable_ipv6(
        v6("2606:4700:4700::1111").unwrap()
    ));
    assert!(!is_globally_routable_ipv6(Ipv6([0, 0, 0, 0, 0, 0, 0, 1])));
    assert!(!is_globally_routable_ipv6(Ipv6([0; 8])));
    assert!(!is_globally_routable_ipv6(v6("fe80::1").unwrap()));
    assert!(!is_globally_routable_ipv6(v6("fd00::1").unwrap()));
}

#[test]
fn ipv6_is_always_reported_as_uncarried() {
    let exposure = ipv6_exposure(v6("2606:4700:4700::1111"));
    assert!(!exposure.carried);
    assert!(exposure.system_has_route);
    let exposure = ipv6_exposure(None);
    assert!(!exposure.carried);
    assert!(!exposure.system_has_route);
}

#[test]
fn addresses_are_read_and_written_as_std_does() {
    for text in ["0.0.0.0", "10.203.0.2", "255.255.255.255"] {
        assert_eq!(v4(text).unwrap().to_text(), text);
    }
    for text in ["1.2.3", "1.2.3.4.5", "256.0.0.1", "01.2.3.4", "", "a.b.c.d"] {
        assert!(v4(text).is_none(), "{text}");
    }
    for text in ["::", "::1", "2001:db8::1:0:0:1", "1:2:3:4:5:6:7:8"] {
        assert_eq!(v6(text).unwrap().to_text(), text);
    }
    assert_eq!(v6("1:0:0:2:0:0:0:3").unwrap().to_text(), "1:0:0:2::3");
    assert_eq!(v6("::ffff:1.2.3.4").unwrap().to_text(), "::ffff:1.2.3.4");
    for text in ["1:2:3", ":::", "1::2::3", "12345::", "g::"] {
        assert!(v6(text).is_none(), "{text}");
    }
    assert_eq!(Ipv4::new(1, 2, 3, 4).octets(), [1, 2, 3, 4]);
}

#[test]
fn loopback_texts_are_recognised() {
    for (text, expected) in [("127.0.0.1", true), ("::1", true), ("10.0.0.1", false)] {
        let chars: Vec<char> = text.chars().collect();
        assert_eq!(is_loopback_text(&chars), expected, "{text}");
    }
}

#[test]
fn endpoints_are_written_with_their_port() {
    let endpoint = Endpoint {
        address: Ipv4::new(203, 0, 113, 8),
        port: 51821,
    };
    assert_eq!(endpoint.to_text(), "203.0.113.8:51821");
    let plain = SocketAddress::over_ipv4(Ipv4::new(127, 0, 0, 1), 80);
    assert_eq!(plain.to_text(), "127.0.0.1:80");
    let long = SocketAddress {
        ip: IpAddress::V6(Ipv6([0, 0, 0, 0, 0, 0, 0, 1])),
        port: 80,
    };
    assert_eq!(long.to_text(), "[::1]:80");
    assert_eq!(long.ipv4(), None);
    assert!(!plain.is_same(&long));
    assert!(plain.is_same(&SocketAddress::over_ipv4(Ipv4::new(127, 0, 0, 1), 80)));
}

#[test]
fn the_first_ipv4_address_of_a_relay_is_used() {
    let found = vec![
        IpAddress::V6(Ipv6([0, 0, 0, 0, 0, 0, 0, 1])),
        IpAddress::V4(Ipv4::new(203, 0, 113, 8)),
        IpAddress::V4(Ipv4::new(203, 0, 113, 9)),
    ];
    assert_eq!(pick_ipv4(&found), Ok(Ipv4::new(203, 0, 113, 8)));
    assert_eq!(
        pick_ipv4(&Vec::new()),
        Err("relay did not resolve to IPv4".to_string())
    );
}

#[test]
fn the_tightest_link_among_the_endpoints_decides() {
    assert_eq!(
        link_mtu_for_endpoints(&vec![Some(1500), None, Some(1400)]),
        1400
    );
    assert_eq!(link_mtu_for_endpoints(&vec![None]), 1500);
    let tight = EffectiveMtu::for_session(SessionMode::Relay, &["openvpn"], 1280);
    assert!(warn_if_below_link_budget(tight, 1280).unwrap().contains("1280"));
    let roomy = EffectiveMtu::for_session(SessionMode::Relay, &["openvpn"], LINK_MTU);
    assert_eq!(warn_if_below_link_budget(roomy, LINK_MTU), None);
}
