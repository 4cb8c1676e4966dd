use gamepath_engine::net::{Endpoint, Ipv4};
use gamepath_engine::openvpn::config::DataCipher;
use gamepath_engine::openvpn::crypto::{DataChannel, KeyMaterial, KeySource};
use gamepath_engine::openvpn::link::Urgency;
use gamepath_engine::openvpn::session::{
    describe_refusal, read_push, write_string, Gathering, Next, Progress, Session, DRAIN,
    HANDSHAKE_TIMEOUT, PUSH_INTERVAL, READ_SLICE, SILENCE_LIMIT,
};
use gamepath_engine::openvpn::{Credentials, OpenVpnConfig, Protocol, UserSpaceOpenVpnPath};
use gamepath_engine::packet::ipv4_udp_payload;
use gamepath_engine::relay_path::OpenVpnRelayPath;
use gamepath_engine::time::Clock;

const CONFIG: &str = "client\ndev tun\nremote vpn.example 1194 udp\nauth-user-pass\n\
    <ca>\n-----BEGIN CERTIFICATE-----\n\
    MIIBIjCByaADAgECAgEBMAoGCCqGSM49BAMCMBIxEDAOBgNVBAMMB1Rlc3QgQ0Ew\n\
    -----END CERTIFICATE-----\n</ca>\n";

const NOW: Clock = Clock {
    monotonic: 10_000_000_000,
    unix_seconds: 1_700_000_000,
};

#[test]
fn a_present_string_is_length_prefixed_and_terminated() {
    let mut buffer = Vec::new();
    write_string(&mut buffer, Some("ab"));
    assert_eq!(buffer, vec![0, 3, b'a', b'b', 0]);
}

#[test]
fn an_absent_or_empty_string_is_written_as_an_empty_field() {
    let mut buffer = Vec::new();
    write_string(&mut buffer, None);
    write_string(&mut buffer, Some(""));
    assert_eq!(buffer, vec![0, 0, 0, 0]);
}

#[test]
fn a_rejected_password_is_reported_as_a_rejected_password() {
    let message = describe_refusal("AUTH_FAILED");
    assert!(
        message.contains("rejected the username and password"),
        "{message}"
    );
}

/// Servers commonly name the account they turned away, which is what tells
/// a user they mistyped it, so that detail is carried through.
#[test]
fn the_servers_own_reason_for_refusing_a_login_is_kept() {
    let message = describe_refusal("AUTH_FAILED, user primemb authentication failed");
    assert!(
        message.contains("user primemb authentication failed"),
        "{message}"
    );
}

#[test]
fn another_refusal_is_passed_through_so_nothing_is_hidden() {
    let message = describe_refusal("RESTART,connection reset");
    assert!(message.contains("RESTART,connection reset"), "{message}");
}

#[test]
fn a_push_message_is_read_setting_by_setting() {
    let pushed = read_push(
        DataCipher::Aes256Gcm,
        "route-gateway 10.8.0.1,ifconfig 10.8.0.6 255.255.255.0,peer-id 3,ping 10,cipher AES-128-GCM",
    )
    .unwrap();
    assert_eq!(pushed.address, Ipv4::new(10, 8, 0, 6));
    assert_eq!(pushed.gateway, Some(Ipv4::new(10, 8, 0, 1)));
    assert_eq!(pushed.peer_id, Some(3));
    assert_eq!(pushed.keepalive, Some(10));
    assert_eq!(pushed.cipher, DataCipher::Aes128Gcm);
}

#[test]
fn a_push_without_an_address_or_with_an_unknown_cipher_is_refused() {
    let error = read_push(DataCipher::Aes256Gcm, "peer-id 3").unwrap_err();
    assert!(error.contains("address"), "{error}");
    let error = read_push(DataCipher::Aes256Gcm, "ifconfig 10.8.0.6 x,cipher BF-CBC").unwrap_err();
    assert!(error.contains("`BF-CBC`"), "{error}");
}

fn session() -> Session {
    let config = OpenVpnConfig::parse(CONFIG).ok().unwrap();
    let credentials = Credentials {
        username: Some("someone".into()),
        password: Some("secret".into()),
    };
    Session::open(config, Protocol::Udp, credentials, NOW)
}

#[test]
fn a_session_that_never_comes_up_says_where_it_stopped() {
    let session = session();
    assert_eq!(session.protocol(), Protocol::Udp);
    assert!(session.pushed().is_none());
    let started = NOW.monotonic;
    assert!(matches!(
        session.progress(started, started + HANDSHAKE_TIMEOUT - 1),
        Progress::Waiting
    ));
    assert!(matches!(
        session.progress(started, started + HANDSHAKE_TIMEOUT),
        Progress::TimedOut(why) if why == session.timeout_reason()
    ));
}

#[test]
fn a_silent_server_is_given_up_on() {
    let session = session();
    let started = NOW.monotonic;
    assert_eq!(session.check_silence(started + SILENCE_LIMIT - 1, None), Ok(()));
    assert!(session
        .check_silence(started + SILENCE_LIMIT, Some("vpn.example:1194"))
        .is_err());
}

#[test]
fn settings_are_not_asked_for_before_the_keys_are_there() {
    let mut session = session();
    assert!(!session.request_push(NOW.monotonic + PUSH_INTERVAL * 2));
}

#[test]
fn an_empty_packet_is_an_error() {
    let mut session = session();
    assert!(session.step(&[], NOW).is_err());
    // A data packet before there are keys for it has nothing to open it with.
    let early = session.step(&[0x48, 0, 0, 0, 1, 2, 3], NOW);
    assert!(matches!(early, Ok(Next::Idle)));
    assert!(session.take_inbound().is_empty());
    assert!(session.send_inner(b"packet", NOW.monotonic).is_err());
}

/// Brings a session up by playing the server, with TLS left out: what the two
/// sides say to each other through it is handed over directly.
#[test]
fn a_session_comes_up_and_carries_packets_both_ways() {
    let mut session = session();
    let opening = session.take_outgoing().unwrap();
    let mut client_id = [0_u8; 8];
    client_id.copy_from_slice(&opening[1..9]);

    let mut reset = vec![8 << 3];
    reset.extend_from_slice(&[2; 8]);
    reset.extend_from_slice(&[0, 0, 0, 0, 0]);
    assert!(matches!(session.step(&reset, NOW), Ok(Next::BeginTls)));
    assert_eq!(session.tls_progress(&[], true), Ok(None));

    // The client's half: its random material, then what it asks for.
    let half = session.tls_progress(&[], false).unwrap().unwrap();
    assert_eq!(&half[..5], &[0, 0, 0, 0, 2]);
    let mut source = KeySource {
        pre_master: [0; 48],
        random1: [0; 32],
        random2: [0; 32],
    };
    source.pre_master.copy_from_slice(&half[5..53]);
    source.random1.copy_from_slice(&half[53..85]);
    source.random2.copy_from_slice(&half[85..117]);

    // The server's half, with an empty options string.
    let mut material = vec![0, 0, 0, 0, 2];
    material.extend_from_slice(&[5; 32]);
    material.extend_from_slice(&[6; 32]);
    material.extend_from_slice(&[0, 0]);
    assert_eq!(session.tls_progress(&material, false), Ok(None));
    assert!(session.request_push(NOW.monotonic));
    assert!(!session.request_push(NOW.monotonic + PUSH_INTERVAL - 1));
    assert!(session.request_push(NOW.monotonic + PUSH_INTERVAL));

    let reply = b"PUSH_REPLY,ifconfig 10.8.0.6 255.255.255.0,peer-id 3,ping 10\0";
    assert_eq!(session.tls_progress(reply, false), Ok(None));
    let pushed = session.pushed().unwrap();
    assert_eq!(pushed.address, Ipv4::new(10, 8, 0, 6));
    assert!(matches!(
        session.progress(NOW.monotonic, NOW.monotonic),
        Progress::Ready
    ));

    let keys = KeyMaterial::derive(&source, &[5; 32], &[6; 32], &client_id, &[2; 8]);
    let mut server = DataChannel::new(&keys, pushed.cipher, pushed.peer_id, 0)
        .ok()
        .unwrap()
        .mirrored();
    let sealed = session.send_inner(b"to the server", NOW.monotonic).unwrap();
    assert_eq!(server.open(&sealed).unwrap(), Some(b"to the server".to_vec()));
    let sealed = server.seal(b"to the client").unwrap();
    let (inner, _) = session.absorb(&sealed, NOW).ok().unwrap();
    assert_eq!(inner, Some(b"to the client".to_vec()));

    // Nothing is owed until the server's interval has passed.
    assert_eq!(session.keepalive(NOW.monotonic), Ok(None));
    let ping = session
        .keepalive(NOW.monotonic + 3_600_000_000_000)
        .unwrap()
        .unwrap();
    assert_eq!(server.open(&ping).unwrap(), None);

    let endpoint = Endpoint {
        address: Ipv4::new(203, 0, 113, 5),
        port: 1194,
    };
    let mut path = UserSpaceOpenVpnPath::established(session, endpoint, [7; 32])
        .ok_or("no tunnel")
        .ok()
        .unwrap();
    assert_eq!(path.address(), Ipv4::new(10, 8, 0, 6));
    assert_eq!(path.peer_id(), Some(3));
    assert_eq!(path.cipher(), "AES-256-GCM");
    assert!(path.conflicts_with(&path));

    // Traffic may be dropped when the link is backed up. A probe may not.
    let sent = path.send_inner(b"traffic", NOW.monotonic).ok().unwrap();
    assert_eq!(sent.urgency, Urgency::Realtime);
    assert_eq!(server.open(&sent.bytes).unwrap(), Some(b"traffic".to_vec()));
    let sent = path.send_probe(b"probe", NOW.monotonic).ok().unwrap();
    assert_eq!(sent.urgency, Urgency::Reliable);
    assert_eq!(server.open(&sent.bytes).unwrap(), Some(b"probe".to_vec()));

    // A frame for the relay travels in a datagram addressed to it.
    let relay = Endpoint {
        address: Ipv4::new(198, 51, 100, 9),
        port: 51_821,
    };
    let mut path = OpenVpnRelayPath::through(Box::new(path), relay);
    let sent = path.send_frame(b"frame", NOW.monotonic).ok().unwrap();
    assert_eq!(sent.urgency, Urgency::Realtime);
    let inner = server.open(&sent.bytes).unwrap().unwrap();
    let datagram = ipv4_udp_payload(&inner).unwrap();
    assert_eq!(datagram.destination, relay);
    assert_eq!(datagram.source, path.route().local);
    assert_eq!(datagram.payload, b"frame".to_vec());
    let sent = path.send_probe(b"ping", NOW.monotonic).ok().unwrap();
    assert_eq!(sent.urgency, Urgency::Reliable);
    let inner = server.open(&sent.bytes).unwrap().unwrap();
    assert_eq!(ipv4_udp_payload(&inner).unwrap().payload, b"ping".to_vec());
    assert!(path.send_frame(&vec![0; 65_508], NOW.monotonic).is_err());
}

#[test]
fn a_server_that_refuses_the_login_ends_the_session() {
    let mut session = session();
    let mut reset = vec![8 << 3];
    reset.extend_from_slice(&[2; 8]);
    reset.extend_from_slice(&[0, 0, 0, 0, 0]);
    session.step(&reset, NOW).ok().unwrap();
    session.tls_progress(&[], false).unwrap();
    let mut material = vec![0, 0, 0, 0, 2];
    material.extend_from_slice(&[5; 64]);
    material.extend_from_slice(&[0, 0]);
    material.extend_from_slice(b"AUTH_FAILED\0");
    let error = session.tls_progress(&material, false).unwrap_err();
    assert!(
        error.contains("rejected the username and password"),
        "{error}"
    );
}

#[test]
fn a_burst_is_taken_without_waiting_again() {
    let mut session = session();
    let started = NOW.monotonic;
    let mut gathering = Gathering::begin(&mut session, READ_SLICE + 5, started);
    assert_eq!(gathering.wait(started), Some(READ_SLICE));
    assert_eq!(gathering.wait(started + READ_SLICE), Some(5));
    assert_eq!(gathering.wait(started + READ_SLICE + 5), None);
    // An idle link, and one that brought control traffic, is read again.
    assert!(gathering.goes_on_idle());
    gathering.absorbed(None);
    assert!(gathering.goes_on_idle());
    // Once a packet is there, only what has already arrived is added to it.
    gathering.absorbed(Some(b"first".to_vec()));
    assert_eq!(gathering.wait(started + READ_SLICE + 5), Some(DRAIN));
    gathering.absorbed(Some(b"second".to_vec()));
    assert!(!gathering.goes_on_idle());
    assert_eq!(gathering.packets, vec![b"first".to_vec(), b"second".to_vec()]);
}

#[test]
fn a_message_is_taken_for_what_it_says() {
    let mut session = session();
    assert_eq!(session.handle_message("INFO,almost there"), Ok(()));
    assert_eq!(
        session.handle_message("HALT,too many sessions"),
        Err("the OpenVPN server refused the session: HALT,too many sessions".to_owned())
    );
    assert_eq!(
        session.handle_message("PUSH_REPLY,ifconfig 10.8.0.6 255.255.255.0"),
        Err("the OpenVPN server pushed its settings before its key material".to_owned())
    );
    assert!(session.pushed().is_none());
}
