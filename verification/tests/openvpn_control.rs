use gamepath_engine::openvpn::config::{ControlAuth, KeyDirection};
use gamepath_engine::openvpn::control::{
    is_data, opcode_of, ControlChannel, Received, MAX_CONTROL_PAYLOAD, P_ACK_V1,
    P_CONTROL_HARD_RESET_CLIENT_V2, P_CONTROL_V1, P_DATA_V1, P_DATA_V2, RETRANSMIT_AFTER,
};
use gamepath_engine::openvpn::OpenVpnConfig;
use gamepath_engine::time::Clock;

const NOW: Clock = Clock {
    monotonic: 10_000_000_000,
    unix_seconds: 1_700_000_000,
};

/// A pair of channels wired to each other's key direction, standing in for
/// a client and a server.
fn pair(auth: &ControlAuth) -> (ControlChannel, ControlChannel) {
    (ControlChannel::new(auth), ControlChannel::new(auth))
}

fn static_key_config(tag: &str, direction: Option<u8>) -> ControlAuth {
    let hex = (0..256)
        .map(|byte| format!("{:02x}", (byte * 7 % 251) as u8))
        .collect::<String>();
    let direction_line = direction
        .map(|value| format!("key-direction {value}\n"))
        .unwrap_or_default();
    let source = format!(
        "remote vpn.example 1194\nauth-user-pass\nauth SHA256\n{direction_line}\
         <ca>\n-----BEGIN CERTIFICATE-----\nMIIBIjCByaADAgECAgEBMAoGCCqGSM49BAMCMBIxEDAOBgNVBAMMB1Rlc3QgQ0Ew\n-----END CERTIFICATE-----\n</ca>\n\
         <{tag}>\n-----BEGIN OpenVPN Static key V1-----\n{hex}\n-----END OpenVPN Static key V1-----\n</{tag}>\n"
    );
    OpenVpnConfig::parse(&source).ok().unwrap().control_auth
}

#[test]
fn a_hard_reset_carries_no_acknowledgements_and_packet_id_zero() {
    let mut channel = ControlChannel::new(&ControlAuth::Plain);
    channel.start(NOW);
    let packet = channel.take_outgoing().unwrap();
    assert_eq!(packet.len(), 14, "opcode, session id, empty ack list, id");
    assert_eq!(packet[0] >> 3, P_CONTROL_HARD_RESET_CLIENT_V2);
    assert_eq!(packet[9], 0, "no acknowledgements yet");
    assert_eq!(&packet[10..14], &0_u32.to_be_bytes());
}

#[test]
fn tls_bytes_are_split_across_packets_that_fit_a_reduced_path() {
    let mut channel = ControlChannel::new(&ControlAuth::Plain);
    channel.start(NOW);
    channel.take_outgoing().unwrap();
    channel.send_tls(&vec![0_u8; MAX_CONTROL_PAYLOAD * 2 + 1], NOW);
    let mut packets = Vec::new();
    while let Some(packet) = channel.take_outgoing() {
        packets.push(packet);
    }
    assert_eq!(packets.len(), 3);
    for packet in &packets[..2] {
        assert!(packet.len() <= MAX_CONTROL_PAYLOAD + 14);
    }
}

/// The reliability layer is exercised by moving packets between two
/// channels by hand, which is the only way to see reordering and loss
/// without a network.
fn deliver(from: &mut ControlChannel, to: &mut ControlChannel) -> Vec<Received> {
    let mut results = Vec::new();
    while let Some(packet) = from.take_outgoing() {
        results.push(to.receive(&packet, NOW.unix_seconds).unwrap());
    }
    results
}

#[test]
fn payloads_are_delivered_in_order_even_when_packets_are_not() {
    let (mut client, mut server) = pair(&ControlAuth::Plain);
    client.start(NOW);
    // The server has to learn the client's session id before it can
    // acknowledge, which the reset does.
    deliver(&mut client, &mut server);
    server.start(NOW);
    deliver(&mut server, &mut client);

    client.send_tls(b"first", NOW);
    client.send_tls(b"second", NOW);
    let mut packets = Vec::new();
    while let Some(packet) = client.take_outgoing() {
        packets.push(packet);
    }
    packets.reverse();
    let mut delivered = Vec::new();
    for packet in packets {
        if let Received::Payload(payload) = server.receive(&packet, NOW.unix_seconds).unwrap() {
            delivered.extend_from_slice(&payload);
        }
    }
    assert_eq!(delivered, b"firstsecond".to_vec());
}

#[test]
fn an_unacknowledged_packet_is_sent_again() {
    let mut channel = ControlChannel::new(&ControlAuth::Plain);
    channel.start(NOW);
    let first = channel.take_outgoing().unwrap();
    assert!(channel.take_outgoing().is_none());
    channel.resend_stale(NOW.monotonic + RETRANSMIT_AFTER);
    assert_eq!(channel.take_outgoing().unwrap(), first);
}

#[test]
fn an_acknowledged_packet_is_not_sent_again() {
    let (mut client, mut server) = pair(&ControlAuth::Plain);
    client.start(NOW);
    deliver(&mut client, &mut server);
    server.start(NOW);
    deliver(&mut server, &mut client);
    // Receiving the server's reset queues an acknowledgement of it, which
    // is not a retransmission and has to be taken off first.
    while client.take_outgoing().is_some() {}
    client.resend_stale(NOW.monotonic + RETRANSMIT_AFTER * 2);
    assert!(
        client.take_outgoing().is_none(),
        "nothing is outstanding once the peer has acknowledged it"
    );
}

#[test]
fn tls_crypt_hides_the_body_and_detects_a_wrong_key() {
    let auth = static_key_config("tls-crypt", None);
    let mut client = ControlChannel::new(&auth);
    client.start(NOW);
    client.send_tls(b"handshake bytes", NOW);
    client.take_outgoing().unwrap();
    let packet = client.take_outgoing().unwrap();
    assert!(
        !packet
            .windows(15)
            .any(|window| window == b"handshake bytes"),
        "the payload must not appear in the clear"
    );
    // A client reading its own packet uses the other key, which must fail.
    let mut same_side = ControlChannel::new(&auth);
    let error = same_side.receive(&packet, NOW.unix_seconds).unwrap_err();
    assert!(error.contains("tls-crypt"), "{error}");
}

#[test]
fn tls_auth_signs_the_packet_and_rejects_a_forgery() {
    let auth = static_key_config("tls-auth", Some(1));
    let mut client = ControlChannel::new(&auth);
    client.start(NOW);
    let mut packet = client.take_outgoing().unwrap();
    // A server holds the mirror image of the client's direction, so
    // verifying with the same side's keys must fail.
    let mirrored = match &auth {
        ControlAuth::TlsAuth { key, digest, .. } => ControlAuth::TlsAuth {
            key: key.clone(),
            direction: KeyDirection::Normal,
            digest: *digest,
        },
        _ => unreachable!("built as tls-auth"),
    };
    let mut server = ControlChannel::new(&mirrored);
    assert!(server.receive(&packet, NOW.unix_seconds).is_ok());
    let last = packet.len() - 1;
    packet[last] ^= 0xff;
    let mut server = ControlChannel::new(&mirrored);
    let error = server.receive(&packet, NOW.unix_seconds).unwrap_err();
    assert!(error.contains("tls-auth"), "{error}");
}

#[test]
fn a_soft_reset_reports_the_key_id_the_server_wants_to_move_to() {
    let (mut client, mut server) = pair(&ControlAuth::Plain);
    client.start(NOW);
    deliver(&mut client, &mut server);
    // The acknowledgement the server queued for the client's reset would
    // otherwise be the next packet off the queue.
    while server.take_outgoing().is_some() {}
    server.rekey(1);
    server.restart(NOW);
    let packet = server.take_outgoing().unwrap();
    match client.receive(&packet, NOW.unix_seconds).unwrap() {
        Received::SoftReset { key_id } => assert_eq!(key_id, 1),
        _ => panic!("expected a soft reset"),
    }
}

#[test]
fn a_truncated_packet_is_an_error_rather_than_a_panic() {
    let mut channel = ControlChannel::new(&ControlAuth::Plain);
    assert!(channel.receive(&[], NOW.unix_seconds).is_err());
    assert!(channel.receive(&[0x20, 1, 2], NOW.unix_seconds).is_err());
    assert!(channel
        .receive(&[0x20, 1, 2, 3, 4, 5, 6, 7, 8], NOW.unix_seconds)
        .is_err());
}

#[test]
fn a_packet_delivered_twice_is_read_once() {
    let mut client = ControlChannel::with_session_id(&ControlAuth::Plain, [1; 8]);
    let mut server = ControlChannel::with_session_id(&ControlAuth::Plain, [2; 8]);
    assert_eq!(client.session_id(), [1; 8]);
    client.start(NOW);
    deliver(&mut client, &mut server);
    assert_eq!(server.remote_session_id(), Some([1; 8]));
    client.send_tls(b"once", NOW);
    let packet = client.take_outgoing().unwrap();
    assert_eq!(packet[0] >> 3, P_CONTROL_V1);
    let first = server.receive(&packet, NOW.unix_seconds).unwrap();
    assert!(matches!(first, Received::Payload(bytes) if bytes == b"once".to_vec()));
    let second = server.receive(&packet, NOW.unix_seconds).unwrap();
    assert!(matches!(second, Received::Nothing));
}

#[test]
fn two_ends_of_a_tls_auth_tunnel_read_each_other() {
    let auth = static_key_config("tls-auth", Some(1));
    let mirrored = match &auth {
        ControlAuth::TlsAuth { key, digest, .. } => ControlAuth::TlsAuth {
            key: key.clone(),
            direction: KeyDirection::Normal,
            digest: *digest,
        },
        _ => unreachable!("built as tls-auth"),
    };
    let mut client = ControlChannel::new(&auth);
    let mut server = ControlChannel::new(&mirrored);
    client.start(NOW);
    deliver(&mut client, &mut server);
    client.send_tls(b"hello", NOW);
    let heard = deliver(&mut client, &mut server);
    assert!(matches!(&heard[0], Received::Payload(bytes) if bytes == b"hello"));
}

#[test]
fn data_packets_are_told_from_control_packets() {
    assert!(is_data(P_DATA_V1) && is_data(P_DATA_V2));
    assert!(!is_data(P_CONTROL_V1));
    assert_eq!(opcode_of(&[]), None);
    assert_eq!(opcode_of(&[P_CONTROL_V1 << 3 | 2]), Some(P_CONTROL_V1));
}

#[test]
fn packets_are_numbered_from_zero_and_acknowledgements_take_no_number() {
    let (mut client, mut server) = pair(&ControlAuth::Plain);
    client.start(NOW);
    server.send_tls(b"one", NOW);
    let arrived = server.take_outgoing().unwrap();
    client.receive(&arrived, NOW.unix_seconds).ok().unwrap();
    client.send_tls(b"two", NOW);
    client.send_tls(b"three", NOW);
    let mut ids = Vec::new();
    while let Some(packet) = client.take_outgoing() {
        assert_eq!(packet[1..9], client.session_id());
        if packet[0] >> 3 == P_ACK_V1 {
            continue;
        }
        // The list of acknowledgements, and the session they name, come first.
        let acks = usize::from(packet[9]);
        let at = 10 + 4 * acks + if acks > 0 { 8 } else { 0 };
        ids.push(packet[at..at + 4].to_vec());
    }
    assert_eq!(ids, [[0, 0, 0, 0], [0, 0, 0, 1], [0, 0, 0, 2]]);
}

#[test]
fn a_built_packet_begins_with_its_opcode_and_session() {
    for auth in [
        ControlAuth::Plain,
        static_key_config("tls-auth", Some(1)),
        static_key_config("tls-crypt", None),
    ] {
        let mut channel = ControlChannel::with_session_id(&auth, [7; 8]);
        channel.rekey(3);
        for (opcode, id) in [(P_CONTROL_V1, Some(0)), (P_ACK_V1, None), (P_CONTROL_V1, Some(1))] {
            let (packet, packet_id) = channel.wrap(opcode, b"payload", NOW.unix_seconds);
            assert_eq!(packet_id, id);
            assert_eq!(packet[0], (opcode << 3) | 3);
            assert_eq!(packet[1..9], [7; 8]);
        }
        channel.rekey(4);
        assert_eq!(channel.wrap(P_CONTROL_V1, b"", NOW.unix_seconds).1, Some(0));
    }
}
