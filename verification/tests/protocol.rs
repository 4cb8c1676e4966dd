use gamepath_engine::auth::SessionCrypto;
use gamepath_engine::protocol::{
    probe_reply_matches, probe_request, probe_response, DecodeError, FrameHeader, FLAG_CONTROL,
    FLAG_SERVER_TO_CLIENT, HEADER_LEN,
};

#[test]
fn a_delayed_reply_cannot_answer_the_next_probe() {
    let expired = probe_response(&probe_request(41)).unwrap();
    let current = probe_response(&probe_request(42)).unwrap();
    assert!(!probe_reply_matches(&expired, 42, true));
    assert!(!probe_reply_matches(&expired, 42, false));
    assert!(probe_reply_matches(&current, 42, false));
}

#[test]
fn legacy_peers_remain_compatible_without_downgrading_tagged_peers() {
    assert_eq!(probe_response(b"ping"), Some(b"pong".to_vec()));
    assert!(probe_reply_matches(b"pong", 42, true));
    assert!(!probe_reply_matches(b"pong", 42, false));
    for malformed in [b"pongx".as_slice(), b"pong123456789", b"ping12345678"] {
        assert!(!probe_reply_matches(malformed, 42, true));
    }
    assert_eq!(probe_response(b"pingx"), None);
    assert_eq!(probe_response(b"unknown"), None);
}

#[test]
fn encrypted_reply_matches_request_independently_of_server_sequence() {
    let crypto = SessionCrypto::new(&[7; 32], 123).ok().unwrap();
    let request_header = FrameHeader {
        flags: FLAG_CONTROL,
        client_id: [3; 16],
        session_id: 123,
        sequence: 42,
    };
    let request = crypto
        .seal_client(request_header, &probe_request(42))
        .unwrap();
    let (_, plaintext) = crypto.open_client(&request).unwrap();
    let response_header = FrameHeader {
        flags: FLAG_CONTROL | FLAG_SERVER_TO_CLIENT,
        sequence: 900,
        ..request_header
    };
    let response = crypto
        .seal_server(response_header, &probe_response(&plaintext).unwrap())
        .unwrap();
    let (header, plaintext) = crypto.open_server(&response).unwrap();
    assert_eq!(header.sequence, 900);
    assert!(probe_reply_matches(&plaintext, 42, false));
    assert!(!probe_reply_matches(&plaintext, 43, false));
}

#[test]
fn frame_header_round_trips() {
    let header = FrameHeader {
        flags: 3,
        client_id: [7; 16],
        session_id: 42,
        sequence: 9_001,
    };
    assert_eq!(FrameHeader::decode(&header.encode()), Ok(header));
}

#[test]
fn invalid_magic_is_rejected() {
    let mut bytes = FrameHeader {
        flags: 0,
        client_id: [0; 16],
        session_id: 1,
        sequence: 1,
    }
    .encode();
    bytes[0] = 0;
    assert_eq!(FrameHeader::decode(&bytes), Err(DecodeError::InvalidMagic));
}

#[test]
fn each_malformed_header_has_its_own_error() {
    let bytes = FrameHeader {
        flags: 1,
        client_id: [9; 16],
        session_id: 5,
        sequence: 6,
    }
    .encode();
    assert_eq!(
        FrameHeader::decode(&bytes[..HEADER_LEN - 1]),
        Err(DecodeError::TooShort)
    );
    let mut version = bytes;
    version[4] = 2;
    assert_eq!(
        FrameHeader::decode(&version),
        Err(DecodeError::UnsupportedVersion)
    );
    let mut length = bytes;
    length[7] = 41;
    assert_eq!(
        FrameHeader::decode(&length),
        Err(DecodeError::InvalidHeaderLength)
    );
    assert_eq!(DecodeError::TooShort.name(), "TooShort");
}

#[test]
fn a_header_has_one_layout_on_the_wire() {
    let bytes = FrameHeader {
        flags: 3,
        client_id: [7; 16],
        session_id: 0x0102_0304_0506_0708,
        sequence: 0x1112_1314_1516_1718,
    }
    .encode();
    assert_eq!(&bytes[..8], &[0x47, 0x50, 0x54, 0x48, 1, 3, 0, 40]);
    assert_eq!(&bytes[8..24], &[7; 16]);
    assert_eq!(&bytes[24..32], &[1, 2, 3, 4, 5, 6, 7, 8]);
    assert_eq!(
        &bytes[32..],
        &[0x11, 0x12, 0x13, 0x14, 0x15, 0x16, 0x17, 0x18]
    );
}
