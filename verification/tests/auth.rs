use gamepath_engine::auth::{client_id_text, EnrollmentToken, SessionCrypto};
use gamepath_engine::net::{parse_ipv4, Ipv4};
use gamepath_engine::protocol::FrameHeader;
use serde_json::Value;

fn json_of(token: &EnrollmentToken) -> Vec<u8> {
    let mut fields = serde_json::Map::new();
    fields.insert("version".to_string(), Value::from(token.version));
    fields.insert(
        "clientId".to_string(),
        Value::from(token.client_id.as_str()),
    );
    fields.insert(
        "preSharedKey".to_string(),
        Value::from(token.pre_shared_key.as_str()),
    );
    fields.insert(
        "virtualIpv4".to_string(),
        Value::from(token.virtual_ipv4.to_text()),
    );
    serde_json::to_vec(&Value::Object(fields)).unwrap()
}

fn token_of(payload: &[u8]) -> Option<EnrollmentToken> {
    let value: Value = serde_json::from_slice(payload).ok()?;
    let address: Vec<char> = value.get("virtualIpv4")?.as_str()?.chars().collect();
    Some(EnrollmentToken {
        version: u8::try_from(value.get("version")?.as_u64()?).ok()?,
        client_id: value.get("clientId")?.as_str()?.to_string(),
        pre_shared_key: value.get("preSharedKey")?.as_str()?.to_string(),
        virtual_ipv4: parse_ipv4(&address)?,
    })
}

#[test]
fn enrollment_round_trips() {
    let token = EnrollmentToken::generate(Ipv4::new(10, 203, 0, 2));
    let text = EnrollmentToken::encode_payload(&json_of(&token));
    let payload = EnrollmentToken::decode_payload(&text).unwrap();
    assert_eq!(
        EnrollmentToken::decode(token_of(&payload)).unwrap(),
        token
    );
}

#[test]
fn authenticated_frame_round_trips_and_rejects_changes() {
    let token = EnrollmentToken::generate(Ipv4::new(10, 203, 0, 2));
    let (client_id, key) = token.material().unwrap();
    let crypto = SessionCrypto::new(&key, 88).ok().unwrap();
    let header = FrameHeader {
        flags: 0,
        client_id,
        session_id: 88,
        sequence: 7,
    };
    let frame = crypto.seal_client(header, b"packet").unwrap();
    assert_eq!(
        crypto.open_client(&frame).unwrap(),
        (header, b"packet".to_vec())
    );
    let mut changed = frame;
    *changed.last_mut().unwrap() ^= 1;
    assert!(crypto.open_client(&changed).is_err());
}

#[test]
fn a_frame_of_one_direction_does_not_open_in_the_other() {
    let crypto = SessionCrypto::new(&[7; 32], 9).ok().unwrap();
    let header = FrameHeader {
        flags: 0,
        client_id: [1; 16],
        session_id: 9,
        sequence: 1,
    };
    let up = crypto.seal_client(header, b"packet").unwrap();
    let down = crypto.seal_server(header, b"packet").unwrap();
    assert_ne!(up, down);
    assert!(crypto.open_server(&up).is_err());
    assert!(crypto.open_client(&down).is_err());
    // The header, the packet and the tag.
    assert_eq!(up.len(), 40 + 6 + 16);
    assert_eq!(&up[..40], &header.encode());
    assert_ne!(&up[40..46], b"packet");
}

#[test]
fn another_session_derives_other_keys() {
    let header = FrameHeader {
        flags: 0,
        client_id: [1; 16],
        session_id: 9,
        sequence: 1,
    };
    let first = SessionCrypto::new(&[7; 32], 9).ok().unwrap();
    let second = SessionCrypto::new(&[7; 32], 10).ok().unwrap();
    let frame = first.seal_client(header, b"packet").unwrap();
    assert!(second.open_client(&frame).is_err());
}

#[test]
fn a_short_frame_is_an_error() {
    let crypto = SessionCrypto::new(&[7; 32], 9).ok().unwrap();
    assert!(crypto.open_client(&[0; 20]).is_err());
    assert!(crypto.open_server(&[]).is_err());
}

#[test]
fn each_malformed_token_is_told_apart() {
    let prefix = EnrollmentToken::decode_payload("token").unwrap_err();
    assert_eq!(prefix, "invalid GamePath enrollment token prefix");
    let encoding = EnrollmentToken::decode_payload("gpe1_!!!").unwrap_err();
    assert_eq!(encoding, "invalid GamePath enrollment token encoding");
    assert_eq!(
        EnrollmentToken::decode(None).unwrap_err(),
        "invalid GamePath enrollment token payload"
    );
    let good = EnrollmentToken::with_material([1; 16], [2; 32], Ipv4::new(10, 203, 0, 2));
    let version = EnrollmentToken {
        version: 2,
        ..good.clone()
    };
    assert_eq!(
        EnrollmentToken::decode(Some(version)).unwrap_err(),
        "unsupported GamePath enrollment version"
    );
    let id = EnrollmentToken {
        client_id: "*".to_string(),
        ..good.clone()
    };
    assert_eq!(id.material().unwrap_err(), "invalid enrollment client ID");
    let key = EnrollmentToken {
        pre_shared_key: "*".to_string(),
        ..good.clone()
    };
    assert_eq!(
        key.material().unwrap_err(),
        "invalid enrollment pre-shared key"
    );
    let id_size = EnrollmentToken {
        client_id: good.pre_shared_key.clone(),
        ..good.clone()
    };
    assert_eq!(
        id_size.material().unwrap_err(),
        "client ID must be 16 bytes"
    );
    let key_size = EnrollmentToken {
        pre_shared_key: good.client_id.clone(),
        ..good.clone()
    };
    assert_eq!(
        key_size.material().unwrap_err(),
        "pre-shared key must be 32 bytes"
    );
    assert_eq!(good.material().unwrap(), ([1; 16], [2; 32]));
}

#[test]
fn a_token_is_read_with_white_space_around_it() {
    let text = EnrollmentToken::encode_payload(b"hello");
    assert_eq!(text, "gpe1_aGVsbG8");
    assert_eq!(
        EnrollmentToken::decode_payload("  gpe1_aGVsbG8\n").unwrap(),
        b"hello".to_vec()
    );
}

#[test]
fn a_client_id_is_shown_in_url_safe_base64() {
    assert_eq!(client_id_text(&[0xff; 16]), "_____________________w");
}

#[test]
fn two_tokens_are_never_the_same() {
    let address = Ipv4::new(10, 203, 0, 2);
    assert_ne!(
        EnrollmentToken::generate(address),
        EnrollmentToken::generate(address)
    );
}
