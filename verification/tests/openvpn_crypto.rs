use gamepath_engine::openvpn::config::{DataCipher, Digest};
use gamepath_engine::openvpn::crypto::{
    hmac, tls1_prf, tls_crypt_apply, DataChannel, KeyMaterial, KeySource, ReplayWindow, P_DATA_V1,
    P_DATA_V2,
};

#[test]
fn the_prf_matches_a_known_tls_one_vector() {
    // A short self-consistency check: the two halves of the secret drive
    // two different hashes, so a swapped half changes every byte.
    let secret = [7_u8; 48];
    let first = tls1_prf(&secret, b"seed", 48);
    let mut swapped = secret;
    swapped[0] = 8;
    let second = tls1_prf(&swapped, b"seed", 48);
    assert_eq!(first.len(), 48);
    assert_ne!(first, second);
}

#[test]
fn expansion_depends_on_both_session_ids() {
    let source = KeySource {
        pre_master: [1; 48],
        random1: [2; 32],
        random2: [3; 32],
    };
    let first = KeyMaterial::derive(&source, &[4; 32], &[5; 32], &[6; 8], &[7; 8]);
    let second = KeyMaterial::derive(&source, &[4; 32], &[5; 32], &[6; 8], &[8; 8]);
    assert_ne!(first.0, second.0);
}

#[test]
fn the_two_directions_of_a_data_channel_use_different_keys() {
    let material = KeyMaterial::derive(
        &KeySource {
            pre_master: [1; 48],
            random1: [2; 32],
            random2: [3; 32],
        },
        &[4; 32],
        &[5; 32],
        &[6; 8],
        &[7; 8],
    );
    assert_ne!(material.cipher_key(0, 32), material.cipher_key(1, 32));
    assert_ne!(material.implicit_iv(0), material.implicit_iv(1));
}

/// The two ends of one tunnel are mirror images, so sealing with the send
/// key and opening with the receive key only round trips if the mapping is
/// swapped -- which is what a peer would do.
fn peer_of(material: &KeyMaterial, cipher: DataCipher, peer_id: Option<u32>) -> DataChannel {
    DataChannel::new(material, cipher, peer_id, 0)
        .ok()
        .unwrap()
        .mirrored()
}

fn channel(material: &KeyMaterial, cipher: DataCipher, peer_id: Option<u32>) -> DataChannel {
    DataChannel::new(material, cipher, peer_id, 0).ok().unwrap()
}

#[test]
fn a_data_packet_round_trips_between_two_ends() {
    for cipher in [
        DataCipher::Aes128Gcm,
        DataCipher::Aes256Gcm,
        DataCipher::ChaCha20Poly1305,
    ] {
        let material = KeyMaterial::derive(
            &KeySource {
                pre_master: [9; 48],
                random1: [8; 32],
                random2: [7; 32],
            },
            &[6; 32],
            &[5; 32],
            &[4; 8],
            &[3; 8],
        );
        let mut client = channel(&material, cipher, Some(42));
        let mut server = peer_of(&material, cipher, Some(42));
        let sealed = client.seal(b"an inner packet").unwrap();
        assert_eq!(sealed[0] >> 3, P_DATA_V2);
        assert_eq!(
            server.open(&sealed).unwrap(),
            Some(b"an inner packet".to_vec())
        );
    }
}

#[test]
fn a_session_without_a_peer_id_uses_the_older_data_header() {
    let material = KeyMaterial::derive(
        &KeySource {
            pre_master: [9; 48],
            random1: [8; 32],
            random2: [7; 32],
        },
        &[6; 32],
        &[5; 32],
        &[4; 8],
        &[3; 8],
    );
    let mut client = channel(&material, DataCipher::Aes256Gcm, None);
    let mut server = peer_of(&material, DataCipher::Aes256Gcm, None);
    let sealed = client.seal(b"payload").unwrap();
    assert_eq!(sealed[0] >> 3, P_DATA_V1);
    assert_eq!(server.open(&sealed).unwrap(), Some(b"payload".to_vec()));
}

fn plain_material() -> KeyMaterial {
    KeyMaterial::derive(
        &KeySource {
            pre_master: [1; 48],
            random1: [1; 32],
            random2: [1; 32],
        },
        &[1; 32],
        &[1; 32],
        &[1; 8],
        &[2; 8],
    )
}

#[test]
fn a_keepalive_is_swallowed_rather_than_passed_on() {
    let material = plain_material();
    let mut client = channel(&material, DataCipher::Aes256Gcm, Some(1));
    let mut server = peer_of(&material, DataCipher::Aes256Gcm, Some(1));
    let sealed = client.keepalive().unwrap();
    assert_eq!(server.open(&sealed).unwrap(), None);
}

#[test]
fn tampering_with_the_header_breaks_authentication() {
    let material = plain_material();
    let mut client = channel(&material, DataCipher::Aes256Gcm, Some(7));
    let mut server = peer_of(&material, DataCipher::Aes256Gcm, Some(7));
    let mut sealed = client.seal(b"payload").unwrap();
    // The peer id lives in the header, which is covered as associated data.
    sealed[3] ^= 0x01;
    assert!(server.open(&sealed).is_err());
}

#[test]
fn a_replayed_packet_is_dropped_but_a_reordered_one_is_not() {
    let mut window = ReplayWindow::new();
    assert!(window.accept(1));
    assert!(window.accept(5));
    assert!(window.accept(3), "a late packet is still new");
    assert!(!window.accept(3), "the same packet twice is a replay");
    assert!(!window.accept(0), "packet id zero is never valid");
    assert!(window.accept(1000));
    assert!(
        !window.accept(5),
        "a packet far behind the window is dropped"
    );
}

#[test]
fn a_sealed_packet_opens_once() {
    let material = plain_material();
    let mut client = channel(&material, DataCipher::ChaCha20Poly1305, Some(7));
    let mut server = peer_of(&material, DataCipher::ChaCha20Poly1305, Some(7));
    let sealed = client.seal(b"payload").unwrap();
    // The header, the packet id, the tag and the packet.
    assert_eq!(sealed.len(), 4 + 4 + 16 + 7);
    assert_eq!(&sealed[1..4], &[0, 0, 7]);
    assert_eq!(&sealed[4..8], &[0, 0, 0, 1]);
    assert_eq!(server.open(&sealed).unwrap(), Some(b"payload".to_vec()));
    assert_eq!(server.open(&sealed).unwrap(), None);
}

#[test]
fn a_truncated_data_packet_is_an_error() {
    let material = plain_material();
    let mut server = channel(&material, DataCipher::Aes256Gcm, Some(7));
    assert!(server.open(&[]).is_err());
    assert!(server.open(&[P_DATA_V2 << 3, 0, 0, 7, 0, 0]).is_err());
    assert_eq!(server.key_id(), 0);
}

#[test]
fn each_digest_signs_as_it_is_documented_to() {
    let key = [0x0b; 20];
    assert_eq!(
        hmac(Digest::Sha1, &key, &[b"Hi ", b"There"])[..4],
        [0xb6, 0x17, 0x31, 0x86]
    );
    assert_eq!(
        hmac(Digest::Sha256, &key, &[b"Hi There"])[..4],
        [0xb0, 0x34, 0x4c, 0x61]
    );
    assert_eq!(
        hmac(Digest::Sha512, &key, &[b"Hi There"])[..4],
        [0x87, 0xaa, 0x7c, 0xde]
    );
}

#[test]
fn applying_a_key_stream_twice_gives_the_payload_back() {
    let mut payload = b"control body".to_vec();
    tls_crypt_apply(&[3; 32], &[9; 32], &mut payload);
    assert_ne!(payload, b"control body".to_vec());
    tls_crypt_apply(&[3; 32], &[9; 32], &mut payload);
    assert_eq!(payload, b"control body".to_vec());
}

#[test]
fn a_fresh_key_source_is_not_a_repeated_one() {
    let first = KeySource::random();
    let second = KeySource::random();
    assert_ne!(first.pre_master, second.pre_master);
    assert_ne!(first.random1, first.random2);
}

#[test]
fn a_changed_packet_costs_nothing() {
    for cipher in [
        DataCipher::Aes128Gcm,
        DataCipher::Aes256Gcm,
        DataCipher::ChaCha20Poly1305,
    ] {
        let material = plain_material();
        let mut client = channel(&material, cipher, Some(7));
        let mut server = peer_of(&material, cipher, Some(7));
        let sealed = client.seal(b"an inner packet").unwrap();
        let mut changed = sealed.clone();
        changed[3] ^= 1;
        assert!(server.open(&changed).is_err());
        assert_eq!(
            server.open(&sealed).unwrap(),
            Some(b"an inner packet".to_vec())
        );
        assert_eq!(server.open(&sealed).unwrap(), None);
    }
}
