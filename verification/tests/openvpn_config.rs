use gamepath_engine::net::{Endpoint, IpAddress, Ipv4, Ipv6};
use gamepath_engine::openvpn::config::{
    check_certificates, check_private_key, read_static_key, resolve, ControlAuth, DataCipher, Digest,
    KeyDirection,
};
use gamepath_engine::openvpn::{
    check_login, dial_attempts, dial_failure, dialling_failed, fingerprint, Credentials,
    OpenVpnConfig, Protocol,
};

/// A throwaway CA, so the parser's happy path can be exercised without a
/// real provider's certificate.
const CA: &str = "-----BEGIN CERTIFICATE-----\n\
    MIIBIjCByaADAgECAgEBMAoGCCqGSM49BAMCMBIxEDAOBgNVBAMMB1Rlc3QgQ0Ew\n\
    -----END CERTIFICATE-----\n";

const CONFIG: &str = "client\ndev tun\nremote vpn.example 1194 udp\nauth-user-pass\n\
    <ca>\n-----BEGIN CERTIFICATE-----\n\
    MIIBIjCByaADAgECAgEBMAoGCCqGSM49BAMCMBIxEDAOBgNVBAMMB1Rlc3QgQ0Ew\n\
    -----END CERTIFICATE-----\n</ca>\n";

fn config(body: &str) -> String {
    format!("{body}\n<ca>\n{CA}</ca>\n")
}

fn parsed(body: &str) -> OpenVpnConfig {
    OpenVpnConfig::parse(&config(body)).ok().unwrap()
}

fn refused(body: &str) -> String {
    OpenVpnConfig::parse(&config(body)).err().unwrap()
}

#[test]
fn a_remote_line_names_its_own_protocol() {
    let parsed = parsed("client\ndev tun\nremote vpn.example 1403 tcp\nauth-user-pass");
    assert_eq!(parsed.remotes.len(), 1);
    assert_eq!(parsed.remotes[0].protocol, Protocol::Tcp);
    assert_eq!(parsed.remotes[0].port, 1403);
}

#[test]
fn proto_applies_to_remotes_that_did_not_name_one() {
    let parsed = parsed(
        "remote first.example 1194\nremote second.example 443 tcp\nproto udp\nauth-user-pass",
    );
    assert_eq!(parsed.remotes[0].protocol, Protocol::Udp);
    // The explicit protocol on the second line is not overwritten.
    assert_eq!(parsed.remotes[1].protocol, Protocol::Tcp);
}

/// Providers that offer a choice of ports wrap each in a `<connection>`
/// block. The block carries no certificates of its own, so it has to be
/// read as an addition to the file rather than as a file in itself.
#[test]
fn a_connection_block_adds_a_remote_without_needing_its_own_certificates() {
    let parsed = parsed(
        "auth-user-pass
<connection>
remote vpn.example 1194 udp
</connection>
             <connection>
remote vpn.example 443 tcp
</connection>",
    );
    assert_eq!(parsed.remotes.len(), 2);
    assert_eq!(parsed.remotes[0].protocol, Protocol::Udp);
    assert_eq!(parsed.remotes[1].port, 443);
    assert_eq!(parsed.remotes[1].protocol, Protocol::Tcp);
}

#[test]
fn an_older_file_still_offers_the_ciphers_a_current_server_can_pick() {
    let parsed = parsed("remote vpn.example 1403 udp\ncipher AES-128-GCM\nauth-user-pass");
    assert_eq!(parsed.data_ciphers[0], DataCipher::Aes128Gcm);
    assert!(parsed.data_ciphers.contains(&DataCipher::Aes256Gcm));
    assert!(parsed.data_ciphers.contains(&DataCipher::ChaCha20Poly1305));
}

#[test]
fn a_configuration_with_no_way_to_authenticate_is_refused() {
    let error = refused("remote vpn.example 1403 udp");
    assert!(
        error.contains("neither `auth-user-pass` nor a client certificate"),
        "{error}"
    );
}

#[test]
fn compression_is_refused_by_name_but_a_stub_is_allowed() {
    let error = refused("remote vpn.example 1403\ncomp-lzo yes\nauth-user-pass");
    assert!(error.contains("does not compress"), "{error}");
    parsed("remote vpn.example 1403\ncomp-lzo no\nauth-user-pass");
}

#[test]
fn a_key_kept_in_a_separate_file_says_so() {
    let error = refused("remote vpn.example 1403\ntls-crypt /etc/openvpn/tc.key\nauth-user-pass");
    assert!(error.contains("self-contained"), "{error}");
}

#[test]
fn a_tap_configuration_is_refused_because_it_carries_frames_not_packets() {
    let error = refused("dev tap\nremote vpn.example 1403\nauth-user-pass");
    assert!(error.contains("`tun`"), "{error}");
}

#[test]
fn the_two_halves_of_a_static_key_are_addressed_by_direction() {
    assert_eq!(KeyDirection::Normal.indexes(), (0, 1));
    assert_eq!(KeyDirection::Inverse.indexes(), (1, 0));
    assert_eq!(KeyDirection::Bidirectional.indexes(), (0, 0));
}

#[test]
fn an_options_string_describes_the_session_the_server_is_building() {
    let parsed = parsed(
        "remote vpn.example 1403 tcp\ncipher AES-128-GCM\nauth SHA1\nauth-user-pass",
    );
    let options = parsed.options_string(Protocol::Tcp);
    assert!(options.contains("proto TCPv4_CLIENT"), "{options}");
    assert!(options.contains("cipher AES-128-GCM"), "{options}");
    assert!(options.contains("keysize 128"), "{options}");
    assert!(options.ends_with("key-method 2,tls-client"), "{options}");
}

#[test]
fn a_static_key_is_read_as_two_keys_of_cipher_then_hmac_material() {
    let hex = (0..256)
        .map(|byte| format!("{:02x}", byte as u8))
        .collect::<String>();
    let body = format!(
        "-----BEGIN OpenVPN Static key V1-----\n{hex}\n-----END OpenVPN Static key V1-----"
    );
    let key = read_static_key(&body, "tls-auth").ok().unwrap();
    assert_eq!(key.cipher(0)[0], 0);
    assert_eq!(key.hmac(0)[0], 64);
    assert_eq!(key.cipher(1)[0], 128);
    assert_eq!(key.hmac(1)[0], 192);
}

#[test]
fn the_same_configuration_and_user_is_the_same_node() {
    let credentials = Credentials {
        username: Some("someone".into()),
        password: Some("secret".into()),
    };
    assert_eq!(
        fingerprint(CONFIG, &credentials),
        fingerprint(&format!("{CONFIG}\n"), &credentials),
        "trailing whitespace does not make it a different node"
    );
}

#[test]
fn a_different_user_on_one_configuration_is_a_different_node() {
    let first = Credentials {
        username: Some("first".into()),
        password: Some("secret".into()),
    };
    let second = Credentials {
        username: Some("second".into()),
        password: Some("secret".into()),
    };
    assert_ne!(fingerprint(CONFIG, &first), fingerprint(CONFIG, &second));
}

/// Both types carry a secret and are printed by anything that reports a node.
#[test]
fn a_secret_does_not_appear_in_debug_output() {
    let credentials = Credentials {
        username: Some("someone".into()),
        password: Some("hunter2".into()),
    };
    let printed = credentials.describe();
    assert!(!printed.contains("hunter2"), "{printed}");
    assert!(printed.contains("someone"), "{printed}");

    let config = OpenVpnConfig::parse(CONFIG).ok().unwrap();
    let printed = config.describe();
    assert!(printed.contains("vpn.example"), "{printed}");
    assert!(!printed.contains("BEGIN"), "{printed}");
}

#[test]
fn a_log_shows_what_was_parsed() {
    let config = OpenVpnConfig::parse(CONFIG).ok().unwrap();
    assert_eq!(
        config.describe(),
        "OpenVpnConfig { remotes: [Remote { host: \"vpn.example\", port: 1194, protocol: Udp }], \
         certificate_authorities: 1, client_certificate: false, client_key: None, \
         control_auth: plain, data_ciphers: [Aes256Gcm, Aes128Gcm, ChaCha20Poly1305], \
         digest: Sha1, wants_credentials: true, reneg_seconds: None, tun_mtu: 1500 }"
    );
    let credentials = Credentials {
        username: Some("a \"quoted\"\nname".into()),
        password: Some("hunter2".into()),
    };
    assert_eq!(
        credentials.describe(),
        "Credentials { username: Some(\"a \\\"quoted\\\"\\nname\"), \
         password: Some(\"<redacted>\") }"
    );
    assert_eq!(
        Credentials::default().describe(),
        "Credentials { username: None, password: None }"
    );
}

#[test]
fn a_server_is_dialled_at_its_first_ipv4_address() {
    let remote = parsed("remote vpn.example 1403 tcp\nauth-user-pass").remotes.remove(0);
    let v6 = IpAddress::V6(Ipv6([0x2001, 0xdb8, 0, 0, 0, 0, 0, 1]));
    let first = Ipv4::new(203, 0, 113, 7);
    let second = IpAddress::V4(Ipv4::new(203, 0, 113, 8));
    assert_eq!(
        resolve(&remote, Ok(vec![v6, IpAddress::V4(first), second])),
        Ok(Endpoint {
            address: first,
            port: 1403
        })
    );
    assert_eq!(
        resolve(&remote, Ok(vec![v6])),
        Err("OpenVPN server vpn.example did not resolve to an IPv4 address".to_owned())
    );
    assert_eq!(
        resolve(&remote, Err("no such host".into())),
        Err("could not resolve OpenVPN server vpn.example: no such host".to_owned())
    );
}

#[test]
fn a_configuration_needing_credentials_says_so_before_dialling() {
    let config = OpenVpnConfig::parse(CONFIG).ok().unwrap();
    let Err(error) = check_login(&config, &Credentials::default()) else {
        panic!("a configuration with no credentials must not connect");
    };
    assert!(error.contains("username and password"), "{error}");
    let entered = Credentials {
        username: Some("someone".into()),
        password: None,
    };
    assert_eq!(check_login(&config, &entered), Ok(()));
}

#[test]
fn a_certificate_is_read_out_of_its_block() {
    let config = OpenVpnConfig::parse(CONFIG).ok().unwrap();
    assert_eq!(config.ca.len(), 1);
    assert_eq!(&config.ca[0][..4], &[0x30, 0x82, 0x01, 0x22]);
    assert!(config.wants_credentials);
    assert!(matches!(config.control_auth, ControlAuth::Plain));
    assert_eq!(config.digest, Digest::Sha1);
}

#[test]
fn a_udp_server_is_followed_by_its_tcp_twin() {
    let config = parsed("remote a.example 1194 udp\nremote b.example 443 tcp\nauth-user-pass");
    let attempts = dial_attempts(&config);
    let order: Vec<String> = attempts
        .iter()
        .map(|remote| format!("{} {}", remote.endpoint(), remote.protocol.as_str()))
        .collect();
    assert_eq!(
        order,
        vec!["a.example:1194 udp", "a.example:1194 tcp", "b.example:443 tcp"]
    );
    let failure = dial_failure(&attempts[1], "connection refused");
    assert_eq!(failure, "a.example:1194 over tcp: connection refused");
    assert_eq!(dialling_failed(&vec![failure.clone()]), failure);
    assert_eq!(
        dialling_failed(&Vec::new()),
        "this OpenVPN configuration has nothing to connect to"
    );
}

#[test]
fn what_is_missing_is_named() {
    let error = OpenVpnConfig::parse("auth-user-pass\n").err().unwrap();
    assert!(error.contains("remote"), "{error}");
    let error = OpenVpnConfig::parse("remote vpn.example 1194\nauth-user-pass\n")
        .err()
        .unwrap();
    assert!(error.contains("<ca>"), "{error}");
    let error = refused("remote\nauth-user-pass");
    assert!(error.contains("`remote`"), "{error}");
    let error = refused("remote vpn.example 1194\nauth-user-pass\nauth WHIRLPOOL");
    assert!(error.contains("WHIRLPOOL"), "{error}");
    let error = refused("remote vpn.example 1194\nauth-user-pass\nport");
    assert!(error.contains("`port` needs a number"), "{error}");
}

#[test]
fn a_static_key_of_another_length_is_refused() {
    assert!(read_static_key("00ff", "tls-auth").is_err());
    let none: Result<Vec<Vec<u8>>, String> = Ok(Vec::new());
    assert!(check_certificates(none, "ca").is_err());
    assert!(check_private_key(Ok(false)).is_err());
    assert_eq!(check_private_key(Ok(true)), Ok(()));
}
