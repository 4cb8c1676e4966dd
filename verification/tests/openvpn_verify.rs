use gamepath_engine::openvpn::verify::{
    check_authorities, EmbeddedCaVerifier, NO_AUTHORITY, UNUSABLE_AUTHORITY,
};
use gamepath_engine::openvpn::OpenVpnConfig;

/// A self-signed authority that nothing was ever issued by.
const CONFIG: &str = "client\ndev tun\nremote vpn.example 1194 udp\nauth-user-pass\n\
    <ca>\n-----BEGIN CERTIFICATE-----\n\
    MIIBezCCASGgAwIBAgIULRWsggLI6Z5Dc4b6cLJaV4kZO5EwCgYIKoZIzj0EAwIw\n\
    EjEQMA4GA1UEAwwHVGVzdCBDQTAgFw0yNjExMTYwNDAyMDJaGA8yMTI2MTAyMzA0\n\
    MDIwMlowEjEQMA4GA1UEAwwHVGVzdCBDQTBZMBMGByqGSM49AgEGCCqGSM49AwEH\n\
    A0IABHo0+vKmhHZIHW6StMhtamm9mfEtLReAGYgmW8Q6qBrINlXN7NiQvhuNgR1Z\n\
    Ll0l+Q4FTQauNwytf4ZbatDIT6ujUzBRMB0GA1UdDgQWBBQxZjo5TAk4LBPMOZki\n\
    2F+LiBRoBzAfBgNVHSMEGDAWgBQxZjo5TAk4LBPMOZki2F+LiBRoBzAPBgNVHRMB\n\
    Af8EBTADAQH/MAoGCCqGSM49BAMCA0gAMEUCIElJnn/SvQ5mZOg4RTnr+WsAzZ5U\n\
    IanSjhxwwwzN+IZXAiEA5d2Sj7xboknq1Bf6V6dhVRb9PhYch6+WMumbO/EsYtQ=\n\
    -----END CERTIFICATE-----\n</ca>\n";

#[test]
fn a_block_with_no_certificate_authority_is_refused() {
    assert!(EmbeddedCaVerifier::new(Vec::new()).is_err());
}

#[test]
fn something_that_is_not_a_certificate_is_refused() {
    let error = EmbeddedCaVerifier::new(vec![vec![1, 2, 3, 4]]).err().unwrap();
    assert!(error.contains("certificate authority"), "{error}");
}

#[test]
fn every_authority_of_a_block_has_to_be_usable() {
    let ca = OpenVpnConfig::parse(CONFIG).ok().unwrap().ca;
    assert_eq!(ca.len(), 1);
    assert_eq!(ca[0].len(), 383);
    let verifier = EmbeddedCaVerifier::new(ca.clone()).ok().unwrap();
    assert_eq!(verifier.ca, ca);
    let mut mixed = ca;
    mixed.push(vec![1, 2, 3, 4]);
    assert!(EmbeddedCaVerifier::new(mixed).is_err());
}

#[test]
fn the_first_complaint_is_the_one_reported() {
    assert_eq!(check_authorities(&vec![Ok(()), Ok(())]), Ok(()));
    assert_eq!(check_authorities(&Vec::new()), Err(NO_AUTHORITY.to_owned()));
    assert_eq!(
        check_authorities(&vec![Ok(()), Err("first".into()), Err("second".into())]),
        Err(format!("{UNUSABLE_AUTHORITY}first"))
    );
}
