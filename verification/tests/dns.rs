use gamepath_engine::dns::{
    query, resolver_order, verdict, ResolverVerdict, FALLBACK_RESOLVERS, HEADER_LEN,
    PROBE_HOSTNAME,
};
use gamepath_engine::net::Ipv4;

fn encoded_name(message: &[u8]) -> Vec<u8> {
    message[HEADER_LEN..message.len() - 4].to_vec()
}

#[test]
fn a_query_encodes_its_name_as_length_prefixed_labels() {
    let message = query(0xbeef, "dns.google").expect("an ordinary name encodes");
    assert_eq!(&message[0..2], &[0xbe, 0xef]);
    assert_eq!(u16::from_be_bytes([message[2], message[3]]), 0x0100);
    // Exactly one question, and nothing in the other three sections.
    assert_eq!(u16::from_be_bytes([message[4], message[5]]), 1);
    assert_eq!(&message[6..12], &[0; 6]);
    assert_eq!(encoded_name(&message), b"\x03dns\x06google\0");
    let tail = &message[message.len() - 4..];
    assert_eq!(tail, &[0, 1, 0, 1], "A/IN");
}

#[test]
fn the_probe_hostname_is_encodable() {
    assert!(query(1, PROBE_HOSTNAME).is_some());
}

#[test]
fn a_name_that_cannot_be_encoded_is_refused_rather_than_truncated() {
    assert_eq!(query(1, &"a".repeat(64)), None);
    let too_long = std::iter::repeat_n("abcdefghij", 30)
        .collect::<Vec<_>>()
        .join(".");
    assert_eq!(query(1, &too_long), None);
}

/// The whole point of the probe: an answer to *this* query.
#[test]
fn a_matching_successful_response_is_accepted() {
    let mut response = query(0x1234, PROBE_HOSTNAME).unwrap();
    response[2] = 0x81;
    response[3] = 0x80;
    assert_eq!(verdict(&response, 0x1234), ResolverVerdict::Answered);
}

/// A resolver that says NXDOMAIN is still a working resolver. Reachability
/// is the question, not whether this one name exists.
#[test]
fn a_failure_code_still_proves_the_resolver_is_alive() {
    let mut response = query(0x1234, PROBE_HOSTNAME).unwrap();
    response[2] = 0x81;
    response[3] = 0x83;
    assert_eq!(
        verdict(&response, 0x1234),
        ResolverVerdict::Refused { rcode: 3 }
    );
}

#[test]
fn a_reply_to_someone_elses_query_is_not_credited() {
    let mut response = query(0x1234, PROBE_HOSTNAME).unwrap();
    response[2] = 0x81;
    response[3] = 0x80;
    assert_eq!(verdict(&response, 0x4321), ResolverVerdict::Mismatched);
}

/// Our own query echoed back is not an answer, and neither is a runt.
#[test]
fn a_query_or_a_truncated_message_is_not_an_answer() {
    let request = query(0x1234, PROBE_HOSTNAME).unwrap();
    assert_eq!(verdict(&request, 0x1234), ResolverVerdict::Mismatched);
    assert_eq!(verdict(&[], 0x1234), ResolverVerdict::Mismatched);
    assert_eq!(verdict(&request[..8], 0x1234), ResolverVerdict::Mismatched);
}

#[test]
fn the_relay_resolver_leads_but_never_stands_alone() {
    let relay = Ipv4::new(10, 203, 0, 1);
    assert_eq!(
        resolver_order(Some(relay)),
        vec![relay, Ipv4(FALLBACK_RESOLVERS[0])]
    );
    assert_eq!(
        resolver_order(None),
        FALLBACK_RESOLVERS.map(Ipv4).to_vec()
    );
    // Never empty: handing Windows no resolver at all is the one outcome
    // that would leave the machine unable to resolve anything.
    assert!(!resolver_order(None).is_empty());
}

/// A name may take up 255 bytes on the wire and no more.
#[test]
fn the_longest_name_that_fits_is_encoded() {
    let label = "a".repeat(63);
    let longest = format!("{label}.{label}.{label}.{}", "b".repeat(61));
    assert_eq!(encoded_name(&query(1, &longest).unwrap()).len(), 255);
    assert_eq!(query(1, &format!("{longest}b")), None);
}
