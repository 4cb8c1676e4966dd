//! The one-shot commands: everything the service can ask the engine that
//! neither starts nor inspects a running session.

use vstd::prelude::*;

use crate::auth;
use crate::auth::{EnrollmentToken, SessionCrypto, CLIENT_TO_SERVER_NONCE};
use crate::bytes;
use crate::dns;
use crate::net::{IpAddress, Ipv4};
use crate::packet;
use crate::policy;
use crate::policy::{InterceptionPlan, RuleSpec};
use crate::protocol;
use crate::protocol::{FrameHeader, HeaderModel, FLAG_CONTROL, FLAG_SERVER_TO_CLIENT};
use crate::relay_path::{FrameRoute, SessionMode};
use crate::session::state;
use crate::text;

verus! {

pub const NO_ROUTES: &'static str = "at least one active WireGuard route is required";

pub const NO_RELAY: &'static str = "a relay host and port are required";

pub const TOO_FEW_CONFIGS: &'static str = "at least two WireGuard configurations are required";

pub const UNEXPECTED_ADDRESS: &'static str = "relay probe came from an unexpected address";

pub const INVALID_PROBE: &'static str = "relay returned an invalid authenticated probe";

pub const NOT_UDP: &'static str = "WireGuard path returned a non-UDP packet";

pub const UNEXPECTED_FLOW: &'static str = "WireGuard path returned an unexpected UDP flow";

pub const INVALID_ROUTE_PROBE: &'static str =
    "WireGuard path returned an invalid authenticated relay response";

pub const PROXY_ANSWERS_DNS: &'static str =
    "this proxy answers DNS from its own resolver and does not forward UDP anywhere else, so it cannot carry GamePath traffic. Testing it with a DNS query always succeeds and proves nothing. If it chains to another proxy, that one has to support UDP ASSOCIATE too: a TCP-only upstream refuses with code 7 while this proxy still grants the association here, so the failure is invisible from outside. Check the client's own log for that refusal. When the provider's proxy is TCP-only, use a WireGuard configuration from them instead.";

/// A request to plan a session.
pub struct PrepareRequest {
    pub route_ids: Vec<String>,
    pub traffic_mode: String,
    pub rules: Vec<RuleSpec>,
    pub mode: SessionMode,
    /// A direct session has no relay, so these carry nothing there.
    pub relay_host: String,
    pub relay_port: u16,
}

/// A planned session.
pub struct SessionPlan {
    pub mode: &'static str,
    pub route_count: usize,
    pub interception: InterceptionPlan,
    /// The client's id and address, where there is a relay to show them to.
    pub client: Option<(String, Ipv4)>,
}

/// What is wrong with a request before its enrollment is looked at.
pub open spec fn request_fault(request: PrepareRequest) -> Option<Seq<char>> {
    if request.route_ids@.len() == 0 {
        Some(NO_ROUTES@)
    } else {
        match policy::compiled(request.traffic_mode@, policy::rule_models(request.rules@)) {
            Err(why) => Some(why),
            Ok(_) => if request.mode == SessionMode::Relay && (text::trimmed(
                request.relay_host@,
            ).len() == 0 || request.relay_port == 0) {
                Some(NO_RELAY@)
            } else {
                None
            },
        }
    }
}

/// Plans a session. `token` is what the request's enrollment reads as; a direct
/// session has no relay to address and no enrollment to prove, so only the
/// capture policy is planned for it and the token is not looked at.
pub fn prepare_session(request: &PrepareRequest, token: Result<EnrollmentToken, String>) -> (r:
    Result<SessionPlan, String>)
    ensures
        match request_fault(*request) {
            Some(why) => r matches Err(message) && message@ == why,
            None => match request.mode {
                SessionMode::Direct => r matches Ok(plan) && plan.client is None,
                SessionMode::Relay => match token {
                    Err(error) => r == Err::<SessionPlan, String>(error),
                    Ok(token) => match auth::token_material(
                        token.version,
                        token.client_id@,
                        token.pre_shared_key@,
                    ) {
                        Err(why) => r matches Err(message) && message@ == why,
                        Ok((id, _)) => {
                            &&& r matches Ok(plan)
                            &&& plan.client matches Some((client, address))
                            &&& client@ == auth::base64_text(id)
                            &&& address == token.virtual_ipv4
                        },
                    },
                },
            },
        },
        r matches Ok(plan) ==> {
            &&& plan.mode@ == request.mode.word()
            &&& plan.route_count == request.route_ids@.len()
            &&& policy::compiled(request.traffic_mode@, policy::rule_models(request.rules@))
                == Ok::<policy::PlanModel, Seq<char>>(plan.interception@)
        },
{
    if request.route_ids.len() == 0 {
        return Err(NO_ROUTES.to_owned());
    }
    let interception = match policy::compile(
        request.traffic_mode.as_str(),
        request.rules.as_slice(),
    ) {
        Ok(plan) => plan,
        Err(message) => return Err(message),
    };
    let client = match request.mode {
        SessionMode::Direct => None,
        SessionMode::Relay => {
            let host = text::chars(request.relay_host.as_str());
            if text::trim(host.as_slice()).len() == 0 || request.relay_port == 0 {
                return Err(NO_RELAY.to_owned());
            }
            let token = match token {
                Ok(token) => token,
                Err(message) => return Err(message),
            };
            match token.material() {
                Ok((id, _)) => Some((auth::client_id_text(&id), token.virtual_ipv4)),
                Err(message) => return Err(message),
            }
        },
    };
    Ok(
        SessionPlan {
            mode: request.mode.as_str(),
            route_count: request.route_ids.len(),
            interception,
            client,
        },
    )
}

/// The header of a one-shot probe.
pub open spec fn probe_header(client_id: Seq<u8>, session_id: u64, sequence: u64) -> HeaderModel {
    HeaderModel { flags: FLAG_CONTROL, client_id, session_id, sequence }
}

/// The frame that asks the relay to answer.
pub fn probe_frame(
    crypto: &SessionCrypto,
    client_id: [u8; 16],
    session_id: u64,
    sequence: u64,
) -> (r: Result<Vec<u8>, String>)
    ensures
        r matches Ok(frame) && frame@ == auth::sealed_frame(
            crypto.client_key(),
            CLIENT_TO_SERVER_NONCE,
            probe_header(client_id@, session_id, sequence),
            protocol::ping_word(),
        ),
{
    let header = FrameHeader { flags: FLAG_CONTROL, client_id, session_id, sequence };
    let mut word: Vec<u8> = Vec::new();
    word.push(112);
    word.push(105);
    word.push(110);
    word.push(103);
    assert(word@ =~= protocol::ping_word());
    crypto.seal_client(header, word.as_slice())
}

/// Whether a frame is the relay's answer to a probe of this client and session.
pub open spec fn is_answer(
    header: HeaderModel,
    plaintext: Seq<u8>,
    client_id: Seq<u8>,
    session_id: u64,
) -> bool {
    &&& header.client_id == client_id
    &&& header.session_id == session_id
    &&& state::flagged(header.flags, FLAG_CONTROL)
    &&& state::flagged(header.flags, FLAG_SERVER_TO_CLIENT)
    &&& plaintext == protocol::pong_word()
}

fn answers_probe(
    header: &FrameHeader,
    plaintext: &[u8],
    client_id: &[u8; 16],
    session_id: u64,
) -> (r: bool)
    ensures
        r == is_answer(header.model(), plaintext@, client_id@, session_id),
{
    let word: bool = plaintext.len() == 4 && plaintext[0] == 112 && plaintext[1] == 111
        && plaintext[2] == 110 && plaintext[3] == 103;
    proof {
        let pong = protocol::pong_word();
        if word {
            assert(plaintext@ =~= pong);
        } else if plaintext@ == pong {
            assert(pong[0] == 112 && pong[1] == 111 && pong[2] == 110 && pong[3] == 103);
        }
    }
    bytes::constant_time_eq(header.client_id.as_slice(), client_id.as_slice()) && header.session_id
        == session_id && header.flags & FLAG_CONTROL != 0 && header.flags & FLAG_SERVER_TO_CLIENT
        != 0 && word
}

/// Whether a frame answers a probe: an authenticated reply that only the relay
/// can produce. A frame that does not open says why; one that opens and is
/// something else is refused with `refusal`.
pub fn check_answer(
    crypto: &SessionCrypto,
    frame: &[u8],
    client_id: &[u8; 16],
    session_id: u64,
    refusal: &str,
) -> (r: Result<(), String>)
    ensures
        match auth::opened_frame(crypto.server_key(), auth::SERVER_TO_CLIENT_NONCE, frame@) {
            Err(why) => r matches Err(message) && message@ == why,
            Ok((header, plaintext)) => if is_answer(header, plaintext, client_id@, session_id) {
                r is Ok
            } else {
                r matches Err(message) && message@ == refusal@
            },
        },
{
    match crypto.open_server(frame) {
        Err(message) => Err(message),
        Ok((header, plaintext)) => if answers_probe(
            &header,
            plaintext.as_slice(),
            client_id,
            session_id,
        ) {
            Ok(())
        } else {
            Err(refusal.to_owned())
        },
    }
}

/// Judges what came back of a probe of the relay itself. It counts only from the
/// relay's own address.
pub fn probe_relay(
    crypto: &SessionCrypto,
    client_id: &[u8; 16],
    session_id: u64,
    relay: &IpAddress,
    source: &IpAddress,
    frame: &[u8],
) -> (r: Result<(), String>)
    ensures
        if !source.same(*relay) {
            r matches Err(message) && message@ == UNEXPECTED_ADDRESS@
        } else {
            match auth::opened_frame(crypto.server_key(), auth::SERVER_TO_CLIENT_NONCE, frame@) {
                Err(why) => r matches Err(message) && message@ == why,
                Ok((header, plaintext)) => if is_answer(
                    header,
                    plaintext,
                    client_id@,
                    session_id,
                ) {
                    r is Ok
                } else {
                    r matches Err(message) && message@ == INVALID_PROBE@
                },
            }
        },
{
    if !source.is_same(relay) {
        return Err(UNEXPECTED_ADDRESS.to_owned());
    }
    check_answer(crypto, frame, client_id, session_id, INVALID_PROBE)
}

/// Judges the packet that came back of a probe through a WireGuard path.
pub fn probe_wireguard_route(
    crypto: &SessionCrypto,
    client_id: &[u8; 16],
    session_id: u64,
    route: FrameRoute,
    reply: &[u8],
) -> (r: Result<(), String>)
    ensures
        match packet::datagram_in(reply@) {
            None => r matches Err(message) && message@ == NOT_UDP@,
            Some(datagram) => match route.brought(reply@) {
                None => r matches Err(message) && message@ == UNEXPECTED_FLOW@,
                Some(frame) => match auth::opened_frame(
                    crypto.server_key(),
                    auth::SERVER_TO_CLIENT_NONCE,
                    frame,
                ) {
                    Err(why) => r matches Err(message) && message@ == why,
                    Ok((header, plaintext)) => if is_answer(
                        header,
                        plaintext,
                        client_id@,
                        session_id,
                    ) {
                        r is Ok
                    } else {
                        r matches Err(message) && message@ == INVALID_ROUTE_PROBE@
                    },
                },
            },
        },
{
    match packet::ipv4_udp_payload(reply) {
        None => Err(NOT_UDP.to_owned()),
        Some(datagram) => {
            if datagram.source != route.relay || datagram.destination != route.local {
                return Err(UNEXPECTED_FLOW.to_owned());
            }
            check_answer(
                crypto,
                datagram.payload.as_slice(),
                client_id,
                session_id,
                INVALID_ROUTE_PROBE,
            )
        },
    }
}

/// Whether some frame opens as the relay's answer.
pub open spec fn one_answers(
    key: Seq<u8>,
    frames: Seq<Vec<u8>>,
    client_id: Seq<u8>,
    session_id: u64,
) -> bool {
    exists|i: int| 0 <= i < frames.len() && frame_answers(key, #[trigger] frames[i], client_id, session_id)
}

/// Whether a frame opens as the relay's answer.
pub open spec fn frame_answers(key: Seq<u8>, frame: Vec<u8>, client_id: Seq<u8>, session_id: u64) -> bool {
    match auth::opened_frame(key, auth::SERVER_TO_CLIENT_NONCE, frame@) {
        Ok((header, plaintext)) => is_answer(header, plaintext, client_id, session_id),
        Err(_) => false,
    }
}

/// Whether a proxy that was sent a probe has carried it: whether the relay's
/// answer is among the frames that came back. Accepting an association is not
/// enough on its own, since some proxies accept it and then never forward a
/// datagram. Anything else that comes back is passed over.
pub fn probe_socks5_node(
    crypto: &SessionCrypto,
    client_id: &[u8; 16],
    session_id: u64,
    frames: &Vec<Vec<u8>>,
) -> (r: bool)
    ensures
        r == one_answers(crypto.server_key(), frames@, client_id@, session_id),
{
    let mut at: usize = 0;
    while at < frames.len()
        invariant
            at <= frames@.len(),
            forall|i: int|
                0 <= i < at ==> !frame_answers(
                    crypto.server_key(),
                    #[trigger] frames@[i],
                    client_id@,
                    session_id,
                ),
        decreases frames@.len() - at,
    {
        if check_answer(crypto, frames[at].as_slice(), client_id, session_id, "").is_ok() {
            assert(frame_answers(crypto.server_key(), frames@[at as int], client_id@, session_id));
            return true;
        }
        at = at + 1;
    }
    false
}

/// Whether a proxy resolves DNS by itself, once that is settled: `received` is
/// how many datagrams have come back of the unanswerable query, or nothing where
/// receiving failed. Any datagram at all settles it, because the destination
/// cannot reply.
pub fn answers_dns_without_forwarding(received: Option<usize>, deadline: u64, now: u64) -> (r:
    Option<bool>)
    ensures
        r == match received {
            None => Some(false),
            Some(n) => if n > 0 {
                Some(true)
            } else if now >= deadline {
                Some(false)
            } else {
                None
            },
        },
{
    match received {
        None => Some(false),
        Some(n) => if n > 0 {
            Some(true)
        } else if now >= deadline {
            Some(false)
        } else {
            None
        },
    }
}

/// The WireGuard interfaces that are up: the words of what `wg show interfaces`
/// wrote, and none where it could not be asked.
pub fn active_interfaces(output: Option<&str>) -> (r: Vec<String>)
    ensures
        text::string_views(r@) == match output {
            Some(written) => text::spaced_words(written@),
            None => Seq::<Seq<char>>::empty(),
        },
{
    let mut r: Vec<String> = Vec::new();
    match output {
        Some(written) => {
            let words = text::words(text::chars(written).as_slice());
            let ghost all = text::views(words@);
            let mut at: usize = 0;
            while at < words.len()
                invariant
                    at <= words@.len(),
                    all == text::views(words@),
                    r@.len() == at,
                    forall|i: int| 0 <= i < at ==> (#[trigger] r@[i])@ == all[i],
                decreases words@.len() - at,
            {
                assert(all[at as int] == words@[at as int]@);
                r.push(text::string(words[at].as_slice()));
                at = at + 1;
            }
            assert(text::string_views(r@) =~= all);
        },
        None => {
            assert(text::string_views(r@) =~= Seq::<Seq<char>>::empty());
        },
    }
    r
}

/// Refuses to compare fewer than two WireGuard routes.
pub fn check_configs(count: usize) -> (r: Result<(), String>)
    ensures
        r is Err <==> count < 2,
        r matches Err(message) ==> message@ == TOO_FEW_CONFIGS@,
{
    if count < 2 {
        Err(TOO_FEW_CONFIGS.to_owned())
    } else {
        Ok(())
    }
}

/// A query that only a proxy could answer: it asks for a name reserved to never
/// exist, and is sent to an address that routes nowhere. A reply can only have
/// been produced by the proxy intercepting the query.
pub fn unanswerable_query() -> (r: Option<Vec<u8>>)
    ensures
        match dns::query_bytes(0x9e7a, "gamepath.invalid"@) {
            Some(message) => r matches Some(out) && out@ == message,
            None => r is None,
        },
{
    dns::query(0x9e7a, "gamepath.invalid")
}

/// Why a proxy was not accepted, given whether it answers DNS by itself. Many
/// do, in a way that makes the association look functional, so that is found out
/// before the relay is blamed.
pub fn proxy_refusal(answers_dns: bool, relay_port: u16, relay_host: &str) -> (r: String)
    ensures
        r@ == if answers_dns {
            PROXY_ANSWERS_DNS@
        } else {
            "the proxy opened a UDP association and forwards UDP, but the relay never answered through it. Check that UDP "@
                + text::decimal(relay_port as nat)
                + " is open on the relay, and that the proxy has no routing rule sending "@
                + relay_host@ + " somewhere else."@
        },
{
    if answers_dns {
        return PROXY_ANSWERS_DNS.to_owned();
    }
    text::concat5(
        "the proxy opened a UDP association and forwards UDP, but the relay never answered through it. Check that UDP ",
        text::decimal_text(relay_port as u64).as_str(),
        " is open on the relay, and that the proxy has no routing rule sending ",
        relay_host,
        " somewhere else.",
    )
}

/// A session can be planned exactly where it names a route, its targets compile,
/// and a relay session says where its relay is.
pub proof fn what_a_session_needs(request: PrepareRequest)
    ensures
        request_fault(request) is None <==> request.route_ids@.len() > 0 && policy::compiled(
            request.traffic_mode@,
            policy::rule_models(request.rules@),
        ) is Ok && (request.mode == SessionMode::Relay ==> text::trimmed(request.relay_host@).len()
            > 0 && request.relay_port > 0),
{
}

proof fn lemma_both_flags(flags: u8)
    by (bit_vector)
    ensures
        (flags & 1 != 0 && flags & 2 != 0) == (flags % 4 == 3),
{
}

/// A relay that holds the key answers a probe by sealing the word `pong` for the
/// client and the session that asked, marked as a control message from the
/// server; nothing else that it seals counts as an answer.
pub proof fn a_relay_answers_with_its_key(
    key: Seq<u8>,
    header: HeaderModel,
    word: Seq<u8>,
    frame: Vec<u8>,
    client_id: Seq<u8>,
    session_id: u64,
)
    requires
        header.client_id.len() == 16,
        word.len() < 0x1_0000,
        frame@ == auth::sealed_frame(key, 0x5354_4331, header, word),
    ensures
        frame_answers(key, frame, client_id, session_id) <==> header.client_id == client_id
            && header.session_id == session_id && header.flags % 4 == 3 && word == seq![
            0x70u8,
            0x6fu8,
            0x6eu8,
            0x67u8,
        ],
{
    lemma_both_flags(header.flags);
    auth::a_sealed_frame_opens(key, 0x5354_4331, header, word);
}

/// A probe is sent as a control message of the client and the session.
pub proof fn a_probe_names_its_sender(client_id: Seq<u8>, session_id: u64, sequence: u64)
    ensures
        probe_header(client_id, session_id, sequence) == (HeaderModel {
            flags: 1,
            client_id,
            session_id,
            sequence,
        }),
{
}

} // verus!
