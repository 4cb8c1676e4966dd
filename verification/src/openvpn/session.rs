//! Bringing up an OpenVPN session and moving IP packets through it.
//!
//! The order of events is fixed by the protocol: reset, then a TLS handshake
//! carried inside control packets, then an exchange of random material that the
//! data-channel keys are derived from, then a push of the tunnel's settings.
//! Only after all four does a packet get to move.
//!
//! The session decides; its owner runs the TLS stack and the link. It hands in
//! what arrived and performs what [`Next`] asks for.

use vstd::prelude::*;
use vstd::slice::slice_subrange;
use vstd::string::StringExecFns;

use crate::bytes;
use crate::net;
use crate::net::Ipv4;
use crate::openvpn::config;
use crate::openvpn::config::{DataCipher, OpenVpnConfig, Protocol};
use crate::openvpn::control;
use crate::openvpn::control::{ControlChannel, ControlState, Meaning, Received};
use crate::openvpn::crypto;
use crate::openvpn::crypto::{DataChannel, DataState, KeyMaterial, KeySource, Opened};
use crate::text;
use crate::time;
use crate::time::Clock;

verus! {

/// How long a whole session setup may take before it is called failed.
pub const HANDSHAKE_TIMEOUT: u64 = 20_000_000_000;

/// How often to ask for the tunnel's settings until they arrive.
pub const PUSH_INTERVAL: u64 = 1_500_000_000;

/// How long a link may stay silent mid-handshake before the failure is
/// attributed to the link rather than to the server being slow.
pub const SILENCE_LIMIT: u64 = 6_000_000_000;

/// The wait used when draining whatever has already arrived.
///
/// Not zero: Windows rejects a zero socket timeout outright, so the shortest
/// wait it will accept stands in for "do not block".
pub const DRAIN: u64 = 1_000_000;

pub const LOGIN_REJECTED: &'static str =
    "the OpenVPN server rejected the username and password for this node";

pub const CLOSED_SILENTLY: &'static str =
    "the OpenVPN server closed the session without saying why";

pub const UNKNOWN_CIPHER: &'static str =
    "` cipher, which GamePath does not implement. Ask the provider for a configuration using AES-256-GCM, AES-128-GCM or CHACHA20-POLY1305.";

pub const NO_ADDRESS: &'static str =
    "the OpenVPN server did not push a tunnel address, so there is nothing for inner packets to come from";

pub const PUSHED_EARLY: &'static str =
    "the OpenVPN server pushed its settings before its key material";

pub const NO_SERVER_SESSION: &'static str = "the OpenVPN server's session id is not known yet";

pub const EMPTY_PACKET: &'static str = "an OpenVPN packet was empty";

pub const CHANNEL_DOWN: &'static str = "the OpenVPN data channel is not up";

pub const NOT_ENCRYPTED: &'static str = "could not encrypt an OpenVPN data packet";

pub const KEYS_EXHAUSTED: &'static str =
    "this OpenVPN session has sent as many packets as its keys allow and has to be renegotiated";

/// The credentials a provider that uses `auth-user-pass` expects.
#[derive(Clone)]
pub struct Credentials {
    pub username: Option<String>,
    pub password: Option<String>,
}

impl Default for Credentials {
    fn default() -> (r: Self)
        ensures
            r.username is None,
            r.password is None,
    {
        Credentials { username: None, password: None }
    }
}

impl Credentials {
    pub open spec fn user(&self) -> Option<Seq<char>> {
        match self.username {
            Some(name) => Some(name@),
            None => None,
        }
    }

    pub open spec fn secret(&self) -> Option<Seq<char>> {
        match self.password {
            Some(word) => Some(word@),
            None => None,
        }
    }

    pub open spec fn description(&self) -> Seq<char> {
        "Credentials { username: "@ + (match self.user() {
            Some(name) => "Some("@ + text::shown(name) + ")"@,
            None => "None"@,
        }) + ", password: "@ + (match self.secret() {
            Some(_) => "Some(\"<redacted>\")"@,
            None => "None"@,
        }) + " }"@
    }

    /// A line for a log. The password is never in it. The username is not
    /// secret and is what identifies the account.
    pub fn describe(&self) -> (r: String)
        ensures
            r@ == self.description(),
    {
        let mut r = "Credentials { username: ".to_owned();
        match &self.username {
            Some(name) => {
                let word = text::quoted(name.as_str());
                let some = text::concat3("Some(", word.as_str(), ")");
                r.append(some.as_str());
            },
            None => r.append("None"),
        }
        r.append(", password: ");
        match &self.password {
            Some(_) => r.append("Some(\"<redacted>\")"),
            None => r.append("None"),
        }
        r.append(" }");
        r
    }
}

/// A password never reaches a log: what is logged is the same whatever the
/// password is.
pub proof fn a_description_hides_the_password(a: Credentials, b: Credentials)
    requires
        a.user() == b.user(),
        a.secret() is Some <==> b.secret() is Some,
    ensures
        a.description() == b.description(),
{
}

/// What `String::from_utf8_lossy` makes of some bytes.
pub uninterp spec fn utf8_lossy(data: Seq<u8>) -> Seq<char>;

/// Calls `String::from_utf8_lossy`, whose result is a function of the bytes.
/// Text that is valid UTF-8 comes out as it is.
#[verifier::external_body]
fn lossy_text(data: &[u8]) -> (r: String)
    ensures
        r@ == utf8_lossy(data@),
        vstd::utf8::valid_utf8(data@) ==> vstd::utf8::encode_utf8(r@) == data@,
{
    String::from_utf8_lossy(data).into_owned()
}

/// The text that some bytes hold: what they encode, where they are valid UTF-8.
pub open spec fn text_in(data: Seq<u8>) -> Seq<char> {
    if vstd::utf8::valid_utf8(data) {
        vstd::utf8::decode_utf8(data)
    } else {
        utf8_lossy(data)
    }
}

fn read_text(data: &[u8]) -> (r: String)
    ensures
        r@ == text_in(data@),
{
    let r = lossy_text(data);
    proof {
        vstd::utf8::encode_utf8_decode_utf8(r@);
    }
    r
}

/// A text without the commas and spaces it begins with.
pub open spec fn separators_dropped(s: Seq<char>) -> Seq<char>
    decreases s.len(),
{
    if s.len() > 0 && (s[0] == ',' || s[0] == ' ') {
        separators_dropped(s.skip(1))
    } else {
        s
    }
}

fn drop_separators(s: &[char]) -> (r: &[char])
    ensures
        r@ == separators_dropped(s@),
{
    let mut start: usize = 0;
    assert(s@.skip(0) =~= s@);
    while start < s.len() && (s[start] == ',' || s[start] == ' ')
        invariant
            start <= s@.len(),
            separators_dropped(s@) == separators_dropped(s@.skip(start as int)),
        decreases s@.len() - start,
    {
        assert(s@.skip(start as int).skip(1) =~= s@.skip(start + 1));
        start = start + 1;
    }
    let r = slice_subrange(s, start, s.len());
    assert(r@ =~= s@.skip(start as int));
    r
}

/// A server's refusal, in words a user can act on.
pub open spec fn refusal(message: Seq<char>) -> Seq<char> {
    let bare = text::trimmed(message);
    if text::begins_with(bare, "AUTH_FAILED"@) {
        let detail = text::trimmed(separators_dropped(bare.skip(11)));
        if detail.len() == 0 {
            LOGIN_REJECTED@
        } else {
            "the OpenVPN server rejected this node's login: "@ + detail
        }
    } else if bare.len() == 0 {
        CLOSED_SILENTLY@
    } else {
        "the OpenVPN server refused the session: "@ + bare
    }
}

fn refusal_of(message: &[char]) -> (r: String)
    ensures
        r@ == refusal(message@),
{
    let bare = text::trim(message);
    if text::starts_with(bare, "AUTH_FAILED") {
        proof {
            reveal_strlit("AUTH_FAILED");
        }
        let rest = slice_subrange(bare, 11, bare.len());
        assert(rest@ =~= bare@.skip(11));
        let detail = text::trim(drop_separators(rest));
        if detail.len() == 0 {
            return LOGIN_REJECTED.to_owned();
        }
        let mut r = "the OpenVPN server rejected this node's login: ".to_owned();
        r.append(text::string(detail).as_str());
        return r;
    }
    if bare.len() == 0 {
        return CLOSED_SILENTLY.to_owned();
    }
    let mut r = "the OpenVPN server refused the session: ".to_owned();
    r.append(text::string(bare).as_str());
    r
}

/// Turns a server's refusal into something a user can act on.
///
/// A server that says more than `AUTH_FAILED` usually names the account it
/// turned away, which is the fastest way to spot a mistyped username, so its
/// own words are kept rather than replaced with a generic sentence.
pub fn describe_refusal(message: &str) -> (r: String)
    ensures
        r@ == refusal(message@),
{
    refusal_of(text::chars(message).as_slice())
}

/// One length-prefixed, NUL-terminated string, or an empty field. The length
/// field is two bytes wide, and holds the low bytes of a longer length.
pub open spec fn string_field(value: Option<Seq<char>>) -> Seq<u8> {
    match value {
        Some(s) if s.len() > 0 => bytes::be_bytes(
            vstd::utf8::encode_utf8(s).len() + 1,
            2,
        ) + vstd::utf8::encode_utf8(s) + seq![0u8],
        _ => seq![0u8, 0u8],
    }
}

proof fn lemma_two_low_bytes(n: nat)
    ensures
        bytes::be_bytes(n, 2) == bytes::be_bytes(n % 0x1_0000, 2),
{
    reveal_with_fuel(bytes::be_bytes, 3);
    let m = n % 0x1_0000;
    assert(m % 256 == n % 256);
    assert((m / 256) % 256 == (n / 256) % 256);
}

/// The string in a value that may hold one.
pub open spec fn optional_text(value: Option<&str>) -> Option<Seq<char>> {
    match value {
        Some(s) => Some(s@),
        None => None,
    }
}

proof fn lemma_field_appended(before: Seq<u8>, prefix: Seq<u8>, data: Seq<u8>)
    ensures
        (before + prefix + data).push(0u8) == before + (prefix + data + seq![0u8]),
{
    assert((before + prefix + data).push(0u8) =~= before + (prefix + data + seq![0u8]));
}

/// Writes one length-prefixed, NUL-terminated string, or an empty field.
#[verifier::spinoff_prover]
pub fn write_string(buffer: &mut Vec<u8>, value: Option<&str>)
    ensures
        final(buffer)@ == old(buffer)@ + string_field(optional_text(value)),
{
    match value {
        Some(s) => {
            if !s.is_empty() {
                let data = s.as_bytes();
                let length: u64 = (data.len() % 0x1_0000) as u64 + 1;
                let prefix = bytes::to_be(length, 2);
                proof {
                    lemma_two_low_bytes(length as nat);
                    lemma_two_low_bytes(data@.len() + 1);
                }
                buffer.extend_from_slice(prefix.as_slice());
                buffer.extend_from_slice(data);
                buffer.push(0);
                proof {
                    lemma_field_appended(old(buffer)@, prefix@, data@);
                    assert(string_field(optional_text(value)) == prefix@ + data@ + seq![0u8]);
                }
                return;
            }
        },
        None => {},
    }
    buffer.push(0);
    buffer.push(0);
    assert(buffer@ =~= old(buffer)@ + seq![0u8, 0u8]);
}

/// What the server pushed once the session came up.
#[derive(Debug, Clone, Copy, PartialEq, Eq, Structural)]
pub struct Pushed {
    /// The address the tunnel gave us, which inner packets must come from.
    pub address: Ipv4,
    /// The far end of the tunnel, used when a route needs a gateway.
    pub gateway: Option<Ipv4>,
    pub cipher: DataCipher,
    pub peer_id: Option<u32>,
    /// How many seconds the server lets pass between signs of life when nothing
    /// is flowing.
    pub keepalive: Option<u64>,
}

/// The settings read so far.
#[derive(Clone, Copy)]
pub struct PushDraft {
    pub address: Option<Ipv4>,
    pub gateway: Option<Ipv4>,
    pub cipher: DataCipher,
    pub peer_id: Option<u32>,
    pub ping: Option<u64>,
}

/// The settings once one more has been read. A later setting replaces an earlier
/// one, also where it cannot be read.
pub open spec fn setting_read(draft: PushDraft, option: Seq<char>) -> Result<
    PushDraft,
    Seq<char>,
> {
    let words = text::spaced_words(option);
    let argument = if words.len() > 1 {
        words[1]
    } else {
        Seq::<char>::empty()
    };
    if words.len() == 0 {
        Ok(draft)
    } else if words[0] == "ifconfig"@ {
        Ok(PushDraft { address: net::ipv4_of(argument), ..draft })
    } else if words[0] == "route-gateway"@ {
        Ok(PushDraft { gateway: net::ipv4_of(argument), ..draft })
    } else if words[0] == "cipher"@ {
        match config::cipher_named(argument) {
            Some(cipher) => Ok(PushDraft { cipher, ..draft }),
            None => Err("the OpenVPN server chose the `"@ + argument + UNKNOWN_CIPHER@),
        }
    } else if words[0] == "peer-id"@ {
        Ok(
            PushDraft {
                peer_id: match text::parsed_number(argument, u32::MAX as nat) {
                    Some(n) => Some(n as u32),
                    None => None,
                },
                ..draft
            },
        )
    } else if words[0] == "ping"@ {
        Ok(
            PushDraft {
                ping: match text::parsed_number(argument, u64::MAX as nat) {
                    Some(n) => Some(n as u64),
                    None => None,
                },
                ..draft
            },
        )
    } else {
        Ok(draft)
    }
}

pub open spec fn settings_read(draft: PushDraft, options: Seq<Seq<char>>) -> Result<
    PushDraft,
    Seq<char>,
>
    decreases options.len(),
{
    if options.len() == 0 {
        Ok(draft)
    } else {
        match setting_read(draft, options[0]) {
            Ok(next) => settings_read(next, options.skip(1)),
            Err(why) => Err(why),
        }
    }
}

/// The settings that a push message holds.
pub open spec fn push_read(first_cipher: DataCipher, options: Seq<char>) -> Result<
    Pushed,
    Seq<char>,
> {
    let blank = PushDraft {
        address: None,
        gateway: None,
        cipher: first_cipher,
        peer_id: None,
        ping: None,
    };
    match settings_read(blank, text::split_at_char(options, ',')) {
        Err(why) => Err(why),
        Ok(draft) => match draft.address {
            None => Err(NO_ADDRESS@),
            Some(address) => Ok(
                Pushed {
                    address,
                    gateway: draft.gateway,
                    cipher: draft.cipher,
                    peer_id: draft.peer_id,
                    keepalive: draft.ping,
                },
            ),
        },
    }
}

fn read_setting(draft: PushDraft, option: &[char]) -> (r: Result<PushDraft, String>)
    ensures
        match setting_read(draft, option@) {
            Ok(next) => r matches Ok(found) && found == next,
            Err(why) => r matches Err(message) && message@ == why,
        },
{
    let words = text::words(option);
    let ghost views = text::views(words@);
    if words.len() == 0 {
        return Ok(draft);
    }
    let name = words[0].as_slice();
    assert(views[0] == name@);
    let none: Vec<char> = Vec::new();
    let argument = if words.len() > 1 {
        assert(views[1] == words@[1]@);
        words[1].as_slice()
    } else {
        none.as_slice()
    };
    assert(argument@ =~= if views.len() > 1 {
        views[1]
    } else {
        Seq::<char>::empty()
    });
    let mut next = draft;
    if text::spells(name, "ifconfig") {
        next.address = net::parse_ipv4(argument);
        Ok(next)
    } else if text::spells(name, "route-gateway") {
        next.gateway = net::parse_ipv4(argument);
        Ok(next)
    } else if text::spells(name, "cipher") {
        let word = text::string(argument);
        match DataCipher::parse(word.as_str()) {
            Some(cipher) => {
                next.cipher = cipher;
                Ok(next)
            },
            None => Err(
                text::concat3("the OpenVPN server chose the `", word.as_str(), UNKNOWN_CIPHER),
            ),
        }
    } else if text::spells(name, "peer-id") {
        next.peer_id = match text::parse_number(argument, u32::MAX as u64) {
            Some(n) => Some(n as u32),
            None => None,
        };
        Ok(next)
    } else if text::spells(name, "ping") {
        next.ping = text::parse_number(argument, u64::MAX);
        Ok(next)
    } else {
        Ok(next)
    }
}

/// Reads the settings the server pushed.
pub fn read_push(first_cipher: DataCipher, options: &str) -> (r: Result<Pushed, String>)
    ensures
        match push_read(first_cipher, options@) {
            Ok(pushed) => r matches Ok(found) && found == pushed,
            Err(why) => r matches Err(message) && message@ == why,
        },
{
    let parts = text::split(text::chars(options).as_slice(), ',');
    let ghost all = text::views(parts@);
    let mut draft = PushDraft {
        address: None,
        gateway: None,
        cipher: first_cipher,
        peer_id: None,
        ping: None,
    };
    let ghost blank = draft;
    let mut at: usize = 0;
    assert(all.skip(0) =~= all);
    while at < parts.len()
        invariant
            at <= parts@.len(),
            all == text::views(parts@),
            all == text::split_at_char(options@, ','),
            blank == (PushDraft {
                address: None,
                gateway: None,
                cipher: first_cipher,
                peer_id: None,
                ping: None,
            }),
            settings_read(blank, all) == settings_read(draft, all.skip(at as int)),
        decreases parts@.len() - at,
    {
        assert(all.skip(at as int)[0] == parts@[at as int]@);
        assert(all.skip(at as int).skip(1) =~= all.skip(at + 1));
        match read_setting(draft, parts[at].as_slice()) {
            Ok(next) => {
                draft = next;
            },
            Err(message) => return Err(message),
        }
        at = at + 1;
    }
    assert(all.skip(at as int) =~= Seq::<Seq<char>>::empty());
    match draft.address {
        None => Err(NO_ADDRESS.to_owned()),
        Some(address) => Ok(
            Pushed {
                address,
                gateway: draft.gateway,
                cipher: draft.cipher,
                peer_id: draft.peer_id,
                keepalive: draft.ping,
            },
        ),
    }
}

/// How far a setup has got.
#[derive(Debug, Clone, Copy, PartialEq, Eq, Structural)]
pub enum Stage {
    /// Waiting for the server to answer the reset.
    Reset,
    /// TLS is running inside control packets.
    Tls,
    /// TLS is up and the random material has been sent.
    KeyExchange,
    /// The keys are derived and the tunnel's settings have been asked for.
    Push,
}

/// What a session holds.
#[verifier::ext_equal]
pub struct SessionState {
    pub first_cipher: DataCipher,
    pub protocol: Protocol,
    pub control: ControlState,
    pub stage: Stage,
    pub tls_up: bool,
    pub key_source: KeySource,
    pub material: Option<Seq<u8>>,
    pub channels: Seq<DataState>,
    pub pushed: Option<Pushed>,
    pub messages: Seq<u8>,
    pub server_material: bool,
    pub last_push_request: Option<u64>,
    pub last_inbound: u64,
    pub last_keepalive: u64,
    pub inbound: Seq<Seq<u8>>,
}

/// A state, and what went wrong in reaching it, if anything did. A session in
/// which something went wrong is given up.
#[verifier::ext_equal]
pub struct Outcome {
    pub state: SessionState,
    pub fault: Option<Seq<char>>,
}

pub open spec fn fine(state: SessionState) -> Outcome {
    Outcome { state, fault: None }
}

pub open spec fn failed(state: SessionState, why: Seq<char>) -> Outcome {
    Outcome { state, fault: Some(why) }
}

/// Whether a key generation is in use.
pub open spec fn has_generation(channels: Seq<DataState>, key_id: u8) -> bool {
    exists|i: int| 0 <= i < channels.len() && (#[trigger] channels[i]).key_id == key_id
}

/// The state once the key generation being negotiated is in use, which needs
/// both the derived material and the negotiated settings. Only the generation
/// being replaced is kept beside it, so that packets still in flight on it are
/// not thrown away.
pub open spec fn keys_installed(st: SessionState) -> SessionState {
    match (st.material, st.pushed) {
        (Some(material), Some(pushed)) => {
            if has_generation(st.channels, st.control.key_id) {
                st
            } else {
                let all = st.channels.push(
                    crypto::new_channel(
                        material,
                        pushed.cipher,
                        pushed.peer_id,
                        st.control.key_id,
                    ),
                );
                SessionState {
                    channels: if all.len() > 2 {
                        all.skip(1)
                    } else {
                        all
                    },
                    ..st
                }
            }
        },
        _ => st,
    }
}

/// The state once one text message from the server has been taken in.
pub open spec fn message_handled(st: SessionState, message: Seq<char>) -> Outcome {
    if text::begins_with(message, "PUSH_REPLY,"@) {
        if st.pushed is Some {
            fine(st)
        } else {
            match push_read(st.first_cipher, message.skip(11)) {
                Err(why) => failed(st, why),
                Ok(pushed) => if st.material is None {
                    failed(st, PUSHED_EARLY@)
                } else {
                    fine(keys_installed(SessionState { pushed: Some(pushed), ..st }))
                },
            }
        }
    } else if text::begins_with(message, "AUTH_FAILED"@) || text::begins_with(message, "RESTART"@)
        || text::begins_with(message, "HALT"@) {
        failed(st, refusal(message))
    } else {
        fine(st)
    }
}

/// Where the first zero byte stands, or the length.
pub open spec fn first_zero(data: Seq<u8>) -> nat
    decreases data.len(),
{
    if data.len() == 0 || data[0] == 0 {
        0
    } else {
        1 + first_zero(data.skip(1))
    }
}

/// The state once the NUL-terminated messages in `rest` have been taken in.
pub open spec fn texts_read(st: SessionState, rest: Seq<u8>) -> Outcome
    decreases rest.len(),
{
    let n = first_zero(rest) as int;
    if n >= rest.len() {
        fine(SessionState { messages: rest, ..st })
    } else {
        let after = rest.skip(n + 1);
        let step = message_handled(
            SessionState { messages: after, ..st },
            text_in(rest.take(n)),
        );
        match step.fault {
            Some(_) => step,
            None => texts_read(step.state, after),
        }
    }
}

/// The fixed part of the server's half of the key exchange: four zero bytes, the
/// key method, two random values and the length of an options string.
pub const SERVER_MATERIAL_FIXED: usize = 71;

/// The state once what has arrived over TLS has been taken in: the server's key
/// material first, then its text messages.
pub open spec fn messages_read(st: SessionState) -> Outcome {
    let m = st.messages;
    if st.server_material {
        texts_read(st, m)
    } else if m.len() < SERVER_MATERIAL_FIXED {
        fine(st)
    } else if m.take(4) != seq![0u8, 0u8, 0u8, 0u8] || m[4] != 2 {
        failed(st, refusal(text::trimmed(text::without_char(text_in(m), '\0'))))
    } else {
        let size = SERVER_MATERIAL_FIXED + bytes::be_value(m.subrange(69, 71)) as int;
        if m.len() < size {
            fine(st)
        } else {
            match st.control.remote_session_id {
                None => failed(st, NO_SERVER_SESSION@),
                Some(server_id) => {
                    let derived = crypto::key_expansion(
                        st.key_source,
                        m.subrange(5, 37),
                        m.subrange(37, 69),
                        st.control.session_id,
                        server_id,
                    );
                    let next = keys_installed(
                        SessionState {
                            material: Some(derived),
                            messages: m.skip(size),
                            server_material: true,
                            stage: Stage::Push,
                            ..st
                        },
                    );
                    texts_read(next, next.messages)
                },
            }
        }
    }
}

/// The state once decrypted TLS bytes have come in.
pub open spec fn tls_read(st: SessionState, received: Seq<u8>) -> Outcome {
    if received.len() == 0 {
        fine(st)
    } else {
        messages_read(SessionState { messages: st.messages + received, ..st })
    }
}

/// The client's half of the key exchange.
pub open spec fn key_method_message(
    source: KeySource,
    options: Seq<char>,
    user: Option<Seq<char>>,
    secret: Option<Seq<char>>,
    peer_info: Seq<char>,
) -> Seq<u8> {
    seq![0u8, 0u8, 0u8, 0u8, 2u8] + source.pre_master@ + source.random1@ + source.random2@
        + string_field(Some(options)) + string_field(user) + string_field(secret) + string_field(
        Some(peer_info),
    )
}

/// The first key generation with this key id, or the number of them.
pub open spec fn generation_index(channels: Seq<DataState>, key_id: u8) -> nat
    decreases channels.len(),
{
    if channels.len() == 0 || channels[0].key_id == key_id {
        0
    } else {
        1 + generation_index(channels.skip(1), key_id)
    }
}

/// What a data packet turned out to hold.
pub enum DataOutcome {
    Refused(Seq<char>),
    /// Nothing to pass on: a retired generation, a replay or a keepalive.
    Swallowed(SessionState),
    Inner(SessionState, Seq<u8>),
}

/// The outcome of a data packet, opened under whichever key generation sealed
/// it. A packet on a generation that has already been retired is not an error;
/// it is traffic that was in flight when the keys moved on.
pub open spec fn data_opened(st: SessionState, packet: Seq<u8>) -> DataOutcome {
    let n = generation_index(st.channels, packet[0] & 7) as int;
    if n >= st.channels.len() {
        DataOutcome::Swallowed(st)
    } else {
        let channel = st.channels[n];
        match crypto::opened_packet(channel, packet) {
            Opened::Refused(why) => DataOutcome::Refused(why),
            Opened::Authentic(id, inner) => {
                let next = SessionState {
                    channels: st.channels.update(
                        n,
                        DataState { replay: channel.replay.after(id), ..channel },
                    ),
                    ..st
                };
                if channel.replay.accepts(id) && inner != crypto::PING@ {
                    DataOutcome::Inner(next, inner)
                } else {
                    DataOutcome::Swallowed(next)
                }
            },
        }
    }
}

/// What a packet from the link asks of the session's owner.
pub enum NextModel {
    /// Nothing to do.
    Idle,
    /// Start a TLS client.
    BeginTls,
    /// Throw the TLS client away and start another.
    RestartTls,
    /// Hand these bytes to the TLS client.
    FeedTls(Seq<u8>),
}

/// The state and the request after a TLS client has to be there.
pub open spec fn tls_begun(st: SessionState) -> (SessionState, NextModel) {
    if st.tls_up {
        (st, NextModel::Idle)
    } else {
        (SessionState { tls_up: true, stage: Stage::Tls, ..st }, NextModel::BeginTls)
    }
}

/// The state and the request after the server has asked to rekey. Both session
/// ids stay as they were and the pushed settings still stand, so all that is
/// rebuilt is the TLS exchange and the key material it produces.
pub open spec fn renegotiated(st: SessionState, key_id: u8, now: Clock, source: KeySource) -> (
    SessionState,
    NextModel,
) {
    if key_id == st.control.key_id {
        (st, NextModel::Idle)
    } else {
        let rekeyed = ControlState {
            key_id,
            next_packet_id: 0,
            expected_packet_id: 0,
            unacknowledged: Seq::<control::Outstanding>::empty(),
            reordered: Map::<u32, Seq<u8>>::empty(),
            pending_acks: Seq::<u32>::empty(),
            ..st.control
        };
        (
            SessionState {
                control: control::sent(
                    rekeyed,
                    control::P_CONTROL_SOFT_RESET_V1,
                    Seq::<u8>::empty(),
                    now,
                ),
                tls_up: true,
                stage: Stage::Tls,
                material: None,
                server_material: false,
                messages: Seq::<u8>::empty(),
                key_source: source,
                ..st
            },
            NextModel::RestartTls,
        )
    }
}

/// The state and the request after one control packet, or why it is refused.
/// `source` is the fresh random material that a renegotiation uses.
pub open spec fn control_step(st: SessionState, packet: Seq<u8>, now: Clock, source: KeySource) -> Result<
    (SessionState, NextModel),
    Seq<char>,
> {
    match control::received(st.control, packet, now.unix_seconds) {
        Err(why) => Err(why),
        Ok((next, meaning)) => {
            let st2 = SessionState { control: next, ..st };
            match meaning {
                Meaning::Nothing => Ok((st2, NextModel::Idle)),
                Meaning::ServerReset => Ok(tls_begun(st2)),
                Meaning::SoftReset { key_id } => Ok(renegotiated(st2, key_id, now, source)),
                Meaning::Payload(payload) => Ok(
                    (
                        st2,
                        if st2.tls_up {
                            NextModel::FeedTls(payload)
                        } else {
                            NextModel::Idle
                        },
                    ),
                ),
            }
        },
    }
}

/// What a packet from the link asks of the session's owner.
pub enum Next {
    /// Nothing to do.
    Idle,
    /// Start a TLS client.
    BeginTls,
    /// Throw the TLS client away and start another.
    RestartTls,
    /// Hand these bytes to the TLS client.
    FeedTls(Vec<u8>),
}

impl Next {
    pub open spec fn model(&self) -> NextModel {
        match self {
            Next::Idle => NextModel::Idle,
            Next::BeginTls => NextModel::BeginTls,
            Next::RestartTls => NextModel::RestartTls,
            Next::FeedTls(data) => NextModel::FeedTls(data@),
        }
    }
}

/// How a setup stands.
pub enum Progress {
    /// Packets can flow.
    Ready,
    /// The setup goes on.
    Waiting,
    /// The setup has run out of time, and this is why.
    TimedOut(String),
}

pub const STALLED_AT_RESET: &'static str =
    "the OpenVPN session did not come up: the server never answered the opening packet. Check the address, the port and whether this is a udp or tcp configuration.";

pub const STALLED_AT_TLS: &'static str =
    "the OpenVPN session did not come up: the TLS handshake did not finish. Over UDP this usually means the server's handshake packets are too large for the path and are being dropped; the same provider's tcp configuration will normally connect.";

pub const STALLED_AT_KEYS: &'static str =
    "the OpenVPN session did not come up: the server accepted the TLS handshake but never sent its key material.";

pub const STALLED_AT_PUSH: &'static str =
    "the OpenVPN session did not come up: the server never pushed the tunnel's settings, which usually means it is still deciding whether to accept the credentials.";

pub const SILENT_FROM_THE_START: &'static str =
    " is not answering. Nothing has come back at all, so either the address and port are wrong or the connection is being blocked.";

pub const SILENT_OVER_UDP: &'static str =
    "the OpenVPN server stopped answering part-way through the handshake. Its handshake packets are probably too large for this connection; try the provider's tcp configuration.";

pub const SILENT_OVER_TCP: &'static str =
    "the OpenVPN server stopped answering part-way through the handshake. The connection stayed open but the server went quiet.";

/// Why a setup ran out of time, in terms of how far it got.
pub open spec fn stall_reason(stage: Stage) -> Seq<char> {
    match stage {
        Stage::Reset => STALLED_AT_RESET@,
        Stage::Tls => STALLED_AT_TLS@,
        Stage::KeyExchange => STALLED_AT_KEYS@,
        Stage::Push => STALLED_AT_PUSH@,
    }
}

/// What is said of a link that has gone quiet, if it has.
pub open spec fn silence(st: SessionState, now: u64, peer: Option<Seq<char>>) -> Option<Seq<char>> {
    if time::elapsed(now, st.last_inbound) < SILENCE_LIMIT {
        None
    } else if st.stage == Stage::Reset {
        Some(
            "the OpenVPN server at "@ + (match peer {
                Some(address) => address,
                None => "the configured address"@,
            }) + SILENT_FROM_THE_START@,
        )
    } else {
        Some(
            match st.protocol {
                Protocol::Udp => SILENT_OVER_UDP@,
                Protocol::Tcp => SILENT_OVER_TCP@,
            },
        )
    }
}

/// One OpenVPN session, apart from its TLS client and its link.
pub struct Session {
    config: OpenVpnConfig,
    credentials: Credentials,
    protocol: Protocol,
    control: ControlChannel,
    stage: Stage,
    tls_up: bool,
    key_source: KeySource,
    material: Option<KeyMaterial>,
    /// The live key generations, oldest first.
    ///
    /// A renegotiation brings up new keys while the old ones still have packets
    /// in flight, so both have to be able to open one until the old generation
    /// falls out of use. Sending always uses the newest.
    channels: Vec<DataChannel>,
    pushed: Option<Pushed>,
    /// TLS application data that has arrived but not yet been split into
    /// messages.
    control_messages: Vec<u8>,
    /// Whether the server's half of the random material has been read.
    server_material: bool,
    last_push_request: Option<u64>,
    last_inbound: u64,
    last_keepalive: u64,
    /// Inner packets that arrived while something else was being waited for.
    inbound: Vec<Vec<u8>>,
}

spec fn channel_states(list: Seq<DataChannel>) -> Seq<DataState> {
    Seq::new(list.len(), |i: int| list[i]@)
}

impl View for Session {
    type V = SessionState;

    closed spec fn view(&self) -> SessionState {
        SessionState {
            first_cipher: self.config.first(),
            protocol: self.protocol,
            control: self.control@,
            stage: self.stage,
            tls_up: self.tls_up,
            key_source: self.key_source,
            material: match self.material {
                Some(material) => Some(material.0@),
                None => None,
            },
            channels: channel_states(self.channels@),
            pushed: self.pushed,
            messages: self.control_messages@,
            server_material: self.server_material,
            last_push_request: self.last_push_request,
            last_inbound: self.last_inbound,
            last_keepalive: self.last_keepalive,
            inbound: config::byte_views(self.inbound@),
        }
    }
}

/// A session whose opening packet has been queued.
pub open spec fn opening_state(
    first_cipher: DataCipher,
    protocol: Protocol,
    fresh: ControlState,
    source: KeySource,
    now: Clock,
) -> SessionState {
    SessionState {
        first_cipher,
        protocol,
        control: control::sent(
            fresh,
            control::P_CONTROL_HARD_RESET_CLIENT_V2,
            Seq::<u8>::empty(),
            now,
        ),
        stage: Stage::Reset,
        tls_up: false,
        key_source: source,
        material: None,
        channels: Seq::<DataState>::empty(),
        pushed: None,
        messages: Seq::<u8>::empty(),
        server_material: false,
        last_push_request: None,
        last_inbound: now.monotonic,
        last_keepalive: now.monotonic,
        inbound: Seq::<Seq<u8>>::empty(),
    }
}

/// Whether a setup that began at `started` has run out of time.
pub open spec fn setup_expired(started: u64, now: u64) -> bool {
    time::elapsed(now, started) >= HANDSHAKE_TIMEOUT
}

/// Whether the tunnel's settings are to be asked for, again or for the first time.
pub open spec fn push_due(st: SessionState, now: u64) -> bool {
    &&& st.server_material
    &&& st.pushed is None
    &&& st.last_push_request matches Some(last) ==> time::elapsed(now, last) >= PUSH_INTERVAL
}

/// What sending an inner packet comes to.
#[verifier::ext_equal]
pub struct Sent {
    pub state: SessionState,
    pub sealed: Result<Seq<u8>, Seq<char>>,
}

/// An inner packet is sealed under the newest keys, and counts as a sign of
/// life from this end.
pub open spec fn inner_sent(st: SessionState, packet: Seq<u8>, now: u64) -> Sent {
    if st.channels.len() == 0 {
        Sent { state: st, sealed: Err(CHANNEL_DOWN@) }
    } else {
        let n = st.channels.len() - 1;
        let newest = st.channels[n];
        if newest.next_packet_id == u32::MAX {
            Sent { state: st, sealed: Err(KEYS_EXHAUSTED@) }
        } else {
            let numbered = SessionState {
                channels: st.channels.update(
                    n,
                    DataState { next_packet_id: (newest.next_packet_id + 1) as u32, ..newest },
                ),
                ..st
            };
            if crypto::can_seal(newest.cipher, packet.len()) {
                Sent {
                    state: SessionState { last_keepalive: now, ..numbered },
                    sealed: Ok(crypto::sealed_packet(newest, packet)),
                }
            } else {
                Sent { state: numbered, sealed: Err(NOT_ENCRYPTED@) }
            }
        }
    }
}

impl Session {
    /// Every key generation has keys of its cipher's size, and there is a
    /// server to tell about itself.
    pub closed spec fn wf(&self) -> bool {
        &&& forall|i: int| 0 <= i < self.channels@.len() ==> (#[trigger] self.channels@[i]).wf()
        &&& self.config.remotes@.len() > 0
    }

    /// The configuration the session runs under.
    pub closed spec fn conf(&self) -> OpenVpnConfig {
        self.config
    }

    /// The login the session uses.
    pub closed spec fn login(&self) -> Credentials {
        self.credentials
    }

    /// A session whose opening packet has been queued.
    pub fn open(
        config: OpenVpnConfig,
        protocol: Protocol,
        credentials: Credentials,
        now: Clock,
    ) -> (r: Self)
        requires
            config.remotes@.len() > 0,
        ensures
            r.wf(),
            r.conf() == config,
            r.login() == credentials,
            r@.control.session_id.len() == 8,
            r@ == opening_state(
                config.first(),
                protocol,
                control::fresh(
                    control::WrapKeys::configured(config.control_auth),
                    r@.control.session_id,
                ),
                r@.key_source,
                now,
            ),
    {
        let mut control = ControlChannel::new(&config.control_auth);
        control.start(now);
        let r = Session {
            control,
            protocol,
            config,
            credentials,
            stage: Stage::Reset,
            tls_up: false,
            key_source: KeySource::random(),
            material: None,
            channels: Vec::new(),
            pushed: None,
            control_messages: Vec::new(),
            server_material: false,
            last_push_request: None,
            last_inbound: now.monotonic,
            last_keepalive: now.monotonic,
            inbound: Vec::new(),
        };
        proof {
            assert(r@ =~= opening_state(
                config.first(),
                protocol,
                control::fresh(
                    control::WrapKeys::configured(config.control_auth),
                    r@.control.session_id,
                ),
                r@.key_source,
                now,
            ));
        }
        r
    }

    pub fn pushed(&self) -> (r: Option<Pushed>)
        ensures
            r == self@.pushed,
    {
        self.pushed
    }

    pub fn protocol(&self) -> (r: Protocol)
        ensures
            r == self@.protocol,
    {
        self.protocol
    }

    /// Notes that something came in over the link.
    pub fn heard(&mut self, now: u64)
        requires
            old(self).wf(),
        ensures
            final(self).wf(),
            final(self).conf() == old(self).conf(),
            final(self).login() == old(self).login(),
            final(self)@ == (SessionState { last_inbound: now, ..old(self)@ }),
    {
        self.last_inbound = now;
    }

    /// How a setup that began at `started` stands.
    pub fn progress(&self, started: u64, now: u64) -> (r: Progress)
        ensures
            time::elapsed(now, started) >= HANDSHAKE_TIMEOUT ==> (r matches Progress::TimedOut(why)
                && why@ == stall_reason(self@.stage)),
            time::elapsed(now, started) < HANDSHAKE_TIMEOUT ==> r == if self@.pushed is Some {
                Progress::Ready
            } else {
                Progress::Waiting
            },
            r is TimedOut <==> setup_expired(started, now),
            r is Ready <==> !setup_expired(started, now) && self@.pushed is Some,
    {
        if time::since(now, started) >= HANDSHAKE_TIMEOUT {
            return Progress::TimedOut(self.timeout_reason());
        }
        if self.pushed.is_some() {
            Progress::Ready
        } else {
            Progress::Waiting
        }
    }

    /// Explains a setup that ran out of time in terms of how far it got.
    pub fn timeout_reason(&self) -> (r: String)
        ensures
            r@ == stall_reason(self@.stage),
    {
        match self.stage {
            Stage::Reset => STALLED_AT_RESET.to_owned(),
            Stage::Tls => STALLED_AT_TLS.to_owned(),
            Stage::KeyExchange => STALLED_AT_KEYS.to_owned(),
            Stage::Push => STALLED_AT_PUSH.to_owned(),
        }
    }

    /// Fails early when the link has gone quiet, rather than waiting out the
    /// whole timeout with nothing to show.
    pub fn check_silence(&self, now: u64, peer: Option<&str>) -> (r: Result<(), String>)
        ensures
            match silence(self@, now, optional_text(peer)) {
                Some(why) => r matches Err(message) && message@ == why,
                None => r is Ok,
            },
    {
        if time::since(now, self.last_inbound) < SILENCE_LIMIT {
            return Ok(());
        }
        match self.stage {
            Stage::Reset => {
                let address = match peer {
                    Some(address) => address,
                    None => "the configured address",
                };
                Err(text::concat3("the OpenVPN server at ", address, SILENT_FROM_THE_START))
            },
            _ => match self.protocol {
                Protocol::Udp => Err(SILENT_OVER_UDP.to_owned()),
                Protocol::Tcp => Err(SILENT_OVER_TCP.to_owned()),
            },
        }
    }

    /// Whether it is time to ask for the tunnel's settings. Asking is repeated
    /// until they arrive.
    pub fn request_push(&mut self, now: u64) -> (due: bool)
        requires
            old(self).wf(),
        ensures
            final(self).wf(),
            final(self).conf() == old(self).conf(),
            final(self).login() == old(self).login(),
            due == (old(self)@.server_material && old(self)@.pushed is None && (
            old(self)@.last_push_request matches Some(last) ==> time::elapsed(now, last)
                >= PUSH_INTERVAL)),
            due == push_due(old(self)@, now),
            final(self)@ == (SessionState {
                last_push_request: if due {
                    Some(now)
                } else {
                    old(self)@.last_push_request
                },
                ..old(self)@
            }),
    {
        if !self.server_material || self.pushed.is_some() {
            return false;
        }
        if let Some(last) = self.last_push_request {
            if time::since(now, last) < PUSH_INTERVAL {
                return false;
            }
        }
        self.last_push_request = Some(now);
        true
    }

    /// Brings a key generation into use once both halves of what it needs --
    /// the derived material and the negotiated settings -- are known.
    fn install_keys(&mut self)
        requires
            old(self).wf(),
        ensures
            final(self).wf(),
            final(self).conf() == old(self).conf(),
            final(self).login() == old(self).login(),
            final(self)@ == keys_installed(old(self)@),
    {
        let ghost st = self@;
        let pushed = match self.pushed {
            Some(pushed) => pushed,
            None => return,
        };
        let key_id: u8 = self.control.key_id();
        let mut at: usize = 0;
        while at < self.channels.len()
            invariant
                at <= self.channels@.len(),
                self@ == st,
                *self == *old(self),
                old(self).wf(),
                key_id == st.control.key_id,
                forall|i: int| 0 <= i < at ==> (#[trigger] st.channels[i]).key_id != key_id,
            decreases self.channels@.len() - at,
        {
            assert(st.channels[at as int] == self.channels@[at as int]@);
            if self.channels[at].key_id() == key_id {
                assert(has_generation(st.channels, key_id));
                return;
            }
            at = at + 1;
        }
        assert(!has_generation(st.channels, key_id));
        let channel = match &self.material {
            None => return,
            Some(material) => match DataChannel::new(
                material,
                pushed.cipher,
                pushed.peer_id,
                key_id,
            ) {
                Ok(channel) => channel,
                Err(_) => return,
            },
        };
        self.channels.push(channel);
        assert(self@.channels =~= st.channels.push(channel@));
        // Only the generation being replaced is kept, so that packets still in
        // flight on it are not thrown away.
        if self.channels.len() > 2 {
            let _ = self.channels.remove(0);
            assert(self@.channels =~= st.channels.push(channel@).skip(1));
        }
        assert(self@ =~= keys_installed(st));
    }

    /// Takes in one text message from the server.
    pub fn handle_message(&mut self, message: &str) -> (r: Result<(), String>)
        requires
            old(self).wf(),
        ensures
            final(self).wf(),
            final(self).conf() == old(self).conf(),
            final(self).login() == old(self).login(),
            final(self)@ == message_handled(old(self)@, message@).state,
            match message_handled(old(self)@, message@).fault {
                Some(why) => r matches Err(text) && text@ == why,
                None => r is Ok,
            },
    {
        let chars = text::chars(message);
        let message = chars.as_slice();
        if text::starts_with(message, "PUSH_REPLY,") {
            if self.pushed.is_some() {
                return Ok(());
            }
            proof {
                reveal_strlit("PUSH_REPLY,");
            }
            let options = slice_subrange(message, 11, message.len());
            assert(options@ =~= message@.skip(11));
            let cipher = self.config.first_cipher();
            let pushed = match read_push(cipher, text::string(options).as_str()) {
                Ok(pushed) => pushed,
                Err(why) => return Err(why),
            };
            if self.material.is_none() {
                return Err(PUSHED_EARLY.to_owned());
            }
            self.pushed = Some(pushed);
            self.install_keys();
            return Ok(());
        }
        if text::starts_with(message, "AUTH_FAILED") || text::starts_with(message, "RESTART")
            || text::starts_with(message, "HALT") {
            return Err(refusal_of(message));
        }
        // `INFO`, `AUTH_PENDING` and anything else the server chooses to say
        // are progress notes rather than results.
        Ok(())
    }

    /// Takes in the text messages that are whole.
    fn read_texts(&mut self) -> (r: Result<(), String>)
        requires
            old(self).wf(),
        ensures
            final(self).wf(),
            final(self).conf() == old(self).conf(),
            final(self).login() == old(self).login(),
            final(self)@ == texts_read(old(self)@, old(self)@.messages).state,
            match texts_read(old(self)@, old(self)@.messages).fault {
                Some(why) => r matches Err(text) && text@ == why,
                None => r is Ok,
            },
    {
        let ghost goal = texts_read(self@, self@.messages);
        loop
            invariant
                self.wf(),
                self.conf() == old(self).conf(),
                self.login() == old(self).login(),
                goal == texts_read(old(self)@, old(self)@.messages),
                goal == texts_read(self@, self@.messages),
            decreases self.control_messages@.len(),
        {
            let ghost st = self@;
            let end: usize = find_zero(self.control_messages.as_slice());
            if end == self.control_messages.len() {
                assert(self@ =~= (SessionState { messages: st.messages, ..st }));
                return Ok(());
            }
            let message = read_text(
                slice_subrange(self.control_messages.as_slice(), 0, end),
            );
            let mut rest: Vec<u8> = self.control_messages.split_off(end + 1);
            core::mem::swap(&mut rest, &mut self.control_messages);
            proof {
                assert(rest@.subrange(0, end as int) =~= st.messages.take(end as int));
                assert(st.messages.subrange(0, end as int) =~= st.messages.take(end as int));
                assert(self@.messages =~= st.messages.skip(end + 1));
                assert(self@ =~= (SessionState { messages: st.messages.skip(end + 1), ..st }));
                lemma_message_keeps_the_rest(self@, message@);
            }
            match self.handle_message(message.as_str()) {
                Ok(_) => {},
                Err(why) => return Err(why),
            }
        }
    }

    /// Reads the server's key material and then its text messages.
    fn read_control_messages(&mut self) -> (r: Result<(), String>)
        requires
            old(self).wf(),
        ensures
            final(self).wf(),
            final(self).conf() == old(self).conf(),
            final(self).login() == old(self).login(),
            final(self)@ == messages_read(old(self)@).state,
            match messages_read(old(self)@).fault {
                Some(why) => r matches Err(text) && text@ == why,
                None => r is Ok,
            },
    {
        let ghost st = self@;
        if self.server_material {
            return self.read_texts();
        }
        if self.control_messages.len() < SERVER_MATERIAL_FIXED {
            return Ok(());
        }
        let m = self.control_messages.as_slice();
        let zeros: bool = m[0] == 0 && m[1] == 0 && m[2] == 0 && m[3] == 0;
        proof {
            let z = seq![0u8, 0u8, 0u8, 0u8];
            let head = st.messages.take(4);
            if zeros {
                assert(head =~= z);
            } else if head == z {
                assert(z[0] == 0 && z[1] == 0 && z[2] == 0 && z[3] == 0);
                assert(head[0] == m@[0] && head[1] == m@[1] && head[2] == m@[2] && head[3]
                    == m@[3]);
            }
        }
        if !zeros || m[4] != 2 {
            let said = text::chars(read_text(m).as_str());
            let bare = text::remove_char(said.as_slice(), '\0');
            return Err(refusal_of(text::trim(bare.as_slice())));
        }
        proof {
            bytes::lemma_byte_ranges();
        }
        let size: usize = SERVER_MATERIAL_FIXED + bytes::from_be(m, 69, 71) as usize;
        if self.control_messages.len() < size {
            return Ok(());
        }
        let random1 = bytes::filled([0u8; 32], slice_subrange(m, 5, 37));
        let random2 = bytes::filled([0u8; 32], slice_subrange(m, 37, 69));
        let client_id = self.control.session_id();
        let server_id = match self.control.remote_session_id() {
            Some(server_id) => server_id,
            None => return Err(NO_SERVER_SESSION.to_owned()),
        };
        self.material = Some(
            KeyMaterial::derive(&self.key_source, &random1, &random2, &client_id, &server_id),
        );
        let mut rest: Vec<u8> = self.control_messages.split_off(size);
        core::mem::swap(&mut rest, &mut self.control_messages);
        self.server_material = true;
        self.stage = Stage::Push;
        proof {
            let derived = crypto::key_expansion(
                st.key_source,
                st.messages.subrange(5, 37),
                st.messages.subrange(37, 69),
                st.control.session_id,
                server_id@,
            );
            assert(self@ =~= (SessionState {
                material: Some(derived),
                messages: st.messages.skip(size as int),
                server_material: true,
                stage: Stage::Push,
                ..st
            }));
        }
        // On a renegotiation the settings are already known, so the new keys
        // can go into use the moment the material exists. On a first handshake
        // there is nothing to install until the server pushes.
        self.install_keys();
        self.read_texts()
    }

    /// Takes in what the TLS client decrypted.
    ///
    /// Returns the client's half of the key exchange, to be written through TLS,
    /// once the handshake has finished.
    pub fn tls_progress(&mut self, received: &[u8], handshaking: bool) -> (r: Result<
        Option<Vec<u8>>,
        String,
    >)
        requires
            old(self).wf(),
        ensures
            final(self).wf(),
            final(self).conf() == old(self).conf(),
            final(self).login() == old(self).login(),
            ({
                let read = tls_read(old(self)@, received@);
                match read.fault {
                    Some(why) => final(self)@ == read.state && (r matches Err(message) && message@
                        == why),
                    None => if !handshaking && read.state.stage == Stage::Tls {
                        &&& final(self)@ == (SessionState {
                            stage: Stage::KeyExchange,
                            ..read.state
                        })
                        &&& r matches Ok(found)
                        &&& found matches Some(message)
                        &&& message@ == key_method_message(
                            read.state.key_source,
                            old(self).conf().options_text(read.state.protocol),
                            old(self).login().user(),
                            old(self).login().secret(),
                            old(self).conf().peer_info_text(&old(self).conf().remotes@[0]),
                        )
                        &&& reads_as(
                            message@,
                            read.state.key_source,
                            old(self).conf().options_text(read.state.protocol),
                            old(self).login(),
                            old(self).conf().peer_info_text(&old(self).conf().remotes@[0]),
                        )
                    } else {
                        final(self)@ == read.state && (r matches Ok(found) && found is None)
                    },
                }
            }),
    {
        if received.len() > 0 {
            let ghost st = self@;
            self.control_messages.extend_from_slice(received);
            assert(self@ =~= (SessionState { messages: st.messages + received@, ..st }));
            match self.read_control_messages() {
                Ok(_) => {},
                Err(why) => return Err(why),
            }
        }
        if !handshaking && self.stage == Stage::Tls {
            let message = self.key_material();
            self.stage = Stage::KeyExchange;
            return Ok(Some(message));
        }
        Ok(None)
    }

    /// The client's half of the key exchange.
    fn key_material(&self) -> (r: Vec<u8>)
        requires
            self.wf(),
        ensures
            r@ == key_method_message(
                self@.key_source,
                self.conf().options_text(self@.protocol),
                self.login().user(),
                self.login().secret(),
                self.conf().peer_info_text(&self.conf().remotes@[0]),
            ),
            reads_as(
                r@,
                self@.key_source,
                self.conf().options_text(self@.protocol),
                self.login(),
                self.conf().peer_info_text(&self.conf().remotes@[0]),
            ),
    {
        let options = self.config.options_string(self.protocol);
        let peer_info = self.config.peer_info(&self.config.remotes[0]);
        let mut blob: Vec<u8> = vec![0u8, 0u8, 0u8, 0u8, 2u8];
        assert(blob@ =~= seq![0u8, 0u8, 0u8, 0u8, 2u8]);
        blob.extend_from_slice(self.key_source.pre_master.as_slice());
        blob.extend_from_slice(self.key_source.random1.as_slice());
        blob.extend_from_slice(self.key_source.random2.as_slice());
        write_string(&mut blob, Some(options.as_str()));
        match &self.credentials.username {
            Some(name) => write_string(&mut blob, Some(name.as_str())),
            None => write_string(&mut blob, None),
        }
        match &self.credentials.password {
            Some(word) => write_string(&mut blob, Some(word.as_str())),
            None => write_string(&mut blob, None),
        }
        write_string(&mut blob, Some(peer_info.as_str()));
        proof {
            a_login_is_read_in_its_fields(
                self.key_source,
                options@,
                self.credentials,
                peer_info@,
            );
        }
        blob
    }

    /// Opens a data packet under whichever key generation sealed it.
    fn open_data(&mut self, packet: &[u8]) -> (r: Result<Option<Vec<u8>>, String>)
        requires
            old(self).wf(),
            packet@.len() > 0,
        ensures
            final(self).wf(),
            final(self).conf() == old(self).conf(),
            final(self).login() == old(self).login(),
            match data_opened(old(self)@, packet@) {
                DataOutcome::Refused(why) => final(self)@ == old(self)@ && (r matches Err(message)
                    && message@ == why),
                DataOutcome::Swallowed(next) => final(self)@ == next && (r matches Ok(found)
                    && found is None),
                DataOutcome::Inner(next, inner) => final(self)@ == next && (r matches Ok(found)
                    && found matches Some(body) && body@ == inner),
            },
    {
        let ghost st = self@;
        let key_id: u8 = packet[0] & 7;
        let mut at: usize = 0;
        while at < self.channels.len() && self.channels[at].key_id() != key_id
            invariant
                at <= self.channels@.len(),
                self@ == st,
                *self == *old(self),
                forall|i: int| 0 <= i < at ==> (#[trigger] st.channels[i]).key_id != key_id,
            decreases self.channels@.len() - at,
        {
            assert(st.channels[at as int] == self.channels@[at as int]@);
            at = at + 1;
        }
        proof {
            if at < self.channels@.len() {
                assert(st.channels[at as int] == self.channels@[at as int]@);
            }
            lemma_generation_index(st.channels, key_id, at as nat);
        }
        if at == self.channels.len() {
            return Ok(None);
        }
        let ghost before = self.channels@;
        let r = self.channels[at].open(packet);
        proof {
            let n = at as int;
            assert(self.channels@ == before.update(n, self.channels@[n]));
            assert(channel_states(self.channels@) =~= st.channels.update(n, self.channels@[n]@));
            if self.channels@[n]@ == st.channels[n] {
                assert(st.channels.update(n, st.channels[n]) =~= st.channels);
            }
        }
        r
    }

    /// Advances the setup with one packet from the link.
    ///
    /// Data can arrive before the push is read; it is kept rather than dropped
    /// so that nothing is lost at the moment the tunnel opens.
    pub fn step(&mut self, packet: &[u8], now: Clock) -> (r: Result<Next, String>)
        requires
            old(self).wf(),
        ensures
            final(self).wf(),
            final(self).conf() == old(self).conf(),
            final(self).login() == old(self).login(),
            packet@.len() == 0 ==> final(self)@ == old(self)@ && (r matches Err(message) && message@
                == EMPTY_PACKET@),
            packet@.len() > 0 && (packet@[0] >> 3 == 6 || packet@[0] >> 3 == 9) ==> match data_opened(
                old(self)@,
                packet@,
            ) {
                DataOutcome::Refused(why) => final(self)@ == old(self)@ && (r matches Err(message)
                    && message@ == why),
                DataOutcome::Swallowed(next) => final(self)@ == next && r == Ok::<Next, String>(
                    Next::Idle,
                ),
                DataOutcome::Inner(next, inner) => final(self)@ == (SessionState {
                    inbound: next.inbound.push(inner),
                    ..next
                }) && r == Ok::<Next, String>(Next::Idle),
            },
            packet@.len() > 0 && packet@[0] >> 3 != 6 && packet@[0] >> 3 != 9 ==> match control_step(
                old(self)@,
                packet@,
                now,
                final(self)@.key_source,
            ) {
                Err(why) => final(self)@ == old(self)@ && (r matches Err(message) && message@
                    == why),
                Ok((next, request)) => final(self)@ == next && (r matches Ok(found)
                    && found.model() == request),
            },
    {
        let opcode: u8 = match control::opcode_of(packet) {
            Some(opcode) => opcode,
            None => return Err(EMPTY_PACKET.to_owned()),
        };
        if control::is_data(opcode) {
            let ghost st = self@;
            match self.open_data(packet) {
                Ok(Some(inner)) => {
                    let ghost next = self@;
                    self.inbound.push(inner);
                    assert(self@.inbound =~= next.inbound.push(inner@));
                    return Ok(Next::Idle);
                },
                Ok(None) => return Ok(Next::Idle),
                Err(why) => return Err(why),
            }
        }
        let ghost st = self@;
        match self.control.receive(packet, now.unix_seconds) {
            Err(why) => {
                assert(self@ =~= st);
                Err(why)
            },
            Ok(Received::Nothing) => Ok(Next::Idle),
            Ok(Received::ServerReset) => {
                if self.tls_up {
                    return Ok(Next::Idle);
                }
                self.tls_up = true;
                self.stage = Stage::Tls;
                Ok(Next::BeginTls)
            },
            Ok(Received::Payload(payload)) => {
                if self.tls_up {
                    Ok(Next::FeedTls(payload))
                } else {
                    Ok(Next::Idle)
                }
            },
            Ok(Received::SoftReset { key_id }) => {
                if key_id == self.control.key_id() {
                    return Ok(Next::Idle);
                }
                self.control.rekey(key_id);
                self.control.restart(now);
                self.tls_up = true;
                self.stage = Stage::Tls;
                self.material = None;
                self.server_material = false;
                self.control_messages.clear();
                self.key_source = KeySource::random();
                assert(self@.messages =~= Seq::<u8>::empty());
                Ok(Next::RestartTls)
            },
        }
    }

    /// Handles one packet from the link once the tunnel is up, returning an
    /// inner packet if that is what it held.
    ///
    /// Control traffic is handled here as well as during setup, because a
    /// session that has been up for an hour is asked to rekey and has to do it
    /// without interrupting what it is carrying.
    pub fn absorb(&mut self, packet: &[u8], now: Clock) -> (r: Result<
        (Option<Vec<u8>>, Next),
        String,
    >)
        requires
            old(self).wf(),
        ensures
            final(self).wf(),
            final(self).conf() == old(self).conf(),
            final(self).login() == old(self).login(),
            packet@.len() == 0 ==> final(self)@ == old(self)@ && (r matches Err(message) && message@
                == EMPTY_PACKET@),
            packet@.len() > 0 && (packet@[0] >> 3 == 6 || packet@[0] >> 3 == 9) ==> match data_opened(
                old(self)@,
                packet@,
            ) {
                DataOutcome::Refused(why) => final(self)@ == old(self)@ && (r matches Err(message)
                    && message@ == why),
                DataOutcome::Swallowed(next) => final(self)@ == next && (r matches Ok(found)
                    && found.0 is None && found.1 == Next::Idle),
                DataOutcome::Inner(next, inner) => final(self)@ == next && (r matches Ok(found)
                    && (found.0 matches Some(body) && body@ == inner) && found.1 == Next::Idle),
            },
            packet@.len() > 0 && packet@[0] >> 3 != 6 && packet@[0] >> 3 != 9 ==> match control_step(
                old(self)@,
                packet@,
                now,
                final(self)@.key_source,
            ) {
                Err(why) => final(self)@ == old(self)@ && (r matches Err(message) && message@
                    == why),
                Ok((next, request)) => final(self)@ == next && (r matches Ok(found) && found.0
                    is None && found.1.model() == request),
            },
    {
        let opcode: u8 = match control::opcode_of(packet) {
            Some(opcode) => opcode,
            None => return Err(EMPTY_PACKET.to_owned()),
        };
        if control::is_data(opcode) {
            return match self.open_data(packet) {
                Ok(inner) => Ok((inner, Next::Idle)),
                Err(why) => Err(why),
            };
        }
        match self.step(packet, now) {
            Ok(next) => Ok((None, next)),
            Err(why) => Err(why),
        }
    }

    /// Takes the inner packets that arrived while something else was being
    /// waited for.
    pub fn take_inbound(&mut self) -> (r: Vec<Vec<u8>>)
        requires
            old(self).wf(),
        ensures
            final(self).wf(),
            final(self).conf() == old(self).conf(),
            final(self).login() == old(self).login(),
            config::byte_views(r@) == old(self)@.inbound,
            final(self)@ == (SessionState { inbound: Seq::<Seq<u8>>::empty(), ..old(self)@ }),
    {
        let mut r: Vec<Vec<u8>> = Vec::new();
        core::mem::swap(&mut r, &mut self.inbound);
        assert(self@.inbound =~= Seq::<Seq<u8>>::empty());
        r
    }

    /// Wraps one inner IP packet for the link, under the newest keys.
    pub fn send_inner(&mut self, packet: &[u8], now: u64) -> (r: Result<Vec<u8>, String>)
        requires
            old(self).wf(),
        ensures
            final(self).wf(),
            final(self).conf() == old(self).conf(),
            final(self).login() == old(self).login(),
            final(self)@ == inner_sent(old(self)@, packet@, now).state,
            match inner_sent(old(self)@, packet@, now).sealed {
                Ok(bytes) => r matches Ok(sealed) && sealed@ == bytes,
                Err(why) => r matches Err(message) && message@ == why,
            },
    {
        let ghost st = self@;
        if self.channels.len() == 0 {
            return Err(CHANNEL_DOWN.to_owned());
        }
        let at: usize = self.channels.len() - 1;
        let ghost before = self.channels@;
        assert(st.channels[at as int] == before[at as int]@);
        let r = self.channels[at].seal(packet);
        proof {
            let n = at as int;
            assert(self.channels@ == before.update(n, self.channels@[n]));
            assert(channel_states(self.channels@) =~= st.channels.update(n, self.channels@[n]@));
            if self.channels@[n]@ == st.channels[n] {
                assert(st.channels.update(n, st.channels[n]) =~= st.channels);
            }
        }
        match r {
            Ok(sealed) => {
                self.last_keepalive = now;
                Ok(sealed)
            },
            Err(why) => Err(why),
        }
    }

    /// A keepalive, if the server expects one and nothing has gone out.
    pub fn keepalive(&mut self, now: u64) -> (r: Result<Option<Vec<u8>>, String>)
        requires
            old(self).wf(),
        ensures
            final(self).wf(),
            final(self).conf() == old(self).conf(),
            final(self).login() == old(self).login(),
            !keepalive_due(old(self)@, now) ==> final(self)@ == old(self)@ && (r matches Ok(found)
                && found is None),
            keepalive_due(old(self)@, now) && old(self)@.channels.len() == 0 ==> final(self)@
                == old(self)@ && (r matches Err(message) && message@ == CHANNEL_DOWN@),
            keepalive_due(old(self)@, now) && old(self)@.channels.len() > 0 ==> {
                let n = old(self)@.channels.len() - 1;
                let newest = old(self)@.channels[n];
                if newest.next_packet_id == u32::MAX {
                    final(self)@ == old(self)@ && (r matches Err(message) && message@
                        == KEYS_EXHAUSTED@)
                } else {
                    &&& r matches Ok(found)
                    &&& found matches Some(ping)
                    &&& ping@ == crypto::sealed_packet(newest, crypto::PING@)
                    &&& final(self)@ == (SessionState {
                        channels: old(self)@.channels.update(
                            n,
                            DataState {
                                next_packet_id: (newest.next_packet_id + 1) as u32,
                                ..newest
                            },
                        ),
                        last_keepalive: now,
                        ..old(self)@
                    })
                }
            },
            keepalive_due(old(self)@, now) ==> {
                let sent = inner_sent(old(self)@, crypto::PING@, now);
                final(self)@ == sent.state && match sent.sealed {
                    Ok(framed) => r matches Ok(found) && (found matches Some(ping) && ping@
                        == framed),
                    Err(why) => r matches Err(message) && message@ == why,
                }
            },
    {
        let seconds: u64 = match self.pushed {
            Some(pushed) => match pushed.keepalive {
                Some(seconds) => seconds,
                None => return Ok(None),
            },
            None => return Ok(None),
        };
        let quiet: u64 = time::since(now, self.last_keepalive);
        if (quiet as u128) < seconds as u128 * 1_000_000_000 {
            return Ok(None);
        }
        if self.channels.len() == 0 {
            return Err(CHANNEL_DOWN.to_owned());
        }
        let ghost st = self@;
        let at: usize = self.channels.len() - 1;
        let ghost before = self.channels@;
        assert(st.channels[at as int] == before[at as int]@);
        let r = self.channels[at].keepalive();
        proof {
            let n = at as int;
            assert(self.channels@ == before.update(n, self.channels@[n]));
            assert(channel_states(self.channels@) =~= st.channels.update(n, self.channels@[n]@));
            if self.channels@[n]@ == st.channels[n] {
                assert(st.channels.update(n, st.channels[n]) =~= st.channels);
            }
        }
        match r {
            Ok(ping) => {
                self.last_keepalive = now;
                Ok(Some(ping))
            },
            Err(why) => Err(why),
        }
    }

    /// Moves what TLS wants to send into control packets.
    pub fn queue_tls(&mut self, data: &[u8], now: Clock)
        requires
            old(self).wf(),
        ensures
            final(self).wf(),
            final(self).conf() == old(self).conf(),
            final(self).login() == old(self).login(),
            final(self)@ == (SessionState {
                control: control::sent_tls(old(self)@.control, data@, now),
                ..old(self)@
            }),
    {
        self.control.send_tls(data, now);
    }

    /// Queues another copy of every control packet that has gone unacknowledged
    /// for too long. The reliability layer has to keep turning even while
    /// traffic is flowing, or a retransmission needed part-way through a
    /// renegotiation never goes out.
    pub fn resend_stale(&mut self, now: u64)
        requires
            old(self).wf(),
        ensures
            final(self).wf(),
            final(self).conf() == old(self).conf(),
            final(self).login() == old(self).login(),
            final(self)@ == (SessionState {
                control: control::stale_resent(old(self)@.control, now),
                ..old(self)@
            }),
    {
        self.control.resend_stale(now);
    }

    /// Takes the next control packet to put on the link.
    pub fn take_outgoing(&mut self) -> (r: Option<Vec<u8>>)
        requires
            old(self).wf(),
        ensures
            final(self).wf(),
            final(self).conf() == old(self).conf(),
            final(self).login() == old(self).login(),
            r is Some <==> old(self)@.control.outgoing.len() > 0,
            r matches Some(packet) ==> packet@ == old(self)@.control.outgoing[0],
            final(self)@ == (SessionState {
                control: ControlState {
                    outgoing: if old(self)@.control.outgoing.len() > 0 {
                        old(self)@.control.outgoing.skip(1)
                    } else {
                        old(self)@.control.outgoing
                    },
                    ..old(self)@.control
                },
                ..old(self)@
            }),
    {
        self.control.take_outgoing()
    }
}

/// Whether the server expects a sign of life by now.
pub open spec fn keepalive_due(st: SessionState, now: u64) -> bool {
    st.pushed matches Some(pushed) && pushed.keepalive matches Some(seconds) && time::elapsed(
        now,
        st.last_keepalive,
    ) >= seconds * 1_000_000_000
}

proof fn lemma_message_keeps_the_rest(st: SessionState, message: Seq<char>)
    ensures
        message_handled(st, message).state.messages == st.messages,
{
}

proof fn lemma_generation_index(channels: Seq<DataState>, key_id: u8, n: nat)
    requires
        n <= channels.len(),
        forall|i: int| 0 <= i < n ==> (#[trigger] channels[i]).key_id != key_id,
        n < channels.len() ==> channels[n as int].key_id == key_id,
    ensures
        generation_index(channels, key_id) == n,
    decreases n,
{
    if n > 0 {
        assert forall|i: int| 0 <= i < n - 1 implies (#[trigger] channels.skip(1)[i]).key_id
            != key_id by {
            assert(channels.skip(1)[i] == channels[i + 1]);
        }
        assert(channels[0].key_id != key_id);
        lemma_generation_index(channels.skip(1), key_id, (n - 1) as nat);
    }
}

proof fn lemma_first_zero(data: Seq<u8>, n: nat)
    requires
        n <= data.len(),
        forall|i: int| 0 <= i < n ==> data[i] != 0,
        n < data.len() ==> data[n as int] == 0,
    ensures
        first_zero(data) == n,
    decreases n,
{
    if n > 0 {
        lemma_first_zero(data.skip(1), (n - 1) as nat);
    }
}

fn find_zero(data: &[u8]) -> (n: usize)
    ensures
        n == first_zero(data@),
        n <= data@.len(),
{
    let mut n: usize = 0;
    while n < data.len() && data[n] != 0
        invariant
            n <= data@.len(),
            forall|i: int| 0 <= i < n ==> data@[i] != 0,
        decreases data@.len() - n,
    {
        n = n + 1;
    }
    proof {
        lemma_first_zero(data@, n as nat);
    }
    n
}

/// No more than two key generations are ever in use, each under its own key id.
pub proof fn at_most_two_generations_are_in_use(st: SessionState)
    requires
        st.channels.len() <= 2,
        forall|i: int, j: int|
            0 <= i < j < st.channels.len() ==> (#[trigger] st.channels[i]).key_id != (
            #[trigger] st.channels[j]).key_id,
    ensures
        keys_installed(st).channels.len() <= 2,
        forall|i: int, j: int|
            0 <= i < j < keys_installed(st).channels.len() ==> (#[trigger] keys_installed(
                st,
            ).channels[i]).key_id != (#[trigger] keys_installed(st).channels[j]).key_id,
{
    if st.material is Some && st.pushed is Some && !has_generation(st.channels, st.control.key_id) {
        let next = keys_installed(st).channels;
        let all = st.channels.push(
            crypto::new_channel(
                st.material->0,
                st.pushed->0.cipher,
                st.pushed->0.peer_id,
                st.control.key_id,
            ),
        );
        assert forall|i: int, j: int| 0 <= i < j < all.len() implies (#[trigger] all[i]).key_id != (
        #[trigger] all[j]).key_id by {
            assert(all[i] == st.channels[i]);
            if j < st.channels.len() {
                assert(all[j] == st.channels[j]);
            }
        }
        assert forall|i: int, j: int| 0 <= i < j < next.len() implies (#[trigger] next[i]).key_id
            != (#[trigger] next[j]).key_id by {
            if all.len() > 2 {
                assert(next[i] == all[i + 1]);
                assert(next[j] == all[j + 1]);
            }
        }
    }
}

/// A rekey interrupts nothing: the generation being replaced stays in use, both
/// while the new one is negotiated and once it is installed, and packets go out
/// under the new one from then on.
pub proof fn the_generation_being_replaced_stays_in_use(
    st: SessionState,
    key_id: u8,
    now: Clock,
    source: KeySource,
)
    requires
        st.channels.len() > 0,
    ensures
        renegotiated(st, key_id, now, source).0.channels == st.channels,
        renegotiated(st, key_id, now, source).0.pushed == st.pushed,
        keys_installed(st).channels.contains(st.channels.last()),
        st.material is Some && st.pushed is Some && !has_generation(st.channels, st.control.key_id)
            ==> keys_installed(st).channels.last().key_id == st.control.key_id,
{
    let next = keys_installed(st).channels;
    let n = st.channels.len() as int;
    assert(st.channels[n - 1] == st.channels.last());
    if st.material is Some && st.pushed is Some && !has_generation(st.channels, st.control.key_id) {
        if n + 1 > 2 {
            assert(next[n - 2] == st.channels.last());
        } else {
            assert(next[n - 1] == st.channels.last());
        }
    }
}

/// The longest one wait for the link goes on, so that keepalives and
/// retransmissions are not held up by an idle tunnel.
pub const READ_SLICE: u64 = 50_000_000;

/// Inner packets on their way to whoever asked for them.
///
/// A caller waits for the first packet only. Once one has arrived, whatever else
/// is already there is taken without waiting again, so a burst is handed over in
/// one go.
pub struct Gathering {
    pub packets: Vec<Vec<u8>>,
    pub deadline: u64,
    pub draining: bool,
}

#[verifier::ext_equal]
pub struct GatherState {
    pub packets: Seq<Seq<u8>>,
    pub deadline: u64,
    pub draining: bool,
}

impl View for Gathering {
    type V = GatherState;

    open spec fn view(&self) -> GatherState {
        GatherState {
            packets: config::byte_views(self.packets@),
            deadline: self.deadline,
            draining: self.draining,
        }
    }
}

impl GatherState {
    /// How long the next read of the link may wait. None is made once the time
    /// is up.
    pub open spec fn wait(self, now: u64) -> Option<u64> {
        if self.draining {
            Some(DRAIN)
        } else if now >= self.deadline {
            None
        } else if self.deadline - now > READ_SLICE {
            Some(READ_SLICE)
        } else {
            Some((self.deadline - now) as u64)
        }
    }

    /// What is there once the link was read. A packet of the link that held an
    /// inner one brings it; another, or none, brings nothing.
    pub open spec fn after(self, inner: Option<Seq<u8>>) -> Self {
        match inner {
            Some(packet) => GatherState {
                packets: self.packets.push(packet),
                draining: true,
                ..self
            },
            None => self,
        }
    }

    /// Whether to read again after a read that brought no packet of the link.
    pub open spec fn goes_on_idle(self) -> bool {
        !self.draining && self.packets.len() == 0
    }
}

impl Gathering {
    /// Begins with what arrived while something else was being waited for.
    pub fn begin(session: &mut Session, timeout: u64, now: u64) -> (r: Self)
        requires
            old(session).wf(),
        ensures
            final(session).wf(),
            final(session).conf() == old(session).conf(),
            final(session).login() == old(session).login(),
            final(session)@ == (SessionState {
                inbound: Seq::<Seq<u8>>::empty(),
                ..old(session)@
            }),
            r@ == (GatherState {
                packets: old(session)@.inbound,
                deadline: time::later(now, timeout),
                draining: false,
            }),
    {
        Gathering {
            packets: session.take_inbound(),
            deadline: time::after(now, timeout),
            draining: false,
        }
    }

    /// How long the next read of the link may wait, or that the time is up.
    pub fn wait(&self, now: u64) -> (r: Option<u64>)
        ensures
            r == self@.wait(now),
    {
        if self.draining {
            Some(DRAIN)
        } else if now >= self.deadline {
            None
        } else if self.deadline - now > READ_SLICE {
            Some(READ_SLICE)
        } else {
            Some(self.deadline - now)
        }
    }

    /// Takes in what a packet of the link held.
    pub fn absorbed(&mut self, inner: Option<Vec<u8>>)
        ensures
            final(self)@ == old(self)@.after(
                match inner {
                    Some(packet) => Some(packet@),
                    None => None,
                },
            ),
    {
        let ghost before = self.packets@;
        if let Some(packet) = inner {
            let ghost bytes = packet@;
            self.packets.push(packet);
            self.draining = true;
            assert(config::byte_views(self.packets@) =~= config::byte_views(before).push(bytes));
        }
    }

    /// Whether to read again after a read that brought nothing.
    pub fn goes_on_idle(&self) -> (r: bool)
        ensures
            r == self@.goes_on_idle(),
    {
        !self.draining && self.packets.len() == 0
    }
}

/// The wait is for the first packet alone: once one is there, no read waits
/// longer than it takes to see what else has arrived, and the first that finds
/// nothing is the last.
pub proof fn a_burst_is_handed_over_in_one_go(st: GatherState, packet: Seq<u8>, now: u64)
    ensures
        st.after(Some(packet)).packets == st.packets.push(packet),
        st.after(Some(packet)).wait(now) == Some(DRAIN),
        !st.after(Some(packet)).goes_on_idle(),
        st.wait(now) matches Some(wait) ==> wait <= READ_SLICE,
{
}

/// A text field at the front of some bytes, as its reader takes it: two bytes of
/// length, then that many bytes, of which the last is a zero that ends the text.
/// A length of zero is an empty text. What follows the field comes with it.
pub open spec fn front_text(data: Seq<u8>) -> Option<(Seq<u8>, Seq<u8>)> {
    if data.len() < 2 {
        None
    } else {
        let n = data[0] as int * 256 + data[1] as int;
        if n == 0 {
            Some((Seq::<u8>::empty(), data.skip(2)))
        } else if data.len() < 2 + n || data[1 + n] != 0 {
            None
        } else {
            Some((data.subrange(2, 1 + n), data.skip(2 + n)))
        }
    }
}

/// The first `count` text fields of some bytes, and nothing behind them.
pub open spec fn text_fields(data: Seq<u8>, count: nat) -> Option<Seq<Seq<u8>>>
    decreases count,
{
    if count == 0 {
        if data.len() == 0 {
            Some(Seq::<Seq<u8>>::empty())
        } else {
            None
        }
    } else {
        match front_text(data) {
            None => None,
            Some((first, rest)) => match text_fields(rest, (count - 1) as nat) {
                None => None,
                Some(others) => Some(seq![first] + others),
            },
        }
    }
}

/// Whether a text is short enough for its length to fit in front of it.
pub open spec fn fits_a_field(value: Seq<char>) -> bool {
    vstd::utf8::encode_utf8(value).len() < 0xffff
}

/// Whether a reader of the client's half of the key exchange finds these values
/// in it: four zero bytes, the key method, 112 random bytes, then the options,
/// the account's name, its password and the description of the client. A name or
/// a password that is missing reads as an empty one.
pub open spec fn reads_as(
    message: Seq<u8>,
    source: KeySource,
    options: Seq<char>,
    login: Credentials,
    peer_info: Seq<char>,
) -> bool {
    let name = match login.username {
        Some(name) => name@,
        None => Seq::<char>::empty(),
    };
    let password = match login.password {
        Some(password) => password@,
        None => Seq::<char>::empty(),
    };
    fits_a_field(options) && fits_a_field(name) && fits_a_field(password) && fits_a_field(peer_info)
        ==> {
        &&& message.len() > 117
        &&& message[0] == 0 && message[1] == 0 && message[2] == 0 && message[3] == 0
        &&& message[4] == 2
        &&& message.subrange(5, 53) == source.pre_master@
        &&& message.subrange(53, 85) == source.random1@
        &&& message.subrange(85, 117) == source.random2@
        &&& text_fields(message.skip(117), 4) == Some(
            seq![
                vstd::utf8::encode_utf8(options),
                vstd::utf8::encode_utf8(name),
                vstd::utf8::encode_utf8(password),
                vstd::utf8::encode_utf8(peer_info),
            ],
        )
    }
}

proof fn lemma_field_reads(value: Option<Seq<char>>, rest: Seq<u8>)
    requires
        value matches Some(text) ==> fits_a_field(text),
    ensures
        front_text(string_field(value) + rest) == Some(
            (
                match value {
                    Some(text) => vstd::utf8::encode_utf8(text),
                    None => Seq::<u8>::empty(),
                },
                rest,
            ),
        ),
{
    let data = string_field(value) + rest;
    assert(data.skip(2) =~= string_field(value).skip(2) + rest);
    let text = match value {
        Some(text) => text,
        None => Seq::<char>::empty(),
    };
    let body = vstd::utf8::encode_utf8(text);
    if text.len() == 0 {
        reveal_with_fuel(vstd::utf8::encode_utf8, 1);
        assert(body =~= Seq::<u8>::empty());
        assert(data.skip(2) =~= rest);
    } else {
        let n = body.len() + 1;
        bytes::lemma_byte_ranges();
        reveal_with_fuel(bytes::be_bytes, 3);
        let head = bytes::be_bytes(n, 2);
        assert(head =~= seq![((n / 256) % 256) as u8, (n % 256) as u8]);
        assert(data =~= head + body + seq![0u8] + rest);
        assert(data[0] == head[0] && data[1] == head[1]);
        assert(n < 0x1_0000);
        assert(n / 256 < 256);
        assert(data[0] as int * 256 + data[1] as int == n);
        assert(data.subrange(2, 1 + n as int) =~= body);
        assert(data.skip(2 + n as int) =~= rest);
    }
}

proof fn lemma_parts_in_order(
    source: KeySource,
    a: Seq<u8>,
    b: Seq<u8>,
    c: Seq<u8>,
    d: Seq<u8>,
)
    ensures
        ({
            let message = seq![0u8, 0u8, 0u8, 0u8, 2u8] + source.pre_master@ + source.random1@
                + source.random2@ + a + b + c + d;
            &&& message.len() == 117 + a.len() + b.len() + c.len() + d.len()
            &&& message[0] == 0 && message[1] == 0 && message[2] == 0 && message[3] == 0
            &&& message[4] == 2
            &&& message.subrange(5, 53) == source.pre_master@
            &&& message.subrange(53, 85) == source.random1@
            &&& message.subrange(85, 117) == source.random2@
            &&& message.skip(117) == a + (b + (c + (d + Seq::<u8>::empty())))
        }),
{
    let head = seq![0u8, 0u8, 0u8, 0u8, 2u8];
    let fixed = head + source.pre_master@ + source.random1@ + source.random2@;
    assert(fixed.len() == 117);
    let message = fixed + a + b + c + d;
    assert(message.skip(117) =~= a + (b + (c + (d + Seq::<u8>::empty()))));
    assert(message.subrange(5, 53) =~= source.pre_master@);
    assert(message.subrange(53, 85) =~= source.random1@);
    assert(message.subrange(85, 117) =~= source.random2@);
}

/// Four fields, each of which is read off the front of what the one before it
/// left.
proof fn lemma_four_fields(first: Seq<u8>, second: Seq<u8>, third: Seq<u8>, fourth: Seq<u8>)
    requires
        front_text(first) is Some,
        (front_text(first)->0).1 == second,
        front_text(second) is Some,
        (front_text(second)->0).1 == third,
        front_text(third) is Some,
        (front_text(third)->0).1 == fourth,
        front_text(fourth) is Some,
        (front_text(fourth)->0).1 == Seq::<u8>::empty(),
    ensures
        text_fields(first, 4) == Some(
            seq![
                (front_text(first)->0).0,
                (front_text(second)->0).0,
                (front_text(third)->0).0,
                (front_text(fourth)->0).0,
            ],
        ),
{
    assert(text_fields(Seq::<u8>::empty(), 0) == Some(Seq::<Seq<u8>>::empty()));
    assert(text_fields(fourth, 1)->0 =~= seq![(front_text(fourth)->0).0]);
    assert(text_fields(third, 2)->0 =~= seq![(front_text(third)->0).0, (front_text(fourth)->0).0]);
    assert(text_fields(second, 3)->0 =~= seq![
        (front_text(second)->0).0,
        (front_text(third)->0).0,
        (front_text(fourth)->0).0,
    ]);
    assert(text_fields(first, 4)->0 =~= seq![
        (front_text(first)->0).0,
        (front_text(second)->0).0,
        (front_text(third)->0).0,
        (front_text(fourth)->0).0,
    ]);
}

/// The server authenticates the right account. Whatever reads the client's half
/// of the key exchange by its length prefixes finds the options first, then the
/// account's name, then its password, then the description of the client, behind
/// the random values that the keys are derived from.
pub proof fn a_login_is_read_in_its_fields(
    source: KeySource,
    options: Seq<char>,
    login: Credentials,
    peer_info: Seq<char>,
)
    ensures
        reads_as(
            key_method_message(source, options, login.user(), login.secret(), peer_info),
            source,
            options,
            login,
            peer_info,
        ),
{
    let user = login.user();
    let secret = login.secret();
    let name = match login.username {
        Some(name) => name@,
        None => Seq::<char>::empty(),
    };
    let password = match login.password {
        Some(password) => password@,
        None => Seq::<char>::empty(),
    };
    if fits_a_field(options) && fits_a_field(name) && fits_a_field(password) && fits_a_field(
        peer_info,
    ) {
        let message = key_method_message(source, options, user, secret, peer_info);
        let fourth = string_field(Some(peer_info)) + Seq::<u8>::empty();
        let third = string_field(secret) + fourth;
        let second = string_field(user) + third;
        let first = string_field(Some(options)) + second;
        lemma_parts_in_order(
            source,
            string_field(Some(options)),
            string_field(user),
            string_field(secret),
            string_field(Some(peer_info)),
        );
        lemma_field_reads(Some(options), second);
        lemma_field_reads(user, third);
        lemma_field_reads(secret, fourth);
        lemma_field_reads(Some(peer_info), Seq::<u8>::empty());
        assert(vstd::utf8::encode_utf8(Seq::<char>::empty()) =~= Seq::<u8>::empty());
        lemma_four_fields(first, second, third, fourth);
    }
}

/// The state once inner packets have been sent, all of them at `now`.
pub open spec fn all_sent(st: SessionState, packets: Seq<Seq<u8>>, now: u64) -> SessionState
    decreases packets.len(),
{
    if packets.len() == 0 {
        st
    } else {
        inner_sent(all_sent(st, packets.drop_last(), now), packets.last(), now).state
    }
}

/// What the server holds of a key generation that was derived from `material`:
/// it opens with the key that the first 128 bytes hold, which this end seals
/// with.
pub open spec fn server_end(material: Seq<u8>, cipher: DataCipher, key_id: u8) -> DataState {
    DataState {
        cipher,
        seal_key: material.subrange(128, 128 + cipher.key_size() as int),
        open_key: material.subrange(0, cipher.key_size() as int),
        seal_iv: material.subrange(192, 200),
        open_iv: material.subrange(64, 72),
        peer_id: None,
        key_id,
        next_packet_id: 1,
        replay: crypto::ReplayWindow { highest: 0, seen: 0 },
    }
}

proof fn lemma_key_id_bits(key_id: u8)
    by (bit_vector)
    requires
        key_id < 8,
    ensures
        (72u8 | key_id) & 7 == key_id,
        (48u8 | key_id) & 7 == key_id,
{
}

/// The first byte of a sealed packet names the generation that sealed it.
proof fn lemma_sealed_names_generation(st: DataState, packet: Seq<u8>)
    requires
        st.key_id < 8,
    ensures
        crypto::sealed_packet(st, packet).len() > 0,
        crypto::sealed_packet(st, packet)[0] & 7 == st.key_id,
{
    lemma_key_id_bits(st.key_id);
}

proof fn lemma_all_sent(st: SessionState, packets: Seq<Seq<u8>>, now: u64)
    requires
        st.channels.len() > 0,
        st.channels.last().next_packet_id + packets.len() <= u32::MAX,
    ensures
        ({
            let after = all_sent(st, packets, now);
            let n = st.channels.len() - 1;
            &&& after.channels.len() == st.channels.len()
            &&& after.channels =~= st.channels.update(
                n,
                DataState {
                    next_packet_id: (st.channels[n].next_packet_id + packets.len()) as u32,
                    ..st.channels[n]
                },
            )
            &&& after == SessionState {
                channels: after.channels,
                last_keepalive: after.last_keepalive,
                ..st
            }
        }),
    decreases packets.len(),
{
    if packets.len() > 0 {
        lemma_all_sent(st, packets.drop_last(), now);
    }
}

/// Once the keys of a renegotiation are in use, every packet goes out under
/// them: it names their generation, a server that holds them opens it, the
/// packets are numbered from one on, and no other generation changes.
pub proof fn a_new_generation_carries_the_traffic(
    st: SessionState,
    earlier: Seq<Seq<u8>>,
    packet: Seq<u8>,
    now: u64,
)
    requires
        st.material is Some,
        st.pushed is Some,
        st.control.key_id < 8,
        forall|i: int|
            0 <= i < st.channels.len() ==> (#[trigger] st.channels[i]).key_id != st.control.key_id,
        earlier.len() < u32::MAX - 1,
        crypto::can_seal(st.pushed->0.cipher, packet.len()),
    ensures
        ({
            let installed = keys_installed(st);
            let before = all_sent(installed, earlier, now);
            let sent = inner_sent(before, packet, now);
            let server = server_end(st.material->0, st.pushed->0.cipher, st.control.key_id);
            &&& sent.sealed matches Ok(framed)
            &&& framed.len() > 0 && framed[0] & 7 == st.control.key_id
            &&& crypto::opened_packet(server, framed) == Opened::Authentic(
                (earlier.len() + 1) as u32,
                packet,
            )
            &&& sent.state.channels.len() == installed.channels.len()
            &&& forall|i: int|
                0 <= i < installed.channels.len() && (#[trigger] installed.channels[i]).key_id
                    != st.control.key_id ==> sent.state.channels[i] == installed.channels[i]
            &&& forall|i: int|
                0 <= i < installed.channels.len() && (#[trigger] installed.channels[i]).key_id
                    == st.control.key_id ==> sent.state.channels[i] == (DataState {
                    next_packet_id: (earlier.len() + 2) as u32,
                    ..installed.channels[i]
                })
        }),
{
    let installed = keys_installed(st);
    assert(!has_generation(st.channels, st.control.key_id));
    let n = installed.channels.len() - 1;
    let fresh = crypto::new_channel(
        st.material->0,
        st.pushed->0.cipher,
        st.pushed->0.peer_id,
        st.control.key_id,
    );
    assert(installed.channels[n] == fresh);
    assert forall|i: int| 0 <= i < n implies (#[trigger] installed.channels[i]).key_id
        != st.control.key_id by {
        if st.channels.len() >= 2 {
            assert(installed.channels[i] == st.channels[i + 1]);
        } else {
            assert(installed.channels[i] == st.channels[i]);
        }
    }
    lemma_all_sent(installed, earlier, now);
    let before = all_sent(installed, earlier, now);
    let sender = before.channels[n];
    lemma_sealed_names_generation(sender, packet);
    crypto::a_sealed_packet_opens_at_the_other_end(
        sender,
        server_end(st.material->0, st.pushed->0.cipher, st.control.key_id),
        packet,
    );
}

/// What the server seals under any generation that is still in use arrives: the
/// first time it is handed on as it was, the second time it is swallowed, and no
/// other generation changes.
pub proof fn a_packet_on_any_generation_in_use_arrives(
    st: SessionState,
    g: int,
    server: DataState,
    packet: Seq<u8>,
)
    requires
        0 <= g < st.channels.len(),
        st.channels[g].key_id < 8,
        forall|i: int|
            0 <= i < st.channels.len() && i != g ==> (#[trigger] st.channels[i]).key_id
                != st.channels[g].key_id,
        server.key_id == st.channels[g].key_id,
        server.cipher == st.channels[g].cipher,
        server.seal_key == st.channels[g].open_key,
        server.seal_iv == st.channels[g].open_iv,
        st.channels[g].replay.accepts(server.next_packet_id),
        crypto::can_seal(server.cipher, packet.len()),
        packet != crypto::PING@,
    ensures
        ({
            let framed = crypto::sealed_packet(server, packet);
            &&& data_opened(st, framed) matches DataOutcome::Inner(next, inner)
            &&& inner == packet
            &&& next == (SessionState { channels: next.channels, ..st })
            &&& next.channels.len() == st.channels.len()
            &&& forall|i: int|
                0 <= i < st.channels.len() && i != g ==> #[trigger] next.channels[i]
                    == st.channels[i]
            &&& next.channels[g] == (DataState {
                replay: next.channels[g].replay,
                ..st.channels[g]
            })
            &&& !next.channels[g].replay.accepts(server.next_packet_id)
            &&& data_opened(next, framed) is Swallowed
        }),
{
    let framed = crypto::sealed_packet(server, packet);
    let channel = st.channels[g];
    lemma_sealed_names_generation(server, packet);
    lemma_generation_index(st.channels, channel.key_id, g as nat);
    crypto::a_sealed_packet_opens_at_the_other_end(server, channel, packet);
    let next = data_opened(st, framed)->Inner_0;
    crypto::lemma_not_again(channel.replay, server.next_packet_id);
    assert forall|i: int| 0 <= i < g implies (#[trigger] next.channels[i]).key_id
        != channel.key_id by {
        assert(next.channels[i] == st.channels[i]);
    }
    lemma_generation_index(next.channels, channel.key_id, g as nat);
    crypto::a_sealed_packet_opens_at_the_other_end(server, next.channels[g], packet);
}

} // verus!
