//! A user-space OpenVPN client.
//!
//! An OpenVPN node behaves like a WireGuard one: several can run at once inside
//! the engine, each with its own socket, with no driver to install, no adapter
//! to create and no child process to supervise. Hand it inner IPv4 packets, get
//! inner IPv4 packets back. Everything above it -- scheduling, the split tunnel,
//! direct sessions, telemetry -- then treats the two kinds of node identically.

pub mod announce;
pub mod conduct;
pub mod config;
pub mod control;
pub mod crypto;
pub mod lines;
pub mod link;
pub mod session;
pub mod settings;
pub mod verify;

pub use config::{OpenVpnConfig, Protocol};
pub use session::Credentials;

use sha2::{Digest as _, Sha256};
use vstd::prelude::*;

use crate::bytes;
use crate::net::{Endpoint, Ipv4};
use crate::openvpn::config::Remote;
use crate::openvpn::link::Urgency;
use crate::openvpn::session::Session;
use crate::text;

verus! {

pub const NEEDS_LOGIN: &'static str =
    "this OpenVPN configuration needs a username and password, which have not been                  entered for this node";

pub const NOTHING_TO_DIAL: &'static str = "this OpenVPN configuration has nothing to connect to";

/// What SHA-256 makes of some bytes.
pub uninterp spec fn sha256(data: Seq<u8>) -> [u8; 32];

/// Calls `sha2::Sha256::digest`, whose result is a function of the bytes.
#[verifier::external_body]
pub(crate) fn sha256_of(data: &[u8]) -> (r: [u8; 32])
    ensures
        r == sha256(data@),
{
    Sha256::digest(data).into()
}

/// What identifies a node: its configuration, without the white space around
/// it, and the user.
pub open spec fn identity_bytes(source: Seq<char>, user: Option<Seq<char>>) -> Seq<u8> {
    vstd::utf8::encode_utf8(text::trimmed(source)) + seq![0u8] + vstd::utf8::encode_utf8(
        match user {
            Some(name) => name,
            None => Seq::<char>::empty(),
        },
    )
}

/// The bytes that identify a node.
pub fn node_identity(source: &str, credentials: &Credentials) -> (r: Vec<u8>)
    ensures
        r@ == identity_bytes(source@, credentials.user()),
{
    let chars = text::chars(source);
    let bare = text::string(text::trim(chars.as_slice()));
    let mut data: Vec<u8> = Vec::new();
    data.extend_from_slice(bare.as_str().as_bytes());
    data.push(0);
    match &credentials.username {
        Some(name) => data.extend_from_slice(name.as_str().as_bytes()),
        None => {
            let none = String::new();
            data.extend_from_slice(none.as_str().as_bytes());
        },
    }
    assert(data@ =~= identity_bytes(source@, credentials.user()));
    data
}

/// Identifies a node so that two copies of the same one are not run at once.
///
/// Two OpenVPN sessions built from the same configuration and the same
/// credentials land on the same account at the provider, where the second
/// frequently displaces the first. The configuration text and the username are
/// enough to recognise that, and hashing them keeps the secrets out of
/// anything that logs an identity.
pub fn fingerprint(source: &str, credentials: &Credentials) -> (r: [u8; 32])
    ensures
        r == sha256(identity_bytes(source@, credentials.user())),
{
    sha256_of(node_identity(source, credentials).as_slice())
}

/// White space around a configuration does not make it a different node.
pub proof fn surrounding_space_does_not_change_a_node(
    a: Seq<char>,
    b: Seq<char>,
    user: Option<Seq<char>>,
)
    requires
        text::trimmed(a) == text::trimmed(b),
    ensures
        identity_bytes(a, user) == identity_bytes(b, user),
{
}

/// Whether a configuration asks for a login that has not been entered.
pub open spec fn lacks_login(config: OpenVpnConfig, credentials: Credentials) -> bool {
    config.wants_credentials && credentials.user() is None
}

/// Refuses a configuration that asks for a login that has not been entered.
pub fn check_login(config: &OpenVpnConfig, credentials: &Credentials) -> (r: Result<(), String>)
    ensures
        r is Err <==> lacks_login(*config, *credentials),
        r matches Err(message) ==> message@ == NEEDS_LOGIN@,
{
    if config.wants_credentials && credentials.username.is_none() {
        Err(NEEDS_LOGIN.to_owned())
    } else {
        Ok(())
    }
}

/// The servers to dial, in order. A provider that hands out a udp configuration
/// almost always listens for tcp on the same port, and on a connection that
/// drops large udp packets the tcp attempt is the one that works, so each udp
/// server is followed by its tcp twin.
pub open spec fn dial_order(remotes: Seq<config::RemoteModel>) -> Seq<config::RemoteModel>
    decreases remotes.len(),
{
    if remotes.len() == 0 {
        remotes
    } else {
        let before = dial_order(remotes.drop_last());
        let last = remotes.last();
        if last.protocol == Protocol::Udp {
            before.push(last).push(config::RemoteModel { protocol: Protocol::Tcp, ..last })
        } else {
            before.push(last)
        }
    }
}

/// The servers to dial, in order.
pub fn dial_attempts(config: &OpenVpnConfig) -> (attempts: Vec<Remote>)
    ensures
        config::remote_models(attempts@) == dial_order(config::remote_models(config.remotes@)),
{
    let mut attempts: Vec<Remote> = Vec::new();
    let ghost all = config::remote_models(config.remotes@);
    let mut at: usize = 0;
    assert(all.take(0) =~= Seq::<config::RemoteModel>::empty());
    assert(config::remote_models(attempts@) =~= Seq::<config::RemoteModel>::empty());
    while at < config.remotes.len()
        invariant
            at <= config.remotes@.len(),
            all == config::remote_models(config.remotes@),
            config::remote_models(attempts@) == dial_order(all.take(at as int)),
        decreases config.remotes@.len() - at,
    {
        let remote = &config.remotes[at];
        assert(all.take(at + 1).drop_last() =~= all.take(at as int));
        assert(all.take(at + 1).last() == remote.model());
        let ghost before = attempts@;
        let first = Remote {
            host: remote.host.clone(),
            port: remote.port,
            protocol: remote.protocol,
        };
        attempts.push(first);
        assert(config::remote_models(attempts@) =~= config::remote_models(before).push(
            remote.model(),
        ));
        if remote.protocol == Protocol::Udp {
            let ghost middle = attempts@;
            let twin = Remote {
                host: remote.host.clone(),
                port: remote.port,
                protocol: Protocol::Tcp,
            };
            attempts.push(twin);
            assert(config::remote_models(attempts@) =~= config::remote_models(middle).push(
                twin.model(),
            ));
        }
        at = at + 1;
    }
    assert(all.take(at as int) =~= all);
    attempts
}

/// What is said of one server that could not be connected to.
pub fn dial_failure(remote: &Remote, error: &str) -> (r: String)
    ensures
        r@ == remote.endpoint_text() + " over "@ + remote.protocol.name() + ": "@ + error@,
{
    text::concat5(
        remote.endpoint().as_str(),
        " over ",
        remote.protocol.as_str(),
        ": ",
        error,
    )
}

/// What is said once every server has failed: why the first one did.
pub fn dialling_failed(failures: &Vec<String>) -> (r: String)
    ensures
        r@ == if failures@.len() > 0 {
            failures@[0]@
        } else {
            NOTHING_TO_DIAL@
        },
{
    if failures.len() > 0 {
        failures[0].clone()
    } else {
        NOTHING_TO_DIAL.to_owned()
    }
}

/// One OpenVPN tunnel that has come up.
pub struct UserSpaceOpenVpnPath {
    pub session: Session,
    pub settings: session::Pushed,
    pub endpoint: Endpoint,
    pub identity_fingerprint: [u8; 32],
}

/// A sealed packet, and whether the link may drop it when it is backed up.
pub struct Outgoing {
    pub bytes: Vec<u8>,
    pub urgency: Urgency,
}

impl UserSpaceOpenVpnPath {
    /// What becomes of the tunnel, and what goes out, when an inner packet is
    /// sent.
    pub open spec fn sends(
        self,
        packet: Seq<u8>,
        urgency: Urgency,
        now: u64,
        after: Self,
        r: Result<Outgoing, String>,
    ) -> bool {
        &&& after.session.wf()
        &&& after.session@ == session::inner_sent(self.session@, packet, now).state
        &&& after.settings == self.settings
        &&& after.endpoint == self.endpoint
        &&& after.identity_fingerprint == self.identity_fingerprint
        &&& match session::inner_sent(self.session@, packet, now).sealed {
            Ok(bytes) => {
                &&& r matches Ok(outgoing)
                &&& outgoing.bytes@ == bytes
                &&& outgoing.urgency == urgency
            },
            Err(why) => r matches Err(message) && message@ == why,
        }
    }

    fn send(&mut self, packet: &[u8], urgency: Urgency, now: u64) -> (r: Result<Outgoing, String>)
        requires
            old(self).session.wf(),
        ensures
            old(self).sends(packet@, urgency, now, *final(self), r),
    {
        match self.session.send_inner(packet, now) {
            Ok(bytes) => Ok(Outgoing { bytes, urgency }),
            Err(why) => Err(why),
        }
    }

    /// Seals one inner packet for the link, which may drop it if it grows stale.
    pub fn send_inner(&mut self, packet: &[u8], now: u64) -> (r: Result<Outgoing, String>)
        requires
            old(self).session.wf(),
        ensures
            old(self).sends(packet@, Urgency::Realtime, now, *final(self), r),
    {
        self.send(packet, Urgency::Realtime, now)
    }

    /// Seals an inner health probe, which the link must not drop.
    pub fn send_probe(&mut self, packet: &[u8], now: u64) -> (r: Result<Outgoing, String>)
        requires
            old(self).session.wf(),
        ensures
            old(self).sends(packet@, Urgency::Reliable, now, *final(self), r),
    {
        self.send(packet, Urgency::Reliable, now)
    }

    /// The tunnel that a session makes once the server has pushed its settings.
    pub fn established(session: Session, endpoint: Endpoint, identity_fingerprint: [u8; 32]) -> (r:
        Option<Self>)
        ensures
            r is Some <==> session@.pushed is Some,
            r matches Some(path) ==> path.session == session && session@.pushed == Some(
                path.settings,
            ) && path.endpoint == endpoint && path.identity_fingerprint == identity_fingerprint,
    {
        match session.pushed() {
            Some(settings) => Some(
                UserSpaceOpenVpnPath { session, settings, endpoint, identity_fingerprint },
            ),
            None => None,
        }
    }

    /// The tunnel's own address, which inner packets must come from.
    pub fn address(&self) -> (r: Ipv4)
        ensures
            r == self.settings.address,
    {
        self.settings.address
    }

    /// The far end of the tunnel, when the server pushed one.
    pub fn gateway(&self) -> (r: Option<Ipv4>)
        ensures
            r == self.settings.gateway,
    {
        self.settings.gateway
    }

    pub fn endpoint(&self) -> (r: Endpoint)
        ensures
            r == self.endpoint,
    {
        self.endpoint
    }

    /// Which transport the session settled on, which is worth showing because
    /// it may not be the one the configuration named.
    pub fn protocol(&self) -> (r: Protocol)
        ensures
            r == self.session@.protocol,
    {
        self.session.protocol()
    }

    /// The data-channel cipher the server chose.
    pub fn cipher(&self) -> (r: &'static str)
        ensures
            r@ == self.settings.cipher.name(),
    {
        self.settings.cipher.as_str()
    }

    /// The identifier the server assigned this client, when it assigned one.
    ///
    /// Its presence decides which of the two data-packet headers is used, so it
    /// is worth being able to see.
    pub fn peer_id(&self) -> (r: Option<u32>)
        ensures
            r == self.settings.peer_id,
    {
        self.settings.peer_id
    }

    pub fn identity_fingerprint(&self) -> (r: [u8; 32])
        ensures
            r == self.identity_fingerprint,
    {
        self.identity_fingerprint
    }

    /// Whether two tunnels are the same node on the same server.
    pub fn conflicts_with(&self, other: &Self) -> (r: bool)
        ensures
            r == (self.endpoint == other.endpoint && self.identity_fingerprint@
                == other.identity_fingerprint@),
    {
        self.endpoint == other.endpoint && bytes::constant_time_eq(
            self.identity_fingerprint.as_slice(),
            other.identity_fingerprint.as_slice(),
        )
    }
}

/// Every server of a file is dialled in the order of the file, and each that is
/// reached by UDP is followed by itself over TCP.
pub proof fn each_udp_server_has_a_tcp_twin(
    remotes: Seq<config::RemoteModel>,
    next: config::RemoteModel,
)
    ensures
        dial_order(remotes.push(next)) == if next.protocol == Protocol::Udp {
            dial_order(remotes) + seq![
                next,
                config::RemoteModel {
                    host: next.host,
                    port: next.port,
                    protocol: Protocol::Tcp,
                },
            ]
        } else {
            dial_order(remotes) + seq![next]
        },
        dial_order(Seq::<config::RemoteModel>::empty()).len() == 0,
{
    assert(remotes.push(next).drop_last() =~= remotes);
    let before = dial_order(remotes);
    let twin = config::RemoteModel { protocol: Protocol::Tcp, ..next };
    assert(before.push(next).push(twin) =~= before + seq![next, twin]);
    assert(before.push(next) =~= before + seq![next]);
}

/// Two accounts of one provider are two nodes, and so are two files of one
/// account.
pub proof fn a_node_is_told_by_its_file_and_account(
    source: Seq<char>,
    other: Seq<char>,
    user: Seq<char>,
    someone: Seq<char>,
)
    ensures
        user != someone ==> identity_bytes(source, Some(user)) != identity_bytes(
            source,
            Some(someone),
        ),
        text::trimmed(source) != text::trimmed(other) ==> identity_bytes(source, Some(user))
            != identity_bytes(other, Some(user)),
{
    let a = vstd::utf8::encode_utf8(text::trimmed(source));
    let b = vstd::utf8::encode_utf8(text::trimmed(other));
    let x = vstd::utf8::encode_utf8(user);
    let y = vstd::utf8::encode_utf8(someone);
    vstd::utf8::encode_utf8_decode_utf8(text::trimmed(source));
    vstd::utf8::encode_utf8_decode_utf8(text::trimmed(other));
    vstd::utf8::encode_utf8_decode_utf8(user);
    vstd::utf8::encode_utf8_decode_utf8(someone);
    let zero = seq![0u8];
    assert((a + zero + x).skip(a.len() as int + 1) =~= x);
    assert((a + zero + y).skip(a.len() as int + 1) =~= y);
    assert((a + zero + x).take(a.len() as int) =~= a);
    if a + zero + x == b + zero + x {
        assert((a + zero + x).len() == (b + zero + x).len());
        assert((b + zero + x).take(b.len() as int) =~= b);
    }
}

} // verus!
