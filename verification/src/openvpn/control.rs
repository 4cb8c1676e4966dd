//! OpenVPN's control channel: packet framing and the small reliability layer
//! that carries a TLS handshake over an unreliable link.
//!
//! Control packets are numbered and acknowledged independently of TLS, because
//! TLS cannot tolerate loss or reordering. This module turns a stream of TLS
//! bytes into numbered packets and back, and hides whichever of `--tls-auth`
//! and `--tls-crypt` wraps them.

use std::collections::{BTreeMap, VecDeque};
use vstd::prelude::*;
use vstd::slice::{slice_subrange, slice_to_vec};

use crate::bytes;
use crate::openvpn::config::{ControlAuth, Digest, KeyDirection, StaticKey};
use crate::openvpn::crypto;
use crate::openvpn::crypto::{Keyed, TlsAuthKeys, TlsCryptKeys};
use crate::random::random_bytes;
use crate::time;
use crate::time::Clock;

verus! {

pub const P_CONTROL_SOFT_RESET_V1: u8 = 3;

pub const P_CONTROL_V1: u8 = 4;

pub const P_ACK_V1: u8 = 5;

pub const P_DATA_V1: u8 = 6;

pub const P_CONTROL_HARD_RESET_CLIENT_V2: u8 = 7;

pub const P_CONTROL_HARD_RESET_SERVER_V2: u8 = 8;

pub const P_DATA_V2: u8 = 9;

/// How much TLS handshake data one control packet carries.
///
/// Small enough that the wrapped packet clears a path with a reduced MTU, which
/// is worth more than the extra round trips: a handshake packet that does not
/// fit is dropped silently and retransmitted at exactly the same size forever.
pub const MAX_CONTROL_PAYLOAD: usize = 1000;

/// How long to wait for an acknowledgement before sending a packet again.
pub const RETRANSMIT_AFTER: u64 = 1_200_000_000;

/// The most acknowledgements one packet can carry.
pub const MAX_ACKS: usize = 8;

pub fn is_data(opcode: u8) -> (r: bool)
    ensures
        r == (opcode == P_DATA_V1 || opcode == P_DATA_V2),
{
    opcode == P_DATA_V1 || opcode == P_DATA_V2
}

pub fn opcode_of(packet: &[u8]) -> (r: Option<u8>)
    ensures
        r == if packet@.len() == 0 {
            None
        } else {
            Some(packet@[0] >> 3)
        },
{
    if packet.len() == 0 {
        None
    } else {
        Some(packet[0] >> 3)
    }
}

/// The keys that wrap control packets, if any.
pub enum WrapKeys {
    Plain,
    TlsAuth { send: Seq<u8>, receive: Seq<u8>, digest: Digest },
    TlsCrypt {
        send_cipher: Seq<u8>,
        send_hmac: Seq<u8>,
        receive_cipher: Seq<u8>,
        receive_hmac: Seq<u8>,
    },
}

impl WrapKeys {
    /// The keys that the other end holds.
    pub open spec fn mirrored(self) -> WrapKeys {
        match self {
            WrapKeys::Plain => WrapKeys::Plain,
            WrapKeys::TlsAuth { send, receive, digest } => WrapKeys::TlsAuth {
                send: receive,
                receive: send,
                digest,
            },
            WrapKeys::TlsCrypt { send_cipher, send_hmac, receive_cipher, receive_hmac } =>
                WrapKeys::TlsCrypt {
                send_cipher: receive_cipher,
                send_hmac: receive_hmac,
                receive_cipher: send_cipher,
                receive_hmac: send_hmac,
            },
        }
    }

    /// The keys that a configuration asks for.
    pub open spec fn configured(auth: ControlAuth) -> WrapKeys {
        match auth {
            ControlAuth::Plain => WrapKeys::Plain,
            ControlAuth::TlsAuth { key, direction, digest } => WrapKeys::TlsAuth {
                send: key.hmac_half(direction.key_indexes().0 as int).take(digest.size() as int),
                receive: key.hmac_half(direction.key_indexes().1 as int).take(digest.size() as int),
                digest,
            },
            ControlAuth::TlsCrypt { key } => WrapKeys::TlsCrypt {
                send_cipher: key.cipher_half(1).take(32),
                send_hmac: key.hmac_half(1).take(32),
                receive_cipher: key.cipher_half(0).take(32),
                receive_hmac: key.hmac_half(0).take(32),
            },
        }
    }
}

/// A packet that the peer has not acknowledged.
pub struct Outstanding {
    pub packet_id: u32,
    pub packet: Seq<u8>,
    pub sent_at: u64,
}

/// What one end of the control channel holds.
#[verifier::ext_equal]
pub struct ControlState {
    pub keys: WrapKeys,
    pub session_id: Seq<u8>,
    pub remote_session_id: Option<Seq<u8>>,
    pub key_id: u8,
    pub next_packet_id: u32,
    pub next_replay_id: u32,
    pub unacknowledged: Seq<Outstanding>,
    pub pending_acks: Seq<u32>,
    pub expected_packet_id: u32,
    pub reordered: Map<u32, Seq<u8>>,
    pub outgoing: Seq<Seq<u8>>,
}

/// Packet ids, four bytes each.
pub open spec fn id_list(ids: Seq<u32>) -> Seq<u8>
    decreases ids.len(),
{
    if ids.len() == 0 {
        Seq::<u8>::empty()
    } else {
        id_list(ids.drop_last()) + bytes::be_bytes(ids.last() as nat, 4)
    }
}

/// The body of a control packet: acknowledgements, then this packet's own id,
/// then the payload. It is the same whichever wrapping is in use.
pub open spec fn control_body(
    acks: Seq<u32>,
    remote_session_id: Seq<u8>,
    packet_id: Option<u32>,
    payload: Seq<u8>,
) -> Seq<u8> {
    let peer = if acks.len() > 0 {
        remote_session_id
    } else {
        Seq::<u8>::empty()
    };
    let id = match packet_id {
        Some(id) => bytes::be_bytes(id as nat, 4),
        None => Seq::<u8>::empty(),
    };
    seq![acks.len() as u8] + id_list(acks) + peer + id + payload
}

/// The packet id and timestamp that the authenticated wrappings put in front
/// of the body to stop a replay.
pub open spec fn replay_prefix(replay_id: u32, unix_seconds: u32) -> Seq<u8> {
    bytes::be_bytes(replay_id as nat, 4) + bytes::be_bytes(unix_seconds as nat, 4)
}

/// One control packet, as it goes on the wire.
pub open spec fn control_packet(
    keys: WrapKeys,
    first: u8,
    session_id: Seq<u8>,
    replay: Seq<u8>,
    body: Seq<u8>,
) -> Seq<u8> {
    match keys {
        WrapKeys::Plain => seq![first] + session_id + body,
        WrapKeys::TlsAuth { send, digest, .. } => {
            let mac = Keyed::of(digest).tag(send, replay + seq![first] + session_id + body);
            seq![first] + session_id + mac + replay + body
        },
        WrapKeys::TlsCrypt { send_cipher, send_hmac, .. } => {
            let header = seq![first] + session_id + replay;
            let tag = Keyed::Sha256.tag(send_hmac, header + body);
            header + tag + crypto::ctr_applied(send_cipher, tag.take(16), body)
        },
    }
}

/// The body of a received control packet, or why it is refused.
pub open spec fn unwrapped(keys: WrapKeys, packet: Seq<u8>) -> Result<Seq<u8>, Seq<char>> {
    match keys {
        WrapKeys::Plain => Ok(packet.skip(9)),
        WrapKeys::TlsAuth { receive, digest, .. } => {
            let size = digest.size() as int;
            if packet.len() < 9 + size + 8 {
                Err("a tls-auth control packet was truncated"@)
            } else {
                let mac = packet.subrange(9, 9 + size);
                let replay = packet.subrange(9 + size, 9 + size + 8);
                let body = packet.skip(9 + size + 8);
                if mac == Keyed::of(digest).tag(
                    receive,
                    replay + seq![packet[0]] + packet.subrange(1, 9) + body,
                ) {
                    Ok(body)
                } else {
                    Err(
                        "a control packet failed its tls-auth check, so the `<tls-auth>` key or its direction does not match the server's"@,
                    )
                }
            }
        },
        WrapKeys::TlsCrypt { receive_cipher, receive_hmac, .. } => {
            if packet.len() < 49 {
                Err("a tls-crypt control packet was truncated"@)
            } else {
                let header = packet.take(17);
                let tag = packet.subrange(17, 49);
                let body = crypto::ctr_applied(receive_cipher, tag.take(16), packet.skip(49));
                if tag == Keyed::Sha256.tag(receive_hmac, header + body) {
                    Ok(body)
                } else {
                    Err(
                        "a control packet failed its tls-crypt check, so the `<tls-crypt>` key does not match the server's"@,
                    )
                }
            }
        },
    }
}

/// What the body of a control packet says.
#[verifier::ext_equal]
pub struct BodyModel {
    pub acks: Seq<u32>,
    pub packet_id: Option<u32>,
    pub payload: Seq<u8>,
}

/// Reads the body of a control packet.
pub open spec fn parsed_body(body: Seq<u8>, opcode: u8) -> Result<BodyModel, Seq<char>> {
    if body.len() == 0 {
        Err("a control packet had no body"@)
    } else {
        let count = body[0] as int;
        let after_acks = 1 + 4 * count;
        let cursor = if count > 0 {
            after_acks + 8
        } else {
            after_acks
        };
        let acks = Seq::new(
            count as nat,
            |k: int| bytes::be_value(body.subrange(1 + 4 * k, 5 + 4 * k)) as u32,
        );
        if body.len() < after_acks {
            Err("a control packet's acknowledgement list was truncated"@)
        } else if body.len() < cursor {
            Err("a control packet's acknowledgement block was truncated"@)
        } else if opcode == P_ACK_V1 {
            Ok(BodyModel { acks, packet_id: None, payload: body.skip(cursor) })
        } else if body.len() < cursor + 4 {
            Err("a control packet had no packet id"@)
        } else {
            Ok(
                BodyModel {
                    acks,
                    packet_id: Some(bytes::be_value(body.subrange(cursor, cursor + 4)) as u32),
                    payload: body.skip(cursor + 4),
                },
            )
        }
    }
}

/// How many acknowledgements the next packet carries. There are none before the
/// peer's session id is known, because they name it.
pub open spec fn acks_due(st: ControlState) -> int {
    if st.remote_session_id is None {
        0
    } else if st.pending_acks.len() < MAX_ACKS {
        st.pending_acks.len() as int
    } else {
        MAX_ACKS as int
    }
}

/// The packet id that the next packet with this opcode takes.
pub open spec fn id_due(st: ControlState, opcode: u8) -> Option<u32> {
    if opcode == P_ACK_V1 {
        None
    } else {
        Some(st.next_packet_id)
    }
}

/// The next packet, as it goes on the wire.
pub open spec fn packet_due(st: ControlState, opcode: u8, payload: Seq<u8>, unix: u32) -> Seq<u8> {
    let remote = match st.remote_session_id {
        Some(id) => id,
        None => Seq::<u8>::empty(),
    };
    control_packet(
        st.keys,
        (opcode << 3) | st.key_id,
        st.session_id,
        replay_prefix(st.next_replay_id, unix),
        control_body(st.pending_acks.take(acks_due(st)), remote, id_due(st, opcode), payload),
    )
}

/// The number after `n`, starting over at zero.
pub open spec fn following(n: u32) -> u32 {
    if n == u32::MAX {
        0
    } else {
        (n + 1) as u32
    }
}

/// The state once the next packet has been built.
pub open spec fn after_packet(st: ControlState, opcode: u8) -> ControlState {
    ControlState {
        pending_acks: st.pending_acks.skip(acks_due(st)),
        next_packet_id: if opcode == P_ACK_V1 {
            st.next_packet_id
        } else {
            following(st.next_packet_id)
        },
        next_replay_id: if st.keys is Plain {
            st.next_replay_id
        } else {
            following(st.next_replay_id)
        },
        ..st
    }
}

/// The state once a packet has been built and queued, to be repeated until it
/// is acknowledged.
pub open spec fn sent(st: ControlState, opcode: u8, payload: Seq<u8>, now: Clock) -> ControlState {
    let packet = packet_due(st, opcode, payload, now.unix_seconds);
    let st2 = after_packet(st, opcode);
    ControlState {
        unacknowledged: match id_due(st, opcode) {
            Some(packet_id) => st2.unacknowledged.push(
                Outstanding { packet_id, packet, sent_at: now.monotonic },
            ),
            None => st2.unacknowledged,
        },
        outgoing: st2.outgoing.push(packet),
        ..st2
    }
}

/// The state once TLS bytes have been split across packets and queued.
pub open spec fn sent_tls(st: ControlState, data: Seq<u8>, now: Clock) -> ControlState
    decreases data.len(),
{
    if data.len() == 0 {
        st
    } else if data.len() <= MAX_CONTROL_PAYLOAD {
        sent(st, P_CONTROL_V1, data, now)
    } else {
        sent_tls(
            sent(st, P_CONTROL_V1, data.take(MAX_CONTROL_PAYLOAD as int), now),
            data.skip(MAX_CONTROL_PAYLOAD as int),
            now,
        )
    }
}

/// The state once the acknowledgements that have piled up are queued, if any
/// can be.
pub open spec fn acks_flushed(st: ControlState, unix: u32) -> ControlState {
    if st.pending_acks.len() == 0 || st.remote_session_id is None {
        st
    } else {
        ControlState {
            outgoing: st.outgoing.push(packet_due(st, P_ACK_V1, Seq::<u8>::empty(), unix)),
            ..after_packet(st, P_ACK_V1)
        }
    }
}

/// The outstanding packets once `acks` have come in.
pub open spec fn still_outstanding(list: Seq<Outstanding>, acks: Seq<u32>) -> Seq<Outstanding> {
    list.filter(|p: Outstanding| !acks.contains(p.packet_id))
}

/// Whether a packet has gone unacknowledged for too long.
pub open spec fn is_stale(p: Outstanding, now: u64) -> bool {
    time::elapsed(now, p.sent_at) >= RETRANSMIT_AFTER
}

/// The packets that have gone unacknowledged for too long, oldest first.
pub open spec fn stale_packets(list: Seq<Outstanding>, now: u64) -> Seq<Seq<u8>>
    decreases list.len(),
{
    if list.len() == 0 {
        Seq::<Seq<u8>>::empty()
    } else if is_stale(list.last(), now) {
        stale_packets(list.drop_last(), now).push(list.last().packet)
    } else {
        stale_packets(list.drop_last(), now)
    }
}

/// An outstanding packet once another copy has gone out, if it was due.
pub open spec fn renewed(p: Outstanding, now: u64) -> Outstanding {
    if is_stale(p, now) {
        Outstanding { sent_at: now, ..p }
    } else {
        p
    }
}

/// The state once another copy of every stale packet has been queued.
pub open spec fn stale_resent(st: ControlState, now: u64) -> ControlState {
    ControlState {
        unacknowledged: st.unacknowledged.map_values(|p: Outstanding| renewed(p, now)),
        outgoing: st.outgoing + stale_packets(st.unacknowledged, now),
        ..st
    }
}

/// The payloads that are next in order, laid end to end.
pub open spec fn deliverable(held: Map<u32, Seq<u8>>, expected: u32) -> Seq<u8>
    decreases held.dom().len(),
{
    if held.dom().finite() && held.contains_key(expected) {
        held[expected] + deliverable(held.remove(expected), following(expected))
    } else {
        Seq::<u8>::empty()
    }
}

/// The payloads that still wait for one before them.
pub open spec fn held_back(held: Map<u32, Seq<u8>>, expected: u32) -> Map<u32, Seq<u8>>
    decreases held.dom().len(),
{
    if held.dom().finite() && held.contains_key(expected) {
        held_back(held.remove(expected), following(expected))
    } else {
        held
    }
}

/// The id that the in-order reader waits for next.
pub open spec fn next_expected(held: Map<u32, Seq<u8>>, expected: u32) -> u32
    decreases held.dom().len(),
{
    if held.dom().finite() && held.contains_key(expected) {
        next_expected(held.remove(expected), following(expected))
    } else {
        expected
    }
}

/// What a received control packet turned out to mean.
pub enum Meaning {
    Nothing,
    ServerReset,
    SoftReset { key_id: u8 },
    Payload(Seq<u8>),
}

/// The state after a reset with this packet id. A reset occupies a slot in the
/// numbering, so the in-order reader steps past it.
pub open spec fn reset_seen(st: ControlState, packet_id: u32, unix: u32) -> ControlState {
    acks_flushed(
        ControlState {
            expected_packet_id: if packet_id == st.expected_packet_id {
                following(packet_id)
            } else {
                st.expected_packet_id
            },
            ..st
        },
        unix,
    )
}

/// The state after reading an authentic packet, and what it meant.
pub open spec fn absorbed(
    st: ControlState,
    opcode: u8,
    key_id: u8,
    sender: Seq<u8>,
    body: BodyModel,
    unix: u32,
) -> (ControlState, Meaning) {
    let known = ControlState {
        remote_session_id: match st.remote_session_id {
            Some(id) => Some(id),
            None => Some(sender),
        },
        unacknowledged: still_outstanding(st.unacknowledged, body.acks),
        ..st
    };
    match body.packet_id {
        None => (known, Meaning::Nothing),
        Some(packet_id) => {
            let owing = ControlState { pending_acks: known.pending_acks.push(packet_id), ..known };
            if opcode == P_CONTROL_HARD_RESET_SERVER_V2 {
                (reset_seen(owing, packet_id, unix), Meaning::ServerReset)
            } else if opcode == P_CONTROL_SOFT_RESET_V1 {
                (reset_seen(owing, packet_id, unix), Meaning::SoftReset { key_id })
            } else {
                let held = owing.reordered.insert(packet_id, body.payload);
                let payload = deliverable(held, owing.expected_packet_id);
                (
                    ControlState {
                        reordered: held_back(held, owing.expected_packet_id),
                        expected_packet_id: next_expected(held, owing.expected_packet_id),
                        ..acks_flushed(owing, unix)
                    },
                    if payload.len() == 0 {
                        Meaning::Nothing
                    } else {
                        Meaning::Payload(payload)
                    },
                )
            }
        },
    }
}

/// The state after reading one control packet and what it meant, or why it is
/// refused, which leaves the state as it was.
pub open spec fn received(st: ControlState, packet: Seq<u8>, unix: u32) -> Result<
    (ControlState, Meaning),
    Seq<char>,
> {
    if packet.len() == 0 {
        Err("an OpenVPN control packet was empty"@)
    } else if packet.len() < 9 {
        Err("an OpenVPN control packet was truncated"@)
    } else {
        let opcode = packet[0] >> 3;
        let key_id = packet[0] & 7;
        if key_id != st.key_id && opcode != P_CONTROL_SOFT_RESET_V1 {
            Ok((st, Meaning::Nothing))
        } else {
            match unwrapped(st.keys, packet) {
                Err(why) => Err(why),
                Ok(inner) => match parsed_body(inner, opcode) {
                    Err(why) => Err(why),
                    Ok(body) => Ok(
                        absorbed(st, opcode, key_id, packet.subrange(1, 9), body, unix),
                    ),
                },
            }
        }
    }
}

enum Wrapping {
    Plain,
    TlsAuth(TlsAuthKeys),
    TlsCrypt(TlsCryptKeys),
}

impl Wrapping {
    spec fn keys(&self) -> WrapKeys {
        match self {
            Wrapping::Plain => WrapKeys::Plain,
            Wrapping::TlsAuth(keys) => WrapKeys::TlsAuth {
                send: keys.send@,
                receive: keys.receive@,
                digest: keys.digest,
            },
            Wrapping::TlsCrypt(keys) => WrapKeys::TlsCrypt {
                send_cipher: keys.send_cipher@,
                send_hmac: keys.send_hmac@,
                receive_cipher: keys.receive_cipher@,
                receive_hmac: keys.receive_hmac@,
            },
        }
    }

    fn new(control_auth: &ControlAuth) -> (r: Self)
        ensures
            r.keys() == WrapKeys::configured(*control_auth),
    {
        match control_auth {
            ControlAuth::Plain => Wrapping::Plain,
            ControlAuth::TlsAuth { key, direction, digest } => Wrapping::TlsAuth(
                TlsAuthKeys::new(key, *direction, *digest),
            ),
            ControlAuth::TlsCrypt { key } => Wrapping::TlsCrypt(TlsCryptKeys::new(key)),
        }
    }

    /// Puts a body behind its header, signed or encrypted as the wrapping asks.
    fn pack(&self, first: u8, session_id: &[u8; 8], replay: &[u8], body: &[u8]) -> (packet: Vec<u8>)
        ensures
            packet@ == control_packet(self.keys(), first, session_id@, replay@, body@),
    {
        let mut packet: Vec<u8> = Vec::new();
        packet.push(first);
        packet.extend_from_slice(session_id.as_slice());
        match self {
            Wrapping::Plain => {
                packet.extend_from_slice(body);
            },
            Wrapping::TlsAuth(keys) => {
                let lead: [u8; 1] = [first];
                let parts: [&[u8]; 4] = [replay, lead.as_slice(), session_id.as_slice(), body];
                let mac = crypto::hmac(keys.digest, keys.send.as_slice(), parts.as_slice());
                proof {
                    assert(lead@ =~= seq![first]);
                    assert(bytes::contents(parts@) =~= seq![
                        replay@,
                        seq![first],
                        session_id@,
                        body@,
                    ]);
                    bytes::lemma_joined4(replay@, seq![first], session_id@, body@);
                }
                packet.extend_from_slice(mac.as_slice());
                packet.extend_from_slice(replay);
                packet.extend_from_slice(body);
            },
            Wrapping::TlsCrypt(keys) => {
                packet.extend_from_slice(replay);
                let parts: [&[u8]; 2] = [packet.as_slice(), body];
                let tag = crypto::hmac(Digest::Sha256, keys.send_hmac.as_slice(), parts.as_slice());
                proof {
                    assert(bytes::contents(parts@) =~= seq![packet@, body@]);
                    bytes::lemma_joined2(packet@, body@);
                    assert(packet@ =~= seq![first] + session_id@ + replay@);
                }
                let mut encrypted: Vec<u8> = slice_to_vec(body);
                crypto::tls_crypt_apply(&keys.send_cipher, tag.as_slice(), &mut encrypted);
                packet.extend_from_slice(tag.as_slice());
                packet.extend_from_slice(encrypted.as_slice());
            },
        }
        assert(packet@ =~= control_packet(self.keys(), first, session_id@, replay@, body@));
        packet
    }

    /// Checks a packet and takes its body out.
    fn unpack(&self, packet: &[u8]) -> (r: Result<Vec<u8>, String>)
        requires
            packet@.len() >= 9,
        ensures
            match unwrapped(self.keys(), packet@) {
                Ok(body) => r matches Ok(found) && found@ == body,
                Err(why) => r matches Err(message) && message@ == why,
            },
    {
        match self {
            Wrapping::Plain => {
                let body = slice_to_vec(slice_subrange(packet, 9, packet.len()));
                assert(body@ =~= packet@.skip(9));
                Ok(body)
            },
            Wrapping::TlsAuth(keys) => {
                let size: usize = keys.digest.output_len();
                if packet.len() < 9 + size + 8 {
                    return Err("a tls-auth control packet was truncated".to_owned());
                }
                let mac = slice_subrange(packet, 9, 9 + size);
                let replay = slice_subrange(packet, 9 + size, 9 + size + 8);
                let body = slice_subrange(packet, 9 + size + 8, packet.len());
                let lead = slice_subrange(packet, 0, 1);
                let sender = slice_subrange(packet, 1, 9);
                let parts: [&[u8]; 4] = [replay, lead, sender, body];
                let expected = crypto::hmac(keys.digest, keys.receive.as_slice(), parts.as_slice());
                proof {
                    assert(lead@ =~= seq![packet@[0]]);
                    assert(body@ =~= packet@.skip(9 + size + 8));
                    assert(bytes::contents(parts@) =~= seq![
                        replay@,
                        seq![packet@[0]],
                        sender@,
                        body@,
                    ]);
                    bytes::lemma_joined4(replay@, seq![packet@[0]], sender@, body@);
                }
                if !bytes::constant_time_eq(expected.as_slice(), mac) {
                    return Err(
                        "a control packet failed its tls-auth check, so the `<tls-auth>` key or its direction does not match the server's".to_owned(),
                    );
                }
                Ok(slice_to_vec(body))
            },
            Wrapping::TlsCrypt(keys) => {
                if packet.len() < 49 {
                    return Err("a tls-crypt control packet was truncated".to_owned());
                }
                let header = slice_subrange(packet, 0, 17);
                let tag = slice_subrange(packet, 17, 49);
                let mut body: Vec<u8> = slice_to_vec(slice_subrange(packet, 49, packet.len()));
                assert(body@ =~= packet@.skip(49));
                crypto::tls_crypt_apply(&keys.receive_cipher, tag, &mut body);
                let parts: [&[u8]; 2] = [header, body.as_slice()];
                let expected = crypto::hmac(
                    Digest::Sha256,
                    keys.receive_hmac.as_slice(),
                    parts.as_slice(),
                );
                proof {
                    assert(header@ =~= packet@.take(17));
                    assert(bytes::contents(parts@) =~= seq![header@, body@]);
                    bytes::lemma_joined2(header@, body@);
                }
                if !bytes::constant_time_eq(expected.as_slice(), tag) {
                    return Err(
                        "a control packet failed its tls-crypt check, so the `<tls-crypt>` key does not match the server's".to_owned(),
                    );
                }
                Ok(body)
            },
        }
    }
}

/// What the body of a control packet says.
struct ControlBody {
    acks: Vec<u32>,
    packet_id: Option<u32>,
    payload: Vec<u8>,
}

fn parse_body(body: &[u8], opcode: u8) -> (r: Result<ControlBody, String>)
    ensures
        match parsed_body(body@, opcode) {
            Ok(model) => r matches Ok(found) && found.acks@ == model.acks && found.packet_id
                == model.packet_id && found.payload@ == model.payload,
            Err(why) => r matches Err(message) && message@ == why,
        },
{
    if body.len() == 0 {
        return Err("a control packet had no body".to_owned());
    }
    let count: usize = body[0] as usize;
    if body.len() < 1 + 4 * count {
        return Err("a control packet's acknowledgement list was truncated".to_owned());
    }
    let mut acks: Vec<u32> = Vec::new();
    let mut k: usize = 0;
    while k < count
        invariant
            k <= count <= 255,
            body@.len() >= 1 + 4 * count,
            acks@.len() == k,
            forall|j: int|
                0 <= j < k ==> #[trigger] acks@[j] == bytes::be_value(
                    body@.subrange(1 + 4 * j, 5 + 4 * j),
                ) as u32,
        decreases count - k,
    {
        let ack: u32 = bytes::from_be(body, 1 + 4 * k, 5 + 4 * k) as u32;
        acks.push(ack);
        k = k + 1;
    }
    let mut cursor: usize = 1 + 4 * count;
    if count > 0 {
        cursor = cursor + 8;
        if body.len() < cursor {
            return Err("a control packet's acknowledgement block was truncated".to_owned());
        }
    }
    proof {
        if let Ok(model) = parsed_body(body@, opcode) {
            assert(acks@ =~= model.acks);
        }
    }
    if opcode == P_ACK_V1 {
        let payload = slice_to_vec(slice_subrange(body, cursor, body.len()));
        assert(payload@ =~= body@.skip(cursor as int));
        return Ok(ControlBody { acks, packet_id: None, payload });
    }
    if body.len() - cursor < 4 {
        return Err("a control packet had no packet id".to_owned());
    }
    let packet_id: u32 = bytes::from_be(body, cursor, cursor + 4) as u32;
    let payload = slice_to_vec(slice_subrange(body, cursor + 4, body.len()));
    assert(payload@ =~= body@.skip(cursor + 4));
    Ok(ControlBody { acks, packet_id: Some(packet_id), payload })
}

struct Pending {
    packet_id: u32,
    packet: Vec<u8>,
    sent_at: u64,
}

spec fn outstanding(list: Seq<Pending>) -> Seq<Outstanding> {
    Seq::new(
        list.len(),
        |i: int|
            Outstanding {
                packet_id: list[i].packet_id,
                packet: list[i].packet@,
                sent_at: list[i].sent_at,
            },
    )
}

spec fn packets(list: Seq<Vec<u8>>) -> Seq<Seq<u8>> {
    Seq::new(list.len(), |i: int| list[i]@)
}

spec fn held_payloads(m: Map<u32, Vec<u8>>) -> Map<u32, Seq<u8>> {
    m.map_values(|v: Vec<u8>| v@)
}

/// What a received control packet turned out to mean.
#[derive(Debug)]
pub enum Received {
    /// Nothing for the caller to act on: an acknowledgement, a duplicate, or a
    /// packet held back until the ones before it arrive.
    Nothing,
    /// The server answered our reset and the TLS handshake can begin.
    ServerReset,
    /// The server wants to rekey on a new key id.
    SoftReset { key_id: u8 },
    /// TLS bytes, in order.
    Payload(Vec<u8>),
}

impl Received {
    pub open spec fn meaning(&self) -> Meaning {
        match self {
            Received::Nothing => Meaning::Nothing,
            Received::ServerReset => Meaning::ServerReset,
            Received::SoftReset { key_id } => Meaning::SoftReset { key_id: *key_id },
            Received::Payload(payload) => Meaning::Payload(payload@),
        }
    }
}

/// One end of the control channel.
pub struct ControlChannel {
    wrapping: Wrapping,
    session_id: [u8; 8],
    remote_session_id: Option<[u8; 8]>,
    key_id: u8,
    next_packet_id: u32,
    /// The counter in the replay header that `--tls-auth` and `--tls-crypt`
    /// add, which is separate from the reliability layer's own numbering.
    next_replay_id: u32,
    unacknowledged: Vec<Pending>,
    pending_acks: Vec<u32>,
    expected_packet_id: u32,
    reordered: BTreeMap<u32, Vec<u8>>,
    outgoing: VecDeque<Vec<u8>>,
}

impl View for ControlChannel {
    type V = ControlState;

    closed spec fn view(&self) -> ControlState {
        ControlState {
            keys: self.wrapping.keys(),
            session_id: self.session_id@,
            remote_session_id: match self.remote_session_id {
                Some(id) => Some(id@),
                None => None,
            },
            key_id: self.key_id,
            next_packet_id: self.next_packet_id,
            next_replay_id: self.next_replay_id,
            unacknowledged: outstanding(self.unacknowledged@),
            pending_acks: self.pending_acks@,
            expected_packet_id: self.expected_packet_id,
            reordered: held_payloads(self.reordered@),
            outgoing: packets(self.outgoing@),
        }
    }
}

/// A fresh channel's state.
pub open spec fn fresh(keys: WrapKeys, session_id: Seq<u8>) -> ControlState {
    ControlState {
        keys,
        session_id,
        remote_session_id: None,
        key_id: 0,
        next_packet_id: 0,
        next_replay_id: 1,
        unacknowledged: Seq::<Outstanding>::empty(),
        pending_acks: Seq::<u32>::empty(),
        expected_packet_id: 0,
        reordered: Map::<u32, Seq<u8>>::empty(),
        outgoing: Seq::<Seq<u8>>::empty(),
    }
}

fn next_number(n: u32) -> (r: u32)
    ensures
        r == following(n),
{
    if n == u32::MAX {
        0
    } else {
        n + 1
    }
}

impl ControlChannel {
    /// A channel with a random session id.
    pub fn new(control_auth: &ControlAuth) -> (r: Self)
        ensures
            r@ == fresh(WrapKeys::configured(*control_auth), r@.session_id),
            r@.session_id.len() == 8,
    {
        Self::with_session_id(control_auth, random_bytes([0; 8]))
    }

    /// A channel with the session id it is given.
    pub fn with_session_id(control_auth: &ControlAuth, session_id: [u8; 8]) -> (r: Self)
        ensures
            r@ == fresh(WrapKeys::configured(*control_auth), session_id@),
    {
        let r = ControlChannel {
            wrapping: Wrapping::new(control_auth),
            session_id,
            remote_session_id: None,
            key_id: 0,
            next_packet_id: 0,
            next_replay_id: 1,
            unacknowledged: Vec::new(),
            pending_acks: Vec::new(),
            expected_packet_id: 0,
            reordered: BTreeMap::new(),
            outgoing: VecDeque::new(),
        };
        assert(r@ =~= fresh(WrapKeys::configured(*control_auth), session_id@));
        r
    }

    pub fn session_id(&self) -> (id: [u8; 8])
        ensures
            id@ == self@.session_id,
    {
        self.session_id
    }

    pub fn remote_session_id(&self) -> (r: Option<[u8; 8]>)
        ensures
            r is Some <==> self@.remote_session_id is Some,
            r matches Some(id) ==> self@.remote_session_id == Some(id@),
    {
        self.remote_session_id
    }

    pub fn key_id(&self) -> (r: u8)
        ensures
            r == self@.key_id,
    {
        self.key_id
    }

    /// Queues the packet that opens a session.
    pub fn start(&mut self, now: Clock)
        ensures
            final(self)@ == sent(
                old(self)@,
                P_CONTROL_HARD_RESET_CLIENT_V2,
                Seq::<u8>::empty(),
                now,
            ),
    {
        let none: [u8; 0] = [];
        assert(none@ =~= Seq::<u8>::empty());
        self.send(P_CONTROL_HARD_RESET_CLIENT_V2, none.as_slice(), now);
    }

    /// Queues TLS bytes, split across as many packets as they need.
    pub fn send_tls(&mut self, data: &[u8], now: Clock)
        ensures
            final(self)@ == sent_tls(old(self)@, data@, now),
    {
        let mut at: usize = 0;
        assert(data@.skip(0) =~= data@);
        while at < data.len()
            invariant
                at <= data@.len(),
                sent_tls(old(self)@, data@, now) == sent_tls(self@, data@.skip(at as int), now),
            decreases data@.len() - at,
        {
            let size: usize = if data.len() - at < MAX_CONTROL_PAYLOAD {
                data.len() - at
            } else {
                MAX_CONTROL_PAYLOAD
            };
            let chunk = slice_subrange(data, at, at + size);
            proof {
                let rest = data@.skip(at as int);
                assert(chunk@ =~= rest.take(size as int));
                assert(rest.skip(size as int) =~= data@.skip(at + size));
                if rest.len() <= MAX_CONTROL_PAYLOAD {
                    assert(chunk@ =~= rest);
                    assert(data@.skip(at + size) =~= Seq::<u8>::empty());
                }
            }
            self.send(P_CONTROL_V1, chunk, now);
            at = at + size;
        }
        assert(data@.skip(at as int) =~= Seq::<u8>::empty());
    }

    /// Takes the next packet to put on the link.
    pub fn take_outgoing(&mut self) -> (r: Option<Vec<u8>>)
        ensures
            r is Some <==> old(self)@.outgoing.len() > 0,
            r matches Some(packet) ==> packet@ == old(self)@.outgoing[0],
            final(self)@ == (ControlState {
                outgoing: if old(self)@.outgoing.len() > 0 {
                    old(self)@.outgoing.skip(1)
                } else {
                    old(self)@.outgoing
                },
                ..old(self)@
            }),
            final(self)@ == handed_out(old(self)@).1,
            match handed_out(old(self)@).0 {
                Some(next) => r matches Some(packet) && packet@ == next,
                None => r is None,
            },
    {
        let r = self.outgoing.pop_front();
        proof {
            if r is Some {
                assert(self@.outgoing =~= old(self)@.outgoing.skip(1));
            }
        }
        r
    }

    /// Begins a new key generation after the server asks to rekey.
    pub fn rekey(&mut self, key_id: u8)
        ensures
            final(self)@ == (ControlState {
                key_id,
                next_packet_id: 0,
                expected_packet_id: 0,
                unacknowledged: Seq::<Outstanding>::empty(),
                reordered: Map::<u32, Seq<u8>>::empty(),
                pending_acks: Seq::<u32>::empty(),
                ..old(self)@
            }),
    {
        self.key_id = key_id;
        self.next_packet_id = 0;
        self.expected_packet_id = 0;
        self.unacknowledged.clear();
        self.reordered.clear();
        self.pending_acks.clear();
        assert(self@.reordered =~= Map::<u32, Seq<u8>>::empty());
        assert(self@.unacknowledged =~= Seq::<Outstanding>::empty());
        assert(self@.pending_acks =~= Seq::<u32>::empty());
    }

    /// Queues the packet that opens a new key generation.
    ///
    /// A renegotiation reuses the session -- both session ids stay as they
    /// were -- so it starts from a soft reset rather than a hard one.
    pub fn restart(&mut self, now: Clock)
        ensures
            final(self)@ == sent(old(self)@, P_CONTROL_SOFT_RESET_V1, Seq::<u8>::empty(), now),
    {
        let none: [u8; 0] = [];
        assert(none@ =~= Seq::<u8>::empty());
        self.send(P_CONTROL_SOFT_RESET_V1, none.as_slice(), now);
    }

    fn send(&mut self, opcode: u8, payload: &[u8], now: Clock)
        ensures
            final(self)@ == sent(old(self)@, opcode, payload@, now),
    {
        let (packet, packet_id) = self.wrap(opcode, payload, now.unix_seconds);
        let ghost st = self@;
        if let Some(packet_id) = packet_id {
            self.unacknowledged.push(
                Pending { packet_id, packet: slice_to_vec(packet.as_slice()), sent_at: now.monotonic },
            );
            proof {
                assert(self@.unacknowledged =~= st.unacknowledged.push(
                    Outstanding { packet_id, packet: packet@, sent_at: now.monotonic },
                ));
            }
        }
        let ghost st2 = self@;
        self.outgoing.push_back(packet);
        assert(self@.outgoing =~= st2.outgoing.push(packet@));
        assert(self@ =~= sent(old(self)@, opcode, payload@, now));
    }

    /// Sends the acknowledgements that have piled up, if any remain after
    /// whatever was piggybacked on outgoing traffic.
    fn flush_acks(&mut self, unix_seconds: u32)
        ensures
            final(self)@ == acks_flushed(old(self)@, unix_seconds),
    {
        if self.pending_acks.len() == 0 || self.remote_session_id.is_none() {
            return;
        }
        let none: [u8; 0] = [];
        assert(none@ =~= Seq::<u8>::empty());
        let (packet, _) = self.wrap(P_ACK_V1, none.as_slice(), unix_seconds);
        let ghost st = self@;
        self.outgoing.push_back(packet);
        assert(self@.outgoing =~= st.outgoing.push(packet@));
        assert(self@ =~= acks_flushed(old(self)@, unix_seconds));
    }

    /// Builds one control packet.
    ///
    /// The body -- acknowledgements, then this packet's own id, then the
    /// payload -- is the same whichever wrapping is in use. What differs is
    /// what goes in front of it and whether the body travels in the clear.
    pub fn wrap(&mut self, opcode: u8, payload: &[u8], unix_seconds: u32) -> (r: (Vec<u8>, Option<u32>))
        ensures
            final(self)@ == after_packet(old(self)@, opcode),
            r.0@ == packet_due(old(self)@, opcode, payload@, unix_seconds),
            r.0@.len() >= 9,
            r.0@[0] == (opcode << 3) | old(self)@.key_id,
            r.0@.subrange(1, 9) == old(self)@.session_id,
            r.1 == id_due(old(self)@, opcode),
    {
        let ghost st = self@;
        let mut count: usize = 0;
        if self.remote_session_id.is_some() {
            count = if self.pending_acks.len() < MAX_ACKS {
                self.pending_acks.len()
            } else {
                MAX_ACKS
            };
        }
        let mut acks: Vec<u32> = self.pending_acks.split_off(count);
        core::mem::swap(&mut acks, &mut self.pending_acks);
        proof {
            assert(acks@ =~= st.pending_acks.take(count as int));
            assert(self.pending_acks@ =~= st.pending_acks.skip(count as int));
        }
        let mut body: Vec<u8> = Vec::new();
        body.push(acks.len() as u8);
        let mut k: usize = 0;
        assert(acks@.take(0) =~= Seq::<u32>::empty());
        assert(body@ =~= seq![acks@.len() as u8] + id_list(acks@.take(0)));
        while k < acks.len()
            invariant
                k <= acks@.len(),
                body@ == seq![acks@.len() as u8] + id_list(acks@.take(k as int)),
            decreases acks@.len() - k,
        {
            let id = bytes::to_be(acks[k] as u64, 4);
            proof {
                assert(acks@.take(k + 1).drop_last() =~= acks@.take(k as int));
            }
            body.extend_from_slice(id.as_slice());
            k = k + 1;
            assert(body@ =~= seq![acks@.len() as u8] + id_list(acks@.take(k as int)));
        }
        assert(acks@.take(k as int) =~= acks@);
        let ghost remote = match st.remote_session_id {
            Some(id) => id,
            None => Seq::<u8>::empty(),
        };
        if acks.len() > 0 {
            if let Some(id) = self.remote_session_id {
                body.extend_from_slice(id.as_slice());
            }
        }
        let ghost peer = if acks@.len() > 0 {
            remote
        } else {
            Seq::<u8>::empty()
        };
        assert(body@ =~= seq![acks@.len() as u8] + id_list(acks@) + peer);
        let mut packet_id: Option<u32> = None;
        if opcode != P_ACK_V1 {
            let id: u32 = self.next_packet_id;
            self.next_packet_id = next_number(id);
            let id_bytes = bytes::to_be(id as u64, 4);
            body.extend_from_slice(id_bytes.as_slice());
            packet_id = Some(id);
        }
        body.extend_from_slice(payload);
        assert(body@ =~= control_body(acks@, remote, packet_id, payload@));
        let first: u8 = (opcode << 3) | self.key_id;
        let replay = self.replay_header(unix_seconds);
        let packet = self.wrapping.pack(first, &self.session_id, replay.as_slice(), body.as_slice());
        assert(self@ =~= after_packet(st, opcode));
        assert(packet@.subrange(1, 9) =~= st.session_id);
        (packet, packet_id)
    }

    /// The packet id and timestamp that the authenticated wrappings put in
    /// front of the body to stop a replay. Its counter moves on only where the
    /// wrapping is one that uses it.
    fn replay_header(&mut self, unix_seconds: u32) -> (header: Vec<u8>)
        ensures
            header@ == replay_prefix(old(self)@.next_replay_id, unix_seconds),
            final(self)@ == (ControlState {
                next_replay_id: if old(self)@.keys is Plain {
                    old(self)@.next_replay_id
                } else {
                    following(old(self)@.next_replay_id)
                },
                ..old(self)@
            }),
            final(self).wrapping == old(self).wrapping,
            final(self).session_id == old(self).session_id,
    {
        let mut header = bytes::to_be(self.next_replay_id as u64, 4);
        let stamp = bytes::to_be(unix_seconds as u64, 4);
        header.extend_from_slice(stamp.as_slice());
        match self.wrapping {
            Wrapping::Plain => {},
            _ => {
                self.next_replay_id = next_number(self.next_replay_id);
            },
        }
        header
    }

    /// Queues another copy of anything that has gone unacknowledged for too
    /// long.
    pub fn resend_stale(&mut self, now: u64)
        ensures
            final(self)@ == stale_resent(old(self)@, now),
    {
        let ghost st = self@;
        let mut k: usize = 0;
        assert(st.unacknowledged.take(0) =~= Seq::<Outstanding>::empty());
        assert(st.outgoing + stale_packets(st.unacknowledged.take(0), now) =~= st.outgoing);
        while k < self.unacknowledged.len()
            invariant
                k <= self.unacknowledged@.len() == st.unacknowledged.len(),
                forall|i: int|
                    0 <= i < st.unacknowledged.len() ==> #[trigger] self@.unacknowledged[i] == if i
                        < k {
                        renewed(st.unacknowledged[i], now)
                    } else {
                        st.unacknowledged[i]
                    },
                self@ == (ControlState {
                    unacknowledged: self@.unacknowledged,
                    outgoing: st.outgoing + stale_packets(st.unacknowledged.take(k as int), now),
                    ..st
                }),
            decreases st.unacknowledged.len() - k,
        {
            let ghost before = self@;
            assert(before.unacknowledged[k as int] == st.unacknowledged[k as int]);
            assert(st.unacknowledged.take(k + 1).drop_last() =~= st.unacknowledged.take(k as int));
            if time::since(now, self.unacknowledged[k].sent_at) >= RETRANSMIT_AFTER {
                let packet = slice_to_vec(self.unacknowledged[k].packet.as_slice());
                self.unacknowledged[k].sent_at = now;
                self.outgoing.push_back(packet);
                proof {
                    assert(self@.outgoing =~= before.outgoing.push(packet@));
                    assert(self@.outgoing =~= st.outgoing + stale_packets(
                        st.unacknowledged.take(k + 1),
                        now,
                    ));
                }
            }
            assert forall|i: int| 0 <= i < st.unacknowledged.len() implies (
            #[trigger] self@.unacknowledged[i]) == if i < k + 1 {
                renewed(st.unacknowledged[i], now)
            } else {
                st.unacknowledged[i]
            } by {
                assert(before.unacknowledged[i] == if i < k {
                    renewed(st.unacknowledged[i], now)
                } else {
                    st.unacknowledged[i]
                });
            }
            k = k + 1;
        }
        assert(st.unacknowledged.take(k as int) =~= st.unacknowledged);
        assert(self@ =~= stale_resent(st, now));
    }

    /// Forgets the outstanding packets that the peer says have arrived.
    fn acknowledge(&mut self, acks: &Vec<u32>)
        ensures
            final(self)@ == (ControlState {
                unacknowledged: still_outstanding(old(self)@.unacknowledged, acks@),
                ..old(self)@
            }),
    {
        let ghost st = self@;
        let ghost list = st.unacknowledged;
        let ghost keep = |p: Outstanding| !acks@.contains(p.packet_id);
        let mut k: usize = 0;
        let ghost mut seen: int = 0;
        assert(list.take(0) =~= Seq::<Outstanding>::empty());
        assert(list.skip(0) =~= list);
        proof {
            reveal(Seq::filter);
        }
        assert(list.take(0).filter(keep) + list.skip(0) =~= list);
        while k < self.unacknowledged.len()
            invariant
                0 <= seen <= list.len(),
                list == st.unacknowledged,
                keep == (|p: Outstanding| !acks@.contains(p.packet_id)),
                k == list.take(seen).filter(keep).len(),
                self@ == (ControlState {
                    unacknowledged: list.take(seen).filter(keep) + list.skip(seen),
                    ..st
                }),
            decreases list.len() - seen,
        {
            let ghost before = self@.unacknowledged;
            proof {
                reveal(Seq::filter);
                assert(self@.unacknowledged.len() == self.unacknowledged@.len());
                assert(seen < list.len());
                assert(before[k as int] == list.skip(seen)[0]);
                assert(list.take(seen + 1).drop_last() =~= list.take(seen));
                assert(list.take(seen + 1).last() == list[seen]);
            }
            if holds_id(acks, self.unacknowledged[k].packet_id) {
                let gone = self.unacknowledged.remove(k);
                proof {
                    assert(self@.unacknowledged =~= before.remove(k as int));
                    assert(before.remove(k as int) =~= list.take(seen).filter(keep) + list.skip(
                        seen + 1,
                    ));
                }
            } else {
                proof {
                    assert(before =~= list.take(seen).filter(keep).push(list[seen]) + list.skip(
                        seen + 1,
                    ));
                }
                k = k + 1;
            }
            proof {
                seen = seen + 1;
            }
        }
        proof {
            assert(self@.unacknowledged.len() == self.unacknowledged@.len());
            assert(seen == list.len());
            assert(list.take(seen) =~= list);
            assert(list.skip(seen) =~= Seq::<Outstanding>::empty());
            assert(self@.unacknowledged =~= list.filter(keep));
        }
    }

    /// Steps past a reset that is next in the numbering, and acknowledges it.
    fn note_reset(&mut self, packet_id: u32, unix_seconds: u32)
        ensures
            final(self)@ == reset_seen(old(self)@, packet_id, unix_seconds),
    {
        if packet_id == self.expected_packet_id {
            self.expected_packet_id = next_number(packet_id);
        }
        self.flush_acks(unix_seconds);
    }

    /// Takes out the payloads that are next in order.
    fn drain_in_order(&mut self) -> (payload: Vec<u8>)
        ensures
            payload@ == deliverable(old(self)@.reordered, old(self)@.expected_packet_id),
            final(self)@ == (ControlState {
                reordered: held_back(old(self)@.reordered, old(self)@.expected_packet_id),
                expected_packet_id: next_expected(
                    old(self)@.reordered,
                    old(self)@.expected_packet_id,
                ),
                ..old(self)@
            }),
    {
        broadcast use vstd::std_specs::btree::group_btree_axioms;

        let ghost st = self@;
        let mut payload: Vec<u8> = Vec::new();
        assert(payload@ + deliverable(st.reordered, st.expected_packet_id) =~= deliverable(
            st.reordered,
            st.expected_packet_id,
        ));
        loop
            invariant
                st == old(self)@,
                payload@ + deliverable(self@.reordered, self@.expected_packet_id) == deliverable(
                    st.reordered,
                    st.expected_packet_id,
                ),
                held_back(self@.reordered, self@.expected_packet_id) == held_back(
                    st.reordered,
                    st.expected_packet_id,
                ),
                next_expected(self@.reordered, self@.expected_packet_id) == next_expected(
                    st.reordered,
                    st.expected_packet_id,
                ),
                self@ == (ControlState {
                    reordered: self@.reordered,
                    expected_packet_id: self@.expected_packet_id,
                    ..st
                }),
            decreases self.reordered@.dom().len(),
        {
            let ghost before = self@;
            let ghost raw = self.reordered@;
            let expected: u32 = self.expected_packet_id;
            assert(before.reordered.dom() =~= raw.dom());
            assert(raw.dom().finite());
            match self.reordered.remove(&expected) {
                Some(chunk) => {
                    self.expected_packet_id = next_number(expected);
                    proof {
                        assert(self.reordered@ == raw.remove(expected));
                        assert(self@.reordered =~= before.reordered.remove(expected));
                        assert(before.reordered[expected] == chunk@);
                    }
                    payload.extend_from_slice(chunk.as_slice());
                    assert(payload@ + deliverable(self@.reordered, self@.expected_packet_id)
                        == deliverable(st.reordered, st.expected_packet_id));
                },
                None => {
                    proof {
                        assert(!before.reordered.contains_key(expected));
                        assert(self@.reordered =~= before.reordered);
                        assert(payload@ =~= deliverable(st.reordered, st.expected_packet_id));
                    }
                    return payload;
                },
            }
        }
    }

    /// Reads one control packet and says what it meant.
    pub fn receive(&mut self, packet: &[u8], unix_seconds: u32) -> (r: Result<Received, String>)
        ensures
            match received(old(self)@, packet@, unix_seconds) {
                Ok((next, meaning)) => final(self)@ == next && (r matches Ok(found)
                    && found.meaning() == meaning),
                Err(why) => final(self)@ == old(self)@ && (r matches Err(message) && message@
                    == why),
            },
    {
        broadcast use vstd::std_specs::btree::group_btree_axioms;

        let ghost st = self@;
        let opcode: u8 = match opcode_of(packet) {
            Some(opcode) => opcode,
            None => return Err("an OpenVPN control packet was empty".to_owned()),
        };
        if packet.len() < 9 {
            return Err("an OpenVPN control packet was truncated".to_owned());
        }
        // A renegotiation restarts the numbering, so a retransmission from the
        // generation being replaced would otherwise be read as a packet of the
        // new one. The soft reset is the exception: it is what announces the
        // new key id in the first place.
        let key_id: u8 = packet[0] & 7;
        if key_id != self.key_id && opcode != P_CONTROL_SOFT_RESET_V1 {
            return Ok(Received::Nothing);
        }
        let sender = bytes::filled([0u8; 8], slice_subrange(packet, 1, 9));
        let inner = match self.wrapping.unpack(packet) {
            Ok(inner) => inner,
            Err(message) => return Err(message),
        };
        let body = match parse_body(inner.as_slice(), opcode) {
            Ok(body) => body,
            Err(message) => return Err(message),
        };
        if self.remote_session_id.is_none() {
            self.remote_session_id = Some(sender);
        }
        self.acknowledge(&body.acks);
        let packet_id: u32 = match body.packet_id {
            Some(packet_id) => packet_id,
            None => {
                return Ok(Received::Nothing);
            },
        };
        self.pending_acks.push(packet_id);
        let ghost owing = self@;
        // A reset occupies a slot in the numbering, so the in-order reader has
        // to step past it or it waits forever for a payload that never comes.
        if opcode == P_CONTROL_HARD_RESET_SERVER_V2 {
            self.note_reset(packet_id, unix_seconds);
            return Ok(Received::ServerReset);
        }
        if opcode == P_CONTROL_SOFT_RESET_V1 {
            self.note_reset(packet_id, unix_seconds);
            return Ok(Received::SoftReset { key_id });
        }
        let payload = body.payload;
        let ghost raw = self.reordered@;
        self.reordered.insert(packet_id, payload);
        proof {
            assert(self.reordered@ == raw.insert(packet_id, payload));
            assert(self@.reordered =~= owing.reordered.insert(packet_id, payload@));
        }
        let ghost held = self@;
        self.flush_acks(unix_seconds);
        let delivered = self.drain_in_order();
        proof {
            let model = parsed_body(inner@, opcode)->Ok_0;
            let (next, _) = absorbed(st, opcode, key_id, sender@, model, unix_seconds);
            assert(self@ =~= next);
        }
        if delivered.len() == 0 {
            Ok(Received::Nothing)
        } else {
            Ok(Received::Payload(delivered))
        }
    }
}

fn holds_id(ids: &Vec<u32>, id: u32) -> (r: bool)
    ensures
        r == ids@.contains(id),
{
    let mut k: usize = 0;
    while k < ids.len()
        invariant
            k <= ids@.len(),
            forall|i: int| 0 <= i < k ==> ids@[i] != id,
        decreases ids@.len() - k,
    {
        if ids[k] == id {
            return true;
        }
        k = k + 1;
    }
    false
}

proof fn lemma_id_list_len(ids: Seq<u32>)
    ensures
        id_list(ids).len() == 4 * ids.len(),
    decreases ids.len(),
{
    if ids.len() > 0 {
        lemma_id_list_len(ids.drop_last());
        bytes::lemma_be_bytes_len(ids.last() as nat, 4);
    }
}

proof fn lemma_id_list_reads_back(ids: Seq<u32>, k: int)
    requires
        0 <= k < ids.len(),
    ensures
        id_list(ids).len() == 4 * ids.len(),
        bytes::be_value(id_list(ids).subrange(4 * k, 4 * k + 4)) == ids[k],
    decreases ids.len(),
{
    lemma_id_list_len(ids);
    lemma_id_list_len(ids.drop_last());
    bytes::lemma_be_bytes_len(ids.last() as nat, 4);
    let list = id_list(ids);
    if k == ids.len() - 1 {
        bytes::lemma_byte_ranges();
        bytes::lemma_be_round_trip(ids.last() as nat, 4);
        assert(list.subrange(4 * k, 4 * k + 4) =~= bytes::be_bytes(ids.last() as nat, 4));
    } else {
        lemma_id_list_reads_back(ids.drop_last(), k);
        assert(list.subrange(4 * k, 4 * k + 4) =~= id_list(ids.drop_last()).subrange(
            4 * k,
            4 * k + 4,
        ));
    }
}

/// A control packet's body reads back as what was put in it.
pub proof fn a_body_reads_back(
    acks: Seq<u32>,
    remote_session_id: Seq<u8>,
    packet_id: Option<u32>,
    payload: Seq<u8>,
    opcode: u8,
)
    requires
        acks.len() <= MAX_ACKS,
        acks.len() > 0 ==> remote_session_id.len() == 8,
        packet_id is None <==> opcode == P_ACK_V1,
    ensures
        parsed_body(control_body(acks, remote_session_id, packet_id, payload), opcode) == Ok::<
            BodyModel,
            Seq<char>,
        >(BodyModel { acks, packet_id, payload }),
{
    let body = control_body(acks, remote_session_id, packet_id, payload);
    let count = acks.len() as int;
    lemma_id_list_len(acks);
    let after_acks = 1 + 4 * count;
    let cursor = if count > 0 {
        after_acks + 8
    } else {
        after_acks
    };
    assert(body[0] == count as u8);
    assert forall|k: int| 0 <= k < count implies bytes::be_value(
        #[trigger] body.subrange(1 + 4 * k, 5 + 4 * k),
    ) as u32 == acks[k] by {
        lemma_id_list_reads_back(acks, k);
        assert(body.subrange(1 + 4 * k, 5 + 4 * k) =~= id_list(acks).subrange(4 * k, 4 * k + 4));
    }
    let found = Seq::new(
        count as nat,
        |k: int| bytes::be_value(body.subrange(1 + 4 * k, 5 + 4 * k)) as u32,
    );
    assert(found =~= acks);
    match packet_id {
        Some(id) => {
            bytes::lemma_be_bytes_len(id as nat, 4);
            bytes::lemma_byte_ranges();
            bytes::lemma_be_round_trip(id as nat, 4);
            assert(body.subrange(cursor, cursor + 4) =~= bytes::be_bytes(id as nat, 4));
            assert(body.skip(cursor + 4) =~= payload);
        },
        None => {
            assert(body.skip(cursor) =~= payload);
        },
    }
}

/// What one end wraps, the other end, which holds the same keys the other way
/// round, unwraps.
pub proof fn a_wrapped_body_unwraps_at_the_other_end(
    keys: WrapKeys,
    first: u8,
    session_id: Seq<u8>,
    replay: Seq<u8>,
    body: Seq<u8>,
)
    requires
        session_id.len() == 8,
        replay.len() == 8,
    ensures
        unwrapped(keys.mirrored(), control_packet(keys, first, session_id, replay, body)) == Ok::<
            Seq<u8>,
            Seq<char>,
        >(body),
{
    let packet = control_packet(keys, first, session_id, replay, body);
    match keys {
        WrapKeys::Plain => {
            assert(packet.skip(9) =~= body);
        },
        WrapKeys::TlsAuth { send, receive, digest } => {
            let size = digest.size() as int;
            let mac = Keyed::of(digest).tag(send, replay + seq![first] + session_id + body);
            assert(mac.len() == size);
            assert(packet.subrange(9, 9 + size) =~= mac);
            assert(packet.subrange(9 + size, 9 + size + 8) =~= replay);
            assert(packet.skip(9 + size + 8) =~= body);
            assert(packet.subrange(1, 9) =~= session_id);
            assert(packet[0] == first);
        },
        WrapKeys::TlsCrypt { send_cipher, send_hmac, receive_cipher, receive_hmac } => {
            let header = seq![first] + session_id + replay;
            let tag = Keyed::Sha256.tag(send_hmac, header + body);
            assert(tag.len() == 32);
            let hidden = crypto::ctr_applied(send_cipher, tag.take(16), body);
            assert(packet.take(17) =~= header);
            assert(packet.subrange(17, 49) =~= tag);
            assert(packet.skip(49) =~= hidden);
            crypto::ctr_applied_twice_is_the_data(send_cipher, tag.take(16), body);
        },
    }
}

proof fn lemma_first_byte(opcode: u8, key_id: u8)
    by (bit_vector)
    requires
        opcode < 32,
        key_id < 8,
    ensures
        ((opcode << 3) | key_id) >> 3 == opcode,
        ((opcode << 3) | key_id) & 7 == key_id,
{
}

/// A packet that one end builds is read by its peer as exactly what was put in
/// it: the acknowledgements, the packet id and the payload.
pub proof fn a_packet_is_understood_by_the_peer(
    sender: ControlState,
    receiver: ControlState,
    opcode: u8,
    payload: Seq<u8>,
    sent_unix: u32,
    read_unix: u32,
)
    requires
        receiver.keys == sender.keys.mirrored(),
        sender.session_id.len() == 8,
        sender.remote_session_id matches Some(id) ==> id.len() == 8,
        opcode < 32,
        sender.key_id < 8,
        sender.key_id == receiver.key_id || opcode == P_CONTROL_SOFT_RESET_V1,
    ensures
        received(receiver, packet_due(sender, opcode, payload, sent_unix), read_unix) == Ok::<
            (ControlState, Meaning),
            Seq<char>,
        >(
            absorbed(
                receiver,
                opcode,
                sender.key_id,
                sender.session_id,
                BodyModel {
                    acks: sender.pending_acks.take(acks_due(sender)),
                    packet_id: id_due(sender, opcode),
                    payload,
                },
                read_unix,
            ),
        ),
{
    let remote = match sender.remote_session_id {
        Some(id) => id,
        None => Seq::<u8>::empty(),
    };
    let first = (opcode << 3) | sender.key_id;
    let replay = replay_prefix(sender.next_replay_id, sent_unix);
    let acks = sender.pending_acks.take(acks_due(sender));
    let body = control_body(acks, remote, id_due(sender, opcode), payload);
    let packet = packet_due(sender, opcode, payload, sent_unix);
    bytes::lemma_be_bytes_len(sender.next_replay_id as nat, 4);
    bytes::lemma_be_bytes_len(sent_unix as nat, 4);
    lemma_first_byte(opcode, sender.key_id);
    a_wrapped_body_unwraps_at_the_other_end(sender.keys, first, sender.session_id, replay, body);
    a_body_reads_back(acks, remote, id_due(sender, opcode), payload, opcode);
    assert(packet[0] == first);
    assert(packet.subrange(1, 9) =~= sender.session_id);
}

/// The two directions of a static key are mirror images: what one end signs
/// with, the other checks with.
pub proof fn mirrored_directions_hold_mirrored_keys(
    key: Box<crate::openvpn::config::StaticKey>,
    direction: crate::openvpn::config::KeyDirection,
    digest: Digest,
)
    ensures
        WrapKeys::configured(
            ControlAuth::TlsAuth { key, direction: direction.mirrored(), digest },
        ) == WrapKeys::configured(ControlAuth::TlsAuth { key, direction, digest }).mirrored(),
{
}

proof fn lemma_filter_drops(list: Seq<Outstanding>, acks: Seq<u32>)
    ensures
        forall|i: int|
            0 <= i < still_outstanding(list, acks).len() ==> !acks.contains(
                (#[trigger] still_outstanding(list, acks)[i]).packet_id,
            ),
        forall|p: Outstanding|
            list.contains(p) && !acks.contains(p.packet_id)
                ==> #[trigger] still_outstanding(list, acks).contains(p),
    decreases list.len(),
{
    reveal(Seq::filter);
    let kept = still_outstanding(list, acks);
    if list.len() > 0 {
        let sub = still_outstanding(list.drop_last(), acks);
        lemma_filter_drops(list.drop_last(), acks);
        assert forall|i: int| 0 <= i < kept.len() implies !acks.contains(
            (#[trigger] kept[i]).packet_id,
        ) by {
            if i < sub.len() {
                assert(kept[i] == sub[i]);
            }
        }
        assert forall|p: Outstanding| list.contains(p) && !acks.contains(p.packet_id) implies (
        #[trigger] kept.contains(p)) by {
            let j = choose|j: int| 0 <= j < list.len() && list[j] == p;
            if j < list.len() - 1 {
                assert(list.drop_last()[j] == p);
                assert(sub.contains(p));
                let m = choose|m: int| 0 <= m < sub.len() && sub[m] == p;
                assert(kept[m] == p);
            } else {
                assert(kept[kept.len() - 1] == p);
            }
        }
    }
}

/// Once an acknowledgement has been read, the packet it names is no longer
/// outstanding, so it is not sent again; every packet it does not name stays.
pub proof fn an_acknowledgement_settles_exactly_the_packets_it_names(
    st: ControlState,
    opcode: u8,
    key_id: u8,
    sender: Seq<u8>,
    body: BodyModel,
    unix: u32,
)
    ensures
        forall|i: int|
            0 <= i < absorbed(st, opcode, key_id, sender, body, unix).0.unacknowledged.len()
                ==> !body.acks.contains(
                (#[trigger] absorbed(
                    st,
                    opcode,
                    key_id,
                    sender,
                    body,
                    unix,
                ).0.unacknowledged[i]).packet_id,
            ),
        forall|p: Outstanding|
            st.unacknowledged.contains(p) && !body.acks.contains(p.packet_id)
                ==> #[trigger] absorbed(
                st,
                opcode,
                key_id,
                sender,
                body,
                unix,
            ).0.unacknowledged.contains(p),
{
    lemma_filter_drops(st.unacknowledged, body.acks);
}

/// Numbered payloads as they arrive, in whatever order.
pub struct Arrival {
    pub packet_id: u32,
    pub payload: Seq<u8>,
}

/// What the in-order reader holds.
pub struct Reader {
    pub delivered: Seq<u8>,
    pub held: Map<u32, Seq<u8>>,
    pub expected: u32,
}

/// The in-order reader once `arrivals` have come in, one after another.
pub open spec fn read_all(start: u32, arrivals: Seq<Arrival>) -> Reader
    decreases arrivals.len(),
{
    if arrivals.len() == 0 {
        Reader {
            delivered: Seq::<u8>::empty(),
            held: Map::<u32, Seq<u8>>::empty(),
            expected: start,
        }
    } else {
        let before = read_all(start, arrivals.drop_last());
        let held = before.held.insert(arrivals.last().packet_id, arrivals.last().payload);
        Reader {
            delivered: before.delivered + deliverable(held, before.expected),
            held: held_back(held, before.expected),
            expected: next_expected(held, before.expected),
        }
    }
}

/// Whether `held` maps packet ids, counted from `start`, to their chunks.
spec fn holds_chunks(held: Map<u32, Seq<u8>>, start: u32, chunks: Seq<Seq<u8>>) -> bool {
    forall|id: u32| #[trigger]
        held.contains_key(id) ==> start <= id < start + chunks.len() && held[id] == chunks[id
            - start]
}

proof fn lemma_drain(held: Map<u32, Seq<u8>>, start: u32, chunks: Seq<Seq<u8>>, k: int)
    requires
        held.dom().finite(),
        holds_chunks(held, start, chunks),
        start + chunks.len() <= u32::MAX,
        0 <= k <= chunks.len(),
    ensures
        start + k <= next_expected(held, (start + k) as u32) <= start + chunks.len(),
        bytes::joined(chunks.take(k)) + deliverable(held, (start + k) as u32) == bytes::joined(
            chunks.take(next_expected(held, (start + k) as u32) - start),
        ),
        held_back(held, (start + k) as u32).dom().finite(),
        holds_chunks(held_back(held, (start + k) as u32), start, chunks),
        !held_back(held, (start + k) as u32).contains_key(
            next_expected(held, (start + k) as u32),
        ),
        forall|id: u32|
            held.contains_key(id) && !(start + k <= id < next_expected(
                held,
                (start + k) as u32,
            )) ==> #[trigger] held_back(held, (start + k) as u32).contains_key(id),
        forall|id: u32| #[trigger]
            held_back(held, (start + k) as u32).contains_key(id) ==> held.contains_key(id),
        forall|id: u32|
            start + k <= id < next_expected(held, (start + k) as u32)
                ==> #[trigger] held.contains_key(id),
    decreases held.dom().len(),
{
    let e = (start + k) as u32;
    if held.contains_key(e) {
        let rest = held.remove(e);
        assert(rest.dom() =~= held.dom().remove(e));
        assert(chunks.take(k + 1).drop_last() =~= chunks.take(k));
        lemma_drain(rest, start, chunks, k + 1);
        assert(bytes::joined(chunks.take(k)) + (chunks[k] + deliverable(rest, following(e)))
            =~= bytes::joined(chunks.take(k + 1)) + deliverable(rest, following(e)));
        assert forall|id: u32|
            held.contains_key(id) && !(e <= id < next_expected(held, e)) implies #[trigger] held_back(
            held,
            e,
        ).contains_key(id) by {
            assert(rest.contains_key(id));
        }
        assert forall|id: u32| #[trigger] held_back(held, e).contains_key(id) implies held.contains_key(
            id,
        ) by {
            assert(rest.contains_key(id));
        }
        assert forall|id: u32| e <= id < next_expected(held, e) implies #[trigger] held.contains_key(
            id,
        ) by {
            if id != e {
                assert(rest.contains_key(id));
            }
        }
    } else {
        assert(bytes::joined(chunks.take(k)) + Seq::<u8>::empty() =~= bytes::joined(
            chunks.take(k),
        ));
    }
}

/// One packet as it comes in.
pub struct Hearing {
    /// What the channel holds when it comes in.
    pub before: ControlState,
    pub packet: Seq<u8>,
    pub unix: u32,
}

impl Hearing {
    /// What the channel holds then. A refused packet leaves it as it was.
    pub open spec fn after(self) -> ControlState {
        match received(self.before, self.packet, self.unix) {
            Ok((next, _)) => next,
            Err(_) => self.before,
        }
    }

    /// The payload that is handed over.
    pub open spec fn brought(self) -> Seq<u8> {
        match received(self.before, self.packet, self.unix) {
            Ok((_, Meaning::Payload(payload))) => payload,
            _ => Seq::<u8>::empty(),
        }
    }
}

/// Whether two states read what comes in alike.
pub open spec fn reads_alike(a: ControlState, b: ControlState) -> bool {
    a.keys == b.keys && a.key_id == b.key_id && a.expected_packet_id == b.expected_packet_id
        && a.reordered == b.reordered
}

/// What a channel holds at the end of a run.
pub open spec fn state_after(st: ControlState, run: Seq<Hearing>) -> ControlState {
    if run.len() == 0 {
        st
    } else {
        run.last().after()
    }
}

/// Whether a run of packets comes in one after another, with nothing in between
/// but what leaves the reading side alone.
pub open spec fn is_run(st: ControlState, run: Seq<Hearing>) -> bool
    decreases run.len(),
{
    run.len() == 0 || (is_run(st, run.drop_last()) && reads_alike(
        run.last().before,
        state_after(st, run.drop_last()),
    ))
}

/// All that a run handed over, in order.
pub open spec fn handed_over(run: Seq<Hearing>) -> Seq<u8>
    decreases run.len(),
{
    if run.len() == 0 {
        Seq::<u8>::empty()
    } else {
        handed_over(run.drop_last()) + run.last().brought()
    }
}

/// The payload that an authentic and well-formed packet of these keys carries,
/// with its number.
pub open spec fn carried(keys: WrapKeys, key_id: u8, packet: Seq<u8>) -> Option<Arrival> {
    if packet.len() >= 9 && packet[0] >> 3 == P_CONTROL_V1 && packet[0] & 7 == key_id {
        match unwrapped(keys, packet) {
            Ok(inner) => match parsed_body(inner, P_CONTROL_V1) {
                Ok(body) => match body.packet_id {
                    Some(packet_id) => Some(Arrival { packet_id, payload: body.payload }),
                    None => None,
                },
                Err(_) => None,
            },
            Err(_) => None,
        }
    } else {
        None
    }
}

/// Whether a run brings nothing but numbered parts of one message.
pub open spec fn brings_parts(
    st: ControlState,
    start: int,
    chunks: Seq<Seq<u8>>,
    run: Seq<Hearing>,
) -> bool {
    forall|i: int|
        #![trigger run[i]]
        0 <= i < run.len() ==> {
            &&& carried(st.keys, st.key_id, run[i].packet) matches Some(part)
            &&& start <= part.packet_id < start + chunks.len()
            &&& part.payload == chunks[part.packet_id - start]
        }
}

/// Whether some packet of a run has this number.
pub open spec fn has_arrived(st: ControlState, run: Seq<Hearing>, id: int) -> bool {
    exists|i: int|
        #![trigger run[i]]
        0 <= i < run.len() && carried(st.keys, st.key_id, run[i].packet)->0.packet_id == id
}

spec fn arrivals_of(st: ControlState, run: Seq<Hearing>) -> Seq<Arrival> {
    Seq::new(run.len(), |i: int| carried(st.keys, st.key_id, run[i].packet)->0)
}

proof fn lemma_run_reads_all(
    st: ControlState,
    start: u32,
    chunks: Seq<Seq<u8>>,
    run: Seq<Hearing>,
)
    requires
        st.expected_packet_id == start,
        st.reordered == Map::<u32, Seq<u8>>::empty(),
        is_run(st, run),
        brings_parts(st, start as int, chunks, run),
    ensures
        ({
            let end = state_after(st, run);
            let reader = read_all(start, arrivals_of(st, run));
            &&& end.keys == st.keys
            &&& end.key_id == st.key_id
            &&& end.expected_packet_id == reader.expected
            &&& end.reordered == reader.held
            &&& handed_over(run) == reader.delivered
        }),
    decreases run.len(),
{
    if run.len() > 0 {
        let earlier = run.drop_last();
        assert forall|i: int|
            #![trigger earlier[i]]
            0 <= i < earlier.len() implies ({
            &&& carried(st.keys, st.key_id, earlier[i].packet) matches Some(part)
            &&& start <= part.packet_id < start + chunks.len()
            &&& part.payload == chunks[part.packet_id - start]
        }) by {
            assert(earlier[i] == run[i]);
        }
        lemma_run_reads_all(st, start, chunks, earlier);
        assert(arrivals_of(st, run).drop_last() =~= arrivals_of(st, earlier));
        let last = run.last();
        assert(last == run[run.len() - 1]);
        let part = carried(st.keys, st.key_id, last.packet)->0;
        assert(arrivals_of(st, run).last() == part);
        let held = last.before.reordered.insert(part.packet_id, part.payload);
        let due = deliverable(held, last.before.expected_packet_id);
        if due.len() == 0 {
            assert(due =~= Seq::<u8>::empty());
        }
    }
}

/// Payloads are delivered in order, each exactly once, however the packets that
/// carry them are reordered or repeated and whatever is sent in between: what
/// has been handed over is always the sender's bytes up to the first packet that
/// is still missing. Every packet before that one has arrived.
pub proof fn payloads_are_delivered_in_order(
    st: ControlState,
    chunks: Seq<Seq<u8>>,
    run: Seq<Hearing>,
)
    requires
        st.expected_packet_id + chunks.len() <= u32::MAX,
        st.reordered == Map::<u32, Seq<u8>>::empty(),
        is_run(st, run),
        brings_parts(st, st.expected_packet_id as int, chunks, run),
    ensures
        ({
            let start = st.expected_packet_id as int;
            let next = state_after(st, run).expected_packet_id as int;
            &&& start <= next <= start + chunks.len()
            &&& handed_over(run) == bytes::joined(chunks.take(next - start))
            &&& forall|id: int| start <= id < next ==> #[trigger] has_arrived(st, run, id)
            &&& !has_arrived(st, run, next)
        }),
{
    let start = st.expected_packet_id;
    let arrivals = arrivals_of(st, run);
    lemma_run_reads_all(st, start, chunks, run);
    assert forall|i: int| 0 <= i < arrivals.len() implies start <= (
    #[trigger] arrivals[i]).packet_id < start + chunks.len() && arrivals[i].payload
        == chunks[arrivals[i].packet_id - start] by {
        let heard = run[i];
    }
    lemma_read_all(start, chunks, arrivals);
    let next = read_all(start, arrivals).expected;
    assert forall|id: int| start <= id < next implies #[trigger] has_arrived(st, run, id) by {
        assert(numbered(arrivals, id as u32));
        let i = choose|i: int| 0 <= i < arrivals.len() && (#[trigger] arrivals[i]).packet_id == id as u32;
        assert(carried(st.keys, st.key_id, run[i].packet)->0.packet_id == id);
    }
    if has_arrived(st, run, next as int) {
        let i = choose|i: int|
            #![trigger run[i]]
            0 <= i < run.len() && carried(st.keys, st.key_id, run[i].packet)->0.packet_id == next;
        assert(arrivals[i].packet_id == next);
    }
}

/// Whether a packet is the server's answer to the opening reset, numbered zero.
pub open spec fn is_first_reset(keys: WrapKeys, key_id: u8, packet: Seq<u8>) -> bool {
    &&& packet.len() >= 9
    &&& packet[0] >> 3 == P_CONTROL_HARD_RESET_SERVER_V2
    &&& packet[0] & 7 == key_id
    &&& unwrapped(keys, packet) matches Ok(inner)
    &&& parsed_body(inner, P_CONTROL_HARD_RESET_SERVER_V2) matches Ok(body)
    &&& body.packet_id == Some(0u32)
}

/// After the server's reset the payloads count from one: what has been handed
/// over is the parts one to `n`, in order and each once, where all of these have
/// arrived and the one after them has not.
pub proof fn payloads_follow_the_reset(
    st: ControlState,
    reset: Seq<u8>,
    unix: u32,
    chunks: Seq<Seq<u8>>,
    run: Seq<Hearing>,
)
    requires
        st.expected_packet_id == 0,
        st.reordered == Map::<u32, Seq<u8>>::empty(),
        is_first_reset(st.keys, st.key_id, reset),
        chunks.len() < u32::MAX,
        is_run((Hearing { before: st, packet: reset, unix }).after(), run),
        brings_parts(st, 1, chunks, run),
    ensures
        received(st, reset, unix) matches Ok((_, meaning)) && meaning == Meaning::ServerReset,
        ({
            let opened = (Hearing { before: st, packet: reset, unix }).after();
            let n = state_after(opened, run).expected_packet_id - 1;
            &&& 0 <= n <= chunks.len()
            &&& handed_over(run) == bytes::joined(chunks.take(n))
            &&& forall|id: int| 1 <= id <= n ==> #[trigger] has_arrived(st, run, id)
            &&& !has_arrived(st, run, n + 1)
        }),
{
    let opened = (Hearing { before: st, packet: reset, unix }).after();
    assert(opened.keys == st.keys && opened.key_id == st.key_id);
    assert(opened.expected_packet_id == 1);
    assert(opened.reordered == st.reordered);
    payloads_are_delivered_in_order(opened, chunks, run);
    let n = state_after(opened, run).expected_packet_id - 1;
    assert forall|id: int| 1 <= id <= n implies #[trigger] has_arrived(st, run, id) by {
        assert(has_arrived(opened, run, id));
    }
    assert(has_arrived(st, run, n + 1) == has_arrived(opened, run, n + 1));
}

/// Sending, resending and handing packets to the link leave the reading side
/// alone.
pub proof fn sending_does_not_disturb_the_reader(
    st: ControlState,
    opcode: u8,
    data: Seq<u8>,
    now: Clock,
    outgoing: Seq<Seq<u8>>,
)
    ensures
        reads_alike(sent(st, opcode, data, now), st),
        reads_alike(sent_tls(st, data, now), st),
        reads_alike(stale_resent(st, now.monotonic), st),
        reads_alike((ControlState { outgoing, ..st }), st),
    decreases data.len(),
{
    if data.len() > MAX_CONTROL_PAYLOAD {
        let first = sent(st, P_CONTROL_V1, data.take(MAX_CONTROL_PAYLOAD as int), now);
        sending_does_not_disturb_the_reader(
            first,
            opcode,
            data.skip(MAX_CONTROL_PAYLOAD as int),
            now,
            outgoing,
        );
    }
}

/// One packet as it is built.
pub struct Building {
    /// What the channel holds when it is built.
    pub before: ControlState,
    pub opcode: u8,
    pub payload: Seq<u8>,
    pub unix: u32,
}

impl Building {
    pub open spec fn after(self) -> ControlState {
        after_packet(self.before, self.opcode)
    }

    pub open spec fn packet(self) -> Seq<u8> {
        packet_due(self.before, self.opcode, self.payload, self.unix)
    }

    pub open spec fn packet_id(self) -> Option<u32> {
        id_due(self.before, self.opcode)
    }
}

/// Whether two states number packets alike.
pub open spec fn numbers_alike(a: ControlState, b: ControlState) -> bool {
    a.next_packet_id == b.next_packet_id && a.key_id == b.key_id && a.session_id == b.session_id
}

/// Whether packets are built one after another, with nothing in between but what
/// leaves the numbering alone.
pub open spec fn builds(st: ControlState, run: Seq<Building>) -> bool
    decreases run.len(),
{
    run.len() == 0 || (builds(st, run.drop_last()) && numbers_alike(
        run.last().before,
        if run.len() == 1 {
            st
        } else {
            run[run.len() - 2].after()
        },
    ))
}

/// How many packets of a run take a number.
pub open spec fn numbered_packets(run: Seq<Building>) -> nat
    decreases run.len(),
{
    if run.len() == 0 {
        0
    } else if run.last().opcode == P_ACK_V1 {
        numbered_packets(run.drop_last())
    } else {
        numbered_packets(run.drop_last()) + 1
    }
}

/// Packets are numbered zero, one, two and so on from a fresh start or a rekey,
/// with no gap: an acknowledgement takes no number and uses none up. Under every
/// wrapping a packet begins with its opcode, its key and the session.
pub proof fn packets_are_numbered_without_a_gap(st: ControlState, run: Seq<Building>, i: int)
    requires
        st.next_packet_id == 0,
        st.session_id.len() == 8,
        builds(st, run),
        0 <= i < run.len(),
        numbered_packets(run.take(i)) < u32::MAX,
    ensures
        run[i].packet_id() == if run[i].opcode == P_ACK_V1 {
            None
        } else {
            Some(numbered_packets(run.take(i)) as u32)
        },
        run[i].packet().len() >= 9,
        run[i].packet()[0] == (run[i].opcode << 3) | st.key_id,
        run[i].packet().subrange(1, 9) == st.session_id,
{
    lemma_numbering(st, run, i);
    let one = run[i];
    assert(one.packet().subrange(1, 9) =~= st.session_id);
}

proof fn lemma_numbering(st: ControlState, run: Seq<Building>, i: int)
    requires
        st.next_packet_id == 0,
        builds(st, run),
        0 <= i < run.len(),
        numbered_packets(run.take(i)) < u32::MAX,
    ensures
        run[i].before.next_packet_id == numbered_packets(run.take(i)),
        run[i].before.key_id == st.key_id,
        run[i].before.session_id == st.session_id,
    decreases run.len(),
{
    if i < run.len() - 1 {
        assert(run.drop_last().take(i) =~= run.take(i));
        assert(run.drop_last()[i] == run[i]);
        lemma_numbering(st, run.drop_last(), i);
    } else if i > 0 {
        let earlier = run.drop_last();
        assert(run.take(i) =~= earlier);
        assert(earlier.take(i - 1) =~= earlier.drop_last());
        lemma_numbering(st, earlier, i - 1);
        assert(earlier[i - 1] == run[run.len() - 2]);
        assert(earlier.last() == earlier[i - 1]);
    } else {
        assert(run.take(0) =~= Seq::<Building>::empty());
    }
}

/// What comes in, and what is resent or handed to the link, leaves the numbering
/// alone: a rekey starts it over.
pub proof fn hearing_does_not_disturb_the_numbering(
    heard: Hearing,
    now: u64,
    outgoing: Seq<Seq<u8>>,
)
    ensures
        numbers_alike(heard.after(), heard.before),
        numbers_alike(stale_resent(heard.before, now), heard.before),
        numbers_alike((ControlState { outgoing, ..heard.before }), heard.before),
{
}

/// Whether some arrival has this number.
spec fn numbered(arrivals: Seq<Arrival>, id: u32) -> bool {
    exists|i: int| 0 <= i < arrivals.len() && (#[trigger] arrivals[i]).packet_id == id
}

proof fn lemma_read_all(start: u32, chunks: Seq<Seq<u8>>, arrivals: Seq<Arrival>)
    requires
        start + chunks.len() <= u32::MAX,
        forall|i: int|
            0 <= i < arrivals.len() ==> start <= (#[trigger] arrivals[i]).packet_id < start
                + chunks.len() && arrivals[i].payload == chunks[arrivals[i].packet_id - start],
    ensures
        start <= read_all(start, arrivals).expected <= start + chunks.len(),
        read_all(start, arrivals).delivered == bytes::joined(
            chunks.take(read_all(start, arrivals).expected - start),
        ),
        read_all(start, arrivals).held.dom().finite(),
        holds_chunks(read_all(start, arrivals).held, start, chunks),
        !read_all(start, arrivals).held.contains_key(read_all(start, arrivals).expected),
        forall|i: int|
            0 <= i < arrivals.len() ==> (#[trigger] arrivals[i]).packet_id < read_all(
                start,
                arrivals,
            ).expected || read_all(start, arrivals).held.contains_key(arrivals[i].packet_id),
        forall|id: u32| #[trigger]
            read_all(start, arrivals).held.contains_key(id) ==> numbered(arrivals, id),
        forall|id: u32|
            start <= id < read_all(start, arrivals).expected ==> #[trigger] numbered(arrivals, id),
    decreases arrivals.len(),
{
    let reader = read_all(start, arrivals);
    if arrivals.len() == 0 {
        assert(chunks.take(0) =~= Seq::<Seq<u8>>::empty());
    } else {
        let earlier = arrivals.drop_last();
        assert forall|i: int| 0 <= i < earlier.len() implies start <= (
        #[trigger] earlier[i]).packet_id < start + chunks.len() && earlier[i].payload
            == chunks[earlier[i].packet_id - start] by {
            assert(earlier[i] == arrivals[i]);
        }
        lemma_read_all(start, chunks, earlier);
        let before = read_all(start, earlier);
        let last = arrivals.last();
        assert(last == arrivals[arrivals.len() - 1]);
        let held = before.held.insert(last.packet_id, last.payload);
        assert(held.dom() =~= before.held.dom().insert(last.packet_id));
        lemma_drain(held, start, chunks, before.expected - start);
        assert forall|i: int| 0 <= i < arrivals.len() implies (#[trigger] arrivals[i]).packet_id
            < reader.expected || reader.held.contains_key(arrivals[i].packet_id) by {
            if i < earlier.len() {
                assert(earlier[i] == arrivals[i]);
            }
            let id = arrivals[i].packet_id;
            if id >= before.expected {
                assert(held.contains_key(id));
            }
        }
        assert forall|id: u32| #[trigger] held.contains_key(id) implies numbered(arrivals, id) by {
            if id == last.packet_id {
                assert(arrivals[arrivals.len() - 1].packet_id == id);
            } else {
                assert(before.held.contains_key(id));
                lemma_still_numbered(arrivals, id);
            }
        }
        assert forall|id: u32| start <= id < reader.expected implies #[trigger] numbered(
            arrivals,
            id,
        ) by {
            if id < before.expected {
                assert(numbered(earlier, id));
                lemma_still_numbered(arrivals, id);
            } else {
                assert(held.contains_key(id));
            }
        }
    }
}

proof fn lemma_still_numbered(arrivals: Seq<Arrival>, id: u32)
    requires
        arrivals.len() > 0,
        numbered(arrivals.drop_last(), id),
    ensures
        numbered(arrivals, id),
{
    let earlier = arrivals.drop_last();
    let i = choose|i: int| 0 <= i < earlier.len() && (#[trigger] earlier[i]).packet_id == id;
    assert(arrivals[i].packet_id == id);
}

/// Which bytes of a static key protect which direction. With `tls-crypt` this end
/// sends with the second of the two keys and receives with the first. With
/// `tls-auth` it sends with the second where the direction is inverse, and with
/// the first otherwise; only with a direction do the two differ.
pub proof fn each_direction_has_its_half(key: Box<StaticKey>, digest: Digest)
    ensures
        WrapKeys::configured(ControlAuth::TlsCrypt { key }) == (WrapKeys::TlsCrypt {
            send_cipher: key.0@.subrange(128, 160),
            send_hmac: key.0@.subrange(192, 224),
            receive_cipher: key.0@.subrange(0, 32),
            receive_hmac: key.0@.subrange(64, 96),
        }),
        ({
            let n = match digest {
                Digest::Sha1 => 20int,
                Digest::Sha256 => 32int,
                Digest::Sha512 => 64int,
            };
            let first = key.0@.subrange(64, 64 + n);
            let second = key.0@.subrange(192, 192 + n);
            &&& WrapKeys::configured(
                ControlAuth::TlsAuth { key, direction: KeyDirection::Inverse, digest },
            ) == (WrapKeys::TlsAuth { send: second, receive: first, digest })
            &&& WrapKeys::configured(
                ControlAuth::TlsAuth { key, direction: KeyDirection::Normal, digest },
            ) == (WrapKeys::TlsAuth { send: first, receive: second, digest })
            &&& WrapKeys::configured(
                ControlAuth::TlsAuth { key, direction: KeyDirection::Bidirectional, digest },
            ) == (WrapKeys::TlsAuth { send: first, receive: first, digest })
        }),
        WrapKeys::configured(ControlAuth::Plain) == WrapKeys::Plain,
{
    let whole = key.0@;
    assert(key.cipher_half(1).take(32) =~= whole.subrange(128, 160));
    assert(key.hmac_half(1).take(32) =~= whole.subrange(192, 224));
    assert(key.cipher_half(0).take(32) =~= whole.subrange(0, 32));
    assert(key.hmac_half(0).take(32) =~= whole.subrange(64, 96));
    let n = digest.size() as int;
    assert(key.hmac_half(0).take(n) =~= whole.subrange(64, 64 + n));
    assert(key.hmac_half(1).take(n) =~= whole.subrange(192, 192 + n));
}

proof fn lemma_id_at(ids: Seq<u32>, k: int)
    requires
        0 <= k < ids.len(),
    ensures
        id_list(ids).len() == 4 * ids.len(),
        id_list(ids).subrange(4 * k, 4 * k + 4) == bytes::be_bytes(ids[k] as nat, 4),
    decreases ids.len(),
{
    let less = ids.drop_last();
    lemma_id_list_len(ids);
    lemma_id_list_len(less);
    bytes::lemma_be_bytes_len(ids.last() as nat, 4);
    if k < less.len() {
        lemma_id_at(less, k);
        assert(id_list(ids).subrange(4 * k, 4 * k + 4) =~= id_list(less).subrange(
            4 * k,
            4 * k + 4,
        ));
        assert(less[k] == ids[k]);
    } else {
        assert(id_list(ids).subrange(4 * k, 4 * k + 4) =~= bytes::be_bytes(ids[k] as nat, 4));
    }
}

/// How a control body lies on the wire: how many packets are acknowledged, their
/// numbers, the peer's session id where there are any, the packet's own number
/// where it has one, and the payload. Each number has its high byte first.
pub proof fn a_body_is_laid_out(
    acks: Seq<u32>,
    remote_session_id: Seq<u8>,
    packet_id: u32,
    payload: Seq<u8>,
    k: int,
)
    requires
        acks.len() <= 8,
        remote_session_id.len() == 8,
        0 <= k < acks.len(),
    ensures
        ({
            let body = control_body(acks, remote_session_id, Some(packet_id), payload);
            let n = acks.len() as int;
            &&& body[0] == n
            &&& bytes::be_value(body.subrange(1 + 4 * k, 5 + 4 * k)) == acks[k]
            &&& body.subrange(1 + 4 * n, 9 + 4 * n) == remote_session_id
            &&& bytes::be_value(body.subrange(9 + 4 * n, 13 + 4 * n)) == packet_id
            &&& body.skip(13 + 4 * n) == payload
        }),
        ({
            let body = control_body(Seq::<u32>::empty(), remote_session_id, Some(packet_id), payload);
            &&& body[0] == 0
            &&& bytes::be_value(body.subrange(1, 5)) == packet_id
            &&& body.skip(5) == payload
        }),
        control_body(acks, remote_session_id, None, Seq::<u8>::empty()).len() == 9 + 4 * acks.len(),
{
    lemma_id_list_len(acks);
    lemma_id_at(acks, k);
    bytes::lemma_byte_ranges();
    bytes::lemma_be_bytes_len(packet_id as nat, 4);
    bytes::lemma_be_round_trip(packet_id as nat, 4);
    bytes::lemma_be_round_trip(acks[k] as nat, 4);
    let n = acks.len() as int;
    let list = id_list(acks);
    let id = bytes::be_bytes(packet_id as nat, 4);
    let body = control_body(acks, remote_session_id, Some(packet_id), payload);
    assert(body =~= seq![n as u8] + list + remote_session_id + id + payload);
    assert(body.subrange(1 + 4 * k, 5 + 4 * k) =~= list.subrange(4 * k, 4 * k + 4));
    assert(body.subrange(1 + 4 * n, 9 + 4 * n) =~= remote_session_id);
    assert(body.subrange(9 + 4 * n, 13 + 4 * n) =~= id);
    assert(body.skip(13 + 4 * n) =~= payload);
    let none = Seq::<u32>::empty();
    let bare = control_body(none, remote_session_id, Some(packet_id), payload);
    assert(id_list(none) =~= Seq::<u8>::empty());
    assert(bare =~= seq![0u8] + id + payload);
    assert(bare.subrange(1, 5) =~= id);
    assert(bare.skip(5) =~= payload);
}

proof fn lemma_opcode_and_key(opcode: u8, key_id: u8)
    by (bit_vector)
    requires
        opcode < 32,
        key_id < 8,
    ensures
        (opcode << 3) | key_id == (opcode * 8 + key_id) as u8,
{
}

/// How a control packet lies on the wire: its opcode and key generation in one
/// byte, the sender's session id, and then what the protection adds around the
/// body. With `tls-auth` that is a code over everything else; with `tls-crypt`
/// the body is enciphered as well.
pub proof fn a_control_packet_is_laid_out(
    opcode: u8,
    key_id: u8,
    send: Seq<u8>,
    cipher: Seq<u8>,
    session_id: Seq<u8>,
    replay: Seq<u8>,
    body: Seq<u8>,
)
    requires
        opcode < 32,
        key_id < 8,
        session_id.len() == 8,
        replay.len() == 8,
    ensures
        ({
            let first = (opcode << 3) | key_id;
            let plain = control_packet(WrapKeys::Plain, first, session_id, replay, body);
            &&& plain[0] == 8 * opcode + key_id
            &&& plain.subrange(1, 9) == session_id
            &&& plain.skip(9) == body
        }),
        ({
            let first = (opcode << 3) | key_id;
            let keys = WrapKeys::TlsAuth { send, receive: cipher, digest: Digest::Sha1 };
            let signed = control_packet(keys, first, session_id, replay, body);
            &&& signed[0] == 8 * opcode + key_id
            &&& signed.subrange(1, 9) == session_id
            &&& signed.subrange(9, 29) == crypto::hmac_sha1(
                send,
                replay + seq![first] + session_id + body,
            )@
            &&& signed.subrange(29, 37) == replay
            &&& signed.skip(37) == body
        }),
        ({
            let first = (opcode << 3) | key_id;
            let keys = WrapKeys::TlsCrypt {
                send_cipher: cipher,
                send_hmac: send,
                receive_cipher: send,
                receive_hmac: cipher,
            };
            let hidden = control_packet(keys, first, session_id, replay, body);
            let tag = crypto::hmac_sha256(send, hidden.take(17) + body)@;
            &&& hidden.len() == 49 + body.len()
            &&& hidden[0] == 8 * opcode + key_id
            &&& hidden.subrange(1, 9) == session_id
            &&& hidden.subrange(9, 17) == replay
            &&& hidden.subrange(17, 49) == tag
            &&& forall|i: int|
                0 <= i < body.len() ==> #[trigger] hidden[49 + i] == body[i]
                    ^ crypto::aes256_ctr_keystream(cipher, tag.take(16), i)
        }),
{
    lemma_opcode_and_key(opcode, key_id);
    let first = (opcode << 3) | key_id;
    let plain = control_packet(WrapKeys::Plain, first, session_id, replay, body);
    assert(plain.subrange(1, 9) =~= session_id);
    assert(plain.skip(9) =~= body);
    let keys = WrapKeys::TlsAuth { send, receive: cipher, digest: Digest::Sha1 };
    let signed = control_packet(keys, first, session_id, replay, body);
    let mac = crypto::hmac_sha1(send, replay + seq![first] + session_id + body)@;
    assert(signed.subrange(1, 9) =~= session_id);
    assert(signed.subrange(9, 29) =~= mac);
    assert(signed.subrange(29, 37) =~= replay);
    assert(signed.skip(37) =~= body);
    let crypt = WrapKeys::TlsCrypt {
        send_cipher: cipher,
        send_hmac: send,
        receive_cipher: send,
        receive_hmac: cipher,
    };
    let hidden = control_packet(crypt, first, session_id, replay, body);
    let header = seq![first] + session_id + replay;
    assert(hidden.take(17) =~= header);
    let tag = crypto::hmac_sha256(send, header + body)@;
    assert(hidden.subrange(1, 9) =~= session_id);
    assert(hidden.subrange(9, 17) =~= replay);
    assert(hidden.subrange(17, 49) =~= tag);
    let covered = crypto::ctr_applied(cipher, tag.take(16), body);
    assert forall|i: int| 0 <= i < body.len() implies #[trigger] hidden[49 + i] == body[i]
        ^ crypto::aes256_ctr_keystream(cipher, tag.take(16), i) by {
        assert(hidden[49 + i] == covered[i]);
    }
}

/// The pieces of some data, laid end to end.
pub open spec fn joined(pieces: Seq<Seq<u8>>) -> Seq<u8>
    decreases pieces.len(),
{
    if pieces.len() == 0 {
        Seq::<u8>::empty()
    } else {
        pieces[0] + joined(pieces.skip(1))
    }
}

/// The state once each of these has been sent as a control packet of its own.
pub open spec fn each_sent(st: ControlState, pieces: Seq<Seq<u8>>, now: Clock) -> ControlState
    decreases pieces.len(),
{
    if pieces.len() == 0 {
        st
    } else {
        each_sent(sent(st, 4, pieces[0], now), pieces.skip(1), now)
    }
}

/// What TLS hands over is sent in order, in pieces of no more than a thousand
/// bytes of which none is empty, and nothing is lost between them.
pub proof fn tls_data_is_sent_in_pieces(st: ControlState, data: Seq<u8>, now: Clock) -> (pieces:
    Seq<Seq<u8>>)
    ensures
        joined(pieces) == data,
        forall|i: int|
            0 <= i < pieces.len() ==> 0 < (#[trigger] pieces[i]).len() && pieces[i].len() <= 1000,
        sent_tls(st, data, now) == each_sent(st, pieces, now),
    decreases data.len(),
{
    if data.len() == 0 {
        let pieces = Seq::<Seq<u8>>::empty();
        assert(joined(pieces) =~= data);
        pieces
    } else if data.len() <= 1000 {
        let pieces = seq![data];
        assert(pieces.skip(1) =~= Seq::<Seq<u8>>::empty());
        assert(joined(pieces.skip(1)) =~= Seq::<u8>::empty());
        assert(joined(pieces) =~= data);
        assert(each_sent(sent(st, 4, data, now), pieces.skip(1), now) == sent(st, 4, data, now));
        pieces
    } else {
        let first = data.take(1000);
        let rest = tls_data_is_sent_in_pieces(sent(st, 4, first, now), data.skip(1000), now);
        let pieces = seq![first] + rest;
        assert(pieces.skip(1) =~= rest);
        assert(joined(pieces) =~= data);
        assert forall|i: int| 0 <= i < pieces.len() implies 0 < (#[trigger] pieces[i]).len()
            && pieces[i].len() <= 1000 by {
            if i > 0 {
                assert(pieces[i] == rest[i - 1]);
            }
        }
        pieces
    }
}

/// A packet that has been out for 1.2 seconds without an acknowledgement goes out
/// again as it was, and then waits as long again; one that has not stays as it
/// is.
pub proof fn an_unanswered_packet_goes_out_again(st: ControlState, p: Outstanding, now: u64)
    requires
        st.unacknowledged == seq![p],
        p.sent_at <= now,
    ensures
        ({
            let next = stale_resent(st, now);
            &&& now - p.sent_at >= 1_200_000_000 ==> next.outgoing == st.outgoing.push(p.packet)
                && next.unacknowledged == seq![Outstanding { sent_at: now, ..p }]
            &&& now - p.sent_at < 1_200_000_000 ==> next.outgoing == st.outgoing
                && next.unacknowledged == seq![p]
            &&& next.next_packet_id == st.next_packet_id && next.pending_acks == st.pending_acks
        }),
{
    let next = stale_resent(st, now);
    assert(st.unacknowledged.drop_last() =~= Seq::<Outstanding>::empty());
    assert(stale_packets(st.unacknowledged.drop_last(), now) =~= Seq::<Seq<u8>>::empty());
    if now - p.sent_at >= 1_200_000_000 {
        assert(next.outgoing =~= st.outgoing.push(p.packet));
        assert(next.unacknowledged =~= seq![Outstanding { sent_at: now, ..p }]);
    } else {
        assert(next.outgoing =~= st.outgoing);
        assert(next.unacknowledged =~= seq![p]);
    }
}

/// Packets go out again in the order in which they were first sent.
pub proof fn packets_go_out_again_in_order(list: Seq<Outstanding>, p: Outstanding, now: u64)
    requires
        p.sent_at <= now,
    ensures
        stale_packets(list.push(p), now) == if now - p.sent_at >= 1_200_000_000 {
            stale_packets(list, now).push(p.packet)
        } else {
            stale_packets(list, now)
        },
        stale_packets(Seq::<Outstanding>::empty(), now).len() == 0,
{
    assert(list.push(p).drop_last() =~= list);
}

/// A packet carries the acknowledgements that are owed, the oldest eight of them
/// at most, and none before the peer's session is known; they are then no longer
/// owed.
pub proof fn acknowledgements_ride_along(st: ControlState, opcode: u8)
    ensures
        ({
            let n = acks_due(st);
            &&& st.remote_session_id is None ==> n == 0
            &&& st.remote_session_id is Some && st.pending_acks.len() <= 8 ==> n
                == st.pending_acks.len()
            &&& st.remote_session_id is Some && st.pending_acks.len() > 8 ==> n == 8
            &&& after_packet(st, opcode).pending_acks == st.pending_acks.skip(n)
        }),
        opcode != 5 && st.next_packet_id < u32::MAX ==> after_packet(st, opcode).next_packet_id
            == st.next_packet_id + 1,
        opcode == 5 ==> after_packet(st, opcode).next_packet_id == st.next_packet_id,
        st.keys is Plain ==> after_packet(st, opcode).next_replay_id == st.next_replay_id,
        !(st.keys is Plain) && st.next_replay_id < u32::MAX ==> after_packet(
            st,
            opcode,
        ).next_replay_id == st.next_replay_id + 1,
{
}

/// Every numbered packet that arrives is acknowledged at once, whether it is new
/// or not, and the peer understands the acknowledgement.
pub proof fn every_packet_is_acknowledged(
    st: ControlState,
    peer: ControlState,
    opcode: u8,
    key_id: u8,
    sender: Seq<u8>,
    body: BodyModel,
    unix: u32,
    p: Outstanding,
)
    requires
        body.packet_id == Some(p.packet_id),
        st.pending_acks.len() == 0,
        st.session_id.len() == 8,
        sender.len() == 8,
        st.remote_session_id matches Some(id) ==> id.len() == 8,
        st.key_id < 8,
        peer.key_id == st.key_id,
        peer.keys == st.keys.mirrored(),
        peer.unacknowledged == seq![p],
        opcode < 32,
    ensures
        ({
            let (next, _) = absorbed(st, opcode, key_id, sender, body, unix);
            &&& next.pending_acks.len() == 0
            &&& next.outgoing.len() == st.outgoing.len() + 1
            &&& received(peer, next.outgoing.last(), unix) matches Ok((heard, meaning))
            &&& heard.unacknowledged.len() == 0
            &&& meaning is Nothing
        }),
{
    let owing = ControlState {
        remote_session_id: match st.remote_session_id {
            Some(id) => Some(id),
            None => Some(sender),
        },
        unacknowledged: still_outstanding(st.unacknowledged, body.acks),
        pending_acks: st.pending_acks.push(p.packet_id),
        ..st
    };
    let expecting = ControlState {
        expected_packet_id: if p.packet_id == owing.expected_packet_id {
            following(p.packet_id)
        } else {
            owing.expected_packet_id
        },
        ..owing
    };
    let none = Seq::<u8>::empty();
    a_packet_is_understood_by_the_peer(owing, peer, P_ACK_V1, none, unix, unix);
    a_packet_is_understood_by_the_peer(expecting, peer, P_ACK_V1, none, unix, unix);
    let acks = owing.pending_acks.take(1);
    assert(acks[0] == p.packet_id);
    assert(acks.contains(p.packet_id));
    let left = still_outstanding(peer.unacknowledged, acks);
    lemma_all_settled(p, acks);
    assert(owing.pending_acks.skip(1).len() == 0);
    let (next, _) = absorbed(st, opcode, key_id, sender, body, unix);
    assert(acks_due(owing) == 1 && acks_due(expecting) == 1);
    if opcode == P_CONTROL_HARD_RESET_SERVER_V2 || opcode == P_CONTROL_SOFT_RESET_V1 {
        assert(next.outgoing.last() == packet_due(expecting, P_ACK_V1, none, unix));
    } else {
        assert(next.outgoing.last() == packet_due(owing, P_ACK_V1, none, unix));
    }
}

proof fn lemma_all_settled(p: Outstanding, acks: Seq<u32>)
    requires
        acks.contains(p.packet_id),
    ensures
        still_outstanding(seq![p], acks).len() == 0,
{
    let open = |q: Outstanding| !acks.contains(q.packet_id);
    reveal(Seq::filter);
    assert(seq![p].drop_last() =~= Seq::<Outstanding>::empty());
    assert(seq![p].drop_last().filter(open) =~= Seq::<Outstanding>::empty());
    assert(seq![p].filter(open) =~= Seq::<Outstanding>::empty());
}

/// The next packet for the link, and what is left.
pub open spec fn handed_out(st: ControlState) -> (Option<Seq<u8>>, ControlState) {
    if st.outgoing.len() == 0 {
        (None, st)
    } else {
        (Some(st.outgoing[0]), ControlState { outgoing: st.outgoing.skip(1), ..st })
    }
}

/// Packets leave in the order in which they were queued, each once.
pub proof fn packets_leave_in_order(
    st: ControlState,
    next: Seq<u8>,
    rest: Seq<Seq<u8>>,
    opcode: u8,
    payload: Seq<u8>,
    now: Clock,
)
    requires
        st.outgoing == seq![next] + rest,
    ensures
        handed_out(st).0 == Some(next),
        handed_out(st).1.outgoing == rest,
        handed_out(sent(st, opcode, payload, now)).0 == Some(next),
        sent(st, opcode, payload, now).outgoing.drop_last() == st.outgoing,
        handed_out(ControlState { outgoing: Seq::<Seq<u8>>::empty(), ..st }).0 is None,
{
    assert(st.outgoing.skip(1) =~= rest);
    assert(sent(st, opcode, payload, now).outgoing.drop_last() =~= st.outgoing);
}

/// What a control packet can and cannot change. One of another key generation
/// than the one being negotiated changes nothing unless it asks for a new one;
/// the peer's session is taken from the first packet and kept; and a packet that
/// does not belong is refused without a trace.
pub proof fn a_session_keeps_its_peer(
    st: ControlState,
    packet: Seq<u8>,
    unix: u32,
    opcode: u8,
    key_id: u8,
    sender: Seq<u8>,
    body: BodyModel,
)
    ensures
        packet.len() < 9 ==> received(st, packet, unix) is Err,
        packet.len() >= 9 && packet[0] & 7 != st.key_id && packet[0] >> 3 != 3 ==> received(
            st,
            packet,
            unix,
        ) == Ok::<(ControlState, Meaning), Seq<char>>((st, Meaning::Nothing)),
        ({
            let (next, _) = absorbed(st, opcode, key_id, sender, body, unix);
            &&& st.remote_session_id matches Some(id) ==> next.remote_session_id == Some(id)
            &&& st.remote_session_id is None ==> next.remote_session_id == Some(sender)
            &&& next.session_id == st.session_id && next.keys == st.keys
            &&& next.key_id == st.key_id
        }),
        ({
            let (next, meaning) = absorbed(st, opcode, key_id, sender, body, unix);
            &&& body.packet_id is Some && opcode == 8 ==> meaning is ServerReset
            &&& body.packet_id is Some && opcode == 3 ==> meaning == (Meaning::SoftReset { key_id })
            &&& body.packet_id is None ==> meaning is Nothing && next.outgoing == st.outgoing
        }),
{
}

} // verus!
