//! What a running session is made of: the status of each path that the user
//! interface reads, the overlay that captured packets are wrapped in, and the
//! ingress that admits the first authenticated copy of an inbound packet.

use std::collections::VecDeque;
use vstd::prelude::*;

use crate::auth::SessionCrypto;
use crate::bytes;
use crate::protocol;
use crate::protocol::{FrameHeader, FLAG_CONTROL, FLAG_SERVER_TO_CLIENT};
use crate::replay;
use crate::replay::ReplayWindow;
use crate::text;

verus! {

pub const RECEIVERS_STOPPED: &'static str = "all path receivers stopped";

/// What is known of one path of a session.
#[derive(Debug, Clone)]
pub struct PathSessionStatus {
    pub route: usize,
    pub path_kind: String,
    pub label: String,
    pub endpoint: String,
    pub reachable: bool,
    /// The last round trip, in nanoseconds.
    pub latency: Option<u64>,
    /// One-time cost of establishing this path's transport, in nanoseconds. Not
    /// a hop latency: see `handshake_round_trips`.
    pub handshake: Option<u64>,
    /// Round trips inside `handshake`, when the protocol has a fixed number.
    /// `None` means no hop estimate can be derived from it.
    pub handshake_round_trips: Option<u8>,
    pub packets_sent: u64,
    pub packets_received: u64,
    pub bytes_sent: u64,
    pub bytes_received: u64,
    pub probes_sent: u64,
    pub probes_received: u64,
    pub probes_lost: u64,
    pub last_error: Option<String>,
}

/// What a status says.
#[verifier::ext_equal]
pub struct StatusModel {
    pub route: usize,
    pub path_kind: Seq<char>,
    pub label: Seq<char>,
    pub endpoint: Seq<char>,
    pub reachable: bool,
    pub latency: Option<u64>,
    pub handshake: Option<u64>,
    pub handshake_round_trips: Option<u8>,
    pub packets_sent: u64,
    pub packets_received: u64,
    pub bytes_sent: u64,
    pub bytes_received: u64,
    pub probes_sent: u64,
    pub probes_received: u64,
    pub probes_lost: u64,
    pub last_error: Option<Seq<char>>,
}

impl View for PathSessionStatus {
    type V = StatusModel;

    open spec fn view(&self) -> StatusModel {
        StatusModel {
            route: self.route,
            path_kind: self.path_kind@,
            label: self.label@,
            endpoint: self.endpoint@,
            reachable: self.reachable,
            latency: self.latency,
            handshake: self.handshake,
            handshake_round_trips: self.handshake_round_trips,
            packets_sent: self.packets_sent,
            packets_received: self.packets_received,
            bytes_sent: self.bytes_sent,
            bytes_received: self.bytes_received,
            probes_sent: self.probes_sent,
            probes_received: self.probes_received,
            probes_lost: self.probes_lost,
            last_error: text::option_view(self.last_error),
        }
    }
}

/// The status of a path that nothing has happened on.
pub open spec fn untouched(
    route: usize,
    path_kind: Seq<char>,
    label: Seq<char>,
    endpoint: Seq<char>,
) -> StatusModel {
    StatusModel {
        route,
        path_kind,
        label,
        endpoint,
        reachable: false,
        latency: None,
        handshake: None,
        handshake_round_trips: None,
        packets_sent: 0,
        packets_received: 0,
        bytes_sent: 0,
        bytes_received: 0,
        probes_sent: 0,
        probes_received: 0,
        probes_lost: 0,
        last_error: None,
    }
}

pub fn initial_status(route: usize, path_kind: &str, label: String, endpoint: String) -> (r:
    PathSessionStatus)
    ensures
        r@ == untouched(route, path_kind@, label@, endpoint@),
{
    PathSessionStatus {
        route,
        path_kind: path_kind.to_owned(),
        label,
        endpoint,
        reachable: false,
        latency: None,
        handshake: None,
        handshake_round_trips: None,
        packets_sent: 0,
        packets_received: 0,
        bytes_sent: 0,
        bytes_received: 0,
        probes_sent: 0,
        probes_received: 0,
        probes_lost: 0,
        last_error: None,
    }
}

/// A route that is configured and enabled but is not part of the session.
#[derive(Debug, Clone)]
pub struct SkippedRoute {
    pub route: usize,
    pub label: String,
    pub reason: String,
}

/// What a session wraps captured packets in before a path carries them.
pub enum SessionOverlay {
    /// Relay sessions seal every packet under the enrollment key, so the relay
    /// can authenticate it and so a duplicate arriving by another path can be
    /// recognised as the same packet.
    Relay { client_id: [u8; 16], crypto: SessionCrypto },
    /// A direct session's node is the last hop and speaks plain IPv4. There is
    /// no relay to authenticate to and no duplicate to recognise, so packets
    /// travel exactly as they were captured -- inside the node's own crypto.
    Direct,
}

/// Whether a header has a flag.
pub open spec fn flagged(flags: u8, flag: u8) -> bool {
    flags & flag != 0
}

/// Shared by the path workers: admits the first authenticated copy before it
/// enters the bounded receive queue. No waiting for slower paths or ordering
/// barrier, and no dependency on the outbound scheduler's current choice.
pub struct RelayIngress {
    pub client_id: [u8; 16],
    pub session_id: u64,
    pub server_replay: ReplayWindow,
}

/// Whether a frame is traffic from the relay to this client in this session.
pub open spec fn is_inbound(
    header: protocol::HeaderModel,
    client_id: Seq<u8>,
    session_id: u64,
) -> bool {
    &&& header.client_id == client_id
    &&& header.session_id == session_id
    &&& flagged(header.flags, FLAG_SERVER_TO_CLIENT)
    &&& !flagged(header.flags, FLAG_CONTROL)
}

impl RelayIngress {
    pub open spec fn wf(&self) -> bool {
        self.server_replay.wf()
    }

    /// Whether a frame is wanted: it is inbound, and no copy of it was admitted.
    pub open spec fn wants(&self, header: protocol::HeaderModel) -> bool {
        is_inbound(header, self.client_id@, self.session_id) && self.server_replay.accepts(
            header.sequence,
        )
    }

    /// The ingress of a session.
    pub fn new(client_id: [u8; 16], session_id: u64) -> (r: Self)
        ensures
            r.wf(),
            r.client_id == client_id,
            r.session_id == session_id,
            !r.server_replay.started(),
            forall|x: u64| !r.server_replay.holds(x),
    {
        RelayIngress { client_id, session_id, server_replay: ReplayWindow::default() }
    }

    /// Admits a packet, unless it is not wanted. `header` and `plaintext` come
    /// from a frame that opened. A packet that finds the queue full comes back.
    ///
    /// A full queue does not consume the sequence: a backup arriving after space
    /// is available can still rescue this packet.
    pub fn enqueue_authenticated(
        &mut self,
        header: &FrameHeader,
        plaintext: Vec<u8>,
        inbound: &mut VecDeque<Vec<u8>>,
        capacity: usize,
    ) -> (r: Result<bool, Vec<u8>>)
        requires
            old(self).wf(),
        ensures
            final(self).wf(),
            final(self).client_id == old(self).client_id,
            final(self).session_id == old(self).session_id,
            !old(self).wants(header.model()) ==> r == Ok::<bool, Vec<u8>>(false),
            old(self).wants(header.model()) ==> (if old(inbound)@.len() < capacity {
                r == Ok::<bool, Vec<u8>>(true)
            } else {
                r == Err::<bool, Vec<u8>>(plaintext)
            }),
            match r {
                Ok(true) => {
                    &&& old(self).server_replay.offered(
                        header.sequence,
                        &final(self).server_replay,
                    )
                    &&& final(inbound)@ == old(inbound)@.push(plaintext)
                },
                _ => {
                    &&& final(self).server_replay == old(self).server_replay
                    &&& final(inbound)@ == old(inbound)@
                },
            },
    {
        if !bytes::constant_time_eq(header.client_id.as_slice(), self.client_id.as_slice())
            || header.session_id != self.session_id || header.flags & FLAG_SERVER_TO_CLIENT == 0
            || header.flags & FLAG_CONTROL != 0 {
            return Ok(false);
        }
        if !self.server_replay.would_accept(header.sequence) {
            return Ok(false);
        }
        if inbound.len() >= capacity {
            return Err(plaintext);
        }
        inbound.push_back(plaintext);
        self.server_replay.accept(header.sequence);
        Ok(true)
    }
}

/// Each packet is delivered once, whatever copies of it arrive and in whatever
/// order: once one was admitted, none with the same sequence is wanted.
pub proof fn a_packet_is_delivered_once(
    windows: Seq<ReplayWindow>,
    sequences: Seq<u64>,
    i: int,
    j: int,
    later: RelayIngress,
    header: protocol::HeaderModel,
)
    requires
        replay::window_run(windows, sequences),
        0 <= i < j < sequences.len(),
        windows[i].accepts(sequences[i]),
        sequences[i] == sequences[j],
        later.server_replay == windows[j],
        header.sequence == sequences[j],
    ensures
        !later.wants(header),
{
    replay::a_sequence_is_accepted_at_most_once(windows, sequences, i, j);
}

/// What became of waiting for a packet.
pub enum Arrival {
    Packet(Vec<u8>),
    Timeout,
    Disconnected,
}

/// Hands inbound packets to the capture layer. Workers authenticate and
/// deduplicate relay traffic before admission; direct workers likewise provide
/// validated inner packets.
#[derive(Debug, Clone, Copy, PartialEq, Eq, Structural)]
pub struct DataReceiver {
    pub user_bytes_received: u64,
}

impl DataReceiver {
    /// A packet, nothing before the timeout, or the end of all receivers.
    pub fn receive(&mut self, arrival: Arrival) -> (r: Result<Option<Vec<u8>>, String>)
        ensures
            match arrival {
                Arrival::Packet(packet) => r == Ok::<Option<Vec<u8>>, String>(Some(packet))
                    && final(self).user_bytes_received == (old(self).user_bytes_received
                    + packet@.len()) % 0x1_0000_0000_0000_0000,
                Arrival::Timeout => r == Ok::<Option<Vec<u8>>, String>(None) && *final(self)
                    == *old(self),
                Arrival::Disconnected => r matches Err(message) && message@ == RECEIVERS_STOPPED@
                    && *final(self) == *old(self),
            },
    {
        match arrival {
            Arrival::Packet(packet) => {
                self.user_bytes_received = self.user_bytes_received.wrapping_add(
                    packet.len() as u64,
                );
                Ok(Some(packet))
            },
            Arrival::Timeout => Ok(None),
            Arrival::Disconnected => Err(RECEIVERS_STOPPED.to_owned()),
        }
    }
}

proof fn lemma_flag_bits(flags: u8)
    by (bit_vector)
    ensures
        (flags & 2 != 0) == (flags / 2 % 2 == 1),
        (flags & 1 != 0) == (flags % 2 == 1),
{
}

/// What is delivered came from the server, for this client and this session, and
/// is no control message.
pub proof fn only_the_server_s_packets_are_delivered(
    ingress: RelayIngress,
    header: protocol::HeaderModel,
)
    ensures
        ingress.wants(header) <==> header.client_id == ingress.client_id@ && header.session_id
            == ingress.session_id && header.flags / 2 % 2 == 1 && header.flags % 2 == 0
            && ingress.server_replay.accepts(header.sequence),
{
    lemma_flag_bits(header.flags);
}

} // verus!
