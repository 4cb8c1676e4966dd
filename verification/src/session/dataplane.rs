//! Sending a packet into a running session and getting one back.
//!
//! The dispatcher lives here: it seals a captured packet under the session
//! overlay, narrows the scheduler's pick to the paths actually carrying
//! traffic, and hands a copy to each of them.

use std::collections::VecDeque;
use vstd::prelude::*;

use crate::auth;
use crate::auth::CLIENT_TO_SERVER_NONCE;
use crate::bits;
use crate::dns;
use crate::dns::ResolverVerdict;
use crate::net::{Endpoint, Ipv4};
use crate::openvpn::config::DataCipher;
use crate::openvpn::crypto;
use crate::packet;
use crate::protocol::{FrameHeader, HeaderModel};
use crate::relay_path::SessionMode;
use crate::session::health;
use crate::session::health::selected_paths;
use crate::session::state::{PathSessionStatus, SessionOverlay};
use crate::session::worker;
use crate::session::worker::{PathCommand, PathCounters};
use crate::BENCHMARK_TARGET;

verus! {

/// How long the resolver probe waits. Short on purpose: it sits on the connect
/// path, and a resolver that needs longer than this to answer one cached-name
/// query is not one to hand a game's name lookups to. Failing it costs the
/// public fallback, never the session.
pub const RESOLVER_PROBE_TIMEOUT: u64 = 1_200_000_000;

/// The port that a resolver answers on.
pub const RESOLVER_PORT: u16 = 53;

pub const NO_PATHS: &'static str = "no active path workers accepted the packet";

pub const NO_REPLY: &'static str = "no path returned the relayed packet before timeout";

pub const UNEXPECTED_PACKET: &'static str = "relay data plane returned an unexpected packet";

/// Whether path `i` is one of the selected.
pub open spec fn is_selected(selected: u64, i: int) -> bool {
    0 <= i < 64 && bits::bit(selected, i as u64)
}

/// A packet as it travels through the session. The relay authenticates it and
/// recognises a duplicate by its sequence; the node of a direct session routes
/// it as it stands, so there is nothing to wrap it in and no sequence for anyone
/// to compare copies by.
pub fn wrap_packet(
    overlay: &SessionOverlay,
    session_id: u64,
    sequences: &mut u64,
    packet: &[u8],
) -> (r: Result<Vec<u8>, String>)
    ensures
        match overlay {
            SessionOverlay::Relay { client_id, crypto } => {
                &&& *final(sequences) == worker::plus(*old(sequences), 1)
                &&& r is Ok <==> crypto::can_seal(DataCipher::ChaCha20Poly1305, packet@.len())
                &&& r matches Ok(frame) ==> frame@ == auth::sealed_frame(
                    crypto.client_key(),
                    CLIENT_TO_SERVER_NONCE,
                    HeaderModel {
                        flags: 0,
                        client_id: client_id@,
                        session_id,
                        sequence: *old(sequences),
                    },
                    packet@,
                )
                &&& r matches Err(message) ==> message@ == "packet encryption failed"@
            },
            SessionOverlay::Direct => {
                &&& *final(sequences) == *old(sequences)
                &&& r matches Ok(frame) && frame@ == packet@
            },
        },
{
    match overlay {
        SessionOverlay::Relay { client_id, crypto } => {
            let sequence: u64 = *sequences;
            *sequences = worker::count_up(sequence, 1);
            let header = FrameHeader { flags: 0, client_id: *client_id, session_id, sequence };
            crypto.seal_client(header, packet)
        },
        SessionOverlay::Direct => {
            let mut frame: Vec<u8> = Vec::new();
            frame.extend_from_slice(packet);
            assert(frame@ =~= packet@);
            Ok(frame)
        },
    }
}

/// How many paths a packet was meant for, and how many took it.
#[derive(Debug, Clone, Copy, PartialEq, Eq, Structural)]
pub struct Dispatched {
    pub selected: usize,
    pub accepted: usize,
}

/// How many of the first `n` paths are selected.
pub open spec fn selected_count(selected: u64, n: int) -> int
    decreases n,
{
    if n <= 0 {
        0
    } else {
        selected_count(selected, n - 1) + if is_selected(selected, n - 1) {
            1int
        } else {
            0int
        }
    }
}

/// Whether a packet reaches the queue of a path: the path is selected and its
/// worker is still running.
pub open spec fn reaches(selected: u64, running: u64, i: int) -> bool {
    is_selected(selected, i) && is_selected(running, i)
}

/// How many of the first `n` paths are reached and have room.
pub open spec fn accepted_count(
    selected: u64,
    running: u64,
    queues: Seq<VecDeque<PathCommand>>,
    capacity: usize,
    n: int,
) -> int
    decreases n,
{
    if n <= 0 {
        0
    } else {
        accepted_count(selected, running, queues, capacity, n - 1) + if reaches(
            selected,
            running,
            n - 1,
        ) && queues[n - 1]@.len() < capacity {
            1int
        } else {
            0int
        }
    }
}

/// A queue once a packet has been offered to it.
pub open spec fn offered_queue(
    before: Seq<PathCommand>,
    after: Seq<PathCommand>,
    reached: bool,
    capacity: usize,
    frame: Seq<u8>,
    now: u64,
) -> bool {
    if reached && before.len() < capacity {
        &&& after.len() == before.len() + 1
        &&& after.drop_last() == before
        &&& after.last().frame@ == frame
        &&& after.last().queued_at == now
    } else {
        after == before
    }
}

/// The counters of a path once a packet has been offered to its queue. A full
/// queue means the path is already behind.
pub open spec fn offered_counters(
    before: PathCounters,
    reached: bool,
    room: bool,
) -> PathCounters {
    if !reached {
        before
    } else if room {
        let depth = worker::plus(before.queue_depth, 1);
        PathCounters {
            queue_depth: depth,
            queue_peak: if depth > before.queue_peak {
                depth
            } else {
                before.queue_peak
            },
            ..before
        }
    } else {
        PathCounters {
            dropped: worker::plus(before.dropped, 1),
            queue_full_dropped: worker::plus(before.queue_full_dropped, 1),
            ..before
        }
    }
}

/// Hands a copy of a frame to every selected path that has room. A path whose
/// worker has ended takes nothing and loses nothing.
pub fn dispatch(
    frame: &[u8],
    selected: u64,
    running: u64,
    queues: &mut Vec<VecDeque<PathCommand>>,
    capacity: usize,
    counters: &mut Vec<PathCounters>,
    now: u64,
) -> (r: Dispatched)
    requires
        old(queues)@.len() == old(counters)@.len(),
    ensures
        final(queues)@.len() == old(queues)@.len(),
        final(counters)@.len() == old(counters)@.len(),
        forall|i: int|
            0 <= i < old(queues)@.len() ==> offered_queue(
                (#[trigger] old(queues)@[i])@,
                final(queues)@[i]@,
                reaches(selected, running, i),
                capacity,
                frame@,
                now,
            ),
        forall|i: int|
            0 <= i < old(counters)@.len() ==> #[trigger] final(counters)@[i] == offered_counters(
                old(counters)@[i],
                reaches(selected, running, i),
                old(queues)@[i]@.len() < capacity,
            ),
        r.selected == selected_count(selected, old(queues)@.len() as int),
        r.accepted == accepted_count(
            selected,
            running,
            old(queues)@,
            capacity,
            old(queues)@.len() as int,
        ),
{
    let ghost before = queues@;
    let ghost counted = counters@;
    let mut taken = Dispatched { selected: 0, accepted: 0 };
    let mut at: usize = 0;
    while at < queues.len()
        invariant
            at <= queues@.len() == before.len(),
            counters@.len() == counted.len() == before.len(),
            taken.accepted <= taken.selected <= at,
            forall|i: int| at <= i < before.len() ==> #[trigger] queues@[i] == before[i],
            forall|i: int| at <= i < before.len() ==> #[trigger] counters@[i] == counted[i],
            forall|i: int|
                0 <= i < at ==> offered_queue(
                    (#[trigger] before[i])@,
                    queues@[i]@,
                    reaches(selected, running, i),
                    capacity,
                    frame@,
                    now,
                ),
            forall|i: int|
                0 <= i < at ==> #[trigger] counters@[i] == offered_counters(
                    counted[i],
                    reaches(selected, running, i),
                    before[i]@.len() < capacity,
                ),
            taken.selected == selected_count(selected, at as int),
            taken.accepted == accepted_count(selected, running, before, capacity, at as int),
        decreases queues@.len() - at,
    {
        if at < 64 && (selected >> (at as u64)) & 1 == 1 {
            assert(is_selected(selected, at as int));
            taken.selected = taken.selected + 1;
        } else {
            assert(!is_selected(selected, at as int));
        }
        if at < 64 && (selected >> (at as u64)) & 1 == 1 && (running >> (at as u64)) & 1 == 1 {
            assert(reaches(selected, running, at as int));
            let mut copy: Vec<u8> = Vec::new();
            copy.extend_from_slice(frame);
            assert(copy@ =~= frame@);
            assert(queues@[at as int] == before[at as int]);
            let mut count: PathCounters = counters[at];
            match worker::try_send(
                &mut queues[at],
                capacity,
                PathCommand { frame: copy, queued_at: now },
            ) {
                Ok(_) => {
                    taken.accepted = taken.accepted + 1;
                    count.queue_depth = worker::count_up(count.queue_depth, 1);
                    if count.queue_depth > count.queue_peak {
                        count.queue_peak = count.queue_depth;
                    }
                    assert(queues@[at as int]@.drop_last() =~= before[at as int]@);
                },
                Err(_) => {
                    count.dropped = worker::count_up(count.dropped, 1);
                    count.queue_full_dropped = worker::count_up(count.queue_full_dropped, 1);
                },
            }
            counters.set(at, count);
        } else {
            assert(!reaches(selected, running, at as int));
        }
        at = at + 1;
    }
    taken
}

/// Sends a packet down the paths that carry traffic, and says whether any took
/// it.
///
/// Where nothing could be chosen at all, split mode reads that as the relay
/// being unavailable and lets the packet take the normal route; that fail-open
/// is only correct there. A packet dropped because every chosen path is
/// saturated must not bypass: half a flow arriving from a different source
/// address breaks it at the server.
pub fn enqueue_data_packet(
    overlay: &SessionOverlay,
    session_id: u64,
    sequences: &mut u64,
    packet: &[u8],
    decision: u64,
    healthy: u64,
    running: u64,
    queues: &mut Vec<VecDeque<PathCommand>>,
    capacity: usize,
    counters: &mut Vec<PathCounters>,
    user_bytes_sent: &mut u64,
    now: u64,
) -> (r: Result<bool, String>)
    requires
        old(queues)@.len() == old(counters)@.len(),
    ensures
        ({
            let selected = health::selection(decision, healthy);
            let paths = old(queues)@.len() as int;
            let sealed = overlay is Direct || crypto::can_seal(
                DataCipher::ChaCha20Poly1305,
                packet@.len(),
            );
            let accepted = accepted_count(selected, running, old(queues)@, capacity, paths);
            &&& *final(sequences) == if overlay is Direct {
                *old(sequences)
            } else {
                worker::plus(*old(sequences), 1)
            }
            &&& !sealed ==> {
                &&& r matches Err(message)
                &&& message@ == "packet encryption failed"@
                &&& final(queues)@ == old(queues)@
                &&& final(counters)@ == old(counters)@
                &&& *final(user_bytes_sent) == *old(user_bytes_sent)
            }
            &&& sealed ==> {
                &&& r is Err <==> selected_count(selected, paths) == 0
                &&& r matches Err(message) ==> message@ == NO_PATHS@
                &&& r matches Ok(any) ==> any == (accepted > 0)
                &&& *final(user_bytes_sent) == if accepted > 0 {
                    worker::plus(*old(user_bytes_sent), packet@.len())
                } else {
                    *old(user_bytes_sent)
                }
                &&& final(counters)@.len() == old(counters)@.len()
                &&& final(queues)@.len() == old(queues)@.len()
                &&& forall|i: int|
                    0 <= i < paths ==> offered_queue(
                        (#[trigger] old(queues)@[i])@,
                        final(queues)@[i]@,
                        reaches(selected, running, i),
                        capacity,
                        wrapped(*overlay, session_id, *old(sequences), packet@),
                        now,
                    )
                &&& forall|i: int|
                    0 <= i < paths ==> #[trigger] final(counters)@[i] == offered_counters(
                        old(counters)@[i],
                        reaches(selected, running, i),
                        old(queues)@[i]@.len() < capacity,
                    )
            }
        }),
{
    let frame = match wrap_packet(overlay, session_id, sequences, packet) {
        Ok(frame) => frame,
        Err(message) => return Err(message),
    };
    let selected: u64 = selected_paths(decision, healthy);
    let ghost before = queues@;
    let taken = dispatch(
        frame.as_slice(),
        selected,
        running,
        queues,
        capacity,
        counters,
        now,
    );
    proof {
        lemma_accepted_selected(selected, running, before, capacity, before.len() as int);
    }
    if taken.selected == 0 {
        return Err(NO_PATHS.to_owned());
    }
    if taken.accepted > 0 {
        *user_bytes_sent = worker::count_up(*user_bytes_sent, packet.len() as u64);
    }
    Ok(taken.accepted > 0)
}

/// What a packet becomes under an overlay.
pub open spec fn wrapped(
    overlay: SessionOverlay,
    session_id: u64,
    sequence: u64,
    packet: Seq<u8>,
) -> Seq<u8> {
    match overlay {
        SessionOverlay::Relay { client_id, crypto } => auth::sealed_frame(
            crypto.client_key(),
            CLIENT_TO_SERVER_NONCE,
            HeaderModel { flags: 0, client_id: client_id@, session_id, sequence },
            packet,
        ),
        SessionOverlay::Direct => packet,
    }
}

proof fn lemma_accepted_selected(
    selected: u64,
    running: u64,
    queues: Seq<VecDeque<PathCommand>>,
    capacity: usize,
    n: int,
)
    ensures
        0 <= accepted_count(selected, running, queues, capacity, n) <= selected_count(selected, n),
    decreases n,
{
    if n > 0 {
        lemma_accepted_selected(selected, running, queues, capacity, n - 1);
    }
}

/// While a path of the session is healthy, a packet is always meant for at least
/// one, and for none that is dead.
pub proof fn a_healthy_path_is_always_used(
    decision: u64,
    healthy: u64,
    paths: int,
    live: int,
)
    requires
        0 <= live < paths <= 64,
        bits::bit(healthy, live as u64),
        forall|k: u64| paths <= k < 64 ==> !#[trigger] bits::bit(healthy, k),
    ensures
        selected_count(health::selection(decision, healthy), paths) > 0,
        forall|i: int|
            0 <= i < paths && #[trigger] is_selected(health::selection(decision, healthy), i)
                ==> bits::bit(healthy, i as u64),
{
    let selected = health::selection(decision, healthy);
    assert forall|i: int| 0 <= i < paths && #[trigger] is_selected(selected, i) implies bits::bit(
        healthy,
        i as u64,
    ) by {
        bits::lemma_bit_and(healthy, healthy, live as u64);
        health::a_dead_route_is_not_chosen_while_another_is_healthy(decision, healthy, i as u64);
    }
    bits::lemma_bit_and(healthy, healthy, live as u64);
    health::a_dead_route_is_not_chosen_while_another_is_healthy(decision, healthy, live as u64);
    // Some bit of a mask that is not zero is set.
    let k = bits::lemma_some_bit(selected);
    health::a_dead_route_is_not_chosen_while_another_is_healthy(decision, healthy, k);
    assert(is_selected(selected, k as int));
    lemma_count_positive(selected, k as int, paths);
}

proof fn lemma_count_positive(selected: u64, k: int, n: int)
    requires
        0 <= k < n,
        is_selected(selected, k),
    ensures
        selected_count(selected, n) > 0,
    decreases n,
{
    lemma_count_nonnegative(selected, n - 1);
    if k < n - 1 {
        lemma_count_positive(selected, k, n - 1);
    }
}

proof fn lemma_count_nonnegative(selected: u64, n: int)
    ensures
        selected_count(selected, n) >= 0,
    decreases n,
{
    if n > 0 {
        lemma_count_nonnegative(selected, n - 1);
    }
}

/// What a packet from the tunnel is to the resolver probe.
#[derive(Debug, Clone, Copy, PartialEq, Eq, Structural)]
pub enum ResolverReply {
    /// Not the answer.
    Other,
    /// The resolver answered, with this code where it refused. Reachable and
    /// speaking DNS is the whole question: a resolver that refuses one name
    /// still resolves everything else, and is still better than leaking to the
    /// ISP.
    Answered { refused: Option<u16> },
}

/// The packet that asks a resolver for the probe's name.
pub open spec fn question_bytes(address: Ipv4, resolver: Ipv4, source_port: u16, id: u16) -> Option<
    Seq<u8>,
> {
    match dns::query_bytes(id, dns::PROBE_HOSTNAME@) {
        Some(question) => if question.len() <= packet::MAX_PAYLOAD {
            Some(
                packet::udp_packet(
                    Endpoint { address, port: source_port },
                    Endpoint { address: resolver, port: RESOLVER_PORT },
                    question,
                ),
            )
        } else {
            None
        },
        None => None,
    }
}

/// The packet that asks a resolver for the probe's name, through the tunnel.
pub fn resolver_question(address: Ipv4, resolver: Ipv4, source_port: u16, id: u16) -> (r: Option<
    Vec<u8>,
>)
    ensures
        match question_bytes(address, resolver, source_port, id) {
            Some(question) => r matches Some(out) && out@ == question,
            None => r is None,
        },
{
    let question = match dns::query(id, dns::PROBE_HOSTNAME) {
        Some(question) => question,
        None => return None,
    };
    match packet::ipv4_udp_packet(
        Endpoint { address, port: source_port },
        Endpoint { address: resolver, port: RESOLVER_PORT },
        question.as_slice(),
    ) {
        Ok(out) => Some(out),
        Err(_) => None,
    }
}

/// What a packet is to the question that `address` asked `resolver` from
/// `source_port`.
pub open spec fn resolver_reply_of(
    arrived: Seq<u8>,
    resolver: Ipv4,
    address: Ipv4,
    source_port: u16,
    id: u16,
) -> ResolverReply {
    match packet::datagram_in(arrived) {
        Some(datagram) => if datagram.source != (Endpoint {
            address: resolver,
            port: RESOLVER_PORT,
        }) || datagram.destination != (Endpoint { address, port: source_port }) {
            ResolverReply::Other
        } else {
            match dns::judged(datagram.payload, id) {
                ResolverVerdict::Mismatched => ResolverReply::Other,
                ResolverVerdict::Answered => ResolverReply::Answered { refused: None },
                ResolverVerdict::Refused { rcode } => ResolverReply::Answered {
                    refused: Some(rcode),
                },
            }
        },
        None => ResolverReply::Other,
    }
}

/// Whether a packet from the tunnel answers the resolver probe.
///
/// A DNS round trip is normally weak evidence -- a proxy or a filter can answer
/// one without forwarding anything. It is strong evidence *here* precisely
/// because the relay's tunnel address exists only inside the tunnel: nothing
/// between this machine and the relay can see that address, let alone reply from
/// it.
pub fn judge_resolver_reply(
    arrived: &[u8],
    resolver: Ipv4,
    address: Ipv4,
    source_port: u16,
    id: u16,
) -> (r: ResolverReply)
    ensures
        r == resolver_reply_of(arrived@, resolver, address, source_port, id),
{
    match packet::ipv4_udp_payload(arrived) {
        Some(datagram) => {
            if datagram.source.address != resolver || datagram.source.port != RESOLVER_PORT
                || datagram.destination.address != address || datagram.destination.port
                != source_port {
                return ResolverReply::Other;
            }
            match dns::verdict(datagram.payload.as_slice(), id) {
                ResolverVerdict::Mismatched => ResolverReply::Other,
                ResolverVerdict::Answered => ResolverReply::Answered { refused: None },
                ResolverVerdict::Refused { rcode } => ResolverReply::Answered {
                    refused: Some(rcode),
                },
            }
        },
        None => ResolverReply::Other,
    }
}

/// What waiting for a packet has come to: nothing while it goes on, then the
/// packet, the error of receiving, or that the time is over.
pub fn await_packet(received: Result<Option<Vec<u8>>, String>, deadline: u64, now: u64) -> (r:
    Option<Result<Vec<u8>, String>>)
    ensures
        match received {
            Ok(Some(arrived)) => r == Some(Ok::<Vec<u8>, String>(arrived)),
            Err(error) => r == Some(Err::<Vec<u8>, String>(error)),
            Ok(None) => if now < deadline {
                r is None
            } else {
                r matches Some(Err(message)) && message@ == NO_REPLY@
            },
        },
{
    match received {
        Ok(Some(arrived)) => Some(Ok(arrived)),
        Err(error) => Some(Err(error)),
        Ok(None) => if now < deadline {
            None
        } else {
            Some(Err(NO_REPLY.to_owned()))
        },
    }
}

/// How long the probe of the data plane waits.
///
/// A relay session has to answer: the relay is the user's own, and this round
/// trip is what proves the whole chain carries traffic. A direct session's node
/// belongs to a provider who may simply filter ICMP, which says nothing about
/// the game traffic it will carry -- so there the probe is telemetry, and a
/// silent node is not a failed session.
pub fn probe_timeout(mode: SessionMode) -> (r: u64)
    ensures
        r == match mode {
            SessionMode::Relay => 8_000_000_000u64,
            SessionMode::Direct => 2_000_000_000u64,
        },
{
    match mode {
        SessionMode::Relay => 8_000_000_000,
        SessionMode::Direct => 2_000_000_000,
    }
}

/// The packet that asks the benchmark server to answer, through the session.
pub fn data_plane_request(address: Ipv4, identifier: u16) -> (r: Vec<u8>)
    ensures
        r@ == packet::echo_bytes(address, Ipv4(BENCHMARK_TARGET), identifier, 1, false),
{
    packet::echo_packet(address, Ipv4(BENCHMARK_TARGET), identifier, 1, false)
}

/// Whether the data plane was proved, given what came back: how long the answer
/// was where it is one, and `None` where it is not and need not be.
pub fn judge_data_plane(
    mode: SessionMode,
    outcome: Result<Vec<u8>, String>,
    address: Ipv4,
    identifier: u16,
) -> (r: Result<Option<usize>, String>)
    ensures
        match outcome {
            Ok(arrived) => if packet::answers_echo(
                arrived@,
                Ipv4(BENCHMARK_TARGET),
                address,
                identifier,
            ) {
                r == Ok::<Option<usize>, String>(Some(arrived@.len() as usize))
            } else if mode == SessionMode::Direct {
                r == Ok::<Option<usize>, String>(None)
            } else {
                r matches Err(message) && message@ == UNEXPECTED_PACKET@
            },
            Err(error) => if mode == SessionMode::Direct {
                r == Ok::<Option<usize>, String>(None)
            } else {
                r == Err::<Option<usize>, String>(error)
            },
        },
{
    match outcome {
        Ok(arrived) => {
            if packet::is_echo_reply(
                arrived.as_slice(),
                Ipv4(BENCHMARK_TARGET),
                address,
                identifier,
            ) {
                return Ok(Some(arrived.len()));
            }
            match mode {
                SessionMode::Relay => Err(UNEXPECTED_PACKET.to_owned()),
                SessionMode::Direct => Ok(None),
            }
        },
        Err(error) => match mode {
            SessionMode::Relay => Err(error),
            SessionMode::Direct => Ok(None),
        },
    }
}

/// The shortest round trip among some paths.
pub open spec fn shortest(statuses: Seq<PathSessionStatus>) -> Option<u64>
    decreases statuses.len(),
{
    if statuses.len() == 0 {
        None
    } else {
        match (shortest(statuses.drop_last()), statuses.last().latency) {
            (Some(before), Some(latency)) => if latency < before {
                Some(latency)
            } else {
                Some(before)
            },
            (None, latency) => latency,
            (before, None) => before,
        }
    }
}

/// How a round trip to the Internet splits at the relay.
#[derive(Debug, Clone, Copy, PartialEq, Eq, Structural)]
pub struct HopSplit {
    pub user_to_relay: u64,
    pub relay_to_server: Option<u64>,
}

/// A round trip cut at the relay, given the shortest one to the relay.
pub open spec fn hops(end_to_end: u64, to_relay: Option<u64>) -> HopSplit {
    let near = match to_relay {
        Some(latency) => latency,
        None => end_to_end,
    };
    HopSplit {
        user_to_relay: near,
        relay_to_server: if end_to_end > near {
            Some((end_to_end - near) as u64)
        } else {
            None
        },
    }
}

/// Splits a round trip at the relay.
///
/// The timings come from independent samples. If the fresh end-to-end probe
/// happens to beat the route's, subtraction produces zero or a negative number;
/// reporting zero would invent a physically impossible hop.
pub fn split_hops(end_to_end: u64, statuses: &Vec<PathSessionStatus>) -> (r: HopSplit)
    ensures
        r.user_to_relay == match shortest(statuses@) {
            Some(latency) => latency,
            None => end_to_end,
        },
        r.relay_to_server == if end_to_end > r.user_to_relay {
            Some((end_to_end - r.user_to_relay) as u64)
        } else {
            None
        },
        r == hops(end_to_end, shortest(statuses@)),
{
    let mut least: Option<u64> = None;
    let mut at: usize = 0;
    assert(statuses@.take(0) =~= Seq::<PathSessionStatus>::empty());
    while at < statuses.len()
        invariant
            at <= statuses@.len(),
            least == shortest(statuses@.take(at as int)),
        decreases statuses@.len() - at,
    {
        assert(statuses@.take(at + 1).drop_last() =~= statuses@.take(at as int));
        match (least, statuses[at].latency) {
            (Some(before), Some(latency)) => {
                if latency < before {
                    least = Some(latency);
                }
            },
            (None, Some(latency)) => {
                least = Some(latency);
            },
            _ => {},
        }
        at = at + 1;
    }
    assert(statuses@.take(at as int) =~= statuses@);
    let user_to_relay: u64 = match least {
        Some(latency) => latency,
        None => end_to_end,
    };
    let relay_to_server: Option<u64> = if end_to_end > user_to_relay {
        Some(end_to_end - user_to_relay)
    } else {
        None
    };
    HopSplit { user_to_relay, relay_to_server }
}

/// A packet that reaches a queue with room goes to its end, with the time; any
/// other queue stays as it is.
pub proof fn a_packet_goes_to_the_end_of_its_queue(
    before: Seq<PathCommand>,
    after: Seq<PathCommand>,
    reached: bool,
    capacity: usize,
    frame: Seq<u8>,
    now: u64,
)
    requires
        offered_queue(before, after, reached, capacity, frame, now),
    ensures
        !reached || before.len() >= capacity ==> after == before,
        reached && before.len() < capacity ==> after.len() == before.len() + 1
            && after[before.len() as int].frame@ == frame && after[before.len() as int].queued_at
            == now && forall|i: int| 0 <= i < before.len() ==> #[trigger] after[i] == before[i],
        before.len() <= capacity ==> after.len() <= capacity,
{
    if reached && before.len() < capacity {
        assert forall|i: int| 0 <= i < before.len() implies #[trigger] after[i] == before[i] by {
            assert(after.drop_last()[i] == after[i]);
        }
    }
}

/// A packet is counted once on each path it was offered to: as one more in the
/// queue where there was room, and as dropped for want of room where there was
/// none.
pub proof fn an_offer_is_counted_once(before: PathCounters, reached: bool, room: bool)
    requires
        before.queue_depth < u64::MAX,
        before.dropped < u64::MAX,
        before.queue_full_dropped < u64::MAX,
        before.queue_depth <= before.queue_peak,
    ensures
        ({
            let after = offered_counters(before, reached, room);
            &&& after.queue_depth - before.queue_depth == if reached && room {
                1int
            } else {
                0int
            }
            &&& after.dropped - before.dropped == if reached && !room {
                1int
            } else {
                0int
            }
            &&& after.queue_full_dropped - before.queue_full_dropped == after.dropped
                - before.dropped
            &&& after.queue_depth <= after.queue_peak
            &&& after.queue_peak >= before.queue_peak
            &&& after.stale_dropped == before.stale_dropped && after.inbound_dropped
                == before.inbound_dropped && after.iterations == before.iterations
        }),
{
    worker::lemma_counts_by_one(before.queue_depth);
    worker::lemma_counts_by_one(before.dropped);
    worker::lemma_counts_by_one(before.queue_full_dropped);
}

/// The shortest latency is that of some path, and no path's is shorter.
pub proof fn the_shortest_latency_is_a_path_s(statuses: Seq<PathSessionStatus>)
    ensures
        shortest(statuses) is None <==> forall|i: int|
            0 <= i < statuses.len() ==> (#[trigger] statuses[i]).latency is None,
        shortest(statuses) matches Some(least) ==> (exists|i: int|
            0 <= i < statuses.len() && (#[trigger] statuses[i]).latency == Some(least)) && forall|
            i: int,
        |
            0 <= i < statuses.len() ==> ((#[trigger] statuses[i]).latency matches Some(other)
                ==> least <= other),
    decreases statuses.len(),
{
    if statuses.len() > 0 {
        let less = statuses.drop_last();
        let last = statuses.len() - 1;
        the_shortest_latency_is_a_path_s(less);
        assert(statuses.last() == statuses[last]);
        assert forall|i: int| 0 <= i < last implies #[trigger] less[i] == statuses[i] by {}
        if let Some(least) = shortest(less) {
            let i = choose|i: int|
                0 <= i < less.len() && (#[trigger] less[i]).latency == Some(least);
            assert(statuses[i].latency == Some(least));
            if let Some(found) = shortest(statuses) {
                assert forall|j: int| 0 <= j < statuses.len() implies ((
                #[trigger] statuses[j]).latency matches Some(other) ==> found <= other) by {
                    if j < last {
                        assert(less[j] == statuses[j]);
                    }
                }
                if found != least {
                    assert(statuses[last].latency == Some(found));
                }
            }
        } else {
            assert forall|j: int| 0 <= j < last implies (#[trigger] statuses[j]).latency is None by {
                assert(less[j] == statuses[j]);
            }
        }
    }
}

/// An answer from the resolver to the question's own port counts, and one from
/// elsewhere, to elsewhere or to another question does not.
pub proof fn only_the_resolver_s_answer_counts(
    resolver: Endpoint,
    own: Endpoint,
    address: Ipv4,
    asked: Ipv4,
    source_port: u16,
    id: u16,
    payload: Seq<u8>,
)
    requires
        payload.len() <= packet::MAX_PAYLOAD,
    ensures
        ({
            let reply = resolver_reply_of(
                packet::udp_packet(resolver, own, payload),
                asked,
                address,
                source_port,
                id,
            );
            let right = resolver.address == asked && resolver.port == 53 && own.address == address
                && own.port == source_port;
            match dns::judged(payload, id) {
                ResolverVerdict::Answered if right => reply == (ResolverReply::Answered {
                    refused: None,
                }),
                ResolverVerdict::Refused { rcode } if right => reply == (ResolverReply::Answered {
                    refused: Some(rcode),
                }),
                _ => reply == ResolverReply::Other,
            }
        }),
{
    packet::a_datagram_reads_back(resolver, own, payload);
}

/// What goes out to the relay is opened there as the packet it was, under the
/// client, the session and the sequence it was sent with, and is no control
/// message; what goes out directly is the packet itself.
pub proof fn what_goes_out_arrives(
    overlay: SessionOverlay,
    session_id: u64,
    sequence: u64,
    packet: Seq<u8>,
)
    requires
        crypto::can_seal(DataCipher::ChaCha20Poly1305, packet.len()),
    ensures
        overlay matches SessionOverlay::Relay { client_id, crypto } ==> auth::opened_frame(
            crypto.client_key(),
            0x4354_5331,
            wrapped(overlay, session_id, sequence, packet),
        ) == Ok::<(HeaderModel, Seq<u8>), Seq<char>>(
            (HeaderModel { flags: 0, client_id: client_id@, session_id, sequence }, packet),
        ),
        overlay is Direct ==> wrapped(overlay, session_id, sequence, packet) == packet,
{
    if let SessionOverlay::Relay { client_id, crypto } = overlay {
        auth::a_sealed_frame_opens(
            crypto.client_key(),
            0x4354_5331,
            HeaderModel { flags: 0, client_id: client_id@, session_id, sequence },
            packet,
        );
    }
}

/// The question to a resolver goes from the tunnel's own address and the port
/// that was picked to port 53 of the resolver, and asks for the probe's name
/// under the id.
pub proof fn a_question_goes_to_the_resolver(
    address: Ipv4,
    resolver: Ipv4,
    source_port: u16,
    id: u16,
)
    ensures
        question_bytes(address, resolver, source_port, id) matches Some(question)
            ==> (packet::datagram_in(question) matches Some(datagram) && datagram.source
            == (Endpoint { address, port: source_port }) && datagram.destination == (Endpoint {
            address: resolver,
            port: 53,
        }) && dns::query_bytes(id, "dns.google"@) == Some(datagram.payload)),
{
    if let Some(question) = dns::query_bytes(id, dns::PROBE_HOSTNAME@) {
        if question.len() <= packet::MAX_PAYLOAD {
            packet::a_datagram_reads_back(
                Endpoint { address, port: source_port },
                Endpoint { address: resolver, port: RESOLVER_PORT },
                question,
            );
        }
    }
}

/// A packet counts once for each path that it is meant for, and is accepted once
/// for each of those that runs and has room.
pub proof fn a_packet_counts_once_for_each_path(
    selected: u64,
    running: u64,
    queues: Seq<VecDeque<PathCommand>>,
    capacity: usize,
    n: int,
)
    requires
        0 <= n < 64,
    ensures
        selected_count(selected, n + 1) - selected_count(selected, n) == if bits::bit(
            selected,
            n as u64,
        ) {
            1int
        } else {
            0int
        },
        accepted_count(selected, running, queues, capacity, n + 1) - accepted_count(
            selected,
            running,
            queues,
            capacity,
            n,
        ) == if bits::bit(selected, n as u64) && bits::bit(running, n as u64) && queues[n]@.len()
            < capacity {
            1int
        } else {
            0int
        },
        selected_count(selected, 0) == 0,
        accepted_count(selected, running, queues, capacity, 0) == 0,
{
}

/// The two halves of a round trip make the whole of it; there is a second half
/// only where something is left of the whole.
pub proof fn the_hops_make_the_round_trip(end_to_end: u64, to_relay: u64)
    ensures
        to_relay < end_to_end ==> (hops(end_to_end, Some(to_relay)).relay_to_server matches Some(
            rest,
        ) && rest > 0 && hops(end_to_end, Some(to_relay)).user_to_relay + rest == end_to_end
            && hops(end_to_end, Some(to_relay)).user_to_relay == to_relay),
        to_relay >= end_to_end ==> hops(end_to_end, Some(to_relay)).relay_to_server is None
            && hops(end_to_end, Some(to_relay)).user_to_relay == to_relay,
        hops(end_to_end, None).user_to_relay == end_to_end,
        hops(end_to_end, None).relay_to_server is None,
{
}

} // verus!
