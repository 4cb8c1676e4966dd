//! The packets that travel inside a tunnel: UDP datagrams and echoes over IPv4.

use vstd::prelude::*;
use vstd::slice::slice_subrange;

use crate::bytes;
use crate::net::{Endpoint, Ipv4};
use crate::relay_path::Datagram;

verus! {

/// The length of an IPv4 header without options, and the shortest there is.
pub const IPV4_HEADER: usize = 20;

pub const PROTOCOL_ECHO: u8 = 1;

pub const PROTOCOL_UDP: u8 = 17;

/// How many hops a packet may take.
pub const HOPS: u8 = 64;

/// The longest payload that fits a datagram.
pub const MAX_PAYLOAD: usize = 65_507;

pub const TOO_LONG: &'static str = "the payload does not fit a UDP datagram";

/// The sum of the 16-bit words of some bytes, the last one filled up with a zero.
pub open spec fn word_sum(s: Seq<u8>) -> nat
    decreases s.len(),
{
    if s.len() == 0 {
        0
    } else if s.len() == 1 {
        s[0] as nat * 256
    } else {
        s[0] as nat * 256 + s[1] as nat + word_sum(s.skip(2))
    }
}

/// A sum with what exceeds 16 bits carried round to the low end.
pub open spec fn carried(n: nat) -> nat
    decreases n,
{
    if n < 0x1_0000 {
        n
    } else {
        carried(n / 0x1_0000 + n % 0x1_0000)
    }
}

proof fn lemma_carried(n: nat)
    ensures
        carried(n) < 0x1_0000,
    decreases n,
{
    if n >= 0x1_0000 {
        lemma_carried(n / 0x1_0000 + n % 0x1_0000);
    }
}

/// The Internet checksum: the ones' complement of the ones' complement sum.
pub open spec fn checksum(s: Seq<u8>) -> nat {
    (0xffff - carried(word_sum(s))) as nat
}

fn checksum_of(data: &[u8]) -> (r: u64)
    requires
        data@.len() <= 0xffff,
    ensures
        r == checksum(data@),
        r <= 0xffff,
{
    let mut sum: u64 = 0;
    let mut at: usize = 0;
    assert(data@.skip(0) =~= data@);
    while at + 1 < data.len()
        invariant
            at <= data@.len() <= 0xffff,
            sum <= at * 0x1_0000,
            sum + word_sum(data@.skip(at as int)) == word_sum(data@),
        decreases data@.len() - at,
    {
        assert(data@.skip(at as int).skip(2) =~= data@.skip(at + 2));
        sum = sum + data[at] as u64 * 256 + data[at + 1] as u64;
        at = at + 2;
    }
    if at < data.len() {
        assert(data@.skip(at as int).len() == 1);
        sum = sum + data[at] as u64 * 256;
    } else {
        assert(data@.skip(at as int).len() == 0);
    }
    let ghost total = sum as nat;
    while sum >= 0x1_0000
        invariant
            carried(sum as nat) == carried(total),
        decreases sum,
    {
        sum = sum / 0x1_0000 + sum % 0x1_0000;
    }
    0xffff - sum
}

/// An IPv4 header, with this in the place of its checksum.
pub open spec fn header_with(
    total: nat,
    protocol: u8,
    source: Ipv4,
    destination: Ipv4,
    sum: nat,
) -> Seq<u8> {
    seq![0x45u8, 0u8] + bytes::be_bytes(total, 2) + seq![0u8, 0u8, 0u8, 0u8, HOPS, protocol]
        + bytes::be_bytes(sum, 2) + bytes::be_bytes(source.0 as nat, 4) + bytes::be_bytes(
        destination.0 as nat,
        4,
    )
}

/// An IPv4 header without options, for a packet of `total` bytes.
pub open spec fn ipv4_header(total: nat, protocol: u8, source: Ipv4, destination: Ipv4) -> Seq<
    u8,
> {
    header_with(
        total,
        protocol,
        source,
        destination,
        checksum(header_with(total, protocol, source, destination, 0)),
    )
}

proof fn lemma_header(total: nat, protocol: u8, source: Ipv4, destination: Ipv4, sum: nat)
    ensures
        header_with(total, protocol, source, destination, sum).len() == IPV4_HEADER,
{
    bytes::lemma_be_bytes_len(total, 2);
    bytes::lemma_be_bytes_len(sum, 2);
    bytes::lemma_be_bytes_len(source.0 as nat, 4);
    bytes::lemma_be_bytes_len(destination.0 as nat, 4);
}

fn put_header(total: u64, protocol: u8, source: Ipv4, destination: Ipv4, sum: u64) -> (r: Vec<u8>)
    ensures
        r@ == header_with(total as nat, protocol, source, destination, sum as nat),
{
    let mut r: Vec<u8> = vec![0x45u8, 0u8];
    assert(r@ =~= seq![0x45u8, 0u8]);
    let size = bytes::to_be(total, 2);
    r.extend_from_slice(size.as_slice());
    let middle: [u8; 6] = [0, 0, 0, 0, HOPS, protocol];
    assert(middle@ =~= seq![0u8, 0u8, 0u8, 0u8, HOPS, protocol]);
    r.extend_from_slice(middle.as_slice());
    let check = bytes::to_be(sum, 2);
    r.extend_from_slice(check.as_slice());
    let from = bytes::to_be(source.0 as u64, 4);
    r.extend_from_slice(from.as_slice());
    let to = bytes::to_be(destination.0 as u64, 4);
    r.extend_from_slice(to.as_slice());
    assert(r@ =~= header_with(total as nat, protocol, source, destination, sum as nat));
    r
}

fn make_header(total: u64, protocol: u8, source: Ipv4, destination: Ipv4) -> (r: Vec<u8>)
    ensures
        r@ == ipv4_header(total as nat, protocol, source, destination),
{
    let blank = put_header(total, protocol, source, destination, 0);
    proof {
        lemma_header(total as nat, protocol, source, destination, 0);
    }
    let sum: u64 = checksum_of(blank.as_slice());
    put_header(total, protocol, source, destination, sum)
}

/// A UDP datagram over IPv4. Its own checksum is left out, as UDP over IPv4
/// allows.
pub open spec fn udp_packet(source: Endpoint, destination: Endpoint, payload: Seq<u8>) -> Seq<u8> {
    ipv4_header(28 + payload.len(), PROTOCOL_UDP, source.address, destination.address)
        + bytes::be_bytes(source.port as nat, 2) + bytes::be_bytes(destination.port as nat, 2)
        + bytes::be_bytes(8 + payload.len(), 2) + seq![0u8, 0u8] + payload
}

/// A UDP datagram over IPv4, unless the payload is too long for one.
pub fn ipv4_udp_packet(source: Endpoint, destination: Endpoint, payload: &[u8]) -> (r: Result<
    Vec<u8>,
    String,
>)
    ensures
        r is Ok <==> payload@.len() <= MAX_PAYLOAD,
        r matches Ok(packet) ==> packet@ == udp_packet(source, destination, payload@),
        r matches Err(message) ==> message@ == TOO_LONG@,
{
    if payload.len() > MAX_PAYLOAD {
        return Err(TOO_LONG.to_owned());
    }
    let size: u64 = payload.len() as u64;
    let mut packet = make_header(28 + size, PROTOCOL_UDP, source.address, destination.address);
    let from = bytes::to_be(source.port as u64, 2);
    packet.extend_from_slice(from.as_slice());
    let to = bytes::to_be(destination.port as u64, 2);
    packet.extend_from_slice(to.as_slice());
    let length = bytes::to_be(8 + size, 2);
    packet.extend_from_slice(length.as_slice());
    packet.push(0);
    packet.push(0);
    packet.extend_from_slice(payload);
    assert(packet@ =~= udp_packet(source, destination, payload@));
    Ok(packet)
}

/// The address that some bytes hold.
pub open spec fn address_at(packet: Seq<u8>, at: int) -> Ipv4 {
    Ipv4(bytes::be_value(packet.subrange(at, at + 4)) as u32)
}

/// The 16-bit number that some bytes hold.
pub open spec fn short_at(packet: Seq<u8>, at: int) -> u16 {
    bytes::be_value(packet.subrange(at, at + 2)) as u16
}

/// How long the header of a packet is.
pub open spec fn header_length(packet: Seq<u8>) -> int {
    (packet[0] % 16) as int * 4
}

/// Whether a packet holds a whole IPv4 header, eight bytes behind it, and no
/// fragment of something longer.
pub open spec fn is_whole(packet: Seq<u8>) -> bool {
    &&& packet.len() >= 28
    &&& packet[0] / 16 == 4
    &&& header_length(packet) >= 20
    &&& header_length(packet) + 8 <= short_at(packet, 2) <= packet.len()
    &&& short_at(packet, 6) % 0x4000 == 0
}

/// A datagram, as it is read out of a packet.
#[verifier::ext_equal]
pub struct DatagramModel {
    pub source: Endpoint,
    pub destination: Endpoint,
    pub payload: Seq<u8>,
}

pub open spec fn datagram_model(datagram: Datagram) -> DatagramModel {
    DatagramModel {
        source: datagram.source,
        destination: datagram.destination,
        payload: datagram.payload@,
    }
}

/// The UDP datagram that a packet holds, if it holds one.
pub open spec fn datagram_in(packet: Seq<u8>) -> Option<DatagramModel> {
    if !is_whole(packet) || packet[9] != PROTOCOL_UDP {
        None
    } else {
        let h = header_length(packet);
        let length = short_at(packet, h + 4) as int;
        if length < 8 || h + length > short_at(packet, 2) {
            None
        } else {
            Some(
                DatagramModel {
                    source: Endpoint {
                        address: address_at(packet, 12),
                        port: short_at(packet, h),
                    },
                    destination: Endpoint {
                        address: address_at(packet, 16),
                        port: short_at(packet, h + 2),
                    },
                    payload: packet.subrange(h + 8, h + length),
                },
            )
        }
    }
}

fn read_short(packet: &[u8], at: usize) -> (r: u16)
    requires
        at < 0x100,
        at + 2 <= packet@.len(),
    ensures
        r == short_at(packet@, at as int),
{
    proof {
        bytes::lemma_byte_ranges();
    }
    bytes::from_be(packet, at, at + 2) as u16
}

fn read_address(packet: &[u8], at: usize) -> (r: Ipv4)
    requires
        at < 0x100,
        at + 4 <= packet@.len(),
    ensures
        r == address_at(packet@, at as int),
{
    proof {
        bytes::lemma_byte_ranges();
    }
    Ipv4(bytes::from_be(packet, at, at + 4) as u32)
}

fn whole(packet: &[u8]) -> (r: bool)
    ensures
        r == is_whole(packet@),
{
    if packet.len() < 28 || packet[0] / 16 != 4 {
        return false;
    }
    let header: usize = (packet[0] % 16) as usize * 4;
    let total: usize = read_short(packet, 2) as usize;
    header >= 20 && header + 8 <= total && total <= packet.len() && read_short(packet, 6) % 0x4000
        == 0
}

/// The UDP datagram that a packet holds, if it holds one.
pub fn ipv4_udp_payload(packet: &[u8]) -> (r: Option<Datagram>)
    ensures
        match datagram_in(packet@) {
            Some(model) => r matches Some(datagram) && datagram_model(datagram) == model,
            None => r is None,
        },
{
    if !whole(packet) || packet[9] != PROTOCOL_UDP {
        return None;
    }
    let header: usize = (packet[0] % 16) as usize * 4;
    let length: usize = read_short(packet, header + 4) as usize;
    if length < 8 || header + length > read_short(packet, 2) as usize {
        return None;
    }
    let mut payload: Vec<u8> = Vec::new();
    payload.extend_from_slice(slice_subrange(packet, header + 8, header + length));
    assert(payload@ =~= packet@.subrange(header + 8, header + length));
    Some(
        Datagram {
            source: Endpoint {
                address: read_address(packet, 12),
                port: read_short(packet, header),
            },
            destination: Endpoint {
                address: read_address(packet, 16),
                port: read_short(packet, header + 2),
            },
            payload,
        },
    )
}

proof fn lemma_header_reads_back(
    total: nat,
    protocol: u8,
    source: Ipv4,
    destination: Ipv4,
    rest: Seq<u8>,
)
    requires
        total == 20 + rest.len(),
        28 <= total < 0x1_0000,
    ensures
        ({
            let packet = ipv4_header(total, protocol, source, destination) + rest;
            &&& is_whole(packet)
            &&& header_length(packet) == 20
            &&& short_at(packet, 2) == total
            &&& packet[9] == protocol
            &&& address_at(packet, 12) == source
            &&& address_at(packet, 16) == destination
        }),
{
    let sum = checksum(header_with(total, protocol, source, destination, 0));
    let packet = ipv4_header(total, protocol, source, destination) + rest;
    lemma_header(total, protocol, source, destination, sum);
    bytes::lemma_byte_ranges();
    bytes::lemma_be_bytes_len(total, 2);
    bytes::lemma_be_bytes_len(sum, 2);
    bytes::lemma_be_bytes_len(source.0 as nat, 4);
    bytes::lemma_be_bytes_len(destination.0 as nat, 4);
    bytes::lemma_be_round_trip(total, 2);
    bytes::lemma_be_round_trip(source.0 as nat, 4);
    bytes::lemma_be_round_trip(destination.0 as nat, 4);
    assert(packet.subrange(2, 4) =~= bytes::be_bytes(total, 2));
    assert(packet.subrange(12, 16) =~= bytes::be_bytes(source.0 as nat, 4));
    assert(packet.subrange(16, 20) =~= bytes::be_bytes(destination.0 as nat, 4));
    assert(packet.subrange(6, 8) =~= seq![0u8, 0u8]);
    assert(bytes::be_value(seq![0u8, 0u8]) == 0) by {
        reveal_with_fuel(bytes::be_value, 3);
        assert(seq![0u8, 0u8].drop_last() =~= seq![0u8]);
        assert(seq![0u8].drop_last() =~= Seq::<u8>::empty());
    }
    assert(packet[0] == 0x45u8 && packet[9] == protocol);
}

/// A datagram reads back as it was sent, between the same two ends.
pub proof fn a_datagram_reads_back(source: Endpoint, destination: Endpoint, payload: Seq<u8>)
    requires
        payload.len() <= MAX_PAYLOAD,
    ensures
        datagram_in(udp_packet(source, destination, payload)) == Some(
            DatagramModel { source, destination, payload },
        ),
{
    let total = 28 + payload.len();
    let rest = bytes::be_bytes(source.port as nat, 2) + bytes::be_bytes(destination.port as nat, 2)
        + bytes::be_bytes(8 + payload.len(), 2) + seq![0u8, 0u8] + payload;
    let header = ipv4_header(total, PROTOCOL_UDP, source.address, destination.address);
    let packet = udp_packet(source, destination, payload);
    bytes::lemma_byte_ranges();
    bytes::lemma_be_bytes_len(source.port as nat, 2);
    bytes::lemma_be_bytes_len(destination.port as nat, 2);
    bytes::lemma_be_bytes_len(8 + payload.len(), 2);
    bytes::lemma_be_round_trip(source.port as nat, 2);
    bytes::lemma_be_round_trip(destination.port as nat, 2);
    bytes::lemma_be_round_trip(8 + payload.len(), 2);
    assert(packet =~= header + rest);
    lemma_header(
        total,
        PROTOCOL_UDP,
        source.address,
        destination.address,
        checksum(header_with(total, PROTOCOL_UDP, source.address, destination.address, 0)),
    );
    lemma_header_reads_back(total, PROTOCOL_UDP, source.address, destination.address, rest);
    assert(packet.subrange(20, 22) =~= bytes::be_bytes(source.port as nat, 2));
    assert(packet.subrange(22, 24) =~= bytes::be_bytes(destination.port as nat, 2));
    assert(packet.subrange(24, 26) =~= bytes::be_bytes(8 + payload.len(), 2));
    assert(packet.subrange(28, (28 + payload.len()) as int) =~= payload);
}

/// What stands behind the header of an echo, with this in the place of its
/// checksum.
pub open spec fn echo_with(kind: u8, identifier: u16, sequence: u16, sum: nat) -> Seq<u8> {
    seq![kind, 0u8] + bytes::be_bytes(sum, 2) + bytes::be_bytes(identifier as nat, 2)
        + bytes::be_bytes(sequence as nat, 2)
}

/// The kind of an echo: one that asks, or one that answers.
pub open spec fn echo_kind(reply: bool) -> u8 {
    if reply {
        0
    } else {
        8
    }
}

/// An echo request, or the reply to one.
pub open spec fn echo_bytes(
    source: Ipv4,
    destination: Ipv4,
    identifier: u16,
    sequence: u16,
    reply: bool,
) -> Seq<u8> {
    ipv4_header(28, PROTOCOL_ECHO, source, destination) + echo_with(
        echo_kind(reply),
        identifier,
        sequence,
        checksum(echo_with(echo_kind(reply), identifier, sequence, 0)),
    )
}

fn put_echo(kind: u8, identifier: u16, sequence: u16, sum: u64) -> (r: Vec<u8>)
    ensures
        r@ == echo_with(kind, identifier, sequence, sum as nat),
{
    let mut r: Vec<u8> = vec![kind, 0u8];
    assert(r@ =~= seq![kind, 0u8]);
    let check = bytes::to_be(sum, 2);
    r.extend_from_slice(check.as_slice());
    let id = bytes::to_be(identifier as u64, 2);
    r.extend_from_slice(id.as_slice());
    let number = bytes::to_be(sequence as u64, 2);
    r.extend_from_slice(number.as_slice());
    assert(r@ =~= echo_with(kind, identifier, sequence, sum as nat));
    r
}

proof fn lemma_echo(kind: u8, identifier: u16, sequence: u16, sum: nat)
    ensures
        echo_with(kind, identifier, sequence, sum).len() == 8,
{
    bytes::lemma_be_bytes_len(sum, 2);
    bytes::lemma_be_bytes_len(identifier as nat, 2);
    bytes::lemma_be_bytes_len(sequence as nat, 2);
}

/// An echo request, or the reply to one.
pub fn echo_packet(
    source: Ipv4,
    destination: Ipv4,
    identifier: u16,
    sequence: u16,
    reply: bool,
) -> (r: Vec<u8>)
    ensures
        r@ == echo_bytes(source, destination, identifier, sequence, reply),
{
    let kind: u8 = if reply {
        0
    } else {
        8
    };
    let blank = put_echo(kind, identifier, sequence, 0);
    proof {
        lemma_echo(kind, identifier, sequence, 0);
    }
    let sum: u64 = checksum_of(blank.as_slice());
    let body = put_echo(kind, identifier, sequence, sum);
    let mut r = make_header(28, PROTOCOL_ECHO, source, destination);
    r.extend_from_slice(body.as_slice());
    assert(r@ =~= echo_bytes(source, destination, identifier, sequence, reply));
    r
}

/// Whether a packet is the answer of `from` to an echo that `to` sent under this
/// identifier.
pub open spec fn answers_echo(packet: Seq<u8>, from: Ipv4, to: Ipv4, identifier: u16) -> bool {
    &&& is_whole(packet)
    &&& packet[9] == PROTOCOL_ECHO
    &&& address_at(packet, 12) == from
    &&& address_at(packet, 16) == to
    &&& packet[header_length(packet)] == 0
    &&& packet[header_length(packet) + 1] == 0
    &&& short_at(packet, header_length(packet) + 4) == identifier
}

/// Whether a packet is the answer of `from` to an echo that `to` sent under this
/// identifier.
pub fn is_echo_reply(packet: &[u8], from: Ipv4, to: Ipv4, identifier: u16) -> (r: bool)
    ensures
        r == answers_echo(packet@, from, to, identifier),
{
    if !whole(packet) || packet[9] != PROTOCOL_ECHO {
        return false;
    }
    let header: usize = (packet[0] % 16) as usize * 4;
    read_address(packet, 12) == from && read_address(packet, 16) == to && packet[header] == 0
        && packet[header + 1] == 0 && read_short(packet, header + 4) == identifier
}

/// The reply to an echo is recognised by its identifier, and a request is never
/// taken for one.
pub proof fn an_echo_is_told_by_its_reply(
    from: Ipv4,
    to: Ipv4,
    identifier: u16,
    sequence: u16,
    other: u16,
    reply: bool,
)
    ensures
        answers_echo(echo_bytes(from, to, identifier, sequence, reply), from, to, other) <==> reply
            && other == identifier,
{
    let kind = echo_kind(reply);
    let sum = checksum(echo_with(kind, identifier, sequence, 0));
    let rest = echo_with(kind, identifier, sequence, sum);
    let packet = echo_bytes(from, to, identifier, sequence, reply);
    lemma_echo(kind, identifier, sequence, sum);
    lemma_header(
        28,
        PROTOCOL_ECHO,
        from,
        to,
        checksum(header_with(28, PROTOCOL_ECHO, from, to, 0)),
    );
    lemma_header_reads_back(28, PROTOCOL_ECHO, from, to, rest);
    bytes::lemma_byte_ranges();
    bytes::lemma_be_bytes_len(sum, 2);
    bytes::lemma_be_bytes_len(identifier as nat, 2);
    bytes::lemma_be_bytes_len(sequence as nat, 2);
    bytes::lemma_be_round_trip(identifier as nat, 2);
    assert(packet[20] == kind && packet[21] == 0);
    assert(packet.subrange(24, 26) =~= bytes::be_bytes(identifier as nat, 2));
}

proof fn lemma_carried_remainder(n: nat)
    ensures
        carried(n) <= 0xffff,
        carried(n) % 0xffff == n % 0xffff,
        n > 0 ==> carried(n) > 0,
    decreases n,
{
    if n >= 0x1_0000 {
        let high = n / 0x1_0000;
        let low = n % 0x1_0000;
        assert(n == high * 0xffff + (high + low));
        assert((high * 0xffff + (high + low)) % 0xffff == (high + low) % 0xffff) by {
            vstd::arithmetic::div_mod::lemma_mod_multiples_vanish(
                high as int,
                (high + low) as int,
                0xffff,
            );
        }
        lemma_carried_remainder(high + low);
    }
}

/// Words of 16 bits are summed wherever they are cut apart between two words.
proof fn lemma_sum_in_two(a: Seq<u8>, b: Seq<u8>)
    requires
        a.len() % 2 == 0,
    ensures
        word_sum(a + b) == word_sum(a) + word_sum(b),
    decreases a.len(),
{
    if a.len() == 0 {
        assert(a + b =~= b);
    } else {
        assert((a + b).skip(2) =~= a.skip(2) + b);
        lemma_sum_in_two(a.skip(2), b);
    }
}

proof fn lemma_sum_of_word(n: nat)
    requires
        n < 0x1_0000,
    ensures
        bytes::be_bytes(n, 2).len() == 2,
        word_sum(bytes::be_bytes(n, 2)) == n,
{
    reveal_with_fuel(bytes::be_bytes, 3);
    let s = bytes::be_bytes(n, 2);
    assert(s =~= seq![((n / 256) % 256) as u8, (n % 256) as u8]);
    assert(s.skip(2) =~= Seq::<u8>::empty());
    assert(word_sum(s.skip(2)) == 0);
}

/// A checksum put where a zero stood makes the whole sum up to all ones.
proof fn lemma_sum_is_ones(a: Seq<u8>, b: Seq<u8>)
    requires
        a.len() % 2 == 0,
        word_sum(a) > 0,
    ensures
        ({
            let blank = a + bytes::be_bytes(0, 2) + b;
            let filled = a + bytes::be_bytes(checksum(blank), 2) + b;
            carried(word_sum(filled)) == 0xffff
        }),
{
    let blank = a + bytes::be_bytes(0, 2) + b;
    let n = word_sum(blank);
    lemma_carried_remainder(n);
    let sum = checksum(blank);
    lemma_sum_of_word(0);
    lemma_sum_of_word(sum);
    let filled = a + bytes::be_bytes(sum, 2) + b;
    lemma_sum_in_two(a + bytes::be_bytes(0, 2), b);
    lemma_sum_in_two(a, bytes::be_bytes(0, 2));
    lemma_sum_in_two(a + bytes::be_bytes(sum, 2), b);
    lemma_sum_in_two(a, bytes::be_bytes(sum, 2));
    assert(word_sum(filled) == n + sum);
    lemma_carried_remainder(n + sum);
    let c = carried(n);
    assert(n % 0xffff == c % 0xffff);
    assert((n + (0xffff - c)) % 0xffff == 0) by {
        vstd::arithmetic::div_mod::lemma_add_mod_noop(n as int, 0xffff - c, 0xffff);
        vstd::arithmetic::div_mod::lemma_add_mod_noop(c as int, 0xffff - c, 0xffff);
    }
    let d = carried(n + sum);
    assert(d % 0xffff == 0 && 0 < d <= 0xffff);
}

/// A router takes the header for sound: its words sum up to all ones, the
/// checksum with the rest.
pub proof fn a_header_passes_its_checksum(
    total: nat,
    protocol: u8,
    source: Ipv4,
    destination: Ipv4,
)
    ensures
        ipv4_header(total, protocol, source, destination).len() == 20,
        carried(word_sum(ipv4_header(total, protocol, source, destination))) == 0xffff,
        ipv4_header(total, protocol, source, destination)[8] == 64,
{
    bytes::lemma_be_bytes_len(total, 2);
    bytes::lemma_be_bytes_len(0, 2);
    bytes::lemma_be_bytes_len(source.0 as nat, 4);
    bytes::lemma_be_bytes_len(destination.0 as nat, 4);
    let version = seq![0x45u8, 0u8];
    let a = version + bytes::be_bytes(total, 2) + seq![0u8, 0u8, 0u8, 0u8, HOPS, protocol];
    let b = bytes::be_bytes(source.0 as nat, 4) + bytes::be_bytes(destination.0 as nat, 4);
    let blank = header_with(total, protocol, source, destination, 0);
    assert(blank =~= a + bytes::be_bytes(0, 2) + b);
    let sum = checksum(blank);
    bytes::lemma_be_bytes_len(sum, 2);
    assert(header_with(total, protocol, source, destination, sum) =~= a + bytes::be_bytes(sum, 2)
        + b);
    assert(a[0] == 0x45u8 && a[1] == 0);
    assert(word_sum(a) >= 0x4500);
    lemma_sum_is_ones(a, b);
}

/// An echo passes its own checksum, and so does its reply.
pub proof fn an_echo_passes_its_checksum(
    source: Ipv4,
    destination: Ipv4,
    identifier: u16,
    sequence: u16,
)
    ensures
        echo_bytes(source, destination, identifier, sequence, false).len() == 28,
        carried(
            word_sum(echo_bytes(source, destination, identifier, sequence, false).skip(20)),
        ) == 0xffff,
        echo_bytes(source, destination, identifier, sequence, false)[20] == 8,
        echo_bytes(source, destination, identifier, sequence, true)[20] == 0,
        echo_bytes(source, destination, identifier, sequence, false).subrange(26, 28)
            == bytes::be_bytes(sequence as nat, 2),
{
    a_header_passes_its_checksum(28, PROTOCOL_ECHO, source, destination);
    bytes::lemma_be_bytes_len(0, 2);
    bytes::lemma_be_bytes_len(identifier as nat, 2);
    bytes::lemma_be_bytes_len(sequence as nat, 2);
    let a = seq![8u8, 0u8];
    let b = bytes::be_bytes(identifier as nat, 2) + bytes::be_bytes(sequence as nat, 2);
    let blank = echo_with(8, identifier, sequence, 0);
    assert(blank =~= a + bytes::be_bytes(0, 2) + b);
    let sum = checksum(blank);
    bytes::lemma_be_bytes_len(sum, 2);
    assert(echo_with(8, identifier, sequence, sum) =~= a + bytes::be_bytes(sum, 2) + b);
    assert(word_sum(a) >= 0x800);
    lemma_sum_is_ones(a, b);
    let packet = echo_bytes(source, destination, identifier, sequence, false);
    assert(packet.skip(20) =~= echo_with(8, identifier, sequence, sum));
    assert(packet[20] == packet.skip(20)[0]);
    assert(packet.subrange(26, 28) =~= bytes::be_bytes(sequence as nat, 2));
    let reply = echo_with(0, identifier, sequence, checksum(echo_with(0, identifier, sequence, 0)));
    assert(echo_bytes(source, destination, identifier, sequence, true)[20] == reply[0]);
}

proof fn lemma_address_bytes(address: Ipv4)
    ensures
        ({
            let s = bytes::be_bytes(address.0 as nat, 4);
            s.len() == 4 && Ipv4::made(s[0], s[1], s[2], s[3]) == address
        }),
{
    reveal_with_fuel(bytes::be_bytes, 5);
    let n = address.0 as nat;
    assert(n / 256 / 256 == n / 0x1_0000);
    assert(n / 256 / 256 / 256 == n / 0x100_0000);
}

/// Where a datagram's two addresses stand.
pub proof fn lemma_udp_addresses(source: Endpoint, destination: Endpoint, payload: Seq<u8>)
    ensures
        ({
            let packet = udp_packet(source, destination, payload);
            &&& packet.len() == 28 + payload.len()
            &&& packet[0] / 16 == 4
            &&& Ipv4::made(packet[12], packet[13], packet[14], packet[15]) == source.address
            &&& Ipv4::made(packet[16], packet[17], packet[18], packet[19]) == destination.address
        }),
{
    let total = 28 + payload.len();
    let sum = checksum(
        header_with(total, PROTOCOL_UDP, source.address, destination.address, 0),
    );
    let header = header_with(total, PROTOCOL_UDP, source.address, destination.address, sum);
    bytes::lemma_be_bytes_len(total, 2);
    bytes::lemma_be_bytes_len(sum, 2);
    bytes::lemma_be_bytes_len(source.port as nat, 2);
    bytes::lemma_be_bytes_len(destination.port as nat, 2);
    bytes::lemma_be_bytes_len(8 + payload.len(), 2);
    lemma_address_bytes(source.address);
    lemma_address_bytes(destination.address);
    let a = bytes::be_bytes(source.address.0 as nat, 4);
    let b = bytes::be_bytes(destination.address.0 as nat, 4);
    assert(header.len() == 20);
    assert(header[12] == a[0] && header[13] == a[1] && header[14] == a[2] && header[15] == a[3]);
    assert(header[16] == b[0] && header[17] == b[1] && header[18] == b[2] && header[19] == b[3]);
    let packet = udp_packet(source, destination, payload);
    assert(packet[0] == header[0]);
    assert(packet[12] == header[12] && packet[13] == header[13] && packet[14] == header[14]
        && packet[15] == header[15]);
    assert(packet[16] == header[16] && packet[17] == header[17] && packet[18] == header[18]
        && packet[19] == header[19]);
}

/// An echo reply counts only between the two ends it was asked of, under the
/// identifier it was asked with.
pub proof fn an_echo_reply_is_told_by_its_ends(
    source: Ipv4,
    destination: Ipv4,
    identifier: u16,
    sequence: u16,
    reply: bool,
    from: Ipv4,
    to: Ipv4,
    other: u16,
)
    ensures
        answers_echo(
            echo_bytes(source, destination, identifier, sequence, reply),
            from,
            to,
            other,
        ) <==> reply && source == from && destination == to && identifier == other,
{
    an_echo_is_told_by_its_reply(source, destination, identifier, sequence, other, reply);
    let kind = echo_kind(reply);
    let sum = checksum(echo_with(kind, identifier, sequence, 0));
    lemma_echo(kind, identifier, sequence, sum);
    lemma_header_reads_back(
        28,
        PROTOCOL_ECHO,
        source,
        destination,
        echo_with(kind, identifier, sequence, sum),
    );
}

proof fn lemma_short(packet: Seq<u8>, at: int)
    requires
        0 <= at,
        at + 2 <= packet.len(),
    ensures
        short_at(packet, at) == packet[at] as int * 256 + packet[at + 1] as int,
{
    let two = packet.subrange(at, at + 2);
    assert(two.drop_last() =~= seq![packet[at]]);
    assert(two.drop_last().drop_last() =~= Seq::<u8>::empty());
    assert(bytes::be_value(Seq::<u8>::empty()) == 0);
    assert(bytes::be_value(two.drop_last()) == packet[at]);
    assert(two.last() == packet[at + 1]);
}

/// Only a whole datagram is read: a packet of IPv4 that is all there, is no part
/// of a larger one, carries UDP, and holds as much as the datagram says.
pub proof fn only_a_whole_datagram_is_read(packet: Seq<u8>)
    ensures
        datagram_in(packet) matches Some(datagram) ==> {
            let header = (packet[0] % 16) as int * 4;
            &&& packet.len() >= 28
            &&& packet[0] / 16 == 4
            &&& header >= 20
            &&& packet[2] as int * 256 + packet[3] as int <= packet.len()
            &&& (packet[6] as int * 256 + packet[7] as int) % 0x4000 == 0
            &&& packet[9] == 17
            &&& datagram.payload.len() + 8 == packet[header + 4] as int * 256 + packet[header
                + 5] as int
            &&& header + 8 + datagram.payload.len() <= packet[2] as int * 256 + packet[3] as int
            &&& datagram.source.port == packet[header] as int * 256 + packet[header + 1] as int
            &&& datagram.destination.port == packet[header + 2] as int * 256 + packet[header
                + 3] as int
            &&& datagram.payload == packet.subrange(
                header + 8,
                header + 8 + datagram.payload.len() as int,
            )
        },
{
    if datagram_in(packet) is Some {
        let h = header_length(packet);
        lemma_short(packet, 2);
        lemma_short(packet, 6);
        lemma_short(packet, h);
        lemma_short(packet, h + 2);
        lemma_short(packet, h + 4);
    }
}

} // verus!
