//! The frames that the client and the relay exchange.

use vstd::prelude::*;
use vstd::slice::slice_subrange;

use crate::bytes;

verus! {

pub const MAGIC: u32 = 0x4750_5448;

pub const VERSION: u8 = 1;

pub const HEADER_LEN: usize = 40;

pub const FLAG_CONTROL: u8 = 1;

pub const FLAG_SERVER_TO_CLIENT: u8 = 2;

/// The letters of a probe.
pub open spec fn ping_word() -> Seq<u8> {
    seq![112u8, 105u8, 110u8, 103u8]
}

/// The letters of a probe's reply.
pub open spec fn pong_word() -> Seq<u8> {
    seq![112u8, 111u8, 110u8, 103u8]
}

/// The request that probe `sequence` sends.
pub open spec fn request_bytes(sequence: u64) -> Seq<u8> {
    ping_word() + bytes::be_bytes(sequence as nat, 8)
}

/// The response that a request gets, if it is a probe.
pub open spec fn response_bytes(request: Seq<u8>) -> Option<Seq<u8>> {
    if request == ping_word() || (request.len() == 12 && request.take(4) == ping_word()) {
        Some(pong_word() + request.skip(4))
    } else {
        None
    }
}

/// Whether a reply answers probe `sequence`. An untagged reply answers any
/// probe, where untagged replies are still allowed.
pub open spec fn answers(reply: Seq<u8>, sequence: u64, allow_legacy: bool) -> bool {
    (allow_legacy && reply == pong_word()) || reply == pong_word() + bytes::be_bytes(
        sequence as nat,
        8,
    )
}

/// Whether the first four bytes are these.
fn begins(data: &[u8], a: u8, b: u8, c: u8, d: u8) -> (r: bool)
    ensures
        r == (data@.len() >= 4 && data@.take(4) == seq![a, b, c, d]),
{
    if data.len() < 4 {
        return false;
    }
    let r: bool = data[0] == a && data[1] == b && data[2] == c && data[3] == d;
    proof {
        let word = seq![a, b, c, d];
        assert(data@.take(4)[0] == data@[0] && data@.take(4)[1] == data@[1]);
        assert(data@.take(4)[2] == data@[2] && data@.take(4)[3] == data@[3]);
        assert(word[0] == a && word[1] == b && word[2] == c && word[3] == d);
        if r {
            assert(data@.take(4) =~= word);
        }
    }
    r
}

/// Echo the request identity in the payload, not the encrypted frame sequence:
/// server sequences are independent and must remain unique for AEAD nonces.
pub fn probe_request(sequence: u64) -> (payload: Vec<u8>)
    ensures
        payload@ == request_bytes(sequence),
{
    let mut payload: Vec<u8> = vec![112u8, 105u8, 110u8, 103u8];
    let tag = bytes::to_be(sequence, 8);
    payload.extend_from_slice(tag.as_slice());
    assert(payload@ =~= request_bytes(sequence));
    payload
}

/// Retains the original response for clients that send an untagged ping.
pub fn probe_response(request: &[u8]) -> (r: Option<Vec<u8>>)
    ensures
        match response_bytes(request@) {
            Some(response) => r matches Some(found) && found@ == response,
            None => r is None,
        },
{
    let ping: bool = begins(request, 112, 105, 110, 103);
    proof {
        if request@.len() == 4 {
            assert(request@.take(4) =~= request@);
        }
    }
    if !ping || (request.len() != 4 && request.len() != 12) {
        return None;
    }
    let mut response: Vec<u8> = vec![112u8, 111u8, 110u8, 103u8];
    response.extend_from_slice(slice_subrange(request, 4, request.len()));
    assert(response@ =~= pong_word() + request@.skip(4));
    Some(response)
}

/// A legacy response cannot identify its request. Once a relay demonstrates
/// support for tagged responses, never accept an untagged one again.
pub fn probe_reply_matches(reply: &[u8], sequence: u64, allow_legacy: bool) -> (r: bool)
    ensures
        r == answers(reply@, sequence, allow_legacy),
{
    let pong: bool = begins(reply, 112, 111, 110, 103);
    let ghost tag = bytes::be_bytes(sequence as nat, 8);
    proof {
        bytes::lemma_be_bytes_len(sequence as nat, 8);
        bytes::lemma_byte_ranges();
        bytes::lemma_be_round_trip(sequence as nat, 8);
        assert((pong_word() + tag).take(4) =~= pong_word());
    }
    if !pong {
        proof {
            if reply@ == pong_word() {
                assert(reply@.take(4) =~= reply@);
            }
        }
        return false;
    }
    if reply.len() == 4 {
        assert(reply@.take(4) =~= reply@);
        return allow_legacy;
    }
    if reply.len() != 12 {
        return false;
    }
    let found: u64 = bytes::from_be(reply, 4, 12);
    proof {
        let rest = reply@.subrange(4, 12);
        bytes::lemma_be_read_write(rest);
        assert(reply@ =~= reply@.take(4) + rest);
        if reply@ == pong_word() + tag {
            assert((pong_word() + tag).subrange(4, 12) =~= tag);
        }
    }
    found == sequence
}

#[derive(Debug, Clone, Copy, PartialEq, Eq)]
pub struct FrameHeader {
    pub flags: u8,
    pub client_id: [u8; 16],
    pub session_id: u64,
    pub sequence: u64,
}

/// What a frame's header says.
#[verifier::ext_equal]
pub struct HeaderModel {
    pub flags: u8,
    pub client_id: Seq<u8>,
    pub session_id: u64,
    pub sequence: u64,
}

#[derive(Debug, Clone, Copy, PartialEq, Eq, Structural)]
pub enum DecodeError {
    TooShort,
    InvalidMagic,
    UnsupportedVersion,
    InvalidHeaderLength,
}

impl DecodeError {
    pub open spec fn word(self) -> Seq<char> {
        match self {
            DecodeError::TooShort => "TooShort"@,
            DecodeError::InvalidMagic => "InvalidMagic"@,
            DecodeError::UnsupportedVersion => "UnsupportedVersion"@,
            DecodeError::InvalidHeaderLength => "InvalidHeaderLength"@,
        }
    }

    pub fn name(self) -> (r: &'static str)
        ensures
            r@ == self.word(),
    {
        match self {
            DecodeError::TooShort => "TooShort",
            DecodeError::InvalidMagic => "InvalidMagic",
            DecodeError::UnsupportedVersion => "UnsupportedVersion",
            DecodeError::InvalidHeaderLength => "InvalidHeaderLength",
        }
    }
}

/// A header on the wire.
pub open spec fn header_bytes(header: HeaderModel) -> Seq<u8> {
    bytes::be_bytes(MAGIC as nat, 4) + seq![VERSION, header.flags] + bytes::be_bytes(
        HEADER_LEN as nat,
        2,
    ) + header.client_id + bytes::be_bytes(header.session_id as nat, 8) + bytes::be_bytes(
        header.sequence as nat,
        8,
    )
}

/// The header that a frame begins with.
pub open spec fn header_of(frame: Seq<u8>) -> Result<HeaderModel, DecodeError> {
    if frame.len() < HEADER_LEN {
        Err(DecodeError::TooShort)
    } else if bytes::be_value(frame.subrange(0, 4)) != MAGIC {
        Err(DecodeError::InvalidMagic)
    } else if frame[4] != VERSION {
        Err(DecodeError::UnsupportedVersion)
    } else if bytes::be_value(frame.subrange(6, 8)) != HEADER_LEN {
        Err(DecodeError::InvalidHeaderLength)
    } else {
        Ok(
            HeaderModel {
                flags: frame[5],
                client_id: frame.subrange(8, 24),
                session_id: bytes::be_value(frame.subrange(24, 32)) as u64,
                sequence: bytes::be_value(frame.subrange(32, 40)) as u64,
            },
        )
    }
}

impl FrameHeader {
    pub open spec fn model(&self) -> HeaderModel {
        HeaderModel {
            flags: self.flags,
            client_id: self.client_id@,
            session_id: self.session_id,
            sequence: self.sequence,
        }
    }

    pub fn encode(self) -> (r: [u8; 40])
        ensures
            r@ == header_bytes(self.model()),
    {
        let mut out = bytes::to_be(MAGIC as u64, 4);
        out.push(VERSION);
        out.push(self.flags);
        let size = bytes::to_be(HEADER_LEN as u64, 2);
        out.extend_from_slice(size.as_slice());
        out.extend_from_slice(self.client_id.as_slice());
        let session = bytes::to_be(self.session_id, 8);
        out.extend_from_slice(session.as_slice());
        let sequence = bytes::to_be(self.sequence, 8);
        out.extend_from_slice(sequence.as_slice());
        proof {
            bytes::lemma_be_bytes_len(MAGIC as nat, 4);
            bytes::lemma_be_bytes_len(HEADER_LEN as nat, 2);
            bytes::lemma_be_bytes_len(self.session_id as nat, 8);
            bytes::lemma_be_bytes_len(self.sequence as nat, 8);
            assert(out@ =~= header_bytes(self.model()));
        }
        bytes::filled([0u8; 40], out.as_slice())
    }

    pub fn decode(data: &[u8]) -> (r: Result<Self, DecodeError>)
        ensures
            match header_of(data@) {
                Ok(model) => r matches Ok(header) && header.model() == model,
                Err(error) => r == Err::<Self, DecodeError>(error),
            },
    {
        if data.len() < HEADER_LEN {
            return Err(DecodeError::TooShort);
        }
        if bytes::from_be(data, 0, 4) != MAGIC as u64 {
            return Err(DecodeError::InvalidMagic);
        }
        if data[4] != VERSION {
            return Err(DecodeError::UnsupportedVersion);
        }
        if bytes::from_be(data, 6, 8) != HEADER_LEN as u64 {
            return Err(DecodeError::InvalidHeaderLength);
        }
        Ok(
            FrameHeader {
                flags: data[5],
                client_id: bytes::filled([0u8; 16], slice_subrange(data, 8, 24)),
                session_id: bytes::from_be(data, 24, 32),
                sequence: bytes::from_be(data, 32, 40),
            },
        )
    }
}

/// A header reads back as it was written, whatever follows it.
pub proof fn a_header_reads_back(header: HeaderModel, rest: Seq<u8>)
    requires
        header.client_id.len() == 16,
    ensures
        header_bytes(header).len() == HEADER_LEN,
        header_of(header_bytes(header) + rest) == Ok::<HeaderModel, DecodeError>(header),
{
    let frame = header_bytes(header) + rest;
    bytes::lemma_byte_ranges();
    bytes::lemma_be_bytes_len(MAGIC as nat, 4);
    bytes::lemma_be_bytes_len(HEADER_LEN as nat, 2);
    bytes::lemma_be_bytes_len(header.session_id as nat, 8);
    bytes::lemma_be_bytes_len(header.sequence as nat, 8);
    bytes::lemma_be_round_trip(MAGIC as nat, 4);
    bytes::lemma_be_round_trip(HEADER_LEN as nat, 2);
    bytes::lemma_be_round_trip(header.session_id as nat, 8);
    bytes::lemma_be_round_trip(header.sequence as nat, 8);
    assert(frame.subrange(0, 4) =~= bytes::be_bytes(MAGIC as nat, 4));
    assert(frame.subrange(6, 8) =~= bytes::be_bytes(HEADER_LEN as nat, 2));
    assert(frame.subrange(8, 24) =~= header.client_id);
    assert(frame.subrange(24, 32) =~= bytes::be_bytes(header.session_id as nat, 8));
    assert(frame.subrange(32, 40) =~= bytes::be_bytes(header.sequence as nat, 8));
}

/// A tagged probe is answered by exactly one reply: the response to probe
/// `sequence` answers that probe and no other, and a delayed one cannot answer
/// the next.
pub proof fn a_tagged_reply_answers_only_its_own_probe(
    sequence: u64,
    other: u64,
    allow_legacy: bool,
)
    ensures
        response_bytes(request_bytes(sequence)) is Some,
        answers(response_bytes(request_bytes(sequence))->0, other, allow_legacy) <==> sequence
            == other,
{
    let tag = bytes::be_bytes(sequence as nat, 8);
    let other_tag = bytes::be_bytes(other as nat, 8);
    bytes::lemma_byte_ranges();
    bytes::lemma_be_bytes_len(sequence as nat, 8);
    bytes::lemma_be_bytes_len(other as nat, 8);
    bytes::lemma_be_round_trip(sequence as nat, 8);
    bytes::lemma_be_round_trip(other as nat, 8);
    let request = request_bytes(sequence);
    assert(request.take(4) =~= ping_word());
    assert(request.skip(4) =~= tag);
    let reply = pong_word() + tag;
    if reply == pong_word() + other_tag {
        assert(reply.skip(4) =~= tag);
        assert((pong_word() + other_tag).skip(4) =~= other_tag);
    }
}

/// Once untagged replies are no longer allowed, an untagged reply answers
/// nothing.
pub proof fn a_tagged_peer_is_never_downgraded(sequence: u64)
    ensures
        !answers(pong_word(), sequence, false),
{
    bytes::lemma_be_bytes_len(sequence as nat, 8);
}

/// How a header lies on the wire: the letters `GPTH`, the version, the flags,
/// its own length, the client, the session and the sequence, each number with
/// its high byte first.
pub proof fn a_header_is_laid_out(header: HeaderModel)
    requires
        header.client_id.len() == 16,
    ensures
        ({
            let head = header_bytes(header);
            &&& head.len() == 40
            &&& head[0] == 0x47 && head[1] == 0x50 && head[2] == 0x54 && head[3] == 0x48
            &&& head[4] == 1
            &&& head[5] == header.flags
            &&& head[6] == 0 && head[7] == 40
            &&& head.subrange(8, 24) == header.client_id
            &&& bytes::be_value(head.subrange(24, 32)) == header.session_id
            &&& bytes::be_value(head.subrange(32, 40)) == header.sequence
        }),
{
    let head = header_bytes(header);
    bytes::lemma_byte_ranges();
    bytes::lemma_be_bytes_len(MAGIC as nat, 4);
    bytes::lemma_be_bytes_len(HEADER_LEN as nat, 2);
    bytes::lemma_be_bytes_len(header.session_id as nat, 8);
    bytes::lemma_be_bytes_len(header.sequence as nat, 8);
    bytes::lemma_be_round_trip(header.session_id as nat, 8);
    bytes::lemma_be_round_trip(header.sequence as nat, 8);
    let magic = bytes::be_bytes(MAGIC as nat, 4);
    let size = bytes::be_bytes(HEADER_LEN as nat, 2);
    assert(head.subrange(8, 24) =~= header.client_id);
    assert(head.subrange(24, 32) =~= bytes::be_bytes(header.session_id as nat, 8));
    assert(head.subrange(32, 40) =~= bytes::be_bytes(header.sequence as nat, 8));
    assert(head[0] == magic[0] && head[1] == magic[1] && head[2] == magic[2] && head[3]
        == magic[3]);
    assert(head[6] == size[0] && head[7] == size[1]);
    lemma_magic_bytes();
}

proof fn lemma_magic_bytes()
    ensures
        bytes::be_bytes(0x4750_5448, 4) == seq![0x47u8, 0x50u8, 0x54u8, 0x48u8],
        bytes::be_bytes(40, 2) == seq![0u8, 40u8],
{
    reveal_with_fuel(bytes::be_bytes, 5);
    assert(0x4750_5448nat / 256 == 0x47_5054);
    assert(0x47_5054nat / 256 == 0x4750);
    assert(bytes::be_bytes(0x4750_5448, 4) =~= seq![0x47u8, 0x50u8, 0x54u8, 0x48u8]);
    assert(bytes::be_bytes(40, 2) =~= seq![0u8, 40u8]);
}

/// A frame is read exactly where it begins with those letters, that version and
/// that length, and holds a whole header.
pub proof fn only_a_whole_header_is_read(frame: Seq<u8>)
    ensures
        header_of(frame) is Ok <==> frame.len() >= 40 && bytes::be_value(frame.subrange(0, 4))
            == 0x4750_5448 && frame[4] == 1 && bytes::be_value(frame.subrange(6, 8)) == 40,
        frame.len() < 40 ==> header_of(frame) == Err::<HeaderModel, DecodeError>(
            DecodeError::TooShort,
        ),
        header_of(frame) matches Ok(header) ==> header.client_id == frame.subrange(8, 24)
            && header.session_id == bytes::be_value(frame.subrange(24, 32)) as u64
            && header.sequence == bytes::be_value(frame.subrange(32, 40)) as u64 && header.flags
            == frame[5],
{
}

/// A probe is the word `ping` and its number; its answer is the word `pong` and
/// the same number, and nothing else is answered but the bare word.
pub proof fn a_probe_is_answered_with_its_number(sequence: u64, request: Seq<u8>)
    ensures
        request_bytes(sequence).len() == 12,
        request_bytes(sequence).take(4) == seq![0x70u8, 0x69u8, 0x6eu8, 0x67u8],
        bytes::be_value(request_bytes(sequence).skip(4)) == sequence,
        response_bytes(request) matches Some(reply) ==> reply.len() == request.len()
            && reply.take(4) == seq![0x70u8, 0x6fu8, 0x6eu8, 0x67u8] && reply.skip(4)
            == request.skip(4),
        response_bytes(request) is Some <==> (request.len() == 4 || request.len() == 12)
            && request.take(4) == seq![0x70u8, 0x69u8, 0x6eu8, 0x67u8],
{
    bytes::lemma_byte_ranges();
    bytes::lemma_be_bytes_len(sequence as nat, 8);
    bytes::lemma_be_round_trip(sequence as nat, 8);
    assert(request_bytes(sequence).take(4) =~= ping_word());
    assert(request_bytes(sequence).skip(4) =~= bytes::be_bytes(sequence as nat, 8));
    if request.len() == 4 {
        assert(request.take(4) =~= request);
    }
    if let Some(reply) = response_bytes(request) {
        assert(request.len() >= 4);
        assert(reply.take(4) =~= pong_word());
        assert(reply.skip(4) =~= request.skip(4));
    }
}

/// What counts as the answer to a probe: the word `pong` with the probe's number,
/// and the bare word only while that is allowed.
pub proof fn what_answers_a_probe(reply: Seq<u8>, sequence: u64, allow_legacy: bool)
    ensures
        answers(reply, sequence, allow_legacy) <==> reply.len() >= 4 && reply.take(4) == seq![
            0x70u8,
            0x6fu8,
            0x6eu8,
            0x67u8,
        ] && ((reply.len() == 12 && bytes::be_value(reply.skip(4)) == sequence) || (reply.len() == 4
            && allow_legacy)),
{
    let pong = pong_word();
    let tag = bytes::be_bytes(sequence as nat, 8);
    bytes::lemma_byte_ranges();
    bytes::lemma_be_bytes_len(sequence as nat, 8);
    bytes::lemma_be_round_trip(sequence as nat, 8);
    assert((pong + tag).take(4) =~= pong);
    assert((pong + tag).skip(4) =~= tag);
    if reply == pong {
        assert(reply.take(4) =~= pong);
    }
    if reply.len() == 4 && reply.take(4) == pong {
        assert(reply =~= pong);
    }
    if reply.len() == 12 && reply.take(4) == pong && bytes::be_value(reply.skip(4)) == sequence {
        bytes::lemma_be_read_write(reply.skip(4));
        assert(reply =~= pong + reply.skip(4));
    }
}

} // verus!
