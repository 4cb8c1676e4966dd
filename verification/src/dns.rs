//! Just enough DNS to ask one question and believe the answer.
//!
//! This is not a resolver. It exists so a session can find out, before it
//! configures anything, whether the resolver it is about to point the machine
//! at actually answers. Getting that wrong is worse than the leak it fixes: a
//! machine whose only nameserver is unreachable cannot resolve at all, which
//! the user experiences as the tunnel having broken everything.
//!
//! It only ever reads the answer to a query it built itself, so it can check
//! the fields that prove the answer belongs to that query and ignore the rest
//! of the message.

use vstd::prelude::*;

use crate::bytes;
use crate::net::Ipv4;
use crate::text;

verus! {

/// Standard query, recursion desired.
pub const FLAG_RECURSION_DESIRED: u16 = 0x0100;

pub const TYPE_A: u16 = 1;

pub const CLASS_IN: u16 = 1;

/// The fixed-size part of a DNS message: id, flags and four section counts.
pub const HEADER_LEN: usize = 12;

/// The longest label.
pub const MAX_LABEL: usize = 63;

/// The longest name, in the form it has on the wire.
pub const MAX_NAME: usize = 255;

/// The labels of a name on the wire, each behind its length. Empty labels are
/// left out. `None` where a label is too long.
pub open spec fn wire_labels(labels: Seq<Seq<char>>) -> Option<Seq<u8>>
    decreases labels.len(),
{
    if labels.len() == 0 {
        Some(Seq::<u8>::empty())
    } else {
        match wire_labels(labels.drop_last()) {
            None => None,
            Some(before) => {
                let label = vstd::utf8::encode_utf8(labels.last());
                if labels.last().len() == 0 {
                    Some(before)
                } else if label.len() > MAX_LABEL {
                    None
                } else {
                    Some(before + seq![label.len() as u8] + label)
                }
            },
        }
    }
}

/// What stands before the name: the id, the flags and the count of one
/// question, with nothing in the other three sections.
pub open spec fn query_header(id: u16) -> Seq<u8> {
    bytes::be_bytes(id as nat, 2) + bytes::be_bytes(FLAG_RECURSION_DESIRED as nat, 2)
        + bytes::be_bytes(1, 2) + bytes::be_bytes(0, 6)
}

/// What stands behind the name.
pub open spec fn query_tail() -> Seq<u8> {
    bytes::be_bytes(TYPE_A as nat, 2) + bytes::be_bytes(CLASS_IN as nat, 2)
}

/// An A query for a name, where the name can be encoded: no label is over 63
/// bytes, and the name with the root label that ends it is not over 255.
pub open spec fn query_bytes(id: u16, hostname: Seq<char>) -> Option<Seq<u8>> {
    match wire_labels(text::split_at_char(hostname, '.')) {
        Some(name) if name.len() + 1 <= MAX_NAME => Some(
            query_header(id) + name + seq![0u8] + query_tail(),
        ),
        _ => None,
    }
}

proof fn lemma_long_label(labels: Seq<Seq<char>>, n: int)
    requires
        0 <= n < labels.len(),
        labels[n].len() > 0,
        vstd::utf8::encode_utf8(labels[n]).len() > MAX_LABEL,
    ensures
        wire_labels(labels) is None,
    decreases labels.len(),
{
    if n < labels.len() - 1 {
        lemma_long_label(labels.drop_last(), n);
    }
}

fn encode_name(labels: &Vec<Vec<char>>) -> (r: Option<Vec<u8>>)
    ensures
        match wire_labels(text::views(labels@)) {
            Some(name) => r matches Some(out) && out@ == name,
            None => r is None,
        },
{
    let mut out: Vec<u8> = Vec::new();
    let ghost all = text::views(labels@);
    let mut at: usize = 0;
    assert(all.take(0) =~= Seq::<Seq<char>>::empty());
    assert(out@ =~= Seq::<u8>::empty());
    while at < labels.len()
        invariant
            at <= labels@.len(),
            all == text::views(labels@),
            wire_labels(all.take(at as int)) == Some(out@),
        decreases labels@.len() - at,
    {
        assert(all.take(at + 1).drop_last() =~= all.take(at as int));
        assert(all.take(at + 1).last() == labels@[at as int]@);
        if labels[at].len() > 0 {
            let label = text::string(labels[at].as_slice());
            let data = label.as_str().as_bytes();
            if data.len() > MAX_LABEL {
                proof {
                    lemma_long_label(all, at as int);
                }
                return None;
            }
            let ghost before = out@;
            out.push(data.len() as u8);
            out.extend_from_slice(data);
            assert(out@ =~= before + seq![data@.len() as u8] + data@);
        }
        at = at + 1;
    }
    assert(all.take(at as int) =~= all);
    Some(out)
}

/// Builds an A query for `hostname` tagged with `id`.
///
/// Returns `None` for a name that cannot be encoded -- a label over 63 bytes,
/// or a name over the 255-byte wire limit -- rather than emitting a message a
/// resolver would reject.
pub fn query(id: u16, hostname: &str) -> (r: Option<Vec<u8>>)
    ensures
        match query_bytes(id, hostname@) {
            Some(message) => r matches Some(out) && out@ == message,
            None => r is None,
        },
{
    let labels = text::split(text::chars(hostname).as_slice(), '.');
    match encode_name(&labels) {
        None => None,
        Some(name) => {
            if name.len() >= MAX_NAME {
                return None;
            }
            proof {
                bytes::lemma_byte_ranges();
            }
            let mut message = bytes::to_be(id as u64, 2);
            let mut flags = bytes::to_be(FLAG_RECURSION_DESIRED as u64, 2);
            message.append(&mut flags);
            let mut questions = bytes::to_be(1, 2);
            message.append(&mut questions);
            let mut others = bytes::to_be(0, 6);
            message.append(&mut others);
            assert(message@ =~= query_header(id));
            message.extend_from_slice(name.as_slice());
            // The root label ends the name.
            message.push(0);
            let mut kind = bytes::to_be(TYPE_A as u64, 2);
            message.append(&mut kind);
            let mut class = bytes::to_be(CLASS_IN as u64, 2);
            message.append(&mut class);
            assert(message@ =~= query_header(id) + name@ + seq![0u8] + query_tail());
            Some(message)
        },
    }
}

/// Why a resolver was not accepted, so the log can say which of "it said
/// nothing" and "it said no" happened.
#[derive(Debug, Clone, Copy, PartialEq, Eq, Structural)]
pub enum ResolverVerdict {
    /// The resolver answered this query and reported success.
    Answered,
    /// A DNS message arrived, but not an answer to the query that was asked.
    /// Treated as no answer at all: crediting it would let any stray datagram
    /// vouch for a resolver that never replied.
    Mismatched,
    /// The resolver answered and reported a failure code. It is reachable and
    /// speaking DNS, which is all this needs to decide; whether this one name
    /// exists is not the question being asked.
    Refused { rcode: u16 },
}

/// What a message says of the resolver that the query `id` was sent to. The
/// top bit of the flags marks a response, and their last four bits are its code.
pub open spec fn judged(response: Seq<u8>, id: u16) -> ResolverVerdict {
    if response.len() < HEADER_LEN || bytes::be_value(response.take(2)) != id || response[2]
        < 0x80 {
        ResolverVerdict::Mismatched
    } else if response[3] % 16 == 0 {
        ResolverVerdict::Answered
    } else {
        ResolverVerdict::Refused { rcode: (response[3] % 16) as u16 }
    }
}

/// Whether `response` is this resolver's answer to the query `id` was sent
/// with.
///
/// Deliberately does not parse the answer records. What is being established
/// is that something at that address speaks DNS and is willing to answer *us*;
/// the addresses it returns are the user's business, not this probe's.
pub fn verdict(response: &[u8], id: u16) -> (r: ResolverVerdict)
    ensures
        r == judged(response@, id),
{
    if response.len() < HEADER_LEN {
        return ResolverVerdict::Mismatched;
    }
    proof {
        assert(response@.subrange(0, 2) =~= response@.take(2));
    }
    if bytes::from_be(response, 0, 2) != id as u64 {
        return ResolverVerdict::Mismatched;
    }
    if response[2] < 0x80 {
        return ResolverVerdict::Mismatched;
    }
    let rcode: u8 = response[3] % 16;
    if rcode == 0 {
        ResolverVerdict::Answered
    } else {
        ResolverVerdict::Refused { rcode: rcode as u16 }
    }
}

/// The name the probe asks for.
///
/// A name that certainly exists and is certainly not in any cache the relay
/// was shipped with, so the answer proves a live lookup rather than a canned
/// reply. It is never connected to -- only resolved.
pub const PROBE_HOSTNAME: &'static str = "dns.google";

/// Public resolvers to fall back on when the relay has none of its own: 8.8.8.8
/// and 8.8.4.4, as the numbers that an [`Ipv4`] holds.
///
/// Reached *through* the tunnel, because all-traffic mode routes `0.0.0.0/1`
/// and `128.0.0.0/1` into it, so this is still a great deal better than the
/// machine's own ISP resolver. Google rather than Cloudflare for the reason
/// recorded on [`crate::BENCHMARK_TARGET`]: several national filters blackhole
/// or hijack 1.1.1.1 outright, and a user whose relay is down would then have
/// no working resolver at all.
pub const FALLBACK_RESOLVERS: [u32; 2] = [0x0808_0808, 0x0808_0404];

/// The resolvers to hand the machine, given whether the relay answered.
pub open spec fn resolvers(relay: Option<Ipv4>) -> Seq<Ipv4> {
    match relay {
        Some(relay) => seq![relay, Ipv4(0x0808_0808)],
        None => seq![Ipv4(0x0808_0808), Ipv4(0x0808_0404)],
    }
}

/// The resolvers to hand the machine, given whether the relay answered.
///
/// The relay goes first when it works, and a public resolver still follows it.
/// That second entry is not redundant: the relay resolver can die while a
/// session is up -- the VPS reboots, dnsmasq is restarted, the operator
/// reinstalls -- and without it every name on the machine would stop resolving
/// until the user noticed and reconnected.
pub fn resolver_order(relay: Option<Ipv4>) -> (r: Vec<Ipv4>)
    ensures
        r@ == resolvers(relay),
{
    let mut r: Vec<Ipv4> = Vec::new();
    match relay {
        Some(relay) => {
            r.push(relay);
            r.push(Ipv4(FALLBACK_RESOLVERS[0]));
        },
        None => {
            r.push(Ipv4(FALLBACK_RESOLVERS[0]));
            r.push(Ipv4(FALLBACK_RESOLVERS[1]));
        },
    }
    assert(r@ =~= resolvers(relay));
    r
}

/// The machine is never left without a resolver, and a relay never stands
/// alone: a public resolver follows it.
pub proof fn a_public_resolver_is_always_there(relay: Option<Ipv4>)
    ensures
        resolvers(relay).len() == 2,
        resolvers(relay).contains(Ipv4(0x0808_0808)),
        relay matches Some(first) ==> resolvers(relay)[0] == first,
{
    match relay {
        Some(_) => assert(resolvers(relay)[1] == Ipv4(0x0808_0808)),
        None => assert(resolvers(relay)[0] == Ipv4(0x0808_0808)),
    }
}

/// A query sent back as it was built is not taken for an answer, and no reply
/// with another id is.
pub proof fn only_an_answer_to_the_query_is_credited(
    id: u16,
    hostname: Seq<char>,
    response: Seq<u8>,
)
    ensures
        query_bytes(id, hostname) matches Some(message) ==> judged(message, id)
            == ResolverVerdict::Mismatched,
        judged(response, id) != ResolverVerdict::Mismatched ==> bytes::be_value(response.take(2))
            == id,
{
    match query_bytes(id, hostname) {
        Some(message) => {
            bytes::lemma_be_bytes_len(id as nat, 2);
            bytes::lemma_be_bytes_len(FLAG_RECURSION_DESIRED as nat, 2);
            assert(message[2] == bytes::be_bytes(FLAG_RECURSION_DESIRED as nat, 2)[0]);
            reveal_with_fuel(bytes::be_bytes, 3);
            assert(message[2] == 1);
        },
        None => {},
    }
}

/// A name at the front of some bytes, as a resolver reads it: labels with their
/// lengths in front, up to a length of zero. What follows comes with it.
pub open spec fn name_at_front(data: Seq<u8>) -> Option<(Seq<Seq<u8>>, Seq<u8>)>
    decreases data.len(),
{
    if data.len() == 0 {
        None
    } else {
        let n = data[0] as int;
        if n == 0 {
            Some((Seq::<Seq<u8>>::empty(), data.skip(1)))
        } else if n > 63 || data.len() < 1 + n {
            None
        } else {
            match name_at_front(data.skip(1 + n)) {
                None => None,
                Some((others, rest)) => Some((seq![data.subrange(1, 1 + n)] + others, rest)),
            }
        }
    }
}

/// Labels as the wire carries them.
pub open spec fn encoded(labels: Seq<Seq<char>>) -> Seq<Seq<u8>> {
    labels.map_values(|label: Seq<char>| vstd::utf8::encode_utf8(label))
}

/// How many bytes a name takes on the wire, without the zero at its end.
pub open spec fn wire_length(labels: Seq<Seq<char>>) -> nat
    decreases labels.len(),
{
    if labels.len() == 0 {
        0
    } else {
        wire_length(labels.drop_last()) + 1 + vstd::utf8::encode_utf8(labels.last()).len()
    }
}

/// Whether each label is there and short enough.
pub open spec fn usable_labels(labels: Seq<Seq<char>>) -> bool {
    forall|k: int|
        0 <= k < labels.len() ==> 0 < (#[trigger] labels[k]).len() && vstd::utf8::encode_utf8(
            labels[k],
        ).len() <= 63
}

proof fn lemma_encoded_something(label: Seq<char>)
    requires
        label.len() > 0,
    ensures
        vstd::utf8::encode_utf8(label).len() > 0,
{
    vstd::utf8::encode_utf8_first_scalar(label);
}

proof fn lemma_label_in_front(label: Seq<u8>, rest: Seq<u8>)
    requires
        0 < label.len() <= 63,
        name_at_front(rest) is Some,
    ensures
        name_at_front(seq![label.len() as u8] + label + rest) == Some(
            (seq![label] + (name_at_front(rest)->0).0, (name_at_front(rest)->0).1),
        ),
{
    let data = seq![label.len() as u8] + label + rest;
    let n = label.len() as int;
    assert(data[0] == n);
    assert(data.skip(1 + n) =~= rest);
    assert(data.subrange(1, 1 + n) =~= label);
}

proof fn lemma_labels_in_front(labels: Seq<Seq<char>>, rest: Seq<u8>)
    requires
        usable_labels(labels),
        name_at_front(rest) is Some,
    ensures
        wire_labels(labels) is Some,
        wire_labels(labels)->0.len() == wire_length(labels),
        name_at_front(wire_labels(labels)->0 + rest) == Some(
            (encoded(labels) + (name_at_front(rest)->0).0, (name_at_front(rest)->0).1),
        ),
    decreases labels.len(),
{
    if labels.len() == 0 {
        assert(wire_labels(labels)->0 + rest =~= rest);
        assert(encoded(labels) + (name_at_front(rest)->0).0 =~= (name_at_front(rest)->0).0);
    } else {
        let less = labels.drop_last();
        let last = labels[labels.len() - 1];
        assert(labels.last() == last);
        assert forall|k: int| 0 <= k < less.len() implies 0 < (#[trigger] less[k]).len()
            && vstd::utf8::encode_utf8(less[k]).len() <= 63 by {
            assert(less[k] == labels[k]);
        }
        let label = vstd::utf8::encode_utf8(last);
        lemma_encoded_something(last);
        lemma_label_in_front(label, rest);
        let more = seq![label.len() as u8] + label + rest;
        lemma_labels_in_front(less, more);
        let before = wire_labels(less)->0;
        assert(wire_labels(labels)->0 + rest =~= before + more);
        assert(encoded(labels) =~= encoded(less).push(label));
        assert(encoded(less) + (seq![label] + (name_at_front(rest)->0).0) =~= encoded(labels)
            + (name_at_front(rest)->0).0);
    }
}

/// A resolver reads the question that was asked: one question, with recursion
/// wanted, under the id, for the labels of the name in order, for an address of
/// the Internet. A name that does not fit is not asked for.
pub proof fn a_question_reads_back(id: u16, labels: Seq<Seq<char>>)
    requires
        labels.len() > 0,
        usable_labels(labels),
        forall|k: int, i: int|
            #![trigger labels[k][i]]
            0 <= k < labels.len() && 0 <= i < labels[k].len() ==> labels[k][i] != '.',
    ensures
        match query_bytes(id, text::separated(labels, seq!['.'])) {
            Some(message) => {
                &&& wire_length(labels) <= 254
                &&& message.len() == wire_length(labels) + 17
                &&& message[0] as int * 256 + message[1] as int == id
                &&& message.subrange(2, 12) == seq![
                    1u8,
                    0u8,
                    0u8,
                    1u8,
                    0u8,
                    0u8,
                    0u8,
                    0u8,
                    0u8,
                    0u8,
                ]
                &&& name_at_front(message.skip(12)) == Some(
                    (encoded(labels), seq![0u8, 1u8, 0u8, 1u8]),
                )
            },
            None => wire_length(labels) > 254,
        },
{
    let hostname = text::separated(labels, seq!['.']);
    text::lemma_split_undoes_join(labels, '.');
    let tail = query_tail();
    let rest = seq![0u8] + tail;
    lemma_fixed_parts(id);
    assert(rest.skip(1) =~= tail);
    lemma_labels_in_front(labels, rest);
    let name = wire_labels(labels)->0;
    if let Some(message) = query_bytes(id, hostname) {
        assert(message =~= query_header(id) + (name + rest));
        assert(message.skip(12) =~= name + rest);
        assert(message.subrange(2, 12) =~= query_header(id).subrange(2, 12));
        assert(message[0] == query_header(id)[0] && message[1] == query_header(id)[1]);
        assert(encoded(labels) + Seq::<Seq<u8>>::empty() =~= encoded(labels));
    }
}

proof fn lemma_fixed_parts(id: u16)
    ensures
        query_header(id).len() == 12,
        query_header(id)[0] as int * 256 + query_header(id)[1] as int == id,
        query_header(id).subrange(2, 12) == seq![
            1u8,
            0u8,
            0u8,
            1u8,
            0u8,
            0u8,
            0u8,
            0u8,
            0u8,
            0u8,
        ],
        query_tail() == seq![0u8, 1u8, 0u8, 1u8],
{
    reveal_with_fuel(bytes::be_bytes, 7);
    let head = query_header(id);
    assert(bytes::be_bytes(id as nat, 2) =~= seq![
        ((id as nat / 256) % 256) as u8,
        (id as nat % 256) as u8,
    ]);
    assert(bytes::be_bytes(0x100, 2) =~= seq![1u8, 0u8]);
    assert(bytes::be_bytes(1, 2) =~= seq![0u8, 1u8]);
    assert(bytes::be_bytes(0, 6) =~= seq![0u8, 0u8, 0u8, 0u8, 0u8, 0u8]);
    assert(head.subrange(2, 12) =~= seq![1u8, 0u8, 0u8, 1u8, 0u8, 0u8, 0u8, 0u8, 0u8, 0u8]);
    assert(query_tail() =~= seq![0u8, 1u8, 0u8, 1u8]);
}

/// A response counts where it holds a header, carries the id and is marked as a
/// response; the low half of its fourth byte tells success from refusal.
pub proof fn a_response_is_told_by_its_header(response: Seq<u8>, id: u16)
    ensures
        response.len() < 12 ==> judged(response, id) == ResolverVerdict::Mismatched,
        response.len() >= 12 ==> {
            let own = response[0] as int * 256 + response[1] as int == id;
            let marked = response[2] >= 128;
            let code = (response[3] % 16) as u16;
            &&& !own || !marked ==> judged(response, id) == ResolverVerdict::Mismatched
            &&& own && marked && code == 0 ==> judged(response, id) == ResolverVerdict::Answered
            &&& own && marked && code != 0 ==> judged(response, id) == (ResolverVerdict::Refused {
                rcode: code,
            })
        },
{
    if response.len() >= 12 {
        let two = response.take(2);
        assert(two.drop_last() =~= seq![response[0]]);
        assert(two.drop_last().drop_last() =~= Seq::<u8>::empty());
        assert(bytes::be_value(Seq::<u8>::empty()) == 0);
        assert(bytes::be_value(two.drop_last()) == response[0]);
        assert(two.last() == response[1]);
    }
}

} // verus!
