//! Big-endian integers and byte strings.

use vstd::prelude::*;

verus! {

/// The number that a big-endian byte string stands for.
pub open spec fn be_value(s: Seq<u8>) -> nat
    decreases s.len(),
{
    if s.len() == 0 {
        0
    } else {
        be_value(s.drop_last()) * 256 + s.last() as nat
    }
}

/// The `count` low bytes of `value`, most significant first.
pub open spec fn be_bytes(value: nat, count: nat) -> Seq<u8>
    decreases count,
{
    if count == 0 {
        Seq::<u8>::empty()
    } else {
        be_bytes(value / 256, (count - 1) as nat).push((value % 256) as u8)
    }
}

/// How many values `count` bytes can hold.
pub open spec fn byte_range(count: nat) -> nat
    decreases count,
{
    if count == 0 {
        1
    } else {
        256 * byte_range((count - 1) as nat)
    }
}

pub proof fn lemma_be_bytes_len(value: nat, count: nat)
    ensures
        be_bytes(value, count).len() == count,
    decreases count,
{
    if count > 0 {
        lemma_be_bytes_len(value / 256, (count - 1) as nat);
    }
}

pub proof fn lemma_be_value_bound(s: Seq<u8>)
    ensures
        be_value(s) < byte_range(s.len()),
    decreases s.len(),
{
    if s.len() > 0 {
        lemma_be_value_bound(s.drop_last());
    }
}

/// Reading back what was written gives the number that was written.
pub proof fn lemma_be_round_trip(value: nat, count: nat)
    requires
        value < byte_range(count),
    ensures
        be_value(be_bytes(value, count)) == value,
    decreases count,
{
    if count > 0 {
        lemma_be_round_trip(value / 256, (count - 1) as nat);
        assert(be_bytes(value, count).drop_last() =~= be_bytes(value / 256, (count - 1) as nat));
    }
}

/// Writing what was read gives the bytes that were read.
pub proof fn lemma_be_read_write(s: Seq<u8>)
    ensures
        be_bytes(be_value(s), s.len()) == s,
    decreases s.len(),
{
    if s.len() > 0 {
        lemma_be_read_write(s.drop_last());
        assert(s =~= s.drop_last().push(s.last()));
    } else {
        assert(s =~= Seq::<u8>::empty());
    }
}

pub proof fn lemma_byte_ranges()
    ensures
        byte_range(1) == 0x100,
        byte_range(2) == 0x1_0000,
        byte_range(4) == 0x1_0000_0000,
        byte_range(8) == 0x1_0000_0000_0000_0000,
{
    reveal_with_fuel(byte_range, 9);
}

/// The `count` low bytes of `value`, most significant first.
pub fn to_be(value: u64, count: usize) -> (out: Vec<u8>)
    ensures
        out@ == be_bytes(value as nat, count as nat),
    decreases count,
{
    if count == 0 {
        Vec::new()
    } else {
        let mut out = to_be(value / 256, count - 1);
        out.push((value % 256) as u8);
        out
    }
}

/// The number held by the bytes from `start` up to `end`.
pub fn from_be(data: &[u8], start: usize, end: usize) -> (value: u64)
    requires
        start <= end <= data@.len(),
        end - start <= 8,
    ensures
        value == be_value(data@.subrange(start as int, end as int)),
        value < byte_range((end - start) as nat),
{
    let mut value: u64 = 0;
    let mut at: usize = start;
    while at < end
        invariant
            start <= at <= end <= data@.len(),
            end - start <= 8,
            value == be_value(data@.subrange(start as int, at as int)),
            value < byte_range((at - start) as nat),
        decreases end - at,
    {
        proof {
            assert(byte_range((at - start) as nat) <= byte_range(7)) by {
                reveal_with_fuel(byte_range, 9);
            }
            assert(byte_range(7) == 0x100_0000_0000_0000) by {
                reveal_with_fuel(byte_range, 9);
            }
            assert(data@.subrange(start as int, at + 1).drop_last() =~= data@.subrange(
                start as int,
                at as int,
            ));
        }
        value = value * 256 + data[at] as u64;
        at = at + 1;
    }
    value
}

/// `out` with its bytes replaced by those of `data`.
pub fn filled<const N: usize>(out: [u8; N], data: &[u8]) -> (r: [u8; N])
    requires
        data@.len() == N,
    ensures
        r@ == data@,
{
    let mut r = out;
    let mut at: usize = 0;
    while at < N
        invariant
            at <= N,
            data@.len() == N,
            forall|i: int| 0 <= i < at ==> r@[i] == data@[i],
        decreases N - at,
    {
        r[at] = data[at];
        at = at + 1;
    }
    assert(r@ =~= data@);
    r
}

/// Byte strings laid end to end.
pub open spec fn joined(parts: Seq<Seq<u8>>) -> Seq<u8>
    decreases parts.len(),
{
    if parts.len() == 0 {
        Seq::<u8>::empty()
    } else {
        joined(parts.drop_last()) + parts.last()
    }
}

/// The contents of a list of slices.
pub open spec fn contents(parts: Seq<&[u8]>) -> Seq<Seq<u8>> {
    Seq::new(parts.len(), |i: int| parts[i]@)
}

/// Lays slices end to end.
pub fn join(parts: &[&[u8]]) -> (out: Vec<u8>)
    ensures
        out@ == joined(contents(parts@)),
{
    let mut out: Vec<u8> = Vec::new();
    let mut at: usize = 0;
    while at < parts.len()
        invariant
            at <= parts@.len(),
            out@ == joined(contents(parts@).take(at as int)),
        decreases parts@.len() - at,
    {
        proof {
            assert(contents(parts@).take(at + 1).drop_last() =~= contents(parts@).take(at as int));
        }
        out.extend_from_slice(parts[at]);
        at = at + 1;
    }
    assert(contents(parts@).take(at as int) =~= contents(parts@));
    out
}

/// Whether two byte strings are equal, looking at every byte of both whatever
/// the first difference is.
pub fn constant_time_eq(left: &[u8], right: &[u8]) -> (same: bool)
    ensures
        same == (left@ == right@),
{
    if left.len() != right.len() {
        return false;
    }
    let mut difference: u8 = 0;
    assert(left@.take(0) =~= right@.take(0));
    let mut at: usize = 0;
    while at < left.len()
        invariant
            at <= left@.len(),
            left@.len() == right@.len(),
            difference == 0 <==> left@.take(at as int) == right@.take(at as int),
        decreases left@.len() - at,
    {
        let a: u8 = left[at];
        let b: u8 = right[at];
        proof {
            assert(difference | (a ^ b) == 0 <==> difference == 0 && a == b) by (bit_vector);
            assert(left@.take(at + 1) =~= left@.take(at as int).push(a));
            assert(right@.take(at + 1) =~= right@.take(at as int).push(b));
            if left@.take(at + 1) == right@.take(at + 1) {
                assert(left@.take(at as int) =~= left@.take(at + 1).drop_last());
                assert(right@.take(at as int) =~= right@.take(at + 1).drop_last());
                assert(left@.take(at + 1).last() == a);
                assert(right@.take(at + 1).last() == b);
            }
        }
        difference = difference | (a ^ b);
        at = at + 1;
    }
    assert(left@.take(at as int) =~= left@);
    assert(right@.take(at as int) =~= right@);
    difference == 0
}

pub proof fn lemma_joined2(a: Seq<u8>, b: Seq<u8>)
    ensures
        joined(seq![a, b]) == a + b,
{
    reveal_with_fuel(joined, 3);
    assert(seq![a, b].drop_last() =~= seq![a]);
    assert(seq![a].drop_last() =~= Seq::<Seq<u8>>::empty());
    assert(joined(seq![a, b]) =~= a + b);
}

pub proof fn lemma_joined4(a: Seq<u8>, b: Seq<u8>, c: Seq<u8>, d: Seq<u8>)
    ensures
        joined(seq![a, b, c, d]) == a + b + c + d,
{
    lemma_joined2(a, b);
    assert(seq![a, b, c, d].drop_last() =~= seq![a, b, c]);
    assert(seq![a, b, c].drop_last() =~= seq![a, b]);
    reveal_with_fuel(joined, 3);
}

} // verus!
