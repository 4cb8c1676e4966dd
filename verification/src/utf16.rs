//! Texts as the 16-bit units that the operating system's interfaces take.

use vstd::prelude::*;

use crate::text;

verus! {

/// `char::from_u32`: the character that has this code point, where one has.
pub assume_specification[ char::from_u32 ](i: u32) -> (r: Option<char>)
    ensures
        r is Some <==> (i < 0xd800 || 0xe000 <= i < 0x11_0000),
        r matches Some(c) ==> c as u32 == i,
;

/// The units of one character: itself, or two surrogates where it does not fit.
pub open spec fn units_of(c: char) -> Seq<u16> {
    let code = c as u32;
    if code < 0x1_0000 {
        seq![code as u16]
    } else {
        seq![
            (0xd800 + (code - 0x1_0000) / 0x400) as u16,
            (0xdc00 + (code - 0x1_0000) % 0x400) as u16,
        ]
    }
}

/// The units of a text.
pub open spec fn encoded(s: Seq<char>) -> Seq<u16>
    decreases s.len(),
{
    if s.len() == 0 {
        Seq::<u16>::empty()
    } else {
        encoded(s.drop_last()) + units_of(s.last())
    }
}

pub fn encode(s: &str) -> (r: Vec<u16>)
    ensures
        r@ == encoded(s@),
{
    let chars = text::chars(s);
    let mut r: Vec<u16> = Vec::new();
    let mut at: usize = 0;
    assert(chars@.take(0) =~= Seq::<char>::empty());
    assert(r@ =~= Seq::<u16>::empty());
    while at < chars.len()
        invariant
            at <= chars@.len(),
            r@ == encoded(chars@.take(at as int)),
        decreases chars@.len() - at,
    {
        assert(chars@.take(at + 1).drop_last() =~= chars@.take(at as int));
        let ghost before = r@;
        let code: u32 = chars[at] as u32;
        if code < 0x1_0000 {
            r.push(code as u16);
            assert(r@ =~= before + units_of(chars@[at as int]));
        } else {
            let rest: u32 = code - 0x1_0000;
            r.push((0xd800 + rest / 0x400) as u16);
            r.push((0xdc00 + rest % 0x400) as u16);
            assert(r@ =~= before + units_of(chars@[at as int]));
        }
        at = at + 1;
    }
    assert(chars@.take(at as int) =~= chars@);
    r
}

pub open spec fn is_high(unit: u16) -> bool {
    0xd800 <= unit < 0xdc00
}

pub open spec fn is_low(unit: u16) -> bool {
    0xdc00 <= unit < 0xe000
}

/// The code point of two surrogates.
pub open spec fn paired(high: u16, low: u16) -> int {
    0x1_0000 + (high - 0xd800) * 0x400 + (low - 0xdc00)
}

/// The text of some units. A surrogate without its other half stands for the
/// replacement character.
pub open spec fn decoded(units: Seq<u16>) -> Seq<char>
    decreases units.len(),
{
    if units.len() == 0 {
        Seq::<char>::empty()
    } else if is_high(units[0]) && units.len() > 1 && is_low(units[1]) {
        seq![paired(units[0], units[1]) as char] + decoded(units.skip(2))
    } else if is_high(units[0]) || is_low(units[0]) {
        seq!['\u{fffd}'] + decoded(units.skip(1))
    } else {
        seq![units[0] as char] + decoded(units.skip(1))
    }
}

/// The character of a code point, or the replacement character.
fn character(code: u32) -> (c: char)
    requires
        code < 0xd800 || 0xe000 <= code < 0x11_0000,
    ensures
        c as u32 == code,
{
    match char::from_u32(code) {
        Some(c) => c,
        None => '\u{fffd}',
    }
}

pub fn decode(units: &[u16]) -> (r: String)
    ensures
        r@ == decoded(units@),
{
    let mut chars: Vec<char> = Vec::new();
    let mut at: usize = 0;
    assert(chars@ + decoded(units@.skip(0)) =~= decoded(units@)) by {
        assert(units@.skip(0) =~= units@);
    }
    while at < units.len()
        invariant
            at <= units@.len(),
            chars@ + decoded(units@.skip(at as int)) == decoded(units@),
        decreases units@.len() - at,
    {
        let ghost rest = units@.skip(at as int);
        let ghost before = chars@;
        assert(rest[0] == units@[at as int]);
        let unit: u16 = units[at];
        let high: bool = 0xd800 <= unit && unit < 0xdc00;
        let low: bool = 0xdc00 <= unit && unit < 0xe000;
        if high && at + 1 < units.len() && 0xdc00 <= units[at + 1] && units[at + 1] < 0xe000 {
            assert(rest[1] == units@[at + 1]);
            let code: u32 = 0x1_0000 + (unit as u32 - 0xd800) * 0x400 + (units[at + 1] as u32
                - 0xdc00);
            chars.push(character(code));
            assert(rest.skip(2) =~= units@.skip(at + 2));
            assert(chars@ + decoded(rest.skip(2)) =~= before + decoded(rest));
            at = at + 2;
        } else if high || low {
            chars.push('\u{fffd}');
            assert(rest.skip(1) =~= units@.skip(at + 1));
            assert(chars@ + decoded(rest.skip(1)) =~= before + decoded(rest));
            at = at + 1;
        } else {
            chars.push(character(unit as u32));
            assert(rest.skip(1) =~= units@.skip(at + 1));
            assert(chars@ + decoded(rest.skip(1)) =~= before + decoded(rest));
            at = at + 1;
        }
    }
    assert(units@.skip(at as int) =~= Seq::<u16>::empty());
    assert(chars@ =~= decoded(units@));
    text::string(chars.as_slice())
}

/// What the units of a character are.
pub proof fn lemma_units(c: char)
    ensures
        units_of(c).len() == if (c as u32) < 0x1_0000 {
            1int
        } else {
            2int
        },
        (c as u32) < 0x1_0000 ==> !is_high(units_of(c)[0]) && !is_low(units_of(c)[0])
            && units_of(c)[0] as char == c,
        (c as u32) >= 0x1_0000 ==> is_high(units_of(c)[0]) && is_low(units_of(c)[1]) && paired(
            units_of(c)[0],
            units_of(c)[1],
        ) as char == c,
        c as u32 != 0 ==> units_of(c)[0] != 0,
{
}

proof fn lemma_decoded_behind(s: Seq<char>, rest: Seq<u16>)
    ensures
        decoded(encoded(s) + rest) == s + decoded(rest),
    decreases s.len(),
{
    if s.len() == 0 {
        assert(encoded(s) + rest =~= rest);
        assert(s + decoded(rest) =~= decoded(rest));
    } else {
        let c = s.last();
        let more = units_of(c) + rest;
        lemma_decoded_behind(s.drop_last(), more);
        assert(encoded(s) + rest =~= encoded(s.drop_last()) + more);
        let code = c as u32;
        lemma_units(c);
        if code < 0x1_0000 {
            assert(more.skip(1) =~= rest);
            assert(more[0] == code as u16);
        } else {
            assert(more.skip(2) =~= rest);
            assert(more[0] == units_of(c)[0] && more[1] == units_of(c)[1]);
            assert(paired(more[0], more[1]) as char == c);
        }
        assert(decoded(more) =~= seq![c] + decoded(rest));
        assert(s.drop_last() + (seq![c] + decoded(rest)) =~= s + decoded(rest));
    }
}

/// A text that was encoded reads back.
pub proof fn an_encoded_text_reads_back(s: Seq<char>)
    ensures
        decoded(encoded(s)) == s,
{
    lemma_decoded_behind(s, Seq::<u16>::empty());
    assert(encoded(s) + Seq::<u16>::empty() =~= encoded(s));
    assert(s + decoded(Seq::<u16>::empty()) =~= s);
}

/// A character is one unit, its own number, or two that make its number up: the
/// high half first, counted from 0xd800, and the low half counted from 0xdc00.
pub proof fn a_character_is_one_unit_or_two(c: char, s: Seq<char>)
    ensures
        (c as u32) < 0x1_0000 ==> units_of(c) == seq![c as u16],
        (c as u32) >= 0x1_0000 ==> units_of(c).len() == 2 && 0xd800 <= units_of(c)[0] < 0xdc00
            && 0xdc00 <= units_of(c)[1] < 0xe000 && (units_of(c)[0] - 0xd800) * 0x400 + (units_of(
            c,
        )[1] - 0xdc00) + 0x1_0000 == c as u32,
        encoded(s.push(c)) == encoded(s) + units_of(c),
        encoded(Seq::<char>::empty()).len() == 0,
{
    lemma_units(c);
    assert(s.push(c).drop_last() =~= s);
}

/// Half of a pair on its own reads as the replacement character.
pub proof fn a_lone_half_is_replaced(unit: u16)
    requires
        0xd800 <= unit < 0xe000,
    ensures
        decoded(seq![unit]) == seq!['\u{fffd}'],
{
    assert(seq![unit].skip(1) =~= Seq::<u16>::empty());
    assert(decoded(seq![unit].skip(1)) =~= Seq::<char>::empty());
    assert(seq!['\u{fffd}'] + Seq::<char>::empty() =~= seq!['\u{fffd}']);
}

} // verus!
