//! Text as sequences of characters: trimming, splitting, numbers and case.

use vstd::prelude::*;
use vstd::string::StringExecFns;

verus! {

/// Specifies `String::push`: the character is added at the end.
pub assume_specification[ String::push ](s: &mut String, c: char)
    ensures
        final(s)@ == old(s)@.push(c),
;

/// What std's `Debug` writes of a text: the text in quotation marks, with what
/// would not show as itself escaped.
pub uninterp spec fn debug_text(s: Seq<char>) -> Seq<char>;

/// Whether a text holds only characters that stand for themselves between
/// quotation marks.
pub open spec fn shows_as_itself(s: Seq<char>) -> bool {
    forall|i: int|
        0 <= i < s.len() ==> ' ' <= #[trigger] s[i] <= '~' && s[i] != '"' && s[i] != '\'' && s[i]
            != '\\'
}

/// A text as a log quotes it.
pub open spec fn shown(s: Seq<char>) -> Seq<char> {
    if shows_as_itself(s) {
        "\""@ + s + "\""@
    } else {
        debug_text(s)
    }
}

/// Calls `format!` for the `Debug` form of a `str`, which is a function of the
/// text. Printable ASCII other than quotation marks and the backslash comes out
/// as it is, between two quotation marks.
#[verifier::external_body]
pub(crate) fn quoted(s: &str) -> (r: String)
    ensures
        r@ == debug_text(s@),
        shows_as_itself(s@) ==> r@ == "\""@ + s@ + "\""@,
{
    format!("{s:?}")
}

/// The characters of a string.
pub fn chars(s: &str) -> (out: Vec<char>)
    ensures
        out@ == s@,
{
    let mut out: Vec<char> = Vec::new();
    for c in it: s.chars()
        invariant
            out@ == it.seq().take(it.index()),
            it.seq() == s@,
    {
        proof {
            assert(it.seq().take(it.index() + 1) =~= it.seq().take(it.index()).push(c));
        }
        out.push(c);
    }
    assert(out@ =~= s@);
    out
}

/// The string made of some characters.
pub fn string(chars: &[char]) -> (out: String)
    ensures
        out@ == chars@,
{
    let mut out = String::new();
    let mut at: usize = 0;
    while at < chars.len()
        invariant
            at <= chars@.len(),
            out@ == chars@.take(at as int),
        decreases chars@.len() - at,
    {
        proof {
            assert(chars@.take(at + 1) =~= chars@.take(at as int).push(chars@[at as int]));
        }
        out.push(chars[at]);
        at = at + 1;
    }
    assert(chars@.take(at as int) =~= chars@);
    out
}

/// Whether some characters spell a string.
pub fn spells(chars: &[char], word: &str) -> (same: bool)
    ensures
        same == (chars@ == word@),
{
    let word_chars = self::chars(word);
    if chars.len() != word_chars.len() {
        return false;
    }
    let mut at: usize = 0;
    while at < chars.len()
        invariant
            at <= chars@.len(),
            chars@.len() == word_chars@.len(),
            word_chars@ == word@,
            forall|i: int| 0 <= i < at ==> chars@[i] == word@[i],
        decreases chars@.len() - at,
    {
        if chars[at] != word_chars[at] {
            assert(chars@[at as int] != word@[at as int]);
            return false;
        }
        at = at + 1;
    }
    assert(chars@ =~= word@);
    true
}

/// Whether two strings are the same.
pub fn same(left: &str, right: &str) -> (r: bool)
    ensures
        r == (left@ == right@),
{
    spells(chars(left).as_slice(), right)
}

/// Two strings laid end to end.
pub fn concat2(a: &str, b: &str) -> (out: String)
    ensures
        out@ == a@ + b@,
{
    let mut out = a.to_owned();
    out.append(b);
    out
}

/// Three strings laid end to end.
pub fn concat3(a: &str, b: &str, c: &str) -> (out: String)
    ensures
        out@ == a@ + b@ + c@,
{
    let mut out = a.to_owned();
    out.append(b);
    out.append(c);
    out
}

/// Five strings laid end to end.
pub fn concat5(a: &str, b: &str, c: &str, d: &str, e: &str) -> (out: String)
    ensures
        out@ == a@ + b@ + c@ + d@ + e@,
{
    let mut out = concat3(a, b, c);
    out.append(d);
    out.append(e);
    out
}

/// Unicode's White_Space property.
pub open spec fn is_space(c: char) -> bool {
    ||| '\u{9}' <= c <= '\u{d}'
    ||| c == ' '
    ||| c == '\u{85}'
    ||| c == '\u{a0}'
    ||| c == '\u{1680}'
    ||| '\u{2000}' <= c <= '\u{200a}'
    ||| c == '\u{2028}'
    ||| c == '\u{2029}'
    ||| c == '\u{202f}'
    ||| c == '\u{205f}'
    ||| c == '\u{3000}'
}

pub fn is_white_space(c: char) -> (r: bool)
    ensures
        r == is_space(c),
{
    ('\u{9}' <= c && c <= '\u{d}') || c == ' ' || c == '\u{85}' || c == '\u{a0}' || c == '\u{1680}'
        || ('\u{2000}' <= c && c <= '\u{200a}') || c == '\u{2028}' || c == '\u{2029}'
        || c == '\u{202f}' || c == '\u{205f}' || c == '\u{3000}'
}

pub open spec fn trimmed_start(s: Seq<char>) -> Seq<char>
    decreases s.len(),
{
    if s.len() > 0 && is_space(s[0]) {
        trimmed_start(s.skip(1))
    } else {
        s
    }
}

pub open spec fn trimmed_end(s: Seq<char>) -> Seq<char>
    decreases s.len(),
{
    if s.len() > 0 && is_space(s.last()) {
        trimmed_end(s.drop_last())
    } else {
        s
    }
}

/// A text without the white space around it.
pub open spec fn trimmed(s: Seq<char>) -> Seq<char> {
    trimmed_end(trimmed_start(s))
}

/// A text without the white space around it.
pub fn trim(s: &[char]) -> (out: &[char])
    ensures
        out@ == trimmed(s@),
{
    let mut start: usize = 0;
    assert(s@.skip(0) =~= s@);
    while start < s.len() && is_white_space(s[start])
        invariant
            start <= s@.len(),
            trimmed_start(s@) == trimmed_start(s@.skip(start as int)),
        decreases s@.len() - start,
    {
        proof {
            assert(s@.skip(start as int).skip(1) =~= s@.skip(start + 1));
        }
        start = start + 1;
    }
    let rest = vstd::slice::slice_subrange(s, start, s.len());
    assert(rest@ =~= s@.skip(start as int));
    assert(trimmed_start(s@) == rest@);
    let mut end: usize = rest.len();
    assert(rest@.take(end as int) =~= rest@);
    while end > 0 && is_white_space(rest[end - 1])
        invariant
            end <= rest@.len(),
            trimmed_end(rest@) == trimmed_end(rest@.take(end as int)),
        decreases end,
    {
        proof {
            assert(rest@.take(end as int).drop_last() =~= rest@.take(end - 1));
        }
        end = end - 1;
    }
    let out = vstd::slice::slice_subrange(rest, 0, end);
    assert(out@ =~= rest@.take(end as int));
    out
}

/// Where `c` first occurs in `s`, or the length of `s` where it does not.
pub open spec fn first_index(s: Seq<char>, c: char) -> nat
    decreases s.len(),
{
    if s.len() == 0 || s[0] == c {
        0
    } else {
        1 + first_index(s.skip(1), c)
    }
}

pub proof fn lemma_first_index(s: Seq<char>, c: char, n: nat)
    requires
        n <= s.len(),
        forall|i: int| 0 <= i < n ==> s[i] != c,
        n < s.len() ==> s[n as int] == c,
    ensures
        first_index(s, c) == n,
    decreases n,
{
    if n > 0 {
        lemma_first_index(s.skip(1), c, (n - 1) as nat);
    }
}

pub proof fn lemma_first_index_bound(s: Seq<char>, c: char)
    ensures
        first_index(s, c) <= s.len(),
        first_index(s, c) < s.len() ==> s[first_index(s, c) as int] == c,
        forall|i: int| 0 <= i < first_index(s, c) ==> s[i] != c,
    decreases s.len(),
{
    if s.len() > 0 && s[0] != c {
        lemma_first_index_bound(s.skip(1), c);
        assert forall|i: int| 0 <= i < first_index(s, c) implies s[i] != c by {
            if i > 0 {
                assert(s.skip(1)[i - 1] == s[i]);
            }
        }
    }
}

/// Where `c` first occurs at or after `from`, or the length.
pub fn find(s: &[char], c: char, from: usize) -> (at: usize)
    requires
        from <= s@.len(),
    ensures
        from <= at <= s@.len(),
        at - from == first_index(s@.skip(from as int), c),
{
    let mut at: usize = from;
    while at < s.len() && s[at] != c
        invariant
            from <= at <= s@.len(),
            forall|i: int| from <= i < at ==> s@[i] != c,
        decreases s@.len() - at,
    {
        at = at + 1;
    }
    proof {
        lemma_first_index(s@.skip(from as int), c, (at - from) as nat);
    }
    at
}

/// The contents of a list of character vectors.
pub open spec fn views(v: Seq<Vec<char>>) -> Seq<Seq<char>> {
    Seq::new(v.len(), |i: int| v[i]@)
}

/// The contents of a list of strings.
pub open spec fn string_views(v: Seq<String>) -> Seq<Seq<char>> {
    Seq::new(v.len(), |i: int| v[i]@)
}

/// A line without the carriage return that ends it.
pub open spec fn without_return(s: Seq<char>) -> Seq<char> {
    if s.len() > 0 && s.last() == '\r' {
        s.drop_last()
    } else {
        s
    }
}

/// The lines of a text. Each ends at a newline, with or without a carriage
/// return before it; the last one may lack its newline.
pub open spec fn lines_of(s: Seq<char>) -> Seq<Seq<char>>
    decreases s.len(),
{
    if s.len() == 0 {
        Seq::<Seq<char>>::empty()
    } else {
        let n = first_index(s, '\n') as int;
        if n >= s.len() {
            seq![s]
        } else {
            seq![without_return(s.take(n))] + lines_of(s.skip(n + 1))
        }
    }
}

/// The lines of a text.
pub fn lines(s: &[char]) -> (out: Vec<Vec<char>>)
    ensures
        views(out@) == lines_of(s@),
{
    let mut out: Vec<Vec<char>> = Vec::new();
    let mut at: usize = 0;
    assert(s@.skip(0) =~= s@);
    assert(views(out@) + lines_of(s@) =~= lines_of(s@));
    while at < s.len()
        invariant
            at <= s@.len(),
            lines_of(s@) == views(out@) + lines_of(s@.skip(at as int)),
        decreases s@.len() - at,
    {
        let end: usize = find(s, '\n', at);
        let ghost rest = s@.skip(at as int);
        let ghost before = out@;
        if end == s.len() {
            let line = vstd::slice::slice_to_vec(vstd::slice::slice_subrange(s, at, end));
            out.push(line);
            proof {
                assert(line@ =~= rest);
                assert(views(out@) =~= views(before).push(rest));
                assert(views(before) + seq![rest] =~= views(out@));
                assert(s@.skip(end as int) =~= Seq::<char>::empty());
                assert(views(out@) + lines_of(s@.skip(end as int)) =~= views(out@));
            }
            at = end;
        } else {
            let mut stop: usize = end;
            if stop > at && s[stop - 1] == '\r' {
                stop = stop - 1;
            }
            let line = vstd::slice::slice_to_vec(vstd::slice::slice_subrange(s, at, stop));
            out.push(line);
            proof {
                let n = end - at;
                assert(rest.take(n) =~= s@.subrange(at as int, end as int));
                if n > 0 {
                    assert(rest.take(n).last() == s@[end - 1]);
                }
                assert(line@ =~= without_return(rest.take(n)));
                assert(rest.skip(n + 1) =~= s@.skip(end + 1));
                assert(views(out@) =~= views(before).push(line@));
                assert(views(before) + (seq![line@] + lines_of(s@.skip(end + 1))) =~= views(out@)
                    + lines_of(s@.skip(end + 1)));
            }
            at = end + 1;
        }
    }
    assert(s@.skip(at as int) =~= Seq::<char>::empty());
    assert(views(out@) + lines_of(s@.skip(at as int)) =~= views(out@));
    out
}

/// The pieces of a text between the separators in it.
pub open spec fn split_at_char(s: Seq<char>, c: char) -> Seq<Seq<char>>
    decreases s.len(),
{
    let n = first_index(s, c) as int;
    if n >= s.len() {
        seq![s]
    } else {
        seq![s.take(n)] + split_at_char(s.skip(n + 1), c)
    }
}

/// The pieces of a text between the separators in it.
pub fn split(s: &[char], c: char) -> (out: Vec<Vec<char>>)
    ensures
        views(out@) == split_at_char(s@, c),
{
    let mut out: Vec<Vec<char>> = Vec::new();
    let mut at: usize = 0;
    assert(s@.skip(0) =~= s@);
    assert(views(out@) + split_at_char(s@, c) =~= split_at_char(s@, c));
    loop
        invariant
            at <= s@.len(),
            split_at_char(s@, c) == views(out@) + split_at_char(s@.skip(at as int), c),
        decreases s@.len() - at,
    {
        let end: usize = find(s, c, at);
        let ghost rest = s@.skip(at as int);
        let ghost before = out@;
        let piece = vstd::slice::slice_to_vec(vstd::slice::slice_subrange(s, at, end));
        out.push(piece);
        assert(piece@ =~= rest.take(end - at));
        assert(views(out@) =~= views(before).push(piece@));
        if end == s.len() {
            assert(piece@ =~= rest);
            assert(views(before) + seq![rest] =~= views(out@));
            return out;
        }
        proof {
            assert(rest.skip(end - at + 1) =~= s@.skip(end + 1));
            assert(views(before) + (seq![piece@] + split_at_char(s@.skip(end + 1), c)) =~= views(
                out@,
            ) + split_at_char(s@.skip(end + 1), c));
        }
        at = end + 1;
    }
}

pub open spec fn lower_char(c: char) -> char {
    if 'A' <= c <= 'Z' {
        ((c as u8) + 32) as u8 as char
    } else {
        c
    }
}

pub open spec fn upper_char(c: char) -> char {
    if 'a' <= c <= 'z' {
        ((c as u8) - 32) as u8 as char
    } else {
        c
    }
}

/// A text with its ASCII letters in lower case.
pub open spec fn lower(s: Seq<char>) -> Seq<char> {
    Seq::new(s.len(), |i: int| lower_char(s[i]))
}

/// A text with its ASCII letters in upper case.
pub open spec fn upper(s: Seq<char>) -> Seq<char> {
    Seq::new(s.len(), |i: int| upper_char(s[i]))
}

pub fn to_lower(s: &[char]) -> (out: Vec<char>)
    ensures
        out@ == lower(s@),
{
    let mut out: Vec<char> = Vec::new();
    let mut at: usize = 0;
    while at < s.len()
        invariant
            at <= s@.len(),
            out@.len() == at,
            forall|i: int| 0 <= i < at ==> out@[i] == lower_char(s@[i]),
        decreases s@.len() - at,
    {
        let c = s[at];
        if 'A' <= c && c <= 'Z' {
            out.push((c as u8 + 32) as char);
        } else {
            out.push(c);
        }
        at = at + 1;
    }
    assert(out@ =~= lower(s@));
    out
}

pub fn to_upper(s: &[char]) -> (out: Vec<char>)
    ensures
        out@ == upper(s@),
{
    let mut out: Vec<char> = Vec::new();
    let mut at: usize = 0;
    while at < s.len()
        invariant
            at <= s@.len(),
            out@.len() == at,
            forall|i: int| 0 <= i < at ==> out@[i] == upper_char(s@[i]),
        decreases s@.len() - at,
    {
        let c = s[at];
        if 'a' <= c && c <= 'z' {
            out.push((c as u8 - 32) as char);
        } else {
            out.push(c);
        }
        at = at + 1;
    }
    assert(out@ =~= upper(s@));
    out
}

pub open spec fn digit_char(d: nat) -> char {
    (48 + d) as u8 as char
}

/// A number in decimal digits.
pub open spec fn decimal(n: nat) -> Seq<char>
    decreases n,
{
    if n < 10 {
        seq![digit_char(n)]
    } else {
        decimal(n / 10).push(digit_char(n % 10))
    }
}

pub fn decimal_chars(n: u64) -> (out: Vec<char>)
    ensures
        out@ == decimal(n as nat),
    decreases n,
{
    if n < 10 {
        let mut out: Vec<char> = Vec::new();
        out.push((48 + n as u8) as char);
        assert(out@ =~= decimal(n as nat));
        out
    } else {
        let mut out = decimal_chars(n / 10);
        out.push((48 + (n % 10) as u8) as char);
        out
    }
}

/// A number in decimal digits.
pub fn decimal_text(n: u64) -> (out: String)
    ensures
        out@ == decimal(n as nat),
{
    string(decimal_chars(n).as_slice())
}

pub open spec fn is_digit(c: char) -> bool {
    '0' <= c <= '9'
}

pub open spec fn all_digits(s: Seq<char>) -> bool {
    forall|i: int| 0 <= i < s.len() ==> is_digit(#[trigger] s[i])
}

/// The number that decimal digits spell.
pub open spec fn number(s: Seq<char>) -> nat
    decreases s.len(),
{
    if s.len() == 0 {
        0
    } else {
        number(s.drop_last()) * 10 + ((s.last() as int - 48) as nat)
    }
}

/// The digits of a number that may have a plus sign in front.
pub open spec fn unsigned_digits(s: Seq<char>) -> Seq<char> {
    if s.len() > 0 && s[0] == '+' {
        s.skip(1)
    } else {
        s
    }
}

/// An unsigned number no greater than `max`, in decimal with an optional plus
/// sign.
pub open spec fn parsed_number(s: Seq<char>, max: nat) -> Option<nat> {
    let digits = unsigned_digits(s);
    if digits.len() > 0 && all_digits(digits) && number(digits) <= max {
        Some(number(digits))
    } else {
        None
    }
}

pub proof fn lemma_number_prefix(s: Seq<char>, n: int)
    requires
        0 <= n <= s.len(),
        all_digits(s),
    ensures
        number(s.take(n)) <= number(s),
    decreases s.len() - n,
{
    if n < s.len() {
        assert(s.take(n + 1).drop_last() =~= s.take(n));
        assert(is_digit(s[n]));
        lemma_number_prefix(s, n + 1);
    } else {
        assert(s.take(n) =~= s);
    }
}

/// Reads an unsigned decimal number no greater than `max`.
pub fn parse_number(s: &[char], max: u64) -> (r: Option<u64>)
    ensures
        r matches Some(n) ==> parsed_number(s@, max as nat) == Some(n as nat),
        r is None ==> parsed_number(s@, max as nat) is None,
{
    let mut start: usize = 0;
    if s.len() > 0 && s[0] == '+' {
        start = 1;
    }
    let ghost digits = unsigned_digits(s@);
    assert(s@.skip(start as int) =~= digits);
    if start == s.len() {
        return None;
    }
    let mut value: u64 = 0;
    let mut at: usize = start;
    while at < s.len()
        invariant
            start <= at <= s@.len(),
            start < s@.len(),
            digits == unsigned_digits(s@),
            digits == s@.skip(start as int),
            forall|i: int| 0 <= i < at - start ==> is_digit(digits[i]),
            value == number(digits.take(at - start)),
            value <= max,
        decreases s@.len() - at,
    {
        let c = s[at];
        let ghost n = at - start;
        if !('0' <= c && c <= '9') {
            proof {
                assert(!is_digit(digits[n]));
            }
            return None;
        }
        let d: u64 = c as u64 - 48;
        proof {
            assert(digits[n] == c);
            assert(digits.take(n + 1).drop_last() =~= digits.take(n));
        }
        let over: bool = value > max / 10 || max < d || value * 10 > max - d;
        if over {
            proof {
                if all_digits(digits) {
                    lemma_number_prefix(digits, n + 1);
                }
            }
            return None;
        }
        value = value * 10 + d;
        at = at + 1;
    }
    assert(digits.take(at - start) =~= digits);
    Some(value)
}

/// A number written in decimal reads back.
pub proof fn lemma_decimal_reads_back(n: nat)
    ensures
        decimal(n).len() > 0,
        all_digits(decimal(n)),
        number(decimal(n)) == n,
        decimal(n)[0] != '+',
        n <= u64::MAX ==> parsed_number(decimal(n), u64::MAX as nat) == Some(n),
        n <= u32::MAX ==> parsed_number(decimal(n), u32::MAX as nat) == Some(n),
    decreases n,
{
    let s = decimal(n);
    if n < 10 {
        assert(s.drop_last() =~= Seq::<char>::empty());
        assert(number(s.drop_last()) == 0);
        assert(s.last() == digit_char(n));
    } else {
        lemma_decimal_reads_back(n / 10);
        assert(s.drop_last() =~= decimal(n / 10));
        assert(s.last() == digit_char(n % 10));
        assert forall|i: int| 0 <= i < s.len() implies is_digit(#[trigger] s[i]) by {
            if i < s.len() - 1 {
                assert(s[i] == decimal(n / 10)[i]);
            }
        }
        assert(s[0] == decimal(n / 10)[0]);
    }
    assert(is_digit(s[0]));
}

pub open spec fn is_hex_digit(c: char) -> bool {
    is_digit(c) || 'a' <= c <= 'f' || 'A' <= c <= 'F'
}

pub open spec fn hex_value(c: char) -> u8 {
    if is_digit(c) {
        (c as u8 - 48) as u8
    } else if 'a' <= c <= 'f' {
        (c as u8 - 87) as u8
    } else {
        (c as u8 - 55) as u8
    }
}

/// The value of a hexadecimal digit.
pub fn hex_digit(c: char) -> (r: Option<u8>)
    ensures
        r is Some == is_hex_digit(c),
        r matches Some(v) ==> v == hex_value(c) && v < 16,
{
    if '0' <= c && c <= '9' {
        Some(c as u8 - 48)
    } else if 'a' <= c && c <= 'f' {
        Some(c as u8 - 87)
    } else if 'A' <= c && c <= 'F' {
        Some(c as u8 - 55)
    } else {
        None
    }
}

/// A text without any `c` in it.
pub open spec fn without_char(s: Seq<char>, c: char) -> Seq<char>
    decreases s.len(),
{
    if s.len() == 0 {
        s
    } else if s.last() == c {
        without_char(s.drop_last(), c)
    } else {
        without_char(s.drop_last(), c).push(s.last())
    }
}

pub fn remove_char(s: &[char], c: char) -> (out: Vec<char>)
    ensures
        out@ == without_char(s@, c),
{
    let mut out: Vec<char> = Vec::new();
    let mut at: usize = 0;
    assert(s@.take(0) =~= Seq::<char>::empty());
    while at < s.len()
        invariant
            at <= s@.len(),
            out@ == without_char(s@.take(at as int), c),
        decreases s@.len() - at,
    {
        assert(s@.take(at + 1).drop_last() =~= s@.take(at as int));
        if s[at] != c {
            out.push(s[at]);
        }
        at = at + 1;
    }
    assert(s@.take(at as int) =~= s@);
    out
}

pub open spec fn begins_with(s: Seq<char>, prefix: Seq<char>) -> bool {
    s.len() >= prefix.len() && s.take(prefix.len() as int) == prefix
}

pub fn starts_with(s: &[char], prefix: &str) -> (r: bool)
    ensures
        r == begins_with(s@, prefix@),
{
    let p = chars(prefix);
    if s.len() < p.len() {
        return false;
    }
    let head = vstd::slice::slice_subrange(s, 0, p.len());
    assert(head@ =~= s@.take(prefix@.len() as int));
    spells(head, prefix)
}

/// The words of a text, given the word that is being read.
pub open spec fn spaced_from(s: Seq<char>, current: Seq<char>) -> Seq<Seq<char>>
    decreases s.len(),
{
    if s.len() == 0 {
        if current.len() == 0 {
            Seq::<Seq<char>>::empty()
        } else {
            seq![current]
        }
    } else if is_space(s[0]) {
        if current.len() == 0 {
            spaced_from(s.skip(1), current)
        } else {
            seq![current] + spaced_from(s.skip(1), Seq::<char>::empty())
        }
    } else {
        spaced_from(s.skip(1), current.push(s[0]))
    }
}

/// The words of a text: what stands between white space.
pub open spec fn spaced_words(s: Seq<char>) -> Seq<Seq<char>> {
    spaced_from(s, Seq::<char>::empty())
}

/// The words of a text: what stands between white space.
pub fn words(s: &[char]) -> (out: Vec<Vec<char>>)
    ensures
        views(out@) == spaced_words(s@),
{
    let mut out: Vec<Vec<char>> = Vec::new();
    let mut current: Vec<char> = Vec::new();
    let mut at: usize = 0;
    assert(s@.skip(0) =~= s@);
    assert(current@ =~= Seq::<char>::empty());
    assert(views(out@) + spaced_words(s@) =~= spaced_words(s@));
    while at < s.len()
        invariant
            at <= s@.len(),
            spaced_words(s@) == views(out@) + spaced_from(s@.skip(at as int), current@),
        decreases s@.len() - at,
    {
        let c = s[at];
        proof {
            assert(s@.skip(at as int)[0] == c);
            assert(s@.skip(at as int).skip(1) =~= s@.skip(at + 1));
        }
        if is_white_space(c) {
            if current.len() > 0 {
                let mut word: Vec<char> = Vec::new();
                core::mem::swap(&mut word, &mut current);
                let ghost before = out@;
                out.push(word);
                proof {
                    let rest = spaced_from(s@.skip(at + 1), Seq::<char>::empty());
                    assert(current@ =~= Seq::<char>::empty());
                    assert(views(out@) =~= views(before).push(word@));
                    assert(views(before) + (seq![word@] + rest) =~= views(out@) + rest);
                }
            }
        } else {
            current.push(c);
        }
        at = at + 1;
    }
    assert(s@.skip(at as int) =~= Seq::<char>::empty());
    if current.len() > 0 {
        let ghost before = out@;
        out.push(current);
        assert(views(out@) =~= views(before).push(current@));
        assert(views(before) + seq![current@] =~= views(out@));
    } else {
        assert(views(out@) + Seq::<Seq<char>>::empty() =~= views(out@));
    }
    out
}

/// The number that hexadecimal digits spell.
pub open spec fn hex_number(s: Seq<char>) -> nat
    decreases s.len(),
{
    if s.len() == 0 {
        0
    } else {
        hex_number(s.drop_last()) * 16 + hex_value(s.last()) as nat
    }
}

pub open spec fn hex_char(d: nat) -> char {
    if d < 10 {
        (48 + d) as u8 as char
    } else {
        (87 + d) as u8 as char
    }
}

/// A number in lower-case hexadecimal, without leading zeros.
pub open spec fn hex(n: nat) -> Seq<char>
    decreases n,
{
    if n < 16 {
        seq![hex_char(n)]
    } else {
        hex(n / 16).push(hex_char(n % 16))
    }
}

fn hex_digit_char(d: u8) -> (c: char)
    requires
        d < 16,
    ensures
        c == hex_char(d as nat),
{
    if d < 10 {
        (48 + d) as char
    } else {
        (87 + d) as char
    }
}

pub fn hex_chars(n: u64) -> (out: Vec<char>)
    ensures
        out@ == hex(n as nat),
    decreases n,
{
    if n < 16 {
        let mut out: Vec<char> = Vec::new();
        out.push(hex_digit_char(n as u8));
        assert(out@ =~= hex(n as nat));
        out
    } else {
        let mut out = hex_chars(n / 16);
        out.push(hex_digit_char((n % 16) as u8));
        out
    }
}

/// A number in lower-case hexadecimal, without leading zeros.
pub fn hex_text(n: u64) -> (out: String)
    ensures
        out@ == hex(n as nat),
{
    string(hex_chars(n).as_slice())
}

/// The text of a string that may be missing.
pub open spec fn option_view(s: Option<String>) -> Option<Seq<char>> {
    match s {
        Some(text) => Some(text@),
        None => None,
    }
}

/// A copy of a string that may be missing.
pub fn copied(s: &Option<String>) -> (r: Option<String>)
    ensures
        option_view(r) == option_view(*s),
{
    match s {
        Some(text) => Some(text.clone()),
        None => None,
    }
}

/// Whether two texts are the same but for the case of ASCII letters.
pub fn same_ignoring_case(a: &[char], word: &str) -> (r: bool)
    ensures
        r == (lower(a@) == lower(word@)),
{
    let left = to_lower(a);
    let other = chars(word);
    let right = to_lower(other.as_slice());
    if left.len() != right.len() {
        return false;
    }
    let mut at: usize = 0;
    while at < left.len()
        invariant
            at <= left@.len() == right@.len(),
            left@ == lower(a@),
            right@ == lower(word@),
            forall|i: int| 0 <= i < at ==> left@[i] == right@[i],
        decreases left@.len() - at,
    {
        if left[at] != right[at] {
            return false;
        }
        at = at + 1;
    }
    assert(left@ =~= right@);
    true
}

/// The texts of some string slices.
pub open spec fn str_views(v: Seq<&str>) -> Seq<Seq<char>> {
    Seq::new(v.len(), |i: int| v[i]@)
}

/// Texts laid end to end, with a separator between any two.
pub open spec fn separated(parts: Seq<Seq<char>>, separator: Seq<char>) -> Seq<char>
    decreases parts.len(),
{
    if parts.len() == 0 {
        Seq::<char>::empty()
    } else if parts.len() == 1 {
        parts[0]
    } else {
        separated(parts.drop_last(), separator) + separator + parts.last()
    }
}

/// Texts laid end to end, with a separator between any two.
pub fn join(parts: &Vec<String>, separator: &str) -> (out: String)
    ensures
        out@ == separated(string_views(parts@), separator@),
{
    let mut out = String::new();
    let ghost all = string_views(parts@);
    let mut at: usize = 0;
    assert(all.take(0) =~= Seq::<Seq<char>>::empty());
    while at < parts.len()
        invariant
            at <= parts@.len(),
            all == string_views(parts@),
            out@ == separated(all.take(at as int), separator@),
        decreases parts@.len() - at,
    {
        assert(all.take(at + 1).drop_last() =~= all.take(at as int));
        assert(all.take(at + 1).last() == parts@[at as int]@);
        if at > 0 {
            out.append(separator);
            out.append(parts[at].as_str());
        } else {
            assert(all.take(1)[0] == parts@[0]@);
            out = parts[at].clone();
        }
        at = at + 1;
    }
    assert(all.take(at as int) =~= all);
    out
}

/// What stands behind the last separator is the last piece.
pub proof fn lemma_split_last(a: Seq<char>, b: Seq<char>, c: char)
    requires
        forall|i: int| 0 <= i < b.len() ==> b[i] != c,
    ensures
        split_at_char(a + seq![c] + b, c) == split_at_char(a, c).push(b),
    decreases a.len(),
{
    let s = a + seq![c] + b;
    let n = first_index(a, c) as int;
    lemma_first_index_bound(a, c);
    lemma_first_index(s, c, n as nat);
    assert(s.take(n) =~= a.take(n));
    if n >= a.len() {
        assert(a.take(n) =~= a);
        assert(s.skip(n + 1) =~= b);
        lemma_first_index(b, c, b.len());
        assert(split_at_char(b, c) == seq![b]);
        assert(split_at_char(s, c) =~= seq![a].push(b));
    } else {
        let rest = a.skip(n + 1);
        assert(s.skip(n + 1) =~= rest + seq![c] + b);
        lemma_split_last(rest, b, c);
        assert(split_at_char(s, c) =~= split_at_char(a, c).push(b));
    }
}

/// Splitting undoes joining, where no piece holds the separator.
pub proof fn lemma_split_undoes_join(parts: Seq<Seq<char>>, c: char)
    requires
        parts.len() > 0,
        forall|k: int, i: int|
            #![trigger parts[k][i]]
            0 <= k < parts.len() && 0 <= i < parts[k].len() ==> parts[k][i] != c,
    ensures
        split_at_char(separated(parts, seq![c]), c) == parts,
    decreases parts.len(),
{
    if parts.len() == 1 {
        lemma_first_index(parts[0], c, parts[0].len());
        assert(split_at_char(parts[0], c) =~= parts);
    } else {
        let less = parts.drop_last();
        assert forall|k: int, i: int|
            #![trigger less[k][i]]
            0 <= k < less.len() && 0 <= i < less[k].len() implies less[k][i] != c by {
            assert(parts[k][i] != c);
        }
        lemma_split_undoes_join(less, c);
        let b = parts.last();
        assert forall|i: int| 0 <= i < b.len() implies b[i] != c by {
            assert(parts[parts.len() - 1][i] != c);
        }
        lemma_split_last(separated(less, seq![c]), b, c);
        assert(less.push(b) =~= parts);
    }
}

/// A text with no white space at its ends is its own trimmed form.
pub proof fn lemma_trimmed_as_it_is(s: Seq<char>)
    requires
        s.len() > 0,
        !is_space(s[0]),
        !is_space(s.last()),
    ensures
        trimmed(s) == s,
{
}

/// A word that stands on its own: something, and no white space in it.
pub open spec fn is_word(s: Seq<char>) -> bool {
    s.len() > 0 && forall|i: int| 0 <= i < s.len() ==> !is_space(#[trigger] s[i])
}

proof fn lemma_word_read(current: Seq<char>, word: Seq<char>, rest: Seq<char>)
    requires
        forall|i: int| 0 <= i < word.len() ==> !is_space(#[trigger] word[i]),
    ensures
        spaced_from(word + rest, current) == spaced_from(rest, current + word),
    decreases word.len(),
{
    if word.len() == 0 {
        assert(word + rest =~= rest);
        assert(current + word =~= current);
    } else {
        let s = word + rest;
        assert(!is_space(word[0]));
        assert(s[0] == word[0]);
        assert(s.skip(1) =~= word.skip(1) + rest);
        assert forall|i: int| 0 <= i < word.skip(1).len() implies !is_space(
            #[trigger] word.skip(1)[i],
        ) by {
            assert(word.skip(1)[i] == word[i + 1]);
        }
        lemma_word_read(current.push(s[0]), word.skip(1), rest);
        assert(current.push(s[0]) + word.skip(1) =~= current + word);
    }
}

/// Words with white space between them are read as those words.
pub proof fn lemma_words_read(first: Seq<char>, gap: char, rest: Seq<char>)
    requires
        is_word(first),
        is_space(gap),
    ensures
        spaced_words(first + seq![gap] + rest) == seq![first] + spaced_words(rest),
        spaced_words(first) == seq![first],
{
    let none = Seq::<char>::empty();
    let behind = seq![gap] + rest;
    assert(first + seq![gap] + rest =~= first + behind);
    lemma_word_read(none, first, behind);
    assert(none + first =~= first);
    assert(behind.skip(1) =~= rest);
    assert(behind[0] == gap);
    lemma_word_read(none, first, none);
    assert(first + none =~= first);
}

/// A text is read line by line: what stands before the first newline, without a
/// carriage return at its end, is the first line, and the lines of the rest
/// follow it.
pub proof fn lines_end_at_newlines(line: Seq<char>, rest: Seq<char>)
    requires
        forall|i: int| 0 <= i < line.len() ==> line[i] != '\n',
        line.len() > 0 ==> line.last() != '\r',
    ensures
        lines_of(line + seq!['\n'] + rest) == seq![line] + lines_of(rest),
        lines_of(line + seq!['\r', '\n'] + rest) == seq![line] + lines_of(rest),
        line.len() > 0 ==> lines_of(line) == seq![line],
{
    let plain = line + seq!['\n'] + rest;
    let returned = line + seq!['\r', '\n'] + rest;
    let n = line.len() as int;
    lemma_first_index(plain, '\n', line.len());
    assert(plain.take(n) =~= line);
    assert(plain.skip(n + 1) =~= rest);
    lemma_first_index(returned, '\n', line.len() + 1);
    assert(returned.take(n + 1) =~= line.push('\r'));
    assert(line.push('\r').drop_last() =~= line);
    assert(returned.skip(n + 2) =~= rest);
    lemma_first_index(line, '\n', line.len());
}

/// A decimal number reads back as itself where it is within the limit and not at
/// all where it is beyond it, with or without a plus in front.
pub proof fn a_number_reads_back(n: nat, max: nat)
    ensures
        parsed_number(decimal(n), max) == if n <= max {
            Some(n)
        } else {
            None
        },
        parsed_number(seq!['+'] + decimal(n), max) == parsed_number(decimal(n), max),
{
    lemma_decimal_reads_back(n);
    let signed = seq!['+'] + decimal(n);
    assert(signed.skip(1) =~= decimal(n));
}

proof fn lemma_space_before(front: Seq<char>, core: Seq<char>)
    requires
        forall|i: int| 0 <= i < front.len() ==> is_space(#[trigger] front[i]),
        core.len() > 0,
        !is_space(core[0]),
    ensures
        trimmed_start(front + core) == core,
    decreases front.len(),
{
    let s = front + core;
    if front.len() == 0 {
        assert(s =~= core);
    } else {
        assert(is_space(front[0]));
        assert(s[0] == front[0]);
        assert(s.skip(1) =~= front.skip(1) + core);
        assert forall|i: int| 0 <= i < front.skip(1).len() implies is_space(
            #[trigger] front.skip(1)[i],
        ) by {
            assert(front.skip(1)[i] == front[i + 1]);
        }
        lemma_space_before(front.skip(1), core);
    }
}

proof fn lemma_space_behind(core: Seq<char>, back: Seq<char>)
    requires
        forall|i: int| 0 <= i < back.len() ==> is_space(#[trigger] back[i]),
        core.len() > 0,
        !is_space(core.last()),
    ensures
        trimmed_end(core + back) == core,
    decreases back.len(),
{
    let s = core + back;
    if back.len() == 0 {
        assert(s =~= core);
    } else {
        let less = back.drop_last();
        assert(is_space(back[back.len() - 1]));
        assert(s.last() == back[back.len() - 1]);
        assert(s.drop_last() =~= core + less);
        assert forall|i: int| 0 <= i < less.len() implies is_space(#[trigger] less[i]) by {
            assert(less[i] == back[i]);
        }
        lemma_space_behind(core, less);
    }
}

/// Trimming takes off the white space at both ends of a text and nothing else.
pub proof fn trimming_takes_off_white_space(front: Seq<char>, core: Seq<char>, back: Seq<char>)
    requires
        forall|i: int| 0 <= i < front.len() ==> is_space(#[trigger] front[i]),
        forall|i: int| 0 <= i < back.len() ==> is_space(#[trigger] back[i]),
        core.len() > 0,
        !is_space(core[0]),
        !is_space(core.last()),
    ensures
        trimmed(front + core + back) == core,
        is_space(' ') && is_space('\t') && is_space('\n') && is_space('\r'),
        !is_space('a') && !is_space('0') && !is_space('-'),
{
    let rest = core + back;
    assert(front + core + back =~= front + rest);
    assert(rest[0] == core[0]);
    lemma_space_before(front, rest);
    lemma_space_behind(core, back);
}

/// Each letter of ASCII has its small and its capital form, and no other
/// character changes.
pub proof fn letters_have_two_forms(c: char)
    ensures
        'A' <= c <= 'Z' ==> lower_char(c) as int == c as int + 32 && upper_char(c) == c,
        'a' <= c <= 'z' ==> upper_char(c) as int == c as int - 32 && lower_char(c) == c,
        !('A' <= c <= 'Z') && !('a' <= c <= 'z') ==> lower_char(c) == c && upper_char(c) == c,
        lower_char(upper_char(c)) == lower_char(c),
        upper_char(lower_char(c)) == upper_char(c),
{
}

/// A number in hexadecimal reads back, without leading zeros.
pub proof fn a_hexadecimal_number_reads_back(n: nat)
    ensures
        hex_number(hex(n)) == n,
        hex(n).len() > 0,
        n > 0 ==> hex(n)[0] != '0',
        forall|i: int| 0 <= i < hex(n).len() ==> is_hex_digit(#[trigger] hex(n)[i]),
    decreases n,
{
    let s = hex(n);
    if n < 16 {
        assert(s.drop_last() =~= Seq::<char>::empty());
        assert(hex_number(s.drop_last()) == 0);
        assert(s.last() == hex_char(n));
    } else {
        a_hexadecimal_number_reads_back(n / 16);
        assert(s.drop_last() =~= hex(n / 16));
        assert(s.last() == hex_char(n % 16));
        assert forall|i: int| 0 <= i < s.len() implies is_hex_digit(#[trigger] s[i]) by {
            if i < s.len() - 1 {
                assert(s[i] == hex(n / 16)[i]);
            }
        }
        assert(s[0] == hex(n / 16)[0]);
    }
}

/// Only digits make a number, with one plus in front at most.
pub proof fn only_digits_make_a_number(s: Seq<char>, max: nat)
    ensures
        parsed_number(s, max) matches Some(n) ==> n <= max && s.len() > 0 && ((s[0] == '+'
            && s.len() > 1) || ('0' <= s[0] && s[0] <= '9')) && forall|i: int|
            1 <= i < s.len() ==> '0' <= #[trigger] s[i] && s[i] <= '9',
        parsed_number(Seq::<char>::empty(), max) is None,
        parsed_number(seq!['+'], max) is None,
        parsed_number(seq!['-', '1'], max) is None,
{
    if parsed_number(s, max) is Some {
        let digits = unsigned_digits(s);
        if s[0] == '+' {
            assert(digits =~= s.skip(1));
            assert forall|i: int| 1 <= i < s.len() implies '0' <= #[trigger] s[i] && s[i]
                <= '9' by {
                assert(digits[i - 1] == s[i]);
                assert(is_digit(digits[i - 1]));
            }
        } else {
            assert(is_digit(digits[0]));
        }
    }
    assert(seq!['+'].skip(1) =~= Seq::<char>::empty());
    assert(!is_digit(seq!['-', '1'][0]));
}

proof fn lemma_join_front(first: Seq<char>, rest: Seq<Seq<char>>, separator: Seq<char>)
    requires
        rest.len() > 0,
    ensures
        separated(seq![first] + rest, separator) == first + separator + separated(rest, separator),
    decreases rest.len(),
{
    let all = seq![first] + rest;
    assert(all.last() == rest.last());
    if rest.len() == 1 {
        assert(all.drop_last() =~= seq![first]);
        assert(separated(seq![first], separator) == first);
        assert(separated(rest, separator) == rest[0]);
    } else {
        let less = rest.drop_last();
        assert(all.drop_last() =~= seq![first] + less);
        lemma_join_front(first, less, separator);
        assert(first + separator + separated(less, separator) + separator + rest.last() =~= first
            + separator + (separated(less, separator) + separator + rest.last()));
    }
}

/// Joining undoes splitting.
pub proof fn lemma_join_undoes_split(s: Seq<char>, c: char)
    ensures
        split_at_char(s, c).len() > 0,
        separated(split_at_char(s, c), seq![c]) == s,
    decreases s.len(),
{
    let n = first_index(s, c) as int;
    lemma_first_index_bound(s, c);
    if n < s.len() {
        let rest = s.skip(n + 1);
        lemma_join_undoes_split(rest, c);
        lemma_join_front(s.take(n), split_at_char(rest, c), seq![c]);
        assert(s.take(n) + seq![c] + rest =~= s);
    }
}

/// A number without a leading zero is written as it was read.
pub proof fn lemma_number_writes_back(s: Seq<char>)
    requires
        s.len() > 0,
        all_digits(s),
        s[0] != '0' || s.len() == 1,
    ensures
        decimal(number(s)) == s,
        s[0] != '0' ==> number(s) > 0,
    decreases s.len(),
{
    let less = s.drop_last();
    assert(is_digit(s[s.len() - 1]));
    assert(s.last() == s[s.len() - 1]);
    let d = s.last() as nat - 48;
    if s.len() == 1 {
        assert(less =~= Seq::<char>::empty());
        assert(number(less) == 0);
        assert(seq![digit_char(d as nat)] =~= s);
    } else {
        assert(less[0] == s[0]);
        assert forall|i: int| 0 <= i < less.len() implies is_digit(#[trigger] less[i]) by {
            assert(less[i] == s[i]);
        }
        lemma_number_writes_back(less);
        let n = number(s);
        assert(n == number(less) * 10 + d);
        assert(n / 10 == number(less) && n % 10 == d);
        assert(decimal(n) =~= less.push(s.last()));
        assert(less.push(s.last()) =~= s);
    }
}

} // verus!
