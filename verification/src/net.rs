//! Addresses as plain numbers, and as text.

use vstd::prelude::*;
use vstd::slice::slice_subrange;
use vstd::string::StringExecFns;

use crate::text;

verus! {

/// An IPv4 address, as the number its four bytes make.
#[derive(Debug, Clone, Copy, PartialEq, Eq, Hash, Structural)]
pub struct Ipv4(pub u32);

impl Ipv4 {
    pub open spec fn made(a: u8, b: u8, c: u8, d: u8) -> Ipv4 {
        Ipv4((a * 0x100_0000 + b * 0x1_0000 + c * 0x100 + d) as u32)
    }

    /// One of the four bytes, counted from the left.
    pub open spec fn byte(self, i: int) -> u8 {
        if i == 0 {
            (self.0 / 0x100_0000) as u8
        } else if i == 1 {
            (self.0 / 0x1_0000 % 256) as u8
        } else if i == 2 {
            (self.0 / 0x100 % 256) as u8
        } else {
            (self.0 % 256) as u8
        }
    }

    pub fn new(a: u8, b: u8, c: u8, d: u8) -> (r: Ipv4)
        ensures
            r == Ipv4::made(a, b, c, d),
            r.byte(0) == a,
            r.byte(1) == b,
            r.byte(2) == c,
            r.byte(3) == d,
    {
        let r: u32 = a as u32 * 0x100_0000 + b as u32 * 0x1_0000 + c as u32 * 0x100 + d as u32;
        assert(r / 0x100_0000 == a);
        assert(r / 0x1_0000 == a * 256 + b);
        assert(r / 0x100 == a * 65536 + b * 256 + c);
        Ipv4(r)
    }

    pub fn octets(self) -> (r: [u8; 4])
        ensures
            r@ == seq![self.byte(0), self.byte(1), self.byte(2), self.byte(3)],
    {
        let r: [u8; 4] = [
            (self.0 / 0x100_0000) as u8,
            (self.0 / 0x1_0000 % 256) as u8,
            (self.0 / 0x100 % 256) as u8,
            (self.0 % 256) as u8,
        ];
        assert(r@ =~= seq![self.byte(0), self.byte(1), self.byte(2), self.byte(3)]);
        r
    }

    /// The address in dotted decimal.
    pub open spec fn dotted(self) -> Seq<char> {
        text::decimal(self.byte(0) as nat) + "."@ + text::decimal(self.byte(1) as nat) + "."@
            + text::decimal(self.byte(2) as nat) + "."@ + text::decimal(self.byte(3) as nat)
    }

    /// The address in dotted decimal.
    pub fn to_text(self) -> (r: String)
        ensures
            r@ == self.dotted(),
    {
        let o = self.octets();
        let mut r = text::concat5(
            text::decimal_text(o[0] as u64).as_str(),
            ".",
            text::decimal_text(o[1] as u64).as_str(),
            ".",
            text::decimal_text(o[2] as u64).as_str(),
        );
        r.append(".");
        r.append(text::decimal_text(o[3] as u64).as_str());
        r
    }
}

/// One part of a dotted address: up to three digits, without a leading zero,
/// no greater than 255.
pub open spec fn octet_of(s: Seq<char>) -> Option<u8> {
    if 1 <= s.len() <= 3 && text::all_digits(s) && (s[0] != '0' || s.len() == 1) && text::number(s)
        <= 255 {
        Some(text::number(s) as u8)
    } else {
        None
    }
}

/// The address that a dotted text stands for.
pub open spec fn ipv4_of(s: Seq<char>) -> Option<Ipv4> {
    let parts = text::split_at_char(s, '.');
    if parts.len() == 4 && octet_of(parts[0]) is Some && octet_of(parts[1]) is Some && octet_of(
        parts[2],
    ) is Some && octet_of(parts[3]) is Some {
        Some(
            Ipv4::made(
                octet_of(parts[0])->0,
                octet_of(parts[1])->0,
                octet_of(parts[2])->0,
                octet_of(parts[3])->0,
            ),
        )
    } else {
        None
    }
}

fn parse_octet(s: &[char]) -> (r: Option<u8>)
    ensures
        r == octet_of(s@),
{
    if s.len() < 1 || s.len() > 3 || (s[0] == '0' && s.len() != 1) {
        return None;
    }
    if s[0] == '+' {
        assert(!text::is_digit(s@[0]));
        return None;
    }
    match text::parse_number(s, 255) {
        Some(n) => Some(n as u8),
        None => None,
    }
}

/// Reads a dotted address.
pub fn parse_ipv4(s: &[char]) -> (r: Option<Ipv4>)
    ensures
        r == ipv4_of(s@),
{
    let parts = text::split(s, '.');
    let ghost views = text::views(parts@);
    if parts.len() != 4 {
        return None;
    }
    assert(views[0] == parts@[0]@ && views[1] == parts@[1]@);
    assert(views[2] == parts@[2]@ && views[3] == parts@[3]@);
    match (
        parse_octet(parts[0].as_slice()),
        parse_octet(parts[1].as_slice()),
        parse_octet(parts[2].as_slice()),
        parse_octet(parts[3].as_slice()),
    ) {
        (Some(a), Some(b), Some(c), Some(d)) => Some(Ipv4::new(a, b, c, d)),
        _ => None,
    }
}

/// An address and a port.
#[derive(Debug, Clone, Copy, PartialEq, Eq, Hash, Structural)]
pub struct Endpoint {
    pub address: Ipv4,
    pub port: u16,
}

impl Endpoint {
    pub open spec fn written(self) -> Seq<char> {
        self.address.dotted() + ":"@ + text::decimal(self.port as nat)
    }

    /// The address and the port, parted by a colon.
    pub fn to_text(self) -> (r: String)
        ensures
            r@ == self.written(),
    {
        text::concat3(
            self.address.to_text().as_str(),
            ":",
            text::decimal_text(self.port as u64).as_str(),
        )
    }
}

/// Whether an address means the same thing at the far end of the tunnel as it
/// does here.
pub open spec fn globally_routable(address: Ipv4) -> bool {
    let a = address.byte(0);
    let b = address.byte(1);
    let c = address.byte(2);
    // Private, loopback and link-local.
    &&& a != 10
    &&& !(a == 172 && 16 <= b <= 31)
    &&& !(a == 192 && b == 168)
    &&& a != 127
    &&& !(a == 169 && b == 254)
    // Broadcast, multicast and unspecified.
    &&& address.0 != 0xffff_ffff
    &&& !(224 <= a <= 239)
    &&& address.0 != 0
    // The three documentation networks.
    &&& !(a == 192 && b == 0 && c == 2)
    &&& !(a == 198 && b == 51 && c == 100)
    &&& !(a == 203 && b == 0 && c == 113)
    // Carrier-grade NAT.
    &&& !(a == 100 && 64 <= b <= 127)
}

/// Whether an address means the same thing at the far end of the tunnel as it
/// does here.
///
/// A private, loopback or link-local destination is defined relative to the
/// machine holding it: `192.168.1.1` is the user's own router, and the relay
/// resolving that address would find its own LAN or nothing at all. Anything
/// aimed at one of these has to stay on the local network, because sending it
/// through the tunnel does not move it somewhere useful -- it drops it.
///
/// Carrier-grade NAT space is excluded for the same reason: it is the ISP's
/// interior, unreachable from anywhere else.
pub fn is_globally_routable_ipv4(address: Ipv4) -> (r: bool)
    ensures
        r == globally_routable(address),
{
    let o = address.octets();
    let a: u8 = o[0];
    let b: u8 = o[1];
    let c: u8 = o[2];
    a != 10 && !(a == 172 && 16 <= b && b <= 31) && !(a == 192 && b == 168) && a != 127 && !(a
        == 169 && b == 254) && address.0 != 0xffff_ffff && !(224 <= a && a <= 239) && address.0 != 0
        && !(a == 192 && b == 0 && c == 2) && !(a == 198 && b == 51 && c == 100) && !(a == 203 && b
        == 0 && c == 113) && !(a == 100 && 64 <= b && b <= 127)
}

/// An IPv6 address, as eight groups.
#[derive(Debug, Clone, Copy)]
pub struct Ipv6(pub [u16; 8]);

/// Whether an IPv6 address is one a machine could reach the Internet from: not
/// loopback, unspecified, link-local (fe80::/10) or unique local (fc00::/7).
pub open spec fn globally_routable_v6(groups: Seq<u16>) -> bool {
    &&& groups != seq![0u16, 0u16, 0u16, 0u16, 0u16, 0u16, 0u16, 1u16]
    &&& groups != seq![0u16, 0u16, 0u16, 0u16, 0u16, 0u16, 0u16, 0u16]
    &&& !(0xfe80 <= groups[0] <= 0xfebf)
    &&& !(0xfc00 <= groups[0] <= 0xfdff)
}

fn all_zero_but_last(groups: &[u16; 8], last: u16) -> (r: bool)
    ensures
        r == (groups@ == seq![0u16, 0u16, 0u16, 0u16, 0u16, 0u16, 0u16, last]),
{
    let r: bool = groups[0] == 0 && groups[1] == 0 && groups[2] == 0 && groups[3] == 0 && groups[4]
        == 0 && groups[5] == 0 && groups[6] == 0 && groups[7] == last;
    proof {
        let want = seq![0u16, 0u16, 0u16, 0u16, 0u16, 0u16, 0u16, last];
        if r {
            assert(groups@ =~= want);
        } else if groups@ == want {
            assert(want[0] == 0 && want[1] == 0 && want[2] == 0 && want[3] == 0);
            assert(want[4] == 0 && want[5] == 0 && want[6] == 0 && want[7] == last);
        }
    }
    r
}

/// Whether `address` is one this machine could reach the Internet from.
///
/// Loopback, link-local and unique-local addresses exist on machines with no
/// IPv6 connectivity at all, so treating them as an exposure would warn
/// everyone.
pub fn is_globally_routable_ipv6(address: Ipv6) -> (r: bool)
    ensures
        r == globally_routable_v6(address.0@),
{
    let first: u16 = address.0[0];
    !all_zero_but_last(&address.0, 1) && !all_zero_but_last(&address.0, 0) && !(0xfe80 <= first
        && first <= 0xfebf) && !(0xfc00 <= first && first <= 0xfdff)
}

/// One group of an IPv6 text: one to four hexadecimal digits.
pub open spec fn group_of(s: Seq<char>) -> Option<u16> {
    if 1 <= s.len() <= 4 && forall|i: int|
        0 <= i < s.len() ==> text::is_hex_digit(#[trigger] s[i]) {
        Some(text::hex_number(s) as u16)
    } else {
        None
    }
}

/// The groups that colon-separated pieces stand for. Where `dotted` is allowed,
/// the last piece may be an IPv4 address, which makes two groups.
pub open spec fn groups_of(pieces: Seq<Seq<char>>, dotted: bool) -> Option<Seq<u16>>
    decreases pieces.len(),
{
    if pieces.len() == 0 {
        Some(Seq::<u16>::empty())
    } else {
        match groups_of(pieces.drop_last(), false) {
            None => None,
            Some(before) => match group_of(pieces.last()) {
                Some(group) => Some(before.push(group)),
                None => match ipv4_of(pieces.last()) {
                    Some(address) if dotted => Some(
                        before.push((address.0 / 0x1_0000) as u16).push(
                            (address.0 % 0x1_0000) as u16,
                        ),
                    ),
                    _ => None,
                },
            },
        }
    }
}

/// The groups of one side of a text.
pub open spec fn side_of(s: Seq<char>, dotted: bool) -> Option<Seq<u16>> {
    if s.len() == 0 {
        Some(Seq::<u16>::empty())
    } else {
        groups_of(text::split_at_char(s, ':'), dotted)
    }
}

/// Where the first pair of colons stands, or the length.
pub open spec fn first_gap(s: Seq<char>) -> nat
    decreases s.len(),
{
    if s.len() < 2 {
        s.len()
    } else if s[0] == ':' && s[1] == ':' {
        0
    } else {
        1 + first_gap(s.skip(1))
    }
}

pub open spec fn zeros(n: nat) -> Seq<u16> {
    Seq::new(n, |i: int| 0u16)
}

/// The IPv6 address that a text stands for: eight groups, or fewer with one
/// pair of colons in place of at least one zero group.
pub open spec fn ipv6_of(s: Seq<char>) -> Option<Seq<u16>> {
    let n = first_gap(s) as int;
    if n >= s.len() {
        match side_of(s, true) {
            Some(all) if all.len() == 8 => Some(all),
            _ => None,
        }
    } else {
        match (side_of(s.take(n), false), side_of(s.skip(n + 2), true)) {
            (Some(head), Some(tail)) => if head.len() + tail.len() <= 7 {
                Some(head + zeros((8 - head.len() - tail.len()) as nat) + tail)
            } else {
                None
            },
            _ => None,
        }
    }
}

fn parse_group(s: &[char]) -> (r: Option<u16>)
    ensures
        r == group_of(s@),
{
    if s.len() < 1 || s.len() > 4 {
        return None;
    }
    let mut value: u16 = 0;
    let mut at: usize = 0;
    assert(s@.take(0) =~= Seq::<char>::empty());
    while at < s.len()
        invariant
            at <= s@.len() <= 4,
            forall|i: int| 0 <= i < at ==> text::is_hex_digit(#[trigger] s@[i]),
            value == text::hex_number(s@.take(at as int)),
            at == 0 ==> value == 0,
            at == 1 ==> value < 16,
            at == 2 ==> value < 256,
            at == 3 ==> value < 4096,
        decreases s@.len() - at,
    {
        assert(s@.take(at + 1).drop_last() =~= s@.take(at as int));
        match text::hex_digit(s[at]) {
            Some(d) => {
                value = value * 16 + d as u16;
            },
            None => {
                assert(!text::is_hex_digit(s@[at as int]));
                return None;
            },
        }
        at = at + 1;
    }
    assert(s@.take(at as int) =~= s@);
    Some(value)
}

fn parse_groups(pieces: &Vec<Vec<char>>, dotted: bool) -> (r: Option<Vec<u16>>)
    ensures
        match groups_of(text::views(pieces@), dotted) {
            Some(groups) => r matches Some(found) && found@ == groups,
            None => r is None,
        },
{
    let mut groups: Vec<u16> = Vec::new();
    let ghost all = text::views(pieces@);
    let mut at: usize = 0;
    assert(all.take(0) =~= Seq::<Seq<char>>::empty());
    assert(groups@ =~= Seq::<u16>::empty());
    while at < pieces.len()
        invariant
            at <= pieces@.len(),
            all == text::views(pieces@),
            at < pieces@.len() ==> groups_of(all.take(at as int), false) == Some(groups@),
            at == pieces@.len() ==> groups_of(all, dotted) == Some(groups@),
        decreases pieces@.len() - at,
    {
        let piece = pieces[at].as_slice();
        assert(all.take(at + 1).drop_last() =~= all.take(at as int));
        assert(all.take(at + 1).last() == piece@);
        let last: bool = at + 1 == pieces.len();
        proof {
            if last {
                assert(all.take(at + 1) =~= all);
            }
        }
        match parse_group(piece) {
            Some(group) => groups.push(group),
            None => {
                let address = parse_ipv4(piece);
                if last && dotted && address.is_some() {
                    let bits: u32 = address.unwrap().0;
                    groups.push((bits / 0x1_0000) as u16);
                    groups.push((bits % 0x1_0000) as u16);
                } else {
                    proof {
                        lemma_bad_piece(all, at as int, dotted);
                    }
                    return None;
                }
            },
        }
        at = at + 1;
        proof {
            if at == pieces@.len() {
                assert(all.take(at as int) =~= all);
            }
        }
    }
    Some(groups)
}

proof fn lemma_bad_piece(pieces: Seq<Seq<char>>, n: int, dotted: bool)
    requires
        0 <= n < pieces.len(),
        group_of(pieces[n]) is None,
        n + 1 < pieces.len() || !dotted || ipv4_of(pieces[n]) is None,
    ensures
        groups_of(pieces, dotted) is None,
    decreases pieces.len(),
{
    if n + 1 < pieces.len() {
        lemma_bad_piece(pieces.drop_last(), n, false);
    }
}

fn parse_side(s: &[char], dotted: bool) -> (r: Option<Vec<u16>>)
    ensures
        match side_of(s@, dotted) {
            Some(groups) => r matches Some(found) && found@ == groups,
            None => r is None,
        },
{
    if s.len() == 0 {
        let none: Vec<u16> = Vec::new();
        assert(none@ =~= Seq::<u16>::empty());
        return Some(none);
    }
    parse_groups(&text::split(s, ':'), dotted)
}

proof fn lemma_first_gap(s: Seq<char>, n: nat)
    requires
        n <= s.len(),
        forall|i: int| 0 <= i < n && i + 1 < s.len() ==> !(#[trigger] s[i] == ':' && s[i + 1] == ':'),
        n < s.len() ==> n + 1 < s.len() && s[n as int] == ':' && s[n as int + 1] == ':',
    ensures
        first_gap(s) == n,
    decreases n,
{
    if n > 0 {
        if s.len() >= 2 {
            assert(!(s[0] == ':' && s[1] == ':'));
            assert forall|i: int| 0 <= i < n - 1 && i + 1 < s.skip(1).len() implies !(
            #[trigger] s.skip(1)[i] == ':' && s.skip(1)[i + 1] == ':') by {
                assert(!(s[i + 1] == ':' && s[i + 2] == ':'));
            }
            lemma_first_gap(s.skip(1), (n - 1) as nat);
        }
    }
}

/// Reads an IPv6 address.
pub fn parse_ipv6(s: &[char]) -> (r: Option<Ipv6>)
    ensures
        match ipv6_of(s@) {
            Some(groups) => r matches Some(found) && found.0@ == groups,
            None => r is None,
        },
{
    let size: usize = s.len();
    let mut n: usize = 0;
    while n < size && !(n + 1 < size && s[n] == ':' && s[n + 1] == ':')
        invariant
            n <= size == s@.len(),
            forall|i: int|
                0 <= i < n && i + 1 < s@.len() ==> !(#[trigger] s@[i] == ':' && s@[i + 1] == ':'),
        decreases size - n,
    {
        n = n + 1;
    }
    proof {
        lemma_first_gap(s@, n as nat);
    }
    if n == size {
        return match parse_side(s, true) {
            Some(all) => {
                if all.len() == 8 {
                    Some(Ipv6(eight(all.as_slice())))
                } else {
                    None
                }
            },
            None => None,
        };
    }
    let left = slice_subrange(s, 0, n);
    let right = slice_subrange(s, n + 2, size);
    assert(left@ =~= s@.take(n as int));
    assert(right@ =~= s@.skip(n + 2));
    match (parse_side(left, false), parse_side(right, true)) {
        (Some(head), Some(tail)) => {
            if head.len() > 7 || tail.len() > 7 || head.len() + tail.len() > 7 {
                return None;
            }
            let gap: usize = 8 - head.len() - tail.len();
            let mut all: Vec<u16> = head;
            let mut k: usize = 0;
            assert(all@ =~= head@ + zeros(0));
            while k < gap
                invariant
                    k <= gap,
                    all@ == head@ + zeros(k as nat),
                decreases gap - k,
            {
                all.push(0);
                k = k + 1;
                assert(all@ =~= head@ + zeros(k as nat));
            }
            let mut rest: Vec<u16> = tail;
            all.append(&mut rest);
            assert(all@ =~= head@ + zeros(gap as nat) + tail@);
            Some(Ipv6(eight(all.as_slice())))
        },
        _ => None,
    }
}

fn eight(groups: &[u16]) -> (r: [u16; 8])
    requires
        groups@.len() == 8,
    ensures
        r@ == groups@,
{
    let r: [u16; 8] = [
        groups[0],
        groups[1],
        groups[2],
        groups[3],
        groups[4],
        groups[5],
        groups[6],
        groups[7],
    ];
    assert(r@ =~= groups@);
    r
}

/// How many zero groups stand in a row from `i` on.
pub open spec fn zero_run(groups: Seq<u16>, i: int) -> nat
    decreases groups.len() - i,
{
    if 0 <= i < groups.len() && groups[i] == 0 {
        1 + zero_run(groups, i + 1)
    } else {
        0
    }
}

/// Where the longest run of zero groups from `i` on begins, and the first of
/// them on a tie.
pub open spec fn longest_run(groups: Seq<u16>, i: int) -> int
    decreases groups.len() - i,
{
    if i + 1 >= groups.len() {
        i
    } else {
        let later = longest_run(groups, i + 1);
        if zero_run(groups, i) >= zero_run(groups, later) {
            i
        } else {
            later
        }
    }
}

/// Groups in hexadecimal, parted by colons.
pub open spec fn groups_text(groups: Seq<u16>) -> Seq<char>
    decreases groups.len(),
{
    if groups.len() == 0 {
        Seq::<char>::empty()
    } else if groups.len() == 1 {
        text::hex(groups[0] as nat)
    } else {
        groups_text(groups.drop_last()) + ":"@ + text::hex(groups.last() as nat)
    }
}

/// The canonical text of an IPv6 address: lower-case hexadecimal without leading
/// zeros, the longest run of two or more zero groups replaced by a pair of
/// colons, and a mapped IPv4 address in dotted decimal.
pub open spec fn ipv6_text(groups: Seq<u16>) -> Seq<char> {
    if groups.take(6) == seq![0u16, 0u16, 0u16, 0u16, 0u16, 0xffffu16] {
        "::ffff:"@ + Ipv4((groups[6] * 0x1_0000 + groups[7]) as u32).dotted()
    } else {
        let start = longest_run(groups, 0);
        let run = zero_run(groups, start) as int;
        if run > 1 {
            groups_text(groups.take(start)) + "::"@ + groups_text(groups.skip(start + run))
        } else {
            groups_text(groups)
        }
    }
}

fn groups_to_text(groups: &[u16]) -> (r: String)
    ensures
        r@ == groups_text(groups@),
{
    let mut r = String::new();
    let mut at: usize = 0;
    assert(groups@.take(0) =~= Seq::<u16>::empty());
    while at < groups.len()
        invariant
            at <= groups@.len(),
            r@ == groups_text(groups@.take(at as int)),
        decreases groups@.len() - at,
    {
        assert(groups@.take(at + 1).drop_last() =~= groups@.take(at as int));
        let word = text::hex_text(groups[at] as u64);
        if at > 0 {
            r.append(":");
            r.append(word.as_str());
        } else {
            r = word;
        }
        at = at + 1;
    }
    assert(groups@.take(at as int) =~= groups@);
    r
}

fn run_from(groups: &[u16], i: usize) -> (n: usize)
    requires
        i <= groups@.len(),
    ensures
        n == zero_run(groups@, i as int),
        i + n <= groups@.len(),
    decreases groups@.len() - i,
{
    if i < groups.len() && groups[i] == 0 {
        1 + run_from(groups, i + 1)
    } else {
        0
    }
}

fn longest_from(groups: &[u16], i: usize) -> (start: usize)
    requires
        i < groups@.len(),
    ensures
        start == longest_run(groups@, i as int),
        i <= start < groups@.len(),
    decreases groups@.len() - i,
{
    if groups.len() - i <= 1 {
        return i;
    }
    let later: usize = longest_from(groups, i + 1);
    if run_from(groups, i) >= run_from(groups, later) {
        i
    } else {
        later
    }
}

impl Ipv6 {
    /// The canonical text of the address.
    pub fn to_text(&self) -> (r: String)
        ensures
            r@ == ipv6_text(self.0@),
    {
        let groups = self.0.as_slice();
        let mapped: bool = groups[0] == 0 && groups[1] == 0 && groups[2] == 0 && groups[3] == 0
            && groups[4] == 0 && groups[5] == 0xffff;
        proof {
            let want = seq![0u16, 0u16, 0u16, 0u16, 0u16, 0xffffu16];
            let head = self.0@.take(6);
            if mapped {
                assert(head =~= want);
            } else if head == want {
                assert(want[0] == 0 && want[1] == 0 && want[2] == 0);
                assert(want[3] == 0 && want[4] == 0 && want[5] == 0xffff);
                assert(head[0] == groups@[0] && head[1] == groups@[1] && head[2] == groups@[2]);
                assert(head[3] == groups@[3] && head[4] == groups@[4] && head[5] == groups@[5]);
            }
        }
        if mapped {
            let inner = Ipv4(groups[6] as u32 * 0x1_0000 + groups[7] as u32);
            return text::concat2("::ffff:", inner.to_text().as_str());
        }
        let start: usize = longest_from(groups, 0);
        let run: usize = run_from(groups, start);
        if run > 1 {
            let before = slice_subrange(groups, 0, start);
            let after = slice_subrange(groups, start + run, groups.len());
            assert(before@ =~= self.0@.take(start as int));
            assert(after@ =~= self.0@.skip(start + run));
            text::concat3(
                groups_to_text(before).as_str(),
                "::",
                groups_to_text(after).as_str(),
            )
        } else {
            groups_to_text(groups)
        }
    }
}

/// Whether a text is the address of this machine itself: an IPv4 address that
/// begins with 127, or the IPv6 address one.
pub open spec fn loopback_text(s: Seq<char>) -> bool {
    match ipv4_of(s) {
        Some(address) => address.byte(0) == 127,
        None => ipv6_of(s) == Some(seq![0u16, 0u16, 0u16, 0u16, 0u16, 0u16, 0u16, 1u16]),
    }
}

pub fn is_loopback_text(s: &[char]) -> (r: bool)
    ensures
        r == loopback_text(s@),
{
    match parse_ipv4(s) {
        Some(address) => address.octets()[0] == 127,
        None => match parse_ipv6(s) {
            Some(address) => all_zero_but_last(&address.0, 1),
            None => false,
        },
    }
}

/// An address of either family.
#[derive(Debug, Clone, Copy)]
pub enum IpAddress {
    V4(Ipv4),
    V6(Ipv6),
}

impl IpAddress {
    /// Whether two addresses are the same one.
    pub open spec fn same(self, other: Self) -> bool {
        match (self, other) {
            (IpAddress::V4(a), IpAddress::V4(b)) => a == b,
            (IpAddress::V6(a), IpAddress::V6(b)) => a.0@ == b.0@,
            _ => false,
        }
    }

    pub fn is_same(&self, other: &Self) -> (r: bool)
        ensures
            r == self.same(*other),
    {
        match (self, other) {
            (IpAddress::V4(a), IpAddress::V4(b)) => a.0 == b.0,
            (IpAddress::V6(a), IpAddress::V6(b)) => same_groups(&a.0, &b.0),
            _ => false,
        }
    }
}

/// Where a server is reached, over either family.
#[derive(Debug, Clone, Copy)]
pub struct SocketAddress {
    pub ip: IpAddress,
    pub port: u16,
}

/// What tells two socket addresses apart.
#[verifier::ext_equal]
pub struct SocketModel {
    pub v6: bool,
    pub v4_bits: u32,
    pub groups: Seq<u16>,
    pub port: u16,
}

impl SocketAddress {
    pub open spec fn model(self) -> SocketModel {
        match self.ip {
            IpAddress::V4(a) => SocketModel {
                v6: false,
                v4_bits: a.0,
                groups: Seq::<u16>::empty(),
                port: self.port,
            },
            IpAddress::V6(a) => SocketModel { v6: true, v4_bits: 0, groups: a.0@, port: self.port },
        }
    }

    /// The IPv4 address, where it is one.
    pub open spec fn v4(self) -> Option<Ipv4> {
        match self.ip {
            IpAddress::V4(a) => Some(a),
            IpAddress::V6(_) => None,
        }
    }

    /// The address and the port, with an IPv6 address in brackets.
    pub open spec fn written(self) -> Seq<char> {
        match self.ip {
            IpAddress::V4(a) => a.dotted() + ":"@ + text::decimal(self.port as nat),
            IpAddress::V6(a) => "["@ + ipv6_text(a.0@) + "]:"@ + text::decimal(self.port as nat),
        }
    }

    pub fn over_ipv4(address: Ipv4, port: u16) -> (r: Self)
        ensures
            r.model() == (SocketModel {
                v6: false,
                v4_bits: address.0,
                groups: Seq::<u16>::empty(),
                port,
            }),
            r.v4() == Some(address),
            r.port == port,
    {
        SocketAddress { ip: IpAddress::V4(address), port }
    }

    pub fn ipv4(&self) -> (r: Option<Ipv4>)
        ensures
            r == self.v4(),
    {
        match self.ip {
            IpAddress::V4(a) => Some(a),
            IpAddress::V6(_) => None,
        }
    }

    pub fn is_same(&self, other: &Self) -> (r: bool)
        ensures
            r == (self.model() == other.model()),
    {
        match (&self.ip, &other.ip) {
            (IpAddress::V4(a), IpAddress::V4(b)) => a.0 == b.0 && self.port == other.port,
            (IpAddress::V6(a), IpAddress::V6(b)) => {
                same_groups(&a.0, &b.0) && self.port == other.port
            },
            _ => false,
        }
    }

    pub fn to_text(&self) -> (r: String)
        ensures
            r@ == self.written(),
    {
        let port = text::decimal_text(self.port as u64);
        match self.ip {
            IpAddress::V4(a) => text::concat3(a.to_text().as_str(), ":", port.as_str()),
            IpAddress::V6(a) => {
                let mut r = text::concat3("[", a.to_text().as_str(), "]:");
                r.append(port.as_str());
                r
            },
        }
    }
}

fn same_groups(a: &[u16; 8], b: &[u16; 8]) -> (r: bool)
    ensures
        r == (a@ == b@),
{
    let r: bool = a[0] == b[0] && a[1] == b[1] && a[2] == b[2] && a[3] == b[3] && a[4] == b[4]
        && a[5] == b[5] && a[6] == b[6] && a[7] == b[7];
    proof {
        if r {
            assert(a@ =~= b@);
        }
    }
    r
}

proof fn lemma_octet_reads_back(b: u8)
    ensures
        octet_of(text::decimal(b as nat)) == Some(b),
        forall|i: int|
            0 <= i < text::decimal(b as nat).len() ==> text::is_digit(
                #[trigger] text::decimal(b as nat)[i],
            ),
{
    let n = b as nat;
    text::lemma_decimal_reads_back(n);
    reveal_with_fuel(text::decimal, 4);
    if n >= 10 {
        if n >= 100 {
            assert(text::decimal(n)[0] == text::digit_char(n / 100));
        } else {
            assert(text::decimal(n)[0] == text::digit_char(n / 10));
        }
    }
}

proof fn lemma_bytes_of_made(a: u8, b: u8, c: u8, d: u8)
    ensures
        Ipv4::made(a, b, c, d).byte(0) == a,
        Ipv4::made(a, b, c, d).byte(1) == b,
        Ipv4::made(a, b, c, d).byte(2) == c,
        Ipv4::made(a, b, c, d).byte(3) == d,
{
    let n = a * 0x100_0000 + b * 0x1_0000 + c * 0x100 + d;
    assert(n / 0x100_0000 == a);
    assert(n / 0x1_0000 == a * 0x100 + b);
    assert(n / 0x100 == a * 0x1_0000 + b * 0x100 + c);
}

proof fn lemma_four_joined(a: Seq<char>, b: Seq<char>, c: Seq<char>, d: Seq<char>)
    ensures
        text::separated(seq![a, b, c, d], seq!['.']) == a + "."@ + b + "."@ + c + "."@ + d,
{
    reveal_strlit(".");
    assert("."@ =~= seq!['.']);
    let dot = seq!['.'];
    assert(seq![a, b, c, d].drop_last() =~= seq![a, b, c]);
    assert(seq![a, b, c].drop_last() =~= seq![a, b]);
    assert(seq![a, b].drop_last() =~= seq![a]);
    assert(text::separated(seq![a], dot) == a);
    assert(text::separated(seq![a, b], dot) == a + dot + b);
    assert(text::separated(seq![a, b, c], dot) == a + dot + b + dot + c);
}

/// An address that was written in dotted decimal reads back, and its four parts
/// stand in it in order, in plain decimal.
pub proof fn a_dotted_address_reads_back(a: u8, b: u8, c: u8, d: u8)
    ensures
        ({
            let address = Ipv4::made(a, b, c, d);
            let written = text::separated(
                seq![
                    text::decimal(a as nat),
                    text::decimal(b as nat),
                    text::decimal(c as nat),
                    text::decimal(d as nat),
                ],
                seq!['.'],
            );
            &&& address.dotted() == written
            &&& ipv4_of(written) == Some(address)
            &&& address.byte(0) == a && address.byte(1) == b && address.byte(2) == c
                && address.byte(3) == d
        }),
{
    let parts = seq![
        text::decimal(a as nat),
        text::decimal(b as nat),
        text::decimal(c as nat),
        text::decimal(d as nat),
    ];
    let address = Ipv4::made(a, b, c, d);
    lemma_octet_reads_back(a);
    lemma_octet_reads_back(b);
    lemma_octet_reads_back(c);
    lemma_octet_reads_back(d);
    assert forall|k: int, i: int|
        #![trigger parts[k][i]]
        0 <= k < parts.len() && 0 <= i < parts[k].len() implies parts[k][i] != '.' by {
        assert(text::is_digit(parts[k][i]));
    }
    text::lemma_split_undoes_join(parts, '.');
    lemma_bytes_of_made(a, b, c, d);
    lemma_four_joined(parts[0], parts[1], parts[2], parts[3]);
}

/// A dotted address holds digits and dots.
pub proof fn lemma_dotted_characters(a: u8, b: u8, c: u8, d: u8)
    ensures
        ({
            let s = Ipv4::made(a, b, c, d).dotted();
            &&& s.len() >= 7
            &&& forall|i: int| 0 <= i < s.len() ==> text::is_digit(#[trigger] s[i]) || s[i] == '.'
        }),
{
    a_dotted_address_reads_back(a, b, c, d);
    lemma_octet_reads_back(a);
    lemma_octet_reads_back(b);
    lemma_octet_reads_back(c);
    lemma_octet_reads_back(d);
    let p = text::decimal(a as nat);
    let q = text::decimal(b as nat);
    let r = text::decimal(c as nat);
    let t = text::decimal(d as nat);
    lemma_four_joined(p, q, r, t);
    reveal_strlit(".");
    let s = Ipv4::made(a, b, c, d).dotted();
    assert(s == p + "."@ + q + "."@ + r + "."@ + t);
    lemma_joined_characters(p, q, r, t);
}

proof fn lemma_joined_characters(p: Seq<char>, q: Seq<char>, r: Seq<char>, t: Seq<char>)
    requires
        text::all_digits(p),
        text::all_digits(q),
        text::all_digits(r),
        text::all_digits(t),
    ensures
        ({
            let s = p + "."@ + q + "."@ + r + "."@ + t;
            forall|i: int| 0 <= i < s.len() ==> text::is_digit(#[trigger] s[i]) || s[i] == '.'
        }),
{
    reveal_strlit(".");
}

/// The networks whose addresses mean something only where they are used, each
/// with its first and its last address: the private ones, loopback, link-local,
/// carrier-grade NAT, documentation, multicast, and the two ends of the whole.
pub proof fn what_stays_on_the_local_network(address: Ipv4)
    ensures
        ({
            let n = address.0;
            globally_routable(address) <==> !((0x0a00_0000 <= n <= 0x0aff_ffff) || (0xac10_0000 <= n
                <= 0xac1f_ffff) || (0xc0a8_0000 <= n <= 0xc0a8_ffff) || (0x7f00_0000 <= n
                <= 0x7fff_ffff) || (0xa9fe_0000 <= n <= 0xa9fe_ffff) || (0x6440_0000 <= n
                <= 0x647f_ffff) || (0xc000_0200 <= n <= 0xc000_02ff) || (0xc633_6400 <= n
                <= 0xc633_64ff) || (0xcb00_7100 <= n <= 0xcb00_71ff) || (0xe000_0000 <= n
                <= 0xefff_ffff) || n == 0 || n == 0xffff_ffff)
        }),
{
    let n = address.0 as int;
    let a = address.byte(0) as int;
    let b = address.byte(1) as int;
    let c = address.byte(2) as int;
    let d = n % 256;
    assert(n / 0x1_0000 == a * 256 + b);
    assert(n / 0x100 == (n / 0x1_0000) * 256 + c);
    assert(n == a * 0x100_0000 + b * 0x1_0000 + c * 0x100 + d);
}

proof fn lemma_group_reads_back(g: u16)
    ensures
        group_of(text::hex(g as nat)) == Some(g),
        forall|i: int|
            0 <= i < text::hex(g as nat).len() ==> text::is_hex_digit(
                #[trigger] text::hex(g as nat)[i],
            ),
        text::hex(g as nat).len() > 0,
{
    text::a_hexadecimal_number_reads_back(g as nat);
    reveal_with_fuel(text::hex, 5);
}

/// A text without a pair of colons that neither begins nor ends with one.
spec fn solid(s: Seq<char>) -> bool {
    &&& s.len() > 0
    &&& s[0] != ':'
    &&& s.last() != ':'
    &&& forall|i: int| 0 <= i < s.len() - 1 ==> !(#[trigger] s[i] == ':' && s[i + 1] == ':')
}

spec fn group_texts(groups: Seq<u16>) -> Seq<Seq<char>> {
    groups.map_values(|g: u16| text::hex(g as nat))
}

proof fn lemma_groups_text(groups: Seq<u16>)
    requires
        groups.len() > 0,
    ensures
        text::split_at_char(groups_text(groups), ':') == group_texts(groups),
        solid(groups_text(groups)),
        forall|i: int|
            0 <= i < groups_text(groups).len() ==> text::is_hex_digit(
                #[trigger] groups_text(groups)[i],
            ) || groups_text(groups)[i] == ':',
    decreases groups.len(),
{
    let last = text::hex(groups.last() as nat);
    lemma_group_reads_back(groups.last());
    assert forall|i: int| 0 <= i < last.len() implies last[i] != ':' by {
        assert(text::is_hex_digit(last[i]));
    }
    let s = groups_text(groups);
    if groups.len() == 1 {
        text::lemma_first_index(s, ':', s.len());
        assert(group_texts(groups) =~= seq![s]);
        assert(text::is_hex_digit(s[0]) && text::is_hex_digit(s[s.len() - 1]));
    } else {
        let less = groups.drop_last();
        lemma_groups_text(less);
        let a = groups_text(less);
        reveal_strlit(":");
        assert(":"@ =~= seq![':']);
        text::lemma_split_last(a, last, ':');
        assert(group_texts(groups) =~= group_texts(less).push(last));
        assert(s == a + seq![':'] + last);
        assert(s[0] == a[0]);
        assert(s.last() == last[last.len() - 1]);
        assert forall|i: int| 0 <= i < s.len() - 1 implies !(#[trigger] s[i] == ':' && s[i + 1]
            == ':') by {
            if i < a.len() - 1 {
                assert(s[i] == a[i] && s[i + 1] == a[i + 1]);
            } else if i == a.len() - 1 {
                assert(s[i] == a.last());
            } else if i == a.len() {
                assert(s[i + 1] == last[0]);
            } else {
                assert(s[i] == last[i - a.len() - 1]);
            }
        }
        assert forall|i: int| 0 <= i < s.len() implies text::is_hex_digit(#[trigger] s[i]) || s[i]
            == ':' by {
            if i < a.len() {
                assert(s[i] == a[i]);
            } else if i > a.len() {
                assert(s[i] == last[i - a.len() - 1]);
            }
        }
    }
}

proof fn lemma_groups_read_back(groups: Seq<u16>, dotted: bool)
    ensures
        groups_of(group_texts(groups), dotted) == Some(groups),
    decreases groups.len(),
{
    if groups.len() == 0 {
        assert(group_texts(groups).len() == 0);
        assert(groups =~= Seq::<u16>::empty());
    } else {
        let less = groups.drop_last();
        lemma_groups_read_back(less, false);
        lemma_group_reads_back(groups.last());
        assert(group_texts(groups).drop_last() =~= group_texts(less));
        assert(group_texts(groups).last() == text::hex(groups.last() as nat));
        assert(less.push(groups.last()) =~= groups);
    }
}

proof fn lemma_side_reads_back(groups: Seq<u16>, dotted: bool)
    ensures
        side_of(groups_text(groups), dotted) == Some(groups),
{
    if groups.len() == 0 {
        assert(groups =~= Seq::<u16>::empty());
    } else {
        lemma_groups_text(groups);
        lemma_groups_read_back(groups, dotted);
    }
}

proof fn lemma_zero_run(groups: Seq<u16>, i: int)
    requires
        0 <= i <= groups.len(),
    ensures
        i + zero_run(groups, i) <= groups.len(),
        forall|j: int| i <= j < i + zero_run(groups, i) ==> groups[j] == 0,
    decreases groups.len() - i,
{
    if i < groups.len() && groups[i] == 0 {
        lemma_zero_run(groups, i + 1);
    }
}

proof fn lemma_longest_run(groups: Seq<u16>, i: int)
    requires
        0 <= i < groups.len(),
    ensures
        i <= longest_run(groups, i) < groups.len(),
    decreases groups.len() - i,
{
    if i + 1 < groups.len() {
        lemma_longest_run(groups, i + 1);
    }
}

proof fn lemma_gap_between(a: Seq<char>, b: Seq<char>)
    requires
        a.len() == 0 || solid(a),
    ensures
        first_gap(a + seq![':', ':'] + b) == a.len(),
{
    let s = a + seq![':', ':'] + b;
    assert forall|i: int| 0 <= i < a.len() implies !(#[trigger] s[i] == ':' && s[i + 1] == ':') by {
        assert(s[i] == a[i]);
        if i < a.len() - 1 {
            assert(s[i + 1] == a[i + 1]);
        } else {
            assert(a.last() == a[i]);
        }
    }
    assert(s[a.len() as int] == ':' && s[a.len() as int + 1] == ':');
    lemma_first_gap(s, a.len());
}

proof fn lemma_mapped_reads_back(groups: Seq<u16>)
    requires
        groups.len() == 8,
        groups.take(6) == seq![0u16, 0u16, 0u16, 0u16, 0u16, 0xffffu16],
    ensures
        ipv6_of(ipv6_text(groups)) == Some(groups),
        ipv4_of(ipv6_text(groups)) is None,
        forall|i: int|
            0 <= i < ipv6_text(groups).len() ==> text::is_hex_digit(
                #[trigger] ipv6_text(groups)[i],
            ) || ipv6_text(groups)[i] == ':' || ipv6_text(groups)[i] == '.',
        ipv6_text(groups).len() > 0,
{
    let address = Ipv4((groups[6] * 0x1_0000 + groups[7]) as u32);
    let dotted = address.dotted();
    let a = address.byte(0);
    let b = address.byte(1);
    let c = address.byte(2);
    let d = address.byte(3);
    let n = address.0 as int;
    assert(n / 0x1_0000 == (n / 0x100_0000) * 256 + n / 0x1_0000 % 256);
    assert(n / 0x100 == (n / 0x1_0000) * 256 + n / 0x100 % 256);
    assert(Ipv4::made(a, b, c, d) == address);
    a_dotted_address_reads_back(a, b, c, d);
    lemma_dotted_characters(a, b, c, d);
    reveal_strlit("::ffff:");
    let s = ipv6_text(groups);
    let word = seq!['f', 'f', 'f', 'f'];
    let tail = word + seq![':'] + dotted;
    assert(s =~= Seq::<char>::empty() + seq![':', ':'] + tail);
    lemma_gap_between(Seq::<char>::empty(), tail);
    assert(s.take(0) =~= Seq::<char>::empty());
    assert(s.skip(2) =~= tail);
    assert forall|i: int| 0 <= i < dotted.len() implies dotted[i] != ':' by {
        assert(text::is_digit(dotted[i]) || dotted[i] == '.');
    }
    text::lemma_first_index(word, ':', 4);
    assert(text::split_at_char(word, ':') == seq![word]);
    text::lemma_split_last(word, dotted, ':');
    let pieces = seq![word].push(dotted);
    assert(pieces.drop_last() =~= seq![word]);
    assert(seq![word].drop_last() =~= Seq::<Seq<char>>::empty());
    assert(groups_of(seq![word].drop_last(), false) == Some(Seq::<u16>::empty()));
    lemma_ffff();
    assert(groups_of(seq![word], false) == Some(Seq::<u16>::empty().push(0xffffu16)));
    assert(group_of(dotted) is None);
    let g = groups[6] as int;
    let h = groups[7] as int;
    assert((g * 0x1_0000 + h) / 0x1_0000 == g && (g * 0x1_0000 + h) % 0x1_0000 == h);
    let read = Seq::<u16>::empty().push(0xffffu16).push(groups[6]).push(groups[7]);
    assert(side_of(tail, true) == Some(read));
    let front = groups.take(6);
    assert(front[0] == 0 && front[1] == 0 && front[2] == 0 && front[3] == 0 && front[4] == 0
        && front[5] == 0xffff);
    assert(Seq::<u16>::empty() + zeros(5) + read =~= groups);
    assert forall|i: int| 0 <= i < s.len() implies text::is_hex_digit(#[trigger] s[i]) || s[i]
        == ':' || s[i] == '.' by {
        if i >= 7 {
            assert(s[i] == dotted[i - 7]);
        }
    }
    lemma_colon_is_no_ipv4(s);
}

proof fn lemma_ffff()
    ensures
        group_of(seq!['f', 'f', 'f', 'f']) == Some(0xffffu16),
{
    let s = seq!['f', 'f', 'f', 'f'];
    assert(s.drop_last() =~= seq!['f', 'f', 'f']);
    assert(seq!['f', 'f', 'f'].drop_last() =~= seq!['f', 'f']);
    assert(seq!['f', 'f'].drop_last() =~= seq!['f']);
    assert(seq!['f'].drop_last() =~= Seq::<char>::empty());
    assert(text::hex_value('f') == 15);
    assert(text::hex_number(Seq::<char>::empty()) == 0);
    assert(text::hex_number(seq!['f']) == 15);
    assert(text::hex_number(seq!['f', 'f']) == 255);
    assert(text::hex_number(seq!['f', 'f', 'f']) == 4095);
    assert(text::hex_number(s) == 65535);
}

/// A text that begins with a colon, or holds no dot, is no dotted address.
proof fn lemma_colon_is_no_ipv4(s: Seq<char>)
    requires
        s.len() > 0,
        s[0] == ':' || forall|i: int| 0 <= i < s.len() ==> s[i] != '.',
    ensures
        ipv4_of(s) is None,
{
    if s[0] == ':' {
        text::lemma_first_index_bound(s, '.');
        let n = text::first_index(s, '.') as int;
        let parts = text::split_at_char(s, '.');
        if n >= s.len() {
            assert(parts.len() == 1);
        } else {
            assert(n > 0);
            assert(parts[0] == s.take(n));
            assert(parts[0][0] == ':');
            assert(!text::is_digit(parts[0][0]));
        }
    } else {
        text::lemma_first_index(s, '.', s.len());
        assert(text::split_at_char(s, '.') == seq![s]);
    }
}

/// The canonical text of an IPv6 address reads back as the address, and is never
/// taken for an IPv4 address.
pub proof fn an_ipv6_address_reads_back(groups: Seq<u16>)
    requires
        groups.len() == 8,
    ensures
        ipv6_of(ipv6_text(groups)) == Some(groups),
        ipv4_of(ipv6_text(groups)) is None,
        ipv6_text(groups).len() > 0,
        forall|i: int|
            0 <= i < ipv6_text(groups).len() ==> text::is_hex_digit(
                #[trigger] ipv6_text(groups)[i],
            ) || ipv6_text(groups)[i] == ':' || ipv6_text(groups)[i] == '.',
{
    let s = ipv6_text(groups);
    if groups.take(6) == seq![0u16, 0u16, 0u16, 0u16, 0u16, 0xffffu16] {
        lemma_mapped_reads_back(groups);
    } else {
        let start = longest_run(groups, 0);
        lemma_longest_run(groups, 0);
        lemma_zero_run(groups, start);
        let run = zero_run(groups, start) as int;
        if run > 1 {
            let head = groups.take(start);
            let tail = groups.skip(start + run);
            let a = groups_text(head);
            let b = groups_text(tail);
            if head.len() > 0 {
                lemma_groups_text(head);
            }
            if tail.len() > 0 {
                lemma_groups_text(tail);
            }
            lemma_side_reads_back(head, false);
            lemma_side_reads_back(tail, true);
            reveal_strlit("::");
            assert("::"@ =~= seq![':', ':']);
            lemma_gap_between(a, b);
            assert(s == a + seq![':', ':'] + b);
            assert(s.take(a.len() as int) =~= a);
            assert(s.skip(a.len() as int + 2) =~= b);
            assert(head + zeros(run as nat) + tail =~= groups);
            assert forall|i: int| 0 <= i < s.len() implies text::is_hex_digit(#[trigger] s[i])
                || s[i] == ':' by {
                if i < a.len() {
                    assert(s[i] == a[i]);
                } else if i >= a.len() + 2 {
                    assert(s[i] == b[i - a.len() - 2]);
                }
            }
            assert forall|i: int| 0 <= i < s.len() implies s[i] != '.' by {
                assert(text::is_hex_digit(s[i]) || s[i] == ':');
            }
            lemma_colon_is_no_ipv4(s);
        } else {
            lemma_groups_text(groups);
            lemma_first_gap(s, s.len());
            lemma_side_reads_back(groups, true);
            assert forall|i: int| 0 <= i < s.len() implies s[i] != '.' by {
                assert(text::is_hex_digit(s[i]) || s[i] == ':');
            }
            lemma_colon_is_no_ipv4(s);
        }
    }
}

/// Loopback, the unspecified address, link-local and unique-local addresses are
/// the ones that no machine reaches the Internet from.
pub proof fn which_ipv6_addresses_stay_local(groups: Seq<u16>)
    requires
        groups.len() == 8,
    ensures
        groups[0] / 0x40 == 1018 ==> !globally_routable_v6(groups),
        groups[0] / 0x200 == 126 ==> !globally_routable_v6(groups),
        (forall|i: int| 0 <= i < 7 ==> groups[i] == 0) && groups[7] <= 1 ==> !globally_routable_v6(
            groups,
        ),
        globally_routable_v6(groups) <==> !(groups[0] / 0x40 == 1018 || groups[0] / 0x200
            == 126 || ((forall|i: int| 0 <= i < 7 ==> groups[i] == 0) && groups[7] <= 1)),
{
    let one = seq![0u16, 0u16, 0u16, 0u16, 0u16, 0u16, 0u16, 1u16];
    let none = seq![0u16, 0u16, 0u16, 0u16, 0u16, 0u16, 0u16, 0u16];
    if groups == one {
        assert forall|i: int| 0 <= i < 7 implies groups[i] == 0 by {}
        assert(groups[7] == 1);
    }
    if groups == none {
        assert forall|i: int| 0 <= i < 7 implies groups[i] == 0 by {}
        assert(groups[7] == 0);
    }
    if (forall|i: int| 0 <= i < 7 ==> groups[i] == 0) && groups[7] <= 1 {
        if groups[7] == 0 {
            assert(groups =~= none);
        } else {
            assert(groups =~= one);
        }
    }
}

/// An address is written in one way only: what reads as an address is its dotted
/// text, without leading zeros, signs or white space.
pub proof fn an_address_has_one_text(s: Seq<char>)
    ensures
        ipv4_of(s) matches Some(address) ==> address.dotted() == s,
{
    if let Some(address) = ipv4_of(s) {
        let parts = text::split_at_char(s, '.');
        text::lemma_join_undoes_split(s, '.');
        let a = octet_of(parts[0])->0;
        let b = octet_of(parts[1])->0;
        let c = octet_of(parts[2])->0;
        let d = octet_of(parts[3])->0;
        text::lemma_number_writes_back(parts[0]);
        text::lemma_number_writes_back(parts[1]);
        text::lemma_number_writes_back(parts[2]);
        text::lemma_number_writes_back(parts[3]);
        a_dotted_address_reads_back(a, b, c, d);
        assert(parts =~= seq![
            text::decimal(a as nat),
            text::decimal(b as nat),
            text::decimal(c as nat),
            text::decimal(d as nat),
        ]);
    }
}

} // verus!
