//! Which traffic a session takes.

use vstd::prelude::*;
use vstd::slice::slice_subrange;

use crate::net;
use crate::text;

verus! {

pub const BAD_MODE: &'static str = "traffic mode must be all or split";

pub const NO_TARGETS: &'static str = "split mode requires at least one target";

/// A target that the user chose.
#[derive(Debug, Clone)]
pub struct RuleSpec {
    pub kind: String,
    pub value: String,
}

/// What the capture layer is to take.
#[derive(Debug, Clone, PartialEq, Eq)]
pub struct InterceptionPlan {
    pub mode: String,
    pub backend: String,
    pub application_paths: Vec<String>,
    pub folder_prefixes: Vec<String>,
    pub hostnames: Vec<String>,
    pub ip_networks: Vec<String>,
    pub protocols: Vec<String>,
}

/// A target.
#[verifier::ext_equal]
pub struct RuleModel {
    pub kind: Seq<char>,
    pub value: Seq<char>,
}

/// What the capture layer is to take.
#[verifier::ext_equal]
pub struct PlanModel {
    pub mode: Seq<char>,
    pub backend: Seq<char>,
    pub application_paths: Seq<Seq<char>>,
    pub folder_prefixes: Seq<Seq<char>>,
    pub hostnames: Seq<Seq<char>>,
    pub ip_networks: Seq<Seq<char>>,
    pub protocols: Seq<Seq<char>>,
}

impl View for InterceptionPlan {
    type V = PlanModel;

    open spec fn view(&self) -> PlanModel {
        PlanModel {
            mode: self.mode@,
            backend: self.backend@,
            application_paths: text::string_views(self.application_paths@),
            folder_prefixes: text::string_views(self.folder_prefixes@),
            hostnames: text::string_views(self.hostnames@),
            ip_networks: text::string_views(self.ip_networks@),
            protocols: text::string_views(self.protocols@),
        }
    }
}

pub open spec fn rule_models(rules: Seq<RuleSpec>) -> Seq<RuleModel> {
    Seq::new(rules.len(), |i: int| RuleModel { kind: rules[i].kind@, value: rules[i].value@ })
}

/// A text in lower case, as Unicode has it.
pub uninterp spec fn lowercase(s: Seq<char>) -> Seq<char>;

/// Whether a text is ASCII.
pub open spec fn all_ascii(s: Seq<char>) -> bool {
    forall|i: int| 0 <= i < s.len() ==> (#[trigger] s[i] as u32) < 128
}

/// A text in lower case. In ASCII text the letters `A` to `Z` change and nothing
/// else.
pub open spec fn lowered(s: Seq<char>) -> Seq<char> {
    if all_ascii(s) {
        text::lower(s)
    } else {
        lowercase(s)
    }
}

/// Calls `str::to_lowercase`, whose result is a function of the text. In ASCII
/// text it changes the letters `A` to `Z` and nothing else.
#[verifier::external_body]
fn to_lowercase(s: &str) -> (r: String)
    ensures
        r@ == lowercase(s@),
        all_ascii(s@) ==> r@ == text::lower(s@),
{
    s.to_lowercase()
}

pub open spec fn is_separator(c: char) -> bool {
    c == '\\' || c == '/'
}

fn separates(c: char) -> (r: bool)
    ensures
        r == is_separator(c),
{
    c == '\\' || c == '/'
}

pub open spec fn is_letter(c: char) -> bool {
    'a' <= c <= 'z' || 'A' <= c <= 'Z'
}

/// Where the first separator stands, or the length.
pub open spec fn first_separator(s: Seq<char>) -> nat
    decreases s.len(),
{
    if s.len() == 0 || is_separator(s[0]) {
        0
    } else {
        1 + first_separator(s.skip(1))
    }
}

/// Whether a path begins with a drive and goes on from its root.
pub open spec fn on_a_drive(path: Seq<char>) -> bool {
    path.len() >= 3 && is_letter(path[0]) && path[1] == ':' && is_separator(path[2])
}

/// The server of a path that begins with two separators.
pub open spec fn server_length(path: Seq<char>) -> nat {
    first_separator(path.skip(2))
}

/// The share of a path that begins with two separators and a server.
pub open spec fn share_length(path: Seq<char>) -> nat {
    first_separator(path.skip(3 + server_length(path) as int))
}

/// Whether a path begins with the prefix by which the system takes the rest
/// literally. It is written with backslashes: with a slash in it, the question
/// mark is an ordinary server name.
pub open spec fn is_verbatim(path: Seq<char>) -> bool {
    path.len() >= 4 && path[0] == '\\' && path[1] == '\\' && path[2] == '?' && path[3] == '\\'
}

/// Whether a verbatim path goes on with a server and a share.
pub open spec fn verbatim_server(path: Seq<char>) -> bool {
    path.len() >= 8 && path[4] == 'U' && path[5] == 'N' && path[6] == 'C' && is_separator(path[7])
}

/// Whether a verbatim path goes on with a drive and nothing that belongs to it.
pub open spec fn verbatim_drive(path: Seq<char>) -> bool {
    path.len() >= 6 && is_letter(path[4]) && path[5] == ':' && (path.len() == 6 || is_separator(
        path[6],
    ))
}

/// How much of a verbatim path names the server and the share, the drive, or
/// whatever stands in their place. Only a backslash separates there.
pub open spec fn verbatim_length(path: Seq<char>) -> int {
    if verbatim_server(path) {
        let server = 8 + text::first_index(path.skip(8), '\\') as int;
        if server < path.len() {
            let share = text::first_index(path.skip(server + 1), '\\') as int;
            if share > 0 {
                server + 1 + share
            } else {
                server
            }
        } else {
            server
        }
    } else if verbatim_drive(path) {
        6
    } else {
        4 + text::first_index(path.skip(4), '\\') as int
    }
}

/// Whether a path begins with a device.
pub open spec fn on_a_device(path: Seq<char>) -> bool {
    path.len() >= 4 && is_separator(path[0]) && is_separator(path[1]) && path[2] == '.'
        && is_separator(path[3])
}

/// Whether a path begins with a server and a share, or with a device.
pub open spec fn on_a_server(path: Seq<char>) -> bool {
    &&& path.len() >= 2
    &&& is_separator(path[0])
    &&& is_separator(path[1])
    &&& on_a_device(path) || (path.len() > 2 + server_length(path) && server_length(path) > 0
        && share_length(path) > 0)
}

/// Whether a path of the operating system names a place on its own.
pub open spec fn is_absolute(path: Seq<char>) -> bool {
    on_a_drive(path) || is_verbatim(path) || on_a_server(path)
}

/// How much of a path names the drive, or the server and the share.
pub open spec fn prefix_length(path: Seq<char>) -> int {
    if on_a_drive(path) {
        2
    } else if is_verbatim(path) {
        verbatim_length(path)
    } else if on_a_server(path) {
        3 + server_length(path) as int + share_length(path)
    } else {
        0
    }
}

/// The last component of a path behind its prefix. Separators at the end, and
/// components that mean the folder they stand in, do not count.
pub open spec fn last_component(rest: Seq<char>) -> Seq<char>
    decreases rest.len(),
{
    if rest.len() == 0 {
        rest
    } else if is_separator(rest.last()) {
        last_component(rest.drop_last())
    } else {
        let n = last_separator(rest);
        let name = rest.skip(n);
        if name == seq!['.'] && 0 < n < rest.len() {
            last_component(rest.take(n))
        } else {
            name
        }
    }
}

/// The last component of a verbatim path behind its root. There a slash is part
/// of a name, and so is a single dot.
pub open spec fn last_literal(body: Seq<char>) -> Seq<char>
    decreases body.len(),
{
    if body.len() == 0 {
        body
    } else if body.last() == '\\' {
        last_literal(body.drop_last())
    } else {
        body.skip(last_backslash(body))
    }
}

/// Where the part behind the last backslash begins.
pub open spec fn last_backslash(s: Seq<char>) -> int
    decreases s.len(),
{
    if s.len() == 0 || s.last() == '\\' {
        s.len() as int
    } else {
        last_backslash(s.drop_last())
    }
}

/// What an absolute path names in the end.
pub open spec fn final_name(path: Seq<char>) -> Seq<char> {
    let rest = path.skip(prefix_length(path));
    if !is_verbatim(path) {
        last_component(rest)
    } else if rest.len() > 0 && is_separator(rest[0]) {
        last_literal(rest.skip(1))
    } else {
        last_literal(rest)
    }
}

/// Where the part behind the last separator begins.
pub open spec fn last_separator(s: Seq<char>) -> int
    decreases s.len(),
{
    if s.len() == 0 || is_separator(s.last()) {
        s.len() as int
    } else {
        last_separator(s.drop_last())
    }
}

/// Where the last dot of a name stands, or the length where there is none.
pub open spec fn last_dot(s: Seq<char>) -> int
    decreases s.len(),
{
    if s.len() == 0 {
        0
    } else if s.last() == '.' {
        s.len() - 1
    } else {
        let n = last_dot(s.drop_last());
        if n == s.len() - 1 {
            s.len() as int
        } else {
            n
        }
    }
}

/// Whether a name has the extension of a program: what stands behind its last
/// dot, where something stands in front of that.
pub open spec fn is_program_name(name: Seq<char>) -> bool {
    let n = last_dot(name);
    0 < n < name.len() && text::lower(name.skip(n + 1)) == text::lower("exe"@)
}

/// Whether a path is the absolute path of a program.
pub open spec fn is_program(path: Seq<char>) -> bool {
    is_absolute(path) && is_program_name(final_name(path))
}

proof fn lemma_first_separator(s: Seq<char>, n: nat)
    requires
        n <= s.len(),
        forall|i: int| 0 <= i < n ==> !is_separator(#[trigger] s[i]),
        n < s.len() ==> is_separator(s[n as int]),
    ensures
        first_separator(s) == n,
    decreases n,
{
    if n > 0 {
        assert(!is_separator(s[0]));
        assert forall|i: int| 0 <= i < n - 1 implies !is_separator(#[trigger] s.skip(1)[i]) by {
            assert(s.skip(1)[i] == s[i + 1]);
        }
        lemma_first_separator(s.skip(1), (n - 1) as nat);
    }
}

fn find_separator(s: &[char], from: usize) -> (at: usize)
    requires
        from <= s@.len(),
    ensures
        from <= at <= s@.len(),
        at == from + first_separator(s@.skip(from as int)),
        at < s@.len() ==> is_separator(s@[at as int]),
{
    let mut at: usize = from;
    while at < s.len() && !separates(s[at])
        invariant
            from <= at <= s@.len(),
            forall|i: int| from <= i < at ==> !is_separator(#[trigger] s@[i]),
        decreases s@.len() - at,
    {
        at = at + 1;
    }
    proof {
        let rest = s@.skip(from as int);
        assert forall|i: int| 0 <= i < at - from implies !is_separator(#[trigger] rest[i]) by {
            assert(rest[i] == s@[from + i]);
        }
        if at < s@.len() {
            assert(rest[at - from] == s@[at as int]);
        }
        lemma_first_separator(rest, (at - from) as nat);
    }
    at
}

fn begins_verbatim(path: &[char]) -> (r: bool)
    ensures
        r == is_verbatim(path@),
{
    path.len() >= 4 && path[0] == '\\' && path[1] == '\\' && path[2] == '?' && path[3] == '\\'
}

/// How much of a verbatim path its prefix is.
fn verbatim_prefix(path: &[char]) -> (n: usize)
    requires
        is_verbatim(path@),
    ensures
        n == verbatim_length(path@),
        n <= path@.len(),
{
    if path.len() >= 8 && path[4] == 'U' && path[5] == 'N' && path[6] == 'C' && separates(path[7]) {
        let server: usize = text::find(path, '\\', 8);
        if server == path.len() {
            return server;
        }
        let share: usize = text::find(path, '\\', server + 1);
        return if share > server + 1 {
            share
        } else {
            server
        };
    }
    if path.len() >= 6 && (('a' <= path[4] && path[4] <= 'z') || ('A' <= path[4] && path[4] <= 'Z'))
        && path[5] == ':' && (path.len() == 6 || separates(path[6])) {
        return 6;
    }
    text::find(path, '\\', 4)
}

/// How much of an absolute path names the drive, or the server and the share.
fn absolute_prefix(path: &[char]) -> (r: Option<usize>)
    ensures
        r is Some <==> is_absolute(path@),
        r matches Some(n) ==> n == prefix_length(path@) && n <= path@.len(),
{
    if path.len() >= 3 && (('a' <= path[0] && path[0] <= 'z') || ('A' <= path[0] && path[0] <= 'Z'))
        && path[1] == ':' && separates(path[2]) {
        return Some(2);
    }
    if begins_verbatim(path) {
        return Some(verbatim_prefix(path));
    }
    if path.len() < 2 || !separates(path[0]) || !separates(path[1]) {
        return None;
    }
    let server: usize = find_separator(path, 2);
    proof {
        if on_a_device(path@) {
            assert(path@.skip(2)[0] == '.');
            assert(path@.skip(2)[1] == path@[3]);
            lemma_first_separator(path@.skip(2), 1);
        }
    }
    if server == path.len() {
        return None;
    }
    let share: usize = find_separator(path, server + 1);
    if (server > 2 && share > server + 1) || (server == 3 && path[2] == '.') {
        Some(share)
    } else {
        None
    }
}

fn find_last_separator(s: &[char]) -> (at: usize)
    ensures
        at == last_separator(s@),
        at <= s@.len(),
    decreases s@.len(),
{
    let mut at: usize = s.len();
    assert(s@.take(at as int) =~= s@);
    while at > 0 && !separates(s[at - 1])
        invariant
            at <= s@.len(),
            last_separator(s@) == last_separator(s@.take(at as int)),
        decreases at,
    {
        assert(s@.take(at as int).last() == s@[at - 1]);
        assert(s@.take(at as int).drop_last() =~= s@.take(at - 1));
        at = at - 1;
    }
    if at > 0 {
        assert(s@.take(at as int).last() == s@[at - 1]);
    }
    at
}

fn find_last_literal(body: &[char]) -> (name: &[char])
    ensures
        name@ == last_literal(body@),
    decreases body@.len(),
{
    if body.len() == 0 {
        return body;
    }
    let end: usize = body.len() - 1;
    if body[end] == '\\' {
        let less = slice_subrange(body, 0, end);
        assert(less@ =~= body@.drop_last());
        return find_last_literal(less);
    }
    let mut at: usize = body.len();
    assert(body@.take(at as int) =~= body@);
    while at > 0 && body[at - 1] != '\\'
        invariant
            at <= body@.len(),
            last_backslash(body@) == last_backslash(body@.take(at as int)),
        decreases at,
    {
        assert(body@.take(at as int).last() == body@[at - 1]);
        assert(body@.take(at as int).drop_last() =~= body@.take(at - 1));
        at = at - 1;
    }
    if at > 0 {
        assert(body@.take(at as int).last() == body@[at - 1]);
    }
    let name = slice_subrange(body, at, body.len());
    assert(name@ =~= body@.skip(at as int));
    name
}

fn find_last_component(rest: &[char]) -> (name: &[char])
    ensures
        name@ == last_component(rest@),
    decreases rest@.len(),
{
    if rest.len() == 0 {
        return rest;
    }
    let end: usize = rest.len() - 1;
    if separates(rest[end]) {
        let less = slice_subrange(rest, 0, end);
        assert(less@ =~= rest@.drop_last());
        return find_last_component(less);
    }
    let n: usize = find_last_separator(rest);
    let name = slice_subrange(rest, n, rest.len());
    assert(name@ =~= rest@.skip(n as int));
    if name.len() == 1 && name[0] == '.' && n > 0 {
        assert(name@ =~= seq!['.']);
        proof {
            lemma_last_separator_bound(rest@);
        }
        let less = slice_subrange(rest, 0, n);
        assert(less@ =~= rest@.take(n as int));
        return find_last_component(less);
    }
    proof {
        if name@ == seq!['.'] {
            assert(name@.len() == 1 && name@[0] == '.');
        }
    }
    name
}

proof fn lemma_last_separator_bound(s: Seq<char>)
    ensures
        0 <= last_separator(s) <= s.len(),
        s.len() > 0 && !is_separator(s.last()) ==> last_separator(s) < s.len(),
    decreases s.len(),
{
    if s.len() > 0 && !is_separator(s.last()) {
        lemma_last_separator_bound(s.drop_last());
    }
}

fn find_last_dot(s: &[char]) -> (at: usize)
    ensures
        at == last_dot(s@),
        at <= s@.len(),
    decreases s@.len(),
{
    if s.len() == 0 {
        return 0;
    }
    let end: usize = s.len() - 1;
    if s[end] == '.' {
        return end;
    }
    let less = slice_subrange(s, 0, end);
    assert(less@ =~= s@.drop_last());
    let n: usize = find_last_dot(less);
    if n == end {
        s.len()
    } else {
        n
    }
}

fn names_a_program(path: &[char]) -> (r: bool)
    ensures
        r == is_program(path@),
{
    match absolute_prefix(path) {
        None => false,
        Some(prefix) => {
            let rest = slice_subrange(path, prefix, path.len());
            assert(rest@ =~= path@.skip(prefix as int));
            let name = if !begins_verbatim(path) {
                find_last_component(rest)
            } else if rest.len() > 0 && separates(rest[0]) {
                let body = slice_subrange(rest, 1, rest.len());
                assert(body@ =~= rest@.skip(1));
                find_last_literal(body)
            } else {
                find_last_literal(rest)
            };
            let n: usize = find_last_dot(name);
            if n == 0 || n >= name.len() {
                return false;
            }
            let extension = slice_subrange(name, n + 1, name.len());
            assert(extension@ =~= name@.skip(n + 1));
            text::same_ignoring_case(extension, "exe")
        },
    }
}

/// A path with every separator turned the one way.
pub open spec fn one_way(path: Seq<char>) -> Seq<char> {
    path.map_values(
        |c: char|
            if c == '/' {
                '\\'
            } else {
                c
            },
    )
}

/// A path as it is compared: separators the one way, and in lower case.
pub open spec fn normal_path(path: Seq<char>) -> Seq<char> {
    lowered(one_way(path))
}

fn normalize_windows_path(path: &[char]) -> (r: String)
    ensures
        r@ == normal_path(path@),
{
    let mut turned: Vec<char> = Vec::new();
    let mut at: usize = 0;
    while at < path.len()
        invariant
            at <= path@.len(),
            turned@.len() == at,
            forall|i: int| 0 <= i < at ==> #[trigger] turned@[i] == one_way(path@)[i],
        decreases path@.len() - at,
    {
        if path[at] == '/' {
            turned.push('\\');
        } else {
            turned.push(path[at]);
        }
        at = at + 1;
    }
    assert(turned@ =~= one_way(path@));
    to_lowercase(text::string(turned.as_slice()).as_str())
}

/// A text without the same character at its end.
pub open spec fn without_trailing(s: Seq<char>, c: char) -> Seq<char>
    decreases s.len(),
{
    if s.len() > 0 && s.last() == c {
        without_trailing(s.drop_last(), c)
    } else {
        s
    }
}

fn drop_trailing(s: &[char], c: char) -> (r: &[char])
    ensures
        r@ == without_trailing(s@, c),
    decreases s@.len(),
{
    if s.len() > 0 && s[s.len() - 1] == c {
        let less = slice_subrange(s, 0, s.len() - 1);
        assert(less@ =~= s@.drop_last());
        drop_trailing(less, c)
    } else {
        s
    }
}

/// A folder as it is compared, given its normal form.
pub fn folder_prefix(normal: &str) -> (r: String)
    ensures
        r@ == without_trailing(normal@, '\\'),
{
    text::string(drop_trailing(text::chars(normal).as_slice(), '\\'))
}

/// Whether a label of a host name is well formed.
pub open spec fn is_label(label: Seq<char>) -> bool {
    &&& label.len() > 0
    &&& label[0] != '-'
    &&& label.last() != '-'
    &&& forall|i: int|
        0 <= i < label.len() ==> (is_letter(#[trigger] label[i]) || text::is_digit(label[i])
            || label[i] == '-')
}

pub open spec fn all_labels(labels: Seq<Seq<char>>) -> bool {
    forall|i: int| 0 <= i < labels.len() ==> is_label(#[trigger] labels[i])
}

/// A host name, without the star that may stand in front.
pub open spec fn bare_host(value: Seq<char>) -> Seq<char> {
    if text::begins_with(value, "*."@) {
        value.skip(2)
    } else {
        value
    }
}

/// A host name in lower case, where its labels are well formed.
pub open spec fn host_target(value: Seq<char>) -> Result<Seq<char>, Seq<char>> {
    if all_labels(text::split_at_char(bare_host(value), '.')) {
        Ok(value)
    } else {
        Err("invalid hostname target: "@ + value)
    }
}

fn check_label(label: &[char]) -> (r: bool)
    ensures
        r == is_label(label@),
{
    if label.len() == 0 || label[0] == '-' || label[label.len() - 1] == '-' {
        return false;
    }
    let mut at: usize = 0;
    while at < label.len()
        invariant
            at <= label@.len(),
            forall|i: int|
                0 <= i < at ==> (is_letter(#[trigger] label@[i]) || text::is_digit(label@[i])
                    || label@[i] == '-'),
        decreases label@.len() - at,
    {
        let c: char = label[at];
        if !(('a' <= c && c <= 'z') || ('A' <= c && c <= 'Z') || ('0' <= c && c <= '9') || c
            == '-') {
            assert(!(is_letter(label@[at as int]) || text::is_digit(label@[at as int])
                || label@[at as int] == '-'));
            return false;
        }
        at = at + 1;
    }
    true
}

/// Checks a host name that is in lower case already.
pub fn check_hostname(value: &str) -> (r: Result<String, String>)
    ensures
        match host_target(value@) {
            Ok(host) => r matches Ok(found) && found@ == host,
            Err(why) => r matches Err(message) && message@ == why,
        },
{
    let chars = text::chars(value);
    let bare = if text::starts_with(chars.as_slice(), "*.") {
        proof {
            reveal_strlit("*.");
        }
        slice_subrange(chars.as_slice(), 2, chars.len())
    } else {
        chars.as_slice()
    };
    assert(bare@ =~= bare_host(value@)) by {
        reveal_strlit("*.");
    }
    let labels = text::split(bare, '.');
    let ghost all = text::split_at_char(bare@, '.');
    let mut at: usize = 0;
    while at < labels.len()
        invariant
            at <= labels@.len(),
            all == text::views(labels@),
            all == text::split_at_char(bare_host(value@), '.'),
            forall|i: int| 0 <= i < at ==> is_label(#[trigger] all[i]),
        decreases labels@.len() - at,
    {
        assert(all[at as int] == labels@[at as int]@);
        if !check_label(labels[at].as_slice()) {
            return Err(text::concat2("invalid hostname target: ", value));
        }
        at = at + 1;
    }
    Ok(value.to_owned())
}

/// An address of either family, as its own text.
pub open spec fn address_text(s: Seq<char>) -> Option<(Seq<char>, u8)> {
    match net::ipv4_of(s) {
        Some(address) => Some((address.dotted(), 32u8)),
        None => match net::ipv6_of(s) {
            Some(groups) => Some((net::ipv6_text(groups), 128u8)),
            None => None,
        },
    }
}

/// The network that a text stands for: an address, and how many of its bits
/// count, which are all of them where nothing else is said.
pub open spec fn network_target(value: Seq<char>) -> Result<Seq<char>, Seq<char>> {
    let slash = text::first_index(value, '/');
    match address_text(value.take(slash as int)) {
        None => Err("invalid IP target: "@ + value),
        Some((address, bits)) => {
            let prefix = if slash < value.len() {
                text::parsed_number(value.skip(slash as int + 1), 255)
            } else {
                Some(bits as nat)
            };
            match prefix {
                None => Err("invalid CIDR prefix: "@ + value),
                Some(n) => if n > bits {
                    Err("CIDR prefix is out of range: "@ + value)
                } else {
                    Ok(address + "/"@ + text::decimal(n))
                },
            }
        },
    }
}

/// A network in its normal form.
pub fn normalize_ip_network(value: &str) -> (r: Result<String, String>)
    ensures
        match network_target(value@) {
            Ok(network) => r matches Ok(found) && found@ == network,
            Err(why) => r matches Err(message) && message@ == why,
        },
{
    let chars = text::chars(value);
    assert(chars@.skip(0) =~= chars@);
    let slash: usize = text::find(chars.as_slice(), '/', 0);
    let head = slice_subrange(chars.as_slice(), 0, slash);
    assert(head@ =~= value@.take(slash as int));
    let (address, bits) = match net::parse_ipv4(head) {
        Some(address) => (address.to_text(), 32u64),
        None => match net::parse_ipv6(head) {
            Some(address) => (address.to_text(), 128u64),
            None => return Err(text::concat2("invalid IP target: ", value)),
        },
    };
    let prefix: u64 = if slash < chars.len() {
        let rest = slice_subrange(chars.as_slice(), slash + 1, chars.len());
        assert(rest@ =~= value@.skip(slash as int + 1));
        match text::parse_number(rest, 255) {
            Some(n) => n,
            None => return Err(text::concat2("invalid CIDR prefix: ", value)),
        }
    } else {
        bits
    };
    if prefix > bits {
        return Err(text::concat2("CIDR prefix is out of range: ", value));
    }
    Ok(text::concat3(address.as_str(), "/", text::decimal_text(prefix).as_str()))
}

/// The plan once one more target has been taken in.
pub open spec fn rule_added(plan: PlanModel, rule: RuleModel) -> Result<PlanModel, Seq<char>> {
    let value = text::trimmed(rule.value);
    if value.len() == 0 {
        Err(rule.kind + " target cannot be empty"@)
    } else if rule.kind == "application"@ {
        if is_program(value) {
            Ok(
                PlanModel {
                    application_paths: plan.application_paths.push(normal_path(value)),
                    ..plan
                },
            )
        } else {
            Err("application target must be an absolute .exe path: "@ + value)
        }
    } else if rule.kind == "folder"@ {
        if is_absolute(value) {
            Ok(
                PlanModel {
                    folder_prefixes: plan.folder_prefixes.push(
                        without_trailing(normal_path(value), '\\'),
                    ),
                    ..plan
                },
            )
        } else {
            Err("folder target must be an absolute path: "@ + value)
        }
    } else if rule.kind == "hostname"@ {
        match host_target(lowered(without_trailing(value, '.'))) {
            Ok(host) => Ok(PlanModel { hostnames: plan.hostnames.push(host), ..plan }),
            Err(why) => Err(why),
        }
    } else if rule.kind == "ip"@ {
        match network_target(value) {
            Ok(network) => Ok(PlanModel { ip_networks: plan.ip_networks.push(network), ..plan }),
            Err(why) => Err(why),
        }
    } else {
        Err("unsupported target type: "@ + rule.kind)
    }
}

/// The plan once all targets have been taken in, in order.
pub open spec fn rules_added(plan: PlanModel, rules: Seq<RuleModel>) -> Result<
    PlanModel,
    Seq<char>,
>
    decreases rules.len(),
{
    if rules.len() == 0 {
        Ok(plan)
    } else {
        match rule_added(plan, rules[0]) {
            Ok(next) => rules_added(next, rules.skip(1)),
            Err(why) => Err(why),
        }
    }
}

/// A plan that names no target.
pub open spec fn bare_plan(mode: Seq<char>, backend: Seq<char>) -> PlanModel {
    PlanModel {
        mode,
        backend,
        application_paths: Seq::<Seq<char>>::empty(),
        folder_prefixes: Seq::<Seq<char>>::empty(),
        hostnames: Seq::<Seq<char>>::empty(),
        ip_networks: Seq::<Seq<char>>::empty(),
        protocols: seq!["udp"@, "tcp"@],
    }
}

/// What a mode and its targets come to.
pub open spec fn compiled(mode: Seq<char>, rules: Seq<RuleModel>) -> Result<PlanModel, Seq<char>> {
    if mode == "all"@ {
        Ok(bare_plan(mode, "wintun"@))
    } else if mode != "split"@ {
        Err(BAD_MODE@)
    } else if rules.len() == 0 {
        Err(NO_TARGETS@)
    } else {
        rules_added(bare_plan(mode, "wfp"@), rules)
    }
}

fn start_plan(mode: &str, backend: &str) -> (r: InterceptionPlan)
    ensures
        r@ == bare_plan(mode@, backend@),
{
    let mut protocols: Vec<String> = Vec::new();
    protocols.push("udp".to_owned());
    protocols.push("tcp".to_owned());
    let r = InterceptionPlan {
        mode: mode.to_owned(),
        backend: backend.to_owned(),
        application_paths: Vec::new(),
        folder_prefixes: Vec::new(),
        hostnames: Vec::new(),
        ip_networks: Vec::new(),
        protocols,
    };
    assert(r@ =~= bare_plan(mode@, backend@));
    r
}

impl InterceptionPlan {
    fn add_rule(&mut self, kind: &str, target: &str) -> (r: Result<(), String>)
        ensures
            match rule_added(old(self)@, RuleModel { kind: kind@, value: target@ }) {
                Ok(plan) => r is Ok && final(self)@ == plan,
                Err(why) => r matches Err(message) && message@ == why,
            },
    {
        let ghost before = self@;
        let chars = text::chars(target);
        let value = text::trim(chars.as_slice());
        let shown = text::string(value);
        if value.len() == 0 {
            return Err(text::concat2(kind, " target cannot be empty"));
        }
        if text::same(kind, "application") {
            if !names_a_program(value) {
                return Err(
                    text::concat2(
                        "application target must be an absolute .exe path: ",
                        shown.as_str(),
                    ),
                );
            }
            self.application_paths.push(normalize_windows_path(value));
            assert(self@.application_paths =~= before.application_paths.push(
                normal_path(value@),
            ));
            return Ok(());
        }
        if text::same(kind, "folder") {
            if absolute_prefix(value).is_none() {
                return Err(
                    text::concat2("folder target must be an absolute path: ", shown.as_str()),
                );
            }
            let normal = normalize_windows_path(value);
            self.folder_prefixes.push(folder_prefix(normal.as_str()));
            assert(self@.folder_prefixes =~= before.folder_prefixes.push(
                without_trailing(normal_path(value@), '\\'),
            ));
            return Ok(());
        }
        if text::same(kind, "hostname") {
            let bare = text::string(drop_trailing(value, '.'));
            let lowered = to_lowercase(bare.as_str());
            return match check_hostname(lowered.as_str()) {
                Ok(host) => {
                    let ghost name = host@;
                    self.hostnames.push(host);
                    assert(self@.hostnames =~= before.hostnames.push(name));
                    Ok(())
                },
                Err(message) => Err(message),
            };
        }
        if text::same(kind, "ip") {
            return match normalize_ip_network(shown.as_str()) {
                Ok(network) => {
                    let ghost name = network@;
                    self.ip_networks.push(network);
                    assert(self@.ip_networks =~= before.ip_networks.push(name));
                    Ok(())
                },
                Err(message) => Err(message),
            };
        }
        Err(text::concat2("unsupported target type: ", kind))
    }
}

/// Turns a mode and its targets into what the capture layer is to take.
pub fn compile(mode: &str, rules: &[RuleSpec]) -> (r: Result<InterceptionPlan, String>)
    ensures
        match compiled(mode@, rule_models(rules@)) {
            Ok(plan) => r matches Ok(found) && found@ == plan,
            Err(why) => r matches Err(message) && message@ == why,
        },
{
    if text::same(mode, "all") {
        return Ok(start_plan(mode, "wintun"));
    }
    if !text::same(mode, "split") {
        return Err(BAD_MODE.to_owned());
    }
    if rules.len() == 0 {
        return Err(NO_TARGETS.to_owned());
    }
    let mut plan = start_plan(mode, "wfp");
    let ghost all = rule_models(rules@);
    let ghost whole = rules_added(plan@, all);
    let mut at: usize = 0;
    assert(all.skip(0) =~= all);
    while at < rules.len()
        invariant
            at <= rules@.len(),
            all == rule_models(rules@),
            whole == rules_added(plan@, all.skip(at as int)),
            compiled(mode@, all) == whole,
        decreases rules@.len() - at,
    {
        let ghost rest = all.skip(at as int);
        assert(rest[0] == RuleModel {
            kind: rules@[at as int].kind@,
            value: rules@[at as int].value@,
        });
        assert(rest.skip(1) =~= all.skip(at + 1));
        match plan.add_rule(rules[at].kind.as_str(), rules[at].value.as_str()) {
            Ok(_) => {},
            Err(message) => return Err(message),
        }
        at = at + 1;
    }
    Ok(plan)
}

/// All-traffic mode takes everything, whatever targets are named.
pub proof fn all_traffic_needs_no_targets(rules: Seq<RuleModel>)
    ensures
        compiled("all"@, rules) == Ok::<PlanModel, Seq<char>>(bare_plan("all"@, "wintun"@)),
{
}

proof fn lemma_targets_counted(plan: PlanModel, rules: Seq<RuleModel>)
    ensures
        rules_added(plan, rules) matches Ok(done) ==> {
            &&& done.mode == plan.mode
            &&& done.backend == plan.backend
            &&& done.application_paths.len() + done.folder_prefixes.len() + done.hostnames.len()
                + done.ip_networks.len() == plan.application_paths.len()
                + plan.folder_prefixes.len() + plan.hostnames.len() + plan.ip_networks.len()
                + rules.len()
        },
    decreases rules.len(),
{
    if rules.len() > 0 {
        match rule_added(plan, rules[0]) {
            Ok(next) => lemma_targets_counted(next, rules.skip(1)),
            Err(_) => {},
        }
    }
}

/// A split plan that compiles has every target in it, and there is at least one:
/// no target is dropped in silence.
pub proof fn no_target_is_dropped(rules: Seq<RuleModel>)
    ensures
        compiled("split"@, rules) matches Ok(plan) ==> plan.application_paths.len()
            + plan.folder_prefixes.len() + plan.hostnames.len() + plan.ip_networks.len()
            == rules.len() && rules.len() > 0 && plan.backend == "wfp"@,
{
    reveal_strlit("all");
    reveal_strlit("split");
    assert("all"@.len() == 3 && "split"@.len() == 5);
    lemma_targets_counted(bare_plan("split"@, "wfp"@), rules);
}

/// A split plan for one target.
pub open spec fn one_target(kind: Seq<char>, value: Seq<char>) -> Result<PlanModel, Seq<char>> {
    compiled("split"@, seq![RuleModel { kind, value }])
}

proof fn lemma_one_target(kind: Seq<char>, value: Seq<char>)
    ensures
        one_target(kind, value) == rule_added(
            bare_plan("split"@, "wfp"@),
            RuleModel { kind, value },
        ),
{
    reveal_strlit("all");
    reveal_strlit("split");
    assert("all"@.len() == 3 && "split"@.len() == 5);
    let rules = seq![RuleModel { kind, value }];
    assert(rules.skip(1) =~= Seq::<RuleModel>::empty());
    let plan = bare_plan("split"@, "wfp"@);
    match rule_added(plan, rules[0]) {
        Ok(next) => {
            assert(rules_added(next, rules.skip(1)) == Ok::<PlanModel, Seq<char>>(next));
        },
        Err(_) => {},
    }
}

proof fn lemma_kinds_differ()
    ensures
        "application"@ != "folder"@,
        "application"@ != "hostname"@,
        "application"@ != "ip"@,
        "folder"@ != "hostname"@,
        "folder"@ != "ip"@,
        "hostname"@ != "ip"@,
{
    reveal_strlit("application");
    reveal_strlit("folder");
    reveal_strlit("hostname");
    reveal_strlit("ip");
    assert("application"@.len() == 11 && "folder"@.len() == 6 && "hostname"@.len() == 8
        && "ip"@.len() == 2);
}

/// A letter or a digit of ASCII.
pub open spec fn letter_or_digit(c: char) -> bool {
    ('a' <= c && c <= 'z') || ('A' <= c && c <= 'Z') || ('0' <= c && c <= '9')
}

/// A label that a host name may be made of: letters, digits and hyphens, with a
/// letter or a digit at both ends.
pub open spec fn well_named(label: Seq<char>) -> bool {
    &&& label.len() > 0
    &&& letter_or_digit(label[0])
    &&& letter_or_digit(label[label.len() - 1])
    &&& forall|i: int|
        0 <= i < label.len() ==> letter_or_digit(#[trigger] label[i]) || label[i] == '-'
}

/// A character in the small form of its letter.
pub open spec fn small(c: char) -> char {
    if 'A' <= c && c <= 'Z' {
        ((c as u8) + 32) as u8 as char
    } else {
        c
    }
}

/// A text with its capital letters made small.
pub open spec fn all_small(s: Seq<char>) -> Seq<char> {
    s.map_values(|c: char| small(c))
}

proof fn lemma_lower_is_small(s: Seq<char>)
    ensures
        text::lower(s) == all_small(s),
{
    assert(text::lower(s) =~= all_small(s));
}

proof fn lemma_small_label(label: Seq<char>)
    ensures
        is_label(text::lower(label)) == well_named(label),
        forall|i: int|
            0 <= i < label.len() && #[trigger] label[i] != '.' ==> text::lower(label)[i] != '.',
{
    let low = text::lower(label);
    assert forall|i: int| 0 <= i < label.len() implies (is_letter(#[trigger] low[i])
        || text::is_digit(low[i])) == letter_or_digit(label[i]) && (low[i] == '-') == (label[i]
        == '-') by {
        assert(low[i] == text::lower_char(label[i]));
    }
    if is_label(low) {
        assert forall|i: int| 0 <= i < label.len() implies letter_or_digit(#[trigger] label[i])
            || label[i] == '-' by {
            assert(low[i] == text::lower_char(label[i]));
        }
        assert(low[0] == text::lower_char(label[0]));
        assert(low[label.len() - 1] == text::lower_char(label[label.len() - 1]));
    }
    if well_named(label) {
        assert forall|i: int| 0 <= i < low.len() implies is_letter(#[trigger] low[i])
            || text::is_digit(low[i]) || low[i] == '-' by {
            assert(letter_or_digit(label[i]) || label[i] == '-');
        }
        assert(low[0] == text::lower_char(label[0]));
        assert(low[label.len() - 1] == text::lower_char(label[label.len() - 1]));
    }
}

/// The labels in lower case.
spec fn low_labels(labels: Seq<Seq<char>>) -> Seq<Seq<char>> {
    labels.map_values(|label: Seq<char>| text::lower(label))
}

proof fn lemma_lower_of_join(labels: Seq<Seq<char>>)
    ensures
        text::lower(text::separated(labels, seq!['.'])) == text::separated(
            low_labels(labels),
            seq!['.'],
        ),
    decreases labels.len(),
{
    let low = low_labels(labels);
    let dot = seq!['.'];
    if labels.len() == 0 {
        assert(text::lower(Seq::<char>::empty()) =~= Seq::<char>::empty());
    } else if labels.len() == 1 {
    } else {
        lemma_lower_of_join(labels.drop_last());
        assert(low.drop_last() =~= low_labels(labels.drop_last()));
        let a = text::separated(labels.drop_last(), dot);
        assert(text::lower(a + dot + labels.last()) =~= text::lower(a) + dot + text::lower(
            labels.last(),
        ));
    }
}

/// Whether a text is made of these labels with dots between them.
pub open spec fn dotted_labels(value: Seq<char>, labels: Seq<Seq<char>>) -> bool {
    &&& labels.len() > 0
    &&& value == text::separated(labels, seq!['.'])
    &&& forall|k: int, i: int|
        #![trigger labels[k][i]]
        0 <= k < labels.len() && 0 <= i < labels[k].len() ==> labels[k][i] != '.'
}

proof fn lemma_labels_checked(value: Seq<char>, labels: Seq<Seq<char>>)
    requires
        dotted_labels(value, labels),
    ensures
        all_labels(text::split_at_char(text::lower(value), '.')) == forall|k: int|
            0 <= k < labels.len() ==> well_named(#[trigger] labels[k]),
{
    let low = low_labels(labels);
    lemma_lower_of_join(labels);
    assert forall|k: int, i: int|
        #![trigger low[k][i]]
        0 <= k < low.len() && 0 <= i < low[k].len() implies low[k][i] != '.' by {
        lemma_small_label(labels[k]);
        assert(labels[k][i] != '.');
    }
    text::lemma_split_undoes_join(low, '.');
    assert forall|k: int| 0 <= k < labels.len() implies is_label(#[trigger] low[k]) == well_named(
        labels[k],
    ) by {
        lemma_small_label(labels[k]);
    }
    if forall|k: int| 0 <= k < labels.len() ==> well_named(#[trigger] labels[k]) {
        assert forall|k: int| 0 <= k < low.len() implies is_label(#[trigger] low[k]) by {
            assert(well_named(labels[k]));
        }
    }
    if all_labels(low) {
        assert forall|k: int| 0 <= k < labels.len() implies well_named(#[trigger] labels[k]) by {
            assert(is_label(low[k]));
        }
    }
}

/// A host name is taken exactly where each of its labels is made of letters,
/// digits and hyphens and neither begins nor ends with a hyphen. It is then in
/// the plan once, letter for letter but for capitals, and so is the name with a
/// star in front that stands for everything below it.
pub proof fn a_host_is_taken_by_its_labels(value: Seq<char>, labels: Seq<Seq<char>>, starred: bool)
    requires
        dotted_labels(value, labels),
        all_ascii(value),
        value.len() > 0,
        !text::is_space(value[0]),
        !text::is_space(value.last()),
        value.last() != '.',
        !starred ==> labels[0] != seq!['*'],
    ensures
        ({
            let named = if starred {
                seq!['*', '.'] + value
            } else {
                value
            };
            match one_target("hostname"@, named) {
                Ok(plan) => (forall|k: int| 0 <= k < labels.len() ==> well_named(#[trigger] labels[k]))
                    && plan.hostnames == seq![all_small(named)] && plan.application_paths.len() == 0
                    && plan.folder_prefixes.len() == 0 && plan.ip_networks.len() == 0,
                Err(_) => exists|k: int|
                    0 <= k < labels.len() && !well_named(#[trigger] labels[k]),
            }
        }),
{
    let star = seq!['*', '.'];
    let named = if starred {
        star + value
    } else {
        value
    };
    lemma_one_target("hostname"@, named);
    lemma_kinds_differ();
    assert(named.last() == value.last());
    text::lemma_trimmed_as_it_is(named);
    assert(without_trailing(named, '.') == named);
    assert(all_ascii(named)) by {
        assert forall|i: int| 0 <= i < named.len() implies (#[trigger] named[i] as u32) < 128 by {
            if starred && i >= 2 {
                assert(named[i] == value[i - 2]);
            }
        }
    }
    let low = text::lower(named);
    lemma_lower_is_small(named);
    reveal_strlit("*.");
    assert("*."@ =~= star);
    if starred {
        assert(low.take(2) =~= star);
        assert(low.skip(2) =~= text::lower(value));
    } else if text::begins_with(low, star) {
        assert(low.take(2)[0] == '*' && low.take(2)[1] == '.');
        assert(low[0] == '*' && low[1] == '.');
        assert(value[0] == '*' && value[1] == '.');
        lemma_first_label(value, labels);
    }
    assert(bare_host(low) == text::lower(value));
    lemma_labels_checked(value, labels);
    assert(Seq::<Seq<char>>::empty().push(low) =~= seq![low]);
}

proof fn lemma_first_label(value: Seq<char>, labels: Seq<Seq<char>>)
    requires
        dotted_labels(value, labels),
        value.len() >= 2,
        value[0] == '*',
        value[1] == '.',
    ensures
        labels[0] == seq!['*'],
{
    text::lemma_split_undoes_join(labels, '.');
    text::lemma_first_index(value, '.', 1);
    assert(labels[0] == value.take(1));
    assert(value.take(1) =~= seq!['*']);
}

/// Joining two labels with a hyphen makes a label, so every name that a host may
/// have is taken however many hyphens are in it.
pub proof fn labels_may_be_hyphenated(left: Seq<char>, right: Seq<char>)
    requires
        is_label(left),
        is_label(right),
    ensures
        is_label(left + seq!['-'] + right),
        is_label(left + seq!['-', '-'] + right),
        is_label(left + right),
        !is_label(left + seq!['-']),
        !is_label(seq!['-'] + right),
        !is_label(left + seq!['_'] + right),
        !is_label(left + seq![' '] + right),
        !is_label(left + seq!['.'] + right),
{
    let one = left + seq!['-'] + right;
    let two = left + seq!['-', '-'] + right;
    let none = left + right;
    assert(one.last() == right.last());
    assert(two.last() == right.last());
    assert(none.last() == right.last());
    assert((left + seq!['-']).last() == '-');
    assert((seq!['-'] + right)[0] == '-');
    assert((left + seq!['_'] + right)[left.len() as int] == '_');
    assert((left + seq![' '] + right)[left.len() as int] == ' ');
    assert((left + seq!['.'] + right)[left.len() as int] == '.');
}

/// A dot at the end of a host name and white space around it do not matter.
pub proof fn a_final_dot_does_not_matter(value: Seq<char>)
    requires
        value.len() > 0,
        !text::is_space(value[0]),
        !text::is_space(value.last()),
    ensures
        one_target("hostname"@, value + seq!['.']) == one_target("hostname"@, value),
        one_target("hostname"@, seq![' '] + value) == one_target("hostname"@, value),
        one_target("hostname"@, value + seq![' ']) == one_target("hostname"@, value),
{
    let dotted = value + seq!['.'];
    let before = seq![' '] + value;
    let behind = value + seq![' '];
    lemma_one_target("hostname"@, value);
    lemma_one_target("hostname"@, dotted);
    lemma_one_target("hostname"@, before);
    lemma_one_target("hostname"@, behind);
    lemma_kinds_differ();
    text::lemma_trimmed_as_it_is(value);
    assert(dotted[0] == value[0]);
    text::lemma_trimmed_as_it_is(dotted);
    assert(dotted.drop_last() =~= value);
    assert(before.skip(1) =~= value);
    assert(text::trimmed_start(before) == text::trimmed_start(value));
    assert(behind[0] == value[0]);
    assert(text::trimmed_start(behind) == behind);
    assert(behind.drop_last() =~= value);
    assert(text::trimmed_end(behind) == text::trimmed_end(value));
}

/// An IPv4 network is taken with its address and its prefix as they are, where
/// the prefix is no longer than the address; a bare address is a network of its
/// own.
pub proof fn an_ipv4_network_is_taken_as_it_is(a: u8, b: u8, c: u8, d: u8, bits: nat)
    requires
        bits <= 255,
    ensures
        ({
            let address = net::Ipv4::made(a, b, c, d).dotted();
            let network = address + seq!['/'] + text::decimal(bits);
            &&& one_target("ip"@, address) matches Ok(plan)
            &&& plan.ip_networks == seq![address + seq!['/', '3', '2']]
            &&& plan.hostnames.len() == 0 && plan.application_paths.len() == 0
            &&& plan.folder_prefixes.len() == 0
            &&& match one_target("ip"@, network) {
                Ok(found) => bits <= 32 && found.ip_networks == seq![network],
                Err(_) => bits > 32,
            }
        }),
{
    net::a_dotted_address_reads_back(a, b, c, d);
    let address = net::Ipv4::made(a, b, c, d).dotted();
    let network = address + seq!['/'] + text::decimal(bits);
    lemma_one_target("ip"@, address);
    lemma_one_target("ip"@, network);
    lemma_kinds_differ();
    net::lemma_dotted_characters(a, b, c, d);
    text::lemma_decimal_reads_back(bits);
    text::lemma_decimal_reads_back(d as nat);
    assert(text::is_digit(address[0]) || address[0] == '.');
    assert(text::is_digit(address.last()) || address.last() == '.');
    assert(network[0] == address[0]);
    assert(network.last() == text::decimal(bits).last());
    assert(text::is_digit(text::decimal(bits)[text::decimal(bits).len() - 1]));
    text::lemma_trimmed_as_it_is(address);
    text::lemma_trimmed_as_it_is(network);
    text::lemma_first_index(address, '/', address.len());
    assert(address.take(address.len() as int) =~= address);
    text::lemma_first_index(network, '/', address.len());
    assert(network.take(address.len() as int) =~= address);
    assert(network.skip(address.len() as int + 1) =~= text::decimal(bits));
    reveal_strlit("/");
    assert("/"@ =~= seq!['/']);
    reveal_with_fuel(text::decimal, 3);
    assert(text::decimal(32) =~= seq!['3', '2']);
    assert(address + "/"@ + text::decimal(32) =~= address + seq!['/', '3', '2']);
    assert(Seq::<Seq<char>>::empty().push(network) =~= seq![network]);
    assert(Seq::<Seq<char>>::empty().push(address + seq!['/', '3', '2']) =~= seq![
        address + seq!['/', '3', '2'],
    ]);
}

proof fn lemma_behind_separator(front: Seq<char>, name: Seq<char>)
    requires
        front.len() > 0,
        is_separator(front.last()),
        forall|i: int| 0 <= i < name.len() ==> !is_separator(#[trigger] name[i]),
    ensures
        last_separator(front + name) == front.len(),
    decreases name.len(),
{
    let s = front + name;
    if name.len() == 0 {
        assert(s =~= front);
    } else {
        assert(s.last() == name[name.len() - 1]);
        assert(s.drop_last() =~= front + name.drop_last());
        assert forall|i: int| 0 <= i < name.drop_last().len() implies !is_separator(
            #[trigger] name.drop_last()[i],
        ) by {
            assert(name.drop_last()[i] == name[i]);
        }
        lemma_behind_separator(front, name.drop_last());
    }
}

proof fn lemma_dot_before(stem: Seq<char>, extension: Seq<char>)
    requires
        forall|i: int| 0 <= i < extension.len() ==> extension[i] != '.',
    ensures
        last_dot(stem + seq!['.'] + extension) == stem.len(),
    decreases extension.len(),
{
    let s = stem + seq!['.'] + extension;
    if extension.len() == 0 {
        assert(s.last() == '.');
    } else {
        assert(s.last() == extension[extension.len() - 1]);
        assert(s.drop_last() =~= stem + seq!['.'] + extension.drop_last());
        lemma_dot_before(stem, extension.drop_last());
    }
}

/// A path as targets are compared by: its slashes turned round and its capital
/// letters made small.
pub open spec fn compared(path: Seq<char>) -> Seq<char> {
    path.map_values(
        |c: char|
            if c == '/' {
                '\\'
            } else {
                small(c)
            },
    )
}

proof fn lemma_compared(path: Seq<char>)
    requires
        all_ascii(path),
    ensures
        normal_path(path) == compared(path),
{
    let turned = one_way(path);
    assert forall|i: int| 0 <= i < turned.len() implies (#[trigger] turned[i] as u32) < 128 by {
        assert((path[i] as u32) < 128);
    }
    assert(normal_path(path) =~= compared(path));
}

/// A program on a drive is a target exactly where its extension is `exe`, in
/// capitals or not, and the plan then holds its path with the slashes turned
/// round and the capitals made small.
pub proof fn a_program_is_taken_by_its_extension(
    drive: char,
    folders: Seq<char>,
    stem: Seq<char>,
    extension: Seq<char>,
)
    requires
        ('a' <= drive && drive <= 'z') || ('A' <= drive && drive <= 'Z'),
        folders.len() > 0 && (folders[0] == '\\' || folders[0] == '/'),
        folders.last() == '\\' || folders.last() == '/',
        stem.len() > 0,
        extension.len() > 0,
        forall|i: int|
            0 <= i < stem.len() ==> #[trigger] stem[i] != '\\' && stem[i] != '/',
        forall|i: int|
            0 <= i < extension.len() ==> #[trigger] extension[i] != '\\' && extension[i] != '/'
                && extension[i] != '.',
        !text::is_space(extension.last()),
        all_ascii(seq![drive, ':'] + folders + stem + seq!['.'] + extension),
    ensures
        ({
            let path = seq![drive, ':'] + folders + stem + seq!['.'] + extension;
            match one_target("application"@, path) {
                Ok(plan) => all_small(extension) == seq!['e', 'x', 'e'] && plan.application_paths
                    == seq![compared(path)] && plan.folder_prefixes.len() == 0
                    && plan.hostnames.len() == 0 && plan.ip_networks.len() == 0,
                Err(_) => all_small(extension) != seq!['e', 'x', 'e'],
            }
        }),
{
    let name = stem + seq!['.'] + extension;
    let path = seq![drive, ':'] + folders + stem + seq!['.'] + extension;
    assert(path =~= seq![drive, ':'] + folders + name);
    lemma_one_target("application"@, path);
    assert(path[0] == drive && path[1] == ':' && path[2] == folders[0]);
    assert(path.last() == extension.last());
    text::lemma_trimmed_as_it_is(path);
    let rest = path.skip(2);
    assert(rest =~= folders + name);
    assert forall|i: int| 0 <= i < name.len() implies !is_separator(#[trigger] name[i]) by {
        if i < stem.len() {
            assert(name[i] == stem[i]);
        } else if i > stem.len() {
            assert(name[i] == extension[i - stem.len() - 1]);
        }
    }
    lemma_behind_separator(folders, name);
    assert(rest.last() == name[name.len() - 1]);
    assert(rest.skip(folders.len() as int) =~= name);
    assert(name.len() > 1);
    assert(final_name(path) == name);
    lemma_dot_before(stem, extension);
    assert(name.skip(stem.len() as int + 1) =~= extension);
    lemma_lower_is_small(extension);
    reveal_strlit("exe");
    assert(text::lower("exe"@) =~= seq!['e', 'x', 'e']);
    lemma_compared(path);
    assert(Seq::<Seq<char>>::empty().push(compared(path)) =~= seq![compared(path)]);
}

/// A path that does not begin at a drive or with two separators names no place
/// on its own: neither a program nor a folder is taken by it.
pub proof fn a_relative_path_is_refused(path: Seq<char>)
    requires
        path.len() > 0,
        !text::is_space(path[0]),
        !text::is_space(path.last()),
        !(path.len() >= 2 && is_separator(path[0]) && is_separator(path[1])),
        !(path.len() >= 3 && path[1] == ':' && is_separator(path[2])),
    ensures
        one_target("application"@, path) is Err,
        one_target("folder"@, path) is Err,
{
    lemma_one_target("application"@, path);
    lemma_one_target("folder"@, path);
    lemma_kinds_differ();
    text::lemma_trimmed_as_it_is(path);
}

/// A folder on a drive is a target, and it does not matter whether a separator
/// stands at its end: the plan holds its path with the slashes turned round, the
/// capitals made small and no separator behind.
pub proof fn a_folder_is_taken_without_its_end(drive: char, inside: Seq<char>, ends: Seq<char>)
    requires
        ('a' <= drive && drive <= 'z') || ('A' <= drive && drive <= 'Z'),
        inside.len() > 0 && (inside[0] == '\\' || inside[0] == '/'),
        inside.last() != '\\' && inside.last() != '/' && !text::is_space(inside.last()),
        forall|i: int| 0 <= i < ends.len() ==> #[trigger] ends[i] == '\\' || ends[i] == '/',
        all_ascii(seq![drive, ':'] + inside),
    ensures
        one_target("folder"@, seq![drive, ':'] + inside + ends) matches Ok(plan)
            && plan.folder_prefixes == seq![compared(seq![drive, ':'] + inside)]
            && plan.application_paths.len() == 0 && plan.hostnames.len() == 0
            && plan.ip_networks.len() == 0,
{
    let path = seq![drive, ':'] + inside;
    let all = path + ends;
    lemma_one_target("folder"@, all);
    lemma_kinds_differ();
    assert(all[0] == drive && all[1] == ':' && all[2] == inside[0]);
    if ends.len() > 0 {
        assert(all.last() == ends[ends.len() - 1]);
    } else {
        assert(all =~= path);
        assert(all.last() == inside.last());
    }
    text::lemma_trimmed_as_it_is(all);
    assert forall|i: int| 0 <= i < all.len() implies (#[trigger] all[i] as u32) < 128 by {
        if i < path.len() {
            assert((path[i] as u32) < 128);
        } else {
            assert(all[i] == ends[i - path.len()]);
        }
    }
    lemma_compared(all);
    let short = compared(path);
    assert(compared(all) =~= short + compared(ends));
    assert(short.last() != '\\') by {
        assert(path.last() == inside.last());
    }
    assert forall|i: int| 0 <= i < compared(ends).len() implies #[trigger] compared(ends)[i]
        == '\\' by {
        assert(ends[i] == '\\' || ends[i] == '/');
    }
    lemma_trailing_dropped(short, compared(ends), '\\');
    assert(Seq::<Seq<char>>::empty().push(short) =~= seq![short]);
}

proof fn lemma_trailing_dropped(front: Seq<char>, ends: Seq<char>, c: char)
    requires
        front.len() > 0,
        front.last() != c,
        forall|i: int| 0 <= i < ends.len() ==> #[trigger] ends[i] == c,
    ensures
        without_trailing(front + ends, c) == front,
    decreases ends.len(),
{
    let all = front + ends;
    if ends.len() == 0 {
        assert(all =~= front);
    } else {
        assert(all.last() == ends[ends.len() - 1]);
        assert(all.drop_last() =~= front + ends.drop_last());
        assert forall|i: int| 0 <= i < ends.drop_last().len() implies #[trigger] ends.drop_last()[i]
            == c by {
            assert(ends.drop_last()[i] == ends[i]);
        }
        lemma_trailing_dropped(front, ends.drop_last(), c);
    }
}

proof fn lemma_rules_added_last(plan: PlanModel, rules: Seq<RuleModel>, rule: RuleModel)
    ensures
        rules_added(plan, rules.push(rule)) == match rules_added(plan, rules) {
            Ok(next) => rule_added(next, rule),
            Err(why) => Err::<PlanModel, Seq<char>>(why),
        },
    decreases rules.len(),
{
    let all = rules.push(rule);
    if rules.len() == 0 {
        assert(all.skip(1) =~= Seq::<RuleModel>::empty());
        assert(all[0] == rule);
        match rule_added(plan, rule) {
            Ok(next) => {
                assert(rules_added(next, all.skip(1)) == Ok::<PlanModel, Seq<char>>(next));
            },
            Err(_) => {},
        }
    } else {
        assert(all[0] == rules[0]);
        assert(all.skip(1) =~= rules.skip(1).push(rule));
        match rule_added(plan, rules[0]) {
            Ok(next) => lemma_rules_added_last(next, rules.skip(1), rule),
            Err(_) => {},
        }
    }
}

/// Targets are taken one by one, in order: one more target adds to a plan what
/// it adds on its own, behind what is there, and a plan fails at the first
/// target that fails on its own.
pub proof fn each_target_counts_on_its_own(rules: Seq<RuleModel>, rule: RuleModel)
    requires
        rules.len() > 0,
    ensures
        compiled("split"@, rules.push(rule)) == match compiled("split"@, rules) {
            Err(why) => Err::<PlanModel, Seq<char>>(why),
            Ok(plan) => match one_target(rule.kind, rule.value) {
                Err(why) => Err::<PlanModel, Seq<char>>(why),
                Ok(own) => Ok(
                    PlanModel {
                        application_paths: plan.application_paths + own.application_paths,
                        folder_prefixes: plan.folder_prefixes + own.folder_prefixes,
                        hostnames: plan.hostnames + own.hostnames,
                        ip_networks: plan.ip_networks + own.ip_networks,
                        ..plan
                    },
                ),
            },
        },
{
    reveal_strlit("all");
    reveal_strlit("split");
    assert("all"@.len() == 3 && "split"@.len() == 5);
    let bare = bare_plan("split"@, "wfp"@);
    lemma_one_target(rule.kind, rule.value);
    lemma_rules_added_last(bare, rules, rule);
    match rules_added(bare, rules) {
        Err(_) => {},
        Ok(plan) => match (rule_added(plan, rule), rule_added(bare, rule)) {
            (Ok(next), Ok(own)) => {
                assert(next.application_paths =~= plan.application_paths + own.application_paths);
                assert(next.folder_prefixes =~= plan.folder_prefixes + own.folder_prefixes);
                assert(next.hostnames =~= plan.hostnames + own.hostnames);
                assert(next.ip_networks =~= plan.ip_networks + own.ip_networks);
            },
            _ => {},
        },
    }
}

/// A mode is `all` or `split`, a split plan names a target, and no target is
/// blank.
pub proof fn nothing_else_compiles(mode: Seq<char>, rules: Seq<RuleModel>, kind: Seq<char>)
    ensures
        mode != "all"@ && mode != "split"@ ==> compiled(mode, rules) is Err,
        compiled("split"@, Seq::<RuleModel>::empty()) is Err,
        one_target(kind, Seq::<char>::empty()) is Err,
        one_target(kind, seq![' ']) is Err,
        kind != "application"@ && kind != "folder"@ && kind != "hostname"@ && kind != "ip"@
            ==> forall|value: Seq<char>| (#[trigger] one_target(kind, value)) is Err,
        compiled("split"@, rules) matches Ok(plan) ==> plan.mode == "split"@ && plan.protocols
            == seq!["udp"@, "tcp"@],
{
    reveal_strlit("all");
    reveal_strlit("split");
    assert("all"@.len() == 3 && "split"@.len() == 5);
    lemma_one_target(kind, Seq::<char>::empty());
    lemma_one_target(kind, seq![' ']);
    assert(seq![' '].skip(1) =~= Seq::<char>::empty());
    assert(text::trimmed_start(seq![' ']) == text::trimmed_start(seq![' '].skip(1)));
    assert forall|value: Seq<char>|
        kind != "application"@ && kind != "folder"@ && kind != "hostname"@ && kind
            != "ip"@ implies (#[trigger] one_target(kind, value)) is Err by {
        lemma_one_target(kind, value);
    }
    lemma_plan_keeps_its_protocols(bare_plan("split"@, "wfp"@), rules);
}

proof fn lemma_plan_keeps_its_protocols(plan: PlanModel, rules: Seq<RuleModel>)
    ensures
        rules_added(plan, rules) matches Ok(next) ==> next.protocols == plan.protocols && next.mode
            == plan.mode,
    decreases rules.len(),
{
    if rules.len() > 0 {
        match rule_added(plan, rules[0]) {
            Ok(next) => lemma_plan_keeps_its_protocols(next, rules.skip(1)),
            Err(_) => {},
        }
    }
}

/// An IPv6 network is taken with its address in the canonical form, under the
/// same rule for its prefix.
pub proof fn an_ipv6_network_is_taken(groups: Seq<u16>, bits: nat)
    requires
        groups.len() == 8,
        bits <= 255,
    ensures
        ({
            let address = net::ipv6_text(groups);
            let network = address + seq!['/'] + text::decimal(bits);
            &&& one_target("ip"@, address) matches Ok(plan)
            &&& plan.ip_networks == seq![address + seq!['/', '1', '2', '8']]
            &&& match one_target("ip"@, network) {
                Ok(found) => bits <= 128 && found.ip_networks == seq![network],
                Err(_) => bits > 128,
            }
        }),
{
    net::an_ipv6_address_reads_back(groups);
    let address = net::ipv6_text(groups);
    let network = address + seq!['/'] + text::decimal(bits);
    lemma_one_target("ip"@, address);
    lemma_one_target("ip"@, network);
    lemma_kinds_differ();
    text::lemma_decimal_reads_back(bits);
    let last = address.len() - 1;
    assert(text::is_hex_digit(address[0]) || address[0] == ':' || address[0] == '.');
    assert(text::is_hex_digit(address[last]) || address[last] == ':' || address[last] == '.');
    assert forall|i: int| 0 <= i < address.len() implies address[i] != '/' by {
        assert(text::is_hex_digit(address[i]) || address[i] == ':' || address[i] == '.');
    }
    assert(network[0] == address[0]);
    assert(network.last() == text::decimal(bits).last());
    assert(text::is_digit(text::decimal(bits)[text::decimal(bits).len() - 1]));
    text::lemma_trimmed_as_it_is(address);
    text::lemma_trimmed_as_it_is(network);
    text::lemma_first_index(address, '/', address.len());
    assert(address.take(address.len() as int) =~= address);
    text::lemma_first_index(network, '/', address.len());
    assert(network.take(address.len() as int) =~= address);
    assert(network.skip(address.len() as int + 1) =~= text::decimal(bits));
    reveal_strlit("/");
    assert("/"@ =~= seq!['/']);
    reveal_with_fuel(text::decimal, 4);
    assert(text::decimal(128) =~= seq!['1', '2', '8']);
    assert(address + "/"@ + text::decimal(128) =~= address + seq!['/', '1', '2', '8']);
    assert(Seq::<Seq<char>>::empty().push(network) =~= seq![network]);
    assert(Seq::<Seq<char>>::empty().push(address + seq!['/', '1', '2', '8']) =~= seq![
        address + seq!['/', '1', '2', '8'],
    ]);
}

/// A program on a shared folder of the network is a target in the same way: two
/// separators, a server, a share, folders and a name with the extension `exe`.
pub proof fn a_program_on_a_share_is_taken(
    server: Seq<char>,
    share: Seq<char>,
    folders: Seq<char>,
    stem: Seq<char>,
    extension: Seq<char>,
)
    requires
        server.len() > 0,
        share.len() > 0,
        server != seq!['?'] && server != seq!['.'],
        folders.len() > 0,
        folders[0] == '\\' && folders.last() == '\\',
        stem.len() > 0,
        extension.len() > 0,
        !text::is_space(extension.last()),
        forall|i: int| 0 <= i < server.len() ==> #[trigger] server[i] != '\\' && server[i] != '/',
        forall|i: int| 0 <= i < share.len() ==> #[trigger] share[i] != '\\' && share[i] != '/',
        forall|i: int| 0 <= i < stem.len() ==> #[trigger] stem[i] != '\\' && stem[i] != '/',
        forall|i: int|
            0 <= i < extension.len() ==> #[trigger] extension[i] != '\\' && extension[i] != '/'
                && extension[i] != '.',
        all_ascii(
            seq!['\\', '\\'] + server + seq!['\\'] + share + folders + stem + seq!['.']
                + extension,
        ),
    ensures
        ({
            let path = seq!['\\', '\\'] + server + seq!['\\'] + share + folders + stem + seq!['.']
                + extension;
            match one_target("application"@, path) {
                Ok(plan) => all_small(extension) == seq!['e', 'x', 'e'] && plan.application_paths
                    == seq![compared(path)],
                Err(_) => all_small(extension) != seq!['e', 'x', 'e'],
            }
        }),
{
    let name = stem + seq!['.'] + extension;
    let path = seq!['\\', '\\'] + server + seq!['\\'] + share + folders + stem + seq!['.']
        + extension;
    let tail = folders + name;
    let nested = seq!['\\', '\\'] + (server + seq!['\\'] + (share + tail));
    assert(path =~= nested);
    lemma_one_target("application"@, path);
    assert(path.last() == extension.last());
    text::lemma_trimmed_as_it_is(path);
    lemma_share_prefix(server, share, tail);
    lemma_name_of_tail(folders, stem, extension);
    assert(final_name(path) == name);
    lemma_lower_is_small(extension);
    reveal_strlit("exe");
    assert(text::lower("exe"@) =~= seq!['e', 'x', 'e']);
    lemma_compared(path);
    assert(Seq::<Seq<char>>::empty().push(compared(path)) =~= seq![compared(path)]);
}

/// The last component behind a prefix, and where its extension begins.
proof fn lemma_name_of_tail(folders: Seq<char>, stem: Seq<char>, extension: Seq<char>)
    requires
        folders.len() > 0,
        is_separator(folders.last()),
        stem.len() > 0,
        extension.len() > 0,
        forall|i: int| 0 <= i < stem.len() ==> #[trigger] stem[i] != '\\' && stem[i] != '/',
        forall|i: int|
            0 <= i < extension.len() ==> #[trigger] extension[i] != '\\' && extension[i] != '/'
                && extension[i] != '.',
    ensures
        ({
            let name = stem + seq!['.'] + extension;
            &&& last_component(folders + name) == name
            &&& last_dot(name) == stem.len()
            &&& name.skip(stem.len() as int + 1) == extension
        }),
{
    let name = stem + seq!['.'] + extension;
    let tail = folders + name;
    assert forall|i: int| 0 <= i < name.len() implies !is_separator(#[trigger] name[i]) by {
        if i < stem.len() {
            assert(name[i] == stem[i]);
        } else if i > stem.len() {
            assert(name[i] == extension[i - stem.len() - 1]);
        }
    }
    lemma_behind_separator(folders, name);
    assert(tail.last() == name[name.len() - 1]);
    assert(tail.skip(folders.len() as int) =~= name);
    assert(name.len() > 1);
    lemma_dot_before(stem, extension);
    assert(name.skip(stem.len() as int + 1) =~= extension);
}

/// How much of a path on a share names the server and the share.
proof fn lemma_share_prefix(server: Seq<char>, share: Seq<char>, tail: Seq<char>)
    requires
        server.len() > 0,
        share.len() > 0,
        server != seq!['?'] && server != seq!['.'],
        tail.len() > 0,
        tail[0] == '\\',
        forall|i: int| 0 <= i < server.len() ==> #[trigger] server[i] != '\\' && server[i] != '/',
        forall|i: int| 0 <= i < share.len() ==> #[trigger] share[i] != '\\' && share[i] != '/',
    ensures
        ({
            let path = seq!['\\', '\\'] + (server + seq!['\\'] + (share + tail));
            &&& is_absolute(path)
            &&& !is_verbatim(path)
            &&& path[0] == '\\'
            &&& path.skip(prefix_length(path)) == tail
        }),
{
    let from_share = share + tail;
    let from_server = server + seq!['\\'] + from_share;
    let path = seq!['\\', '\\'] + from_server;
    assert(path.skip(2) =~= from_server);
    assert(from_server[server.len() as int] == '\\');
    assert forall|i: int| 0 <= i < server.len() implies !is_separator(
        #[trigger] from_server[i],
    ) by {
        assert(from_server[i] == server[i]);
    }
    lemma_first_separator(from_server, server.len());
    assert(path.skip(3 + server.len() as int) =~= from_share);
    assert forall|i: int| 0 <= i < share.len() implies !is_separator(#[trigger] from_share[i]) by {
        assert(from_share[i] == share[i]);
    }
    assert(from_share[share.len() as int] == tail[0]);
    lemma_first_separator(from_share, share.len());
    assert(path[2] == server[0]);
    if server.len() == 1 {
        assert(server =~= seq![server[0]]);
    } else {
        assert(path[3] == server[1]);
    }
    assert(path.skip(3 + server.len() as int + share.len() as int) =~= tail);
}

proof fn lemma_behind_backslash(front: Seq<char>, name: Seq<char>)
    requires
        front.len() == 0 || front.last() == '\\',
        forall|i: int| 0 <= i < name.len() ==> #[trigger] name[i] != '\\',
    ensures
        last_backslash(front + name) == front.len(),
    decreases name.len(),
{
    let s = front + name;
    if name.len() == 0 {
        assert(s =~= front);
    } else {
        assert(s.last() == name[name.len() - 1]);
        assert(s.drop_last() =~= front + name.drop_last());
        assert forall|i: int| 0 <= i < name.drop_last().len() implies #[trigger] name.drop_last()[i]
            != '\\' by {
            assert(name.drop_last()[i] == name[i]);
        }
        lemma_behind_backslash(front, name.drop_last());
    }
}

/// The name at the end of a verbatim path on a drive.
proof fn lemma_verbatim_name(drive: char, folders: Seq<char>, name: Seq<char>)
    requires
        ('a' <= drive && drive <= 'z') || ('A' <= drive && drive <= 'Z'),
        folders.len() == 0 || folders.last() == '\\',
        name.len() > 0,
        forall|i: int| 0 <= i < name.len() ==> #[trigger] name[i] != '\\',
    ensures
        ({
            let path = seq!['\\', '\\', '?', '\\', drive, ':', '\\'] + (folders + name);
            &&& is_absolute(path)
            &&& path[0] == '\\'
            &&& final_name(path) == name
        }),
{
    let head = seq!['\\', '\\', '?', '\\', drive, ':', '\\'];
    let body = folders + name;
    let path = head + body;
    assert(path[0] == '\\' && path[1] == '\\' && path[2] == '?' && path[3] == '\\');
    assert(path[4] == drive && path[5] == ':' && path[6] == '\\');
    assert(!verbatim_server(path));
    let rest = path.skip(6);
    assert(rest[0] == '\\');
    assert(rest.skip(1) =~= body);
    lemma_behind_backslash(folders, name);
    assert(body.last() == name[name.len() - 1]);
    assert(body.skip(folders.len() as int) =~= name);
}

/// A program under a path that the system takes literally is a target in the
/// same way.
pub proof fn a_verbatim_program_is_taken(
    drive: char,
    folders: Seq<char>,
    stem: Seq<char>,
    extension: Seq<char>,
)
    requires
        ('a' <= drive && drive <= 'z') || ('A' <= drive && drive <= 'Z'),
        folders.len() == 0 || folders.last() == '\\',
        stem.len() > 0,
        extension.len() > 0,
        !text::is_space(extension.last()),
        forall|i: int| 0 <= i < stem.len() ==> #[trigger] stem[i] != '\\',
        forall|i: int|
            0 <= i < extension.len() ==> #[trigger] extension[i] != '\\' && extension[i] != '.',
        all_ascii(
            seq!['\\', '\\', '?', '\\', drive, ':', '\\'] + (folders + (stem + seq!['.']
                + extension)),
        ),
    ensures
        ({
            let path = seq!['\\', '\\', '?', '\\', drive, ':', '\\'] + (folders + (stem + seq![
                '.',
            ] + extension));
            match one_target("application"@, path) {
                Ok(plan) => all_small(extension) == seq!['e', 'x', 'e'] && plan.application_paths
                    == seq![compared(path)],
                Err(_) => all_small(extension) != seq!['e', 'x', 'e'],
            }
        }),
{
    let name = stem + seq!['.'] + extension;
    let path = seq!['\\', '\\', '?', '\\', drive, ':', '\\'] + (folders + name);
    lemma_one_target("application"@, path);
    assert forall|i: int| 0 <= i < name.len() implies #[trigger] name[i] != '\\' by {
        if i < stem.len() {
            assert(name[i] == stem[i]);
        } else if i > stem.len() {
            assert(name[i] == extension[i - stem.len() - 1]);
        }
    }
    lemma_verbatim_name(drive, folders, name);
    assert(path.last() == extension.last());
    text::lemma_trimmed_as_it_is(path);
    lemma_dot_before(stem, extension);
    assert(name.skip(stem.len() as int + 1) =~= extension);
    lemma_lower_is_small(extension);
    reveal_strlit("exe");
    assert(text::lower("exe"@) =~= seq!['e', 'x', 'e']);
    lemma_compared(path);
    assert(Seq::<Seq<char>>::empty().push(compared(path)) =~= seq![compared(path)]);
}

} // verus!
