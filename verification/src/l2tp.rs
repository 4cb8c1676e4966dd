//! L2TP/IPsec nodes, which the operating system's own dialler connects.
//!
//! Windows RAS owns IKE, IPsec, L2TP and PPP. The privileged service dials the
//! connection and hands over the temporary profile plus adapter coordinates.
//! Relay traffic uses an interface-pinned UDP socket; after a failed path probe
//! that profile can be redialled without disturbing other transports. Direct
//! L2TP is handled by the service through native Windows routing, outside the
//! packet engine.

use vstd::prelude::*;
use vstd::string::StringExecFns;

use crate::net;
use crate::net::Ipv4;
use crate::relay_path::{PathIdentity, KIND_L2TP};
use crate::rtt::MIN_TIMEOUT;
use crate::text;
use crate::utf16;

verus! {

/// The inner MTU of a tunnel whose service did not say.
pub const DEFAULT_L2TP_MTU: u16 = 1384;

/// How long the adapter of a new connection may take to become ready.
pub const ADAPTER_READY_LIMIT: u64 = 6_000_000_000;

pub const DATA_PLANE_SILENT: &'static str = "the L2TP data plane stopped answering";

pub const ADAPTER_GONE: &'static str = "the Windows L2TP adapter is no longer active";

pub const LOGIN_TOO_LONG: &'static str = "the L2TP login is too long";

pub const ADAPTER_NOT_READY: &'static str = "the reconnected L2TP adapter did not become ready";

pub const BAD_ADAPTER_INDEX: &'static str = "Windows returned an invalid L2TP adapter index";

/// Where a connected L2TP tunnel is, and how to dial it again.
#[derive(Debug, Clone)]
pub struct L2tpRuntime {
    pub local_address: Ipv4,
    pub virtual_address: Ipv4,
    pub server_address: Ipv4,
    pub interface_index: u32,
    /// Inner MTU the privileged service derived from the route to this L2TP
    /// server. A RAS redial receives a new adapter and must restore the same
    /// budget before relay traffic is pinned to it.
    pub mtu: u16,
    /// The bits of the number of milliseconds that setting up took.
    pub setup_latency_bits: u64,
    pub profile_name: String,
    pub phonebook_path: String,
}

/// The MTU of a tunnel, given what the service said. Older services did not say,
/// and keeping their established safe value makes an in-place update benign.
pub fn l2tp_mtu(given: Option<u16>) -> (r: u16)
    ensures
        r == match given {
            Some(mtu) => mtu,
            None => DEFAULT_L2TP_MTU,
        },
{
    match given {
        Some(mtu) => mtu,
        None => DEFAULT_L2TP_MTU,
    }
}

/// Why a tunnel has to be dialled again before its socket can be opened.
pub fn redial_reason(force_redial: bool, adapter_active: bool) -> (r: Option<&'static str>)
    ensures
        r is None <==> !force_redial && adapter_active,
        r matches Some(why) ==> why@ == if force_redial {
            DATA_PLANE_SILENT@
        } else {
            ADAPTER_GONE@
        },
{
    if force_redial {
        Some(DATA_PLANE_SILENT)
    } else if !adapter_active {
        Some(ADAPTER_GONE)
    } else {
        None
    }
}

/// What is said where dialling again failed.
pub fn redial_failed(original: &str, redial: &str) -> (r: String)
    ensures
        r@ == "the L2TP adapter stopped working ("@ + original@
            + "); Windows could not reconnect it: "@ + redial@,
{
    let mut r = text::concat3(
        "the L2TP adapter stopped working (",
        original,
        "); Windows could not reconnect it: ",
    );
    r.append(redial);
    r
}

/// What is said where the tunnel came back and its socket did not.
pub fn socket_failed(error: &str) -> (r: String)
    ensures
        r@ == "Windows reconnected L2TP but its relay socket could not open: "@ + error@,
{
    text::concat2("Windows reconnected L2TP but its relay socket could not open: ", error)
}

/// A text as units that end in a zero.
pub fn wide(value: &str) -> (r: Vec<u16>)
    ensures
        r@ == utf16::encoded(value@).push(0),
{
    let mut r = utf16::encode(value);
    r.push(0);
    r
}

/// Writes a text into a field of the dialler's parameters, which has to have
/// room for the zero that ends it.
pub fn put(destination: &mut Vec<u16>, value: &str) -> (r: Result<(), String>)
    ensures
        ({
            let units = utf16::encoded(value@);
            if units.len() >= old(destination)@.len() {
                &&& r matches Err(message) && message@ == LOGIN_TOO_LONG@
                &&& final(destination)@ == old(destination)@
            } else {
                &&& r is Ok
                &&& final(destination)@ == units + old(destination)@.skip(units.len() as int)
            }
        }),
{
    let units = utf16::encode(value);
    if units.len() >= destination.len() {
        return Err(LOGIN_TOO_LONG.to_owned());
    }
    let mut at: usize = 0;
    let ghost before = destination@;
    while at < units.len()
        invariant
            at <= units@.len() < before.len(),
            destination@.len() == before.len(),
            forall|i: int| 0 <= i < at ==> #[trigger] destination@[i] == units@[i],
            forall|i: int| at <= i < before.len() ==> #[trigger] destination@[i] == before[i],
        decreases units@.len() - at,
    {
        destination.set(at, units[at]);
        at = at + 1;
    }
    assert(destination@ =~= units@ + before.skip(units@.len() as int));
    Ok(())
}

/// Where the first zero stands, or the length.
pub open spec fn first_zero(units: Seq<u16>) -> nat
    decreases units.len(),
{
    if units.len() == 0 || units[0] == 0 {
        0
    } else {
        1 + first_zero(units.skip(1))
    }
}

proof fn lemma_first_zero(units: Seq<u16>, n: nat)
    requires
        n <= units.len(),
        forall|i: int| 0 <= i < n ==> #[trigger] units[i] != 0,
        n < units.len() ==> units[n as int] == 0,
    ensures
        first_zero(units) == n,
    decreases n,
{
    if n > 0 {
        assert(units[0] != 0);
        assert forall|i: int| 0 <= i < n - 1 implies #[trigger] units.skip(1)[i] != 0 by {
            assert(units.skip(1)[i] == units[i + 1]);
        }
        lemma_first_zero(units.skip(1), (n - 1) as nat);
    }
}

/// Reads a text out of a field that a zero ends.
pub fn take(value: &[u16]) -> (r: String)
    ensures
        r@ == utf16::decoded(value@.take(first_zero(value@) as int)),
{
    let mut n: usize = 0;
    while n < value.len() && value[n] != 0
        invariant
            n <= value@.len(),
            forall|i: int| 0 <= i < n ==> #[trigger] value@[i] != 0,
        decreases value@.len() - n,
    {
        n = n + 1;
    }
    proof {
        lemma_first_zero(value@, n as nat);
    }
    let head = vstd::slice::slice_subrange(value, 0, n);
    assert(head@ =~= value@.take(n as int));
    utf16::decode(head)
}

/// Whether a text holds no zero character.
pub open spec fn no_zero(s: Seq<char>) -> bool {
    forall|i: int| 0 <= i < s.len() ==> #[trigger] s[i] as u32 != 0
}

proof fn lemma_units_nonzero(s: Seq<char>, i: int)
    requires
        no_zero(s),
        0 <= i < utf16::encoded(s).len(),
    ensures
        utf16::encoded(s)[i] != 0,
    decreases s.len(),
{
    let before = utf16::encoded(s.drop_last());
    if i < before.len() {
        assert forall|k: int| 0 <= k < s.drop_last().len() implies #[trigger] s.drop_last()[k] as u32
            != 0 by {
            assert(s.drop_last()[k] == s[k]);
        }
        lemma_units_nonzero(s.drop_last(), i);
    } else {
        assert(s[s.len() - 1] as u32 != 0);
        utf16::lemma_units(s.last());
        assert(utf16::encoded(s)[i] == utf16::units_of(s.last())[i - before.len()]);
    }
}

/// A text that was written into a cleared field reads back, as long as no zero
/// is in it.
pub proof fn a_field_reads_back(s: Seq<char>, rest: Seq<u16>)
    requires
        no_zero(s),
        rest.len() > 0,
        rest[0] == 0,
    ensures
        ({
            let field = utf16::encoded(s) + rest;
            utf16::decoded(field.take(first_zero(field) as int)) == s
        }),
{
    let units = utf16::encoded(s);
    let field = units + rest;
    assert forall|i: int| 0 <= i < units.len() implies #[trigger] field[i] != 0 by {
        lemma_units_nonzero(s, i);
    }
    lemma_first_zero(field, units.len());
    assert(field.take(units.len() as int) =~= units);
    utf16::an_encoded_text_reads_back(s);
}

/// What is said of a dial that failed.
pub fn dial_error(status: u32) -> (r: String)
    ensures
        r@ == "RAS error "@ + text::decimal(status as nat),
{
    text::concat2("RAS error ", text::decimal_text(status as u64).as_str())
}

/// The address that a new connection was given, out of what RAS says of it.
pub fn projected_address(status: u32, error: u32, address: &[u16]) -> (r: Result<Ipv4, String>)
    ensures
        ({
            let found = net::ipv4_of(
                utf16::decoded(address@.take(first_zero(address@) as int)),
            );
            let code = if status != 0 {
                status
            } else {
                error
            };
            if status != 0 || error != 0 || found is None {
                r matches Err(message) && message@
                    == "Windows reconnected L2TP but IPv4 projection failed (RAS error "@
                    + text::decimal(code as nat) + ")"@
            } else {
                r == Ok::<Ipv4, String>(found->0)
            }
        }),
{
    let written = take(address);
    let found = net::parse_ipv4(text::chars(written.as_str()).as_slice());
    if status == 0 && error == 0 {
        if let Some(local) = found {
            return Ok(local);
        }
    }
    let code: u32 = if status != 0 {
        status
    } else {
        error
    };
    Err(
        text::concat3(
            "Windows reconnected L2TP but IPv4 projection failed (RAS error ",
            text::decimal_text(code as u64).as_str(),
            ")",
        ),
    )
}

/// The index of a new connection's adapter, out of what was written about it.
pub fn adapter_index(found: bool, elapsed: u64, output: &str) -> (r: Result<u32, String>)
    ensures
        if !found || elapsed > ADAPTER_READY_LIMIT {
            r matches Err(message) && message@ == ADAPTER_NOT_READY@
        } else {
            match text::parsed_number(text::trimmed(output@), u32::MAX as nat) {
                Some(index) => r matches Ok(n) && n == index,
                None => r matches Err(message) && message@ == BAD_ADAPTER_INDEX@,
            }
        },
{
    if !found || elapsed > ADAPTER_READY_LIMIT {
        return Err(ADAPTER_NOT_READY.to_owned());
    }
    let chars = text::chars(output);
    match text::parse_number(text::trim(chars.as_slice()), u32::MAX as u64) {
        Some(index) => Ok(index as u32),
        None => Err(BAD_ADAPTER_INDEX.to_owned()),
    }
}

/// The network that holds the relay alone.
pub fn relay_prefix(relay: Ipv4) -> (r: String)
    ensures
        r@ == relay.dotted() + "/32"@,
{
    text::concat2(relay.to_text().as_str(), "/32")
}

/// Whether the route of a connection that was hung up has to be removed. A
/// replacement can reuse the same PPP interface, and where a live connection
/// owns the address the route is the replacement's.
pub fn removes_route(address_active: bool, has_route: bool) -> (r: bool)
    ensures
        r == (has_route && !address_active),
{
    has_route && !address_active
}

/// The script that succeeds where an interface holds an address.
pub fn active_script(interface_index: u32, local_address: Ipv4) -> (r: String)
    ensures
        r@ == "if(Get-NetIPAddress -AddressFamily IPv4 -InterfaceIndex "@ + text::decimal(
            interface_index as nat,
        ) + " -IPAddress '"@ + local_address.dotted()
            + "' -ErrorAction SilentlyContinue){exit 0}else{exit 1}"@,
{
    text::concat5(
        "if(Get-NetIPAddress -AddressFamily IPv4 -InterfaceIndex ",
        text::decimal_text(interface_index as u64).as_str(),
        " -IPAddress '",
        local_address.to_text().as_str(),
        "' -ErrorAction SilentlyContinue){exit 0}else{exit 1}",
    )
}

/// The script that waits up to five seconds for an address to be assigned and
/// writes the index of the interface that holds it.
pub open spec fn find_script_text(local_address: Ipv4) -> Seq<char> {
    "$d=(Get-Date).AddSeconds(5);do{$i=Get-NetIPAddress -AddressFamily IPv4 -IPAddress '"@
        + local_address.dotted()
        + "' -ErrorAction SilentlyContinue|Select-Object -First 1 -ExpandProperty InterfaceIndex;if($null-ne $i){[Console]::Out.Write($i);exit 0};Start-Sleep -Milliseconds 100}while((Get-Date)-lt$d);exit 2"@
}

fn find_script(local_address: Ipv4) -> (r: String)
    ensures
        r@ == find_script_text(local_address),
{
    text::concat3(
        "$d=(Get-Date).AddSeconds(5);do{$i=Get-NetIPAddress -AddressFamily IPv4 -IPAddress '",
        local_address.to_text().as_str(),
        "' -ErrorAction SilentlyContinue|Select-Object -First 1 -ExpandProperty InterfaceIndex;if($null-ne $i){[Console]::Out.Write($i);exit 0};Start-Sleep -Milliseconds 100}while((Get-Date)-lt$d);exit 2",
    )
}

/// The script that restores the MTU of a new adapter.
pub open spec fn mtu_script_text(interface_index: u32, mtu: u16) -> Seq<char> {
    "Set-NetIPInterface -AddressFamily IPv4 -InterfaceIndex "@ + text::decimal(
        interface_index as nat,
    ) + " -NlMtuBytes "@ + text::decimal(mtu as nat) + " -ErrorAction Stop"@
}

fn mtu_script(interface_index: u32, mtu: u16) -> (r: String)
    ensures
        r@ == mtu_script_text(interface_index, mtu),
{
    text::concat5(
        "Set-NetIPInterface -AddressFamily IPv4 -InterfaceIndex ",
        text::decimal_text(interface_index as u64).as_str(),
        " -NlMtuBytes ",
        text::decimal_text(mtu as u64).as_str(),
        " -ErrorAction Stop",
    )
}

/// The script that removes the routes of a network out of an interface.
pub open spec fn unroute_script_text(prefix: Seq<char>, interface_index: u32) -> Seq<char> {
    "Get-NetRoute -PolicyStore ActiveStore -DestinationPrefix '"@ + prefix + "' -InterfaceIndex "@
        + text::decimal(interface_index as nat)
        + " -ErrorAction SilentlyContinue|Remove-NetRoute -Confirm:$false -ErrorAction SilentlyContinue"@
}

/// The script that removes the routes of a network out of an interface.
pub fn unroute_script(prefix: &str, interface_index: u32) -> (r: String)
    ensures
        r@ == unroute_script_text(prefix@, interface_index),
{
    text::concat5(
        "Get-NetRoute -PolicyStore ActiveStore -DestinationPrefix '",
        prefix,
        "' -InterfaceIndex ",
        text::decimal_text(interface_index as u64).as_str(),
        " -ErrorAction SilentlyContinue|Remove-NetRoute -Confirm:$false -ErrorAction SilentlyContinue",
    )
}

/// The script that pins a network to an interface. A leftover of an earlier
/// connection is removed first.
pub open spec fn route_script_text(prefix: Seq<char>, interface_index: u32) -> Seq<char> {
    unroute_script_text(prefix, interface_index)
        + ";New-NetRoute -PolicyStore ActiveStore -DestinationPrefix '"@ + prefix
        + "' -InterfaceIndex "@ + text::decimal(interface_index as nat)
        + " -NextHop '0.0.0.0' -RouteMetric 1 -ErrorAction Stop|Out-Null"@
}

fn route_script(prefix: &str, interface_index: u32) -> (r: String)
    ensures
        r@ == route_script_text(prefix@, interface_index),
{
    let index = text::decimal_text(interface_index as u64);
    text::concat5(
        text::concat2(
            unroute_script(prefix, interface_index).as_str(),
            ";New-NetRoute -PolicyStore ActiveStore -DestinationPrefix '",
        ).as_str(),
        prefix,
        "' -InterfaceIndex ",
        index.as_str(),
        " -NextHop '0.0.0.0' -RouteMetric 1 -ErrorAction Stop|Out-Null",
    )
}

/// A text without the white space around it.
fn bare(s: &str) -> (r: String)
    ensures
        r@ == text::trimmed(s@),
{
    let chars = text::chars(s);
    text::string(text::trim(chars.as_slice()))
}

/// How far the dialling of a lost connection has come.
#[derive(Debug, Clone, Copy, PartialEq, Eq, Structural)]
pub enum RedialStage {
    Dialling,
    Projecting,
    Finding { local_address: Ipv4 },
    Sizing { local_address: Ipv4, interface_index: u32 },
    Routing { local_address: Ipv4, interface_index: u32 },
    Over,
}

/// What came of the last thing that was asked.
pub enum RedialEvent {
    /// The connection was dialled; `handle` is whether there is one to hang up.
    Dialled { status: u32, handle: bool },
    /// What is known of the address that the connection was given.
    Projected { status: u32, error: u32, address: Vec<u16> },
    /// A script ended, with what it wrote and what it complained about, in this
    /// many nanoseconds.
    Ran { success: bool, output: String, complaint: String, elapsed: u64 },
    /// A script could not be run.
    NotRun { error: String },
}

/// What to do next.
pub enum RedialAction {
    /// Ask what address the connection was given.
    Project,
    /// Run this script.
    Run { script: String },
    /// The connection is up and carries the relay's traffic.
    Finish { local_address: Ipv4, interface_index: u32, relay_prefix: String },
    /// Give up, and hang up first where there is something to hang up.
    Abandon { message: String, hang_up: bool },
}

pub const NOT_INSPECTED: &'static str = "could not inspect the reconnected L2TP adapter: ";

pub const MTU_NOT_RUN: &'static str = "could not restore the L2TP MTU after reconnect: ";

pub const MTU_REFUSED: &'static str = "Windows could not restore the L2TP MTU after reconnect: ";

pub const ROUTE_NOT_RUN: &'static str = "could not route the relay through reconnected L2TP: ";

pub const OUT_OF_TURN: &'static str = "the L2TP connection reported out of turn";

/// Dials a lost connection again, and prepares its new adapter.
///
/// The dialling itself, the scripts and what the system says of the connection
/// are done by the caller, who reports what came of each.
#[derive(Debug, Clone, Copy, PartialEq, Eq, Structural)]
pub struct Redial {
    pub stage: RedialStage,
    /// The MTU that the new adapter is to have.
    pub mtu: u16,
    pub relay: Ipv4,
}

/// Whether an action gives up with this message.
pub open spec fn gives_up(action: RedialAction, message: Seq<char>, hang_up: bool) -> bool {
    action matches RedialAction::Abandon { message: m, hang_up: h } && m@ == message && h == hang_up
}

/// Whether an action runs this script.
pub open spec fn runs(action: RedialAction, script: Seq<char>) -> bool {
    action matches RedialAction::Run { script: s } && s@ == script
}

impl Redial {
    pub fn new(runtime: &L2tpRuntime, relay: Ipv4) -> (r: Self)
        ensures
            r == (Redial { stage: RedialStage::Dialling, mtu: runtime.mtu, relay }),
    {
        Redial { stage: RedialStage::Dialling, mtu: runtime.mtu, relay }
    }

    /// The address that a projection tells, if it tells one.
    pub open spec fn told(status: u32, error: u32, address: Seq<u16>) -> Option<Ipv4> {
        if status != 0 || error != 0 {
            None
        } else {
            net::ipv4_of(utf16::decoded(address.take(first_zero(address) as int)))
        }
    }

    /// The interface that a script found, if it found one in time.
    pub open spec fn found(success: bool, output: Seq<char>, elapsed: u64) -> Option<u32> {
        if !success || elapsed > ADAPTER_READY_LIMIT {
            None
        } else {
            match text::parsed_number(text::trimmed(output), u32::MAX as nat) {
                Some(n) => Some(n as u32),
                None => None,
            }
        }
    }

    /// What an event leads to, and what is done next.
    pub open spec fn moves(self, event: RedialEvent, next: Redial, action: RedialAction) -> bool {
        let over = Redial { stage: RedialStage::Over, ..self };
        match (self.stage, event) {
            (RedialStage::Dialling, RedialEvent::Dialled { status, handle }) => if status != 0 {
                next == over && gives_up(action, "RAS error "@ + text::decimal(status as nat), handle)
            } else {
                next == (Redial { stage: RedialStage::Projecting, ..self }) && action is Project
            },
            (RedialStage::Projecting, RedialEvent::Projected { status, error, address }) => {
                match Redial::told(status, error, address@) {
                    Some(local_address) => next == (Redial {
                        stage: RedialStage::Finding { local_address },
                        ..self
                    }) && runs(action, find_script_text(local_address)),
                    None => next == over && gives_up(
                        action,
                        "Windows reconnected L2TP but IPv4 projection failed (RAS error "@
                            + text::decimal(
                            (if status != 0 {
                                status
                            } else {
                                error
                            }) as nat,
                        ) + ")"@,
                        true,
                    ),
                }
            },
            (
                RedialStage::Finding { local_address },
                RedialEvent::Ran { success, output, complaint: _, elapsed },
            ) => match Redial::found(success, output@, elapsed) {
                Some(interface_index) => next == (Redial {
                    stage: RedialStage::Sizing { local_address, interface_index },
                    ..self
                }) && runs(action, mtu_script_text(interface_index, self.mtu)),
                None => next == over && gives_up(
                    action,
                    if !success || elapsed > ADAPTER_READY_LIMIT {
                        ADAPTER_NOT_READY@
                    } else {
                        BAD_ADAPTER_INDEX@
                    },
                    true,
                ),
            },
            (RedialStage::Finding { .. }, RedialEvent::NotRun { error }) => next == over
                && gives_up(action, NOT_INSPECTED@ + error@, true),
            (
                RedialStage::Sizing { local_address, interface_index },
                RedialEvent::Ran { success, output: _, complaint, elapsed: _ },
            ) => if success {
                next == (Redial {
                    stage: RedialStage::Routing { local_address, interface_index },
                    ..self
                }) && runs(
                    action,
                    route_script_text(self.relay.dotted() + "/32"@, interface_index),
                )
            } else {
                next == over && gives_up(action, MTU_REFUSED@ + text::trimmed(complaint@), true)
            },
            (RedialStage::Sizing { .. }, RedialEvent::NotRun { error }) => next == over
                && gives_up(action, MTU_NOT_RUN@ + error@, true),
            (
                RedialStage::Routing { local_address, interface_index },
                RedialEvent::Ran { success, output: _, complaint, elapsed: _ },
            ) => if success {
                &&& next == over
                &&& action matches RedialAction::Finish {
                    local_address: at,
                    interface_index: index,
                    relay_prefix,
                }
                &&& at == local_address
                &&& index == interface_index
                &&& relay_prefix@ == self.relay.dotted() + "/32"@
            } else {
                next == over && gives_up(action, text::trimmed(complaint@), true)
            },
            (RedialStage::Routing { .. }, RedialEvent::NotRun { error }) => next == over
                && gives_up(action, ROUTE_NOT_RUN@ + error@, true),
            _ => next == over && gives_up(action, OUT_OF_TURN@, self.connected()),
        }
    }

    /// Whether there is a connection that nobody else would hang up.
    pub open spec fn connected(self) -> bool {
        !(self.stage is Dialling || self.stage is Over)
    }

    fn abandon(&mut self, message: String, hang_up: bool) -> (r: RedialAction)
        ensures
            *final(self) == (Redial { stage: RedialStage::Over, ..*old(self) }),
            r == (RedialAction::Abandon { message, hang_up }),
    {
        self.stage = RedialStage::Over;
        RedialAction::Abandon { message, hang_up }
    }

    /// Takes in what came of the last thing that was asked.
    pub fn next(&mut self, event: RedialEvent) -> (r: RedialAction)
        ensures
            old(self).moves(event, *final(self), r),
    {
        match (self.stage, event) {
            (RedialStage::Dialling, RedialEvent::Dialled { status, handle }) => {
                if status != 0 {
                    return self.abandon(dial_error(status), handle);
                }
                self.stage = RedialStage::Projecting;
                RedialAction::Project
            },
            (RedialStage::Projecting, RedialEvent::Projected { status, error, address }) => {
                match projected_address(status, error, address.as_slice()) {
                    Ok(local_address) => {
                        self.stage = RedialStage::Finding { local_address };
                        RedialAction::Run { script: find_script(local_address) }
                    },
                    Err(message) => self.abandon(message, true),
                }
            },
            (
                RedialStage::Finding { local_address },
                RedialEvent::Ran { success, output, complaint: _, elapsed },
            ) => match adapter_index(success, elapsed, output.as_str()) {
                Ok(interface_index) => {
                    self.stage = RedialStage::Sizing { local_address, interface_index };
                    RedialAction::Run { script: mtu_script(interface_index, self.mtu) }
                },
                Err(message) => self.abandon(message, true),
            },
            (RedialStage::Finding { .. }, RedialEvent::NotRun { error }) => {
                let message = text::concat2(NOT_INSPECTED, error.as_str());
                self.abandon(message, true)
            },
            (
                RedialStage::Sizing { local_address, interface_index },
                RedialEvent::Ran { success, output: _, complaint, elapsed: _ },
            ) => {
                if !success {
                    let message = text::concat2(MTU_REFUSED, bare(complaint.as_str()).as_str());
                    return self.abandon(message, true);
                }
                self.stage = RedialStage::Routing { local_address, interface_index };
                let prefix = relay_prefix(self.relay);
                RedialAction::Run { script: route_script(prefix.as_str(), interface_index) }
            },
            (RedialStage::Sizing { .. }, RedialEvent::NotRun { error }) => {
                let message = text::concat2(MTU_NOT_RUN, error.as_str());
                self.abandon(message, true)
            },
            (
                RedialStage::Routing { local_address, interface_index },
                RedialEvent::Ran { success, output: _, complaint, elapsed: _ },
            ) => {
                if !success {
                    return self.abandon(bare(complaint.as_str()), true);
                }
                self.stage = RedialStage::Over;
                RedialAction::Finish {
                    local_address,
                    interface_index,
                    relay_prefix: relay_prefix(self.relay),
                }
            },
            (RedialStage::Routing { .. }, RedialEvent::NotRun { error }) => {
                let message = text::concat2(ROUTE_NOT_RUN, error.as_str());
                self.abandon(message, true)
            },
            _ => {
                let hang_up: bool = match self.stage {
                    RedialStage::Dialling => false,
                    RedialStage::Over => false,
                    _ => true,
                };
                self.abandon(OUT_OF_TURN.to_owned(), hang_up)
            },
        }
    }
}

/// A connection that was made and cannot be used is hung up: whatever fails once
/// it has been dialled, giving up says so.
pub proof fn an_unusable_connection_is_hung_up(
    redial: Redial,
    event: RedialEvent,
    next: Redial,
    action: RedialAction,
)
    requires
        redial.moves(event, next, action),
        redial.connected(),
    ensures
        next.connected() || action is Finish || (action matches RedialAction::Abandon {
            hang_up,
            ..
        } && hang_up),
{
}

/// A new adapter carries the relay's traffic only once its MTU has been restored
/// and the relay has been pinned to it.
pub proof fn an_adapter_is_prepared_before_it_is_used(
    redial: Redial,
    event: RedialEvent,
    next: Redial,
    action: RedialAction,
)
    requires
        redial.moves(event, next, action),
    ensures
        action is Finish ==> redial.stage is Routing,
        next.stage is Routing ==> redial.stage is Sizing && (event matches RedialEvent::Ran {
            success,
            ..
        } && success),
{
}

/// The login fields of a dial: the profile, the user and the password, each with
/// this many places.
pub struct LoginFields {
    pub entry: Vec<u16>,
    pub user: Vec<u16>,
    pub password: Vec<u16>,
}

/// What a field holds once a text has been put into it.
pub open spec fn field_of(value: Seq<char>, size: int) -> Seq<u16> {
    let units = utf16::encoded(value);
    units + Seq::new((size - units.len()) as nat, |i: int| 0u16)
}

fn field(value: &str, size: usize) -> (r: Result<Vec<u16>, String>)
    ensures
        r is Ok <==> utf16::encoded(value@).len() < size,
        r matches Ok(units) ==> units@ == field_of(value@, size as int),
        r matches Err(message) ==> message@ == LOGIN_TOO_LONG@,
{
    let mut units: Vec<u16> = Vec::new();
    let mut at: usize = 0;
    while at < size
        invariant
            at <= size,
            units@.len() == at,
            forall|i: int| 0 <= i < at ==> units@[i] == 0,
        decreases size - at,
    {
        units.push(0);
        at = at + 1;
    }
    match put(&mut units, value) {
        Ok(()) => {
            assert(units@ =~= field_of(value@, size as int));
            Ok(units)
        },
        Err(message) => Err(message),
    }
}

/// Fills in the login of a dial, or says that it does not fit.
pub fn login_fields(
    runtime: &L2tpRuntime,
    username: &str,
    password: &str,
    entry_size: usize,
    user_size: usize,
    password_size: usize,
) -> (r: Result<LoginFields, String>)
    ensures
        r is Ok <==> utf16::encoded(runtime.profile_name@).len() < entry_size && utf16::encoded(
            username@,
        ).len() < user_size && utf16::encoded(password@).len() < password_size,
        r matches Ok(fields) ==> fields.entry@ == field_of(
            runtime.profile_name@,
            entry_size as int,
        ) && fields.user@ == field_of(username@, user_size as int) && fields.password@ == field_of(
            password@,
            password_size as int,
        ),
        r matches Ok(fields) ==> {
            &&& no_zero(username@) ==> utf16::decoded(
                fields.user@.take(first_zero(fields.user@) as int),
            ) == username@
            &&& no_zero(password@) ==> utf16::decoded(
                fields.password@.take(first_zero(fields.password@) as int),
            ) == password@
            &&& no_zero(runtime.profile_name@) ==> utf16::decoded(
                fields.entry@.take(first_zero(fields.entry@) as int),
            ) == runtime.profile_name@
        },
        r matches Err(message) ==> message@ == LOGIN_TOO_LONG@,
{
    let entry = match field(runtime.profile_name.as_str(), entry_size) {
        Ok(units) => units,
        Err(message) => return Err(message),
    };
    let user = match field(username, user_size) {
        Ok(units) => units,
        Err(message) => return Err(message),
    };
    let secret = match field(password, password_size) {
        Ok(units) => units,
        Err(message) => return Err(message),
    };
    proof {
        if no_zero(username@) {
            a_login_field_reads_back(username@, user_size as int);
        }
        if no_zero(password@) {
            a_login_field_reads_back(password@, password_size as int);
        }
        if no_zero(runtime.profile_name@) {
            a_login_field_reads_back(runtime.profile_name@, entry_size as int);
        }
    }
    Ok(LoginFields { entry, user, password: secret })
}

/// What came of a step of opening a path.
pub enum OpenEvent {
    /// The socket on the adapter was opened, or not.
    Socket(Result<(), String>),
    /// The connection was dialled again, or not.
    Redialled(Result<(Ipv4, u32), String>),
}

/// What to do next in opening a path.
pub enum OpenAction {
    /// Open a socket that is pinned to the adapter.
    OpenSocket,
    /// Dial again, and hang up what is left of the old connection first where
    /// the data plane on it has gone silent.
    Redial { disconnect: bool },
    /// The path is open.
    Open,
    Failed(String),
}

/// Opens an L2TP path: on the adapter that is there, or on a new one.
pub struct Opening {
    pub runtime: L2tpRuntime,
    pub force_redial: bool,
    /// Why the adapter that was there cannot be used, once it cannot.
    pub original_error: Option<String>,
    /// Whether the adapter is a new one.
    pub redialled: bool,
}

impl Opening {
    /// Starts to open a path, given whether its adapter is still active.
    pub fn begin(runtime: L2tpRuntime, force_redial: bool, adapter_active: bool) -> (r: (
        Self,
        OpenAction,
    ))
        ensures
            r.0.runtime == runtime,
            r.0.force_redial == force_redial,
            !r.0.redialled,
            if !force_redial && adapter_active {
                r.0.original_error is None && r.1 is OpenSocket
            } else {
                &&& r.0.original_error matches Some(why)
                &&& why@ == if force_redial {
                    DATA_PLANE_SILENT@
                } else {
                    ADAPTER_GONE@
                }
                &&& r.1 == (OpenAction::Redial { disconnect: force_redial })
            },
    {
        match redial_reason(force_redial, adapter_active) {
            None => (
                Opening { runtime, force_redial, original_error: None, redialled: false },
                OpenAction::OpenSocket,
            ),
            Some(why) => (
                Opening {
                    runtime,
                    force_redial,
                    original_error: Some(why.to_owned()),
                    redialled: false,
                },
                OpenAction::Redial { disconnect: force_redial },
            ),
        }
    }

    /// Takes in what came of the last step. A socket that cannot be opened on
    /// the old adapter leads to a redial; one that cannot be opened on a new
    /// adapter is the end of it.
    pub fn next(&mut self, event: OpenEvent) -> (r: OpenAction)
        ensures
            final(self).force_redial == old(self).force_redial,
            match event {
                OpenEvent::Socket(Ok(())) => r is Open && *final(self) == *old(self),
                OpenEvent::Socket(Err(error)) => if old(self).redialled {
                    &&& r matches OpenAction::Failed(message)
                    &&& message@ == "Windows reconnected L2TP but its relay socket could not open: "@
                        + error@
                    &&& *final(self) == *old(self)
                } else {
                    &&& r == (OpenAction::Redial { disconnect: old(self).force_redial })
                    &&& final(self).original_error == Some(error)
                    &&& final(self).runtime == old(self).runtime
                    &&& !final(self).redialled
                },
                OpenEvent::Redialled(Ok((local_address, interface_index))) => {
                    &&& r is OpenSocket
                    &&& final(self).redialled
                    &&& final(self).runtime == (L2tpRuntime {
                        local_address,
                        interface_index,
                        ..old(self).runtime
                    })
                    &&& final(self).original_error == old(self).original_error
                },
                OpenEvent::Redialled(Err(error)) => {
                    &&& r matches OpenAction::Failed(message)
                    &&& message@ == "the L2TP adapter stopped working ("@ + (match old(
                        self,
                    ).original_error {
                        Some(why) => why@,
                        None => Seq::<char>::empty(),
                    }) + "); Windows could not reconnect it: "@ + error@
                    &&& *final(self) == *old(self)
                },
            },
    {
        match event {
            OpenEvent::Socket(Ok(())) => OpenAction::Open,
            OpenEvent::Socket(Err(error)) => {
                if self.redialled {
                    return OpenAction::Failed(socket_failed(error.as_str()));
                }
                self.original_error = Some(error);
                OpenAction::Redial { disconnect: self.force_redial }
            },
            OpenEvent::Redialled(Ok((local_address, interface_index))) => {
                self.runtime.local_address = local_address;
                self.runtime.interface_index = interface_index;
                self.redialled = true;
                OpenAction::OpenSocket
            },
            OpenEvent::Redialled(Err(error)) => {
                let none = String::new();
                let why: &str = match &self.original_error {
                    Some(why) => why.as_str(),
                    None => {
                        assert(none@ =~= Seq::<char>::empty());
                        none.as_str()
                    },
                };
                OpenAction::Failed(redial_failed(why, error.as_str()))
            },
        }
    }
}

/// A relay path through a connected L2TP adapter.
pub struct L2tpRelayPath {
    pub server: String,
    pub runtime: L2tpRuntime,
}

impl L2tpRelayPath {
    pub fn kind(&self) -> (r: &'static str)
        ensures
            r@ == KIND_L2TP@,
    {
        KIND_L2TP
    }

    pub fn endpoint(&self) -> (r: String)
        ensures
            r@ == self.server@,
    {
        self.server.clone()
    }

    pub fn setup_round_trips(&self) -> (r: Option<u8>)
        ensures
            r is None,
    {
        None
    }

    pub fn identity(&self) -> (r: PathIdentity)
        ensures
            r == (PathIdentity::L2tp { server: self.runtime.server_address }),
    {
        PathIdentity::L2tp { server: self.runtime.server_address }
    }

    pub fn bypass_ipv4(&self) -> (r: Option<Ipv4>)
        ensures
            r == Some(self.runtime.server_address),
    {
        Some(self.runtime.server_address)
    }

    pub fn probe_deadline_floor(&self) -> (r: u64)
        ensures
            r == MIN_TIMEOUT,
    {
        MIN_TIMEOUT
    }
}

/// A redial that goes well, from the dial to the end: the connection carries the
/// relay's traffic from the address that the server gave it, on the adapter that
/// has that address, with the relay alone routed through it.
pub proof fn a_redial_that_goes_well(
    start: Redial,
    address: Ipv4,
    told: Vec<u16>,
    index: u32,
    output: String,
    states: Seq<Redial>,
    events: Seq<RedialEvent>,
    actions: Seq<RedialAction>,
)
    requires
        start.stage is Dialling,
        states.len() == 6 && events.len() == 5 && actions.len() == 5,
        states[0] == start,
        forall|i: int|
            0 <= i < 5 ==> states[i].moves(#[trigger] events[i], states[i + 1], actions[i]),
        events[0] == (RedialEvent::Dialled { status: 0, handle: true }),
        events[1] == (RedialEvent::Projected { status: 0, error: 0, address: told }),
        exists|rest: Seq<u16>|
            rest.len() > 0 && rest[0] == 0 && told@ == #[trigger] (utf16::encoded(address.dotted())
                + rest),
        events[2] matches RedialEvent::Ran { success, output: o, elapsed, .. } && success && o
            == output && elapsed <= 6_000_000_000,
        output@ == text::decimal(index as nat),
        events[3] matches RedialEvent::Ran { success, .. } && success,
        events[4] matches RedialEvent::Ran { success, .. } && success,
    ensures
        actions[0] is Project,
        actions[4] matches RedialAction::Finish {
            local_address,
            interface_index,
            relay_prefix,
        } && local_address == address && interface_index == index && relay_prefix@
            == start.relay.dotted() + "/32"@,
        states[5].stage is Over,
        runs(actions[2], mtu_script_text(index, start.mtu)),
{
    assert(states[0].moves(events[0], states[1], actions[0]));
    assert(states[1].moves(events[1], states[2], actions[1]));
    assert(states[2].moves(events[2], states[3], actions[2]));
    assert(states[3].moves(events[3], states[4], actions[3]));
    assert(states[4].moves(events[4], states[5], actions[4]));
    let rest = choose|rest: Seq<u16>|
        rest.len() > 0 && rest[0] == 0 && told@ == #[trigger] (utf16::encoded(address.dotted())
            + rest);
    let a = address.byte(0);
    let b = address.byte(1);
    let c = address.byte(2);
    let d = address.byte(3);
    lemma_made_of_bytes(address);
    net::a_dotted_address_reads_back(a, b, c, d);
    net::lemma_dotted_characters(a, b, c, d);
    let written = address.dotted();
    assert forall|i: int| 0 <= i < written.len() implies #[trigger] written[i] as u32 != 0 by {
        assert(text::is_digit(written[i]) || written[i] == '.');
    }
    a_field_reads_back(written, rest);
    text::lemma_decimal_reads_back(index as nat);
    let number = text::decimal(index as nat);
    assert(text::is_digit(number[0]) && text::is_digit(number[number.len() - 1]));
    text::lemma_trimmed_as_it_is(number);
}

proof fn lemma_made_of_bytes(address: Ipv4)
    ensures
        Ipv4::made(address.byte(0), address.byte(1), address.byte(2), address.byte(3)) == address,
{
    let n = address.0 as int;
    assert(n / 0x1_0000 == (n / 0x100_0000) * 256 + n / 0x1_0000 % 256);
    assert(n / 0x100 == (n / 0x1_0000) * 256 + n / 0x100 % 256);
}

/// A dial that fails is the end of it, with the status that it failed with, and
/// a connection that came up is hung up where it has no address.
pub proof fn a_redial_that_fails(
    start: Redial,
    event: RedialEvent,
    next: Redial,
    action: RedialAction,
)
    requires
        start.moves(event, next, action),
    ensures
        next.mtu == start.mtu && next.relay == start.relay,
        start.stage is Dialling ==> (event matches RedialEvent::Dialled { status, handle }
            ==> status != 0 ==> gives_up(
            action,
            "RAS error "@ + text::decimal(status as nat),
            handle,
        )),
        start.stage is Projecting ==> (event matches RedialEvent::Projected { status, error, .. }
            ==> status != 0 || error != 0 ==> (action matches RedialAction::Abandon { hang_up, .. }
            && hang_up)),
        start.stage is Finding ==> (event matches RedialEvent::Ran { success, elapsed, .. }
            ==> !success || elapsed > 6_000_000_000 ==> gives_up(action, ADAPTER_NOT_READY@, true)),
        action is Finish || action is Abandon <==> next.stage is Over,
{
}

/// A text put into a field of a dial reads back from it.
pub proof fn a_login_field_reads_back(value: Seq<char>, size: int)
    requires
        no_zero(value),
        utf16::encoded(value).len() < size,
    ensures
        field_of(value, size).len() == size,
        utf16::decoded(
            field_of(value, size).take(first_zero(field_of(value, size)) as int),
        ) == value,
{
    let units = utf16::encoded(value);
    let rest = Seq::new((size - units.len()) as nat, |i: int| 0u16);
    a_field_reads_back(value, rest);
}

} // verus!
