//! The nodes a user adds, and the transports they become.

use vstd::prelude::*;
use vstd::string::StringExecFns;

use crate::bytes;
use crate::l2tp::L2tpRuntime;
use crate::mtu;
use crate::mtu::configured_tunnel_mtu;
use crate::net;
use crate::net::{Endpoint, Ipv4, SocketAddress};
use crate::openvpn::config;
use crate::openvpn::link::Urgency;
use crate::openvpn::{Credentials, OpenVpnConfig, Outgoing, Protocol, UserSpaceOpenVpnPath};
use crate::packet;
use crate::random::random_port;
use crate::rtt::{MIN_TIMEOUT, STREAMED_MIN_TIMEOUT};
use crate::socks5;
use crate::socks5::Socks5NodeConfig;
use crate::text;

verus! {

pub const KIND_WIREGUARD: &'static str = "wireguard";

pub const KIND_SOCKS5: &'static str = "socks5";

pub const KIND_L2TP: &'static str = "l2tp";

pub const KIND_OPENVPN: &'static str = "openvpn";

pub const NO_WIREGUARD_CONFIG: &'static str = "WireGuard node is missing its configuration";

pub const NO_L2TP_SERVER: &'static str = "L2TP node is missing its server";

pub const NO_L2TP_LOGIN: &'static str = "L2TP node needs a username and password";

pub const NO_L2TP_KEY: &'static str = "L2TP/IPsec node needs a pre-shared key";

pub const L2TP_NOT_CONNECTED: &'static str =
    "the L2TP node has not been connected by the Windows service";

pub const NO_OPENVPN_LOGIN: &'static str =
    "this OpenVPN configuration uses `auth-user-pass`, so it needs the username and password the provider gave you";

pub const NO_OPENVPN_PASSWORD: &'static str = "this OpenVPN node has a username but no password";

pub const SOCKS5_NOT_DIRECT: &'static str =
    "a SOCKS5 proxy cannot carry a direct session on its own. Use a WireGuard, OpenVPN or L2TP/IPsec node for direct mode, or set up a relay to reach this proxy through.";

pub const L2TP_NOT_DIRECT: &'static str =
    "L2TP/IPsec direct mode is owned by the Windows routing service, not the userspace packet engine";

pub const PROXY_SILENT: &'static str =
    "the proxy accepted a UDP association but the relay never answered through it; check that the proxy forwards UDP to the relay's port rather than blocking it or sending it direct";

pub const CONTROL_CLOSED: &'static str =
    " (it also closed its SOCKS5 control connection, which is normal and not the cause)";

/// How a session reaches the Internet.
///
/// This decides what a node is asked to do, so the engine and the privileged
/// service both read it from the same definition.
#[derive(Debug, Clone, Copy, PartialEq, Eq, Structural)]
pub enum SessionMode {
    /// Every enabled node carries sealed frames to a relay the user runs, which
    /// is what lets the scheduler send one packet down several paths at once.
    Relay,
    /// One WireGuard, OpenVPN or Windows RAS L2TP node routes the selected
    /// traffic itself. Nothing to run on a relay, and there is one path.
    Direct,
}

impl Default for SessionMode {
    fn default() -> (r: Self)
        ensures
            r == SessionMode::Relay,
    {
        SessionMode::Relay
    }
}

impl SessionMode {
    pub open spec fn word(self) -> Seq<char> {
        match self {
            SessionMode::Relay => "relay"@,
            SessionMode::Direct => "direct"@,
        }
    }

    pub fn as_str(self) -> (r: &'static str)
        ensures
            r@ == self.word(),
    {
        match self {
            SessionMode::Relay => "relay",
            SessionMode::Direct => "direct",
        }
    }
}

/// How much of a transport a reconnect replaces.
#[derive(Debug, Clone, Copy, PartialEq, Eq, Structural)]
pub enum ReopenEffort {
    /// Only what is cheap to make anew.
    Cheap,
    /// The whole connection underneath as well.
    Full,
}

/// One node the user added, in the order that numbers the session's routes.
///
/// Both the engine and the privileged service read this shape, so a node is
/// described the same way wherever it is validated or opened.
#[derive(Debug, Clone)]
pub enum NodeSpec {
    WireGuard { config: String, label: Option<String> },
    Socks5 {
        host: String,
        port: u16,
        username: Option<String>,
        password: Option<String>,
        label: Option<String>,
    },
    /// A provider's `.ovpn` file, plus the credentials it asks for.
    OpenVpn {
        config: String,
        username: Option<String>,
        password: Option<String>,
        label: Option<String>,
    },
    /// L2TP/IPsec credentials are consumed by the privileged service. It then
    /// attaches the temporary profile and coordinates of the connected Windows
    /// RAS adapter so a relay worker can recover it after a drop.
    L2tp {
        server: String,
        username: String,
        password: String,
        pre_shared_key: String,
        label: Option<String>,
        runtime: Option<L2tpRuntime>,
    },
}

/// What opening a node comes to.
#[derive(Clone)]
pub enum OpenPlan {
    /// Prepare a socket; the handshake comes with the first packet.
    WireGuard { config: String },
    /// Dial the proxy.
    Socks5 { proxy: Socks5NodeConfig },
    /// Dial the server and wait until it pushes its settings.
    OpenVpn { config: String, credentials: Credentials },
    /// Bind to the connected adapter, which is dialled anew first if `redial`.
    L2tp { server: String, username: String, password: String, runtime: L2tpRuntime, redial: bool },
}

/// Whether a text is there and holds something.
pub open spec fn filled_in(s: Option<String>) -> bool {
    s matches Some(value) && value@.len() > 0
}

fn is_filled_in(s: &Option<String>) -> (r: bool)
    ensures
        r == filled_in(*s),
{
    match s {
        Some(value) => text::chars(value.as_str()).len() > 0,
        None => false,
    }
}

fn is_blank(s: &str) -> (r: bool)
    ensures
        r == (text::trimmed(s@).len() == 0),
{
    text::trim(text::chars(s).as_slice()).len() == 0
}

/// What a plan opens, field by field.
pub open spec fn plans(plan: OpenPlan, node: NodeSpec, redialled: bool) -> bool {
    match (plan, node) {
        (OpenPlan::WireGuard { config }, NodeSpec::WireGuard { config: source, .. }) => config@
            == source@,
        (OpenPlan::Socks5 { proxy }, NodeSpec::Socks5 { host, port, username, password, .. }) => {
            &&& proxy.host@ == host@
            &&& proxy.port == port
            &&& text::option_view(proxy.username) == text::option_view(username)
            &&& text::option_view(proxy.password) == text::option_view(password)
        },
        (
            OpenPlan::OpenVpn { config, credentials },
            NodeSpec::OpenVpn { config: source, username, password, .. },
        ) => {
            &&& config@ == source@
            &&& text::option_view(credentials.username) == text::option_view(username)
            &&& text::option_view(credentials.password) == text::option_view(password)
        },
        (
            OpenPlan::L2tp { server, username, password, runtime, redial },
            NodeSpec::L2tp { server: s, username: u, password: p, runtime: r, .. },
        ) => {
            &&& server@ == s@
            &&& username@ == u@
            &&& password@ == p@
            &&& r matches Some(known) && same_runtime(runtime, known)
            &&& redial == redialled
        },
        _ => false,
    }
}

/// Whether two records of a connected tunnel say the same.
pub open spec fn same_runtime(a: L2tpRuntime, b: L2tpRuntime) -> bool {
    &&& a.local_address == b.local_address
    &&& a.virtual_address == b.virtual_address
    &&& a.server_address == b.server_address
    &&& a.interface_index == b.interface_index
    &&& a.mtu == b.mtu
    &&& a.setup_latency_bits == b.setup_latency_bits
    &&& a.profile_name@ == b.profile_name@
    &&& a.phonebook_path@ == b.phonebook_path@
}

fn copy_runtime(runtime: &L2tpRuntime) -> (r: L2tpRuntime)
    ensures
        same_runtime(r, *runtime),
{
    L2tpRuntime {
        local_address: runtime.local_address,
        virtual_address: runtime.virtual_address,
        server_address: runtime.server_address,
        interface_index: runtime.interface_index,
        mtu: runtime.mtu,
        setup_latency_bits: runtime.setup_latency_bits,
        profile_name: runtime.profile_name.clone(),
        phonebook_path: runtime.phonebook_path.clone(),
    }
}

impl NodeSpec {
    pub open spec fn kind_word(self) -> Seq<char> {
        match self {
            NodeSpec::WireGuard { .. } => KIND_WIREGUARD@,
            NodeSpec::Socks5 { .. } => KIND_SOCKS5@,
            NodeSpec::OpenVpn { .. } => KIND_OPENVPN@,
            NodeSpec::L2tp { .. } => KIND_L2TP@,
        }
    }

    pub fn kind(&self) -> (r: &'static str)
        ensures
            r@ == self.kind_word(),
    {
        match self {
            NodeSpec::WireGuard { .. } => KIND_WIREGUARD,
            NodeSpec::Socks5 { .. } => KIND_SOCKS5,
            NodeSpec::OpenVpn { .. } => KIND_OPENVPN,
            NodeSpec::L2tp { .. } => KIND_L2TP,
        }
    }

    /// Whether the node is an L2TP one that nothing has connected yet.
    pub open spec fn unconnected(self) -> bool {
        self matches NodeSpec::L2tp { runtime: None, .. }
    }

    fn plan(&self, redial: bool) -> (r: Result<OpenPlan, String>)
        ensures
            r is Err <==> self.unconnected(),
            r matches Err(message) ==> message@ == L2TP_NOT_CONNECTED@,
            r matches Ok(plan) ==> plans(plan, *self, redial),
    {
        match self {
            NodeSpec::WireGuard { config, .. } => Ok(
                OpenPlan::WireGuard { config: config.clone() },
            ),
            NodeSpec::Socks5 { host, port, username, password, .. } => Ok(
                OpenPlan::Socks5 {
                    proxy: Socks5NodeConfig {
                        host: host.clone(),
                        port: *port,
                        username: text::copied(username),
                        password: text::copied(password),
                    },
                },
            ),
            NodeSpec::OpenVpn { config, username, password, .. } => Ok(
                OpenPlan::OpenVpn {
                    config: config.clone(),
                    credentials: Credentials {
                        username: text::copied(username),
                        password: text::copied(password),
                    },
                },
            ),
            NodeSpec::L2tp { server, username, password, runtime, .. } => match runtime {
                Some(known) => Ok(
                    OpenPlan::L2tp {
                        server: server.clone(),
                        username: username.clone(),
                        password: password.clone(),
                        runtime: copy_runtime(known),
                        redial,
                    },
                ),
                None => Err(L2TP_NOT_CONNECTED.to_owned()),
            },
        }
    }

    /// What opening the node's transport comes to. A SOCKS5 node dials its
    /// proxy; a WireGuard node only prepares its socket and defers the
    /// handshake.
    pub fn open(&self) -> (r: Result<OpenPlan, String>)
        ensures
            r is Err <==> self.unconnected(),
            r matches Err(message) ==> message@ == L2TP_NOT_CONNECTED@,
            r matches Ok(plan) ==> plans(plan, *self, false),
    {
        self.plan(false)
    }

    /// What recreating a transport comes to after repeated authenticated-probe
    /// failures. L2TP must also replace the underlying RAS connection, unless
    /// the cheap attempt was asked for; reopening only its UDP socket cannot
    /// repair a connected-but-stalled Windows tunnel.
    pub fn reopen(&self, effort: ReopenEffort) -> (r: Result<OpenPlan, String>)
        ensures
            r is Err <==> self.unconnected(),
            r matches Err(message) ==> message@ == L2TP_NOT_CONNECTED@,
            r matches Ok(plan) ==> plans(plan, *self, effort == ReopenEffort::Full),
    {
        match effort {
            ReopenEffort::Full => self.plan(true),
            ReopenEffort::Cheap => self.plan(false),
        }
    }

    /// What is wrong with the node's shape.
    pub open spec fn fault(self) -> Option<Seq<char>> {
        match self {
            NodeSpec::WireGuard { config, .. } => if text::trimmed(config@).len() == 0 {
                Some(NO_WIREGUARD_CONFIG@)
            } else {
                None
            },
            NodeSpec::Socks5 { host, username, password, .. } => socks5::proxy_fault(
                host@,
                text::option_view(username),
                text::option_view(password),
            ),
            NodeSpec::OpenVpn { config, username, password, .. } => match config::parsed_config(
                config@,
            ) {
                Err(why) => Some(why),
                Ok(model) => if model.wants_credentials && !filled_in(username) {
                    Some(NO_OPENVPN_LOGIN@)
                } else if model.wants_credentials && !filled_in(password) {
                    Some(NO_OPENVPN_PASSWORD@)
                } else {
                    None
                },
            },
            NodeSpec::L2tp { server, username, password, pre_shared_key, runtime, .. } =>
            if text::trimmed(server@).len() == 0 {
                Some(NO_L2TP_SERVER@)
            } else if text::trimmed(username@).len() == 0 || password@.len() == 0 {
                Some(NO_L2TP_LOGIN@)
            } else if pre_shared_key@.len() == 0 && runtime is None {
                Some(NO_L2TP_KEY@)
            } else {
                None
            },
        }
    }

    /// Checks the node's shape without touching the network.
    pub fn validate(&self) -> (r: Result<(), String>)
        ensures
            match self.fault() {
                Some(why) => r matches Err(message) && message@ == why,
                None => r is Ok,
            },
    {
        match self {
            NodeSpec::WireGuard { config, .. } => if is_blank(config.as_str()) {
                Err(NO_WIREGUARD_CONFIG.to_owned())
            } else {
                Ok(())
            },
            NodeSpec::Socks5 { .. } => match self.socks5_config() {
                Some(proxy) => proxy.validate(),
                None => Ok(()),
            },
            NodeSpec::OpenVpn { config, username, password, .. } => match OpenVpnConfig::parse(
                config.as_str(),
            ) {
                Err(message) => Err(message),
                Ok(parsed) => if parsed.wants_credentials && !is_filled_in(username) {
                    Err(NO_OPENVPN_LOGIN.to_owned())
                } else if parsed.wants_credentials && !is_filled_in(password) {
                    Err(NO_OPENVPN_PASSWORD.to_owned())
                } else {
                    Ok(())
                },
            },
            NodeSpec::L2tp { server, username, password, pre_shared_key, runtime, .. } => {
                if is_blank(server.as_str()) {
                    return Err(NO_L2TP_SERVER.to_owned());
                }
                if is_blank(username.as_str()) || text::chars(password.as_str()).len() == 0 {
                    return Err(NO_L2TP_LOGIN.to_owned());
                }
                if text::chars(pre_shared_key.as_str()).len() == 0 && runtime.is_none() {
                    return Err(NO_L2TP_KEY.to_owned());
                }
                Ok(())
            },
        }
    }

    pub fn socks5_config(&self) -> (r: Option<Socks5NodeConfig>)
        ensures
            match self {
                NodeSpec::Socks5 { host, port, username, password, .. } => {
                    &&& r matches Some(proxy)
                    &&& proxy.host@ == host@
                    &&& proxy.port == port
                    &&& text::option_view(proxy.username) == text::option_view(*username)
                    &&& text::option_view(proxy.password) == text::option_view(*password)
                },
                _ => r is None,
            },
    {
        match self {
            NodeSpec::Socks5 { host, port, username, password, .. } => Some(
                Socks5NodeConfig {
                    host: host.clone(),
                    port: *port,
                    username: text::copied(username),
                    password: text::copied(password),
                },
            ),
            _ => None,
        }
    }

    /// True for a proxy running on this machine. Such a proxy is reached over
    /// loopback and never enters the tunnel, but whatever it forwards to does.
    pub open spec fn local_proxy(self) -> bool {
        self matches NodeSpec::Socks5 { host, .. } && (text::lower(text::trimmed(host@))
            == text::lower("localhost"@) || net::loopback_text(text::trimmed(host@)))
    }

    pub fn is_loopback_proxy(&self) -> (r: bool)
        ensures
            r == self.local_proxy(),
    {
        match self {
            NodeSpec::Socks5 { host, .. } => {
                let chars = text::chars(host.as_str());
                let bare = text::trim(chars.as_slice());
                text::same_ignoring_case(bare, "localhost") || net::is_loopback_text(bare)
            },
            _ => false,
        }
    }

    pub open spec fn given_label(self) -> Option<String> {
        match self {
            NodeSpec::WireGuard { label, .. } => label,
            NodeSpec::Socks5 { label, .. } => label,
            NodeSpec::OpenVpn { label, .. } => label,
            NodeSpec::L2tp { label, .. } => label,
        }
    }

    /// The name the user gave the node, without the white space around it,
    /// unless nothing is left of it.
    pub open spec fn label_text(self) -> Option<Seq<char>> {
        match self.given_label() {
            Some(label) if text::trimmed(label@).len() > 0 => Some(text::trimmed(label@)),
            _ => None,
        }
    }

    pub fn label(&self) -> (r: Option<String>)
        ensures
            text::option_view(r) == self.label_text(),
    {
        let given = match self {
            NodeSpec::WireGuard { label, .. } => label,
            NodeSpec::Socks5 { label, .. } => label,
            NodeSpec::OpenVpn { label, .. } => label,
            NodeSpec::L2tp { label, .. } => label,
        };
        match given {
            Some(label) => {
                let chars = text::chars(label.as_str());
                let bare = text::trim(chars.as_slice());
                if bare.len() > 0 {
                    Some(text::string(bare))
                } else {
                    None
                }
            },
            None => None,
        }
    }

    pub open spec fn numbered(self, route: nat) -> Seq<char> {
        match self {
            NodeSpec::WireGuard { .. } => "WireGuard route "@ + text::decimal(route),
            NodeSpec::Socks5 { .. } => "SOCKS5 route "@ + text::decimal(route),
            NodeSpec::OpenVpn { .. } => "OpenVPN route "@ + text::decimal(route),
            NodeSpec::L2tp { .. } => "L2TP route "@ + text::decimal(route),
        }
    }

    pub fn default_label(&self, route: usize) -> (r: String)
        ensures
            r@ == self.numbered(route as nat),
    {
        let number = text::decimal_text(route as u64);
        match self {
            NodeSpec::WireGuard { .. } => text::concat2("WireGuard route ", number.as_str()),
            NodeSpec::Socks5 { .. } => text::concat2("SOCKS5 route ", number.as_str()),
            NodeSpec::OpenVpn { .. } => text::concat2("OpenVPN route ", number.as_str()),
            NodeSpec::L2tp { .. } => text::concat2("L2TP route ", number.as_str()),
        }
    }

    /// Why the node cannot be opened as the only hop of a direct session.
    pub open spec fn direct_refusal(self) -> Option<Seq<char>> {
        match self {
            NodeSpec::Socks5 { .. } => Some(SOCKS5_NOT_DIRECT@),
            NodeSpec::L2tp { .. } => Some(L2TP_NOT_DIRECT@),
            _ => None,
        }
    }

    /// What opening the node as the only hop of a direct session comes to.
    ///
    /// A direct session has no relay to frame traffic for, so the node itself
    /// has to route plain IPv4 packets onward. WireGuard and OpenVPN servers do
    /// exactly that; Windows RAS handles L2TP outside this userspace interface.
    /// A SOCKS5 proxy speaks in connections and datagrams instead and has
    /// nothing to route with, which is why it is turned away here rather than
    /// failing later with a confusing transport error.
    pub fn open_direct(&self) -> (r: Result<OpenPlan, String>)
        ensures
            match self.direct_refusal() {
                Some(why) => r matches Err(message) && message@ == why,
                None => r matches Ok(plan) && plans(plan, *self, false),
            },
    {
        match self {
            NodeSpec::Socks5 { .. } => Err(SOCKS5_NOT_DIRECT.to_owned()),
            NodeSpec::L2tp { .. } => Err(L2TP_NOT_DIRECT.to_owned()),
            _ => self.plan(false),
        }
    }

    /// Whether this node can be the single hop of a direct session.
    ///
    /// Tunnelling nodes can: their servers route whatever is put into them. A
    /// proxy cannot, because it speaks in connections and datagrams and has
    /// nothing to route with.
    pub fn supports_direct(&self) -> (r: bool)
        ensures
            r == !(self is Socks5),
    {
        match self {
            NodeSpec::Socks5 { .. } => false,
            _ => true,
        }
    }

    pub open spec fn description(self) -> Seq<char> {
        match self {
            NodeSpec::WireGuard { .. } => "WireGuard configuration"@,
            NodeSpec::Socks5 { host, port, .. } => "SOCKS5 proxy "@ + host@ + ":"@ + text::decimal(
                port as nat,
            ),
            NodeSpec::OpenVpn { .. } => "OpenVPN configuration"@,
            NodeSpec::L2tp { server, .. } => "L2TP/IPsec server "@ + server@,
        }
    }

    pub fn describe(&self) -> (r: String)
        ensures
            r@ == self.description(),
    {
        match self {
            NodeSpec::WireGuard { .. } => "WireGuard configuration".to_owned(),
            NodeSpec::Socks5 { host, port, .. } => {
                let mut r = text::concat3("SOCKS5 proxy ", host.as_str(), ":");
                r.append(text::decimal_text(*port as u64).as_str());
                r
            },
            NodeSpec::OpenVpn { .. } => "OpenVPN configuration".to_owned(),
            NodeSpec::L2tp { server, .. } => text::concat2("L2TP/IPsec server ", server.as_str()),
        }
    }

    /// The limit on an inner packet that comes with the node.
    pub open spec fn inner_limit(self) -> Option<u16> {
        match self {
            NodeSpec::OpenVpn { config, .. } => match config::parsed_config(config@) {
                Ok(model) => mtu::configurable(model.tun_mtu),
                Err(_) => None,
            },
            NodeSpec::L2tp { runtime: Some(runtime), .. } => mtu::configurable(runtime.mtu),
            _ => None,
        }
    }

    /// The limit on an inner packet that comes with the node: a provider's file
    /// states it, or the service measured it when it connected the adapter.
    pub fn configured_tunnel_mtu(&self) -> (r: Option<u16>)
        ensures
            r == self.inner_limit(),
    {
        match self {
            NodeSpec::OpenVpn { config, .. } => match OpenVpnConfig::parse(config.as_str()) {
                Ok(parsed) => configured_tunnel_mtu(parsed.tun_mtu),
                Err(_) => None,
            },
            NodeSpec::L2tp { runtime: Some(runtime), .. } => configured_tunnel_mtu(runtime.mtu),
            _ => None,
        }
    }
}

/// Whether two nodes say the same.
pub open spec fn same_node(a: NodeSpec, b: NodeSpec) -> bool {
    match (a, b) {
        (
            NodeSpec::WireGuard { config, label },
            NodeSpec::WireGuard { config: c, label: l },
        ) => config@ == c@ && text::option_view(label) == text::option_view(l),
        (
            NodeSpec::Socks5 { host, port, username, password, label },
            NodeSpec::Socks5 { host: h, port: n, username: u, password: p, label: l },
        ) => {
            &&& host@ == h@
            &&& port == n
            &&& text::option_view(username) == text::option_view(u)
            &&& text::option_view(password) == text::option_view(p)
            &&& text::option_view(label) == text::option_view(l)
        },
        (
            NodeSpec::OpenVpn { config, username, password, label },
            NodeSpec::OpenVpn { config: c, username: u, password: p, label: l },
        ) => {
            &&& config@ == c@
            &&& text::option_view(username) == text::option_view(u)
            &&& text::option_view(password) == text::option_view(p)
            &&& text::option_view(label) == text::option_view(l)
        },
        (
            NodeSpec::L2tp { server, username, password, pre_shared_key, label, runtime },
            NodeSpec::L2tp {
                server: s,
                username: u,
                password: p,
                pre_shared_key: k,
                label: l,
                runtime: r,
            },
        ) => {
            &&& server@ == s@
            &&& username@ == u@
            &&& password@ == p@
            &&& pre_shared_key@ == k@
            &&& text::option_view(label) == text::option_view(l)
            &&& match (runtime, r) {
                (Some(x), Some(y)) => same_runtime(x, y),
                (None, None) => true,
                _ => false,
            }
        },
        _ => false,
    }
}

/// A copy of a node.
pub fn copy_node(node: &NodeSpec) -> (r: NodeSpec)
    ensures
        same_node(r, *node),
{
    match node {
        NodeSpec::WireGuard { config, label } => NodeSpec::WireGuard {
            config: config.clone(),
            label: text::copied(label),
        },
        NodeSpec::Socks5 { host, port, username, password, label } => NodeSpec::Socks5 {
            host: host.clone(),
            port: *port,
            username: text::copied(username),
            password: text::copied(password),
            label: text::copied(label),
        },
        NodeSpec::OpenVpn { config, username, password, label } => NodeSpec::OpenVpn {
            config: config.clone(),
            username: text::copied(username),
            password: text::copied(password),
            label: text::copied(label),
        },
        NodeSpec::L2tp { server, username, password, pre_shared_key, label, runtime } => {
            let runtime = match runtime {
                Some(known) => Some(copy_runtime(known)),
                None => None,
            };
            NodeSpec::L2tp {
                server: server.clone(),
                username: username.clone(),
                password: password.clone(),
                pre_shared_key: pre_shared_key.clone(),
                label: text::copied(label),
                runtime,
            }
        },
    }
}

/// A description never holds what the node logs in with: two nodes that differ
/// in nothing else are described alike.
pub proof fn a_description_holds_no_secret(a: NodeSpec, b: NodeSpec)
    requires
        match (a, b) {
            (NodeSpec::WireGuard { .. }, NodeSpec::WireGuard { .. }) => true,
            (NodeSpec::OpenVpn { .. }, NodeSpec::OpenVpn { .. }) => true,
            (
                NodeSpec::Socks5 { host, port, .. },
                NodeSpec::Socks5 { host: h, port: p, .. },
            ) => host@ == h@ && port == p,
            (NodeSpec::L2tp { server, .. }, NodeSpec::L2tp { server: s, .. }) => server@ == s@,
            _ => false,
        },
    ensures
        a.description() == b.description(),
{
}

/// A node that the userspace engine opens for a direct session supports one.
pub proof fn what_opens_directly_supports_it(node: NodeSpec)
    ensures
        node.direct_refusal() is None ==> !(node is Socks5),
        node is WireGuard || node is OpenVpn ==> node.direct_refusal() is None,
{
}

/// Two paths that share an identity cannot run at the same time, or gain
/// nothing from running at the same time.
#[derive(Debug, Clone, Copy)]
pub enum PathIdentity {
    /// The same WireGuard endpoint reached with the same client key: the two
    /// handshakes would replace one another at the provider.
    WireGuard { endpoint: SocketAddress, fingerprint: [u8; 32] },
    /// A second association on one proxy works, but carries no path diversity.
    Socks5 { proxy: SocketAddress },
    /// Two tunnels to the same L2TP server share the same provider path and do
    /// not add useful redundancy, even when Windows assigns distinct adapters.
    L2tp { server: Ipv4 },
    /// The same provider account reached at the same server: the second session
    /// commonly displaces the first.
    OpenVpn { endpoint: SocketAddress, fingerprint: [u8; 32] },
}

impl PathIdentity {
    pub open spec fn same(self, other: Self) -> bool {
        match (self, other) {
            (
                PathIdentity::WireGuard { endpoint, fingerprint },
                PathIdentity::WireGuard { endpoint: e, fingerprint: f },
            ) => endpoint.model() == e.model() && fingerprint@ == f@,
            (PathIdentity::Socks5 { proxy }, PathIdentity::Socks5 { proxy: p }) => proxy.model()
                == p.model(),
            (PathIdentity::L2tp { server }, PathIdentity::L2tp { server: s }) => server == s,
            (
                PathIdentity::OpenVpn { endpoint, fingerprint },
                PathIdentity::OpenVpn { endpoint: e, fingerprint: f },
            ) => endpoint.model() == e.model() && fingerprint@ == f@,
            _ => false,
        }
    }

    pub fn is_same(&self, other: &Self) -> (r: bool)
        ensures
            r == self.same(*other),
    {
        match (self, other) {
            (
                PathIdentity::WireGuard { endpoint, fingerprint },
                PathIdentity::WireGuard { endpoint: e, fingerprint: f },
            ) => endpoint.is_same(e) && bytes::constant_time_eq(
                fingerprint.as_slice(),
                f.as_slice(),
            ),
            (PathIdentity::Socks5 { proxy }, PathIdentity::Socks5 { proxy: p }) => proxy.is_same(p),
            (PathIdentity::L2tp { server }, PathIdentity::L2tp { server: s }) => server.0 == s.0,
            (
                PathIdentity::OpenVpn { endpoint, fingerprint },
                PathIdentity::OpenVpn { endpoint: e, fingerprint: f },
            ) => endpoint.is_same(e) && bytes::constant_time_eq(
                fingerprint.as_slice(),
                f.as_slice(),
            ),
            _ => false,
        }
    }
}

/// Sharing an identity is an equivalence, and paths of different kinds never
/// share one.
pub proof fn sharing_an_identity_is_an_equivalence(
    a: PathIdentity,
    b: PathIdentity,
    c: PathIdentity,
)
    ensures
        a.same(a),
        a.same(b) == b.same(a),
        a.same(b) && b.same(c) ==> a.same(c),
        a is WireGuard && b is Socks5 ==> !a.same(b),
        a is WireGuard && b is OpenVpn ==> !a.same(b),
{
}

/// The first port of the range that a path picks its source port from.
pub const FIRST_SOURCE_PORT: u16 = 49_152;

/// The last port of that range.
pub const LAST_SOURCE_PORT: u16 = 65_535;

/// A UDP datagram found inside a tunnel packet.
#[derive(Debug, Clone)]
pub struct Datagram {
    pub source: Endpoint,
    pub destination: Endpoint,
    pub payload: Vec<u8>,
}

/// The two ends that a path's frames travel between inside its tunnel.
#[derive(Debug, Clone, Copy, PartialEq, Eq, Structural)]
pub struct FrameRoute {
    pub local: Endpoint,
    pub relay: Endpoint,
}

impl FrameRoute {
    /// The frame that a packet brings, if it brings one of the relay's to this
    /// path.
    pub open spec fn brought(self, packet: Seq<u8>) -> Option<Seq<u8>> {
        match packet::datagram_in(packet) {
            Some(datagram) if datagram.source == self.relay && datagram.destination == self.local
                => Some(datagram.payload),
            _ => None,
        }
    }

    /// The frames among what arrived, in order.
    pub open spec fn frames_among(self, packets: Seq<Vec<u8>>) -> Seq<Seq<u8>>
        decreases packets.len(),
    {
        if packets.len() == 0 {
            Seq::<Seq<u8>>::empty()
        } else {
            let before = self.frames_among(packets.drop_last());
            match self.brought(packets.last()@) {
                Some(frame) => before.push(frame),
                None => before,
            }
        }
    }

    /// The packet that carries a frame to the relay, unless the frame is too long
    /// for one.
    pub fn send_frame(&self, frame: &[u8]) -> (r: Result<Vec<u8>, String>)
        ensures
            r is Ok <==> frame@.len() <= packet::MAX_PAYLOAD,
            r matches Ok(inner) ==> inner@ == packet::udp_packet(self.local, self.relay, frame@),
            r matches Err(message) ==> message@ == packet::TOO_LONG@,
    {
        packet::ipv4_udp_packet(self.local, self.relay, frame)
    }

    /// The relay frames among what came out of a tunnel. What is no UDP
    /// datagram, or is not from the relay to this path, is left out.
    pub fn receive_frames(&self, packets: &Vec<Vec<u8>>) -> (r: Vec<Vec<u8>>)
        ensures
            config::byte_views(r@) == self.frames_among(packets@),
    {
        let mut frames: Vec<Vec<u8>> = Vec::new();
        let mut at: usize = 0;
        assert(packets@.take(0) =~= Seq::<Vec<u8>>::empty());
        assert(config::byte_views(frames@) =~= Seq::<Seq<u8>>::empty());
        while at < packets.len()
            invariant
                at <= packets@.len(),
                config::byte_views(frames@) == self.frames_among(packets@.take(at as int)),
            decreases packets@.len() - at,
        {
            assert(packets@.take(at + 1).drop_last() =~= packets@.take(at as int));
            assert(packets@.take(at + 1).last() == packets@[at as int]);
            if let Some(datagram) = packet::ipv4_udp_payload(packets[at].as_slice()) {
                if datagram.source == self.relay && datagram.destination == self.local {
                    let ghost before = frames@;
                    let ghost payload = datagram.payload@;
                    frames.push(datagram.payload);
                    assert(config::byte_views(frames@) =~= config::byte_views(before).push(
                        payload,
                    ));
                }
            }
            at = at + 1;
        }
        assert(packets@.take(at as int) =~= packets@);
        frames
    }
}

/// What the relay answers on a path's own flow arrives as it was sent, and what
/// this path sends is no answer to itself.
pub proof fn an_answer_on_the_flow_is_a_frame(route: FrameRoute, frame: Seq<u8>)
    requires
        frame.len() <= packet::MAX_PAYLOAD,
    ensures
        route.brought(packet::udp_packet(route.relay, route.local, frame)) == Some(frame),
        route.relay != route.local ==> route.brought(
            packet::udp_packet(route.local, route.relay, frame),
        ) is None,
{
    packet::a_datagram_reads_back(route.relay, route.local, frame);
    packet::a_datagram_reads_back(route.local, route.relay, frame);
}

/// Where an IPv4 packet is addressed to.
pub open spec fn destination_of(packet: Seq<u8>) -> Option<Ipv4> {
    if packet.len() < 20 || packet[0] / 16 != 4 {
        None
    } else {
        Some(Ipv4::made(packet[16], packet[17], packet[18], packet[19]))
    }
}

/// Where an IPv4 packet is addressed to, or nothing where it is too short to
/// hold a header or is not IPv4 at all.
pub fn ipv4_destination(packet: &[u8]) -> (r: Option<Ipv4>)
    ensures
        r == destination_of(packet@),
{
    if packet.len() < 20 || packet[0] / 16 != 4 {
        return None;
    }
    Some(Ipv4::new(packet[16], packet[17], packet[18], packet[19]))
}

/// The packets addressed to `address`, in order.
pub open spec fn addressed_to(packets: Seq<Vec<u8>>, address: Ipv4) -> Seq<Vec<u8>>
    decreases packets.len(),
{
    if packets.len() == 0 {
        packets
    } else {
        let before = addressed_to(packets.drop_last(), address);
        if destination_of(packets.last()@) == Some(address) {
            before.push(packets.last())
        } else {
            before
        }
    }
}

/// Keeps the packets that are addressed to this tunnel.
///
/// A peer configured with a wide range of allowed addresses may send traffic
/// for others in its subnet, and a provider's tunnel carries its own network's
/// broadcast and multicast traffic as well as our replies. Only what is
/// addressed to this tunnel can be handed back to the capture layer.
pub fn keep_addressed_to(packets: Vec<Vec<u8>>, address: Ipv4) -> (r: Vec<Vec<u8>>)
    ensures
        config::byte_views(r@) == config::byte_views(addressed_to(packets@, address)),
{
    let mut kept: Vec<Vec<u8>> = Vec::new();
    let mut at: usize = 0;
    assert(packets@.take(0) =~= Seq::<Vec<u8>>::empty());
    assert(config::byte_views(kept@) =~= config::byte_views(addressed_to(packets@.take(0), address)));
    while at < packets.len()
        invariant
            at <= packets@.len(),
            config::byte_views(kept@) == config::byte_views(
                addressed_to(packets@.take(at as int), address),
            ),
        decreases packets@.len() - at,
    {
        assert(packets@.take(at + 1).drop_last() =~= packets@.take(at as int));
        let wanted: bool = match ipv4_destination(packets[at].as_slice()) {
            Some(found) => found == address,
            None => false,
        };
        if wanted {
            let ghost before = kept@;
            let ghost model = addressed_to(packets@.take(at as int), address);
            let mut copy: Vec<u8> = Vec::new();
            copy.extend_from_slice(packets[at].as_slice());
            assert(copy@ =~= packets@[at as int]@);
            kept.push(copy);
            assert(config::byte_views(kept@) =~= config::byte_views(before).push(copy@));
            assert(config::byte_views(model.push(packets@[at as int])) =~= config::byte_views(
                model,
            ).push(packets@[at as int]@));
        }
        at = at + 1;
    }
    assert(packets@.take(at as int) =~= packets@);
    kept
}

/// What is known of a user-space WireGuard tunnel that has been prepared.
#[derive(Debug, Clone, Copy)]
pub struct WireGuardTunnel {
    pub address: Ipv4,
    pub endpoint: SocketAddress,
    pub identity_fingerprint: [u8; 32],
}

/// Carries relay frames inside an inner IPv4/UDP packet through a user-space
/// WireGuard tunnel.
pub struct WireGuardRelayPath {
    pub tunnel: WireGuardTunnel,
    pub relay: Endpoint,
    pub source_port: u16,
}

impl WireGuardRelayPath {
    /// The path through a prepared tunnel, from some port of its own.
    pub fn through(tunnel: WireGuardTunnel, relay: Endpoint) -> (r: Self)
        ensures
            r.tunnel == tunnel,
            r.relay == relay,
            FIRST_SOURCE_PORT <= r.source_port,
    {
        WireGuardRelayPath { tunnel, relay, source_port: random_port(FIRST_SOURCE_PORT, LAST_SOURCE_PORT) }
    }

    pub fn route(&self) -> (r: FrameRoute)
        ensures
            r == (FrameRoute {
                local: Endpoint { address: self.tunnel.address, port: self.source_port },
                relay: self.relay,
            }),
    {
        FrameRoute {
            local: Endpoint { address: self.tunnel.address, port: self.source_port },
            relay: self.relay,
        }
    }

    pub fn kind(&self) -> (r: &'static str)
        ensures
            r@ == KIND_WIREGUARD@,
    {
        KIND_WIREGUARD
    }

    pub fn endpoint(&self) -> (r: String)
        ensures
            r@ == self.tunnel.endpoint.written(),
    {
        self.tunnel.endpoint.to_text()
    }

    /// One: the handshake is an initiation out and a response back, so the
    /// setup cost is a single round trip to the node.
    pub fn setup_round_trips(&self) -> (r: Option<u8>)
        ensures
            r == Some(1u8),
    {
        Some(1)
    }

    pub fn identity(&self) -> (r: PathIdentity)
        ensures
            r == (PathIdentity::WireGuard {
                endpoint: self.tunnel.endpoint,
                fingerprint: self.tunnel.identity_fingerprint,
            }),
    {
        PathIdentity::WireGuard {
            endpoint: self.tunnel.endpoint,
            fingerprint: self.tunnel.identity_fingerprint,
        }
    }

    /// The outer address that has to keep reaching the Internet directly once
    /// the tunnel owns the default route.
    pub fn bypass_ipv4(&self) -> (r: Option<Ipv4>)
        ensures
            r == self.tunnel.endpoint.v4(),
    {
        self.tunnel.endpoint.ipv4()
    }

    /// The shortest deadline a health probe on this path may be given. A
    /// datagram transport has nothing underneath it and keeps the tight one.
    pub fn probe_deadline_floor(&self) -> (r: u64)
        ensures
            r == MIN_TIMEOUT,
    {
        MIN_TIMEOUT
    }
}

/// The single hop of a direct session: a WireGuard tunnel that carries the
/// captured packets themselves rather than frames addressed to a relay.
///
/// The node's own server is the router here, so nothing is wrapped, sealed or
/// scheduled. Packets go in as they were captured and come back the same way.
pub struct DirectWireGuardPath {
    pub tunnel: WireGuardTunnel,
}

impl DirectWireGuardPath {
    /// The tunnel's own address, which captured packets are rewritten to use
    /// and which replies come back addressed to.
    pub fn address(&self) -> (r: Ipv4)
        ensures
            r == self.tunnel.address,
    {
        self.tunnel.address
    }

    pub fn endpoint(&self) -> (r: SocketAddress)
        ensures
            r == self.tunnel.endpoint,
    {
        self.tunnel.endpoint
    }

    /// The node's public address, which must keep reaching the Internet
    /// directly once the tunnel owns the default route.
    pub fn bypass_ipv4(&self) -> (r: Option<Ipv4>)
        ensures
            r == self.tunnel.endpoint.v4(),
    {
        self.tunnel.endpoint.ipv4()
    }

    /// What to hand back of the packets the node routed to us.
    pub fn receive_packets(&self, packets: Vec<Vec<u8>>) -> (r: Vec<Vec<u8>>)
        ensures
            config::byte_views(r@) == config::byte_views(
                addressed_to(packets@, self.tunnel.address),
            ),
    {
        keep_addressed_to(packets, self.tunnel.address)
    }
}

/// The single hop of a direct session, whichever kind of node provides it.
///
/// A direct session has no relay to frame traffic for, so the node's own server
/// does the routing and the captured packets go through unchanged. Both
/// tunnelling nodes can do that, and the session above does not care which one
/// it got.
pub enum DirectPath {
    WireGuard(Box<DirectWireGuardPath>),
    OpenVpn(Box<UserSpaceOpenVpnPath>),
}

impl DirectPath {
    pub open spec fn own_address(&self) -> Ipv4 {
        match self {
            DirectPath::WireGuard(path) => path.tunnel.address,
            DirectPath::OpenVpn(path) => path.settings.address,
        }
    }

    pub fn kind(&self) -> (r: &'static str)
        ensures
            r@ == match self {
                DirectPath::WireGuard(_) => KIND_WIREGUARD@,
                DirectPath::OpenVpn(_) => KIND_OPENVPN@,
            },
    {
        match self {
            DirectPath::WireGuard(_) => KIND_WIREGUARD,
            DirectPath::OpenVpn(_) => KIND_OPENVPN,
        }
    }

    /// The tunnel's own address, which captured packets are rewritten to use
    /// and which replies come back addressed to.
    pub fn address(&self) -> (r: Ipv4)
        ensures
            r == self.own_address(),
    {
        match self {
            DirectPath::WireGuard(path) => path.address(),
            DirectPath::OpenVpn(path) => path.address(),
        }
    }

    pub fn endpoint(&self) -> (r: SocketAddress)
        ensures
            match self {
                DirectPath::WireGuard(path) => r == path.tunnel.endpoint,
                DirectPath::OpenVpn(path) => r.v4() == Some(path.endpoint.address) && r.port
                    == path.endpoint.port,
            },
    {
        match self {
            DirectPath::WireGuard(path) => path.endpoint(),
            DirectPath::OpenVpn(path) => SocketAddress::over_ipv4(
                path.endpoint.address,
                path.endpoint.port,
            ),
        }
    }

    /// The node's public address, which must keep reaching the Internet
    /// directly once the tunnel owns the default route.
    pub fn bypass_ipv4(&self) -> (r: Option<Ipv4>)
        ensures
            r == match self {
                DirectPath::WireGuard(path) => path.tunnel.endpoint.v4(),
                DirectPath::OpenVpn(path) => Some(path.endpoint.address),
            },
    {
        match self {
            DirectPath::WireGuard(path) => path.bypass_ipv4(),
            DirectPath::OpenVpn(path) => Some(path.endpoint.address),
        }
    }

    /// What to hand back of the packets the node routed to us.
    pub fn receive_packets(&self, packets: Vec<Vec<u8>>) -> (r: Vec<Vec<u8>>)
        ensures
            config::byte_views(r@) == config::byte_views(
                addressed_to(packets@, self.own_address()),
            ),
    {
        keep_addressed_to(packets, self.address())
    }
}

/// Carries relay frames inside an inner IPv4/UDP packet through an OpenVPN
/// tunnel.
///
/// This is the WireGuard arrangement exactly: the node is a tunnel that routes
/// IP packets, so a frame for the relay is wrapped in a datagram addressed to
/// it and handed over.
pub struct OpenVpnRelayPath {
    pub path: Box<UserSpaceOpenVpnPath>,
    pub relay: Endpoint,
    pub source_port: u16,
}

impl OpenVpnRelayPath {
    /// The path through a tunnel that has come up, from some port of its own.
    pub fn through(path: Box<UserSpaceOpenVpnPath>, relay: Endpoint) -> (r: Self)
        ensures
            r.path == path,
            r.relay == relay,
            FIRST_SOURCE_PORT <= r.source_port,
    {
        OpenVpnRelayPath { path, relay, source_port: random_port(FIRST_SOURCE_PORT, LAST_SOURCE_PORT) }
    }

    pub fn route(&self) -> (r: FrameRoute)
        ensures
            r == (FrameRoute {
                local: Endpoint { address: self.path.settings.address, port: self.source_port },
                relay: self.relay,
            }),
    {
        FrameRoute {
            local: Endpoint { address: self.path.address(), port: self.source_port },
            relay: self.relay,
        }
    }

    /// What becomes of the path, and what goes out, when a frame is sent.
    pub open spec fn sends(
        self,
        frame: Seq<u8>,
        urgency: Urgency,
        now: u64,
        after: Self,
        r: Result<Outgoing, String>,
    ) -> bool {
        let local = Endpoint { address: self.path.settings.address, port: self.source_port };
        if frame.len() <= packet::MAX_PAYLOAD {
            let inner = packet::udp_packet(local, self.relay, frame);
            &&& after.relay == self.relay
            &&& after.source_port == self.source_port
            &&& self.path.sends(inner, urgency, now, *after.path, r)
        } else {
            &&& after == self
            &&& r matches Err(message)
            &&& message@ == packet::TOO_LONG@
        }
    }

    /// Wraps one frame for the relay and seals it for the link.
    pub fn send_frame(&mut self, frame: &[u8], now: u64) -> (r: Result<Outgoing, String>)
        requires
            old(self).path.session.wf(),
        ensures
            old(self).sends(frame@, Urgency::Realtime, now, *final(self), r),
    {
        match self.route().send_frame(frame) {
            Ok(inner) => self.path.send_inner(inner.as_slice(), now),
            Err(why) => Err(why),
        }
    }

    /// Wraps and seals a health probe, which the link must not drop.
    pub fn send_probe(&mut self, frame: &[u8], now: u64) -> (r: Result<Outgoing, String>)
        requires
            old(self).path.session.wf(),
        ensures
            old(self).sends(frame@, Urgency::Reliable, now, *final(self), r),
    {
        match self.route().send_frame(frame) {
            Ok(inner) => self.path.send_probe(inner.as_slice(), now),
            Err(why) => Err(why),
        }
    }

    /// Which transport the session settled on, which is worth reporting because
    /// a udp configuration falls back to tcp when udp cannot get through.
    pub fn protocol(&self) -> (r: &'static str)
        ensures
            r@ == self.path.session@.protocol.name(),
    {
        self.path.protocol().as_str()
    }

    pub fn kind(&self) -> (r: &'static str)
        ensures
            r@ == KIND_OPENVPN@,
    {
        KIND_OPENVPN
    }

    pub fn endpoint(&self) -> (r: String)
        ensures
            r@ == self.path.endpoint.written() + " over "@ + self.path.session@.protocol.name(),
    {
        text::concat3(self.path.endpoint.to_text().as_str(), " over ", self.protocol())
    }

    /// Unknowable. Setup is timed until the server pushes its configuration,
    /// which spans a TCP connect, a full TLS handshake and the push exchange --
    /// and how many round trips that is depends on the cipher suite, the
    /// certificate chain and the server's own directives.
    pub fn setup_round_trips(&self) -> (r: Option<u8>)
        ensures
            r is None,
    {
        None
    }

    pub fn identity(&self) -> (r: PathIdentity)
        ensures
            r matches PathIdentity::OpenVpn { endpoint, fingerprint } && endpoint.v4() == Some(
                self.path.endpoint.address,
            ) && endpoint.port == self.path.endpoint.port && fingerprint
                == self.path.identity_fingerprint,
    {
        PathIdentity::OpenVpn {
            endpoint: SocketAddress::over_ipv4(self.path.endpoint.address, self.path.endpoint.port),
            fingerprint: self.path.identity_fingerprint(),
        }
    }

    pub fn bypass_ipv4(&self) -> (r: Option<Ipv4>)
        ensures
            r == Some(self.path.endpoint.address),
    {
        Some(self.path.endpoint.address)
    }

    /// The shortest deadline a health probe on this path may be given.
    ///
    /// OpenVPN is the one transport that can be either, so this follows the
    /// protocol actually in use: over UDP a lost packet is simply lost and the
    /// tight deadline is honest, but over TCP the stream retransmits it and the
    /// probe waits behind it.
    pub fn probe_deadline_floor(&self) -> (r: u64)
        ensures
            r == match self.path.session@.protocol {
                Protocol::Udp => MIN_TIMEOUT,
                Protocol::Tcp => STREAMED_MIN_TIMEOUT,
            },
    {
        match self.path.protocol() {
            Protocol::Udp => MIN_TIMEOUT,
            Protocol::Tcp => STREAMED_MIN_TIMEOUT,
        }
    }
}

/// Carries relay frames as plain datagrams through a SOCKS5 UDP association.
pub struct Socks5RelayPath {
    pub proxy: SocketAddress,
    /// Whether the proxy has closed the connection the association was made on.
    pub control_closed: bool,
}

impl Socks5RelayPath {
    pub fn kind(&self) -> (r: &'static str)
        ensures
            r@ == KIND_SOCKS5@,
    {
        KIND_SOCKS5
    }

    pub fn endpoint(&self) -> (r: String)
        ensures
            r@ == self.proxy.written(),
    {
        self.proxy.to_text()
    }

    /// Three: the TCP connect, the method negotiation and `UDP ASSOCIATE`.
    pub fn setup_round_trips(&self) -> (r: Option<u8>)
        ensures
            r == Some(3u8),
    {
        Some(3)
    }

    pub fn identity(&self) -> (r: PathIdentity)
        ensures
            r == (PathIdentity::Socks5 { proxy: self.proxy }),
    {
        PathIdentity::Socks5 { proxy: self.proxy }
    }

    /// The proxy's address, unless it runs on this machine: a loopback proxy is
    /// never reached through the default route, so it needs no bypass route of
    /// its own.
    pub fn bypass_ipv4(&self) -> (r: Option<Ipv4>)
        ensures
            r == match self.proxy.v4() {
                Some(address) if address.byte(0) != 127 => Some(address),
                _ => None,
            },
    {
        match self.proxy.ipv4() {
            Some(address) => if address.octets()[0] != 127 {
                Some(address)
            } else {
                None
            },
            None => None,
        }
    }

    /// The shortest deadline a health probe on this path may be given.
    pub fn probe_deadline_floor(&self) -> (r: u64)
        ensures
            r == MIN_TIMEOUT,
    {
        MIN_TIMEOUT
    }

    /// What to add when the path stops answering.
    ///
    /// This is only asked for after a probe went unanswered, so the note has to
    /// point at the leg that failed: datagrams left through the association and
    /// nothing came back, which means the proxy is not getting them to the relay
    /// or not getting the reply home. The closed control stream is mentioned
    /// only to rule it out, since plenty of proxies close it and keep relaying
    /// perfectly.
    pub fn health_note(&self) -> (r: String)
        ensures
            r@ == if self.control_closed {
                PROXY_SILENT@ + CONTROL_CLOSED@
            } else {
                PROXY_SILENT@
            },
    {
        if self.control_closed {
            text::concat2(PROXY_SILENT, CONTROL_CLOSED)
        } else {
            PROXY_SILENT.to_owned()
        }
    }
}

/// What a node needs before it can be used, by its kind: a WireGuard node its
/// configuration; an OpenVPN node a file that is accepted, and a name and a
/// password where the file asks for them; an L2TP node a server, a name, a
/// password, and a key unless it is connected already.
pub proof fn what_a_node_needs(node: NodeSpec)
    ensures
        node matches NodeSpec::WireGuard { config, .. } ==> (node.fault() is None <==>
            text::trimmed(config@).len() > 0),
        node matches NodeSpec::OpenVpn { config, username, password, .. } ==> (node.fault() is None
            <==> (config::parsed_config(config@) matches Ok(file) && (file.wants_credentials ==> (
        username matches Some(name) && name@.len() > 0) && (password matches Some(secret)
            && secret@.len() > 0)))),
        node matches NodeSpec::L2tp { server, username, password, pre_shared_key, runtime, .. }
            ==> (node.fault() is None <==> text::trimmed(server@).len() > 0 && text::trimmed(
            username@,
        ).len() > 0 && password@.len() > 0 && (pre_shared_key@.len() > 0 || runtime is Some)),
{
}

/// The login that a node holds is the login it is opened with.
pub proof fn a_node_is_opened_with_its_own_login(plan: OpenPlan, node: NodeSpec, redialled: bool)
    requires
        plans(plan, node, redialled),
    ensures
        (plan, node) matches (
            OpenPlan::OpenVpn { config, credentials },
            NodeSpec::OpenVpn { config: source, username, password, .. },
        ) ==> config@ == source@ && (credentials.username matches Some(name) ==> (
        username matches Some(own) && own@ == name@)) && (credentials.password matches Some(secret)
            ==> (password matches Some(own) && own@ == secret@)) && (credentials.username is None
            <==> username is None) && (credentials.password is None <==> password is None),
        (plan, node) matches (
            OpenPlan::Socks5 { proxy },
            NodeSpec::Socks5 { host, port, username, password, .. },
        ) ==> proxy.host@ == host@ && proxy.port == port && (proxy.username matches Some(name) ==> (
        username matches Some(own) && own@ == name@)) && (proxy.password matches Some(secret) ==> (
        password matches Some(own) && own@ == secret@)),
        (plan, node) matches (
            OpenPlan::L2tp { server, username, password, runtime, redial },
            NodeSpec::L2tp { server: s, username: u, password: p, runtime: r, .. },
        ) ==> server@ == s@ && username@ == u@ && password@ == p@ && redial == redialled && (
        r matches Some(known) && known.interface_index == runtime.interface_index
            && known.local_address == runtime.local_address && known.mtu == runtime.mtu),
        plan is WireGuard <==> node is WireGuard,
        plan is OpenVpn <==> node is OpenVpn,
        plan is Socks5 <==> node is Socks5,
        plan is L2tp <==> node is L2tp,
{
}

/// Of what arrives, the datagrams of the flow are frames, in the order in which
/// they came, and nothing else is.
pub proof fn frames_come_in_order(route: FrameRoute, packets: Seq<Vec<u8>>, packet: Vec<u8>)
    ensures
        route.frames_among(packets.push(packet)) == match packet::datagram_in(packet@) {
            Some(datagram) => if datagram.source == route.relay && datagram.destination
                == route.local {
                route.frames_among(packets).push(datagram.payload)
            } else {
                route.frames_among(packets)
            },
            None => route.frames_among(packets),
        },
        route.frames_among(Seq::<Vec<u8>>::empty()).len() == 0,
{
    assert(packets.push(packet).drop_last() =~= packets);
}

/// A packet is handed on where it is addressed to the tunnel's own address, in
/// the order in which it came.
pub proof fn a_packet_is_told_by_its_destination(
    packets: Seq<Vec<u8>>,
    packet: Vec<u8>,
    source: Endpoint,
    destination: Endpoint,
    payload: Seq<u8>,
    address: Ipv4,
)
    requires
        packet@ == packet::udp_packet(source, destination, payload),
    ensures
        destination_of(packet@) == Some(destination.address),
        addressed_to(packets.push(packet), address) == if destination.address == address {
            addressed_to(packets, address).push(packet)
        } else {
            addressed_to(packets, address)
        },
        addressed_to(Seq::<Vec<u8>>::empty(), address).len() == 0,
{
    assert(packets.push(packet).drop_last() =~= packets);
    packet::lemma_udp_addresses(source, destination, payload);
}

/// Two routes count as one where they are of one kind and meet at the same
/// place: with the same key for WireGuard, with the same account for OpenVPN.
pub proof fn routes_are_told_apart(
    here: SocketAddress,
    there: SocketAddress,
    one: [u8; 32],
    other: [u8; 32],
    server: Ipv4,
    elsewhere: Ipv4,
)
    ensures
        (PathIdentity::WireGuard { endpoint: here, fingerprint: one }).same(
            PathIdentity::WireGuard { endpoint: there, fingerprint: other },
        ) <==> here.model() == there.model() && one@ == other@,
        (PathIdentity::OpenVpn { endpoint: here, fingerprint: one }).same(
            PathIdentity::OpenVpn { endpoint: there, fingerprint: other },
        ) <==> here.model() == there.model() && one@ == other@,
        (PathIdentity::Socks5 { proxy: here }).same(PathIdentity::Socks5 { proxy: there }) <==>
            here.model() == there.model(),
        (PathIdentity::L2tp { server }).same(PathIdentity::L2tp { server: elsewhere }) <==> server
            == elsewhere,
{
}

/// A node's label is what the user gave it, without white space round it, where
/// anything is left.
pub proof fn a_label_is_what_the_user_gave(node: NodeSpec)
    ensures
        node.given_label() is None ==> node.label_text() is None,
        node.given_label() matches Some(label) ==> (text::trimmed(label@).len() > 0
            ==> node.label_text() == Some(text::trimmed(label@))) && (text::trimmed(label@).len()
            == 0 ==> node.label_text() is None),
{
}

/// A limit on the tunnel's MTU comes from an accepted OpenVPN file or from the
/// adapter of a connected L2TP node, where it is between 1280 and 1500, and from
/// nothing else.
pub proof fn where_a_limit_comes_from(node: NodeSpec)
    ensures
        node is WireGuard || node is Socks5 ==> node.inner_limit() is None,
        node matches NodeSpec::OpenVpn { config, .. } ==> (config::parsed_config(
            config@,
        ) matches Ok(file) ==> node.inner_limit() == if 1280 <= file.tun_mtu && file.tun_mtu
            <= 1500 {
            Some(file.tun_mtu)
        } else {
            None
        }),
        node matches NodeSpec::L2tp { runtime: Some(runtime), .. } ==> node.inner_limit() == if 1280
            <= runtime.mtu && runtime.mtu <= 1500 {
            Some(runtime.mtu)
        } else {
            None
        },
        node matches NodeSpec::L2tp { runtime: None, .. } ==> node.inner_limit() is None,
{
}

/// A proxy on this machine is told by its name or by its address.
pub proof fn a_proxy_on_this_machine_is_told_by_its_host(node: NodeSpec, a: u8, b: u8, c: u8)
    requires
        node matches NodeSpec::Socks5 { host, .. } && host@ == net::Ipv4::made(a, b, c, 1).dotted(),
    ensures
        node.local_proxy() <==> a == 127,
{
    net::a_dotted_address_reads_back(a, b, c, 1);
    net::lemma_dotted_characters(a, b, c, 1);
    let s = net::Ipv4::made(a, b, c, 1).dotted();
    let last = s.len() - 1;
    assert(text::is_digit(s[0]) || s[0] == '.');
    assert(text::is_digit(s[last]) || s[last] == '.');
    text::lemma_trimmed_as_it_is(s);
    reveal_strlit("localhost");
    assert(text::lower("localhost"@)[0] == 'l');
    assert(text::lower(s)[0] == text::lower_char(s[0]));
}

} // verus!
