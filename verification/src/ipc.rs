//! The vocabulary the service speaks to the engine.

use vstd::prelude::*;

use crate::relay_path;
use crate::relay_path::{NodeSpec, SessionMode};
use crate::scheduler::Strategy;
use crate::text;

verus! {

pub const PROTOCOL_VERSION: u32 = 1;

/// What the engine can be asked.
#[derive(Debug, Clone, Copy, PartialEq, Eq, Structural)]
pub enum Command {
    Hello,
    InspectSystem,
    PrepareSession,
    ProbeRelay,
    ProbeWireGuardRoutes,
    ProbeSocks5Node,
    StartSession,
    SessionStatus,
    ProbeDataPlane,
    StartCapture,
    UpdateCapture,
    CaptureStatus,
    StopCapture,
    StopSession,
    SchedulerDemo,
}

/// The command that a name stands for.
pub open spec fn command_named(name: Seq<char>) -> Option<Command> {
    if name == "hello"@ {
        Some(Command::Hello)
    } else if name == "inspect-system"@ {
        Some(Command::InspectSystem)
    } else if name == "prepare-session"@ {
        Some(Command::PrepareSession)
    } else if name == "probe-relay"@ {
        Some(Command::ProbeRelay)
    } else if name == "probe-wireguard-routes"@ {
        Some(Command::ProbeWireGuardRoutes)
    } else if name == "probe-socks5-node"@ {
        Some(Command::ProbeSocks5Node)
    } else if name == "start-wireguard-session"@ {
        Some(Command::StartSession)
    } else if name == "wireguard-session-status"@ {
        Some(Command::SessionStatus)
    } else if name == "probe-data-plane"@ {
        Some(Command::ProbeDataPlane)
    } else if name == "start-packet-capture"@ {
        Some(Command::StartCapture)
    } else if name == "update-packet-capture"@ {
        Some(Command::UpdateCapture)
    } else if name == "packet-capture-status"@ {
        Some(Command::CaptureStatus)
    } else if name == "stop-packet-capture"@ {
        Some(Command::StopCapture)
    } else if name == "stop-wireguard-session"@ {
        Some(Command::StopSession)
    } else if name == "scheduler-demo"@ {
        Some(Command::SchedulerDemo)
    } else {
        None
    }
}

impl Command {
    /// The command that a name stands for.
    pub fn parse(name: &str) -> (r: Result<Self, String>)
        ensures
            match command_named(name@) {
                Some(command) => r == Ok::<Self, String>(command),
                None => r matches Err(message) && message@ == "unknown command: "@ + name@,
            },
    {
        if text::same(name, "hello") {
            Ok(Command::Hello)
        } else if text::same(name, "inspect-system") {
            Ok(Command::InspectSystem)
        } else if text::same(name, "prepare-session") {
            Ok(Command::PrepareSession)
        } else if text::same(name, "probe-relay") {
            Ok(Command::ProbeRelay)
        } else if text::same(name, "probe-wireguard-routes") {
            Ok(Command::ProbeWireGuardRoutes)
        } else if text::same(name, "probe-socks5-node") {
            Ok(Command::ProbeSocks5Node)
        } else if text::same(name, "start-wireguard-session") {
            Ok(Command::StartSession)
        } else if text::same(name, "wireguard-session-status") {
            Ok(Command::SessionStatus)
        } else if text::same(name, "probe-data-plane") {
            Ok(Command::ProbeDataPlane)
        } else if text::same(name, "start-packet-capture") {
            Ok(Command::StartCapture)
        } else if text::same(name, "update-packet-capture") {
            Ok(Command::UpdateCapture)
        } else if text::same(name, "packet-capture-status") {
            Ok(Command::CaptureStatus)
        } else if text::same(name, "stop-packet-capture") {
            Ok(Command::StopCapture)
        } else if text::same(name, "stop-wireguard-session") {
            Ok(Command::StopSession)
        } else if text::same(name, "scheduler-demo") {
            Ok(Command::SchedulerDemo)
        } else {
            Err(text::concat2("unknown command: ", name))
        }
    }
}

/// A request to start a session.
#[derive(Debug, Clone)]
pub struct SessionRequest {
    pub mode: SessionMode,
    /// A direct session has no relay, so these three carry nothing there.
    pub relay_host: String,
    pub relay_port: u16,
    pub enrollment_token: String,
    pub nodes: Vec<NodeSpec>,
    pub wireguard_configs: Vec<String>,
    pub route_labels: Vec<String>,
    pub strategy: Strategy,
}

/// The strategy of a request that names none. Smart is the safe default;
/// all-paths is an explicit user choice.
pub fn default_relay_strategy() -> (r: Strategy)
    ensures
        r == Strategy::Adaptive,
{
    Strategy::Adaptive
}

/// The strategy that a name stands for.
pub open spec fn strategy_named(name: Seq<char>) -> Option<Strategy> {
    if name == "fastest-path"@ {
        Some(Strategy::FastestPath)
    } else if name == "duplicate"@ {
        Some(Strategy::Duplicate)
    } else if name == "adaptive"@ {
        Some(Strategy::Adaptive)
    } else if name == "all-paths"@ {
        Some(Strategy::AllPaths)
    } else {
        None
    }
}

pub fn parse_strategy(name: &str) -> (r: Option<Strategy>)
    ensures
        r == strategy_named(name@),
{
    if text::same(name, "fastest-path") {
        Some(Strategy::FastestPath)
    } else if text::same(name, "duplicate") {
        Some(Strategy::Duplicate)
    } else if text::same(name, "adaptive") {
        Some(Strategy::Adaptive)
    } else if text::same(name, "all-paths") {
        Some(Strategy::AllPaths)
    } else {
        None
    }
}

/// A strategy's own name stands for it.
pub proof fn a_strategy_name_reads_back(strategy: Strategy)
    ensures
        strategy_named(strategy.word()) == Some(strategy),
{
    reveal_strlit("fastest-path");
    reveal_strlit("duplicate");
    reveal_strlit("adaptive");
    reveal_strlit("all-paths");
    assert("fastest-path"@.len() == 12);
    assert("duplicate"@.len() == 9 && "all-paths"@.len() == 9 && "adaptive"@.len() == 8);
    assert("duplicate"@[0] == 'd' && "all-paths"@[0] == 'a');
}

/// Whether one node stands for a configuration and the label it was given.
pub open spec fn is_wireguard(node: NodeSpec, config: Seq<char>, label: Option<Seq<char>>) -> bool {
    node matches NodeSpec::WireGuard { config: source, label: name } && source@ == config
        && text::option_view(name) == label
}

impl SessionRequest {
    /// The nodes of a session. Callers may send the tagged node list or, for
    /// WireGuard-only sessions, the original flat configuration list.
    pub fn resolved_nodes(&self) -> (r: Vec<NodeSpec>)
        ensures
            if self.nodes@.len() > 0 {
                &&& r@.len() == self.nodes@.len()
                &&& forall|i: int|
                    0 <= i < r@.len() ==> relay_path::same_node(
                        #[trigger] r@[i],
                        self.nodes@[i],
                    )
            } else {
                &&& r@.len() == self.wireguard_configs@.len()
                &&& forall|i: int|
                    0 <= i < r@.len() ==> is_wireguard(
                        #[trigger] r@[i],
                        self.wireguard_configs@[i]@,
                        if i < self.route_labels@.len() {
                            Some(self.route_labels@[i]@)
                        } else {
                            None
                        },
                    )
            },
    {
        let mut r: Vec<NodeSpec> = Vec::new();
        let mut at: usize = 0;
        if self.nodes.len() > 0 {
            while at < self.nodes.len()
                invariant
                    at <= self.nodes@.len(),
                    r@.len() == at,
                    forall|i: int|
                        0 <= i < at ==> relay_path::same_node(#[trigger] r@[i], self.nodes@[i]),
                decreases self.nodes@.len() - at,
            {
                r.push(relay_path::copy_node(&self.nodes[at]));
                at = at + 1;
            }
            return r;
        }
        while at < self.wireguard_configs.len()
            invariant
                at <= self.wireguard_configs@.len(),
                r@.len() == at,
                forall|i: int|
                    0 <= i < at ==> is_wireguard(
                        #[trigger] r@[i],
                        self.wireguard_configs@[i]@,
                        if i < self.route_labels@.len() {
                            Some(self.route_labels@[i]@)
                        } else {
                            None
                        },
                    ),
            decreases self.wireguard_configs@.len() - at,
        {
            let label = if at < self.route_labels.len() {
                Some(self.route_labels[at].clone())
            } else {
                None
            };
            r.push(
                NodeSpec::WireGuard { config: self.wireguard_configs[at].clone(), label },
            );
            at = at + 1;
        }
        r
    }
}

/// The name by which a command is asked for.
pub open spec fn asked_as(command: Command) -> Seq<char> {
    match command {
        Command::Hello => "hello"@,
        Command::InspectSystem => "inspect-system"@,
        Command::PrepareSession => "prepare-session"@,
        Command::ProbeRelay => "probe-relay"@,
        Command::ProbeWireGuardRoutes => "probe-wireguard-routes"@,
        Command::ProbeSocks5Node => "probe-socks5-node"@,
        Command::StartSession => "start-wireguard-session"@,
        Command::SessionStatus => "wireguard-session-status"@,
        Command::ProbeDataPlane => "probe-data-plane"@,
        Command::StartCapture => "start-packet-capture"@,
        Command::UpdateCapture => "update-packet-capture"@,
        Command::CaptureStatus => "packet-capture-status"@,
        Command::StopCapture => "stop-packet-capture"@,
        Command::StopSession => "stop-wireguard-session"@,
        Command::SchedulerDemo => "scheduler-demo"@,
    }
}

/// Each command answers to its own name and to no other.
pub proof fn each_command_has_its_own_name(command: Command, name: Seq<char>)
    ensures
        command_named(asked_as(command)) == Some(command),
        command_named(name) == Some(command) ==> name == asked_as(command),
{
    reveal_strlit("hello");
    reveal_strlit("inspect-system");
    reveal_strlit("prepare-session");
    reveal_strlit("probe-relay");
    reveal_strlit("probe-wireguard-routes");
    reveal_strlit("probe-socks5-node");
    reveal_strlit("start-wireguard-session");
    reveal_strlit("wireguard-session-status");
    reveal_strlit("probe-data-plane");
    reveal_strlit("start-packet-capture");
    reveal_strlit("update-packet-capture");
    reveal_strlit("packet-capture-status");
    reveal_strlit("stop-packet-capture");
    reveal_strlit("stop-wireguard-session");
    reveal_strlit("scheduler-demo");
    assert("hello"@.len() == 5);
    assert("inspect-system"@.len() == 14);
    assert("prepare-session"@.len() == 15);
    assert("probe-relay"@.len() == 11);
    assert("probe-wireguard-routes"@.len() == 22);
    assert("probe-socks5-node"@.len() == 17);
    assert("start-wireguard-session"@.len() == 23);
    assert("wireguard-session-status"@.len() == 24);
    assert("probe-data-plane"@.len() == 16);
    assert("start-packet-capture"@.len() == 20);
    assert("update-packet-capture"@.len() == 21);
    assert("packet-capture-status"@.len() == 21);
    assert("stop-packet-capture"@.len() == 19);
    assert("stop-wireguard-session"@.len() == 22);
    assert("scheduler-demo"@.len() == 14);
    assert("inspect-system"@[0] == 'i' && "scheduler-demo"@[0] == 's');
    assert("probe-wireguard-routes"@[0] == 'p' && "stop-wireguard-session"@[0] == 's');
    assert("update-packet-capture"@[0] == 'u' && "packet-capture-status"@[0] == 'p');
}

/// A strategy goes by one name in both directions.
pub proof fn each_strategy_has_its_own_name(name: Seq<char>, strategy: Strategy)
    ensures
        Strategy::FastestPath.word() == "fastest-path"@,
        Strategy::Duplicate.word() == "duplicate"@,
        Strategy::Adaptive.word() == "adaptive"@,
        Strategy::AllPaths.word() == "all-paths"@,
        strategy_named(name) == Some(strategy) <==> name == strategy.word(),
{
    a_strategy_name_reads_back(strategy);
}

} // verus!
