//! Connections to other daemons over SSH.
use crate::auth;
use crate::auth::{normalize_paths, parse_remote_target, AuthPrompt, RemoteTarget};
use crate::reverse;
use crate::reverse::reverse_subsystem;
use crate::text;
use crate::text::{concat3, concat5, debug_text};
use vstd::prelude::*;

verus! {

// ---------------------------------------------------------------------------
// Where to connect to
// ---------------------------------------------------------------------------
/// Where to connect to, and with which key.
#[derive(Debug)]
pub struct ConnectPlan {
    pub target: RemoteTarget,
    pub identity_file: String,
}

/// A path of the configuration; an empty one is none.
pub open spec fn path_option(path: Seq<char>) -> Option<Seq<char>> {
    if path.len() == 0 {
        None
    } else {
        Some(path)
    }
}

/// What a gateway's configuration says of the connection. `service` is the name of the
/// service for messages.
pub open spec fn planned(
    service: Seq<char>,
    gateway_name: Seq<char>,
    address: Seq<char>,
    identity_file: Seq<char>,
    known_hosts_path: Seq<char>,
    home: Option<Seq<char>>,
    default_known_hosts: Seq<char>,
) -> Result<(auth::TargetView, Seq<char>), Seq<char>> {
    match auth::remote_target(address) {
        Err(e) => Err(
            "failed to parse "@ + service + " address "@ + text::debug_of(address) + ": "@ + e,
        ),
        Ok(target) => match auth::normalized(
            path_option(identity_file),
            path_option(known_hosts_path),
            home,
            default_known_hosts,
        ) {
            Err(e) => Err("failed to normalize paths for "@ + gateway_name + ": "@ + e),
            Ok((id, _)) => Ok((target, id)),
        },
    }
}

/// Plan the connection of a gateway.
pub fn plan_connection(
    service: &str,
    gateway_name: &str,
    address: &str,
    identity_file: &str,
    known_hosts_path: &str,
    home: Option<&str>,
    default_known_hosts: &str,
) -> (r: Result<ConnectPlan, String>)
    ensures
        ({
            let p = planned(
                service@,
                gateway_name@,
                address@,
                identity_file@,
                known_hosts_path@,
                text::opt_str(home),
                default_known_hosts@,
            );
            match r {
                Ok(plan) => p == Ok::<(auth::TargetView, Seq<char>), Seq<char>>(
                    (plan.target@, plan.identity_file@),
                ),
                Err(e) => p == Err::<(auth::TargetView, Seq<char>), Seq<char>>(e@),
            }
        }),
{
    let target = match parse_remote_target(address) {
        Ok(t) => t,
        Err(e) => {
            let shown = debug_text(address);
            let mut m = concat5("failed to parse ", service, " address ", shown.as_str(), ": ");
            m.append(e.as_str());
            return Err(m);
        },
    };
    let id: Option<&str> = if identity_file.is_empty() {
        None
    } else {
        Some(identity_file)
    };
    let kh: Option<&str> = if known_hosts_path.is_empty() {
        None
    } else {
        Some(known_hosts_path)
    };
    match normalize_paths(id, kh, home, default_known_hosts) {
        Ok((identity_file, _)) => Ok(ConnectPlan { target, identity_file }),
        Err(e) => {
            let mut m = concat3("failed to normalize paths for ", gateway_name, ": ");
            m.append(e.as_str());
            Err(m)
        },
    }
}

/// The outcome of authentication with a key that was read or could not be.
pub fn key_auth_result(
    loaded: Result<(), String>,
    accepted: bool,
    user: &str,
    identity_file: &str,
) -> (r: Result<(), String>)
    ensures
        match loaded {
            Err(e) => r matches Err(m) && m@ == "failed to load key "@ + identity_file@ + ": "@
                + e@,
            Ok(_) => if accepted {
                r is Ok
            } else {
                r matches Err(m) && m@ == "publickey authentication failed for "@ + user@
                    + " using "@ + identity_file@
            },
        },
{
    match loaded {
        Err(e) => {
            let mut m = concat3("failed to load key ", identity_file, ": ");
            m.append(e.as_str());
            Err(m)
        },
        Ok(_) => if accepted {
            Ok(())
        } else {
            let mut m = concat3("publickey authentication failed for ", user, " using ");
            m.append(identity_file);
            Err(m)
        },
    }
}

// ---------------------------------------------------------------------------
// The steps of a connection
// ---------------------------------------------------------------------------
/// Where a connection stands.
#[derive(Clone, Copy, Debug, PartialEq, Eq, Structural)]
pub enum ConnectPhase {
    Connecting,
    AuthenticatingKey,
    Prompting,
    AuthenticatingPassword,
    OpeningChannel,
    StartingSubsystem,
    EstablishingRpc,
    Over,
}

/// What came of the last step.
pub enum ConnectEvent {
    Connected(Result<(), String>),
    KeyAuthenticated(Result<(), String>),
    Prompted(Result<String, String>),
    PasswordAuthenticated(Result<(), String>),
    ChannelOpened(Result<(), String>),
    SubsystemStarted(Result<(), String>),
    RpcEstablished(Result<(), String>),
}

/// The next step.
pub enum ConnectAction {
    /// The event does not belong to this phase.
    Nothing,
    AuthenticateKey,
    Prompt(AuthPrompt),
    AuthenticatePassword(String),
    OpenChannel,
    StartSubsystem,
    EstablishRpc,
    Done,
    Fail(String),
}

/// The mathematical counterpart of [`ConnectAction`].
pub enum ConnectActionView {
    Nothing,
    AuthenticateKey,
    Prompt { gateway_name: Seq<char>, message: Seq<char>, secret: bool },
    AuthenticatePassword(Seq<char>),
    OpenChannel,
    StartSubsystem,
    EstablishRpc,
    Done,
    Fail(Seq<char>),
}

impl View for ConnectAction {
    type V = ConnectActionView;

    open spec fn view(&self) -> ConnectActionView {
        match self {
            ConnectAction::Nothing => ConnectActionView::Nothing,
            ConnectAction::AuthenticateKey => ConnectActionView::AuthenticateKey,
            ConnectAction::Prompt(p) => ConnectActionView::Prompt {
                gateway_name: p.gateway_name@,
                message: p.message@,
                secret: p.secret,
            },
            ConnectAction::AuthenticatePassword(p) => ConnectActionView::AuthenticatePassword(p@),
            ConnectAction::OpenChannel => ConnectActionView::OpenChannel,
            ConnectAction::StartSubsystem => ConnectActionView::StartSubsystem,
            ConnectAction::EstablishRpc => ConnectActionView::EstablishRpc,
            ConnectAction::Done => ConnectActionView::Done,
            ConnectAction::Fail(e) => ConnectActionView::Fail(e@),
        }
    }
}

/// `user@host:port`.
pub open spec fn login(t: auth::TargetView) -> Seq<char> {
    t.user + "@"@ + auth::address_of(t.host, t.port)
}

/// What a connection goes by.
pub struct ConnectRules {
    pub gateway_name: Seq<char>,
    pub target: auth::TargetView,
    pub subsystem: Seq<char>,
}

/// What the outcome of a step leads to. A key that is not accepted is followed by a question
/// for a password; every other failure ends the connection.
pub open spec fn connect_step(rules: ConnectRules, phase: ConnectPhase, event: ConnectEvent) -> (
    ConnectPhase,
    ConnectActionView,
) {
    let address = auth::address_of(rules.target.host, rules.target.port);
    let who = login(rules.target);
    match (phase, event) {
        (ConnectPhase::Connecting, ConnectEvent::Connected(r)) => match r {
            Ok(_) => (ConnectPhase::AuthenticatingKey, ConnectActionView::AuthenticateKey),
            Err(e) => (
                ConnectPhase::Over,
                ConnectActionView::Fail("SSH connection to "@ + address + " failed: "@ + e@),
            ),
        },
        (ConnectPhase::AuthenticatingKey, ConnectEvent::KeyAuthenticated(r)) => match r {
            Ok(_) => (ConnectPhase::OpeningChannel, ConnectActionView::OpenChannel),
            Err(_) => (
                ConnectPhase::Prompting,
                ConnectActionView::Prompt {
                    gateway_name: rules.gateway_name,
                    message: "Password for "@ + who,
                    secret: true,
                },
            ),
        },
        (ConnectPhase::Prompting, ConnectEvent::Prompted(r)) => match r {
            Ok(p) => (
                ConnectPhase::AuthenticatingPassword,
                ConnectActionView::AuthenticatePassword(p@),
            ),
            Err(e) => (
                ConnectPhase::Over,
                ConnectActionView::Fail("AuthPrompter failed for "@ + who + ": "@ + e@),
            ),
        },
        (ConnectPhase::AuthenticatingPassword, ConnectEvent::PasswordAuthenticated(r)) => match r {
            Ok(_) => (ConnectPhase::OpeningChannel, ConnectActionView::OpenChannel),
            Err(e) => (
                ConnectPhase::Over,
                ConnectActionView::Fail("password auth failed for "@ + who + ": "@ + e@),
            ),
        },
        (ConnectPhase::OpeningChannel, ConnectEvent::ChannelOpened(r)) => match r {
            Ok(_) => (ConnectPhase::StartingSubsystem, ConnectActionView::StartSubsystem),
            Err(e) => (
                ConnectPhase::Over,
                ConnectActionView::Fail(
                    "failed to open session channel on "@ + address + ": "@ + e@,
                ),
            ),
        },
        (ConnectPhase::StartingSubsystem, ConnectEvent::SubsystemStarted(r)) => match r {
            Ok(_) => (ConnectPhase::EstablishingRpc, ConnectActionView::EstablishRpc),
            Err(e) => (
                ConnectPhase::Over,
                ConnectActionView::Fail(
                    "failed to start "@ + rules.subsystem + " subsystem on "@ + address + ": "@
                        + e@,
                ),
            ),
        },
        (ConnectPhase::EstablishingRpc, ConnectEvent::RpcEstablished(r)) => match r {
            Ok(_) => (ConnectPhase::Over, ConnectActionView::Done),
            Err(e) => (
                ConnectPhase::Over,
                ConnectActionView::Fail(
                    "failed to establish gRPC channel over SSH to "@ + address + ": "@ + e@,
                ),
            ),
        },
        _ => (phase, ConnectActionView::Nothing),
    }
}

/// A connection to another daemon, step by step. It begins with the SSH connection.
pub struct Connector {
    gateway_name: String,
    target: RemoteTarget,
    subsystem: String,
    phase: ConnectPhase,
}

impl Connector {
    pub closed spec fn rules(&self) -> ConnectRules {
        ConnectRules {
            gateway_name: self.gateway_name@,
            target: self.target@,
            subsystem: self.subsystem@,
        }
    }

    pub closed spec fn phase(&self) -> ConnectPhase {
        self.phase
    }

    pub fn new(gateway_name: &str, target: RemoteTarget, subsystem: &str) -> (r: Self)
        ensures
            r.rules() == (ConnectRules {
                gateway_name: gateway_name@,
                target: target@,
                subsystem: subsystem@,
            }),
            r.phase() == ConnectPhase::Connecting,
    {
        Connector {
            gateway_name: gateway_name.to_owned(),
            target,
            subsystem: subsystem.to_owned(),
            phase: ConnectPhase::Connecting,
        }
    }

    fn login(&self) -> (r: String)
        ensures
            r@ == login(self.rules().target),
    {
        let address = self.target.address();
        concat3(self.target.user.as_str(), "@", address.as_str())
    }

    fn fail3(&mut self, a: &str, b: &str, c: &str, e: &str) -> (r: ConnectAction)
        ensures
            final(self).rules() == old(self).rules(),
            final(self).phase() == ConnectPhase::Over,
            r@ == ConnectActionView::Fail(a@ + b@ + c@ + e@),
    {
        self.phase = ConnectPhase::Over;
        let mut m = concat3(a, b, c);
        m.append(e);
        ConnectAction::Fail(m)
    }

    fn go(&mut self, phase: ConnectPhase, action: ConnectAction) -> (r: ConnectAction)
        ensures
            final(self).rules() == old(self).rules(),
            final(self).phase() == phase,
            r == action,
    {
        self.phase = phase;
        action
    }

    /// Take the outcome of a step.
    pub fn on_event(&mut self, event: ConnectEvent) -> (r: ConnectAction)
        ensures
            final(self).rules() == old(self).rules(),
            (final(self).phase(), r@) == connect_step(old(self).rules(), old(self).phase(), event),
    {
        let address = self.target.address();
        let a = address.as_str();
        match (self.phase, event) {
            (ConnectPhase::Connecting, ConnectEvent::Connected(r)) => match r {
                Ok(_) => self.go(
                    ConnectPhase::AuthenticatingKey,
                    ConnectAction::AuthenticateKey,
                ),
                Err(e) => self.fail3("SSH connection to ", a, " failed: ", e.as_str()),
            },
            (ConnectPhase::AuthenticatingKey, ConnectEvent::KeyAuthenticated(r)) => match r {
                Ok(_) => self.go(ConnectPhase::OpeningChannel, ConnectAction::OpenChannel),
                Err(_) => {
                    let who = self.login();
                    let mut message = "Password for ".to_owned();
                    message.append(who.as_str());
                    let prompt = AuthPrompt {
                        gateway_name: self.gateway_name.clone(),
                        message,
                        secret: true,
                    };
                    self.go(ConnectPhase::Prompting, ConnectAction::Prompt(prompt))
                },
            },
            (ConnectPhase::Prompting, ConnectEvent::Prompted(r)) => match r {
                Ok(p) => self.go(
                    ConnectPhase::AuthenticatingPassword,
                    ConnectAction::AuthenticatePassword(p),
                ),
                Err(e) => {
                    let who = self.login();
                    self.fail3("AuthPrompter failed for ", who.as_str(), ": ", e.as_str())
                },
            },
            (ConnectPhase::AuthenticatingPassword, ConnectEvent::PasswordAuthenticated(r)) => match r {
                Ok(_) => self.go(ConnectPhase::OpeningChannel, ConnectAction::OpenChannel),
                Err(e) => {
                    let who = self.login();
                    self.fail3("password auth failed for ", who.as_str(), ": ", e.as_str())
                },
            },
            (ConnectPhase::OpeningChannel, ConnectEvent::ChannelOpened(r)) => match r {
                Ok(_) => self.go(ConnectPhase::StartingSubsystem, ConnectAction::StartSubsystem),
                Err(e) => self.fail3("failed to open session channel on ", a, ": ", e.as_str()),
            },
            (ConnectPhase::StartingSubsystem, ConnectEvent::SubsystemStarted(r)) => match r {
                Ok(_) => self.go(ConnectPhase::EstablishingRpc, ConnectAction::EstablishRpc),
                Err(e) => {
                    let mut m = concat5(
                        "failed to start ",
                        self.subsystem.as_str(),
                        " subsystem on ",
                        a,
                        ": ",
                    );
                    m.append(e.as_str());
                    self.go(ConnectPhase::Over, ConnectAction::Fail(m))
                },
            },
            (ConnectPhase::EstablishingRpc, ConnectEvent::RpcEstablished(r)) => match r {
                Ok(_) => self.go(ConnectPhase::Over, ConnectAction::Done),
                Err(e) => self.fail3(
                    "failed to establish gRPC channel over SSH to ",
                    a,
                    ": ",
                    e.as_str(),
                ),
            },
            _ => ConnectAction::Nothing,
        }
    }
}

/// How a gateway reports that the remote calls over a connection could not be set up.
pub fn rpc_failure(gateway_name: &str, error: &str) -> (r: String)
    ensures
        r@ == "failed to establish gRPC channel over SSH for "@ + gateway_name@ + ": "@ + error@,
{
    let mut m = concat3("failed to establish gRPC channel over SSH for ", gateway_name, ": ");
    m.append(error);
    m
}

/// Where a sequence of outcomes leads a connection, and the steps on the way.
pub open spec fn connect_run(rules: ConnectRules, events: Seq<ConnectEvent>) -> (
    ConnectPhase,
    Seq<ConnectActionView>,
)
    decreases events.len(),
{
    if events.len() == 0 {
        (ConnectPhase::Connecting, Seq::empty())
    } else {
        let (phase, actions) = connect_run(rules, events.drop_last());
        let (next, action) = connect_step(rules, phase, events.last());
        (next, actions.push(action))
    }
}

/// The event says that the other side accepted us.
pub open spec fn is_accepted(event: ConnectEvent) -> bool {
    match event {
        ConnectEvent::KeyAuthenticated(Ok(_)) => true,
        ConnectEvent::PasswordAuthenticated(Ok(_)) => true,
        _ => false,
    }
}

/// The phases behind authentication.
pub open spec fn is_authenticated(phase: ConnectPhase) -> bool {
    phase == ConnectPhase::OpeningChannel || phase == ConnectPhase::StartingSubsystem || phase
        == ConnectPhase::EstablishingRpc
}

/// No channel is opened and no connection is done before the other side accepted a key or a
/// password.
pub proof fn law_nothing_is_opened_unauthenticated(rules: ConnectRules, events: Seq<ConnectEvent>)
    ensures
        ({
            let (phase, actions) = connect_run(rules, events);
            &&& is_authenticated(phase) ==> exists|i: int|
                0 <= i < events.len() && is_accepted(#[trigger] events[i])
            &&& forall|k: int|
                0 <= k < actions.len() && (#[trigger] actions[k] is OpenChannel
                    || actions[k] is Done) ==> exists|i: int|
                    0 <= i < events.len() && is_accepted(#[trigger] events[i])
        }),
    decreases events.len(),
{
    if events.len() > 0 {
        let before = events.drop_last();
        let (phase, actions) = connect_run(rules, before);
        let (next, action) = connect_step(rules, phase, events.last());
        let all = actions.push(action);
        law_nothing_is_opened_unauthenticated(rules, before);
        let n = events.len() - 1;
        assert(events[n] == events.last());
        if exists|i: int| 0 <= i < before.len() && is_accepted(#[trigger] before[i]) {
            let i = choose|i: int| 0 <= i < before.len() && is_accepted(#[trigger] before[i]);
            assert(is_accepted(events[i]));
        }
        assert forall|k: int|
            0 <= k < all.len() && (#[trigger] all[k] is OpenChannel || all[k] is Done) implies exists|
            i: int,
        | 0 <= i < events.len() && is_accepted(#[trigger] events[i]) by {
            if k < actions.len() {
                assert(all[k] == actions[k]);
            }
        }
    }
}

// ---------------------------------------------------------------------------
// A node's connection to its hub
// ---------------------------------------------------------------------------
/// Where the connection of a node to its hub failed.
#[derive(Clone, Copy, Debug, PartialEq, Eq, Structural)]
pub enum NodeStage {
    ParseAddress,
    NormalizePaths,
    Connect,
    Authenticate,
    OpenChannel,
    StartSubsystem,
    ServerTask,
    Serve,
}

/// What is reported of a failed stage.
pub open spec fn stage_text(stage: NodeStage) -> Seq<char> {
    match stage {
        NodeStage::ParseAddress => "failed to parse server_address: "@,
        NodeStage::NormalizePaths => "failed to normalize paths: "@,
        NodeStage::Connect => "SSH connection failed: "@,
        NodeStage::Authenticate => "SSH auth error: "@,
        NodeStage::OpenChannel => "failed to open session channel: "@,
        NodeStage::StartSubsystem => "failed to start xho-reverse subsystem: "@,
        NodeStage::ServerTask => "server task panicked: "@,
        NodeStage::Serve => "gRPC server: "@,
    }
}

/// How a failure of a node's connection is reported.
pub fn node_failure(stage: NodeStage, error: &str) -> (r: String)
    ensures
        r@ == stage_text(stage) + error@,
{
    let mut m = (match stage {
        NodeStage::ParseAddress => "failed to parse server_address: ",
        NodeStage::NormalizePaths => "failed to normalize paths: ",
        NodeStage::Connect => "SSH connection failed: ",
        NodeStage::Authenticate => "SSH auth error: ",
        NodeStage::OpenChannel => "failed to open session channel: ",
        NodeStage::StartSubsystem => "failed to start xho-reverse subsystem: ",
        NodeStage::ServerTask => "server task panicked: ",
        NodeStage::Serve => "gRPC server: ",
    }).to_owned();
    m.append(error);
    m
}

/// What the configuration of a node says of its connection.
pub open spec fn node_planned(
    server_address: Seq<char>,
    identity_file: Seq<char>,
    known_hosts_path: Seq<char>,
    home: Option<Seq<char>>,
) -> Result<(auth::TargetView, Seq<char>), Seq<char>> {
    match auth::remote_target(server_address) {
        Err(e) => Err(stage_text(NodeStage::ParseAddress) + e),
        Ok(target) => match auth::normalized(
            Some(identity_file),
            Some(known_hosts_path),
            home,
            Seq::empty(),
        ) {
            Err(e) => Err(stage_text(NodeStage::NormalizePaths) + e),
            Ok((id, _)) => Ok((target, id)),
        },
    }
}

/// Plan the connection of a node to its hub.
pub fn plan_node(
    server_address: &str,
    identity_file: &str,
    known_hosts_path: &str,
    home: Option<&str>,
) -> (r: Result<ConnectPlan, String>)
    ensures
        ({
            let p = node_planned(
                server_address@,
                identity_file@,
                known_hosts_path@,
                text::opt_str(home),
            );
            match r {
                Ok(plan) => p == Ok::<(auth::TargetView, Seq<char>), Seq<char>>(
                    (plan.target@, plan.identity_file@),
                ),
                Err(e) => p == Err::<(auth::TargetView, Seq<char>), Seq<char>>(e@),
            }
        }),
{
    let target = match parse_remote_target(server_address) {
        Ok(t) => t,
        Err(e) => {
            return Err(node_failure(NodeStage::ParseAddress, e.as_str()));
        },
    };
    match normalize_paths(Some(identity_file), Some(known_hosts_path), home, "") {
        Ok((identity_file, _)) => Ok(ConnectPlan { target, identity_file }),
        Err(e) => Err(node_failure(NodeStage::NormalizePaths, e.as_str())),
    }
}

/// What came of the attempt to authenticate a node with its key.
pub enum KeyOutcome {
    /// The key could not be read.
    NoKey(String),
    /// The signature algorithms could not be asked for.
    NoAlgorithm(String),
    Failed(String),
    Refused,
    Accepted,
}

/// How the service of a node ended.
pub enum ServeOutcome {
    Closed,
    TaskBroken(String),
    Failed(String),
}

/// What happens to a node that keeps up a connection to its hub.
pub enum NodeEvent {
    Begin,
    Connected(Result<(), String>),
    Authenticated(KeyOutcome),
    ChannelOpened(Result<(), String>),
    SubsystemStarted(Result<(), String>),
    Served(ServeOutcome),
    /// The time between two connections has passed.
    Waited,
    /// The daemon stops while the node waits.
    Shutdown,
}

/// What a node does next.
pub enum NodeAction {
    Nothing,
    Connect,
    AuthenticateKey,
    OpenChannel,
    /// Ask for this subsystem.
    StartSubsystem(String),
    Serve,
    /// The connection is over, with an error or without. Wait, or stop with the daemon.
    Wait(Option<String>),
    Stop,
}

/// The mathematical counterpart of [`NodeAction`].
pub enum NodeActionView {
    Nothing,
    Connect,
    AuthenticateKey,
    OpenChannel,
    StartSubsystem(Seq<char>),
    Serve,
    Wait(Option<Seq<char>>),
    Stop,
}

impl View for NodeAction {
    type V = NodeActionView;

    open spec fn view(&self) -> NodeActionView {
        match self {
            NodeAction::Nothing => NodeActionView::Nothing,
            NodeAction::Connect => NodeActionView::Connect,
            NodeAction::AuthenticateKey => NodeActionView::AuthenticateKey,
            NodeAction::OpenChannel => NodeActionView::OpenChannel,
            NodeAction::StartSubsystem(s) => NodeActionView::StartSubsystem(s@),
            NodeAction::Serve => NodeActionView::Serve,
            NodeAction::Wait(e) => NodeActionView::Wait(text::opt(*e)),
            NodeAction::Stop => NodeActionView::Stop,
        }
    }
}

/// Where a node stands.
#[derive(Clone, Copy, Debug, PartialEq, Eq, Structural)]
pub enum NodePhase {
    Idle,
    Connecting,
    Authenticating,
    OpeningChannel,
    StartingSubsystem,
    Serving,
    Waiting,
    Over,
}

/// What a node goes by: its name, and where its hub is or why that is not known.
pub struct NodeRules {
    pub node_name: Seq<char>,
    pub plan: Result<(auth::TargetView, Seq<char>), Seq<char>>,
}

/// A connection that failed is followed by another one, some time later.
pub open spec fn node_fails(error: Seq<char>) -> (NodePhase, NodeActionView) {
    (NodePhase::Waiting, NodeActionView::Wait(Some(error)))
}

/// How a new connection begins.
pub open spec fn node_begins(rules: NodeRules) -> (NodePhase, NodeActionView) {
    match rules.plan {
        Ok(_) => (NodePhase::Connecting, NodeActionView::Connect),
        Err(e) => node_fails(e),
    }
}

/// What follows the attempt to authenticate with the key.
pub open spec fn node_authenticated(rules: NodeRules, outcome: KeyOutcome) -> (
    NodePhase,
    NodeActionView,
) {
    let user = match rules.plan {
        Ok((target, _)) => target.user,
        Err(_) => Seq::empty(),
    };
    let identity_file = match rules.plan {
        Ok((_, file)) => file,
        Err(_) => Seq::empty(),
    };
    match outcome {
        KeyOutcome::NoKey(e) => node_fails(
            "failed to load key "@ + identity_file + ": "@ + e@,
        ),
        KeyOutcome::NoAlgorithm(e) => node_fails(e@),
        KeyOutcome::Failed(e) => node_fails(stage_text(NodeStage::Authenticate) + e@),
        KeyOutcome::Refused => node_fails(
            "publickey authentication failed for "@ + user + " using "@ + identity_file,
        ),
        KeyOutcome::Accepted => (NodePhase::OpeningChannel, NodeActionView::OpenChannel),
    }
}

/// What an event leads to. An event that the phase does not wait for leads to nothing.
pub open spec fn node_step(rules: NodeRules, phase: NodePhase, event: NodeEvent) -> (
    NodePhase,
    NodeActionView,
) {
    match (phase, event) {
        (NodePhase::Idle, NodeEvent::Begin) => node_begins(rules),
        (NodePhase::Connecting, NodeEvent::Connected(r)) => match r {
            Ok(_) => (NodePhase::Authenticating, NodeActionView::AuthenticateKey),
            Err(e) => node_fails(stage_text(NodeStage::Connect) + e@),
        },
        (NodePhase::Authenticating, NodeEvent::Authenticated(outcome)) => node_authenticated(
            rules,
            outcome,
        ),
        (NodePhase::OpeningChannel, NodeEvent::ChannelOpened(r)) => match r {
            Ok(_) => (
                NodePhase::StartingSubsystem,
                NodeActionView::StartSubsystem(
                    reverse::REVERSE_SUBSYSTEM_NAME@ + ":"@ + rules.node_name,
                ),
            ),
            Err(e) => node_fails(stage_text(NodeStage::OpenChannel) + e@),
        },
        (NodePhase::StartingSubsystem, NodeEvent::SubsystemStarted(r)) => match r {
            Ok(_) => (NodePhase::Serving, NodeActionView::Serve),
            Err(e) => node_fails(stage_text(NodeStage::StartSubsystem) + e@),
        },
        (NodePhase::Serving, NodeEvent::Served(outcome)) => match outcome {
            ServeOutcome::Closed => (NodePhase::Waiting, NodeActionView::Wait(None)),
            ServeOutcome::TaskBroken(e) => node_fails(stage_text(NodeStage::ServerTask) + e@),
            ServeOutcome::Failed(e) => node_fails(stage_text(NodeStage::Serve) + e@),
        },
        (NodePhase::Waiting, NodeEvent::Waited) => node_begins(rules),
        (NodePhase::Waiting, NodeEvent::Shutdown) => (NodePhase::Over, NodeActionView::Stop),
        _ => (phase, NodeActionView::Nothing),
    }
}

/// A node that keeps up a connection to its hub.
pub struct NodeClient {
    node_name: String,
    plan: Result<ConnectPlan, String>,
    phase: NodePhase,
}

impl NodeClient {
    pub closed spec fn rules(&self) -> NodeRules {
        NodeRules {
            node_name: self.node_name@,
            plan: match self.plan {
                Ok(p) => Ok((p.target@, p.identity_file@)),
                Err(e) => Err(e@),
            },
        }
    }

    pub closed spec fn phase(&self) -> NodePhase {
        self.phase
    }

    /// A node that is not connected, by its configuration.
    pub fn new(
        node_name: String,
        server_address: &str,
        identity_file: &str,
        known_hosts_path: &str,
        home: Option<&str>,
    ) -> (r: Self)
        ensures
            r.rules() == (NodeRules {
                node_name: node_name@,
                plan: node_planned(
                    server_address@,
                    identity_file@,
                    known_hosts_path@,
                    text::opt_str(home),
                ),
            }),
            r.phase() == NodePhase::Idle,
    {
        NodeClient {
            node_name,
            plan: plan_node(server_address, identity_file, known_hosts_path, home),
            phase: NodePhase::Idle,
        }
    }

    /// Where the hub is and with which key it is reached, if that is known.
    pub fn plan(&self) -> (r: Option<&ConnectPlan>)
        ensures
            match self.rules().plan {
                Ok((target, file)) => r matches Some(p) && p.target@ == target
                    && p.identity_file@ == file,
                Err(_) => r is None,
            },
    {
        match &self.plan {
            Ok(p) => Some(p),
            Err(_) => None,
        }
    }

    fn fail(&mut self, error: String) -> (r: NodeAction)
        ensures
            final(self).rules() == old(self).rules(),
            (final(self).phase(), r@) == node_fails(error@),
    {
        self.phase = NodePhase::Waiting;
        NodeAction::Wait(Some(error))
    }

    fn fail_at(&mut self, stage: NodeStage, error: &str) -> (r: NodeAction)
        ensures
            final(self).rules() == old(self).rules(),
            (final(self).phase(), r@) == node_fails(stage_text(stage) + error@),
    {
        let e = node_failure(stage, error);
        self.fail(e)
    }

    fn go(&mut self, phase: NodePhase, action: NodeAction) -> (r: NodeAction)
        ensures
            final(self).rules() == old(self).rules(),
            final(self).phase() == phase,
            r == action,
    {
        self.phase = phase;
        action
    }

    fn begin(&mut self) -> (r: NodeAction)
        ensures
            final(self).rules() == old(self).rules(),
            (final(self).phase(), r@) == node_begins(old(self).rules()),
    {
        let known = match &self.plan {
            Ok(_) => None,
            Err(e) => Some(e.clone()),
        };
        match known {
            None => self.go(NodePhase::Connecting, NodeAction::Connect),
            Some(e) => self.fail(e),
        }
    }

    fn on_key(&mut self, outcome: KeyOutcome) -> (r: NodeAction)
        ensures
            final(self).rules() == old(self).rules(),
            (final(self).phase(), r@) == node_authenticated(old(self).rules(), outcome),
    {
        let none = String::new();
        assert(none@ =~= Seq::<char>::empty());
        let (user, identity_file) = match &self.plan {
            Ok(p) => (p.target.user.clone(), p.identity_file.clone()),
            Err(_) => (none.clone(), none),
        };
        match outcome {
            KeyOutcome::NoKey(e) => {
                let mut m = concat3("failed to load key ", identity_file.as_str(), ": ");
                m.append(e.as_str());
                self.fail(m)
            },
            KeyOutcome::NoAlgorithm(e) => self.fail(e),
            KeyOutcome::Failed(e) => self.fail_at(NodeStage::Authenticate, e.as_str()),
            KeyOutcome::Refused => {
                let mut m = concat3(
                    "publickey authentication failed for ",
                    user.as_str(),
                    " using ",
                );
                m.append(identity_file.as_str());
                self.fail(m)
            },
            KeyOutcome::Accepted => self.go(NodePhase::OpeningChannel, NodeAction::OpenChannel),
        }
    }

    /// Take one event.
    pub fn on_event(&mut self, event: NodeEvent) -> (r: NodeAction)
        ensures
            final(self).rules() == old(self).rules(),
            (final(self).phase(), r@) == node_step(old(self).rules(), old(self).phase(), event),
    {
        match (self.phase, event) {
            (NodePhase::Idle, NodeEvent::Begin) => self.begin(),
            (NodePhase::Connecting, NodeEvent::Connected(r)) => match r {
                Ok(_) => self.go(NodePhase::Authenticating, NodeAction::AuthenticateKey),
                Err(e) => self.fail_at(NodeStage::Connect, e.as_str()),
            },
            (NodePhase::Authenticating, NodeEvent::Authenticated(outcome)) => self.on_key(outcome),
            (NodePhase::OpeningChannel, NodeEvent::ChannelOpened(r)) => match r {
                Ok(_) => {
                    let subsystem = reverse_subsystem(self.node_name.as_str());
                    self.go(NodePhase::StartingSubsystem, NodeAction::StartSubsystem(subsystem))
                },
                Err(e) => self.fail_at(NodeStage::OpenChannel, e.as_str()),
            },
            (NodePhase::StartingSubsystem, NodeEvent::SubsystemStarted(r)) => match r {
                Ok(_) => self.go(NodePhase::Serving, NodeAction::Serve),
                Err(e) => self.fail_at(NodeStage::StartSubsystem, e.as_str()),
            },
            (NodePhase::Serving, NodeEvent::Served(outcome)) => match outcome {
                ServeOutcome::Closed => self.go(NodePhase::Waiting, NodeAction::Wait(None)),
                ServeOutcome::TaskBroken(e) => self.fail_at(NodeStage::ServerTask, e.as_str()),
                ServeOutcome::Failed(e) => self.fail_at(NodeStage::Serve, e.as_str()),
            },
            (NodePhase::Waiting, NodeEvent::Waited) => self.begin(),
            (NodePhase::Waiting, NodeEvent::Shutdown) => self.go(
                NodePhase::Over,
                NodeAction::Stop,
            ),
            _ => NodeAction::Nothing,
        }
    }
}

/// Where a sequence of events leads a node, and the actions on the way.
pub open spec fn node_run(rules: NodeRules, events: Seq<NodeEvent>) -> (
    NodePhase,
    Seq<NodeActionView>,
)
    decreases events.len(),
{
    if events.len() == 0 {
        (NodePhase::Idle, Seq::empty())
    } else {
        let (phase, actions) = node_run(rules, events.drop_last());
        let (next, action) = node_step(rules, phase, events.last());
        (next, actions.push(action))
    }
}

/// The hub accepted the key of the node by one of the events.
pub open spec fn node_was_accepted(events: Seq<NodeEvent>) -> bool {
    exists|i: int|
        0 <= i < events.len() && #[trigger] events[i] == NodeEvent::Authenticated(
            KeyOutcome::Accepted,
        )
}

/// The phases of a node behind authentication.
pub open spec fn node_is_in(phase: NodePhase) -> bool {
    phase == NodePhase::OpeningChannel || phase == NodePhase::StartingSubsystem || phase
        == NodePhase::Serving
}

/// A node serves its hub only once the hub accepted its key; and it keeps coming back: it stops
/// for nothing but the end of the daemon.
pub proof fn law_node_serves_its_hub(rules: NodeRules, events: Seq<NodeEvent>)
    ensures
        ({
            let (phase, actions) = node_run(rules, events);
            &&& node_is_in(phase) ==> node_was_accepted(events)
            &&& forall|k: int|
                0 <= k < actions.len() && ((#[trigger] actions[k]) is OpenChannel
                    || actions[k] is StartSubsystem || actions[k] is Serve) ==> node_was_accepted(
                    events,
                )
            &&& phase == NodePhase::Over ==> exists|i: int|
                0 <= i < events.len() && #[trigger] events[i] is Shutdown
        }),
    decreases events.len(),
{
    if events.len() > 0 {
        let before = events.drop_last();
        let (phase, actions) = node_run(rules, before);
        let (next, action) = node_step(rules, phase, events.last());
        let all = actions.push(action);
        law_node_serves_its_hub(rules, before);
        assert(events[events.len() - 1] == events.last());
        if node_was_accepted(before) {
            let i = choose|i: int|
                0 <= i < before.len() && #[trigger] before[i] == NodeEvent::Authenticated(
                    KeyOutcome::Accepted,
                );
            assert(events[i] == before[i]);
        }
        if phase == NodePhase::Over {
            let i = choose|i: int| 0 <= i < before.len() && #[trigger] before[i] is Shutdown;
            assert(events[i] == before[i]);
        }
        assert forall|k: int|
            0 <= k < all.len() && ((#[trigger] all[k]) is OpenChannel || all[k] is StartSubsystem
                || all[k] is Serve) implies node_was_accepted(events) by {
            if k < actions.len() {
                assert(all[k] == actions[k]);
            }
        }
    }
}

// ---------------------------------------------------------------------------
// How connections come up
// ---------------------------------------------------------------------------
/// A connection that nothing stops authenticates with the key, opens a channel, starts the
/// subsystem and calls over it, in this order.
pub proof fn law_accepted_keys_connect(rules: ConnectRules)
    ensures
        ({
            let (a, first) = connect_step(
                rules,
                ConnectPhase::Connecting,
                ConnectEvent::Connected(Ok(())),
            );
            let (b, second) = connect_step(rules, a, ConnectEvent::KeyAuthenticated(Ok(())));
            let (c, third) = connect_step(rules, b, ConnectEvent::ChannelOpened(Ok(())));
            let (d, fourth) = connect_step(rules, c, ConnectEvent::SubsystemStarted(Ok(())));
            let (_, fifth) = connect_step(rules, d, ConnectEvent::RpcEstablished(Ok(())));
            &&& first is AuthenticateKey
            &&& second is OpenChannel
            &&& third is StartSubsystem
            &&& fourth is EstablishRpc
            &&& fifth is Done
        }),
{
}

/// Where the key is refused, the user is asked for the password of the login, in secret, and
/// what they answer is tried. An accepted password goes on as an accepted key does.
pub proof fn law_refused_keys_ask_for_the_password(
    rules: ConnectRules,
    error: String,
    password: String,
)
    ensures
        ({
            let (a, _) = connect_step(
                rules,
                ConnectPhase::Connecting,
                ConnectEvent::Connected(Ok(())),
            );
            let (b, asked) = connect_step(rules, a, ConnectEvent::KeyAuthenticated(Err(error)));
            let (c, tried) = connect_step(rules, b, ConnectEvent::Prompted(Ok(password)));
            let accepted = connect_step(rules, c, ConnectEvent::PasswordAuthenticated(Ok(())));
            let target = rules.target;
            &&& asked == (ConnectActionView::Prompt {
                gateway_name: rules.gateway_name,
                message: "Password for "@ + target.user + "@"@ + target.host + ":"@ + text::dec(
                    target.port,
                ),
                secret: true,
            })
            &&& tried == ConnectActionView::AuthenticatePassword(password@)
            &&& accepted == connect_step(rules, a, ConnectEvent::KeyAuthenticated(Ok(())))
        }),
{
    let target = rules.target;
    assert("Password for "@ + login(target) =~= "Password for "@ + target.user + "@"@ + target.host
        + ":"@ + text::dec(target.port));
}

/// The connection failed, and the error is told.
pub open spec fn gives_up(step: (ConnectPhase, ConnectActionView), error: String) -> bool {
    step.0 == ConnectPhase::Over && (step.1 matches ConnectActionView::Fail(message)
        && text::ends(message, error@))
}

proof fn lemma_ends_with(a: Seq<char>, b: Seq<char>)
    ensures
        text::ends(a + b, b),
{
    assert((a + b).skip((a + b).len() - b.len()) =~= b);
}

/// Every other failure on the way ends the attempt, and the error is told.
pub proof fn law_failed_connections_tell_the_error(rules: ConnectRules, e: String)
    ensures
        gives_up(
            connect_step(rules, ConnectPhase::Connecting, ConnectEvent::Connected(Err(e))),
            e,
        ),
        gives_up(
            connect_step(rules, ConnectPhase::Prompting, ConnectEvent::Prompted(Err(e))),
            e,
        ),
        gives_up(
            connect_step(
                rules,
                ConnectPhase::AuthenticatingPassword,
                ConnectEvent::PasswordAuthenticated(Err(e)),
            ),
            e,
        ),
        gives_up(
            connect_step(rules, ConnectPhase::OpeningChannel, ConnectEvent::ChannelOpened(Err(e))),
            e,
        ),
        gives_up(
            connect_step(
                rules,
                ConnectPhase::StartingSubsystem,
                ConnectEvent::SubsystemStarted(Err(e)),
            ),
            e,
        ),
        gives_up(
            connect_step(
                rules,
                ConnectPhase::EstablishingRpc,
                ConnectEvent::RpcEstablished(Err(e)),
            ),
            e,
        ),
{
    let address = auth::address_of(rules.target.host, rules.target.port);
    let who = login(rules.target);
    lemma_ends_with("SSH connection to "@ + address + " failed: "@, e@);
    lemma_ends_with("AuthPrompter failed for "@ + who + ": "@, e@);
    lemma_ends_with("password auth failed for "@ + who + ": "@, e@);
    lemma_ends_with("failed to open session channel on "@ + address + ": "@, e@);
    lemma_ends_with(
        "failed to start "@ + rules.subsystem + " subsystem on "@ + address + ": "@,
        e@,
    );
    lemma_ends_with("failed to establish gRPC channel over SSH to "@ + address + ": "@, e@);
}

/// A remote daemon is reached at the address that was given, with the key at the path that was
/// given; an empty path stands for the usual one.
pub proof fn law_daemons_are_reached_as_planned(
    service: Seq<char>,
    gateway_name: Seq<char>,
    address: Seq<char>,
    identity_file: Seq<char>,
    known_hosts_path: Seq<char>,
    home: Option<Seq<char>>,
    default_known_hosts: Seq<char>,
)
    ensures
        ({
            let plan = planned(
                service,
                gateway_name,
                address,
                identity_file,
                known_hosts_path,
                home,
                default_known_hosts,
            );
            let paths = auth::normalized(
                if identity_file.len() > 0 {
                    Some(identity_file)
                } else {
                    None
                },
                if known_hosts_path.len() > 0 {
                    Some(known_hosts_path)
                } else {
                    None
                },
                home,
                default_known_hosts,
            );
            &&& plan is Ok == (auth::remote_target(address) is Ok && paths is Ok)
            &&& plan matches Ok((target, identity)) ==> {
                &&& auth::remote_target(address) == Ok::<auth::TargetView, Seq<char>>(target)
                &&& paths matches Ok((file, _)) && file == identity
            }
        }),
{
}

/// A node that nothing stops connects, authenticates, opens a channel, asks for the subsystem
/// under its own name and serves. When it is done it waits, and then connects again.
pub proof fn law_nodes_come_up_and_come_back(rules: NodeRules)
    requires
        rules.plan is Ok,
    ensures
        ({
            let (a, first) = node_step(rules, NodePhase::Idle, NodeEvent::Begin);
            let (b, second) = node_step(rules, a, NodeEvent::Connected(Ok(())));
            let (c, third) = node_step(rules, b, NodeEvent::Authenticated(KeyOutcome::Accepted));
            let (d, fourth) = node_step(rules, c, NodeEvent::ChannelOpened(Ok(())));
            let (e, fifth) = node_step(rules, d, NodeEvent::SubsystemStarted(Ok(())));
            let (f, sixth) = node_step(rules, e, NodeEvent::Served(ServeOutcome::Closed));
            &&& first is Connect
            &&& second is AuthenticateKey
            &&& third is OpenChannel
            &&& fourth == NodeActionView::StartSubsystem("xho-reverse:"@ + rules.node_name)
            &&& fifth is Serve
            &&& sixth == NodeActionView::Wait(None)
            &&& node_step(rules, f, NodeEvent::Waited) == (a, first)
            &&& node_step(rules, f, NodeEvent::Shutdown).1 is Stop
        }),
{
    reveal_strlit("xho-reverse");
    reveal_strlit("xho-reverse:");
    reveal_strlit(":");
    assert("xho-reverse"@ + ":"@ =~= "xho-reverse:"@);
}

/// The node waits for its next attempt, and the error is told.
pub open spec fn waits_after(step: (NodePhase, NodeActionView), error: Seq<char>) -> bool {
    step.0 == NodePhase::Waiting && (step.1 matches NodeActionView::Wait(Some(message))
        && text::ends(message, error))
}

/// A node that fails on the way tells the error, waits and begins again.
pub proof fn law_failed_nodes_wait_and_tell(rules: NodeRules, e: String)
    ensures
        rules.plan matches Err(why) ==> waits_after(
            node_step(rules, NodePhase::Idle, NodeEvent::Begin),
            why,
        ),
        waits_after(
            node_step(rules, NodePhase::Connecting, NodeEvent::Connected(Err(e))),
            e@,
        ),
        waits_after(
            node_step(
                rules,
                NodePhase::Authenticating,
                NodeEvent::Authenticated(KeyOutcome::NoKey(e)),
            ),
            e@,
        ),
        waits_after(
            node_step(
                rules,
                NodePhase::Authenticating,
                NodeEvent::Authenticated(KeyOutcome::NoAlgorithm(e)),
            ),
            e@,
        ),
        waits_after(
            node_step(
                rules,
                NodePhase::Authenticating,
                NodeEvent::Authenticated(KeyOutcome::Failed(e)),
            ),
            e@,
        ),
        rules.plan matches Ok((target, file)) ==> waits_after(
            node_step(
                rules,
                NodePhase::Authenticating,
                NodeEvent::Authenticated(KeyOutcome::Refused),
            ),
            target.user + " using "@ + file,
        ),
        waits_after(
            node_step(rules, NodePhase::OpeningChannel, NodeEvent::ChannelOpened(Err(e))),
            e@,
        ),
        waits_after(
            node_step(rules, NodePhase::StartingSubsystem, NodeEvent::SubsystemStarted(Err(e))),
            e@,
        ),
        waits_after(
            node_step(rules, NodePhase::Serving, NodeEvent::Served(ServeOutcome::TaskBroken(e))),
            e@,
        ),
        waits_after(
            node_step(rules, NodePhase::Serving, NodeEvent::Served(ServeOutcome::Failed(e))),
            e@,
        ),
{
    lemma_ends_with(stage_text(NodeStage::Connect), e@);
    lemma_ends_with(stage_text(NodeStage::Authenticate), e@);
    lemma_ends_with(stage_text(NodeStage::OpenChannel), e@);
    lemma_ends_with(stage_text(NodeStage::StartSubsystem), e@);
    lemma_ends_with(stage_text(NodeStage::ServerTask), e@);
    lemma_ends_with(stage_text(NodeStage::Serve), e@);
    let none = Seq::<char>::empty();
    lemma_ends_with(none, e@);
    assert(none + e@ =~= e@);
    match rules.plan {
        Ok((target, file)) => {
            lemma_ends_with("failed to load key "@ + file + ": "@, e@);
            let refused = "publickey authentication failed for "@;
            lemma_ends_with(refused, target.user + " using "@ + file);
            assert(refused + target.user + " using "@ + file =~= refused + (target.user
                + " using "@ + file));
        },
        Err(why) => {
            lemma_ends_with("failed to load key "@ + none + ": "@, e@);
            lemma_ends_with(none, why);
            assert(none + why =~= why);
        },
    }
}

/// A node reaches its hub at the address that was given, with the key at the path that was
/// given.
pub proof fn law_hubs_are_reached_as_planned(
    server_address: Seq<char>,
    identity_file: Seq<char>,
    known_hosts_path: Seq<char>,
    home: Option<Seq<char>>,
)
    ensures
        ({
            let plan = node_planned(server_address, identity_file, known_hosts_path, home);
            let paths = auth::normalized(
                Some(identity_file),
                Some(known_hosts_path),
                home,
                Seq::empty(),
            );
            &&& plan is Ok == (auth::remote_target(server_address) is Ok && paths is Ok)
            &&& plan matches Ok((target, identity)) ==> {
                &&& auth::remote_target(server_address) == Ok::<auth::TargetView, Seq<char>>(target)
                &&& paths matches Ok((file, _)) && file == identity
            }
        }),
{
}

/// What is stated of a [`ConnectAction`] is stated of its own parts: each kind is seen as that
/// kind, with all that it holds.
pub proof fn law_connect_action_is_seen_as_it_is(value: ConnectAction)
    ensures
        ({
            let seen = value@;
            match value {
                ConnectAction::Nothing => seen == ConnectActionView::Nothing,
                ConnectAction::AuthenticateKey => seen == ConnectActionView::AuthenticateKey,
                ConnectAction::Prompt(p) => seen == (ConnectActionView::Prompt {
                    gateway_name: p.gateway_name@,
                    message: p.message@,
                    secret: p.secret,
                }),
                ConnectAction::AuthenticatePassword(p) => seen == ConnectActionView::AuthenticatePassword(p@),
                ConnectAction::OpenChannel => seen == ConnectActionView::OpenChannel,
                ConnectAction::StartSubsystem => seen == ConnectActionView::StartSubsystem,
                ConnectAction::EstablishRpc => seen == ConnectActionView::EstablishRpc,
                ConnectAction::Done => seen == ConnectActionView::Done,
                ConnectAction::Fail(e) => seen == ConnectActionView::Fail(e@),
            }
        }),
{
}

/// What is stated of a [`NodeAction`] is stated of its own parts: each kind is seen as that
/// kind, with all that it holds.
pub proof fn law_node_action_is_seen_as_it_is(value: NodeAction)
    ensures
        ({
            let seen = value@;
            match value {
                NodeAction::Nothing => seen == NodeActionView::Nothing,
                NodeAction::Connect => seen == NodeActionView::Connect,
                NodeAction::AuthenticateKey => seen == NodeActionView::AuthenticateKey,
                NodeAction::OpenChannel => seen == NodeActionView::OpenChannel,
                NodeAction::StartSubsystem(s) => seen == NodeActionView::StartSubsystem(s@),
                NodeAction::Serve => seen == NodeActionView::Serve,
                NodeAction::Wait(e) => seen == NodeActionView::Wait(text::opt(e)),
                NodeAction::Stop => seen == NodeActionView::Stop,
            }
        }),
{
}

} // verus!
