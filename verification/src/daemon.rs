//! The daemon: its state, its start, and the answers to its control requests.
use crate::config;
use crate::config::{
    copy_text, has_name, AppConfig, GatewayConfig, JumpserverGatewayConfig, ServerConfigFile,
    ServerListRow, SshConfig, SshLookup, XhodGatewayConfig,
};
use crate::connections::ConnectionStatusSnapshot;
use crate::gateway;
use crate::gateway::{GatewayKind, Route};
use crate::lists;
use crate::resolver;
use crate::resolver::{ResolveResult, Resolver};
use crate::reverse;
use crate::reverse::{ReverseProxyNodeStatus, ReverseProxyRegistry};
use crate::text;
use crate::text::{
    concat3, concat5, contains_char, debug_list, decimal, is_blank, same, starts_with, trim,
};
use vstd::prelude::*;

verus! {

// ---------------------------------------------------------------------------
// Origin
// ---------------------------------------------------------------------------
/// Who started the daemon.
#[derive(Clone, Copy, Debug, PartialEq, Eq, Structural)]
pub enum DaemonOrigin {
    CliSpawned,
    External,
}

/// The name of an origin.
pub open spec fn origin_name(origin: DaemonOrigin) -> Seq<char> {
    match origin {
        DaemonOrigin::CliSpawned => "cli_spawned"@,
        DaemonOrigin::External => "external"@,
    }
}

impl DaemonOrigin {
    pub fn as_str(self) -> (r: &'static str)
        ensures
            r@ == origin_name(self),
    {
        match self {
            DaemonOrigin::CliSpawned => "cli_spawned",
            DaemonOrigin::External => "external",
        }
    }

    /// Whether the command line may stop and restart the daemon.
    pub fn cli_controllable(self) -> (r: bool)
        ensures
            r == (self == DaemonOrigin::CliSpawned),
    {
        match self {
            DaemonOrigin::CliSpawned => true,
            DaemonOrigin::External => false,
        }
    }
}

/// What the command line started the daemon with.
#[derive(Debug)]
pub struct CliStartOptions {
    pub config_path: Option<String>,
    pub log_level: Option<String>,
}

impl Default for CliStartOptions {
    fn default() -> (r: Self)
        ensures
            r.config_path is None,
            r.log_level is None,
    {
        CliStartOptions { config_path: None, log_level: None }
    }
}

/// Whether a request to stop the daemon is followed.
pub fn shutdown_daemon(origin: DaemonOrigin) -> (r: Result<(), String>)
    ensures
        r is Ok <==> origin == DaemonOrigin::CliSpawned,
        r matches Err(e) ==> e@
            == "daemon is externally managed and cannot be stopped/restarted by CLI"@,
{
    if origin.cli_controllable() {
        Ok(())
    } else {
        Err("daemon is externally managed and cannot be stopped/restarted by CLI".to_owned())
    }
}

// ---------------------------------------------------------------------------
// State
// ---------------------------------------------------------------------------
/// The daemon's state. A gateway is whatever handle reaches it.
pub struct DaemonState<G> {
    pub config: AppConfig,
    /// All gateways in the order of their configuration; `local` is the first.
    pub gateways: Vec<(String, G)>,
    pub origin: DaemonOrigin,
    pub cli_start_options: CliStartOptions,
    /// The nodes that are connected to this daemon.
    pub registry: ReverseProxyRegistry<G>,
}

/// The names of the gateways.
pub open spec fn names_of<G>(gateways: Seq<(String, G)>) -> Seq<Seq<char>> {
    Seq::new(gateways.len(), |i: int| gateways[i].0@)
}

/// The index of the first gateway of a name; the number of gateways if there is none.
pub open spec fn gateway_index<G>(gateways: Seq<(String, G)>, name: Seq<char>) -> int
    decreases gateways.len(),
{
    if gateways.len() == 0 || gateways[0].0@ == name {
        0
    } else {
        1 + gateway_index(gateways.skip(1), name)
    }
}

proof fn lemma_gateway_index<G>(gateways: Seq<(String, G)>, name: Seq<char>, i: int)
    requires
        0 <= i <= gateways.len(),
        forall|j: int| 0 <= j < i ==> (#[trigger] gateways[j]).0@ != name,
        i < gateways.len() ==> gateways[i].0@ == name,
    ensures
        gateway_index(gateways, name) == i,
    decreases i,
{
    if i > 0 {
        assert(gateways[0].0@ != name);
        let rest = gateways.skip(1);
        assert forall|j: int| 0 <= j < i - 1 implies (#[trigger] rest[j]).0@ != name by {
            assert(rest[j] == gateways[j + 1]);
        }
        if i < gateways.len() {
            assert(rest[i - 1] == gateways[i]);
        }
        lemma_gateway_index(rest, name, i - 1);
    }
}

impl<G> DaemonState<G> {
    /// Find a configured gateway by name.
    pub fn find_gateway(&self, name: &str) -> (r: Option<&G>)
        ensures
            ({
                let n = gateway_index(self.gateways@, name@);
                &&& 0 <= n <= self.gateways@.len()
                &&& match r {
                    Some(g) => n < self.gateways@.len() && *g == self.gateways@[n].1
                        && self.gateways@[n].0@ == name@,
                    None => n == self.gateways@.len() && !names_of(self.gateways@).contains(name@),
                }
            }),
    {
        let mut i: usize = 0;
        while i < self.gateways.len() && !same(self.gateways[i].0.as_str(), name)
            invariant
                i <= self.gateways.len(),
                forall|j: int| 0 <= j < i ==> (#[trigger] self.gateways@[j]).0@ != name@,
            decreases self.gateways.len() - i,
        {
            i += 1;
        }
        proof {
            lemma_gateway_index(self.gateways@, name@, i as int);
        }
        if i < self.gateways.len() {
            Some(&self.gateways[i].1)
        } else {
            proof {
                if names_of(self.gateways@).contains(name@) {
                    let j = choose|j: int|
                        0 <= j < names_of(self.gateways@).len() && names_of(self.gateways@)[j]
                            == name@;
                    assert(self.gateways@[j].0@ == name@);
                }
            }
            None
        }
    }

    /// Find a gateway by name, among the configured ones first, then among the nodes.
    pub fn find_gateway_any(&self, name: &str) -> (r: Option<&G>)
        ensures
            ({
                let n = gateway_index(self.gateways@, name@);
                match r {
                    Some(g) => if n < self.gateways@.len() {
                        *g == self.gateways@[n].1
                    } else {
                        self.registry@.dom().contains(name@) && *g == self.registry@[name@].0
                    },
                    None => n >= self.gateways@.len() && !self.registry@.dom().contains(name@),
                }
            }),
    {
        match self.find_gateway(name) {
            Some(g) => Some(g),
            None => self.registry.get(name),
        }
    }

    fn static_names(&self) -> (r: Vec<String>)
        ensures
            text::texts(r@) == names_of(self.gateways@),
    {
        let mut r: Vec<String> = Vec::new();
        let mut i: usize = 0;
        while i < self.gateways.len()
            invariant
                i <= self.gateways.len(),
                r@.len() == i,
                forall|j: int| 0 <= j < i ==> (#[trigger] r@[j])@ == self.gateways@[j].0@,
            decreases self.gateways.len() - i,
        {
            r.push(self.gateways[i].0.clone());
            i += 1;
        }
        assert(text::texts(r@) =~= names_of(self.gateways@));
        r
    }

    /// The names of all gateways: the configured ones in their order, then the nodes.
    pub fn all_gateway_names(&self) -> (r: Vec<String>)
        requires
            self.registry.wf(),
        ensures
            exists|nodes: Seq<Seq<char>>| #[trigger]
                reverse::lists_keys(nodes, self.registry@) && text::texts(r@) == names_of(
                    self.gateways@,
                ) + nodes,
    {
        let mut r = self.static_names();
        let mut nodes = self.registry.list_names();
        let ghost listed = text::texts(nodes@);
        let ghost first = r@;
        let ghost second = nodes@;
        r.append(&mut nodes);
        assert(text::texts(r@) =~= text::texts(first) + text::texts(second));
        assert(reverse::lists_keys(listed, self.registry@));
        r
    }

    /// Take over a configuration that was read again. One that could not be read or whose
    /// gateways are not valid changes nothing. Gateways that run already stay as they are.
    pub fn reload_config(&mut self, loaded: Option<AppConfig>, valid: bool)
        ensures
            final(self).gateways == old(self).gateways,
            final(self).origin == old(self).origin,
            final(self).cli_start_options == old(self).cli_start_options,
            final(self).registry == old(self).registry,
            final(self).config == match loaded {
                Some(c) => if valid {
                    c
                } else {
                    old(self).config
                },
                None => old(self).config,
            },
    {
        if let Some(c) = loaded {
            if valid {
                self.config = c;
            }
        }
    }
}

// ---------------------------------------------------------------------------
// Resolution
// ---------------------------------------------------------------------------
/// How a target is resolved.
pub enum ResolvePlan {
    /// It is the name of a gateway: the machine behind it is meant.
    Gateway(Route),
    /// It names its gateway; the list of servers is not needed.
    Qualified,
    /// It is looked up in the merged list of servers.
    Merged,
}

/// The target names a gateway that is not the local one.
pub open spec fn is_gateway_name(
    target: Seq<char>,
    static_names: Seq<Seq<char>>,
    dynamic_names: Seq<Seq<char>>,
) -> bool {
    (static_names.contains(target) || dynamic_names.contains(target)) && target != "local"@
}

/// The target is written with its gateway in front.
pub open spec fn is_qualified(target: Seq<char>) -> bool {
    target.contains(':') && !text::begins(target, "["@)
}

/// Choose how a target is resolved.
pub fn resolve_plan(target: &str, static_names: &[String], dynamic_names: &[String]) -> (r:
    ResolvePlan)
    ensures
        if is_gateway_name(target@, text::texts(static_names@), text::texts(dynamic_names@)) {
            r matches ResolvePlan::Gateway(route) && route@ == (gateway::RouteView {
                gateway: target@,
                target: "_self"@,
            })
        } else if is_qualified(target@) {
            r is Qualified
        } else {
            r is Merged
        },
{
    let known = has_name(static_names, target) || has_name(dynamic_names, target);
    if known && !same(target, "local") {
        return ResolvePlan::Gateway(
            Route { gateway_name: target.to_owned(), end_target: "_self".to_owned() },
        );
    }
    if contains_char(target, ':') && !starts_with(target, "[") {
        ResolvePlan::Qualified
    } else {
        ResolvePlan::Merged
    }
}

/// What a target resolves to. The rows count only where the plan asks for them.
pub open spec fn resolved_target(
    target: Seq<char>,
    static_names: Seq<Seq<char>>,
    model: resolver::ResolverModel,
) -> Result<resolver::Resolved, Seq<char>> {
    if is_gateway_name(target, static_names, model.dynamic) {
        Ok(
            resolver::Resolved {
                routes: seq![gateway::RouteView { gateway: target, target: "_self"@ }],
                warning: None,
            },
        )
    } else if is_qualified(target) {
        resolver::ResolverModel { rows: Seq::empty(), ..model }.resolve(target)
    } else {
        model.resolve(target)
    }
}

/// Resolve a target.
pub fn resolve_target_with_merged_view(
    target: &str,
    static_names: &[String],
    dynamic_names: &[String],
    config: &AppConfig,
    server_config: &ServerConfigFile,
    unresolved: &[String],
    ssh: &SshLookup,
    merged_rows: &[ServerListRow],
) -> (r: Result<ResolveResult, String>)
    ensures
        ({
            let model = resolver::ResolverModel {
                dynamic: text::texts(dynamic_names@),
                unresolved: text::texts(unresolved@),
                ssh: resolver::lookup_view(*ssh),
                ..resolver::resolver_model(
                    *config,
                    *server_config,
                    config.gateways@,
                    merged_rows@,
                )
            };
            match r {
                Ok(result) => resolved_target(target@, text::texts(static_names@), model) == Ok::<
                    resolver::Resolved,
                    Seq<char>,
                >(result.resolved()),
                Err(e) => resolved_target(target@, text::texts(static_names@), model) == Err::<
                    resolver::Resolved,
                    Seq<char>,
                >(e@),
            }
        }),
{
    match resolve_plan(target, static_names, dynamic_names) {
        ResolvePlan::Gateway(route) => {
            let mut routes: Vec<Route> = Vec::new();
            routes.push(route);
            assert(gateway::route_views(routes@) =~= seq![route@]);
            Ok(ResolveResult { routes, warning: None })
        },
        ResolvePlan::Qualified => Resolver::new(
            config,
            server_config,
            config.gateways.as_slice(),
        ).with_dynamic_gateways(dynamic_names).with_unresolved_servers(unresolved).with_ssh_lookup(
            ssh,
        ).resolve_with_warning(target),
        ResolvePlan::Merged => Resolver::with_merged_view(
            config,
            server_config,
            config.gateways.as_slice(),
            merged_rows,
        ).with_dynamic_gateways(dynamic_names).with_unresolved_servers(unresolved).with_ssh_lookup(
            ssh,
        ).resolve_with_warning(target),
    }
}

// ---------------------------------------------------------------------------
// Start
// ---------------------------------------------------------------------------
/// A gateway to be built, with all that it is built from. It is not connected yet.
#[derive(Debug)]
pub enum PlannedGateway {
    /// Reaches the servers of the server configuration itself.
    Direct {
        name: String,
        server_config_path: String,
        max_connections_per_address: usize,
        max_idle_time: u64,
    },
    /// Another daemon.
    Xhod {
        name: String,
        address: String,
        identity_file: String,
        known_hosts_path: String,
        max_idle_time: u64,
    },
    /// A bastion.
    Jumpserver { fields: JumpserverGatewayConfig, max_idle_time: u64 },
    /// This machine itself.
    Localhost { shell: Option<String>, user: Option<String>, sftp_server_path: Option<String> },
}

/// The mathematical counterpart of [`PlannedGateway`].
pub enum PlannedView {
    Direct {
        name: Seq<char>,
        server_config_path: Seq<char>,
        max_connections_per_address: usize,
        max_idle_time: u64,
    },
    Xhod {
        name: Seq<char>,
        address: Seq<char>,
        identity_file: Seq<char>,
        known_hosts_path: Seq<char>,
        max_idle_time: u64,
    },
    Jumpserver { fields: config::JumpserverView, max_idle_time: u64 },
    Localhost {
        shell: Option<Seq<char>>,
        user: Option<Seq<char>>,
        sftp_server_path: Option<Seq<char>>,
    },
}

impl View for PlannedGateway {
    type V = PlannedView;

    open spec fn view(&self) -> PlannedView {
        match self {
            PlannedGateway::Direct {
                name,
                server_config_path,
                max_connections_per_address,
                max_idle_time,
            } => PlannedView::Direct {
                name: name@,
                server_config_path: server_config_path@,
                max_connections_per_address: *max_connections_per_address,
                max_idle_time: *max_idle_time,
            },
            PlannedGateway::Xhod {
                name,
                address,
                identity_file,
                known_hosts_path,
                max_idle_time,
            } => PlannedView::Xhod {
                name: name@,
                address: address@,
                identity_file: identity_file@,
                known_hosts_path: known_hosts_path@,
                max_idle_time: *max_idle_time,
            },
            PlannedGateway::Jumpserver { fields, max_idle_time } => PlannedView::Jumpserver {
                fields: fields@,
                max_idle_time: *max_idle_time,
            },
            PlannedGateway::Localhost { shell, user, sftp_server_path } => PlannedView::Localhost {
                shell: text::opt(*shell),
                user: text::opt(*user),
                sftp_server_path: text::opt(*sftp_server_path),
            },
        }
    }
}

impl PlannedView {
    /// The name that a gateway is found by.
    pub open spec fn name(self) -> Seq<char> {
        match self {
            PlannedView::Direct { name, .. } => name,
            PlannedView::Xhod { name, .. } => name,
            PlannedView::Jumpserver { fields, .. } => fields.name,
            PlannedView::Localhost { .. } => "_self"@,
        }
    }

    pub open spec fn kind(self) -> GatewayKind {
        match self {
            PlannedView::Direct { .. } => GatewayKind::Direct,
            PlannedView::Xhod { .. } => GatewayKind::Xhod,
            PlannedView::Jumpserver { .. } => GatewayKind::Jumpserver,
            PlannedView::Localhost { .. } => GatewayKind::Localhost,
        }
    }
}

impl PlannedGateway {
    pub fn name(&self) -> (r: &str)
        ensures
            r@ == self@.name(),
    {
        match self {
            PlannedGateway::Direct { name, .. } => name.as_str(),
            PlannedGateway::Xhod { name, .. } => name.as_str(),
            PlannedGateway::Jumpserver { fields, .. } => fields.name.as_str(),
            PlannedGateway::Localhost { .. } => "_self",
        }
    }

    pub fn kind(&self) -> (r: GatewayKind)
        ensures
            r == self@.kind(),
    {
        match self {
            PlannedGateway::Direct { .. } => GatewayKind::Direct,
            PlannedGateway::Xhod { .. } => GatewayKind::Xhod,
            PlannedGateway::Jumpserver { .. } => GatewayKind::Jumpserver,
            PlannedGateway::Localhost { .. } => GatewayKind::Localhost,
        }
    }
}

/// The kind of a configured gateway.
pub open spec fn config_kind(g: GatewayConfig) -> GatewayKind {
    match g {
        GatewayConfig::Xhod(_) => GatewayKind::Xhod,
        GatewayConfig::Jumpserver(_) => GatewayKind::Jumpserver,
        GatewayConfig::Direct(_) => GatewayKind::Direct,
    }
}

fn kind_of(g: &GatewayConfig) -> (r: GatewayKind)
    ensures
        r == config_kind(*g),
{
    match g {
        GatewayConfig::Xhod(_) => GatewayKind::Xhod,
        GatewayConfig::Jumpserver(_) => GatewayKind::Jumpserver,
        GatewayConfig::Direct(_) => GatewayKind::Direct,
    }
}

/// A gateway of that name that reaches the configured servers itself.
pub open spec fn planned_direct(ssh: SshConfig, server_config_path: Seq<char>, name: Seq<char>) ->
    PlannedView {
    PlannedView::Direct {
        name,
        server_config_path,
        max_connections_per_address: ssh.max_connections_per_ip,
        max_idle_time: ssh.max_idle_time,
    }
}

/// The gateway that an entry of the configuration stands for.
pub open spec fn planned(ssh: SshConfig, server_config_path: Seq<char>, g: GatewayConfig) ->
    PlannedView {
    match g {
        GatewayConfig::Xhod(c) => PlannedView::Xhod {
            name: c.name@,
            address: c.address@,
            identity_file: c.identity_file@,
            known_hosts_path: c.known_hosts_path@,
            max_idle_time: ssh.max_idle_time,
        },
        GatewayConfig::Jumpserver(c) => PlannedView::Jumpserver {
            fields: c@,
            max_idle_time: ssh.max_idle_time,
        },
        GatewayConfig::Direct(c) => planned_direct(ssh, server_config_path, c.name@),
    }
}

/// The gateways that a configuration stands for: the local one, then each configured one.
pub open spec fn planned_gateways(
    ssh: SshConfig,
    server_config_path: Seq<char>,
    gateways: Seq<GatewayConfig>,
) -> Seq<PlannedView> {
    seq![planned_direct(ssh, server_config_path, "local"@)] + Seq::new(
        gateways.len(),
        |i: int| planned(ssh, server_config_path, gateways[i]),
    )
}

fn plan_direct(ssh: &SshConfig, server_config_path: &str, name: &str) -> (r: PlannedGateway)
    ensures
        r@ == planned_direct(*ssh, server_config_path@, name@),
{
    PlannedGateway::Direct {
        name: name.to_owned(),
        server_config_path: server_config_path.to_owned(),
        max_connections_per_address: ssh.max_connections_per_ip,
        max_idle_time: ssh.max_idle_time,
    }
}

fn plan_gateway(ssh: &SshConfig, server_config_path: &str, g: &GatewayConfig) -> (r: PlannedGateway)
    ensures
        r@ == planned(*ssh, server_config_path@, *g),
{
    match g {
        GatewayConfig::Xhod(c) => PlannedGateway::Xhod {
            name: c.name.clone(),
            address: c.address.clone(),
            identity_file: c.identity_file.clone(),
            known_hosts_path: c.known_hosts_path.clone(),
            max_idle_time: ssh.max_idle_time,
        },
        GatewayConfig::Jumpserver(c) => PlannedGateway::Jumpserver {
            fields: c.clone(),
            max_idle_time: ssh.max_idle_time,
        },
        GatewayConfig::Direct(c) => plan_direct(ssh, server_config_path, c.name.as_str()),
    }
}

/// Plan all gateways of a configuration. None is connected. The limits are those of `ssh`: the
/// active settings, or the default ones while those are being changed.
#[verifier::loop_isolation(false)]
pub fn build_gateways(ssh: &SshConfig, server_config_path: &str, gateways: &[GatewayConfig]) -> (r:
    Vec<PlannedGateway>)
    ensures
        lists::views(r@) == planned_gateways(*ssh, server_config_path@, gateways@),
{
    let mut r: Vec<PlannedGateway> = Vec::new();
    r.push(plan_direct(ssh, server_config_path, "local"));
    let mut i: usize = 0;
    while i < gateways.len()
        invariant
            i <= gateways.len(),
            r@.len() == i + 1,
            r@[0]@ == planned_direct(*ssh, server_config_path@, "local"@),
            forall|j: int|
                1 <= j <= i ==> (#[trigger] r@[j])@ == planned(
                    *ssh,
                    server_config_path@,
                    gateways@[j - 1],
                ),
        decreases gateways.len() - i,
    {
        r.push(plan_gateway(ssh, server_config_path, &gateways[i]));
        i += 1;
    }
    assert(lists::views(r@) =~= planned_gateways(*ssh, server_config_path@, gateways@));
    r
}

/// A step of the start.
#[derive(Debug)]
pub enum StartupStep {
    /// Create the directory of the local socket, and remove a socket that was left there.
    PrepareSocket(String),
    /// Create the directories of the remote listener's files, and its host key if there is none.
    PrepareRemote { host_key_path: String, authorized_keys_path: String },
    BindRemote(String),
    /// Bind the local socket and hand its connections on.
    BindLocal(String),
    /// Load the host keys and hand the connections of the remote listener on.
    ServeRemote { host_key_path: String },
    /// Bind the transparent proxy, load its host keys and serve it.
    ServeProxy { listen_addr: String, host_key_path: String, authorized_keys_path: String },
    /// Prune idle connections from time to time.
    SpawnReaper,
    /// Connect to a hub as a node.
    SpawnReverseClient,
    /// Read the configuration again on each hangup signal.
    WatchHangup,
    /// Serve requests until the daemon is to stop.
    ServeRpc,
    /// Remove the local socket.
    RemoveSocket(String),
}

/// The mathematical counterpart of [`StartupStep`].
pub enum StepView {
    PrepareSocket(Seq<char>),
    PrepareRemote(Seq<char>, Seq<char>),
    BindRemote(Seq<char>),
    BindLocal(Seq<char>),
    ServeRemote(Seq<char>),
    ServeProxy(Seq<char>, Seq<char>, Seq<char>),
    SpawnReaper,
    SpawnReverseClient,
    WatchHangup,
    ServeRpc,
    RemoveSocket(Seq<char>),
}

impl View for StartupStep {
    type V = StepView;

    open spec fn view(&self) -> StepView {
        match self {
            StartupStep::PrepareSocket(p) => StepView::PrepareSocket(p@),
            StartupStep::PrepareRemote { host_key_path, authorized_keys_path } => {
                StepView::PrepareRemote(host_key_path@, authorized_keys_path@)
            },
            StartupStep::BindRemote(a) => StepView::BindRemote(a@),
            StartupStep::BindLocal(p) => StepView::BindLocal(p@),
            StartupStep::ServeRemote { host_key_path } => StepView::ServeRemote(host_key_path@),
            StartupStep::ServeProxy { listen_addr, host_key_path, authorized_keys_path } => {
                StepView::ServeProxy(listen_addr@, host_key_path@, authorized_keys_path@)
            },
            StartupStep::SpawnReaper => StepView::SpawnReaper,
            StartupStep::SpawnReverseClient => StepView::SpawnReverseClient,
            StartupStep::WatchHangup => StepView::WatchHangup,
            StartupStep::ServeRpc => StepView::ServeRpc,
            StartupStep::RemoveSocket(p) => StepView::RemoveSocket(p@),
        }
    }
}

/// Some steps if a condition holds.
pub open spec fn steps_if(condition: bool, steps: Seq<StepView>) -> Seq<StepView> {
    if condition {
        steps
    } else {
        Seq::empty()
    }
}

/// The steps of a start, in order. The address of the remote listener is bound before anything
/// is served, and the local socket is gone behind the last one.
pub open spec fn startup_steps(c: AppConfig) -> Seq<StepView> {
    let local = c.server.local;
    let remote = c.server.remote;
    let proxy = c.server.proxy;
    steps_if(local.enable, seq![StepView::PrepareSocket(local.socket_path@)]) + steps_if(
        remote.enable,
        seq![
            StepView::PrepareRemote(remote.host_key_path@, remote.authorized_keys_path@),
            StepView::BindRemote(remote.listen_addr@),
        ],
    ) + steps_if(local.enable, seq![StepView::BindLocal(local.socket_path@)]) + steps_if(
        remote.enable,
        seq![StepView::ServeRemote(remote.host_key_path@)],
    ) + steps_if(
        proxy.enable,
        seq![
            StepView::ServeProxy(
                proxy.listen_addr@,
                proxy.host_key_path@,
                proxy.authorized_keys_path@,
            ),
        ],
    ) + seq![StepView::SpawnReaper] + steps_if(
        c.reverse_proxy.enable,
        seq![StepView::SpawnReverseClient],
    ) + seq![StepView::WatchHangup, StepView::ServeRpc] + steps_if(
        local.enable,
        seq![StepView::RemoveSocket(local.socket_path@)],
    )
}

/// What a start does.
#[derive(Debug)]
pub struct StartupPlan {
    pub log_level: String,
    pub gateways: Vec<PlannedGateway>,
    pub steps: Vec<StartupStep>,
}

/// This machine is reachable as `_self`: nodes may be let in, or the proxy may lead here.
pub open spec fn serves_self(config: AppConfig) -> bool {
    (config.reverse_proxy.enable && config.reverse_proxy.allow_host_access)
        || config.server.proxy.enable
}

/// The gateway to this machine.
pub open spec fn planned_self(config: AppConfig) -> PlannedView {
    PlannedView::Localhost {
        shell: text::opt(config.reverse_proxy.shell),
        user: text::opt(config.reverse_proxy.user),
        sftp_server_path: text::opt(config.server.proxy.sftp_server_path),
    }
}

fn plan_steps(config: &AppConfig) -> (r: Vec<StartupStep>)
    ensures
        lists::views(r@) == startup_steps(*config),
{
    let local = &config.server.local;
    let remote = &config.server.remote;
    let proxy = &config.server.proxy;
    let mut r: Vec<StartupStep> = Vec::new();
    if local.enable {
        r.push(StartupStep::PrepareSocket(local.socket_path.clone()));
    }
    if remote.enable {
        r.push(
            StartupStep::PrepareRemote {
                host_key_path: remote.host_key_path.clone(),
                authorized_keys_path: remote.authorized_keys_path.clone(),
            },
        );
        r.push(StartupStep::BindRemote(remote.listen_addr.clone()));
    }
    if local.enable {
        r.push(StartupStep::BindLocal(local.socket_path.clone()));
    }
    if remote.enable {
        r.push(StartupStep::ServeRemote { host_key_path: remote.host_key_path.clone() });
    }
    if proxy.enable {
        r.push(
            StartupStep::ServeProxy {
                listen_addr: proxy.listen_addr.clone(),
                host_key_path: proxy.host_key_path.clone(),
                authorized_keys_path: proxy.authorized_keys_path.clone(),
            },
        );
    }
    r.push(StartupStep::SpawnReaper);
    if config.reverse_proxy.enable {
        r.push(StartupStep::SpawnReverseClient);
    }
    r.push(StartupStep::WatchHangup);
    r.push(StartupStep::ServeRpc);
    if local.enable {
        r.push(StartupStep::RemoveSocket(local.socket_path.clone()));
    }
    assert(lists::views(r@) =~= startup_steps(*config));
    r
}

/// Plan the start of the daemon.
pub fn startup_plan(config: &AppConfig, log_level_override: Option<String>) -> (r: StartupPlan)
    ensures
        r.log_level@ == match log_level_override {
            Some(level) => level@,
            None => config.server.log_level@,
        },
        lists::views(r.gateways@) == planned_gateways(
            config.ssh,
            config.ssh.server_config_path@,
            config.gateways@,
        ) + if serves_self(*config) {
            seq![planned_self(*config)]
        } else {
            seq![]
        },
        lists::views(r.steps@) == startup_steps(*config),
{
    let mut gateways = build_gateways(
        &config.ssh,
        config.ssh.server_config_path.as_str(),
        config.gateways.as_slice(),
    );
    let ghost before = lists::views(gateways@);
    let own = (config.reverse_proxy.enable && config.reverse_proxy.allow_host_access)
        || config.server.proxy.enable;
    if own {
        gateways.push(
            PlannedGateway::Localhost {
                shell: copy_text(&config.reverse_proxy.shell),
                user: copy_text(&config.reverse_proxy.user),
                sftp_server_path: copy_text(&config.server.proxy.sftp_server_path),
            },
        );
        assert(lists::views(gateways@) =~= before + seq![planned_self(*config)]);
    } else {
        assert(before + Seq::<PlannedView>::empty() =~= before);
    }
    StartupPlan {
        log_level: match log_level_override {
            Some(level) => level,
            None => config.server.log_level.clone(),
        },
        gateways,
        steps: plan_steps(config),
    }
}

/// Why the start fails if a step does, or none if the daemon goes on without it: only the
/// proxy and the removal of the socket can be done without.
pub open spec fn step_failure(step: StepView, error: Seq<char>) -> Option<Seq<char>> {
    match step {
        StepView::BindRemote(addr) => Some("failed to bind "@ + addr),
        StepView::BindLocal(path) => Some("failed to bind "@ + path),
        StepView::ServeProxy(_, _, _) => None,
        StepView::RemoveSocket(_) => None,
        _ => Some(error),
    }
}

/// What the failure of a step comes to.
pub fn after_failed_step(step: &StartupStep, error: &str) -> (r: Option<String>)
    ensures
        text::opt(r) == step_failure(step@, error@),
{
    match step {
        StartupStep::BindRemote(addr) => {
            let mut e = "failed to bind ".to_owned();
            e.append(addr.as_str());
            Some(e)
        },
        StartupStep::BindLocal(path) => {
            let mut e = "failed to bind ".to_owned();
            e.append(path.as_str());
            Some(e)
        },
        StartupStep::ServeProxy { .. } => None,
        StartupStep::RemoveSocket(_) => None,
        _ => Some(error.to_owned()),
    }
}

// ---------------------------------------------------------------------------
// Status
// ---------------------------------------------------------------------------
/// A gateway as the daemon reports it.
#[derive(Debug)]
pub struct GatewayStatus {
    pub name: String,
    pub kind: String,
    pub address: String,
}

/// The mathematical counterpart of [`GatewayStatus`].
#[verifier::ext_equal]
pub struct GatewayStatusView {
    pub name: Seq<char>,
    pub kind: Seq<char>,
    pub address: Seq<char>,
}

impl View for GatewayStatus {
    type V = GatewayStatusView;

    open spec fn view(&self) -> GatewayStatusView {
        GatewayStatusView { name: self.name@, kind: self.kind@, address: self.address@ }
    }
}

/// What is reported of a configured gateway.
pub open spec fn gateway_status(g: GatewayConfig) -> GatewayStatusView {
    GatewayStatusView {
        name: g.name_view(),
        kind: gateway::kind_name(config_kind(g)),
        address: match g {
            GatewayConfig::Xhod(c) => c.address@,
            GatewayConfig::Jumpserver(c) => c.host@ + ":"@ + text::dec(c.port as int),
            GatewayConfig::Direct(c) => c.host@ + ":"@ + text::dec(c.port as int),
        },
    }
}

fn host_port(host: &str, port: u16) -> (r: String)
    ensures
        r@ == host@ + ":"@ + text::dec(port as int),
{
    let port = decimal(port as u64);
    concat3(host, ":", port.as_str())
}

/// The configured gateways as the daemon reports them.
pub fn list_gateways(gateways: &[GatewayConfig]) -> (r: Vec<GatewayStatus>)
    ensures
        r@.len() == gateways@.len(),
        forall|i: int|
            0 <= i < gateways@.len() ==> (#[trigger] r@[i])@ == gateway_status(gateways@[i]),
{
    let mut r: Vec<GatewayStatus> = Vec::new();
    let mut i: usize = 0;
    while i < gateways.len()
        invariant
            i <= gateways.len(),
            r@.len() == i,
            forall|j: int| 0 <= j < i ==> (#[trigger] r@[j])@ == gateway_status(gateways@[j]),
        decreases gateways.len() - i,
    {
        let g = &gateways[i];
        let address = match g {
            GatewayConfig::Xhod(c) => c.address.clone(),
            GatewayConfig::Jumpserver(c) => host_port(c.host.as_str(), c.port),
            GatewayConfig::Direct(c) => host_port(c.host.as_str(), c.port),
        };
        r.push(
            GatewayStatus {
                name: g.name().to_owned(),
                kind: kind_of(g).as_str().to_owned(),
                address,
            },
        );
        i += 1;
    }
    r
}

/// The use of a pool of connections.
#[derive(Debug)]
pub struct PoolStatus {
    pub key: String,
    pub total: u64,
    pub busy: u64,
    pub idle: u64,
    pub queued: u64,
}

/// What is reported of a pool.
pub open spec fn is_pool_status(p: PoolStatus, s: ConnectionStatusSnapshot) -> bool {
    p.key@ == s.key@ && p.total == s.active + s.idle && p.busy == s.active && p.idle == s.idle
        && p.queued == 0
}

/// The daemon's report on itself.
#[derive(Debug)]
pub struct StatusResponse {
    pub daemon_running: bool,
    pub local_socket_path: String,
    pub active_executions: u64,
    pub pools: Vec<PoolStatus>,
    pub daemon_origin: String,
    pub cli_controllable: bool,
    pub cli_start_config_path: String,
    pub cli_start_log_level: String,
    pub gateways: Vec<GatewayStatus>,
    pub remote_listening: bool,
    pub remote_addr: String,
    pub remote_ssh_user: String,
    pub reverse_proxy_server_enabled: bool,
    pub reverse_proxy_nodes: Vec<ReverseProxyNodeStatus>,
    pub reverse_proxy_client_enabled: bool,
    pub reverse_proxy_client_target: String,
    pub reverse_proxy_client_status: String,
    pub proxy_listening: bool,
    pub proxy_addr: String,
}

/// A text where a condition holds, else nothing.
pub open spec fn shown_if(condition: bool, s: Seq<char>) -> Seq<char> {
    if condition {
        s
    } else {
        Seq::empty()
    }
}

fn show_if(condition: bool, s: &str) -> (r: String)
    ensures
        r@ == shown_if(condition, s@),
{
    if condition {
        s.to_owned()
    } else {
        let r = String::new();
        assert(r@ =~= Seq::<char>::empty());
        r
    }
}

/// A text that may be missing, which then is empty.
pub open spec fn or_empty(o: Option<String>) -> Seq<char> {
    match o {
        Some(s) => s@,
        None => Seq::empty(),
    }
}

fn unwrap_text(o: &Option<String>) -> (r: String)
    ensures
        r@ == or_empty(*o),
{
    match o {
        Some(s) => s.clone(),
        None => {
            let r = String::new();
            assert(r@ =~= Seq::<char>::empty());
            r
        },
    }
}

fn pool_statuses(snapshots: &[ConnectionStatusSnapshot]) -> (r: Vec<PoolStatus>)
    requires
        forall|i: int|
            0 <= i < snapshots@.len() ==> (#[trigger] snapshots@[i]).active + snapshots@[i].idle
                <= usize::MAX,
    ensures
        r@.len() == snapshots@.len(),
        forall|i: int| 0 <= i < r@.len() ==> is_pool_status(#[trigger] r@[i], snapshots@[i]),
{
    let mut r: Vec<PoolStatus> = Vec::new();
    let mut i: usize = 0;
    while i < snapshots.len()
        invariant
            i <= snapshots.len(),
            r@.len() == i,
            forall|j: int|
                0 <= j < snapshots@.len() ==> (#[trigger] snapshots@[j]).active
                    + snapshots@[j].idle <= usize::MAX,
            forall|j: int| 0 <= j < i ==> is_pool_status(#[trigger] r@[j], snapshots@[j]),
        decreases snapshots.len() - i,
    {
        let s = &snapshots[i];
        let total: usize = s.active + s.idle;
        r.push(
            PoolStatus {
                key: s.key.clone(),
                total: total as u64,
                busy: s.active as u64,
                idle: s.idle as u64,
                queued: 0,
            },
        );
        i += 1;
    }
    r
}

/// Report on the daemon. The snapshots of all pools come in the order of their gateways.
pub fn status(
    config: &AppConfig,
    origin: DaemonOrigin,
    options: &CliStartOptions,
    nodes: Vec<ReverseProxyNodeStatus>,
    snapshots: &[ConnectionStatusSnapshot],
) -> (r: StatusResponse)
    requires
        forall|i: int|
            0 <= i < snapshots@.len() ==> (#[trigger] snapshots@[i]).active + snapshots@[i].idle
                <= usize::MAX,
    ensures
        r.daemon_running,
        r.local_socket_path@ == config.server.local.socket_path@,
        r.active_executions == 0,
        r.pools@.len() == snapshots@.len(),
        forall|i: int|
            0 <= i < r.pools@.len() ==> is_pool_status(#[trigger] r.pools@[i], snapshots@[i]),
        r.daemon_origin@ == origin_name(origin),
        r.cli_controllable == (origin == DaemonOrigin::CliSpawned),
        r.cli_start_config_path@ == or_empty(options.config_path),
        r.cli_start_log_level@ == or_empty(options.log_level),
        r.gateways@.len() == config.gateways@.len(),
        forall|i: int|
            0 <= i < r.gateways@.len() ==> (#[trigger] r.gateways@[i])@ == gateway_status(
                config.gateways@[i],
            ),
        r.remote_listening == config.server.remote.enable,
        r.remote_addr@ == shown_if(
            config.server.remote.enable,
            config.server.remote.listen_addr@,
        ),
        r.remote_ssh_user@ == shown_if(config.server.remote.enable, config.server.remote.user@),
        r.reverse_proxy_server_enabled == config.server.remote.reverse_proxy_enable,
        r.reverse_proxy_nodes == nodes,
        r.reverse_proxy_client_enabled == config.reverse_proxy.enable,
        r.reverse_proxy_client_target@ == shown_if(
            config.reverse_proxy.enable,
            config.reverse_proxy.server_address@,
        ),
        r.reverse_proxy_client_status@ == if config.reverse_proxy.enable {
            "active"@
        } else {
            "disabled"@
        },
        r.proxy_listening == config.server.proxy.enable,
        r.proxy_addr@ == shown_if(config.server.proxy.enable, config.server.proxy.listen_addr@),
{
    StatusResponse {
        daemon_running: true,
        local_socket_path: config.server.local.socket_path.clone(),
        active_executions: 0,
        pools: pool_statuses(snapshots),
        daemon_origin: origin.as_str().to_owned(),
        cli_controllable: origin.cli_controllable(),
        cli_start_config_path: unwrap_text(&options.config_path),
        cli_start_log_level: unwrap_text(&options.log_level),
        gateways: list_gateways(config.gateways.as_slice()),
        remote_listening: config.server.remote.enable,
        remote_addr: show_if(
            config.server.remote.enable,
            config.server.remote.listen_addr.as_str(),
        ),
        remote_ssh_user: show_if(config.server.remote.enable, config.server.remote.user.as_str()),
        reverse_proxy_server_enabled: config.server.remote.reverse_proxy_enable,
        reverse_proxy_nodes: nodes,
        reverse_proxy_client_enabled: config.reverse_proxy.enable,
        reverse_proxy_client_target: show_if(
            config.reverse_proxy.enable,
            config.reverse_proxy.server_address.as_str(),
        ),
        reverse_proxy_client_status: if config.reverse_proxy.enable {
            "active".to_owned()
        } else {
            "disabled".to_owned()
        },
        proxy_listening: config.server.proxy.enable,
        proxy_addr: show_if(config.server.proxy.enable, config.server.proxy.listen_addr.as_str()),
    }
}

// ---------------------------------------------------------------------------
// Changes of the configuration
// ---------------------------------------------------------------------------
/// A request to change the configuration.
#[derive(Debug)]
pub struct UpdateConfigRequest {
    pub mutation_type: String,
    pub name: String,
    pub kind: String,
    pub address: String,
    pub identity_file: String,
    pub known_hosts_path: String,
}

/// The answer to a request to change the configuration.
#[derive(Debug)]
pub struct UpdateConfigResponse {
    pub success: bool,
    pub message: String,
}

pub open spec fn answers(r: UpdateConfigResponse, success: bool, message: Seq<char>) -> bool {
    r.success == success && r.message@ == message
}

/// What a change comes to before the configuration is written.
#[derive(Debug)]
pub enum UpdatePlan {
    /// Nothing changed.
    Answer(UpdateConfigResponse),
    /// A gateway of this name was added: write the configuration.
    Added(String),
    /// The gateways of this name were removed: write the configuration.
    Removed(String),
}

/// Some gateways without those of a name.
pub open spec fn without(gateways: Seq<GatewayConfig>, name: Seq<char>) -> Seq<GatewayConfig>
    decreases gateways.len(),
{
    if gateways.len() == 0 {
        gateways
    } else if gateways.last().name_view() == name {
        without(gateways.drop_last(), name)
    } else {
        without(gateways.drop_last(), name).push(gateways.last())
    }
}

#[verifier::loop_isolation(false)]
fn remove_named(gateways: Vec<GatewayConfig>, name: &str) -> (r: Vec<GatewayConfig>)
    ensures
        r@ == without(gateways@, name@),
{
    let ghost all = gateways@;
    let mut rest = gateways;
    let mut r: Vec<GatewayConfig> = Vec::new();
    let ghost mut done: int = 0;
    assert(all.take(0) =~= Seq::<GatewayConfig>::empty());
    while rest.len() > 0
        invariant
            0 <= done <= all.len(),
            rest@ == all.skip(done),
            r@ == without(all.take(done), name@),
        decreases rest.len(),
    {
        let g = rest.remove(0);
        assert(g == all[done]);
        assert(all.take(done + 1).drop_last() =~= all.take(done));
        if !same(g.name(), name) {
            r.push(g);
        }
        proof {
            done = done + 1;
            assert(rest@ =~= all.skip(done));
        }
    }
    assert(all.take(done) =~= all);
    r
}

/// The gateway of another daemon, as a request describes it.
pub open spec fn is_added(g: GatewayConfig, name: Seq<char>, req: UpdateConfigRequest) -> bool {
    g matches GatewayConfig::Xhod(c) && c.name@ == name && c.address@ == req.address@
        && c.identity_file@ == req.identity_file@ && c.known_hosts_path@ == req.known_hosts_path@
}

/// Why a gateway of that name cannot be added, if so.
pub open spec fn addition_refused(
    gateways: Seq<GatewayConfig>,
    req: UpdateConfigRequest,
    reserved: Seq<Seq<char>>,
) -> Option<Seq<char>> {
    let alias = text::trim_of(req.name@);
    let kind = text::trim_of(req.kind@);
    if alias.len() == 0 {
        Some("name must not be empty"@)
    } else if reserved.contains(alias) {
        Some(
            "name '"@ + alias + "' is reserved (reserved names: "@ + text::debug_list_of(reserved)
                + ")"@,
        )
    } else if config::gateway_names(gateways).contains(alias) {
        Some("name '"@ + alias + "' is already used by an existing gateway"@)
    } else if kind != "xhod"@ {
        Some("add_gateway via RPC only supports kind 'xhod', got '"@ + kind + "'"@)
    } else {
        None
    }
}

/// Why the gateways of that name cannot be removed, if so.
pub open spec fn removal_refused(gateways: Seq<GatewayConfig>, req: UpdateConfigRequest) -> Option<
    Seq<char>,
> {
    let alias = text::trim_of(req.name@);
    if alias.len() == 0 {
        Some("name must not be empty"@)
    } else if !config::gateway_names(gateways).contains(alias) {
        Some("gateway '"@ + alias + "' not found"@)
    } else {
        None
    }
}

fn refuse(message: String) -> (r: UpdatePlan)
    ensures
        r matches UpdatePlan::Answer(a) && answers(a, false, message@),
{
    UpdatePlan::Answer(UpdateConfigResponse { success: false, message })
}

/// Apply a change to the configuration in memory. It then has to be written.
pub fn update_config(config: &mut AppConfig, req: UpdateConfigRequest, reserved: &[String]) -> (r:
    UpdatePlan)
    ensures
        ({
            let before = old(config).gateways@;
            let after = final(config).gateways@;
            let alias = text::trim_of(req.name@);
            &&& *final(config) == (AppConfig { gateways: final(config).gateways, ..*old(config) })
            &&& if req.mutation_type@ == "add_gateway"@ {
                match addition_refused(before, req, text::texts(reserved@)) {
                    Some(m) => after == before && (r matches UpdatePlan::Answer(a) && answers(
                        a,
                        false,
                        m,
                    )),
                    None => {
                        &&& r matches UpdatePlan::Added(name) && name@ == alias
                        &&& after.len() == before.len() + 1
                        &&& after.drop_last() == before
                        &&& is_added(after.last(), alias, req)
                    },
                }
            } else if req.mutation_type@ == "remove_gateway"@ {
                match removal_refused(before, req) {
                    Some(m) => after == before && (r matches UpdatePlan::Answer(a) && answers(
                        a,
                        false,
                        m,
                    )),
                    None => {
                        &&& r matches UpdatePlan::Removed(name) && name@ == alias
                        &&& after == without(before, alias)
                    },
                }
            } else {
                after == before && (r matches UpdatePlan::Answer(a) && answers(
                    a,
                    false,
                    "unknown mutation_type: '"@ + req.mutation_type@ + "'"@,
                ))
            }
        }),
{
    if same(req.mutation_type.as_str(), "add_gateway") {
        let alias = trim(req.name.as_str());
        if alias.as_str().is_empty() {
            return refuse("name must not be empty".to_owned());
        }
        if has_name(reserved, alias.as_str()) {
            let list = debug_list(reserved);
            return refuse(
                concat5(
                    "name '",
                    alias.as_str(),
                    "' is reserved (reserved names: ",
                    list.as_str(),
                    ")",
                ),
            );
        }
        if config::has_gateway(config.gateways.as_slice(), alias.as_str()) {
            return refuse(
                concat3("name '", alias.as_str(), "' is already used by an existing gateway"),
            );
        }
        let kind = trim(req.kind.as_str());
        if !same(kind.as_str(), "xhod") {
            return refuse(
                concat3(
                    "add_gateway via RPC only supports kind 'xhod', got '",
                    kind.as_str(),
                    "'",
                ),
            );
        }
        let entry = GatewayConfig::Xhod(
            XhodGatewayConfig {
                name: alias.clone(),
                address: req.address,
                identity_file: req.identity_file,
                known_hosts_path: req.known_hosts_path,
            },
        );
        let ghost before = config.gateways@;
        config.gateways.push(entry);
        assert(config.gateways@.drop_last() =~= before);
        UpdatePlan::Added(alias)
    } else if same(req.mutation_type.as_str(), "remove_gateway") {
        let alias = trim(req.name.as_str());
        if alias.as_str().is_empty() {
            return refuse("name must not be empty".to_owned());
        }
        if !config::has_gateway(config.gateways.as_slice(), alias.as_str()) {
            return refuse(concat3("gateway '", alias.as_str(), "' not found"));
        }
        let mut gateways: Vec<GatewayConfig> = Vec::new();
        std::mem::swap(&mut gateways, &mut config.gateways);
        config.gateways = remove_named(gateways, alias.as_str());
        UpdatePlan::Removed(alias)
    } else {
        refuse(concat3("unknown mutation_type: '", req.mutation_type.as_str(), "'"))
    }
}

/// The end of a change, once the configuration was written or could not be. An addition
/// that could not be written is taken back; after a removal the configuration is read again
/// in any case. The second part of the result tells to read it again.
pub fn finish_update(config: &mut AppConfig, plan: UpdatePlan, written: Result<(), String>) -> (r:
    (UpdateConfigResponse, bool))
    ensures
        *final(config) == (AppConfig { gateways: final(config).gateways, ..*old(config) }),
        match plan {
            UpdatePlan::Answer(a) => r.0 == a && !r.1 && final(config).gateways@
                == old(config).gateways@,
            UpdatePlan::Added(name) => match written {
                Ok(_) => {
                    &&& answers(r.0, true, "gateway '"@ + name@ + "' added successfully"@)
                    &&& r.1
                    &&& final(config).gateways@ == old(config).gateways@
                },
                Err(e) => {
                    &&& answers(r.0, false, "failed to write config: "@ + e@)
                    &&& !r.1
                    &&& final(config).gateways@ == without(old(config).gateways@, name@)
                },
            },
            UpdatePlan::Removed(name) => {
                &&& r.1
                &&& final(config).gateways@ == old(config).gateways@
                &&& match written {
                    Ok(_) => answers(r.0, true, "gateway '"@ + name@ + "' removed successfully"@),
                    Err(e) => answers(r.0, false, "failed to write config: "@ + e@),
                }
            },
        },
{
    match plan {
        UpdatePlan::Answer(a) => (a, false),
        UpdatePlan::Added(name) => match written {
            Ok(_) => (
                UpdateConfigResponse {
                    success: true,
                    message: concat3("gateway '", name.as_str(), "' added successfully"),
                },
                true,
            ),
            Err(e) => {
                let mut gateways: Vec<GatewayConfig> = Vec::new();
                std::mem::swap(&mut gateways, &mut config.gateways);
                config.gateways = remove_named(gateways, name.as_str());
                let mut message = "failed to write config: ".to_owned();
                message.append(e.as_str());
                (UpdateConfigResponse { success: false, message }, false)
            },
        },
        UpdatePlan::Removed(name) => match written {
            Ok(_) => (
                UpdateConfigResponse {
                    success: true,
                    message: concat3("gateway '", name.as_str(), "' removed successfully"),
                },
                true,
            ),
            Err(e) => {
                let mut message = "failed to write config: ".to_owned();
                message.append(e.as_str());
                (UpdateConfigResponse { success: false, message }, true)
            },
        },
    }
}

/// The name of the file that a configuration is written to before it takes the place of the
/// one in use.
pub fn temp_config_name(pid: u32) -> (r: String)
    ensures
        r@ == ".config.toml.tmp."@ + text::dec(pid as int),
{
    let n = decimal(pid as u64);
    let mut r = ".config.toml.tmp.".to_owned();
    r.append(n.as_str());
    r
}

proof fn lemma_without_absent(gateways: Seq<GatewayConfig>, name: Seq<char>)
    requires
        !config::gateway_names(gateways).contains(name),
    ensures
        without(gateways, name) == gateways,
    decreases gateways.len(),
{
    if gateways.len() > 0 {
        let names = config::gateway_names(gateways);
        let before = gateways.drop_last();
        assert(names[gateways.len() - 1] == gateways.last().name_view());
        assert forall|j: int| 0 <= j < before.len() implies config::gateway_names(before)[j]
            != name by {
            assert(names[j] == config::gateway_names(before)[j]);
        }
        lemma_without_absent(before, name);
        assert(before.push(gateways.last()) =~= gateways);
    }
}

/// An addition that could not be written leaves no trace: taking the new gateway back gives
/// the gateways that were there before.
pub proof fn law_failed_addition_is_undone(
    before: Seq<GatewayConfig>,
    after: Seq<GatewayConfig>,
    name: Seq<char>,
)
    requires
        !config::gateway_names(before).contains(name),
        after.len() == before.len() + 1,
        after.drop_last() == before,
        after.last().name_view() == name,
    ensures
        without(after, name) == before,
{
    lemma_without_absent(before, name);
}

/// A removed name is free: no gateway of it is left, and every other gateway stays, in order.
pub proof fn law_removal_spares_other_gateways(
    gateways: Seq<GatewayConfig>,
    name: Seq<char>,
    g: GatewayConfig,
)
    ensures
        without(gateways, name).contains(g) <==> gateways.contains(g) && g.name_view() != name,
    decreases gateways.len(),
{
    if gateways.len() > 0 {
        let before = gateways.drop_last();
        law_removal_spares_other_gateways(before, name, g);
        let w = without(before, name);
        if gateways.contains(g) {
            let i = choose|i: int| 0 <= i < gateways.len() && gateways[i] == g;
            if i < before.len() {
                assert(before[i] == g);
                if g.name_view() != name {
                    let j = choose|j: int| 0 <= j < w.len() && w[j] == g;
                    assert(w.push(gateways.last())[j] == g);
                }
            } else if g.name_view() != name {
                assert(w.push(gateways.last())[w.len() as int] == g);
            }
        }
        if without(gateways, name).contains(g) {
            let all = without(gateways, name);
            let j = choose|j: int| 0 <= j < all.len() && all[j] == g;
            if j < w.len() {
                assert(w[j] == g);
                let i = choose|i: int| 0 <= i < before.len() && before[i] == g;
                assert(gateways[i] == g);
            } else {
                assert(gateways[gateways.len() - 1] == g);
            }
        }
    }
}

// ---------------------------------------------------------------------------
// Tokens
// ---------------------------------------------------------------------------
/// How long a token lives, in seconds.
pub fn token_ttl(ttl_secs: u64) -> (r: u64)
    ensures
        r == if ttl_secs == 0 {
            300
        } else {
            ttl_secs
        },
{
    if ttl_secs == 0 {
        300
    } else {
        ttl_secs
    }
}

/// The label of a token, without the white space around it. A blank one is none.
pub fn token_label(label: Option<String>) -> (r: Option<String>)
    ensures
        match label {
            Some(s) => if text::trim_of(s@).len() == 0 {
                r is None
            } else {
                r matches Some(t) && t@ == text::trim_of(s@)
            },
            None => r is None,
        },
{
    match label {
        Some(s) => if is_blank(s.as_str()) {
            None
        } else {
            Some(trim(s.as_str()))
        },
        None => None,
    }
}

// ---------------------------------------------------------------------------
// What a daemon plans and tells
// ---------------------------------------------------------------------------
/// The name of a gateway on its own stands for the host of the gateway itself; `local` is no
/// such name.
pub proof fn law_gateway_names_stand_for_their_hosts(
    target: Seq<char>,
    static_names: Seq<Seq<char>>,
    model: resolver::ResolverModel,
)
    requires
        static_names.contains(target) || model.dynamic.contains(target),
        target != "local"@,
    ensures
        resolved_target(target, static_names, model) matches Ok(r) && r.warning is None
            && r.routes.len() == 1 && r.routes[0].gateway == target && r.routes[0].target
            == "_self"@,
{
}

/// Every other target is resolved; the list of servers counts only where the target does not
/// name its gateway. An address in brackets names none.
pub proof fn law_other_targets_are_resolved(
    target: Seq<char>,
    static_names: Seq<Seq<char>>,
    model: resolver::ResolverModel,
)
    requires
        target == "local"@ || !static_names.contains(target) && !model.dynamic.contains(target),
    ensures
        !target.contains(':') || target[0] == '[' ==> resolved_target(target, static_names, model)
            == model.resolve(target),
        target.contains(':') && target[0] != '[' ==> resolved_target(target, static_names, model)
            == (resolver::ResolverModel { rows: Seq::empty(), ..model }).resolve(target),
{
    reveal_strlit("[");
    assert("["@ =~= seq!['[']);
    if target.contains(':') {
        assert(target.len() > 0);
        if target[0] == '[' {
            assert(target.take(1) =~= seq!['[']);
        } else if text::begins(target, "["@) {
            assert(target.take(1)[0] == target[0]);
        }
    }
}

/// A gateway is found under its name: the first one that has it.
pub proof fn law_first_gateway_of_the_name_is_found<G>(
    gateways: Seq<(String, G)>,
    name: Seq<char>,
)
    ensures
        0 <= gateway_index(gateways, name) <= gateways.len(),
        gateway_index(gateways, name) < gateways.len() ==> gateways[gateway_index(
            gateways,
            name,
        )].0@ == name,
        forall|i: int|
            0 <= i < gateway_index(gateways, name) ==> (#[trigger] gateways[i]).0@ != name,
    decreases gateways.len(),
{
    if gateways.len() > 0 && gateways[0].0@ != name {
        let rest = gateways.skip(1);
        law_first_gateway_of_the_name_is_found(rest, name);
        let n = gateway_index(gateways, name);
        assert forall|i: int| 0 <= i < n implies (#[trigger] gateways[i]).0@ != name by {
            if i > 0 {
                assert(rest[i - 1] == gateways[i]);
            }
        }
        if n < gateways.len() {
            assert(rest[n - 1] == gateways[n]);
        }
    }
}

/// A daemon has a gateway of its own for the servers of its list, and one for each gateway that
/// is configured, in order and as it is configured. All of them let connections idle equally
/// long.
pub proof fn law_every_gateway_is_planned(
    ssh: SshConfig,
    path: Seq<char>,
    gateways: Seq<GatewayConfig>,
    i: int,
)
    requires
        0 <= i < gateways.len(),
    ensures
        ({
            let plan = planned_gateways(ssh, path, gateways);
            let direct = |name: Seq<char>|
                PlannedView::Direct {
                    name,
                    server_config_path: path,
                    max_connections_per_address: ssh.max_connections_per_ip,
                    max_idle_time: ssh.max_idle_time,
                };
            &&& plan.len() == gateways.len() + 1
            &&& plan[0] == direct("local"@)
            &&& match gateways[i] {
                GatewayConfig::Direct(c) => plan[i + 1] == direct(c.name@),
                GatewayConfig::Jumpserver(c) => plan[i + 1] == (PlannedView::Jumpserver {
                    fields: c@,
                    max_idle_time: ssh.max_idle_time,
                }),
                GatewayConfig::Xhod(c) => plan[i + 1] == (PlannedView::Xhod {
                    name: c.name@,
                    address: c.address@,
                    identity_file: c.identity_file@,
                    known_hosts_path: c.known_hosts_path@,
                    max_idle_time: ssh.max_idle_time,
                }),
            }
        }),
{
}

/// The host of the daemon itself is a target where its proxy is on, or where it is a node that
/// lets its hub in. Its shell and user are those for the hub, its SFTP server that of the proxy.
pub proof fn law_own_host_is_served_on_request(config: AppConfig)
    ensures
        config.server.proxy.enable ==> serves_self(config),
        !config.server.proxy.enable ==> serves_self(config) == (config.reverse_proxy.enable
            && config.reverse_proxy.allow_host_access),
        planned_self(config) == (PlannedView::Localhost {
            shell: match config.reverse_proxy.shell {
                Some(s) => Some(s@),
                None => None,
            },
            user: match config.reverse_proxy.user {
                Some(s) => Some(s@),
                None => None,
            },
            sftp_server_path: match config.server.proxy.sftp_server_path {
                Some(s) => Some(s@),
                None => None,
            },
        }),
{
}

/// One step comes before another.
pub open spec fn comes_before(steps: Seq<StepView>, a: StepView, b: StepView) -> bool {
    exists|i: int, j: int|
        0 <= i < j < steps.len() && #[trigger] steps[i] == a && #[trigger] steps[j] == b
}

/// A daemon starts what is switched on, at the addresses and with the keys that are configured,
/// and nothing else. Each listener is prepared and bound before it serves, all of them before
/// calls are served; its socket is removed last.
pub proof fn law_startup_follows_the_switches(c: AppConfig)
    ensures
        ({
            let steps = startup_steps(c);
            let local = c.server.local;
            let remote = c.server.remote;
            let proxy = c.server.proxy;
            let socket = local.socket_path@;
            let prepared = StepView::PrepareRemote(
                remote.host_key_path@,
                remote.authorized_keys_path@,
            );
            let bound = StepView::BindRemote(remote.listen_addr@);
            let served = StepView::ServeRemote(remote.host_key_path@);
            let shown = StepView::ServeProxy(
                proxy.listen_addr@,
                proxy.host_key_path@,
                proxy.authorized_keys_path@,
            );
            &&& local.enable ==> comes_before(
                steps,
                StepView::PrepareSocket(socket),
                StepView::BindLocal(socket),
            ) && comes_before(steps, StepView::BindLocal(socket), StepView::ServeRpc)
                && steps.last() == StepView::RemoveSocket(socket)
            &&& remote.enable ==> comes_before(steps, prepared, bound) && comes_before(
                steps,
                bound,
                served,
            ) && comes_before(steps, served, StepView::ServeRpc)
            &&& proxy.enable ==> comes_before(steps, shown, StepView::ServeRpc)
            &&& c.reverse_proxy.enable ==> comes_before(
                steps,
                StepView::SpawnReverseClient,
                StepView::ServeRpc,
            )
            &&& comes_before(steps, StepView::SpawnReaper, StepView::WatchHangup)
            &&& comes_before(steps, StepView::WatchHangup, StepView::ServeRpc)
            &&& steps.len() == 3 + (if local.enable {
                3int
            } else {
                0
            }) + (if remote.enable {
                3int
            } else {
                0
            }) + (if proxy.enable {
                1int
            } else {
                0
            }) + (if c.reverse_proxy.enable {
                1int
            } else {
                0
            })
        }),
{
    let steps = startup_steps(c);
    let l: int = if c.server.local.enable {
        1
    } else {
        0
    };
    let r: int = if c.server.remote.enable {
        1
    } else {
        0
    };
    let p: int = if c.server.proxy.enable {
        1
    } else {
        0
    };
    let n: int = if c.reverse_proxy.enable {
        1
    } else {
        0
    };
    let reaper = l + 2 * r + l + r + p;
    assert(steps[reaper] == StepView::SpawnReaper);
    assert(steps[reaper + n + 1] == StepView::WatchHangup);
    assert(steps[reaper + n + 2] == StepView::ServeRpc);
    if c.server.local.enable {
        assert(steps[0] == StepView::PrepareSocket(c.server.local.socket_path@));
        assert(steps[1 + 2 * r] == StepView::BindLocal(c.server.local.socket_path@));
    }
    if c.server.remote.enable {
        assert(steps[l] is PrepareRemote);
        assert(steps[l + 1] is BindRemote);
        assert(steps[2 * l + 2] is ServeRemote);
    }
    if c.server.proxy.enable {
        assert(steps[reaper - 1] is ServeProxy);
    }
    if c.reverse_proxy.enable {
        assert(steps[reaper + 1] is SpawnReverseClient);
    }
}

/// A daemon goes on where its proxy cannot be served or its socket cannot be removed; any other
/// step that fails stops it. An address that cannot be bound is told.
pub proof fn law_failed_steps_stop_the_daemon(step: StepView, error: Seq<char>)
    ensures
        step_failure(step, error) is None == (step is ServeProxy || step is RemoveSocket),
        step matches StepView::BindRemote(addr) ==> step_failure(step, error) == Some(
            "failed to bind "@ + addr,
        ),
        step matches StepView::BindLocal(path) ==> step_failure(step, error) == Some(
            "failed to bind "@ + path,
        ),
        !(step is BindRemote || step is BindLocal || step is ServeProxy || step is RemoveSocket)
            ==> step_failure(step, error) == Some(error),
{
}

/// The status tells each gateway's name, its kind and where it is.
pub proof fn law_status_tells_the_gateways(g: GatewayConfig)
    ensures
        ({
            let status = gateway_status(g);
            match g {
                GatewayConfig::Xhod(c) => status.name == c.name@ && status.kind == "xhod"@
                    && status.address == c.address@,
                GatewayConfig::Jumpserver(c) => status.name == c.name@ && status.kind
                    == "jumpserver"@ && status.address == c.host@ + ":"@ + text::dec(
                    c.port as int,
                ),
                GatewayConfig::Direct(c) => status.name == c.name@ && status.kind == "direct"@
                    && status.address == c.host@ + ":"@ + text::dec(c.port as int),
            }
        }),
{
}

/// A gateway is added exactly where its name, blanks around it aside, is there, not reserved
/// and not in use, and where it is another daemon. Otherwise the first of these that fails is
/// told.
pub proof fn law_additions_need_a_free_name(
    gateways: Seq<GatewayConfig>,
    req: UpdateConfigRequest,
    reserved: Seq<Seq<char>>,
)
    ensures
        ({
            let name = text::trim_of(req.name@);
            let kind = text::trim_of(req.kind@);
            let used = exists|i: int|
                0 <= i < gateways.len() && (#[trigger] gateways[i]).name_view() == name;
            let why = addition_refused(gateways, req, reserved);
            &&& why is None == (name.len() > 0 && !reserved.contains(name) && !used && kind
                == "xhod"@)
            &&& name.len() == 0 ==> why == Some("name must not be empty"@)
            &&& name.len() > 0 && !reserved.contains(name) && used ==> why == Some(
                "name '"@ + name + "' is already used by an existing gateway"@,
            )
        }),
{
    lemma_named(gateways, text::trim_of(req.name@));
}

proof fn lemma_named(gateways: Seq<GatewayConfig>, name: Seq<char>)
    ensures
        config::gateway_names(gateways).contains(name) == exists|i: int|
            0 <= i < gateways.len() && (#[trigger] gateways[i]).name_view() == name,
{
    let names = config::gateway_names(gateways);
    if names.contains(name) {
        let i = choose|i: int| 0 <= i < names.len() && names[i] == name;
        assert(gateways[i].name_view() == name);
    }
    if exists|i: int| 0 <= i < gateways.len() && (#[trigger] gateways[i]).name_view() == name {
        let i = choose|i: int|
            0 <= i < gateways.len() && (#[trigger] gateways[i]).name_view() == name;
        assert(names[i] == name);
    }
}

/// A gateway is removed exactly where one has the name, blanks around it aside.
pub proof fn law_removals_need_a_gateway(gateways: Seq<GatewayConfig>, req: UpdateConfigRequest)
    ensures
        ({
            let name = text::trim_of(req.name@);
            let used = exists|i: int|
                0 <= i < gateways.len() && (#[trigger] gateways[i]).name_view() == name;
            let why = removal_refused(gateways, req);
            &&& why is None == (name.len() > 0 && used)
            &&& name.len() == 0 ==> why == Some("name must not be empty"@)
            &&& name.len() > 0 && !used ==> why == Some("gateway '"@ + name + "' not found"@)
        }),
{
    lemma_named(gateways, text::trim_of(req.name@));
}

/// A status that is not switched on shows nothing; one that is shows what is configured.
pub proof fn law_only_what_is_on_is_shown(s: Seq<char>, o: Option<String>)
    ensures
        shown_if(true, s) == s,
        shown_if(false, s).len() == 0,
        o matches Some(text) ==> or_empty(o) == text@,
        o is None ==> or_empty(o).len() == 0,
        origin_name(DaemonOrigin::CliSpawned) != origin_name(DaemonOrigin::External),
        origin_name(DaemonOrigin::External) == "external"@,
{
    reveal_strlit("cli_spawned");
    reveal_strlit("external");
    assert("cli_spawned"@.len() == 11);
    assert("external"@.len() == 8);
}

/// The status of a pool counts the connections in use and those that idle; none is queued.
pub proof fn law_pool_status_counts_connections(p: PoolStatus, s: ConnectionStatusSnapshot)
    requires
        is_pool_status(p, s),
    ensures
        p.key@ == s.key@,
        p.busy == s.active,
        p.idle == s.idle,
        p.total == p.busy + p.idle,
        p.queued == 0,
{
}

/// An answer says whether it is done, and why.
pub proof fn law_answers_say_both(r: UpdateConfigResponse, success: bool, message: Seq<char>)
    requires
        answers(r, success, message),
    ensures
        r.success == success,
        r.message@ == message,
{
}

/// What is stated of a [`PlannedGateway`] is stated of its own parts: each kind is seen as that
/// kind, with all that it holds.
pub proof fn law_planned_gateway_is_seen_as_it_is(value: PlannedGateway)
    ensures
        ({
            let seen = value@;
            match value {
                PlannedGateway::Direct {
                    name,
                    server_config_path,
                    max_connections_per_address,
                    max_idle_time,
                } => seen == (PlannedView::Direct {
                    name: name@,
                    server_config_path: server_config_path@,
                    max_connections_per_address: max_connections_per_address,
                    max_idle_time: max_idle_time,
                }),
                PlannedGateway::Xhod {
                    name,
                    address,
                    identity_file,
                    known_hosts_path,
                    max_idle_time,
                } => seen == (PlannedView::Xhod {
                    name: name@,
                    address: address@,
                    identity_file: identity_file@,
                    known_hosts_path: known_hosts_path@,
                    max_idle_time: max_idle_time,
                }),
                PlannedGateway::Jumpserver { fields, max_idle_time } => seen
                    == (PlannedView::Jumpserver {
                    fields: fields@,
                    max_idle_time: max_idle_time,
                }),
                PlannedGateway::Localhost { shell, user, sftp_server_path } => seen
                    == (PlannedView::Localhost {
                    shell: text::opt(shell),
                    user: text::opt(user),
                    sftp_server_path: text::opt(sftp_server_path),
                }),
            }
        }),
{
}

/// What is stated of a [`StartupStep`] is stated of its own parts: each kind is seen as that
/// kind, with all that it holds.
pub proof fn law_startup_step_is_seen_as_it_is(value: StartupStep)
    ensures
        ({
            let seen = value@;
            match value {
                StartupStep::PrepareSocket(p) => seen == StepView::PrepareSocket(p@),
                StartupStep::PrepareRemote { host_key_path, authorized_keys_path } => seen == ({
                    StepView::PrepareRemote(host_key_path@, authorized_keys_path@)
                }),
                StartupStep::BindRemote(a) => seen == StepView::BindRemote(a@),
                StartupStep::BindLocal(p) => seen == StepView::BindLocal(p@),
                StartupStep::ServeRemote { host_key_path } => seen == StepView::ServeRemote(host_key_path@),
                StartupStep::ServeProxy { listen_addr, host_key_path, authorized_keys_path } => seen
                    == ({
                    StepView::ServeProxy(listen_addr@, host_key_path@, authorized_keys_path@)
                }),
                StartupStep::SpawnReaper => seen == StepView::SpawnReaper,
                StartupStep::SpawnReverseClient => seen == StepView::SpawnReverseClient,
                StartupStep::WatchHangup => seen == StepView::WatchHangup,
                StartupStep::ServeRpc => seen == StepView::ServeRpc,
                StartupStep::RemoveSocket(p) => seen == StepView::RemoveSocket(p@),
            }
        }),
{
}

} // verus!
