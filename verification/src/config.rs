//! The daemon's configuration, as far as decisions depend on it.
use crate::text;
use crate::text::same;
use vstd::prelude::*;

verus! {

/// A source of the fallback chain.
#[derive(Debug)]
pub enum FallbackEntry {
    /// The SSH client configuration of this machine.
    Local,
    /// A configured gateway.
    Gateway(String),
}

/// How a directly reached server is authenticated to.
#[derive(Debug, PartialEq, Eq)]
pub enum DirectAuth {
    Key { identity_file: String },
    Password { password: String },
    /// No credentials (this machine itself).
    NoAuth,
    /// A node that connects to this daemon.
    ReverseProxy,
}

/// A server that can be reached.
#[derive(Debug)]
pub struct ServerEntry {
    pub alias: String,
    pub host: String,
    pub port: u16,
    pub user: String,
    pub auth: DirectAuth,
}

/// Where a listed server comes from: this daemon, or a path of gateways.
#[derive(Debug, PartialEq, Eq)]
pub enum ServerListSource {
    Local,
    Gateway(String),
}

/// A row of the merged server list.
#[derive(Debug)]
pub struct ServerListRow {
    pub source: ServerListSource,
    pub server: ServerEntry,
}

/// The mathematical counterpart of [`DirectAuth`].
pub enum AuthView {
    Key(Seq<char>),
    Password(Seq<char>),
    NoAuth,
    ReverseProxy,
}

impl View for DirectAuth {
    type V = AuthView;

    open spec fn view(&self) -> AuthView {
        match self {
            DirectAuth::Key { identity_file } => AuthView::Key(identity_file@),
            DirectAuth::Password { password } => AuthView::Password(password@),
            DirectAuth::NoAuth => AuthView::NoAuth,
            DirectAuth::ReverseProxy => AuthView::ReverseProxy,
        }
    }
}

impl Clone for DirectAuth {
    fn clone(&self) -> (r: Self)
        ensures
            r@ == self@,
    {
        match self {
            DirectAuth::Key { identity_file } => DirectAuth::Key {
                identity_file: identity_file.clone(),
            },
            DirectAuth::Password { password } => DirectAuth::Password {
                password: password.clone(),
            },
            DirectAuth::NoAuth => DirectAuth::NoAuth,
            DirectAuth::ReverseProxy => DirectAuth::ReverseProxy,
        }
    }
}

/// The mathematical counterpart of [`ServerEntry`].
#[verifier::ext_equal]
pub struct EntryView {
    pub alias: Seq<char>,
    pub host: Seq<char>,
    pub port: int,
    pub user: Seq<char>,
    pub auth: AuthView,
}

impl View for ServerEntry {
    type V = EntryView;

    open spec fn view(&self) -> EntryView {
        EntryView {
            alias: self.alias@,
            host: self.host@,
            port: self.port as int,
            user: self.user@,
            auth: self.auth@,
        }
    }
}

/// The mathematical counterpart of [`ServerListSource`].
pub enum SourceView {
    Local,
    Gateway(Seq<char>),
}

impl View for ServerListSource {
    type V = SourceView;

    open spec fn view(&self) -> SourceView {
        match self {
            ServerListSource::Local => SourceView::Local,
            ServerListSource::Gateway(path) => SourceView::Gateway(path@),
        }
    }
}

/// The mathematical counterpart of [`ServerListRow`].
#[verifier::ext_equal]
pub struct RowView {
    pub source: SourceView,
    pub server: EntryView,
}

impl View for ServerListRow {
    type V = RowView;

    open spec fn view(&self) -> RowView {
        RowView { source: self.source@, server: self.server@ }
    }
}

/// A server of the server configuration file.
#[derive(Debug)]
pub struct ServerHostConfig {
    pub host: String,
    pub port: Option<u16>,
    pub user: String,
    pub identity_file: Option<String>,
    pub password: Option<String>,
    pub shell: Option<String>,
}

/// What servers of the file share.
#[derive(Debug)]
pub struct ServerDefaults {
    pub identity_file: Option<String>,
    pub shell: String,
}

/// The server configuration file. Each alias stands once.
#[derive(Debug)]
pub struct ServerConfigFile {
    pub defaults: ServerDefaults,
    pub servers: Vec<(String, ServerHostConfig)>,
}

/// A gateway that is another daemon.
#[derive(Debug)]
pub struct XhodGatewayConfig {
    pub name: String,
    pub address: String,
    pub identity_file: String,
    pub known_hosts_path: String,
}

/// A gateway that is a menu-driven bastion.
#[derive(Debug)]
pub struct JumpserverGatewayConfig {
    pub name: String,
    pub host: String,
    pub port: u16,
    pub user: String,
    pub identity_file: String,
    pub pubkey_accepted_algorithms: Option<String>,
    pub totp_secret_base32: String,
    pub totp_digits: u32,
    pub totp_period: u64,
    pub max_cached_sessions: Option<usize>,
    pub session_idle_timeout_ms: u64,
}

/// The mathematical counterpart of [`JumpserverGatewayConfig`].
#[verifier::ext_equal]
pub struct JumpserverView {
    pub name: Seq<char>,
    pub host: Seq<char>,
    pub port: u16,
    pub user: Seq<char>,
    pub identity_file: Seq<char>,
    pub pubkey_accepted_algorithms: Option<Seq<char>>,
    pub totp_secret_base32: Seq<char>,
    pub totp_digits: u32,
    pub totp_period: u64,
    pub max_cached_sessions: Option<usize>,
    pub session_idle_timeout_ms: u64,
}

impl View for JumpserverGatewayConfig {
    type V = JumpserverView;

    open spec fn view(&self) -> JumpserverView {
        JumpserverView {
            name: self.name@,
            host: self.host@,
            port: self.port,
            user: self.user@,
            identity_file: self.identity_file@,
            pubkey_accepted_algorithms: text::opt(self.pubkey_accepted_algorithms),
            totp_secret_base32: self.totp_secret_base32@,
            totp_digits: self.totp_digits,
            totp_period: self.totp_period,
            max_cached_sessions: self.max_cached_sessions,
            session_idle_timeout_ms: self.session_idle_timeout_ms,
        }
    }
}

impl Clone for JumpserverGatewayConfig {
    fn clone(&self) -> (r: Self)
        ensures
            r@ == self@,
    {
        JumpserverGatewayConfig {
            name: self.name.clone(),
            host: self.host.clone(),
            port: self.port,
            user: self.user.clone(),
            identity_file: self.identity_file.clone(),
            pubkey_accepted_algorithms: copy_text(&self.pubkey_accepted_algorithms),
            totp_secret_base32: self.totp_secret_base32.clone(),
            totp_digits: self.totp_digits,
            totp_period: self.totp_period,
            max_cached_sessions: self.max_cached_sessions,
            session_idle_timeout_ms: self.session_idle_timeout_ms,
        }
    }
}

/// A copy of a text that may be there.
pub fn copy_text(o: &Option<String>) -> (r: Option<String>)
    ensures
        text::opt(r) == text::opt(*o),
{
    match o {
        Some(s) => Some(s.clone()),
        None => None,
    }
}

/// A gateway that reaches servers itself.
#[derive(Debug)]
pub struct DirectGatewayConfig {
    pub name: String,
    pub host: String,
    pub port: u16,
}

/// A configured gateway.
#[derive(Debug)]
pub enum GatewayConfig {
    Xhod(XhodGatewayConfig),
    Jumpserver(JumpserverGatewayConfig),
    Direct(DirectGatewayConfig),
}

impl GatewayConfig {
    pub open spec fn name_view(&self) -> Seq<char> {
        match self {
            GatewayConfig::Xhod(c) => c.name@,
            GatewayConfig::Jumpserver(c) => c.name@,
            GatewayConfig::Direct(c) => c.name@,
        }
    }

    pub fn name(&self) -> (r: &str)
        ensures
            r@ == self.name_view(),
    {
        match self {
            GatewayConfig::Xhod(c) => c.name.as_str(),
            GatewayConfig::Jumpserver(c) => c.name.as_str(),
            GatewayConfig::Direct(c) => c.name.as_str(),
        }
    }
}

/// The names of some gateways.
pub open spec fn gateway_names(gateways: Seq<GatewayConfig>) -> Seq<Seq<char>> {
    Seq::new(gateways.len(), |i: int| gateways[i].name_view())
}

/// What is done with a command that a review judged.
#[derive(Clone, Copy, Debug, PartialEq, Eq, Structural)]
pub enum ReviewAction {
    Allow,
    Warn,
    Confirm,
    Deny,
}

/// How dangerous a command was judged to be.
#[derive(Clone, Copy, Debug, PartialEq, Eq, Structural)]
pub enum RiskLevel {
    Safe,
    Risky,
    Dangerous,
}

/// Settings of the SSH side.
#[derive(Debug)]
pub struct SshConfig {
    pub server_config_path: String,
    pub ssh_config_path: String,
    pub fallback: Vec<FallbackEntry>,
    pub max_connections_per_ip: usize,
    /// For how long a connection may idle.
    pub max_idle_time: u64,
}

/// The local control socket.
#[derive(Debug)]
pub struct LocalServerConfig {
    pub enable: bool,
    pub socket_path: String,
}

/// The remote control listener.
#[derive(Debug)]
pub struct RemoteServerConfig {
    pub enable: bool,
    pub listen_addr: String,
    pub user: String,
    pub host_key_path: String,
    pub authorized_keys_path: String,
    pub reverse_proxy_enable: bool,
}

/// The transparent SSH proxy.
#[derive(Debug)]
pub struct ProxyServerConfig {
    pub enable: bool,
    pub listen_addr: String,
    pub host_key_path: String,
    pub authorized_keys_path: String,
    pub sftp_server_path: Option<String>,
}

/// The daemon's listeners.
#[derive(Debug)]
pub struct ServerConfig {
    pub log_level: String,
    pub local: LocalServerConfig,
    pub remote: RemoteServerConfig,
    pub proxy: ProxyServerConfig,
}

/// The connection of this daemon, as a node, to a hub.
#[derive(Debug)]
pub struct ReverseProxyClientConfig {
    pub enable: bool,
    pub allow_host_access: bool,
    pub server_address: String,
    pub node_name: String,
    pub identity_file: String,
    pub known_hosts_path: String,
    pub shell: Option<String>,
    pub user: Option<String>,
}

/// The whole configuration.
#[derive(Debug)]
pub struct AppConfig {
    pub ssh: SshConfig,
    pub server: ServerConfig,
    pub reverse_proxy: ReverseProxyClientConfig,
    pub review_failure_action: ReviewAction,
    pub gateways: Vec<GatewayConfig>,
}

/// The outcome of looking an address up in the SSH client configuration.
#[derive(Debug)]
pub enum SshLookup {
    /// The configuration could not be read.
    Failed(String),
    NotFound,
    Found(SshHostEntry),
}

/// What the SSH client configuration says of a host.
#[derive(Debug)]
pub struct SshHostEntry {
    pub user: Option<String>,
    pub identity_file: Option<String>,
    pub proxy_command: Option<String>,
}

impl Default for ServerConfigFile {
    fn default() -> (r: Self)
        ensures
            r.servers@.len() == 0,
            r.defaults.identity_file is None,
            r.defaults.shell@.len() == 0,
    {
        ServerConfigFile {
            defaults: ServerDefaults { identity_file: None, shell: String::new() },
            servers: Vec::new(),
        }
    }
}

impl Default for AppConfig {
    /// A configuration with nothing enabled, no gateways and no fallback.
    fn default() -> (r: Self)
        ensures
            r.ssh.server_config_path@ == ""@,
            r.ssh.ssh_config_path@ == ""@,
            r.ssh.fallback@.len() == 0,
            r.ssh.max_connections_per_ip == 1,
            r.ssh.max_idle_time == 0,
            r.server.log_level@ == ""@,
            !r.server.local.enable,
            r.server.local.socket_path@ == ""@,
            !r.server.remote.enable,
            r.server.remote.listen_addr@ == ""@,
            r.server.remote.user@ == ""@,
            r.server.remote.host_key_path@ == ""@,
            r.server.remote.authorized_keys_path@ == ""@,
            !r.server.remote.reverse_proxy_enable,
            !r.server.proxy.enable,
            r.server.proxy.listen_addr@ == ""@,
            r.server.proxy.host_key_path@ == ""@,
            r.server.proxy.authorized_keys_path@ == ""@,
            r.server.proxy.sftp_server_path is None,
            !r.reverse_proxy.enable,
            !r.reverse_proxy.allow_host_access,
            r.reverse_proxy.server_address@ == ""@,
            r.reverse_proxy.node_name@ == ""@,
            r.reverse_proxy.identity_file@ == ""@,
            r.reverse_proxy.known_hosts_path@ == ""@,
            r.reverse_proxy.shell is None,
            r.reverse_proxy.user is None,
            r.review_failure_action == ReviewAction::Deny,
            r.gateways@.len() == 0,
    {
        proof {
            reveal_strlit("");
        }
        AppConfig {
            ssh: SshConfig {
                server_config_path: String::new(),
                ssh_config_path: String::new(),
                fallback: Vec::new(),
                max_connections_per_ip: 1,
                max_idle_time: 0,
            },
            server: ServerConfig {
                log_level: String::new(),
                local: LocalServerConfig { enable: false, socket_path: String::new() },
                remote: RemoteServerConfig {
                    enable: false,
                    listen_addr: String::new(),
                    user: String::new(),
                    host_key_path: String::new(),
                    authorized_keys_path: String::new(),
                    reverse_proxy_enable: false,
                },
                proxy: ProxyServerConfig {
                    enable: false,
                    listen_addr: String::new(),
                    host_key_path: String::new(),
                    authorized_keys_path: String::new(),
                    sftp_server_path: None,
                },
            },
            reverse_proxy: ReverseProxyClientConfig {
                enable: false,
                allow_host_access: false,
                server_address: String::new(),
                node_name: String::new(),
                identity_file: String::new(),
                known_hosts_path: String::new(),
                shell: None,
                user: None,
            },
            review_failure_action: ReviewAction::Deny,
            gateways: Vec::new(),
        }
    }
}

/// Whether a list of names holds `name`.
pub fn has_name(names: &[String], name: &str) -> (r: bool)
    ensures
        r == text::texts(names@).contains(name@),
{
    let mut i: usize = 0;
    while i < names.len()
        invariant
            i <= names.len(),
            forall|j: int| 0 <= j < i ==> #[trigger] text::texts(names@)[j] != name@,
        decreases names.len() - i,
    {
        if same(names[i].as_str(), name) {
            assert(text::texts(names@)[i as int] == name@);
            return true;
        }
        i += 1;
    }
    false
}

/// Whether a gateway of that name is configured.
pub fn has_gateway(gateways: &[GatewayConfig], name: &str) -> (r: bool)
    ensures
        r == gateway_names(gateways@).contains(name@),
{
    let mut i: usize = 0;
    while i < gateways.len()
        invariant
            i <= gateways.len(),
            forall|j: int| 0 <= j < i ==> #[trigger] gateway_names(gateways@)[j] != name@,
        decreases gateways.len() - i,
    {
        if same(gateways[i].name(), name) {
            assert(gateway_names(gateways@)[i as int] == name@);
            return true;
        }
        i += 1;
    }
    false
}

/// What is stated of a [`DirectAuth`] is stated of its own parts: each kind is seen as that
/// kind, with all that it holds.
pub proof fn law_direct_auth_is_seen_as_it_is(value: DirectAuth)
    ensures
        ({
            let seen = value@;
            match value {
                DirectAuth::Key { identity_file } => seen == AuthView::Key(identity_file@),
                DirectAuth::Password { password } => seen == AuthView::Password(password@),
                DirectAuth::NoAuth => seen == AuthView::NoAuth,
                DirectAuth::ReverseProxy => seen == AuthView::ReverseProxy,
            }
        }),
{
}

} // verus!
