//! The gateway that reaches configured servers itself, over pooled SSH handles.
use crate::assoc::Key;
use crate::auth;
use crate::config;
use crate::config::{DirectAuth, ServerConfigFile, ServerEntry, ServerListRow, ServerListSource};
use crate::connections;
use crate::connections::{ManagedPool, PoolLease};
use crate::gateway::{Capabilities, ErrorKind, GatewayError, GatewayKind};
use crate::shell;
use crate::shell::{build_final_command, resolve_shell};
use crate::text;
use crate::text::{concat3, decimal, same};
use vstd::prelude::*;

verus! {

/// A server as the configuration describes it.
#[derive(Debug)]
pub struct ResolvedTarget {
    pub host: String,
    pub port: u16,
    pub user: String,
    pub auth: DirectAuth,
    pub shell: Option<String>,
    pub defaults_shell: String,
}

// ---------------------------------------------------------------------------
// Keys of the pool
// ---------------------------------------------------------------------------
/// Which connections may stand for each other: the endpoint, the user and the credentials.
#[derive(Debug, PartialEq, Eq)]
pub struct DirectPoolKey {
    host: String,
    port: u16,
    user: String,
    auth_kind: &'static str,
    auth_fingerprint: String,
}

/// The mathematical counterpart of [`DirectPoolKey`].
#[verifier::ext_equal]
pub struct DirectKeyView {
    pub host: Seq<char>,
    pub port: int,
    pub user: Seq<char>,
    pub auth_kind: Seq<char>,
    pub auth_fingerprint: Seq<char>,
}

impl View for DirectPoolKey {
    type V = DirectKeyView;

    closed spec fn view(&self) -> DirectKeyView {
        DirectKeyView {
            host: self.host@,
            port: self.port as int,
            user: self.user@,
            auth_kind: self.auth_kind@,
            auth_fingerprint: self.auth_fingerprint@,
        }
    }
}

impl Key for DirectPoolKey {
    fn same_key(&self, other: &Self) -> (r: bool) {
        let r = same(self.host.as_str(), other.host.as_str()) && self.port == other.port && same(
            self.user.as_str(),
            other.user.as_str(),
        ) && same(self.auth_kind, other.auth_kind) && same(
            self.auth_fingerprint.as_str(),
            other.auth_fingerprint.as_str(),
        );
        assert(r ==> self@ =~= other@);
        r
    }

    fn copy_key(&self) -> (r: Self) {
        DirectPoolKey {
            host: self.host.clone(),
            port: self.port,
            user: self.user.clone(),
            auth_kind: self.auth_kind,
            auth_fingerprint: self.auth_fingerprint.clone(),
        }
    }
}

/// The kind of some credentials.
pub open spec fn auth_kind(a: config::AuthView) -> Seq<char> {
    match a {
        config::AuthView::Key(_) => "key"@,
        config::AuthView::Password(_) => "password"@,
        config::AuthView::NoAuth => "none"@,
        config::AuthView::ReverseProxy => "reverse_proxy"@,
    }
}

/// What tells credentials of one kind apart.
pub open spec fn auth_fingerprint(a: config::AuthView) -> Seq<char> {
    match a {
        config::AuthView::Key(f) => "key:"@ + f,
        config::AuthView::Password(p) => "password:"@ + p,
        config::AuthView::NoAuth => "none"@,
        config::AuthView::ReverseProxy => "none"@,
    }
}

/// The key of a server's connections.
pub open spec fn pool_key(host: Seq<char>, port: int, user: Seq<char>, a: config::AuthView) ->
    DirectKeyView {
    DirectKeyView {
        host,
        port,
        user,
        auth_kind: auth_kind(a),
        auth_fingerprint: auth_fingerprint(a),
    }
}

/// A key as it is shown: the credentials only by their kind.
pub open spec fn key_label(k: DirectKeyView) -> Seq<char> {
    k.user + "@"@ + auth::address_of(k.host, k.port) + " ("@ + k.auth_kind + ")"@
}

impl DirectPoolKey {
    pub fn from_resolved(resolved: &ResolvedTarget) -> (r: Self)
        ensures
            r@ == pool_key(
                resolved.host@,
                resolved.port as int,
                resolved.user@,
                resolved.auth@,
            ),
    {
        let (auth_kind, auth_fingerprint): (&'static str, String) = match &resolved.auth {
            DirectAuth::Key { identity_file } => {
                let mut f = "key:".to_owned();
                f.append(identity_file.as_str());
                ("key", f)
            },
            DirectAuth::Password { password } => {
                let mut f = "password:".to_owned();
                f.append(password.as_str());
                ("password", f)
            },
            DirectAuth::NoAuth => ("none", "none".to_owned()),
            DirectAuth::ReverseProxy => ("reverse_proxy", "none".to_owned()),
        };
        DirectPoolKey {
            host: resolved.host.clone(),
            port: resolved.port,
            user: resolved.user.clone(),
            auth_kind,
            auth_fingerprint,
        }
    }

    /// `user@host:port (kind)`.
    pub fn label(&self) -> (r: String)
        ensures
            r@ == key_label(self@),
    {
        let port = decimal(self.port as u64);
        let address = concat3(self.host.as_str(), ":", port.as_str());
        let mut r = concat3(self.user.as_str(), "@", address.as_str());
        r.append(" (");
        r.append(self.auth_kind);
        r.append(")");
        assert(r@ =~= key_label(self@));
        r
    }
}

/// Different users, endpoints or credentials never share a connection.
pub proof fn law_connections_are_not_shared(
    host1: Seq<char>,
    port1: int,
    user1: Seq<char>,
    auth1: config::AuthView,
    host2: Seq<char>,
    port2: int,
    user2: Seq<char>,
    auth2: config::AuthView,
)
    ensures
        pool_key(host1, port1, user1, auth1) == pool_key(host2, port2, user2, auth2) <==> host1
            == host2 && port1 == port2 && user1 == user2 && auth1 == auth2,
{
    reveal_strlit("key");
    reveal_strlit("password");
    reveal_strlit("none");
    reveal_strlit("reverse_proxy");
    assert("key"@.len() == 3 && "password"@.len() == 8 && "none"@.len() == 4
        && "reverse_proxy"@.len() == 13);
    if pool_key(host1, port1, user1, auth1) == pool_key(host2, port2, user2, auth2) {
        match (auth1, auth2) {
            (config::AuthView::Key(a), config::AuthView::Key(b)) => {
                lemma_prefix_cancels("key:"@, a, b);
            },
            (config::AuthView::Password(a), config::AuthView::Password(b)) => {
                lemma_prefix_cancels("password:"@, a, b);
            },
            _ => {},
        }
    }
}

proof fn lemma_prefix_cancels(p: Seq<char>, a: Seq<char>, b: Seq<char>)
    requires
        p + a == p + b,
    ensures
        a == b,
{
    assert((p + a).skip(p.len() as int) =~= a);
    assert((p + b).skip(p.len() as int) =~= b);
}

/// What is shown of a key does not depend on the secret.
pub proof fn law_label_hides_the_secret(
    host: Seq<char>,
    port: int,
    user: Seq<char>,
    secret1: Seq<char>,
    secret2: Seq<char>,
)
    ensures
        key_label(pool_key(host, port, user, config::AuthView::Password(secret1))) == key_label(
            pool_key(host, port, user, config::AuthView::Password(secret2)),
        ),
        key_label(pool_key(host, port, user, config::AuthView::Key(secret1))) == key_label(
            pool_key(host, port, user, config::AuthView::Key(secret2)),
        ),
{
}

// ---------------------------------------------------------------------------
// The gateway
// ---------------------------------------------------------------------------
/// A gateway whose connections are pooled by [`DirectPoolKey`]. `H` is an authenticated handle.
pub struct DirectGateway<H> {
    pub gateway_name: String,
    pub pool: ManagedPool<DirectPoolKey, H>,
    pub max_connections_per_address: usize,
}

/// The index of a configured server; the number of servers if it is not there.
pub open spec fn server_index(
    servers: Seq<(String, config::ServerHostConfig)>,
    alias: Seq<char>,
) -> int
    decreases servers.len(),
{
    if servers.len() == 0 || servers[0].0@ == alias {
        0
    } else {
        1 + server_index(servers.skip(1), alias)
    }
}

/// The shell on the command line; an empty one is none.
pub open spec fn cli_option(shell: Seq<char>) -> Option<Seq<char>> {
    if shell.len() == 0 {
        None
    } else {
        Some(shell)
    }
}

/// The shell that a command runs in; empty for none.
pub open spec fn effective(
    cli_shell: Seq<char>,
    no_shell: bool,
    server_shell: Option<Seq<char>>,
    defaults_shell: Seq<char>,
) -> Seq<char> {
    match shell::shell_choice(cli_option(cli_shell), no_shell, server_shell, defaults_shell) {
        Some(s) => s,
        None => Seq::empty(),
    }
}

/// Choose the shell that a command runs in.
pub fn choose_shell(
    cli_shell: &str,
    no_shell: bool,
    server_shell: Option<&str>,
    defaults_shell: &str,
) -> (r: String)
    ensures
        r@ == effective(cli_shell@, no_shell, text::opt_str(server_shell), defaults_shell@),
{
    let cli: Option<&str> = if cli_shell.is_empty() {
        None
    } else {
        Some(cli_shell)
    };
    match resolve_shell(cli, no_shell, server_shell, defaults_shell) {
        Some(s) => s,
        None => {
            let r = String::new();
            assert(r@ =~= Seq::<char>::empty());
            r
        },
    }
}

impl<H> DirectGateway<H> {
    /// A gateway without connections.
    pub fn new(gateway_name: String, max_connections_per_address: usize, max_idle_time: u64) -> (r:
        Self)
        ensures
            r.gateway_name == gateway_name,
            r.max_connections_per_address == max_connections_per_address,
            r.pool.wf(),
            r.pool.pools() == Map::<DirectKeyView, connections::PoolView<H>>::empty(),
            r.pool.limit() == if max_connections_per_address >= 1 {
                max_connections_per_address as int
            } else {
                1
            },
            r.pool.max_idle_time() == max_idle_time,
    {
        DirectGateway {
            gateway_name,
            pool: ManagedPool::new(max_connections_per_address, max_idle_time),
            max_connections_per_address,
        }
    }

    pub fn name(&self) -> (r: &str)
        ensures
            r@ == self.gateway_name@,
    {
        self.gateway_name.as_str()
    }

    pub fn kind(&self) -> (r: GatewayKind)
        ensures
            r == GatewayKind::Direct,
    {
        GatewayKind::Direct
    }

    pub fn capabilities(&self) -> (r: Capabilities)
        ensures
            r.has(Capabilities::EXEC) && r.has(Capabilities::COPY) && r.has(Capabilities::PROXY)
                && r.has(Capabilities::LIST),
    {
        Capabilities::of(true, true, true, true)
    }

    /// The shell that a command runs in: the one of the command line, else the server's, else
    /// the default one.
    pub fn effective_shell(cli_shell: &str, no_shell: bool, resolved: &ResolvedTarget) -> (r: String)
        ensures
            r@ == effective(
                cli_shell@,
                no_shell,
                text::opt(resolved.shell),
                resolved.defaults_shell@,
            ),
    {
        let server_shell: Option<&str> = match &resolved.shell {
            Some(s) => Some(s.as_str()),
            None => None,
        };
        choose_shell(cli_shell, no_shell, server_shell, resolved.defaults_shell.as_str())
    }

    /// The command line that runs some words on a server.
    pub fn exec_command(
        argv: &[String],
        cli_shell: &str,
        no_shell: bool,
        resolved: &ResolvedTarget,
    ) -> (r: String)
        ensures
            r@ == shell::final_command(
                text::texts(argv@),
                effective(
                    cli_shell@,
                    no_shell,
                    text::opt(resolved.shell),
                    resolved.defaults_shell@,
                ),
            ),
    {
        let s = Self::effective_shell(cli_shell, no_shell, resolved);
        build_final_command(argv, s.as_str())
    }

    /// A session on a handle ended: the handle is idle again if it still lives, else given up.
    pub fn session_done(&mut self, lease: PoolLease<DirectPoolKey, H>, alive: bool, now: u64)
        requires
            old(self).pool.wf(),
            old(self).pool.pool(lease.key@).active > 0,
        ensures
            final(self).pool.wf(),
            final(self).pool.same_settings(&old(self).pool),
            final(self).gateway_name == old(self).gateway_name,
            final(self).max_connections_per_address == old(self).max_connections_per_address,
            ({
                let before = old(self).pool.pool(lease.key@);
                final(self).pool.pools() == if alive {
                    old(self).pool.pools().insert(
                        lease.key@,
                        before.give_back(
                            connections::PoolEntry {
                                resource: lease.resource,
                                generation: lease.generation,
                                last_used: now,
                            },
                        ),
                    )
                } else if !old(self).pool.pools().dom().contains(lease.key@) {
                    old(self).pool.pools()
                } else if before.release().total() == 0 {
                    old(self).pool.pools().remove(lease.key@)
                } else {
                    old(self).pool.pools().insert(lease.key@, before.release())
                }
            }),
    {
        if alive {
            self.pool.return_healthy(lease, now);
        } else {
            self.pool.discard(lease);
        }
    }
}

fn resolution_failure(a: &str, b: &str, c: &str, e: &str) -> (r: GatewayError)
    ensures
        r.kind == ErrorKind::Resolution,
        r.source@ == a@ + b@ + c@ + e@,
{
    let mut m = concat3(a, b, c);
    m.append(e);
    GatewayError::resolution(m)
}

/// What a target resolves to by the server configuration: its entry, with the shells that are
/// configured for it. `completed` is the entry with its secrets in place, which counts where
/// the target is configured.
pub open spec fn target_resolved(
    r: Result<ResolvedTarget, GatewayError>,
    target: Seq<char>,
    loaded: Result<&ServerConfigFile, String>,
    completed: Result<ServerEntry, String>,
) -> bool {
    &&& r matches Err(e) ==> e.kind == ErrorKind::Resolution
    &&& match loaded {
        Err(e) => r matches Err(x) && x.source@ == "failed to load server config: "@ + e@,
        Ok(file) => {
            let n = server_index(file.servers@, target);
            &&& 0 <= n <= file.servers@.len()
            &&& if n == file.servers@.len() {
                r matches Err(x) && x.source@ == "target '"@ + target + "' not found"@
            } else {
                match completed {
                    Err(e) => r matches Err(x) && x.source@ == "failed to resolve target '"@
                        + target + "': "@ + e@,
                    Ok(entry) => r matches Ok(t) && t.host == entry.host && t.port == entry.port
                        && t.user == entry.user && t.auth == entry.auth && text::opt(t.shell)
                        == text::opt(file.servers@[n].1.shell) && t.defaults_shell@
                        == file.defaults.shell@,
                }
            }
        },
    }
}

/// Resolve a target by the server configuration.
pub fn resolve_target(
    target: &str,
    loaded: Result<&ServerConfigFile, String>,
    completed: Result<ServerEntry, String>,
) -> (r: Result<ResolvedTarget, GatewayError>)
    ensures
        target_resolved(r, target@, loaded, completed),
{
    let file = match loaded {
        Err(e) => {
            let mut m = "failed to load server config: ".to_owned();
            m.append(e.as_str());
            return Err(GatewayError::resolution(m));
        },
        Ok(file) => file,
    };
    let mut i: usize = 0;
    assert(file.servers@.skip(0) =~= file.servers@);
    while i < file.servers.len() && !same(file.servers[i].0.as_str(), target)
        invariant
            i <= file.servers.len(),
            server_index(file.servers@, target@) == i + server_index(
                file.servers@.skip(i as int),
                target@,
            ),
        decreases file.servers.len() - i,
    {
        assert(file.servers@.skip(i as int).skip(1) =~= file.servers@.skip(i + 1));
        i += 1;
    }
    if i == file.servers.len() {
        return Err(GatewayError::resolution(concat3("target '", target, "' not found")));
    }
    assert(file.servers@.skip(i as int)[0] == file.servers@[i as int]);
    match completed {
        Err(e) => Err(resolution_failure("failed to resolve target '", target, "': ", e.as_str())),
        Ok(entry) => Ok(
            ResolvedTarget {
                host: entry.host,
                port: entry.port,
                user: entry.user,
                auth: entry.auth,
                shell: match &file.servers[i].1.shell {
                    Some(s) => Some(s.clone()),
                    None => None,
                },
                defaults_shell: file.defaults.shell.clone(),
            },
        ),
    }
}

/// The configured servers as rows of the list. They are this daemon's own.
#[verifier::loop_isolation(false)]
pub fn list_servers(entries: Result<Vec<ServerEntry>, String>) -> (r: Result<
    Vec<ServerListRow>,
    GatewayError,
>)
    ensures
        match entries {
            Err(e) => r matches Err(x) && x.kind == ErrorKind::Resolution && x.source@
                == "failed to list servers: "@ + e@,
            Ok(v) => r matches Ok(rows) && rows@.len() == v@.len() && forall|i: int|
                0 <= i < v@.len() ==> (#[trigger] rows@[i]).server == v@[i] && rows@[i].source
                    == ServerListSource::Local,
        },
{
    let entries = match entries {
        Err(e) => {
            let mut m = "failed to list servers: ".to_owned();
            m.append(e.as_str());
            return Err(GatewayError::resolution(m));
        },
        Ok(v) => v,
    };
    let ghost all = entries@;
    let mut rest = entries;
    let mut rows: Vec<ServerListRow> = Vec::new();
    let ghost mut done: int = 0;
    while rest.len() > 0
        invariant
            0 <= done <= all.len(),
            rest@ == all.skip(done),
            rows@.len() == done,
            forall|i: int|
                0 <= i < done ==> (#[trigger] rows@[i]).server == all[i] && rows@[i].source
                    == ServerListSource::Local,
        decreases rest.len(),
    {
        let server = rest.remove(0);
        rows.push(ServerListRow { source: ServerListSource::Local, server });
        proof {
            done = done + 1;
            assert(rest@ =~= all.skip(done));
        }
    }
    Ok(rows)
}

/// The error of a connection that could not be made.
pub fn connect_failure(key: &DirectPoolKey, error: &str) -> (r: GatewayError)
    ensures
        r.kind == ErrorKind::Transport,
        r.source@ == "failed to connect to "@ + key_label(key@) + ": "@ + error@,
{
    let label = key.label();
    let mut m = concat3("failed to connect to ", label.as_str(), ": ");
    m.append(error);
    GatewayError::transport(m)
}

/// The error of a channel that could not be opened on a handle, which is then given up.
pub fn channel_failure(error: &str) -> (r: GatewayError)
    ensures
        r.kind == ErrorKind::Transport,
        r.source@ == "failed to open direct SSH channel: "@ + error@,
{
    let mut m = "failed to open direct SSH channel: ".to_owned();
    m.append(error);
    GatewayError::transport(m)
}

// ---------------------------------------------------------------------------
// Which server is meant
// ---------------------------------------------------------------------------
/// A server is found under its alias: the first one that has it.
pub proof fn law_first_server_of_the_alias_is_found(
    servers: Seq<(String, config::ServerHostConfig)>,
    alias: Seq<char>,
)
    ensures
        0 <= server_index(servers, alias) <= servers.len(),
        server_index(servers, alias) < servers.len() ==> servers[server_index(
            servers,
            alias,
        )].0@ == alias,
        forall|i: int|
            0 <= i < server_index(servers, alias) ==> (#[trigger] servers[i]).0@ != alias,
    decreases servers.len(),
{
    if servers.len() > 0 && servers[0].0@ != alias {
        let rest = servers.skip(1);
        law_first_server_of_the_alias_is_found(rest, alias);
        let n = server_index(servers, alias);
        assert forall|i: int| 0 <= i < n implies (#[trigger] servers[i]).0@ != alias by {
            if i > 0 {
                assert(rest[i - 1] == servers[i]);
            }
        }
        if n < servers.len() {
            assert(rest[n - 1] == servers[n]);
        }
    }
}

/// A target is reached at the host and port and as the user of the server that has its name,
/// with its login and its shell. A name that no server has is not resolved.
pub proof fn law_targets_are_servers(
    r: Result<ResolvedTarget, GatewayError>,
    target: Seq<char>,
    file: &ServerConfigFile,
    n: int,
    completed: Result<ServerEntry, String>,
)
    requires
        target_resolved(r, target, Ok(file), completed),
        0 <= n < file.servers@.len(),
        file.servers@[n].0@ == target,
        forall|i: int| 0 <= i < n ==> (#[trigger] file.servers@[i]).0@ != target,
    ensures
        completed matches Ok(entry) ==> (r matches Ok(t) && t.host@ == entry.host@ && t.port
            == entry.port && t.user@ == entry.user@ && t.auth == entry.auth && text::opt(t.shell)
            == text::opt(file.servers@[n].1.shell) && t.defaults_shell@
            == file.defaults.shell@),
        completed is Err ==> (r matches Err(e) && e.kind is Resolution),
{
    law_first_server_of_the_alias_is_found(file.servers@, target);
    let k = server_index(file.servers@, target);
    if k < n {
        assert(file.servers@[k].0@ == target);
    } else if n < k {
        assert(file.servers@[n].0@ != target);
    }
}

/// The shell of a command is that of the command line, then that of the server, then the
/// default; none where that was asked for.
pub proof fn law_nearest_shell_is_used(
    cli: Seq<char>,
    server: Seq<char>,
    defaults: Seq<char>,
)
    requires
        cli.len() > 0,
        cli != "false"@,
    ensures
        effective(cli, false, Some(server), defaults) == cli,
        effective(cli, false, None, defaults) == cli,
        effective(cli, true, Some(server), defaults).len() == 0,
        effective("false"@, false, Some(server), defaults).len() == 0,
        effective(Seq::empty(), false, Some(server), defaults) == server,
        effective(Seq::empty(), false, None, defaults) == defaults,
{
    reveal_strlit("false");
    assert("false"@.len() == 5);
    if server.len() == 0 {
        assert(server =~= Seq::<char>::empty());
    }
    if defaults.len() == 0 {
        assert(defaults =~= Seq::<char>::empty());
    }
}

} // verus!
