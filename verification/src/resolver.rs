//! Target resolution: from what a user types to the gateway and target that it means.
use crate::config::{
    has_gateway, has_name, AppConfig, FallbackEntry, GatewayConfig, ServerConfigFile,
    ServerListRow, ServerListSource, SshLookup,
};
use crate::config;
use crate::gateway;
use crate::gateway::{Route, RouteView};
use crate::search;
use crate::search::chars_until;
use crate::text;
use crate::text::{concat3, digit, digits_only, from_chars, join, same, split, to_chars};
use vstd::prelude::*;

verus! {

// ---------------------------------------------------------------------------
// Names
// ---------------------------------------------------------------------------
/// The path that a source stands for.
pub open spec fn source_path(source: ServerListSource) -> Seq<char> {
    match source {
        ServerListSource::Local => "local"@,
        ServerListSource::Gateway(path) => path@,
    }
}

/// The full name of a listed server: its source, a colon, its alias.
pub open spec fn full_name(source: ServerListSource, alias: Seq<char>) -> Seq<char> {
    source_path(source) + ":"@ + alias
}

pub fn full_target_name(source: &ServerListSource, alias: &str) -> (r: String)
    ensures
        r@ == full_name(*source, alias@),
{
    match source {
        ServerListSource::Local => concat3("local", ":", alias),
        ServerListSource::Gateway(path) => concat3(path.as_str(), ":", alias),
    }
}

/// The route to a server of a source: through the first gateway of its path, with the
/// rest of the path in front of the alias.
pub open spec fn source_route(source: ServerListSource, alias: Seq<char>) -> Result<
    RouteView,
    Seq<char>,
> {
    match source {
        ServerListSource::Local => Ok(RouteView { gateway: "local"@, target: alias }),
        ServerListSource::Gateway(path) => {
            let n = search::until(path@, ':');
            let rest = path@.skip(n + 1);
            if n == 0 {
                Err("invalid empty gateway in server-list source '"@ + path@ + "'"@)
            } else if n + 1 < path@.len() {
                Ok(RouteView { gateway: path@.take(n), target: rest + ":"@ + alias })
            } else {
                Ok(RouteView { gateway: path@.take(n), target: alias })
            }
        },
    }
}

pub fn route_from_source(source: &ServerListSource, alias: &str) -> (r: Result<Route, String>)
    ensures
        match r {
            Ok(route) => source_route(*source, alias@) == Ok::<RouteView, Seq<char>>(route@),
            Err(e) => source_route(*source, alias@) == Err::<RouteView, Seq<char>>(e@),
        },
{
    match source {
        ServerListSource::Local => Ok(
            Route { gateway_name: "local".to_owned(), end_target: alias.to_owned() },
        ),
        ServerListSource::Gateway(path) => {
            let v = to_chars(path.as_str());
            let n: usize = chars_until(v.as_slice(), ':');
            if n == 0 {
                return Err(
                    concat3(
                        "invalid empty gateway in server-list source '",
                        path.as_str(),
                        "'",
                    ),
                );
            }
            let first = vstd::slice::slice_subrange(v.as_slice(), 0, n);
            assert(first@ == path@.take(n as int));
            let gateway_name = from_chars(first);
            let end_target = if v.len() - n > 1 {
                let tail = vstd::slice::slice_subrange(v.as_slice(), n + 1, v.len());
                assert(tail@ == path@.skip(n + 1));
                let rest = from_chars(tail);
                concat3(rest.as_str(), ":", alias)
            } else {
                alias.to_owned()
            };
            Ok(Route { gateway_name, end_target })
        },
    }
}

/// The parts of an explicit `gateway:target`, split at the first colon. An empty part,
/// a second colon right behind the first, and a number (a port) behind it are no such
/// target.
pub open spec fn explicit_parts(input: Seq<char>) -> Option<(Seq<char>, Seq<char>)> {
    let n = search::until(input, ':');
    let target = input.skip(n + 1);
    if n >= input.len() || n == 0 || target.len() == 0 || target[0] == ':' || text::all_digits(
        target,
    ) {
        None
    } else {
        Some((input.take(n), target))
    }
}

/// Parse an input as `<gateway_name>:<end_target>`, split at the first colon.
pub fn parse_explicit_qualified(input: &str) -> (r: Option<(&str, &str)>)
    ensures
        match r {
            Some((g, t)) => explicit_parts(input@) == Some((g@, t@)),
            None => explicit_parts(input@) is None,
        },
{
    let v = to_chars(input);
    let n: usize = chars_until(v.as_slice(), ':');
    if n >= v.len() || n == 0 || v.len() - n < 2 || v[n + 1] == ':' {
        return None;
    }
    let target = input.substring_char(n + 1, v.len());
    assert(target@ == input@.skip(n + 1));
    let mut i: usize = n + 1;
    while i < v.len() && digit(v[i])
        invariant
            n + 1 <= i <= v.len(),
            v@ == input@,
            forall|j: int| n + 1 <= j < i ==> text::is_digit(#[trigger] v@[j]),
        decreases v.len() - i,
    {
        i += 1;
    }
    if i == v.len() {
        assert forall|j: int| 0 <= j < target@.len() implies text::is_digit(
            #[trigger] target@[j],
        ) by {
            assert(target@[j] == v@[n + 1 + j]);
        }
        return None;
    }
    assert(!text::is_digit(target@[i - n - 1]));
    let gateway_name = input.substring_char(0, n);
    assert(gateway_name@ == input@.take(n as int));
    Some((gateway_name, target))
}

/// The last four parts of a name that is split at its hyphens are all digits.
pub open spec fn has_ip_suffix(parts: Seq<Seq<char>>) -> bool {
    parts.len() >= 4 && forall|i: int|
        parts.len() - 4 <= i < parts.len() ==> text::all_digits(#[trigger] parts[i])
}

/// The address that a host name ends with, written with hyphens; else the name itself.
pub open spec fn target_ip(input: Seq<char>) -> Seq<char> {
    let parts = text::split_of(input, '-');
    if has_ip_suffix(parts) {
        text::join_of(parts.skip(parts.len() - 4), "."@)
    } else {
        input
    }
}

/// Derive an address from a host name like `foo-192-0-2-163`.
pub fn derive_target_ip(input: &str) -> (r: String)
    ensures
        r@ == target_ip(input@),
{
    let parts = split(input, '-');
    let ghost views = text::split_of(input@, '-');
    assert(views == text::texts(parts@));
    if parts.len() >= 4 {
        let start: usize = parts.len() - 4;
        let mut i: usize = start;
        let mut ok = true;
        while i < parts.len() && ok
            invariant
                start == parts.len() - 4,
                start <= i <= parts.len(),
                views == text::texts(parts@),
                ok ==> forall|j: int| start <= j < i ==> text::all_digits(#[trigger] views[j]),
                !ok ==> exists|j: int|
                    start <= j < parts.len() && !text::all_digits(#[trigger] views[j]),
            decreases parts.len() - i,
        {
            assert(views[i as int] == parts@[i as int]@);
            if !digits_only(parts[i].as_str()) {
                ok = false;
            }
            i += 1;
        }
        if ok {
            let tail = vstd::slice::slice_subrange(parts.as_slice(), start, parts.len());
            assert(text::texts(tail@) == views.skip(views.len() - 4));
            return join(tail, ".");
        }
    }
    input.to_owned()
}

// ---------------------------------------------------------------------------
// The resolver's model
// ---------------------------------------------------------------------------
/// What the lookup in the SSH client configuration came to.
pub enum LookupView {
    Failed(Seq<char>),
    NotFound,
    Found { user: bool, identity_file: bool, proxy_command: bool },
}

pub open spec fn lookup_view(lookup: SshLookup) -> LookupView {
    match lookup {
        SshLookup::Failed(e) => LookupView::Failed(e@),
        SshLookup::NotFound => LookupView::NotFound,
        SshLookup::Found(entry) => LookupView::Found {
            user: entry.user is Some,
            identity_file: entry.identity_file is Some,
            proxy_command: entry.proxy_command is Some,
        },
    }
}

/// A match of a bare alias: the full name and the route.
#[verifier::ext_equal]
pub struct Match {
    pub name: Seq<char>,
    pub route: RouteView,
}

/// What a target resolves to: routes in order of preference, and a warning.
#[verifier::ext_equal]
pub struct Resolved {
    pub routes: Seq<RouteView>,
    pub warning: Option<Seq<char>>,
}

/// All that a resolution depends on besides the target.
pub struct ResolverModel {
    pub fallback: Seq<FallbackEntry>,
    pub servers: Seq<(Seq<char>, Seq<char>)>,
    pub gateways: Seq<Seq<char>>,
    pub dynamic: Seq<Seq<char>>,
    pub rows: Seq<ServerListRow>,
    pub unresolved: Seq<Seq<char>>,
    pub ssh: LookupView,
}

/// The first index of a server with the given alias.
pub open spec fn alias_index(servers: Seq<(Seq<char>, Seq<char>)>, alias: Seq<char>) -> int
    decreases servers.len(),
{
    if servers.len() == 0 || servers[0].0 == alias {
        0
    } else {
        1 + alias_index(servers.skip(1), alias)
    }
}

/// The first index of a server with the given host.
pub open spec fn host_index(servers: Seq<(Seq<char>, Seq<char>)>, host: Seq<char>) -> int
    decreases servers.len(),
{
    if servers.len() == 0 || servers[0].1 == host {
        0
    } else {
        1 + host_index(servers.skip(1), host)
    }
}

pub open spec fn local_route(target: Seq<char>) -> RouteView {
    RouteView { gateway: "local"@, target }
}

impl ResolverModel {
    /// The route to the configured server of that alias.
    pub open spec fn local_by_alias(self, alias: Seq<char>) -> Option<RouteView> {
        if alias_index(self.servers, alias) < self.servers.len() && !self.unresolved.contains(
            alias,
        ) {
            Some(local_route(alias))
        } else {
            None
        }
    }

    /// The route to the first configured server with that host.
    pub open spec fn local_by_host(self, host: Seq<char>) -> Option<RouteView> {
        let i = host_index(self.servers, host);
        if i < self.servers.len() && !self.unresolved.contains(self.servers[i].0) {
            Some(local_route(self.servers[i].0))
        } else {
            None
        }
    }

    /// The configured server that a bare name means: by alias, by host, or by the
    /// address derived from the name.
    pub open spec fn configured(self, input: Seq<char>) -> Option<RouteView> {
        if self.local_by_alias(input) is Some {
            self.local_by_alias(input)
        } else if self.local_by_host(input) is Some {
            self.local_by_host(input)
        } else if target_ip(input) != input {
            self.local_by_host(target_ip(input))
        } else {
            None
        }
    }

    /// A route of an explicit `gateway:target`.
    pub open spec fn explicit(self, name: Seq<char>, target: Seq<char>) -> Result<
        Seq<RouteView>,
        Seq<char>,
    > {
        let full = name + ":"@ + target;
        if name == "local"@ {
            match self.local_by_alias(target) {
                Some(route) => Ok(seq![route]),
                None => Err("server alias '"@ + target + "' not found in local server config"@),
            }
        } else if !self.gateways.contains(name) && !self.dynamic.contains(name) {
            Err("gateway name '"@ + name + "' not found"@)
        } else if self.rows.len() > 0 && !self.lists(full) {
            Err("target '"@ + full + "' not found in merged server list"@)
        } else {
            Ok(seq![RouteView { gateway: name, target }])
        }
    }

    /// The merged list holds a server of that full name.
    pub open spec fn lists(self, full: Seq<char>) -> bool {
        exists|i: int|
            0 <= i < self.rows.len() && full_name(
                (#[trigger] self.rows[i]).source,
                self.rows[i].server.alias@,
            ) == full
    }

    /// The fallback sources' routes, in declared order.
    pub open spec fn fallback_routes(self, input: Seq<char>, n: int) -> Result<
        Seq<RouteView>,
        Seq<char>,
    >
        decreases n,
    {
        if n <= 0 {
            Ok(Seq::empty())
        } else {
            match self.fallback_routes(input, n - 1) {
                Err(e) => Err(e),
                Ok(routes) => match self.fallback[n - 1] {
                    FallbackEntry::Gateway(name) => if self.gateways.contains(name@) {
                        Ok(routes.push(RouteView { gateway: name@, target: input }))
                    } else {
                        Err(
                            "ssh.fallback references gateway '"@ + name@
                                + "' which is not defined in [[gateways]]"@,
                        )
                    },
                    FallbackEntry::Local => match self.ssh {
                        LookupView::Failed(e) => Err(e),
                        LookupView::NotFound => Ok(routes),
                        LookupView::Found { user, identity_file, proxy_command } => {
                            if proxy_command {
                                Err("ProxyCommand is not supported for direct SSH targets"@)
                            } else if user && identity_file {
                                Ok(routes.push(local_route(input)))
                            } else {
                                Ok(routes)
                            }
                        },
                    },
                },
            }
        }
    }

    /// What an input resolves to.
    pub open spec fn resolve(self, input: Seq<char>) -> Result<Resolved, Seq<char>> {
        match explicit_parts(input) {
            Some((name, target)) => match self.explicit(name, target) {
                Ok(routes) => Ok(Resolved { routes, warning: None }),
                Err(e) => Err(e),
            },
            None => if self.rows.len() > 0 {
                match merged_matches(self.rows, input) {
                    Err(e) => Err(e),
                    Ok(matches) => if matches.len() > 0 {
                        Ok(chosen(matches, input))
                    } else {
                        self.from_fallback(input)
                    },
                }
            } else {
                match self.configured(input) {
                    Some(route) => Ok(Resolved { routes: seq![route], warning: None }),
                    None => self.from_fallback(input),
                }
            },
        }
    }

    /// What the fallback sources make of an input; no route at all is an error.
    pub open spec fn from_fallback(self, input: Seq<char>) -> Result<Resolved, Seq<char>> {
        match self.fallback_routes(input, self.fallback.len() as int) {
            Err(e) => Err(e),
            Ok(routes) => if routes.len() == 0 {
                Err(
                    "target '"@ + input
                        + "' does not match any server config entry or ssh.fallback source"@,
                )
            } else {
                Ok(Resolved { routes, warning: None })
            },
        }
    }
}

/// The names of some matches.
pub open spec fn match_names(matches: Seq<Match>) -> Seq<Seq<char>> {
    Seq::new(matches.len(), |i: int| matches[i].name)
}

/// The distinct servers of the merged list that bear an alias, in the list's order.
pub open spec fn merged_matches(rows: Seq<ServerListRow>, alias: Seq<char>) -> Result<
    Seq<Match>,
    Seq<char>,
>
    decreases rows.len(),
{
    if rows.len() == 0 {
        Ok(Seq::empty())
    } else {
        match merged_matches(rows.drop_last(), alias) {
            Err(e) => Err(e),
            Ok(matches) => {
                let row = rows.last();
                let name = full_name(row.source, alias);
                if row.server.alias@ != alias || match_names(matches).contains(name) {
                    Ok(matches)
                } else {
                    match source_route(row.source, alias) {
                        Err(e) => Err(e),
                        Ok(route) => Ok(matches.push(Match { name, route })),
                    }
                }
            },
        }
    }
}

/// The first match is taken; where there are others, a warning names them all.
pub open spec fn chosen(matches: Seq<Match>, alias: Seq<char>) -> Resolved {
    Resolved {
        routes: seq![matches[0].route],
        warning: if matches.len() > 1 {
            Some(
                "warning: target '"@ + alias + "' matched multiple sources; using "@
                    + matches[0].name + "; also found "@ + text::join_of(
                    match_names(matches).skip(1),
                    ", "@,
                ),
            )
        } else {
            None
        },
    }
}

// ---------------------------------------------------------------------------
// The resolver
// ---------------------------------------------------------------------------
/// Route candidates and an optional warning for the user.
#[derive(Debug)]
pub struct ResolveResult {
    pub routes: Vec<Route>,
    pub warning: Option<String>,
}

impl ResolveResult {
    pub open spec fn resolved(&self) -> Resolved {
        Resolved {
            routes: gateway::route_views(self.routes@),
            warning: text::opt(self.warning),
        }
    }
}

/// Maps a target to its candidate routes. The same inputs always give the same routes.
pub struct Resolver<'a> {
    config: &'a AppConfig,
    server_config: &'a ServerConfigFile,
    gateways: &'a [GatewayConfig],
    merged_rows: &'a [ServerListRow],
    dynamic: &'a [String],
    unresolved: &'a [String],
    ssh: Option<&'a SshLookup>,
}

/// Alias and host of each configured server.
pub open spec fn server_views(file: ServerConfigFile) -> Seq<(Seq<char>, Seq<char>)> {
    Seq::new(file.servers@.len(), |i: int| (file.servers@[i].0@, file.servers@[i].1.host@))
}

/// The model of a resolver's inputs.
pub open spec fn resolver_model(
    config: AppConfig,
    server_config: ServerConfigFile,
    gateways: Seq<GatewayConfig>,
    rows: Seq<ServerListRow>,
) -> ResolverModel {
    ResolverModel {
        fallback: config.ssh.fallback@,
        servers: server_views(server_config),
        gateways: config::gateway_names(gateways),
        dynamic: Seq::empty(),
        rows,
        unresolved: Seq::empty(),
        ssh: LookupView::NotFound,
    }
}

impl<'a> View for Resolver<'a> {
    type V = ResolverModel;

    closed spec fn view(&self) -> ResolverModel {
        ResolverModel {
            fallback: self.config.ssh.fallback@,
            servers: server_views(*self.server_config),
            gateways: config::gateway_names(self.gateways@),
            dynamic: text::texts(self.dynamic@),
            rows: self.merged_rows@,
            unresolved: text::texts(self.unresolved@),
            ssh: match self.ssh {
                Some(lookup) => lookup_view(*lookup),
                None => LookupView::NotFound,
            },
        }
    }
}

proof fn lemma_alias_index(servers: Seq<(Seq<char>, Seq<char>)>, alias: Seq<char>, i: int)
    requires
        0 <= i <= servers.len(),
        forall|j: int| 0 <= j < i ==> (#[trigger] servers[j]).0 != alias,
        i < servers.len() ==> servers[i].0 == alias,
    ensures
        alias_index(servers, alias) == i,
    decreases i,
{
    if i > 0 {
        assert(servers[0].0 != alias);
        assert forall|j: int| 0 <= j < i - 1 implies (#[trigger] servers.skip(1)[j]).0 != alias by {
            assert(servers.skip(1)[j] == servers[j + 1]);
        }
        if i < servers.len() {
            assert(servers.skip(1)[i - 1] == servers[i]);
        }
        lemma_alias_index(servers.skip(1), alias, i - 1);
    }
}

proof fn lemma_host_index(servers: Seq<(Seq<char>, Seq<char>)>, host: Seq<char>, i: int)
    requires
        0 <= i <= servers.len(),
        forall|j: int| 0 <= j < i ==> (#[trigger] servers[j]).1 != host,
        i < servers.len() ==> servers[i].1 == host,
    ensures
        host_index(servers, host) == i,
    decreases i,
{
    if i > 0 {
        assert(servers[0].1 != host);
        assert forall|j: int| 0 <= j < i - 1 implies (#[trigger] servers.skip(1)[j]).1 != host by {
            assert(servers.skip(1)[j] == servers[j + 1]);
        }
        if i < servers.len() {
            assert(servers.skip(1)[i - 1] == servers[i]);
        }
        lemma_host_index(servers.skip(1), host, i - 1);
    }
}

/// A route of the model and one that was built are the same.
pub open spec fn same_route(r: Option<Route>, m: Option<RouteView>) -> bool {
    match r {
        Some(route) => m == Some(route@),
        None => m is None,
    }
}

impl<'a> Resolver<'a> {
    pub fn new(
        config: &'a AppConfig,
        server_config: &'a ServerConfigFile,
        gateways: &'a [GatewayConfig],
    ) -> (r: Self)
        ensures
            r@ == resolver_model(*config, *server_config, gateways@, Seq::empty()),
    {
        let rows: &'a [ServerListRow] = &[];
        assert(rows@ == Seq::<ServerListRow>::empty());
        Self::with_merged_view(config, server_config, gateways, rows)
    }

    /// A resolver with the merged server list, by which bare aliases are told apart.
    pub fn with_merged_view(
        config: &'a AppConfig,
        server_config: &'a ServerConfigFile,
        gateways: &'a [GatewayConfig],
        merged_rows: &'a [ServerListRow],
    ) -> (r: Self)
        ensures
            r@ == resolver_model(*config, *server_config, gateways@, merged_rows@),
    {
        let r = Resolver {
            config,
            server_config,
            gateways,
            merged_rows,
            dynamic: &[],
            unresolved: &[],
            ssh: None,
        };
        assert(r@.dynamic == Seq::<Seq<char>>::empty());
        assert(r@.unresolved == Seq::<Seq<char>>::empty());
        r
    }

    /// The names of connected nodes, which explicit targets may use as gateways.
    pub fn with_dynamic_gateways(self, names: &'a [String]) -> (r: Self)
        ensures
            r@ == (ResolverModel { dynamic: text::texts(names@), ..self@ }),
    {
        Resolver { dynamic: names, ..self }
    }

    /// The aliases of configured servers whose entries cannot be completed, for want of
    /// a secret for instance. They count as absent.
    pub fn with_unresolved_servers(self, aliases: &'a [String]) -> (r: Self)
        ensures
            r@ == (ResolverModel { unresolved: text::texts(aliases@), ..self@ }),
    {
        Resolver { unresolved: aliases, ..self }
    }

    /// What the SSH client configuration says of the address derived from the target.
    pub fn with_ssh_lookup(self, lookup: &'a SshLookup) -> (r: Self)
        ensures
            r@ == (ResolverModel { ssh: lookup_view(*lookup), ..self@ }),
    {
        Resolver { ssh: Some(lookup), ..self }
    }

    fn lookup_local_server(&self, alias: &str) -> (r: Option<Route>)
        ensures
            same_route(r, self@.local_by_alias(alias@)),
    {
        let servers = &self.server_config.servers;
        let ghost views = server_views(*self.server_config);
        let mut i: usize = 0;
        while i < servers.len() && !same(servers[i].0.as_str(), alias)
            invariant
                i <= servers.len(),
                servers == self.server_config.servers,
                views == server_views(*self.server_config),
                forall|j: int| 0 <= j < i ==> (#[trigger] views[j]).0 != alias@,
            decreases servers.len() - i,
        {
            i += 1;
        }
        proof {
            lemma_alias_index(views, alias@, i as int);
        }
        if i < servers.len() && !has_name(self.unresolved, alias) {
            Some(Route { gateway_name: "local".to_owned(), end_target: alias.to_owned() })
        } else {
            None
        }
    }

    fn lookup_local_server_by_host(&self, host: &str) -> (r: Option<Route>)
        ensures
            same_route(r, self@.local_by_host(host@)),
    {
        let servers = &self.server_config.servers;
        let ghost views = server_views(*self.server_config);
        let mut i: usize = 0;
        while i < servers.len() && !same(servers[i].1.host.as_str(), host)
            invariant
                i <= servers.len(),
                servers == self.server_config.servers,
                views == server_views(*self.server_config),
                forall|j: int| 0 <= j < i ==> (#[trigger] views[j]).1 != host@,
            decreases servers.len() - i,
        {
            i += 1;
        }
        proof {
            lemma_host_index(views, host@, i as int);
        }
        if i < servers.len() && !has_name(self.unresolved, servers[i].0.as_str()) {
            Some(Route { gateway_name: "local".to_owned(), end_target: servers[i].0.clone() })
        } else {
            None
        }
    }

    /// The configured server that a bare name means.
    fn server_config_route(&self, input: &str) -> (r: Option<Route>)
        ensures
            same_route(r, self@.configured(input@)),
    {
        if let Some(route) = self.lookup_local_server(input) {
            return Some(route);
        }
        if let Some(route) = self.lookup_local_server_by_host(input) {
            return Some(route);
        }
        let ip = derive_target_ip(input);
        if !same(ip.as_str(), input) {
            self.lookup_local_server_by_host(ip.as_str())
        } else {
            None
        }
    }

    /// Resolve an explicit `gateway:target`.
    fn resolve_explicit(&self, jump_name: &str, server_alias: &str) -> (r: Result<
        Vec<Route>,
        String,
    >)
        ensures
            match r {
                Ok(routes) => self@.explicit(jump_name@, server_alias@) == Ok::<
                    Seq<RouteView>,
                    Seq<char>,
                >(gateway::route_views(routes@)),
                Err(e) => self@.explicit(jump_name@, server_alias@) == Err::<
                    Seq<RouteView>,
                    Seq<char>,
                >(e@),
            },
    {
        if same(jump_name, "local") {
            return match self.lookup_local_server(server_alias) {
                Some(route) => {
                    let mut routes: Vec<Route> = Vec::new();
                    routes.push(route);
                    assert(gateway::route_views(routes@) == seq![route@]);
                    Ok(routes)
                },
                None => Err(
                    concat3(
                        "server alias '",
                        server_alias,
                        "' not found in local server config",
                    ),
                ),
            };
        }
        if !has_gateway(self.gateways, jump_name) && !has_name(self.dynamic, jump_name) {
            return Err(concat3("gateway name '", jump_name, "' not found"));
        }
        if self.merged_rows.len() > 0 {
            let full = concat3(jump_name, ":", server_alias);
            let mut found = false;
            let mut i: usize = 0;
            while i < self.merged_rows.len() && !found
                invariant
                    i <= self.merged_rows.len(),
                    found ==> self@.lists(full@),
                    !found ==> forall|j: int|
                        0 <= j < i ==> full_name(
                            (#[trigger] self@.rows[j]).source,
                            self@.rows[j].server.alias@,
                        ) != full@,
                decreases self.merged_rows.len() - i,
            {
                let row = &self.merged_rows[i];
                let name = full_target_name(&row.source, row.server.alias.as_str());
                assert(self@.rows[i as int] == *row);
                if same(name.as_str(), full.as_str()) {
                    found = true;
                }
                i += 1;
            }
            if !found {
                return Err(
                    concat3("target '", full.as_str(), "' not found in merged server list"),
                );
            }
        }
        let mut routes: Vec<Route> = Vec::new();
        routes.push(
            Route { gateway_name: jump_name.to_owned(), end_target: server_alias.to_owned() },
        );
        assert(gateway::route_views(routes@) == seq![
            RouteView { gateway: jump_name@, target: server_alias@ },
        ]);
        Ok(routes)
    }

    /// The distinct servers of the merged list that bear an alias.
    fn collect_matches(&self, alias: &str) -> (r: Result<Vec<(String, Route)>, String>)
        ensures
            match r {
                Ok(found) => merged_matches(self@.rows, alias@) == Ok::<Seq<Match>, Seq<char>>(
                    found_views(found@),
                ),
                Err(e) => merged_matches(self@.rows, alias@) == Err::<Seq<Match>, Seq<char>>(e@),
            },
    {
        let ghost rows = self@.rows;
        let mut found: Vec<(String, Route)> = Vec::new();
        let mut i: usize = 0;
        assert(found_views(found@) == Seq::<Match>::empty());
        while i < self.merged_rows.len()
            invariant
                i <= self.merged_rows.len(),
                rows == self@.rows,
                rows == self.merged_rows@,
                merged_matches(rows.take(i as int), alias@) == Ok::<Seq<Match>, Seq<char>>(
                    found_views(found@),
                ),
            decreases self.merged_rows.len() - i,
        {
            let row = &self.merged_rows[i];
            assert(rows.take(i + 1).drop_last() == rows.take(i as int));
            assert(rows.take(i + 1).last() == *row);
            if same(row.server.alias.as_str(), alias) {
                let name = full_target_name(&row.source, alias);
                if !has_match(&found, name.as_str()) {
                    match route_from_source(&row.source, alias) {
                        Ok(route) => {
                            let ghost before = found_views(found@);
                            let ghost m = Match { name: name@, route: route@ };
                            found.push((name, route));
                            assert(found_views(found@) == before.push(m));
                        },
                        Err(e) => {
                            proof {
                                lemma_merged_error(rows, alias@, i + 1);
                            }
                            return Err(e);
                        },
                    }
                }
            }
            i += 1;
        }
        assert(rows.take(i as int) == rows);
        Ok(found)
    }

    /// Resolve a bare alias by the merged list; none if the list does not hold it.
    fn resolve_bare_from_merged_view(&self, alias: &str) -> (r: Result<
        Option<ResolveResult>,
        String,
    >)
        ensures
            match r {
                Ok(result) => merged_matches(self@.rows, alias@) matches Ok(found) && (
                match result {
                    Some(res) => found.len() > 0 && res.resolved() == chosen(found, alias@),
                    None => found.len() == 0,
                }),
                Err(e) => merged_matches(self@.rows, alias@) == Err::<Seq<Match>, Seq<char>>(e@),
            },
    {
        let found = match self.collect_matches(alias) {
            Ok(found) => found,
            Err(e) => {
                return Err(e);
            },
        };
        let ghost views = found_views(found@);
        if found.len() == 0 {
            return Ok(None);
        }
        assert(views[0] == Match { name: found@[0].0@, route: found@[0].1@ });
        let mut routes: Vec<Route> = Vec::new();
        routes.push(found[0].1.clone());
        assert(gateway::route_views(routes@) == seq![views[0].route]);
        let warning = if found.len() > 1 {
            let mut others: Vec<String> = Vec::new();
            let mut i: usize = 1;
            while i < found.len()
                invariant
                    1 <= i <= found.len(),
                    views == found_views(found@),
                    text::texts(others@) == match_names(views).subrange(1, i as int),
                decreases found.len() - i,
            {
                let ghost before = text::texts(others@);
                others.push(found[i].0.clone());
                assert(text::texts(others@) == before.push(found@[i as int].0@));
                i += 1;
                assert(text::texts(others@) == match_names(views).subrange(1, i as int));
            }
            assert(match_names(views).subrange(1, i as int) == match_names(views).skip(1));
            let also = join(others.as_slice(), ", ");
            let mut w = text::concat5(
                "warning: target '",
                alias,
                "' matched multiple sources; using ",
                found[0].0.as_str(),
                "; also found ",
            );
            w.append(also.as_str());
            Some(w)
        } else {
            None
        };
        Ok(Some(ResolveResult { routes, warning }))
    }

    /// The fallback sources' routes, in declared order.
    fn fallback_candidates(&self, input: &str) -> (r: Result<Vec<Route>, String>)
        ensures
            match r {
                Ok(routes) => self@.fallback_routes(input@, self@.fallback.len() as int) == Ok::<
                    Seq<RouteView>,
                    Seq<char>,
                >(gateway::route_views(routes@)),
                Err(e) => self@.fallback_routes(input@, self@.fallback.len() as int) == Err::<
                    Seq<RouteView>,
                    Seq<char>,
                >(e@),
            },
    {
        let fallback = &self.config.ssh.fallback;
        let ghost model = self@;
        let mut routes: Vec<Route> = Vec::new();
        let mut i: usize = 0;
        assert(gateway::route_views(routes@) == Seq::<RouteView>::empty());
        while i < fallback.len()
            invariant
                i <= fallback.len(),
                model == self@,
                fallback@ == model.fallback,
                model.fallback_routes(input@, i as int) == Ok::<Seq<RouteView>, Seq<char>>(
                    gateway::route_views(routes@),
                ),
            decreases fallback.len() - i,
        {
            let ghost before = gateway::route_views(routes@);
            match &fallback[i] {
                FallbackEntry::Gateway(name) => {
                    if !has_gateway(self.gateways, name.as_str()) {
                        proof {
                            lemma_fallback_error(model, input@, i + 1);
                        }
                        return Err(
                            concat3(
                                "ssh.fallback references gateway '",
                                name.as_str(),
                                "' which is not defined in [[gateways]]",
                            ),
                        );
                    }
                    let route = Route { gateway_name: name.clone(), end_target: input.to_owned() };
                    routes.push(route);
                    assert(gateway::route_views(routes@) == before.push(route@));
                },
                FallbackEntry::Local => {
                    match self.ssh_config_route(input) {
                        Err(e) => {
                            proof {
                                lemma_fallback_error(model, input@, i + 1);
                            }
                            return Err(e);
                        },
                        Ok(Some(route)) => {
                            routes.push(route);
                            assert(gateway::route_views(routes@) == before.push(route@));
                        },
                        Ok(None) => {},
                    }
                },
            }
            i += 1;
        }
        Ok(routes)
    }

    /// The direct route that the SSH client configuration allows.
    fn ssh_config_route(&self, input: &str) -> (r: Result<Option<Route>, String>)
        ensures
            match self@.ssh {
                LookupView::Failed(e) => r matches Err(x) && x@ == e,
                LookupView::NotFound => r matches Ok(None),
                LookupView::Found { user, identity_file, proxy_command } => if proxy_command {
                    r matches Err(x) && x@ == "ProxyCommand is not supported for direct SSH targets"@
                } else if user && identity_file {
                    r matches Ok(Some(route)) && route@ == local_route(input@)
                } else {
                    r matches Ok(None)
                },
            },
    {
        match self.ssh {
            None => Ok(None),
            Some(lookup) => match lookup {
                SshLookup::Failed(e) => Err(e.clone()),
                SshLookup::NotFound => Ok(None),
                SshLookup::Found(entry) => {
                    if entry.proxy_command.is_some() {
                        return Err(
                            "ProxyCommand is not supported for direct SSH targets".to_owned(),
                        );
                    }
                    if entry.user.is_none() || entry.identity_file.is_none() {
                        return Ok(None);
                    }
                    Ok(
                        Some(
                            Route {
                                gateway_name: "local".to_owned(),
                                end_target: input.to_owned(),
                            },
                        ),
                    )
                },
            },
        }
    }

    /// Resolve a target into candidate routes.
    pub fn resolve(&self, input: &str) -> (r: Result<Vec<Route>, String>)
        ensures
            match r {
                Ok(routes) => self@.resolve(input@) matches Ok(res) && res.routes
                    == gateway::route_views(routes@),
                Err(e) => self@.resolve(input@) == Err::<Resolved, Seq<char>>(e@),
            },
    {
        match self.resolve_with_warning(input) {
            Ok(result) => Ok(result.routes),
            Err(e) => Err(e),
        }
    }

    /// Resolve a target into candidate routes, with a warning where an alias is
    /// ambiguous.
    pub fn resolve_with_warning(&self, input: &str) -> (r: Result<ResolveResult, String>)
        ensures
            match r {
                Ok(result) => self@.resolve(input@) == Ok::<Resolved, Seq<char>>(
                    result.resolved(),
                ),
                Err(e) => self@.resolve(input@) == Err::<Resolved, Seq<char>>(e@),
            },
    {
        if let Some((jump_name, server_alias)) = parse_explicit_qualified(input) {
            return match self.resolve_explicit(jump_name, server_alias) {
                Ok(routes) => Ok(ResolveResult { routes, warning: None }),
                Err(e) => Err(e),
            };
        }
        if self.merged_rows.len() > 0 {
            match self.resolve_bare_from_merged_view(input) {
                Ok(Some(result)) => {
                    return Ok(result);
                },
                Ok(None) => {},
                Err(e) => {
                    return Err(e);
                },
            }
        } else if let Some(route) = self.server_config_route(input) {
            let mut routes: Vec<Route> = Vec::new();
            routes.push(route);
            assert(gateway::route_views(routes@) == seq![route@]);
            return Ok(ResolveResult { routes, warning: None });
        }
        match self.fallback_candidates(input) {
            Err(e) => Err(e),
            Ok(routes) => {
                if routes.len() == 0 {
                    return Err(
                        concat3(
                            "target '",
                            input,
                            "' does not match any server config entry or ssh.fallback source",
                        ),
                    );
                }
                Ok(ResolveResult { routes, warning: None })
            },
        }
    }
}

pub open spec fn found_views(found: Seq<(String, Route)>) -> Seq<Match> {
    Seq::new(found.len(), |i: int| Match { name: found[i].0@, route: found[i].1@ })
}

fn has_match(found: &Vec<(String, Route)>, name: &str) -> (r: bool)
    ensures
        r == match_names(found_views(found@)).contains(name@),
{
    let ghost names = match_names(found_views(found@));
    let mut i: usize = 0;
    while i < found.len()
        invariant
            i <= found.len(),
            names == match_names(found_views(found@)),
            forall|j: int| 0 <= j < i ==> #[trigger] names[j] != name@,
        decreases found.len() - i,
    {
        if same(found[i].0.as_str(), name) {
            assert(names[i as int] == name@);
            return true;
        }
        i += 1;
    }
    false
}

/// An error among the first rows is the error of all.
proof fn lemma_merged_error(rows: Seq<ServerListRow>, alias: Seq<char>, n: int)
    requires
        0 <= n <= rows.len(),
        merged_matches(rows.take(n), alias) is Err,
    ensures
        merged_matches(rows, alias) == merged_matches(rows.take(n), alias),
    decreases rows.len() - n,
{
    if n < rows.len() {
        assert(rows.take(n + 1).drop_last() == rows.take(n));
        lemma_merged_error(rows, alias, n + 1);
    } else {
        assert(rows.take(n) == rows);
    }
}

/// An error among the first fallback sources is the error of all.
proof fn lemma_fallback_error(model: ResolverModel, input: Seq<char>, n: int)
    requires
        0 <= n <= model.fallback.len(),
        model.fallback_routes(input, n) is Err,
    ensures
        model.fallback_routes(input, model.fallback.len() as int) == model.fallback_routes(
            input,
            n,
        ),
    decreases model.fallback.len() - n,
{
    if n < model.fallback.len() {
        lemma_fallback_error(model, input, n + 1);
    }
}

// ---------------------------------------------------------------------------
// Laws
// ---------------------------------------------------------------------------
/// The full name of a listed server, typed as a target, is split into exactly the
/// gateway and the target of the server's route. (Left out are paths with an empty
/// segment and, for a path of one gateway, aliases that read as a port or begin with a
/// colon: those do not count as explicit targets.)
pub proof fn law_full_name_names_the_route(source: ServerListSource, alias: Seq<char>)
    requires
        source is Gateway,
        alias.len() > 0,
        ({
            let path = source_path(source);
            let n = search::until(path, ':');
            &&& n > 0
            &&& n + 1 != path.len()
            &&& n + 1 < path.len() ==> path[n + 1] != ':'
            &&& n == path.len() ==> alias[0] != ':' && !text::all_digits(alias)
        }),
    ensures
        source_route(source, alias) matches Ok(route) && explicit_parts(full_name(source, alias))
            == Some((route.gateway, route.target)),
{
    let path = source_path(source);
    let full = full_name(source, alias);
    let n = search::until(path, ':');
    search::lemma_until(path, ':');
    reveal_strlit(":");
    assert(":"@ == seq![':']);
    assert(full == path + seq![':'] + alias);
    assert forall|j: int| 0 <= j < n implies full[j] != ':' by {
        assert(full[j] == path[j]);
    }
    assert(full[n] == ':') by {
        if n < path.len() {
            assert(full[n] == path[n]);
        }
    }
    search::lemma_until_is(full, ':', n);
    assert(full.take(n) == path.take(n));
    if n < path.len() {
        let target = path.skip(n + 1) + ":"@ + alias;
        assert(full.skip(n + 1) == target);
        assert(target[0] == path[n + 1]);
        let c = path.len() - n - 1;
        assert(target[c] == ':');
        assert(!text::is_digit(target[c]));
    } else {
        assert(full.skip(n + 1) == alias);
        assert(path.take(n) == path);
    }
}

/// A configured server wins over every fallback source: without a merged list its
/// route does not depend on them.
pub proof fn law_configured_server_precedes_fallback(
    model: ResolverModel,
    other: ResolverModel,
    input: Seq<char>,
)
    requires
        explicit_parts(input) is None,
        model.rows.len() == 0,
        model.configured(input) is Some,
        other == (ResolverModel { fallback: other.fallback, ssh: other.ssh, ..model }),
    ensures
        model.resolve(input) == other.resolve(input),
        model.resolve(input) matches Ok(res) && res.routes == seq![model.configured(input)->0]
            && res.warning is None,
{
    assert(model.configured(input) == other.configured(input));
}

/// The fallback sources contribute at most one route each, to the target as typed and
/// through this machine or a configured gateway: there is no fan-out to other gateways.
pub proof fn law_fallback_has_no_fan_out(model: ResolverModel, input: Seq<char>, n: int)
    requires
        0 <= n <= model.fallback.len(),
    ensures
        model.fallback_routes(input, n) matches Ok(routes) ==> routes.len() <= n && forall|i: int|
            0 <= i < routes.len() ==> (#[trigger] routes[i]).target == input && (
            routes[i].gateway == "local"@ || model.gateways.contains(routes[i].gateway)),
    decreases n,
{
    if n > 0 {
        law_fallback_has_no_fan_out(model, input, n - 1);
    }
}

/// An empty fallback chain resolves nothing.
pub proof fn law_empty_fallback_resolves_nothing(model: ResolverModel, input: Seq<char>)
    requires
        model.fallback.len() == 0,
    ensures
        model.from_fallback(input) is Err,
{
}

/// A listed server with that alias bears that full name.
pub open spec fn lists_name(rows: Seq<ServerListRow>, alias: Seq<char>, name: Seq<char>) -> bool {
    exists|k: int|
        0 <= k < rows.len() && (#[trigger] rows[k]).server.alias@ == alias && full_name(
            rows[k].source,
            alias,
        ) == name
}

/// The matches of an alias bear distinct full names, each that of a listed server with
/// that alias, and every listed server with that alias is among them.
pub proof fn law_matches_are_the_distinct_sources(rows: Seq<ServerListRow>, alias: Seq<char>)
    ensures
        merged_matches(rows, alias) matches Ok(found) ==> {
            &&& forall|i: int, j: int|
                0 <= i < j < found.len() ==> (#[trigger] found[i]).name != (
                #[trigger] found[j]).name
            &&& forall|i: int|
                0 <= i < found.len() ==> lists_name(rows, alias, (#[trigger] found[i]).name)
            &&& forall|k: int|
                0 <= k < rows.len() && (#[trigger] rows[k]).server.alias@ == alias
                    ==> match_names(found).contains(full_name(rows[k].source, alias))
        },
    decreases rows.len(),
{
    if rows.len() > 0 {
        let init = rows.drop_last();
        law_matches_are_the_distinct_sources(init, alias);
        match merged_matches(rows, alias) {
            Ok(found) => {
                let before = merged_matches(init, alias)->Ok_0;
                let row = rows.last();
                let name = full_name(row.source, alias);
                let names = match_names(found);
                if found.len() > before.len() {
                    assert(found.drop_last() == before);
                    assert(match_names(before) == names.drop_last());
                    assert(names[found.len() - 1] == name);
                    assert forall|i: int, j: int| 0 <= i < j < found.len() implies (
                    #[trigger] found[i]).name != (#[trigger] found[j]).name by {
                        assert(found[i] == before[i]);
                        assert(match_names(before)[i] == before[i].name);
                        if j < before.len() {
                            assert(found[j] == before[j]);
                        }
                    }
                } else {
                    assert(found == before);
                }
                assert forall|i: int| 0 <= i < found.len() implies lists_name(
                    rows,
                    alias,
                    (#[trigger] found[i]).name,
                ) by {
                    if i < before.len() {
                        assert(found[i] == before[i]);
                        assert(lists_name(init, alias, before[i].name));
                        let k = choose|k: int|
                            0 <= k < init.len() && (#[trigger] init[k]).server.alias@ == alias
                                && full_name(init[k].source, alias) == before[i].name;
                        assert(rows[k] == init[k]);
                    } else {
                        assert(rows[rows.len() - 1] == row);
                    }
                }
                assert forall|k: int|
                    0 <= k < rows.len() && (#[trigger] rows[k]).server.alias@
                        == alias implies names.contains(full_name(rows[k].source, alias)) by {
                    if k < init.len() {
                        assert(init[k] == rows[k]);
                        let i = choose|i: int|
                            0 <= i < before.len() && #[trigger] match_names(before)[i]
                                == full_name(rows[k].source, alias);
                        assert(names[i] == match_names(before)[i]);
                    } else if found.len() == before.len() {
                        assert(match_names(before) == names);
                    }
                }
            },
            Err(_) => {},
        }
    }
}

/// The fallback entry yields a route: a gateway always does, this machine does where the SSH
/// client configuration names a user and a key for the target.
pub open spec fn yields(model: ResolverModel, entry: FallbackEntry) -> bool {
    match entry {
        FallbackEntry::Gateway(_) => true,
        FallbackEntry::Local => model.ssh matches LookupView::Found { user, identity_file, .. }
            && user && identity_file,
    }
}

/// The entry rules a fallback out: a gateway that is not configured, or a lookup that failed or
/// asks for a command in between.
pub open spec fn rules_out(model: ResolverModel, entry: FallbackEntry) -> bool {
    match entry {
        FallbackEntry::Gateway(name) => !model.gateways.contains(name@),
        FallbackEntry::Local => model.ssh is Failed || (model.ssh matches LookupView::Found {
            proxy_command,
            ..
        } && proxy_command),
    }
}

/// The route goes to the target as typed, over the fallback entry.
pub open spec fn goes_over(route: RouteView, entry: FallbackEntry, input: Seq<char>) -> bool {
    &&& route.target == input
    &&& match entry {
        FallbackEntry::Gateway(name) => route.gateway == name@,
        FallbackEntry::Local => route.gateway == "local"@,
    }
}

/// Each of the first `n` fallback entries that yields a route gives the next one: entry
/// `from[i]` gives route `i`.
pub open spec fn in_declared_order(
    model: ResolverModel,
    input: Seq<char>,
    n: int,
    routes: Seq<RouteView>,
    from: Seq<int>,
) -> bool {
    &&& from.len() == routes.len()
    &&& forall|i: int|
        0 <= i < from.len() ==> 0 <= #[trigger] from[i] < n && yields(
            model,
            model.fallback[from[i]],
        ) && goes_over(routes[i], model.fallback[from[i]], input)
    &&& forall|i: int, j: int| 0 <= i < j < from.len() ==> #[trigger] from[i] < #[trigger] from[j]
    &&& forall|k: int|
        0 <= k < n && yields(model, #[trigger] model.fallback[k]) ==> from.contains(k)
}

/// The routes of the fallback chain stand in the declared order of their entries: route for
/// route they go over the entries that yield one, the first over the first of these. The chain
/// fails exactly where one of its entries rules it out.
pub proof fn law_fallback_keeps_declared_order(model: ResolverModel, input: Seq<char>, n: int) -> (from:
    Seq<int>)
    requires
        0 <= n <= model.fallback.len(),
    ensures
        match model.fallback_routes(input, n) {
            Ok(routes) => in_declared_order(model, input, n, routes, from) && forall|k: int|
                0 <= k < n ==> !rules_out(model, #[trigger] model.fallback[k]),
            Err(_) => exists|k: int| 0 <= k < n && rules_out(model, #[trigger] model.fallback[k]),
        },
    decreases n,
{
    if n == 0 {
        Seq::empty()
    } else {
        let before = law_fallback_keeps_declared_order(model, input, n - 1);
        let entry = model.fallback[n - 1];
        match model.fallback_routes(input, n - 1) {
            Err(_) => {
                let k = choose|k: int|
                    0 <= k < n - 1 && rules_out(model, #[trigger] model.fallback[k]);
                assert(rules_out(model, model.fallback[k]));
                before
            },
            Ok(routes) => match model.fallback_routes(input, n) {
                Err(_) => {
                    assert(rules_out(model, model.fallback[n - 1]));
                    before
                },
                Ok(all) => {
                    let from = if yields(model, entry) {
                        before.push(n - 1)
                    } else {
                        before
                    };
                    assert forall|i: int| 0 <= i < from.len() implies 0 <= #[trigger] from[i] < n
                        && yields(model, model.fallback[from[i]]) && goes_over(
                        all[i],
                        model.fallback[from[i]],
                        input,
                    ) by {
                        if i < before.len() {
                            assert(from[i] == before[i]);
                            assert(all[i] == routes[i]);
                        }
                    }
                    assert forall|k: int|
                        0 <= k < n && yields(
                            model,
                            #[trigger] model.fallback[k],
                        ) implies from.contains(k) by {
                        if k < n - 1 {
                            let i = choose|i: int| 0 <= i < before.len() && before[i] == k;
                            assert(from[i] == k);
                        } else {
                            assert(from[from.len() - 1] == k);
                        }
                    }
                    from
                },
            },
        }
    }
}

/// A bare name that no list and no configured server bears is resolved by the whole fallback
/// chain.
pub proof fn law_unknown_names_go_to_the_fallback(model: ResolverModel, input: Seq<char>)
    requires
        !input.contains(':'),
        model.rows.len() == 0,
        forall|i: int|
            0 <= i < model.servers.len() ==> (#[trigger] model.servers[i]).0 != input
                && model.servers[i].1 != input && model.servers[i].1 != target_ip(input),
    ensures
        ({
            let n = model.fallback.len() as int;
            match model.fallback_routes(input, n) {
                Ok(routes) => if routes.len() > 0 {
                    model.resolve(input) matches Ok(res) && res.routes == routes
                        && res.warning is None
                } else {
                    model.resolve(input) is Err
                },
                Err(e) => model.resolve(input) == Err::<Resolved, Seq<char>>(e),
            }
        }),
{
    lemma_bare(input);
    lemma_alias_index(model.servers, input, model.servers.len() as int);
    lemma_host_index(model.servers, input, model.servers.len() as int);
    lemma_host_index(model.servers, target_ip(input), model.servers.len() as int);
}

proof fn lemma_bare(input: Seq<char>)
    requires
        !input.contains(':'),
    ensures
        explicit_parts(input) is None,
{
    search::lemma_until(input, ':');
    let n = search::until(input, ':');
    if n < input.len() {
        assert(input.contains(input[n]));
    }
}

/// An explicit target goes through the gateway that it names, to the target behind the first
/// colon as it stands: for a gateway that is configured or a node that is connected, and, where
/// there is a merged list, for a server on it. No other gateway will do.
pub proof fn law_explicit_target_goes_through_its_gateway(
    model: ResolverModel,
    gateway: Seq<char>,
    target: Seq<char>,
)
    requires
        gateway.len() > 0,
        !gateway.contains(':'),
        gateway != "local"@,
        target.len() > 0,
        target[0] != ':',
        !text::all_digits(target),
    ensures
        ({
            let input = gateway + seq![':'] + target;
            let known = model.gateways.contains(gateway) || model.dynamic.contains(gateway);
            let listed = exists|i: int|
                0 <= i < model.rows.len() && source_path((#[trigger] model.rows[i]).source) + seq![
                    ':',
                ] + model.rows[i].server.alias@ == input;
            if known && (model.rows.len() == 0 || listed) {
                model.resolve(input) == Ok::<Resolved, Seq<char>>(
                    Resolved { routes: seq![RouteView { gateway, target }], warning: None },
                )
            } else {
                model.resolve(input) is Err
            }
        }),
{
    let input = gateway + seq![':'] + target;
    lemma_explicit(gateway, target);
    reveal_strlit(":");
    assert(":"@ =~= seq![':']);
    if exists|i: int|
        0 <= i < model.rows.len() && source_path((#[trigger] model.rows[i]).source) + seq![':']
            + model.rows[i].server.alias@ == input {
        let i = choose|i: int|
            0 <= i < model.rows.len() && source_path((#[trigger] model.rows[i]).source) + seq![
                ':',
            ] + model.rows[i].server.alias@ == input;
        assert(full_name(model.rows[i].source, model.rows[i].server.alias@) == input);
    }
    if model.lists(input) {
        let i = choose|i: int|
            0 <= i < model.rows.len() && full_name(
                (#[trigger] model.rows[i]).source,
                model.rows[i].server.alias@,
            ) == input;
        assert(source_path(model.rows[i].source) + seq![':'] + model.rows[i].server.alias@
            == input);
    }
}

proof fn lemma_explicit(gateway: Seq<char>, target: Seq<char>)
    requires
        gateway.len() > 0,
        !gateway.contains(':'),
        target.len() > 0,
        target[0] != ':',
        !text::all_digits(target),
    ensures
        explicit_parts(gateway + seq![':'] + target) == Some((gateway, target)),
{
    let input = gateway + seq![':'] + target;
    let n = gateway.len() as int;
    assert forall|j: int| 0 <= j < n implies input[j] != ':' by {
        assert(gateway.contains(gateway[j]));
    }
    search::lemma_until_is(input, ':', n);
    assert(input.take(n) =~= gateway);
    assert(input.skip(n + 1) =~= target);
}

/// Of this machine's own servers, an explicit target means the one with that alias; one that
/// is not there, or cannot be completed, is an error. So it is for a bare alias where there is
/// no merged list, before anything else is looked at.
pub proof fn law_local_alias_names_its_server(model: ResolverModel, alias: Seq<char>)
    requires
        alias.len() > 0,
        !alias.contains(':'),
        !text::all_digits(alias),
    ensures
        ({
            let there = (exists|i: int|
                0 <= i < model.servers.len() && (#[trigger] model.servers[i]).0 == alias)
                && !model.unresolved.contains(alias);
            let own = Resolved {
                routes: seq![RouteView { gateway: "local"@, target: alias }],
                warning: None,
            };
            let explicit = model.resolve("local"@ + seq![':'] + alias);
            &&& there ==> explicit == Ok::<Resolved, Seq<char>>(own)
            &&& !there ==> explicit is Err
            &&& there && model.rows.len() == 0 ==> model.resolve(alias) == Ok::<
                Resolved,
                Seq<char>,
            >(own)
        }),
{
    reveal_strlit("local");
    assert(alias[0] != ':') by {
        assert(alias.contains(alias[0]));
    }
    assert(!"local"@.contains(':'));
    lemma_explicit("local"@, alias);
    lemma_bare(alias);
    lemma_alias_found(model.servers, alias);
}

proof fn lemma_alias_found(servers: Seq<(Seq<char>, Seq<char>)>, alias: Seq<char>)
    ensures
        0 <= alias_index(servers, alias) <= servers.len(),
        alias_index(servers, alias) < servers.len() <==> exists|i: int|
            0 <= i < servers.len() && (#[trigger] servers[i]).0 == alias,
        alias_index(servers, alias) < servers.len() ==> servers[alias_index(servers, alias)].0
            == alias,
    decreases servers.len(),
{
    if servers.len() > 0 {
        let rest = servers.skip(1);
        lemma_alias_found(rest, alias);
        if servers[0].0 != alias {
            let n = alias_index(rest, alias);
            if n < rest.len() {
                assert(rest[n] == servers[n + 1]);
            }
            if exists|i: int| 0 <= i < servers.len() && (#[trigger] servers[i]).0 == alias {
                let i = choose|i: int|
                    0 <= i < servers.len() && (#[trigger] servers[i]).0 == alias;
                assert(rest[i - 1] == servers[i]);
            }
        }
    }
}

/// Without a merged list, a name that is no alias means the first configured server with that
/// host, and after that the one with the address that the name ends with.
pub proof fn law_host_names_its_server(model: ResolverModel, input: Seq<char>, k: int)
    requires
        !input.contains(':'),
        model.rows.len() == 0,
        0 <= k < model.servers.len(),
        !model.unresolved.contains(model.servers[k].0),
        forall|i: int| 0 <= i < model.servers.len() ==> (#[trigger] model.servers[i]).0 != input,
        ({
            let host = model.servers[k].1;
            ||| host == input
            ||| host == target_ip(input) && forall|i: int|
                0 <= i < model.servers.len() ==> (#[trigger] model.servers[i]).1 != input
        }),
        forall|i: int| 0 <= i < k ==> (#[trigger] model.servers[i]).1 != model.servers[k].1,
    ensures
        model.resolve(input) == Ok::<Resolved, Seq<char>>(
            Resolved {
                routes: seq![RouteView { gateway: "local"@, target: model.servers[k].0 }],
                warning: None,
            },
        ),
{
    let n = model.servers.len() as int;
    lemma_bare(input);
    lemma_alias_index(model.servers, input, n);
    lemma_host_index(model.servers, model.servers[k].1, k);
    if model.servers[k].1 != input {
        lemma_host_index(model.servers, input, n);
    }
}

/// A host name that ends in four numbers, written with hyphens, stands for that address,
/// whatever comes before it.
pub proof fn law_address_is_derived_from_its_numbers(
    head: Seq<char>,
    a: Seq<char>,
    b: Seq<char>,
    c: Seq<char>,
    d: Seq<char>,
)
    requires
        text::all_digits(a),
        text::all_digits(b),
        text::all_digits(c),
        text::all_digits(d),
    ensures
        ({
            let hyphen = seq!['-'];
            let dot = seq!['.'];
            let numbers = a + hyphen + b + hyphen + c + hyphen + d;
            &&& target_ip(numbers) == a + dot + b + dot + c + dot + d
            &&& target_ip(head + hyphen + numbers) == a + dot + b + dot + c + dot + d
        }),
{
    let hyphen = seq!['-'];
    let dot = seq!['.'];
    let numbers = a + hyphen + b + hyphen + c + hyphen + d;
    reveal_strlit(".");
    assert("."@ =~= dot);
    lemma_no_hyphen(a);
    lemma_no_hyphen(b);
    lemma_no_hyphen(c);
    lemma_no_hyphen(d);
    text::lemma_split_none(a, '-');
    text::lemma_split_last(a, b, '-');
    text::lemma_split_last(a + hyphen + b, c, '-');
    text::lemma_split_last(a + hyphen + b + hyphen + c, d, '-');
    let last = seq![a, b, c, d];
    let parts = text::split_of(numbers, '-');
    assert(parts =~= last);
    let full = head + hyphen + numbers;
    let before = text::split_of(head, '-');
    text::lemma_split_last(head, a, '-');
    text::lemma_split_last(head + hyphen + a, b, '-');
    text::lemma_split_last(head + hyphen + a + hyphen + b, c, '-');
    text::lemma_split_last(head + hyphen + a + hyphen + b + hyphen + c, d, '-');
    assert(full =~= head + hyphen + a + hyphen + b + hyphen + c + hyphen + d);
    let all = text::split_of(full, '-');
    assert(all =~= before + last);
    assert(all.skip(all.len() - 4) =~= last);
    assert(parts.skip(parts.len() - 4) =~= last);
    reveal_with_fuel(text::join_of, 5);
    assert(last.drop_last() =~= seq![a, b, c]);
    assert(seq![a, b, c].drop_last() =~= seq![a, b]);
    assert(seq![a, b].drop_last() =~= seq![a]);
    assert(text::join_of(last, dot) == a + dot + b + dot + c + dot + d);
    assert(has_ip_suffix(parts));
    assert(has_ip_suffix(all));
}

proof fn lemma_no_hyphen(s: Seq<char>)
    requires
        text::all_digits(s),
    ensures
        !s.contains('-'),
{
    if s.contains('-') {
        let i = choose|i: int| 0 <= i < s.len() && s[i] == '-';
        assert(text::is_digit(s[i]));
    }
}

/// A name that ends otherwise stands for itself.
pub proof fn law_other_names_stay(input: Seq<char>)
    requires
        input.len() > 0,
        !text::is_digit(input.last()),
        input.last() != '-',
    ensures
        target_ip(input) == input,
{
    let parts = text::split_of(input, '-');
    lemma_last_part(input);
    if has_ip_suffix(parts) {
        let last = parts[parts.len() - 1];
        assert(last == parts.last());
        assert(text::all_digits(last));
        if last.len() > 0 {
            assert(text::is_digit(last[last.len() - 1]));
        }
    }
}

proof fn lemma_last_part(input: Seq<char>)
    ensures
        ({
            let parts = text::split_of(input, '-');
            &&& parts.len() > 0
            &&& parts.last().len() == 0 ==> input.len() == 0 || input.last() == '-'
            &&& parts.last().len() > 0 ==> parts.last().last() == input.last()
        }),
    decreases input.len(),
{
    search::lemma_until(input, '-');
    let n = search::until(input, '-');
    if n < input.len() {
        let rest = input.skip(n + 1);
        lemma_last_part(rest);
        let parts = text::split_of(input, '-');
        assert(parts.last() == text::split_of(rest, '-').last());
        if rest.len() == 0 {
            assert(search::until(rest, '-') == 0);
            assert(text::split_of(rest, '-') =~= seq![rest]);
            assert(input.last() == input[n]);
        } else {
            assert(rest.last() == input.last());
        }
    }
}

/// On the merged list the first server with an alias is the one that a bare alias means: its
/// route is made of its full name, the gateway being what stands before the first colon. There
/// is a warning exactly where a server of another source bears the same alias.
pub proof fn law_first_listed_server_is_taken(model: ResolverModel, alias: Seq<char>, k: int)
    requires
        !alias.contains(':'),
        0 <= k < model.rows.len(),
        model.rows[k].server.alias@ == alias,
        forall|i: int| 0 <= i < k ==> (#[trigger] model.rows[i]).server.alias@ != alias,
        merged_matches(model.rows, alias) is Ok,
    ensures
        model.resolve(alias) matches Ok(res) && res.routes.len() == 1 && (
        match model.rows[k].source {
            ServerListSource::Local => res.routes[0] == (RouteView {
                gateway: "local"@,
                target: alias,
            }),
            ServerListSource::Gateway(path) => {
                let route = res.routes[0];
                &&& !route.gateway.contains(':') && route.gateway.len() > 0
                &&& !path@.contains(':') ==> route.gateway == path@ && route.target == alias
                &&& path@.contains(':') && path@.last() != ':' ==> route.gateway + seq![':']
                    + route.target == path@ + seq![':'] + alias
            },
        }) && (res.warning is Some <==> exists|i: int|
            0 <= i < model.rows.len() && (#[trigger] model.rows[i]).server.alias@ == alias
                && source_path(model.rows[i].source) != source_path(model.rows[k].source)),
{
    lemma_bare(alias);
    let rows = model.rows;
    let found = merged_matches(rows, alias)->Ok_0;
    assert(rows.take(rows.len() as int) =~= rows);
    lemma_first_match(rows, alias, k, rows.len() as int);
    law_matches_are_the_distinct_sources(rows, alias);
    let names = match_names(found);
    assert(names[0] == found[0].name);
    if found.len() > 1 {
        assert(names[1] == found[1].name);
        assert(lists_name(rows, alias, found[1].name));
        let i = choose|i: int|
            0 <= i < rows.len() && (#[trigger] rows[i]).server.alias@ == alias && full_name(
                rows[i].source,
                alias,
            ) == found[1].name;
        assert(found[0].name != found[1].name);
        assert(source_path(rows[i].source) != source_path(rows[k].source));
    }
    if exists|i: int|
        0 <= i < rows.len() && (#[trigger] rows[i]).server.alias@ == alias && source_path(
            rows[i].source,
        ) != source_path(rows[k].source) {
        let i = choose|i: int|
            0 <= i < rows.len() && (#[trigger] rows[i]).server.alias@ == alias && source_path(
                rows[i].source,
            ) != source_path(rows[k].source);
        let name = full_name(rows[i].source, alias);
        assert(names.contains(name));
        lemma_names_differ(source_path(rows[i].source), source_path(rows[k].source), alias);
        let j = choose|j: int| 0 <= j < names.len() && names[j] == name;
        assert(j != 0);
    }
    match rows[k].source {
        ServerListSource::Local => {},
        ServerListSource::Gateway(path) => {
            let n = search::until(path@, ':');
            search::lemma_until(path@, ':');
            reveal_strlit(":");
            assert(":"@ =~= seq![':']);
            assert(!path@.take(n).contains(':'));
            if n < path@.len() {
                assert(path@.contains(path@[n]));
                assert(path@ =~= path@.take(n) + seq![':'] + path@.skip(n + 1));
                if n + 1 < path@.len() {
                    assert(path@.take(n) + seq![':'] + (path@.skip(n + 1) + seq![':'] + alias)
                        =~= path@ + seq![':'] + alias);
                } else {
                    assert(path@.last() == path@[n]);
                }
            } else {
                assert(path@.take(n) =~= path@);
            }
        },
    }
}

proof fn lemma_names_differ(a: Seq<char>, b: Seq<char>, alias: Seq<char>)
    requires
        a != b,
    ensures
        a + ":"@ + alias != b + ":"@ + alias,
{
    let x = a + ":"@ + alias;
    let y = b + ":"@ + alias;
    if x == y {
        assert(x.len() == a.len() + ":"@.len() + alias.len());
        assert(y.len() == b.len() + ":"@.len() + alias.len());
        assert(x.take(a.len() as int) =~= a);
        assert(y.take(b.len() as int) =~= b);
    }
}

/// The first server with an alias is the first match.
proof fn lemma_first_match(rows: Seq<ServerListRow>, alias: Seq<char>, k: int, n: int)
    requires
        0 <= k < rows.len(),
        0 <= n <= rows.len(),
        rows[k].server.alias@ == alias,
        forall|i: int| 0 <= i < k ==> (#[trigger] rows[i]).server.alias@ != alias,
        merged_matches(rows.take(n), alias) is Ok,
    ensures
        ({
            let found = merged_matches(rows.take(n), alias)->Ok_0;
            &&& n <= k ==> found.len() == 0
            &&& n > k ==> found.len() > 0 && found[0].name == full_name(rows[k].source, alias)
                && source_route(rows[k].source, alias) == Ok::<RouteView, Seq<char>>(
                found[0].route,
            )
        }),
    decreases n,
{
    if n > 0 {
        assert(rows.take(n).drop_last() =~= rows.take(n - 1));
        assert(rows.take(n).last() == rows[n - 1]);
        lemma_first_match(rows, alias, k, n - 1);
        let before = merged_matches(rows.take(n - 1), alias)->Ok_0;
        if n <= k {
            assert(rows[n - 1].server.alias@ != alias);
        } else if n - 1 == k {
            assert(match_names(before) =~= Seq::<Seq<char>>::empty());
        }
    }
}

/// A route that was found is the one of the model, and none is found where the model has none.
pub proof fn law_found_routes_are_those_of_the_model(r: Option<Route>, m: Option<RouteView>)
    requires
        same_route(r, m),
    ensures
        r is Some == m is Some,
        r matches Some(route) ==> m->0.gateway == route.gateway_name@ && m->0.target
            == route.end_target@,
{
}

} // verus!
