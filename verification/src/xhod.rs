//! The gateways to other daemons.
use crate::auth;
use crate::config;
use crate::config::{DirectAuth, ServerEntry, ServerListRow};
use crate::connections;
use crate::connections::{ConnectionStatusSnapshot, ManagedSingleton, SingletonEntry};
use crate::gateway;
use crate::gateway::{
    operation_error, Capabilities, ErrorCause, ErrorKind, GatewayError, GatewayKind,
};
use crate::listing;
use crate::listing::{remote_rows, RemoteRow};
use crate::lists;
use crate::remote;
use crate::remote::{plan_connection, rpc_failure, ConnectPlan};
use crate::retry::{after_operation, Attempt, OperationStep};
use crate::shell;
use crate::shell::build_remote_command;
use crate::text;
use crate::text::same;
use vstd::prelude::*;

verus! {

// ---------------------------------------------------------------------------
// A shared client
// ---------------------------------------------------------------------------
/// A gateway to another daemon. All operations share one client `C`, made at first use.
pub struct XhodGateway<C> {
    pub gateway_name: String,
    pub address: String,
    pub identity_file: String,
    pub known_hosts_path: String,
    pub max_idle_time: u64,
    pub client: ManagedSingleton<C>,
}

/// What follows the attempt to make a client.
pub enum ClientStep {
    /// Use the client of this generation.
    Use(u64),
    Retry,
    Fail(GatewayError),
}

/// What follows the question for the other daemon's servers.
pub enum ListStep {
    Done(Vec<ServerListRow>),
    /// The client is gone: make another one and ask again.
    Retry,
    Fail(GatewayError),
}

/// How a question for the other daemon's servers that failed is reported.
pub open spec fn list_error(error: Seq<char>) -> Seq<char> {
    "list_servers RPC failed: "@ + error
}

/// The error of a question for the other daemon's servers that failed.
pub fn list_failure(error: &str) -> (r: GatewayError)
    ensures
        r.kind == ErrorKind::Transport,
        r.source@ == list_error(error@),
{
    let mut m = "list_servers RPC failed: ".to_owned();
    m.append(error);
    GatewayError::transport(m)
}

impl<C> XhodGateway<C> {
    pub open spec fn wf(&self) -> bool {
        self.client.wf()
    }

    /// The settings of two gateways are the same.
    pub open spec fn same_settings(&self, other: &Self) -> bool {
        &&& self.gateway_name == other.gateway_name
        &&& self.address == other.address
        &&& self.identity_file == other.identity_file
        &&& self.known_hosts_path == other.known_hosts_path
        &&& self.max_idle_time == other.max_idle_time
    }

    /// A gateway without a client.
    pub fn new(
        gateway_name: String,
        address: String,
        identity_file: String,
        known_hosts_path: String,
        max_idle_time: u64,
    ) -> (r: Self)
        ensures
            r.wf(),
            r.gateway_name == gateway_name,
            r.address == address,
            r.identity_file == identity_file,
            r.known_hosts_path == known_hosts_path,
            r.max_idle_time == max_idle_time,
            r.client.current() is None,
    {
        XhodGateway {
            gateway_name,
            address,
            identity_file,
            known_hosts_path,
            max_idle_time,
            client: ManagedSingleton::new(),
        }
    }

    pub fn name(&self) -> (r: &str)
        ensures
            r@ == self.gateway_name@,
    {
        self.gateway_name.as_str()
    }

    pub fn kind(&self) -> (r: GatewayKind)
        ensures
            r == GatewayKind::Xhod,
    {
        GatewayKind::Xhod
    }

    pub fn capabilities(&self) -> (r: Capabilities)
        ensures
            r.has(Capabilities::EXEC) && r.has(Capabilities::COPY) && r.has(Capabilities::PROXY)
                && r.has(Capabilities::LIST),
    {
        Capabilities::of(true, true, true, true)
    }

    /// Where the transport of the client leads to.
    pub fn plan_transport(&self, home: Option<&str>, default_known_hosts: &str) -> (r: Result<
        ConnectPlan,
        String,
    >)
        ensures
            ({
                let p = remote::planned(
                    "xhod"@,
                    self.gateway_name@,
                    self.address@,
                    self.identity_file@,
                    self.known_hosts_path@,
                    text::opt_str(home),
                    default_known_hosts@,
                );
                match r {
                    Ok(plan) => p == Ok::<(auth::TargetView, Seq<char>), Seq<char>>(
                        (plan.target@, plan.identity_file@),
                    ),
                    Err(e) => p == Err::<(auth::TargetView, Seq<char>), Seq<char>>(e@),
                }
            }),
    {
        plan_connection(
            "xhod",
            self.gateway_name.as_str(),
            self.address.as_str(),
            self.identity_file.as_str(),
            self.known_hosts_path.as_str(),
            home,
            default_known_hosts,
        )
    }

    /// The generation of the client at hand, if there is one. Where there is none, one has to
    /// be made.
    pub fn ensure_client(&mut self, now: u64) -> (r: Option<u64>)
        requires
            old(self).wf(),
        ensures
            final(self).wf(),
            final(self).same_settings(old(self)),
            final(self).client.next() == old(self).client.next(),
            match old(self).client.current() {
                Some(e) => r == Some(e.generation) && final(self).client.current() == Some(
                    SingletonEntry { last_used: now, ..e },
                ),
                None => r is None && final(self).client.current() is None,
            },
    {
        self.client.checkout(now)
    }

    /// A client was made, or could not be. A failure is followed by a second attempt, and no
    /// third one.
    pub fn connected(&mut self, attempt: Attempt, result: Result<C, String>, now: u64) -> (r:
        ClientStep)
        requires
            old(self).wf(),
        ensures
            final(self).wf(),
            final(self).same_settings(old(self)),
            match result {
                Ok(c) => {
                    &&& r == ClientStep::Use(old(self).client.next())
                    &&& final(self).client.next() == connections::next_of(old(self).client.next())
                    &&& final(self).client.current() == Some(
                        SingletonEntry {
                            resource: c,
                            generation: old(self).client.next(),
                            last_used: now,
                        },
                    )
                },
                Err(e) => {
                    &&& final(self).client == old(self).client
                    &&& match attempt {
                        Attempt::First => r is Retry,
                        Attempt::Second => r matches ClientStep::Fail(x) && x.kind
                            == ErrorKind::Transport && x.source@
                            == "failed to establish gRPC channel over SSH for "@
                            + old(self).gateway_name@ + ": "@ + e@,
                    }
                },
            },
    {
        match result {
            Ok(c) => ClientStep::Use(self.client.insert(c, now)),
            Err(e) => match attempt {
                Attempt::First => ClientStep::Retry,
                Attempt::Second => ClientStep::Fail(
                    GatewayError::transport(rpc_failure(self.gateway_name.as_str(), e.as_str())),
                ),
            },
        }
    }

    /// Drop the client if it is of the given generation. A newer one stays.
    pub fn invalidate_client(&mut self, generation: u64) -> (r: bool)
        requires
            old(self).wf(),
        ensures
            final(self).wf(),
            final(self).same_settings(old(self)),
            final(self).client.next() == old(self).client.next(),
            r == (old(self).client.current() matches Some(e) && e.generation == generation),
            final(self).client.current() == if r {
                None
            } else {
                old(self).client.current()
            },
    {
        self.client.invalidate_generation(generation)
    }

    /// The command line for a session on the other daemon. The shell is left to the next hop.
    pub fn exec_command(argv: &[String]) -> (r: String)
        ensures
            r@ == shell::remote_command(text::texts(argv@)),
    {
        build_remote_command(argv)
    }

    /// The other daemon's answer to the question for its servers, asked through the client of
    /// a generation. A client that fails is dropped; the question is asked once more.
    pub fn list_servers(
        &mut self,
        attempt: Attempt,
        generation: u64,
        answer: Result<(Option<Vec<RemoteRow>>, Vec<ServerEntry>), String>,
    ) -> (r: ListStep)
        requires
            old(self).wf(),
        ensures
            final(self).wf(),
            final(self).same_settings(old(self)),
            final(self).client.next() == old(self).client.next(),
            match answer {
                Ok((merged, servers)) => {
                    &&& final(self).client == old(self).client
                    &&& r matches ListStep::Done(rows) && lists::views(rows@)
                        == listing::answered_rows(old(self).gateway_name@, merged, servers@)
                },
                Err(e) => {
                    &&& final(self).client.current() == match old(self).client.current() {
                        Some(c) => if c.generation == generation {
                            None
                        } else {
                            Some(c)
                        },
                        None => None,
                    }
                    &&& match attempt {
                        Attempt::First => r is Retry,
                        Attempt::Second => r matches ListStep::Fail(x) && x.kind
                            == ErrorKind::Transport && x.source@ == list_error(e@),
                    }
                },
            },
    {
        match answer {
            Ok((merged, servers)) => ListStep::Done(
                remote_rows(self.gateway_name.as_str(), merged, servers),
            ),
            Err(e) => {
                let _ = self.client.invalidate_generation(generation);
                match attempt {
                    Attempt::First => ListStep::Retry,
                    Attempt::Second => ListStep::Fail(list_failure(e.as_str())),
                }
            },
        }
    }

    /// The client, as a pool of one.
    pub fn pool_status(&self, users: usize) -> (r: ConnectionStatusSnapshot)
        ensures
            r.key@ == self.gateway_name@,
            r.capacity == 1,
            match self.client.current() {
                Some(e) => r.generation == e.generation && r.active == users && r.idle == 1,
                None => r.generation == 0 && r.active == 0 && r.idle == 0,
            },
    {
        self.client.status_snapshot(self.gateway_name.clone(), users)
    }

    /// Drop a client that nobody used for long.
    pub fn prune_idle(&mut self, users: usize, now: u64)
        requires
            old(self).wf(),
        ensures
            final(self).wf(),
            final(self).same_settings(old(self)),
            final(self).client.next() == old(self).client.next(),
            final(self).client.current() == if users == 0 && (
            old(self).client.current() matches Some(e) && now - e.last_used
                > old(self).max_idle_time) {
                None
            } else {
                old(self).client.current()
            },
    {
        let _ = self.client.prune_idle(users, now, self.max_idle_time);
    }
}

// ---------------------------------------------------------------------------
// A persistent client
// ---------------------------------------------------------------------------
/// A gateway to another daemon that keeps its client `C` until it breaks.
pub struct RhopdGateway<C> {
    pub gateway_name: String,
    pub address: String,
    pub identity_file: String,
    pub known_hosts_path: String,
    pub client: Option<C>,
}

/// A server as the other daemon lists it.
#[derive(Debug)]
pub struct ListedServer {
    pub alias: String,
    pub host: String,
    pub port: u32,
    pub user: String,
    pub auth_kind: String,
}

/// The credentials of a server that another daemon lists: their kind is known, they are not.
pub open spec fn listed_auth(kind: Seq<char>) -> config::AuthView {
    if kind == "password"@ {
        config::AuthView::Password(Seq::empty())
    } else {
        config::AuthView::Key(Seq::empty())
    }
}

/// The entry of a server that another daemon lists.
pub open spec fn listed_entry(s: ListedServer) -> config::EntryView {
    config::EntryView {
        alias: s.alias@,
        host: s.host@,
        port: (s.port as u16) as int,
        user: s.user@,
        auth: listed_auth(s.auth_kind@),
    }
}

impl<C> RhopdGateway<C> {
    /// The settings of two gateways are the same.
    pub open spec fn same_settings(&self, other: &Self) -> bool {
        &&& self.gateway_name == other.gateway_name
        &&& self.address == other.address
        &&& self.identity_file == other.identity_file
        &&& self.known_hosts_path == other.known_hosts_path
    }

    /// A gateway without a client.
    pub fn new(
        gateway_name: String,
        address: String,
        identity_file: String,
        known_hosts_path: String,
    ) -> (r: Self)
        ensures
            r == (RhopdGateway {
                gateway_name,
                address,
                identity_file,
                known_hosts_path,
                client: None::<C>,
            }),
    {
        RhopdGateway { gateway_name, address, identity_file, known_hosts_path, client: None }
    }

    pub fn name(&self) -> (r: &str)
        ensures
            r@ == self.gateway_name@,
    {
        self.gateway_name.as_str()
    }

    /// Where the transport of the client leads to.
    pub fn plan_transport(&self, home: Option<&str>, default_known_hosts: &str) -> (r: Result<
        ConnectPlan,
        String,
    >)
        ensures
            ({
                let p = remote::planned(
                    "rhopd"@,
                    self.gateway_name@,
                    self.address@,
                    self.identity_file@,
                    self.known_hosts_path@,
                    text::opt_str(home),
                    default_known_hosts@,
                );
                match r {
                    Ok(plan) => p == Ok::<(auth::TargetView, Seq<char>), Seq<char>>(
                        (plan.target@, plan.identity_file@),
                    ),
                    Err(e) => p == Err::<(auth::TargetView, Seq<char>), Seq<char>>(e@),
                }
            }),
    {
        plan_connection(
            "rhopd",
            self.gateway_name.as_str(),
            self.address.as_str(),
            self.identity_file.as_str(),
            self.known_hosts_path.as_str(),
            home,
            default_known_hosts,
        )
    }

    /// The client at hand, if there is one. Where there is none, one has to be made.
    pub fn ensure_client(&self) -> (r: Option<&C>)
        ensures
            r == match self.client {
                Some(c) => Some(&c),
                None => None,
            },
    {
        match &self.client {
            Some(c) => Some(c),
            None => None,
        }
    }

    /// A client was made, or could not be.
    pub fn connected(&mut self, result: Result<C, String>) -> (r: Result<(), GatewayError>)
        ensures
            final(self).same_settings(old(self)),
            match result {
                Ok(c) => r is Ok && final(self).client == Some(c),
                Err(e) => {
                    &&& r matches Err(x) && x.kind == ErrorKind::Transport && x.source@ == e@
                    &&& final(self).client == old(self).client
                },
            },
    {
        match result {
            Ok(c) => {
                self.client = Some(c);
                Ok(())
            },
            Err(e) => Err(GatewayError::transport(e)),
        }
    }

    /// An operation ended. A client that broke at the first attempt is dropped, and the
    /// operation is tried once more; so is the client of every second attempt that fails.
    pub fn finish_operation<R>(
        &mut self,
        attempt: Attempt,
        result: Result<R, (ErrorCause, String)>,
    ) -> (r: OperationStep<R>)
        ensures
            final(self).same_settings(old(self)),
            match result {
                Ok(v) => r == OperationStep::Done(v) && final(self).client == old(self).client,
                Err((cause, message)) => if attempt == Attempt::First && gateway::means_transport(
                    cause,
                ) {
                    r is Retry && final(self).client is None
                } else {
                    &&& r matches OperationStep::Fail { error, discard } && error.kind
                        == gateway::failure_kind(cause) && error.source@ == message@ && discard
                        == (attempt == Attempt::Second)
                    &&& final(self).client == if attempt == Attempt::Second {
                        None
                    } else {
                        old(self).client
                    }
                },
            },
    {
        let step = after_operation(attempt, result);
        let gone = match &step {
            OperationStep::Done(_) => false,
            OperationStep::Retry => true,
            OperationStep::Fail { discard, .. } => *discard,
        };
        if gone {
            self.client = None;
        }
        step
    }

    /// The error of an interactive session that could not be started.
    pub fn interactive_failure(cause: &ErrorCause, message: String) -> (r: GatewayError)
        ensures
            r.kind == gateway::failure_kind(*cause),
            r.source@ == message@,
    {
        operation_error(cause, message)
    }

    /// The servers that the other daemon lists.
    #[verifier::loop_isolation(false)]
    pub fn list_servers(answer: Result<Vec<ListedServer>, String>) -> (r: Result<
        Vec<ServerEntry>,
        GatewayError,
    >)
        ensures
            match answer {
                Err(e) => r matches Err(x) && x.kind == ErrorKind::Transport && x.source@
                    == list_error(e@),
                Ok(servers) => r matches Ok(entries) && lists::views(entries@) == Seq::new(
                    servers@.len(),
                    |i: int| listed_entry(servers@[i]),
                ),
            },
    {
        let servers = match answer {
            Err(e) => {
                return Err(list_failure(e.as_str()));
            },
            Ok(servers) => servers,
        };
        let mut entries: Vec<ServerEntry> = Vec::new();
        let mut i: usize = 0;
        while i < servers.len()
            invariant
                i <= servers.len(),
                entries@.len() == i,
                forall|j: int| 0 <= j < i ==> (#[trigger] entries@[j])@ == listed_entry(servers@[j]),
            decreases servers.len() - i,
        {
            let s = &servers[i];
            let hidden = String::new();
            assert(hidden@ =~= Seq::<char>::empty());
            let auth = if same(s.auth_kind.as_str(), "password") {
                DirectAuth::Password { password: hidden }
            } else {
                DirectAuth::Key { identity_file: hidden }
            };
            let port: u16 = #[verifier::truncate] (s.port as u16);
            entries.push(
                ServerEntry {
                    alias: s.alias.clone(),
                    host: s.host.clone(),
                    port,
                    user: s.user.clone(),
                    auth,
                },
            );
            i += 1;
        }
        assert(lists::views(entries@) =~= Seq::new(
            servers@.len(),
            |i: int| listed_entry(servers@[i]),
        ));
        Ok(entries)
    }
}

/// A listed server keeps its name, host, port and user. Its login is not told: it is one with a
/// password or one with a key.
pub proof fn law_listed_servers_keep_their_place(s: ListedServer)
    requires
        s.port <= 0xffff,
    ensures
        ({
            let entry = listed_entry(s);
            &&& entry.alias == s.alias@
            &&& entry.host == s.host@
            &&& entry.port == s.port
            &&& entry.user == s.user@
            &&& s.auth_kind@ == "password"@ ==> entry.auth == config::AuthView::Password(
                Seq::empty(),
            )
            &&& s.auth_kind@ != "password"@ ==> entry.auth == config::AuthView::Key(Seq::empty())
        }),
{
}

} // verus!
