//! The gateway to configured servers that takes a connection of its own for each operation,
//! and keeps it by address afterwards.
use crate::address_pool;
use crate::address_pool::{pool_key, AddressPools, Slot};
use crate::auth;
use crate::config::{ServerConfigFile, ServerEntry, ServerListRow, ServerListSource};
use crate::direct;
use crate::direct::ResolvedTarget;
use crate::gateway;
use crate::gateway::{
    is_transport_error, operation_error, ErrorCause, ErrorKind, GatewayError, GatewayKind,
};
use crate::retry::Attempt;
use crate::text::concat3;
use vstd::prelude::*;

verus! {

/// A gateway to configured servers. The connections `T` are kept by address.
pub struct LocalGateway<T> {
    pub gateway_name: String,
    pub server_config_path: String,
    pub pools: AddressPools<T>,
}

/// What follows an operation on a connection.
pub enum LocalStep<R> {
    Done(R),
    /// The connection broke: make another one and try again.
    Reconnect,
    Fail(GatewayError),
}

/// How a connection that could not be made is reported.
pub open spec fn connect_error(key: Seq<char>, attempt: Attempt, error: Seq<char>) -> Seq<char> {
    match attempt {
        Attempt::First => "failed to connect to "@ + key + ": "@ + error,
        Attempt::Second => "retry connect failed for "@ + key + ": "@ + error,
    }
}

impl<T> LocalGateway<T> {
    pub open spec fn wf(&self) -> bool {
        self.pools.wf()
    }

    /// The settings of two gateways are the same.
    pub open spec fn same_settings(&self, other: &Self) -> bool {
        &&& self.gateway_name == other.gateway_name
        &&& self.server_config_path == other.server_config_path
        &&& self.pools.limit() == other.pools.limit()
        &&& self.pools.max_idle() == other.pools.max_idle()
    }

    /// A gateway without connections.
    pub fn new(
        gateway_name: String,
        server_config_path: String,
        max_connections_per_address: usize,
        max_idle_time: u64,
    ) -> (r: Self)
        ensures
            r.wf(),
            r.gateway_name == gateway_name,
            r.server_config_path == server_config_path,
            r.pools@ == Map::<Seq<char>, Seq<Slot<T>>>::empty(),
            r.pools.limit() == max_connections_per_address,
            r.pools.max_idle() == max_idle_time,
    {
        LocalGateway {
            gateway_name,
            server_config_path,
            pools: AddressPools::new(max_connections_per_address, max_idle_time),
        }
    }

    pub fn name(&self) -> (r: &str)
        ensures
            r@ == self.gateway_name@,
    {
        self.gateway_name.as_str()
    }

    pub fn kind(&self) -> (r: GatewayKind)
        ensures
            r == GatewayKind::Direct,
    {
        GatewayKind::Direct
    }

    /// Resolve a target by the server configuration. `completed` is the entry with its secrets
    /// in place, which counts where the target is configured.
    pub fn resolve_target(
        target: &str,
        loaded: Result<&ServerConfigFile, String>,
        completed: Result<ServerEntry, String>,
    ) -> (r: Result<ResolvedTarget, GatewayError>)
        ensures
            direct::target_resolved(r, target@, loaded, completed),
    {
        direct::resolve_target(target, loaded, completed)
    }

    /// The configured servers as rows of the list.
    pub fn list_servers(entries: Result<Vec<ServerEntry>, String>) -> (r: Result<
        Vec<ServerListRow>,
        GatewayError,
    >)
        ensures
            match entries {
                Err(e) => r matches Err(x) && x.kind == ErrorKind::Resolution && x.source@
                    == "failed to list servers: "@ + e@,
                Ok(v) => r matches Ok(rows) && rows@.len() == v@.len() && forall|i: int|
                    0 <= i < v@.len() ==> (#[trigger] rows@[i]).server == v@[i] && rows@[i].source
                        == ServerListSource::Local,
            },
    {
        direct::list_servers(entries)
    }

    /// Take an idle connection to a server, if one lives. Where there is none, one has to be
    /// made.
    pub fn get_connection<F: Fn(&T) -> bool>(&mut self, resolved: &ResolvedTarget, is_alive: F)
     -> (r: Option<Slot<T>>)
        requires
            old(self).wf(),
            forall|t: &T| #[trigger] call_requires(is_alive, (t,)),
        ensures
            final(self).wf(),
            final(self).same_settings(old(self)),
            ({
                let key = auth::address_of(resolved.host@, resolved.port as int);
                let slots = old(self).pools.idle(key);
                match r {
                    Some(slot) => exists|n: int|
                        {
                            &&& #[trigger] address_pool::found_alive(slots, n, is_alive)
                            &&& slot == slots[n]
                            &&& final(self).pools@ == old(self).pools@.insert(key, slots.take(n))
                        },
                    None => {
                        &&& address_pool::all_dead(slots, is_alive)
                        &&& final(self).pools@ == if old(self).pools@.dom().contains(key) {
                            old(self).pools@.insert(key, Seq::empty())
                        } else {
                            old(self).pools@
                        }
                    },
                }
            }),
    {
        let key = pool_key(resolved.host.as_str(), resolved.port);
        self.pools.acquire_connection(key.as_str(), is_alive)
    }

    /// The error of a connection that could not be made.
    pub fn connect_failure(resolved: &ResolvedTarget, attempt: Attempt, error: &str) -> (r:
        GatewayError)
        ensures
            r.kind == ErrorKind::Transport,
            r.source@ == connect_error(
                auth::address_of(resolved.host@, resolved.port as int),
                attempt,
                error@,
            ),
    {
        let key = pool_key(resolved.host.as_str(), resolved.port);
        let mut m = match attempt {
            Attempt::First => concat3("failed to connect to ", key.as_str(), ": "),
            Attempt::Second => concat3("retry connect failed for ", key.as_str(), ": "),
        };
        m.append(error);
        GatewayError::transport(m)
    }

    /// An operation ended. Behind a success the connection is kept, as far as there is room;
    /// behind a failure it is not. Where it broke at the first attempt, the operation is tried
    /// once more on a new one.
    pub fn finish_operation<R>(
        &mut self,
        resolved: &ResolvedTarget,
        attempt: Attempt,
        slot: Slot<T>,
        result: Result<R, (ErrorCause, String)>,
        now: u64,
    ) -> (r: LocalStep<R>)
        requires
            old(self).wf(),
        ensures
            final(self).wf(),
            final(self).same_settings(old(self)),
            ({
                let key = auth::address_of(resolved.host@, resolved.port as int);
                let idle = old(self).pools.idle(key);
                match result {
                    Ok(v) => {
                        &&& r == LocalStep::Done(v)
                        &&& final(self).pools@ == old(self).pools@.insert(
                            key,
                            if idle.len() < old(self).pools.limit() {
                                idle.push(Slot { last_used: now, ..slot })
                            } else {
                                idle
                            },
                        )
                    },
                    Err((cause, message)) => {
                        &&& final(self).pools@ == old(self).pools@
                        &&& if attempt == Attempt::First && gateway::means_transport(cause) {
                            r is Reconnect
                        } else {
                            r matches LocalStep::Fail(e) && e.kind == gateway::failure_kind(cause)
                                && e.source@ == message@
                        }
                    },
                }
            }),
            attempt == Attempt::Second ==> !(r is Reconnect),
    {
        match result {
            Ok(v) => {
                let key = pool_key(resolved.host.as_str(), resolved.port);
                self.pools.return_connection(key.as_str(), slot.id, slot.conn, now);
                LocalStep::Done(v)
            },
            Err((cause, message)) => {
                if attempt == Attempt::First && is_transport_error(&cause) {
                    LocalStep::Reconnect
                } else {
                    LocalStep::Fail(operation_error(&cause, message))
                }
            },
        }
    }

    /// The error of an interactive session that could not be started. Its connection is not
    /// kept in any case.
    pub fn interactive_failure(cause: &ErrorCause, message: String) -> (r: GatewayError)
        ensures
            r.kind == gateway::failure_kind(*cause),
            r.source@ == message@,
    {
        operation_error(cause, message)
    }

    /// Drop the connections that were idle for too long.
    pub fn prune_idle(&mut self, now: u64)
        requires
            old(self).wf(),
        ensures
            final(self).wf(),
            final(self).same_settings(old(self)),
            forall|k: Seq<char>|
                #![trigger final(self).pools@.dom().contains(k)]
                {
                    let kept = address_pool::fresh_slots(
                        old(self).pools.idle(k),
                        now,
                        old(self).pools.max_idle(),
                    );
                    &&& final(self).pools@.dom().contains(k) <==> kept.len() > 0
                    &&& kept.len() > 0 ==> final(self).pools@[k] == kept
                },
    {
        self.pools.prune_idle(now);
    }
}

} // verus!
