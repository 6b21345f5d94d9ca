//! The gateway through a menu-driven bastion.
use crate::auth::{AuthPrompt, MfaConfig};
use crate::config::JumpserverGatewayConfig;
use crate::connections::{ConnectionStatusSnapshot, ManagedSingleton};
use crate::direct;
use crate::direct::choose_shell;
use crate::gateway::{Capabilities, ErrorKind, Gateway, GatewayError, GatewayKind};
use crate::resolver;
use crate::resolver::derive_target_ip;
use crate::session_cache;
use crate::session_cache::SessionCache;
use crate::shell;
use crate::shell::build_final_command;
use crate::text;
use crate::text::concat3;
use vstd::prelude::*;

verus! {

/// A gateway through a bastion: one SSH transport `T` for all operations, and shells `S` that
/// wait on assets.
pub struct JumpserverGateway<T, S> {
    pub gateway_name: String,
    pub fields: JumpserverGatewayConfig,
    pub transport: ManagedSingleton<T>,
    pub session_cache: SessionCache<S>,
    pub max_idle_time: u64,
}

/// How an answer to the second factor is found.
#[derive(Debug)]
pub enum MfaAnswer {
    /// A one-time code of this configuration.
    Totp(MfaConfig),
    /// The user is asked.
    Ask(AuthPrompt),
}

impl<T, S> JumpserverGateway<T, S> {
    pub open spec fn wf(&self) -> bool {
        self.transport.wf() && self.session_cache.wf()
    }

    /// A gateway without connections.
    pub fn new(gateway_name: String, fields: JumpserverGatewayConfig, max_idle_time: u64) -> (r:
        Self)
        ensures
            r.wf(),
            r.gateway_name == gateway_name,
            r.fields == fields,
            r.max_idle_time == max_idle_time,
            r.transport.current() is None,
            r.session_cache.entries().len() == 0,
            r.session_cache.limit() == fields.max_cached_sessions,
    {
        let max: Option<usize> = fields.max_cached_sessions;
        JumpserverGateway {
            gateway_name,
            fields,
            transport: ManagedSingleton::new(),
            session_cache: SessionCache::new(max),
            max_idle_time,
        }
    }

    /// How one-time codes are made from a secret.
    pub fn mfa_config(&self, secret: String) -> (r: MfaConfig)
        ensures
            r.totp_secret_base32 == secret,
            r.digits == self.fields.totp_digits,
            r.period == self.fields.totp_period,
            r.digest@ == "sha1"@,
    {
        MfaConfig {
            totp_secret_base32: secret,
            digits: self.fields.totp_digits,
            period: self.fields.totp_period,
            digest: "sha1".to_owned(),
        }
    }

    /// Where the answer to the bastion's second factor comes from: a secret if there is one,
    /// else the user.
    pub fn mfa_answer(&self, secret: String) -> (r: MfaAnswer)
        ensures
            if secret@.len() > 0 {
                r matches MfaAnswer::Totp(c) && c.totp_secret_base32 == secret && c.digits
                    == self.fields.totp_digits && c.period == self.fields.totp_period
                    && c.digest@ == "sha1"@
            } else {
                r matches MfaAnswer::Ask(p) && p.gateway_name@ == self.gateway_name@ && p.message@
                    == "jumpserver '"@ + self.gateway_name@ + "' requested MFA"@ && p.secret
            },
    {
        if !secret.as_str().is_empty() {
            MfaAnswer::Totp(self.mfa_config(secret))
        } else {
            MfaAnswer::Ask(
                AuthPrompt {
                    gateway_name: self.gateway_name.clone(),
                    message: concat3(
                        "jumpserver '",
                        self.gateway_name.as_str(),
                        "' requested MFA",
                    ),
                    secret: true,
                },
            )
        }
    }

    /// The error of a transport that could not be set up.
    pub fn transport_failure(&self, error: &str) -> (r: GatewayError)
        ensures
            r.kind == ErrorKind::Transport,
            r.source@ == "failed to establish jumpserver transport for '"@ + self.gateway_name@
                + "': "@ + error@,
    {
        let mut m = concat3(
            "failed to establish jumpserver transport for '",
            self.gateway_name.as_str(),
            "': ",
        );
        m.append(error);
        GatewayError::transport(m)
    }

    /// A transport broke: it is dropped unless a newer one has taken its place, and with it
    /// all shells that wait.
    pub fn invalidate_transport(&mut self, generation: u64) -> (r: bool)
        requires
            old(self).wf(),
        ensures
            final(self).wf(),
            r == (old(self).transport.current() matches Some(e) && e.generation == generation),
            final(self).transport.current() == if r {
                None
            } else {
                old(self).transport.current()
            },
            final(self).transport.next() == old(self).transport.next(),
            final(self).session_cache.entries().len() == 0,
            final(self).session_cache.limit() == old(self).session_cache.limit(),
            final(self).gateway_name == old(self).gateway_name,
            final(self).fields == old(self).fields,
            final(self).max_idle_time == old(self).max_idle_time,
    {
        let gone = self.transport.invalidate_generation(generation);
        self.session_cache.clear();
        gone
    }

    /// A shell that waits on the asset that a target means, the newest one first. With it the
    /// menu need not be walked through.
    pub fn cached_shell(&mut self, target: &str) -> (r: Option<S>)
        requires
            old(self).wf(),
        ensures
            final(self).wf(),
            final(self).transport == old(self).transport,
            final(self).gateway_name == old(self).gateway_name,
            final(self).fields == old(self).fields,
            final(self).max_idle_time == old(self).max_idle_time,
            final(self).session_cache.limit() == old(self).session_cache.limit(),
            ({
                let before = old(self).session_cache.entries();
                let i = session_cache::newest_for(before, resolver::target_ip(target@));
                match r {
                    Some(shell) => {
                        &&& 0 <= i < before.len()
                        &&& shell == before[i].shell
                        &&& final(self).session_cache.entries() == before.remove(i)
                    },
                    None => i < 0 && final(self).session_cache.entries() == before,
                }
            }),
    {
        let ip = derive_target_ip(target);
        self.session_cache.checkout(ip.as_str())
    }

    /// The shell that a command runs in. Assets have none of their own.
    pub fn effective_shell(cli_shell: &str, no_shell: bool, defaults_shell: &str) -> (r: String)
        ensures
            r@ == direct::effective(cli_shell@, no_shell, None, defaults_shell@),
    {
        choose_shell(cli_shell, no_shell, None, defaults_shell)
    }

    /// The command line that runs some words on an asset.
    pub fn exec_command(
        argv: &[String],
        cli_shell: &str,
        no_shell: bool,
        defaults_shell: &str,
    ) -> (r: String)
        ensures
            r@ == shell::final_command(
                text::texts(argv@),
                direct::effective(cli_shell@, no_shell, None, defaults_shell@),
            ),
    {
        let s = Self::effective_shell(cli_shell, no_shell, defaults_shell);
        build_final_command(argv, s.as_str())
    }

    /// A shell came back to its prompt on an asset and waits there for the next operation.
    pub fn return_shell(&mut self, ip: String, shell: S, now: u64)
        requires
            old(self).wf(),
            old(self).session_cache.limit() != Some(0usize),
        ensures
            final(self).wf(),
            final(self).transport == old(self).transport,
            final(self).gateway_name == old(self).gateway_name,
            final(self).fields == old(self).fields,
            final(self).max_idle_time == old(self).max_idle_time,
            final(self).session_cache.limit() == old(self).session_cache.limit(),
            final(self).session_cache.entries() == session_cache::with_shell(
                old(self).session_cache.entries(),
                old(self).session_cache.limit(),
                ip,
                shell,
                now,
            ),
    {
        self.session_cache.insert(ip, shell, now);
    }

    /// A copy over a shell ended. The shell waits for the next operation if the copy succeeded.
    pub fn finish_copy(
        &mut self,
        ip: String,
        shell: S,
        result: Result<(), String>,
        now: u64,
    ) -> (r: Result<(), GatewayError>)
        requires
            old(self).wf(),
            result is Ok ==> old(self).session_cache.limit() != Some(0usize),
        ensures
            final(self).wf(),
            final(self).transport == old(self).transport,
            final(self).gateway_name == old(self).gateway_name,
            final(self).fields == old(self).fields,
            final(self).max_idle_time == old(self).max_idle_time,
            final(self).session_cache.limit() == old(self).session_cache.limit(),
            match result {
                Ok(_) => {
                    &&& r is Ok
                    &&& final(self).session_cache.entries() == session_cache::with_shell(
                        old(self).session_cache.entries(),
                        old(self).session_cache.limit(),
                        ip,
                        shell,
                        now,
                    )
                },
                Err(e) => {
                    &&& r matches Err(x) && x.kind == ErrorKind::Execution && x.source@ == e@
                    &&& final(self).session_cache.entries() == old(self).session_cache.entries()
                },
            },
    {
        match result {
            Ok(_) => {
                self.return_shell(ip, shell, now);
                Ok(())
            },
            Err(e) => Err(GatewayError::execution(e)),
        }
    }

    /// Drop a transport that nobody uses for long, and the shells that waited for long. A shell
    /// that waits keeps its transport, whatever the `users` besides.
    pub fn prune_idle(&mut self, users: usize, now: u64)
        requires
            old(self).wf(),
        ensures
            final(self).wf(),
            final(self).transport.current() == if users == 0
                && old(self).session_cache.entries().len() == 0 && (
            old(self).transport.current() matches Some(e) && now - e.last_used
                > old(self).max_idle_time) {
                None
            } else {
                old(self).transport.current()
            },
            final(self).session_cache.entries() == session_cache::fresh_part(
                old(self).session_cache.entries(),
                now,
                old(self).fields.session_idle_timeout_ms,
            ),
            final(self).transport.next() == old(self).transport.next(),
            final(self).session_cache.limit() == old(self).session_cache.limit(),
            final(self).gateway_name == old(self).gateway_name,
            final(self).fields == old(self).fields,
            final(self).max_idle_time == old(self).max_idle_time,
    {
        if self.session_cache.len() == 0 {
            let _ = self.transport.prune_idle(users, now, self.max_idle_time);
        }
        self.session_cache.prune(now, self.fields.session_idle_timeout_ms);
    }

    /// The shells that wait, as a pool.
    pub fn pool_status(&self) -> (r: ConnectionStatusSnapshot)
        ensures
            r.key@ == self.gateway_name@ + ":sessions"@,
            r.generation == match self.transport.current() {
                Some(e) => e.generation,
                None => 0,
            },
            r.active == 0,
            r.idle == self.session_cache.entries().len(),
            r.capacity == match self.fields.max_cached_sessions {
                Some(n) => n,
                None => 0,
            },
    {
        let mut key = self.gateway_name.clone();
        key.append(":sessions");
        ConnectionStatusSnapshot {
            key,
            generation: match self.transport.current_generation() {
                Some(g) => g,
                None => 0,
            },
            active: 0,
            idle: self.session_cache.len(),
            capacity: match self.fields.max_cached_sessions {
                Some(n) => n,
                None => 0,
            },
        }
    }
}

impl<T, S> Gateway for JumpserverGateway<T, S> {
    open spec fn name_view(&self) -> Seq<char> {
        self.gateway_name@
    }

    fn name(&self) -> (r: &str) {
        self.gateway_name.as_str()
    }

    fn kind(&self) -> (r: GatewayKind)
        ensures
            r == GatewayKind::Jumpserver,
    {
        GatewayKind::Jumpserver
    }

    /// A bastion has no list of its assets that a program can read.
    fn capabilities(&self) -> (r: Capabilities)
        ensures
            r.has(Capabilities::EXEC) && r.has(Capabilities::COPY) && r.has(Capabilities::PROXY)
                && !r.has(Capabilities::LIST),
    {
        Capabilities::of(true, true, true, false)
    }
}

/// What opening a shell on an asset runs into.
#[derive(Clone, Copy, Debug, PartialEq, Eq, Structural)]
pub enum OpenStage {
    OpenChannel,
    RequestPty,
    StartShell,
}

/// What is reported of a failed stage.
pub open spec fn open_stage_text(stage: OpenStage) -> Seq<char> {
    match stage {
        OpenStage::OpenChannel => "failed to open jumpserver PTY channel: "@,
        OpenStage::RequestPty => "failed to request jumpserver PTY: "@,
        OpenStage::StartShell => "failed to start jumpserver shell: "@,
    }
}

/// The error of a stage that failed. The transport is at fault.
pub fn open_failure(stage: OpenStage, error: &str) -> (r: GatewayError)
    ensures
        r.kind == ErrorKind::Transport,
        r.source@ == open_stage_text(stage) + error@,
{
    let mut m = (match stage {
        OpenStage::OpenChannel => "failed to open jumpserver PTY channel: ",
        OpenStage::RequestPty => "failed to request jumpserver PTY: ",
        OpenStage::StartShell => "failed to start jumpserver shell: ",
    }).to_owned();
    m.append(error);
    GatewayError::transport(m)
}

/// The error of a transport that is closed already.
pub fn closed_transport() -> (r: GatewayError)
    ensures
        r.kind == ErrorKind::Transport,
        r.source@ == "jumpserver SSH transport is closed"@,
{
    GatewayError::transport("jumpserver SSH transport is closed".to_owned())
}

} // verus!
