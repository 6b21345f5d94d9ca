//! The transparent SSH proxy: the user name of a client selects the target.
use crate::assoc::Assoc;
use crate::config::copy_text;
use crate::gateway;
use crate::gateway::{GatewayKind, Route};
use crate::keys;
use crate::keys::{is_authorized_key, PublicKey};
use crate::lists;
use crate::lists::{one, three, two};
use crate::output;
use crate::output::decode_lossy;
use crate::resolver::ResolveResult;
use crate::session::SessionEvent;
use crate::text;
use vstd::prelude::*;

verus! {

/// A message of the client to its channel.
#[derive(Debug)]
pub enum ProxyMsg {
    Data(Vec<u8>),
    Resize(u32, u32),
    Signal(String),
    Eof,
}

/// The terminal that a client asks for.
#[derive(Debug)]
pub struct PtyParams {
    pub term: String,
    pub cols: u32,
    pub rows: u32,
}

/// What a client starts on its channel.
#[derive(Debug)]
pub enum SessionStart {
    Exec(String),
    Shell,
    Subsystem(String),
}

/// A channel on which nothing has been started yet.
#[derive(Debug)]
pub struct ChannelEntry<C> {
    pub channel: C,
    pub pty: Option<PtyParams>,
    pub env: Vec<(String, String)>,
    /// Messages that came before anything was started.
    pub pending: Vec<ProxyMsg>,
}

/// The mathematical counterpart of [`ChannelEntry`].
#[verifier::ext_equal]
pub struct EntryView<C> {
    pub channel: C,
    pub pty: Option<(Seq<char>, u32, u32)>,
    pub env: Seq<(Seq<char>, Seq<char>)>,
    pub pending: Seq<ProxyMsg>,
}

/// The names and values of an environment.
pub open spec fn env_of(env: Seq<(String, String)>) -> Seq<(Seq<char>, Seq<char>)> {
    Seq::new(env.len(), |i: int| (env[i].0@, env[i].1@))
}

impl<C> View for ChannelEntry<C> {
    type V = EntryView<C>;

    open spec fn view(&self) -> EntryView<C> {
        EntryView {
            channel: self.channel,
            pty: match self.pty {
                Some(p) => Some((p.term@, p.cols, p.rows)),
                None => None,
            },
            env: env_of(self.env@),
            pending: self.pending@,
        }
    }
}

/// A client of the proxy. `C` is its channel, `T` leads to a running bridge.
pub struct ProxyHandler<C, T> {
    user: Option<String>,
    fingerprint: Option<String>,
    channels: Assoc<u32, ChannelEntry<C>>,
    bridges: Assoc<u32, T>,
}

/// The mathematical counterpart of [`ProxyHandler`].
#[verifier::ext_equal]
pub struct ProxyState<C, T> {
    pub user: Option<Seq<char>>,
    pub fingerprint: Option<Seq<char>>,
    pub channels: Map<u32, EntryView<C>>,
    pub bridges: Map<u32, T>,
}

impl<C, T> View for ProxyHandler<C, T> {
    type V = ProxyState<C, T>;

    closed spec fn view(&self) -> ProxyState<C, T> {
        ProxyState {
            user: text::opt(self.user),
            fingerprint: text::opt(self.fingerprint),
            channels: Map::new(
                |k: u32| self.channels@.dom().contains(k),
                |k: u32| self.channels@[k]@,
            ),
            bridges: self.bridges@,
        }
    }
}

impl<C, T> ProxyState<C, T> {
    /// The state with another entry of a channel.
    pub open spec fn with_channel(self, id: u32, entry: EntryView<C>) -> Self {
        ProxyState { channels: self.channels.insert(id, entry), ..self }
    }

    /// A message of the client: the state behind it, and what goes to the bridge.
    pub open spec fn forward(self, id: u32, message: ProxyMsg) -> (Self, Option<ProxyMsg>) {
        if self.bridges.dom().contains(id) {
            (self, Some(message))
        } else if self.channels.dom().contains(id) {
            let entry = self.channels[id];
            (
                self.with_channel(
                    id,
                    EntryView { pending: entry.pending.push(message), ..entry },
                ),
                None,
            )
        } else {
            (self, None)
        }
    }

    /// Something is started: the state behind it, and what the bridge takes over.
    pub open spec fn start(self, id: u32, bridge: T) -> (Self, Option<EntryView<C>>) {
        if self.user is Some && self.channels.dom().contains(id) {
            (
                ProxyState {
                    channels: self.channels.remove(id),
                    bridges: self.bridges.insert(id, bridge),
                    ..self
                },
                Some(self.channels[id]),
            )
        } else {
            (self, None)
        }
    }
}

impl<C, T> ProxyHandler<C, T> {
    pub closed spec fn wf(&self) -> bool {
        self.channels.wf() && self.bridges.wf()
    }

    /// A client that has not authenticated yet.
    pub fn new() -> (r: Self)
        ensures
            r.wf(),
            r@ == (ProxyState::<C, T> {
                user: None,
                fingerprint: None,
                channels: Map::empty(),
                bridges: Map::empty(),
            }),
    {
        let r = ProxyHandler {
            user: None,
            fingerprint: None,
            channels: Assoc::new(),
            bridges: Assoc::new(),
        };
        assert(r@.channels =~= Map::empty());
        r
    }

    /// The user that was accepted, who selects the target.
    pub fn user(&self) -> (r: Option<String>)
        ensures
            text::opt(r) == self@.user,
    {
        match &self.user {
            Some(u) => Some(u.clone()),
            None => None,
        }
    }

    /// Whether a public key is accepted: it has to be in the file of authorized keys, which
    /// is given as it was read, or not at all if it could not be. The result tells.
    pub fn auth_publickey(
        &mut self,
        user: &str,
        key: &PublicKey,
        path: &str,
        content: Result<Option<String>, ()>,
    ) -> (r: bool)
        requires
            old(self).wf(),
        ensures
            final(self).wf(),
            r == (content matches Ok(c) && keys::authorized(text::opt(c), path@, key.data@) == Ok::<
                bool,
                Seq<char>,
            >(true)),
            final(self)@ == if r {
                ProxyState {
                    user: Some(user@),
                    fingerprint: Some(key.fingerprint@),
                    ..old(self)@
                }
            } else {
                old(self)@
            },
    {
        let ok = match &content {
            Ok(c) => {
                let shown: Option<&str> = match c {
                    Some(s) => Some(s.as_str()),
                    None => None,
                };
                match is_authorized_key(shown, path, key.data.as_slice()) {
                    Ok(b) => b,
                    Err(_) => false,
                }
            },
            Err(_) => false,
        };
        if ok {
            self.user = Some(user.to_owned());
            self.fingerprint = Some(key.fingerprint.clone());
        }
        ok
    }

    /// Put an entry in its place, which must be free.
    fn put_entry(&mut self, id: u32, entry: ChannelEntry<C>)
        requires
            old(self).wf(),
        ensures
            final(self).wf(),
            final(self)@ == old(self)@.with_channel(id, entry@),
    {
        self.channels.put(id, entry);
        assert(self@.channels =~= old(self)@.channels.insert(id, entry@));
    }

    /// Take the entry of a channel out of its place.
    fn take_entry(&mut self, id: u32) -> (r: Option<ChannelEntry<C>>)
        requires
            old(self).wf(),
        ensures
            final(self).wf(),
            final(self)@ == (ProxyState {
                channels: old(self)@.channels.remove(id),
                ..old(self)@
            }),
            match r {
                Some(entry) => old(self)@.channels.dom().contains(id) && entry@
                    == old(self)@.channels[id],
                None => !old(self)@.channels.dom().contains(id),
            },
    {
        let r = self.channels.take(&id);
        assert(self@.channels =~= old(self)@.channels.remove(id));
        r
    }

    /// A channel was opened.
    pub fn channel_open_session(&mut self, id: u32, channel: C)
        requires
            old(self).wf(),
        ensures
            final(self).wf(),
            final(self)@ == old(self)@.with_channel(
                id,
                EntryView { channel, pty: None, env: Seq::empty(), pending: Seq::empty() },
            ),
    {
        let entry = ChannelEntry { channel, pty: None, env: Vec::new(), pending: Vec::new() };
        assert(entry@ =~= EntryView {
            channel,
            pty: None,
            env: Seq::empty(),
            pending: Seq::empty(),
        });
        self.put_entry(id, entry);
    }

    /// A terminal was asked for. The result tells if the channel is there.
    pub fn pty_request(&mut self, id: u32, term: &str, cols: u32, rows: u32) -> (r: bool)
        requires
            old(self).wf(),
        ensures
            final(self).wf(),
            r == old(self)@.channels.dom().contains(id),
            final(self)@ == if r {
                old(self)@.with_channel(
                    id,
                    EntryView { pty: Some((term@, cols, rows)), ..old(self)@.channels[id] },
                )
            } else {
                old(self)@
            },
    {
        match self.take_entry(id) {
            Some(mut entry) => {
                entry.pty = Some(PtyParams { term: term.to_owned(), cols, rows });
                self.put_entry(id, entry);
                assert(self@.channels =~= old(self)@.channels.insert(id, entry@));
                true
            },
            None => {
                assert(self@.channels =~= old(self)@.channels);
                false
            },
        }
    }

    /// A variable of the environment was given. The result tells if the channel is there.
    pub fn env_request(&mut self, id: u32, name: &str, value: &str) -> (r: bool)
        requires
            old(self).wf(),
        ensures
            final(self).wf(),
            r == old(self)@.channels.dom().contains(id),
            final(self)@ == if r {
                let entry = old(self)@.channels[id];
                old(self)@.with_channel(
                    id,
                    EntryView { env: entry.env.push((name@, value@)), ..entry },
                )
            } else {
                old(self)@
            },
    {
        match self.take_entry(id) {
            Some(mut entry) => {
                let ghost before = entry@;
                entry.env.push((name.to_owned(), value.to_owned()));
                assert(entry@.env =~= before.env.push((name@, value@)));
                self.put_entry(id, entry);
                assert(self@.channels =~= old(self)@.channels.insert(id, entry@));
                true
            },
            None => {
                assert(self@.channels =~= old(self)@.channels);
                false
            },
        }
    }

    /// The way to the bridge of a channel.
    pub fn bridge(&self, id: u32) -> (r: Option<&T>)
        ensures
            match r {
                Some(t) => self@.bridges.dom().contains(id) && *t == self@.bridges[id],
                None => !self@.bridges.dom().contains(id),
            },
    {
        self.bridges.get(&id)
    }

    /// A message of the client. What comes back goes to the bridge of the channel; without
    /// one it is kept until something is started.
    pub fn forward_or_buffer(&mut self, id: u32, message: ProxyMsg) -> (r: Option<ProxyMsg>)
        requires
            old(self).wf(),
        ensures
            final(self).wf(),
            (final(self)@, r) == old(self)@.forward(id, message),
    {
        if self.bridges.contains(&id) {
            return Some(message);
        }
        match self.take_entry(id) {
            Some(mut entry) => {
                entry.pending.push(message);
                self.put_entry(id, entry);
                assert(self@.channels =~= old(self)@.channels.insert(id, entry@));
            },
            None => {
                assert(self@.channels =~= old(self)@.channels);
            },
        }
        None
    }

    /// Something is started on a channel: its bridge takes over what came so far. Nothing is
    /// started for a client that did not authenticate, or on a channel that is not there.
    pub fn start_session(&mut self, id: u32, bridge: T) -> (r: Option<(String, ChannelEntry<C>)>)
        requires
            old(self).wf(),
        ensures
            final(self).wf(),
            final(self)@ == old(self)@.start(id, bridge).0,
            match old(self)@.start(id, bridge).1 {
                Some(entry) => r matches Some((user, e)) && Some(user@) == old(self)@.user && e@
                    == entry,
                None => r is None,
            },
    {
        let user = match &self.user {
            Some(u) => u.clone(),
            None => {
                return None;
            },
        };
        match self.take_entry(id) {
            Some(entry) => {
                self.bridges.put(id, bridge);
                assert(self@.channels =~= old(self)@.channels.remove(id));
                Some((user, entry))
            },
            None => {
                assert(self@.channels =~= old(self)@.channels);
                None
            },
        }
    }
}

// ---------------------------------------------------------------------------
// The order of messages
// ---------------------------------------------------------------------------
/// What happens to a channel.
pub enum ChannelStep<T> {
    Message(ProxyMsg),
    Start(T),
}

/// A sequence of steps on a channel: the state behind them, and what the bridge has got, first
/// what it took over, then what it was sent.
pub open spec fn channel_run<C, T>(state: ProxyState<C, T>, id: u32, steps: Seq<ChannelStep<T>>) -> (
    ProxyState<C, T>,
    Seq<ProxyMsg>,
)
    decreases steps.len(),
{
    if steps.len() == 0 {
        (state, Seq::empty())
    } else {
        let (mid, got) = channel_run(state, id, steps.drop_last());
        match steps.last() {
            ChannelStep::Message(m) => {
                let (next, sent) = mid.forward(id, m);
                (
                    next,
                    match sent {
                        Some(x) => got.push(x),
                        None => got,
                    },
                )
            },
            ChannelStep::Start(bridge) => {
                let (next, taken) = mid.start(id, bridge);
                (
                    next,
                    match taken {
                        Some(entry) => got + entry.pending,
                        None => got,
                    },
                )
            },
        }
    }
}

/// The messages of a sequence of steps.
pub open spec fn messages_of<T>(steps: Seq<ChannelStep<T>>) -> Seq<ProxyMsg>
    decreases steps.len(),
{
    if steps.len() == 0 {
        Seq::empty()
    } else {
        match steps.last() {
            ChannelStep::Message(m) => messages_of(steps.drop_last()).push(m),
            ChannelStep::Start(_) => messages_of(steps.drop_last()),
        }
    }
}

/// What is kept for a channel on which nothing was started.
pub open spec fn kept<C, T>(state: ProxyState<C, T>, id: u32) -> Seq<ProxyMsg> {
    if state.channels.dom().contains(id) {
        state.channels[id].pending
    } else {
        Seq::empty()
    }
}

/// No message is lost, doubled or moved: on a channel that was just opened, what the bridge
/// has got and what is kept for it are, one after the other, the messages of the client; once
/// something is started, nothing is kept.
pub proof fn law_messages_keep_their_order<C, T>(
    state: ProxyState<C, T>,
    id: u32,
    steps: Seq<ChannelStep<T>>,
)
    requires
        state.channels.dom().contains(id),
        state.channels[id].pending.len() == 0,
        !state.bridges.dom().contains(id),
    ensures
        ({
            let (after, got) = channel_run(state, id, steps);
            &&& got + kept(after, id) == messages_of(steps)
            &&& after.channels.dom().contains(id) != after.bridges.dom().contains(id)
            &&& after.bridges.dom().contains(id) ==> kept(after, id).len() == 0
            &&& !after.bridges.dom().contains(id) ==> got.len() == 0
        }),
    decreases steps.len(),
{
    if steps.len() == 0 {
        assert(Seq::<ProxyMsg>::empty() + kept(state, id) =~= Seq::<ProxyMsg>::empty());
    } else {
        let (mid, got) = channel_run(state, id, steps.drop_last());
        let (after, all) = channel_run(state, id, steps);
        law_messages_keep_their_order(state, id, steps.drop_last());
        match steps.last() {
            ChannelStep::Message(m) => {
                if mid.bridges.dom().contains(id) {
                    assert(got + kept(mid, id) =~= got);
                    assert(got.push(m) + kept(mid, id) =~= got.push(m));
                } else {
                    assert(kept(after, id) == kept(mid, id).push(m));
                    assert(got + kept(mid, id).push(m) =~= (got + kept(mid, id)).push(m));
                }
            },
            ChannelStep::Start(bridge) => {
                if mid.start(id, bridge).1 is Some {
                    assert(kept(after, id) =~= Seq::<ProxyMsg>::empty());
                    assert(all + kept(after, id) =~= got + kept(mid, id));
                }
            },
        }
    }
}

// ---------------------------------------------------------------------------
// The audit log
// ---------------------------------------------------------------------------
/// The mathematical counterpart of [`SessionStart`].
pub enum StartView {
    Exec(Seq<char>),
    Shell,
    Subsystem(Seq<char>),
}

impl View for SessionStart {
    type V = StartView;

    open spec fn view(&self) -> StartView {
        match self {
            SessionStart::Exec(c) => StartView::Exec(c@),
            SessionStart::Shell => StartView::Shell,
            SessionStart::Subsystem(n) => StartView::Subsystem(n@),
        }
    }
}

/// The kind of what a client starts.
pub open spec fn session_kind(start: StartView) -> Seq<char> {
    match start {
        StartView::Exec(_) => "exec"@,
        StartView::Shell => "shell"@,
        StartView::Subsystem(_) => "subsystem"@,
    }
}

/// What a client starts, as the audit log shows it.
pub open spec fn session_command(start: StartView) -> Seq<char> {
    match start {
        StartView::Exec(c) => c,
        StartView::Shell => "(interactive)"@,
        StartView::Subsystem(n) => n,
    }
}

impl SessionStart {
    /// The start of a command, from its bytes.
    pub fn exec(data: &[u8]) -> (r: Self)
        ensures
            r@ == StartView::Exec(output::lossy_text(data@)),
    {
        SessionStart::Exec(decode_lossy(data))
    }

    pub fn kind(&self) -> (r: &'static str)
        ensures
            r@ == session_kind(self@),
    {
        match self {
            SessionStart::Exec(_) => "exec",
            SessionStart::Shell => "shell",
            SessionStart::Subsystem(_) => "subsystem",
        }
    }

    fn command(&self) -> (r: String)
        ensures
            r@ == session_command(self@),
    {
        match self {
            SessionStart::Exec(c) => c.clone(),
            SessionStart::Shell => "(interactive)".to_owned(),
            SessionStart::Subsystem(n) => n.clone(),
        }
    }

    fn copied(&self) -> (r: SessionStart)
        ensures
            r@ == self@,
    {
        match self {
            SessionStart::Exec(c) => SessionStart::Exec(c.clone()),
            SessionStart::Shell => SessionStart::Shell,
            SessionStart::Subsystem(n) => SessionStart::Subsystem(n.clone()),
        }
    }
}

/// Who started something through the proxy.
#[derive(Debug)]
pub struct Caller {
    pub source: String,
    pub peer_addr: Option<String>,
    pub ssh_user: Option<String>,
    pub key_fingerprint: Option<String>,
    pub via_token: bool,
}

/// The mathematical counterpart of [`Caller`].
#[verifier::ext_equal]
pub struct CallerView {
    pub source: Seq<char>,
    pub peer_addr: Option<Seq<char>>,
    pub ssh_user: Option<Seq<char>>,
    pub key_fingerprint: Option<Seq<char>>,
    pub via_token: bool,
}

impl View for Caller {
    type V = CallerView;

    open spec fn view(&self) -> CallerView {
        CallerView {
            source: self.source@,
            peer_addr: text::opt(self.peer_addr),
            ssh_user: text::opt(self.ssh_user),
            key_fingerprint: text::opt(self.key_fingerprint),
            via_token: self.via_token,
        }
    }
}

/// The operations that are recorded in the audit log.
#[derive(Clone, Copy, Debug, PartialEq, Eq, Structural)]
pub enum OperationKind {
    Exec,
    Copy,
    /// A session that is tunneled for another daemon.
    Session,
    /// A session through the transparent proxy.
    Proxy,
}

/// An entry of the audit log.
#[derive(Debug)]
pub struct AuditEvent {
    pub source: String,
    pub operation: OperationKind,
    pub phase: String,
    pub target_input: String,
    pub gateway: String,
    pub end_target: String,
    pub gateway_kind: Option<String>,
    pub session_kind: String,
    pub command: Option<String>,
    pub exit_code: Option<i32>,
    /// Present where the log names callers.
    pub caller: Option<Caller>,
}

/// The mathematical counterpart of [`AuditEvent`].
#[verifier::ext_equal]
pub struct AuditView {
    pub source: Seq<char>,
    pub operation: OperationKind,
    pub phase: Seq<char>,
    pub target_input: Seq<char>,
    pub gateway: Seq<char>,
    pub end_target: Seq<char>,
    pub gateway_kind: Option<Seq<char>>,
    pub session_kind: Seq<char>,
    pub command: Option<Seq<char>>,
    pub exit_code: Option<i32>,
    pub caller: Option<CallerView>,
}

impl View for AuditEvent {
    type V = AuditView;

    open spec fn view(&self) -> AuditView {
        AuditView {
            source: self.source@,
            operation: self.operation,
            phase: self.phase@,
            target_input: self.target_input@,
            gateway: self.gateway@,
            end_target: self.end_target@,
            gateway_kind: text::opt(self.gateway_kind),
            session_kind: self.session_kind@,
            command: text::opt(self.command),
            exit_code: self.exit_code,
            caller: match self.caller {
                Some(c) => Some(c@),
                None => None,
            },
        }
    }
}

/// The name of a kind of gateway, if there is one.
pub open spec fn kind_shown(kind: Option<GatewayKind>) -> Option<Seq<char>> {
    match kind {
        Some(k) => Some(gateway::kind_name(k)),
        None => None,
    }
}

/// The entry for a session of the proxy that was started. The caller stands in it where the log names
/// callers.
pub open spec fn started_entry(
    caller: CallerView,
    user: Seq<char>,
    route: gateway::RouteView,
    kind: Option<GatewayKind>,
    start: StartView,
    include_identity: bool,
) -> AuditView {
    AuditView {
        source: caller.source,
        operation: OperationKind::Proxy,
        phase: "started"@,
        target_input: user,
        gateway: route.gateway,
        end_target: route.target,
        gateway_kind: kind_shown(kind),
        session_kind: session_kind(start),
        command: Some(session_command(start)),
        exit_code: None,
        caller: if include_identity {
            Some(caller)
        } else {
            None
        },
    }
}

/// The entry for a session of the proxy that ended.
pub open spec fn completed_entry(
    source: Seq<char>,
    user: Seq<char>,
    route: gateway::RouteView,
    kind: Option<GatewayKind>,
    session: Seq<char>,
    exit_code: i32,
) -> AuditView {
    AuditView {
        source,
        operation: OperationKind::Proxy,
        phase: "completed"@,
        target_input: user,
        gateway: route.gateway,
        end_target: route.target,
        gateway_kind: kind_shown(kind),
        session_kind: session,
        command: None,
        exit_code: Some(exit_code),
        caller: None,
    }
}

fn kind_text(kind: Option<GatewayKind>) -> (r: Option<String>)
    ensures
        text::opt(r) == kind_shown(kind),
{
    match kind {
        Some(k) => Some(k.as_str().to_owned()),
        None => None,
    }
}

/// Log that a session of the proxy was started.
pub fn audit_started(
    caller: &Caller,
    user: &str,
    route: &Route,
    kind: Option<GatewayKind>,
    start: &SessionStart,
    include_identity: bool,
) -> (r: AuditEvent)
    ensures
        r@ == started_entry(caller@, user@, route@, kind, start@, include_identity),
{
    AuditEvent {
        source: caller.source.clone(),
        operation: OperationKind::Proxy,
        phase: "started".to_owned(),
        target_input: user.to_owned(),
        gateway: route.gateway_name.clone(),
        end_target: route.end_target.clone(),
        gateway_kind: kind_text(kind),
        session_kind: start.kind().to_owned(),
        command: Some(start.command()),
        exit_code: None,
        caller: if include_identity {
            Some(
                Caller {
                    source: caller.source.clone(),
                    peer_addr: copy_text(&caller.peer_addr),
                    ssh_user: copy_text(&caller.ssh_user),
                    key_fingerprint: copy_text(&caller.key_fingerprint),
                    via_token: caller.via_token,
                },
            )
        } else {
            None
        },
    }
}

/// Log that a session of the proxy ended.
pub fn audit_completed(
    source: &str,
    user: &str,
    route: &Route,
    kind: Option<GatewayKind>,
    session: &str,
    exit_code: i32,
) -> (r: AuditEvent)
    ensures
        r@ == completed_entry(source@, user@, route@, kind, session@, exit_code),
{
    AuditEvent {
        source: source.to_owned(),
        operation: OperationKind::Proxy,
        phase: "completed".to_owned(),
        target_input: user.to_owned(),
        gateway: route.gateway_name.clone(),
        end_target: route.end_target.clone(),
        gateway_kind: kind_text(kind),
        session_kind: session.to_owned(),
        command: None,
        exit_code: Some(exit_code),
        caller: None,
    }
}

// ---------------------------------------------------------------------------
// Bridges
// ---------------------------------------------------------------------------
/// What happens to a bridge between a client's channel and a session.
pub enum BridgeEvent {
    Resolved(Result<ResolveResult, String>),
    /// A session was opened or could not be; the kind is that of the gateway, if it is known.
    Opened { kind: Option<GatewayKind>, result: Result<(), String> },
    Started(Result<(), String>),
    /// An event of the session; none at its end.
    Session(Option<SessionEvent>),
    /// A message of the client; none once it is gone.
    Client(Option<ProxyMsg>),
}

/// What a bridge does, in order. Only the start of a session reports back; what comes of the
/// others does not count.
pub enum BridgeAction {
    /// Open a session over this route.
    Open(Route),
    RequestPty(PtyParams),
    SetEnv(String, String),
    /// Write the entry to the audit log.
    Record(AuditEvent),
    Start(SessionStart),
    /// To the client's channel.
    Data(Vec<u8>),
    ExtendedData(u32, Vec<u8>),
    ExitStatus(u32),
    Eof,
    Close,
    /// To the session.
    Send(ProxyMsg),
    /// Nothing more goes to the session.
    CloseSession,
    Stop,
}

/// The mathematical counterpart of [`BridgeAction`].
pub enum BridgeActionView {
    Open(gateway::RouteView),
    RequestPty(Seq<char>, u32, u32),
    SetEnv(Seq<char>, Seq<char>),
    Record(AuditView),
    Start(StartView),
    Data(Seq<u8>),
    ExtendedData(u32, Seq<u8>),
    ExitStatus(u32),
    Eof,
    Close,
    Send(ProxyMsg),
    CloseSession,
    Stop,
}

impl View for BridgeAction {
    type V = BridgeActionView;

    open spec fn view(&self) -> BridgeActionView {
        match self {
            BridgeAction::Open(r) => BridgeActionView::Open(r@),
            BridgeAction::RequestPty(p) => BridgeActionView::RequestPty(p.term@, p.cols, p.rows),
            BridgeAction::SetEnv(k, v) => BridgeActionView::SetEnv(k@, v@),
            BridgeAction::Record(e) => BridgeActionView::Record(e@),
            BridgeAction::Start(s) => BridgeActionView::Start(s@),
            BridgeAction::Data(d) => BridgeActionView::Data(d@),
            BridgeAction::ExtendedData(n, d) => BridgeActionView::ExtendedData(*n, d@),
            BridgeAction::ExitStatus(c) => BridgeActionView::ExitStatus(*c),
            BridgeAction::Eof => BridgeActionView::Eof,
            BridgeAction::Close => BridgeActionView::Close,
            BridgeAction::Send(m) => BridgeActionView::Send(*m),
            BridgeAction::CloseSession => BridgeActionView::CloseSession,
            BridgeAction::Stop => BridgeActionView::Stop,
        }
    }
}

/// Where a bridge stands.
pub enum BridgePhase {
    Resolving,
    Opening(Route),
    Starting { route: Route, kind: Option<GatewayKind> },
    /// `down` and `up` tell which directions are still open.
    Running { route: Route, kind: Option<GatewayKind>, down: bool, up: bool },
    Over,
}

/// The mathematical counterpart of [`BridgePhase`].
pub enum BridgePhaseView {
    Resolving,
    Opening(gateway::RouteView),
    Starting { route: gateway::RouteView, kind: Option<GatewayKind> },
    Running { route: gateway::RouteView, kind: Option<GatewayKind>, down: bool, up: bool },
    Over,
}

impl View for BridgePhase {
    type V = BridgePhaseView;

    open spec fn view(&self) -> BridgePhaseView {
        match self {
            BridgePhase::Resolving => BridgePhaseView::Resolving,
            BridgePhase::Opening(r) => BridgePhaseView::Opening(r@),
            BridgePhase::Starting { route, kind } => BridgePhaseView::Starting {
                route: route@,
                kind: *kind,
            },
            BridgePhase::Running { route, kind, down, up } => BridgePhaseView::Running {
                route: route@,
                kind: *kind,
                down: *down,
                up: *up,
            },
            BridgePhase::Over => BridgePhaseView::Over,
        }
    }
}

/// What a bridge goes by.
pub struct BridgeRules {
    pub user: Seq<char>,
    pub caller: CallerView,
    pub include_identity: bool,
    pub pty: Option<(Seq<char>, u32, u32)>,
    pub env: Seq<(Seq<char>, Seq<char>)>,
    pub start: StartView,
}

/// The terminal and the environment that a client asked for, in this order.
pub open spec fn prepared(
    pty: Option<(Seq<char>, u32, u32)>,
    env: Seq<(Seq<char>, Seq<char>)>,
) -> Seq<BridgeActionView> {
    (match pty {
        Some((term, cols, rows)) => seq![BridgeActionView::RequestPty(term, cols, rows)],
        None => Seq::empty(),
    }) + Seq::new(env.len(), |i: int| BridgeActionView::SetEnv(env[i].0, env[i].1))
}

/// A bridge with these directions open; it is over once none is.
pub open spec fn running(
    route: gateway::RouteView,
    kind: Option<GatewayKind>,
    down: bool,
    up: bool,
    actions: Seq<BridgeActionView>,
) -> (BridgePhaseView, Seq<BridgeActionView>) {
    if down || up {
        (BridgePhaseView::Running { route, kind, down, up }, actions)
    } else {
        (BridgePhaseView::Over, actions.push(BridgeActionView::Stop))
    }
}

/// What an event of the session sends to the client's channel, and whether more may follow.
pub open spec fn downlink(
    rules: BridgeRules,
    route: gateway::RouteView,
    kind: Option<GatewayKind>,
    event: Option<SessionEvent>,
) -> (bool, Seq<BridgeActionView>) {
    match event {
        Some(SessionEvent::Stdout(d)) => (true, seq![BridgeActionView::Data(d@)]),
        Some(SessionEvent::Stderr(d)) => (true, seq![BridgeActionView::ExtendedData(1, d@)]),
        Some(SessionEvent::ExitStatus(c)) => (
            false,
            seq![
                BridgeActionView::Record(
                    completed_entry(
                        rules.caller.source,
                        rules.user,
                        route,
                        kind,
                        session_kind(rules.start),
                        c,
                    ),
                ),
                BridgeActionView::ExitStatus(c as u32),
                BridgeActionView::Eof,
                BridgeActionView::Close,
            ],
        ),
        Some(SessionEvent::ExitSignal(_)) => (
            false,
            seq![BridgeActionView::ExitStatus(255), BridgeActionView::Close],
        ),
        Some(SessionEvent::Eof) => (false, seq![BridgeActionView::Eof, BridgeActionView::Close]),
        None => (false, Seq::empty()),
    }
}

/// What an event does to a bridge. An event that the phase does not wait for does nothing.
pub open spec fn bridge_step(rules: BridgeRules, phase: BridgePhaseView, event: BridgeEvent) -> (
    BridgePhaseView,
    Seq<BridgeActionView>,
) {
    let idle = (phase, Seq::<BridgeActionView>::empty());
    let stopped = (BridgePhaseView::Over, seq![BridgeActionView::Stop]);
    match phase {
        BridgePhaseView::Resolving => match event {
            BridgeEvent::Resolved(Ok(resolved)) => if resolved.routes@.len() > 0 {
                (
                    BridgePhaseView::Opening(resolved.routes@[0]@),
                    seq![BridgeActionView::Open(resolved.routes@[0]@)],
                )
            } else {
                stopped
            },
            BridgeEvent::Resolved(Err(_)) => stopped,
            _ => idle,
        },
        BridgePhaseView::Opening(route) => match event {
            BridgeEvent::Opened { kind, result: Ok(_) } => (
                BridgePhaseView::Starting { route, kind },
                prepared(rules.pty, rules.env) + seq![
                    BridgeActionView::Record(
                        started_entry(
                            rules.caller,
                            rules.user,
                            route,
                            kind,
                            rules.start,
                            rules.include_identity,
                        ),
                    ),
                    BridgeActionView::Start(rules.start),
                ],
            ),
            BridgeEvent::Opened { result: Err(_), .. } => stopped,
            _ => idle,
        },
        BridgePhaseView::Starting { route, kind } => match event {
            BridgeEvent::Started(Ok(_)) => (
                BridgePhaseView::Running { route, kind, down: true, up: true },
                Seq::empty(),
            ),
            BridgeEvent::Started(Err(_)) => stopped,
            _ => idle,
        },
        BridgePhaseView::Running { route, kind, down, up } => match event {
            BridgeEvent::Session(e) => if down {
                let (more, actions) = downlink(rules, route, kind, e);
                running(route, kind, more, up, actions)
            } else {
                idle
            },
            BridgeEvent::Client(Some(m)) => if up {
                (phase, seq![BridgeActionView::Send(m)])
            } else {
                idle
            },
            BridgeEvent::Client(None) => if up {
                running(route, kind, down, false, seq![BridgeActionView::CloseSession])
            } else {
                idle
            },
            _ => idle,
        },
        BridgePhaseView::Over => idle,
    }
}

/// A bridge between a client's channel and a session.
pub struct Bridge {
    user: String,
    caller: Caller,
    include_identity: bool,
    pty: Option<PtyParams>,
    env: Vec<(String, String)>,
    start: SessionStart,
    phase: BridgePhase,
}

impl Bridge {
    pub closed spec fn rules(&self) -> BridgeRules {
        BridgeRules {
            user: self.user@,
            caller: self.caller@,
            include_identity: self.include_identity,
            pty: match self.pty {
                Some(p) => Some((p.term@, p.cols, p.rows)),
                None => None,
            },
            env: env_of(self.env@),
            start: self.start@,
        }
    }

    pub closed spec fn phase(&self) -> BridgePhaseView {
        self.phase@
    }

    /// A bridge for what a client starts on its channel. The target is resolved first.
    pub fn new(
        user: String,
        caller: Caller,
        include_identity: bool,
        pty: Option<PtyParams>,
        env: Vec<(String, String)>,
        start: SessionStart,
    ) -> (r: Self)
        ensures
            r.phase() == BridgePhaseView::Resolving,
            r.rules() == (BridgeRules {
                user: user@,
                caller: caller@,
                include_identity,
                pty: match pty {
                    Some(p) => Some((p.term@, p.cols, p.rows)),
                    None => None,
                },
                env: env_of(env@),
                start: start@,
            }),
    {
        Bridge { user, caller, include_identity, pty, env, start, phase: BridgePhase::Resolving }
    }

    fn stop(&mut self) -> (r: Vec<BridgeAction>)
        ensures
            final(self).rules() == old(self).rules(),
            final(self).phase() == BridgePhaseView::Over,
            lists::views(r@) == seq![BridgeActionView::Stop],
    {
        self.phase = BridgePhase::Over;
        let r = one(BridgeAction::Stop);
        assert(lists::views(r@) =~= seq![BridgeActionView::Stop]);
        r
    }

    /// The terminal and the environment that the client asked for.
    #[verifier::loop_isolation(false)]
    fn preparation(&self) -> (r: Vec<BridgeAction>)
        ensures
            lists::views(r@) == prepared(self.rules().pty, self.rules().env),
    {
        let mut r: Vec<BridgeAction> = Vec::new();
        if let Some(p) = &self.pty {
            r.push(
                BridgeAction::RequestPty(
                    PtyParams { term: p.term.clone(), cols: p.cols, rows: p.rows },
                ),
            );
        }
        let ghost head = lists::views(r@);
        let ghost env = env_of(self.env@);
        let mut i: usize = 0;
        assert(lists::views(r@) =~= head + prepared(None, env.take(0)));
        while i < self.env.len()
            invariant
                i <= self.env.len(),
                lists::views(r@) == head + prepared(None, env.take(i as int)),
            decreases self.env.len() - i,
        {
            let ghost before = lists::views(r@);
            let next = BridgeAction::SetEnv(self.env[i].0.clone(), self.env[i].1.clone());
            r.push(next);
            assert(lists::views(r@) =~= before.push(next@));
            i += 1;
            assert(lists::views(r@) =~= head + prepared(None, env.take(i as int)));
        }
        assert(env.take(i as int) =~= env);
        assert(lists::views(r@) =~= prepared(self.rules().pty, self.rules().env));
        r
    }

    fn opened(&mut self, route: Route, kind: Option<GatewayKind>) -> (r: Vec<BridgeAction>)
        ensures
            final(self).rules() == old(self).rules(),
            (final(self).phase(), lists::views(r@)) == bridge_step(
                old(self).rules(),
                BridgePhaseView::Opening(route@),
                BridgeEvent::Opened { kind, result: Ok(()) },
            ),
    {
        let mut r = self.preparation();
        let ghost before = lists::views(r@);
        let entry = audit_started(
            &self.caller,
            self.user.as_str(),
            &route,
            kind,
            &self.start,
            self.include_identity,
        );
        let start = self.start.copied();
        r.push(BridgeAction::Record(entry));
        r.push(BridgeAction::Start(start));
        assert(lists::views(r@) =~= before + seq![
            BridgeActionView::Record(entry@),
            BridgeActionView::Start(start@),
        ]);
        self.phase = BridgePhase::Starting { route, kind };
        r
    }

    fn on_session(&self, route: &Route, kind: Option<GatewayKind>, event: Option<SessionEvent>) -> (r:
        (bool, Vec<BridgeAction>))
        ensures
            (r.0, lists::views(r.1@)) == downlink(self.rules(), route@, kind, event),
    {
        let ghost wanted = downlink(self.rules(), route@, kind, event).1;
        let (more, actions) = match event {
            Some(SessionEvent::Stdout(d)) => (true, one(BridgeAction::Data(d))),
            Some(SessionEvent::Stderr(d)) => (true, one(BridgeAction::ExtendedData(1, d))),
            Some(SessionEvent::ExitStatus(c)) => {
                let entry = audit_completed(
                    self.caller.source.as_str(),
                    self.user.as_str(),
                    route,
                    kind,
                    self.start.kind(),
                    c,
                );
                let mut actions = three(
                    BridgeAction::Record(entry),
                    BridgeAction::ExitStatus(#[verifier::truncate] (c as u32)),
                    BridgeAction::Eof,
                );
                actions.push(BridgeAction::Close);
                (false, actions)
            },
            Some(SessionEvent::ExitSignal(_)) => (
                false,
                two(BridgeAction::ExitStatus(255), BridgeAction::Close),
            ),
            Some(SessionEvent::Eof) => (false, two(BridgeAction::Eof, BridgeAction::Close)),
            None => (false, Vec::new()),
        };
        assert(lists::views(actions@) =~= wanted);
        (more, actions)
    }

    fn run_on(
        &mut self,
        route: Route,
        kind: Option<GatewayKind>,
        down: bool,
        up: bool,
        actions: Vec<BridgeAction>,
    ) -> (r: Vec<BridgeAction>)
        ensures
            final(self).rules() == old(self).rules(),
            (final(self).phase(), lists::views(r@)) == running(
                route@,
                kind,
                down,
                up,
                lists::views(actions@),
            ),
    {
        let ghost before = lists::views(actions@);
        let mut r = actions;
        if down || up {
            self.phase = BridgePhase::Running { route, kind, down, up };
        } else {
            self.phase = BridgePhase::Over;
            r.push(BridgeAction::Stop);
            assert(lists::views(r@) =~= before.push(BridgeActionView::Stop));
        }
        r
    }

    /// Take one event.
    pub fn on_event(&mut self, event: BridgeEvent) -> (r: Vec<BridgeAction>)
        ensures
            final(self).rules() == old(self).rules(),
            (final(self).phase(), lists::views(r@)) == bridge_step(
                old(self).rules(),
                old(self).phase(),
                event,
            ),
    {
        let ghost wanted = bridge_step(self.rules(), self.phase(), event).1;
        let mut phase = BridgePhase::Over;
        std::mem::swap(&mut self.phase, &mut phase);
        let r = match (phase, event) {
            (BridgePhase::Resolving, BridgeEvent::Resolved(Ok(resolved))) => {
                if resolved.routes.len() > 0 {
                    let route = resolved.routes[0].clone();
                    self.phase = BridgePhase::Opening(route.clone());
                    one(BridgeAction::Open(route))
                } else {
                    self.stop()
                }
            },
            (BridgePhase::Resolving, BridgeEvent::Resolved(Err(_))) => self.stop(),
            (BridgePhase::Opening(route), BridgeEvent::Opened { kind, result }) => match result {
                Ok(_) => self.opened(route, kind),
                Err(_) => self.stop(),
            },
            (BridgePhase::Starting { route, kind }, BridgeEvent::Started(result)) => match result {
                Ok(_) => {
                    self.phase = BridgePhase::Running { route, kind, down: true, up: true };
                    Vec::new()
                },
                Err(_) => self.stop(),
            },
            (BridgePhase::Running { route, kind, down, up }, BridgeEvent::Session(e)) => {
                if down {
                    let (more, actions) = self.on_session(&route, kind, e);
                    self.run_on(route, kind, more, up, actions)
                } else {
                    self.phase = BridgePhase::Running { route, kind, down, up };
                    Vec::new()
                }
            },
            (BridgePhase::Running { route, kind, down, up }, BridgeEvent::Client(Some(m))) => {
                self.phase = BridgePhase::Running { route, kind, down, up };
                if up {
                    one(BridgeAction::Send(m))
                } else {
                    Vec::new()
                }
            },
            (BridgePhase::Running { route, kind, down, up }, BridgeEvent::Client(None)) => {
                if up {
                    let actions = one(BridgeAction::CloseSession);
                    assert(lists::views(actions@) =~= seq![BridgeActionView::CloseSession]);
                    self.run_on(route, kind, down, false, actions)
                } else {
                    self.phase = BridgePhase::Running { route, kind, down, up };
                    Vec::new()
                }
            },
            (phase, _) => {
                self.phase = phase;
                Vec::new()
            },
        };
        assert(lists::views(r@) =~= wanted);
        r
    }
}

// ---------------------------------------------------------------------------
// Transparency
// ---------------------------------------------------------------------------
/// Where a sequence of events leads a bridge, and the actions on the way.
pub open spec fn bridge_run(rules: BridgeRules, phase: BridgePhaseView, events: Seq<BridgeEvent>) -> (
    BridgePhaseView,
    Seq<BridgeActionView>,
)
    decreases events.len(),
{
    if events.len() == 0 {
        (phase, Seq::empty())
    } else {
        let (mid, actions) = bridge_run(rules, phase, events.drop_last());
        let (next, more) = bridge_step(rules, mid, events.last());
        (next, actions + more)
    }
}

/// The session has ended or the client has gone, by one of the events.
pub open spec fn ends_of(events: Seq<BridgeEvent>) -> (bool, bool)
    decreases events.len(),
{
    if events.len() == 0 {
        (false, false)
    } else {
        let (down, up) = ends_of(events.drop_last());
        match events.last() {
            BridgeEvent::Session(Some(SessionEvent::Stdout(_))) => (down, up),
            BridgeEvent::Session(Some(SessionEvent::Stderr(_))) => (down, up),
            BridgeEvent::Session(_) => (true, up),
            BridgeEvent::Client(None) => (down, true),
            _ => (down, up),
        }
    }
}

/// What the session printed before its end.
pub open spec fn printed(events: Seq<BridgeEvent>) -> Seq<u8>
    decreases events.len(),
{
    if events.len() == 0 {
        Seq::empty()
    } else {
        printed(events.drop_last()) + match events.last() {
            BridgeEvent::Session(Some(SessionEvent::Stdout(d))) => if ends_of(
                events.drop_last(),
            ).0 {
                Seq::empty()
            } else {
                d@
            },
            _ => Seq::empty(),
        }
    }
}

/// What the client sent before it went.
pub open spec fn sent(events: Seq<BridgeEvent>) -> Seq<ProxyMsg>
    decreases events.len(),
{
    if events.len() == 0 {
        Seq::empty()
    } else {
        match events.last() {
            BridgeEvent::Client(Some(m)) => if ends_of(events.drop_last()).1 {
                sent(events.drop_last())
            } else {
                sent(events.drop_last()).push(m)
            },
            _ => sent(events.drop_last()),
        }
    }
}

/// The bytes that some actions send to the client's channel.
pub open spec fn channel_bytes(actions: Seq<BridgeActionView>) -> Seq<u8>
    decreases actions.len(),
{
    if actions.len() == 0 {
        Seq::empty()
    } else {
        channel_bytes(actions.drop_last()) + match actions.last() {
            BridgeActionView::Data(d) => d,
            _ => Seq::empty(),
        }
    }
}

/// The messages that some actions send to the session.
pub open spec fn session_messages(actions: Seq<BridgeActionView>) -> Seq<ProxyMsg>
    decreases actions.len(),
{
    if actions.len() == 0 {
        Seq::empty()
    } else {
        match actions.last() {
            BridgeActionView::Send(m) => session_messages(actions.drop_last()).push(m),
            _ => session_messages(actions.drop_last()),
        }
    }
}

proof fn lemma_actions_add(a: Seq<BridgeActionView>, b: Seq<BridgeActionView>)
    ensures
        channel_bytes(a + b) == channel_bytes(a) + channel_bytes(b),
        session_messages(a + b) == session_messages(a) + session_messages(b),
    decreases b.len(),
{
    if b.len() == 0 {
        assert(a + b =~= a);
        assert(channel_bytes(a) + channel_bytes(b) =~= channel_bytes(a));
        assert(session_messages(a) + session_messages(b) =~= session_messages(a));
    } else {
        lemma_actions_add(a, b.drop_last());
        assert((a + b).drop_last() =~= a + b.drop_last());
        assert((a + b).last() == b.last());
        assert(channel_bytes(a + b) =~= channel_bytes(a) + channel_bytes(b));
        assert(session_messages(a + b) =~= session_messages(a) + session_messages(b));
    }
}

proof fn lemma_quiet(actions: Seq<BridgeActionView>)
    ensures
        (forall|i: int| 0 <= i < actions.len() ==> !((#[trigger] actions[i]) is Data))
            ==> channel_bytes(actions) == Seq::<u8>::empty(),
        (forall|i: int| 0 <= i < actions.len() ==> !((#[trigger] actions[i]) is Send))
            ==> session_messages(actions) == Seq::<ProxyMsg>::empty(),
    decreases actions.len(),
{
    if actions.len() > 0 {
        lemma_quiet(actions.drop_last());
        assert(actions.last() == actions[actions.len() - 1]);
        assert(forall|i: int|
            0 <= i < actions.len() - 1 ==> #[trigger] actions.drop_last()[i] == actions[i]);
    }
}

/// What an event adds to the output of a session.
pub open spec fn printed_by(event: BridgeEvent) -> Seq<u8> {
    match event {
        BridgeEvent::Session(Some(SessionEvent::Stdout(d))) => d@,
        _ => Seq::empty(),
    }
}

/// What an event adds to the messages of a client.
pub open spec fn sent_by(event: BridgeEvent) -> Seq<ProxyMsg> {
    match event {
        BridgeEvent::Client(Some(m)) => seq![m],
        _ => Seq::empty(),
    }
}

proof fn lemma_running_step(
    rules: BridgeRules,
    route: gateway::RouteView,
    kind: Option<GatewayKind>,
    down: bool,
    up: bool,
    event: BridgeEvent,
)
    ensures
        ({
            let phase = BridgePhaseView::Running { route, kind, down, up };
            let more = bridge_step(rules, phase, event).1;
            &&& channel_bytes(more) == if down {
                printed_by(event)
            } else {
                Seq::empty()
            }
            &&& session_messages(more) == if up {
                sent_by(event)
            } else {
                Seq::empty()
            }
        }),
{
    let phase = BridgePhaseView::Running { route, kind, down, up };
    let more = bridge_step(rules, phase, event).1;
    lemma_quiet(more);
    if more.len() == 1 {
        assert(more.drop_last() =~= Seq::<BridgeActionView>::empty());
        assert(channel_bytes(more.drop_last()) =~= Seq::<u8>::empty());
        assert(session_messages(more.drop_last()) =~= Seq::<ProxyMsg>::empty());
    }
    assert(channel_bytes(more) =~= if down {
        printed_by(event)
    } else {
        Seq::empty()
    });
    assert(session_messages(more) =~= if up {
        sent_by(event)
    } else {
        Seq::empty()
    });
}

/// A bridge is transparent: while it runs, what the session prints goes to the client's
/// channel, byte for byte and in order, up to the session's end; and what the client sends
/// goes to the session, message for message and in order, until the client is gone.
pub proof fn law_bridges_are_transparent(
    rules: BridgeRules,
    route: gateway::RouteView,
    kind: Option<GatewayKind>,
    events: Seq<BridgeEvent>,
)
    ensures
        ({
            let first = BridgePhaseView::Running { route, kind, down: true, up: true };
            let (phase, actions) = bridge_run(rules, first, events);
            let (ended, gone) = ends_of(events);
            &&& channel_bytes(actions) == printed(events)
            &&& session_messages(actions) == sent(events)
            &&& phase == if ended && gone {
                BridgePhaseView::Over
            } else {
                BridgePhaseView::Running { route, kind, down: !ended, up: !gone }
            }
        }),
    decreases events.len(),
{
    let first = BridgePhaseView::Running { route, kind, down: true, up: true };
    if events.len() > 0 {
        let (mid, actions) = bridge_run(rules, first, events.drop_last());
        let (next, more) = bridge_step(rules, mid, events.last());
        law_bridges_are_transparent(rules, route, kind, events.drop_last());
        lemma_actions_add(actions, more);
        let (ended, gone) = ends_of(events.drop_last());
        if ended && gone {
            assert(actions + more =~= actions);
        } else {
            lemma_running_step(rules, route, kind, !ended, !gone, events.last());
        }
        assert(channel_bytes(actions + more) =~= printed(events));
        assert(session_messages(actions + more) =~= sent(events));
    }
}

/// What goes to the client's channel from a session.
pub enum Shown {
    Data(Seq<u8>),
    Extended(u32, Seq<u8>),
    Status(u32),
    Eof,
    Closed,
}

/// What an event of a session shows to the client: its output as data, its errors as extended
/// data of the first kind, and its end with the code that it ended with.
pub open spec fn shows(event: BridgeEvent) -> Seq<Shown> {
    match event {
        BridgeEvent::Session(Some(SessionEvent::Stdout(d))) => seq![Shown::Data(d@)],
        BridgeEvent::Session(Some(SessionEvent::Stderr(d))) => seq![Shown::Extended(1, d@)],
        BridgeEvent::Session(Some(SessionEvent::ExitStatus(c))) => seq![
            Shown::Status(c as u32),
            Shown::Eof,
            Shown::Closed,
        ],
        BridgeEvent::Session(Some(SessionEvent::ExitSignal(_))) => seq![
            Shown::Status(255),
            Shown::Closed,
        ],
        BridgeEvent::Session(Some(SessionEvent::Eof)) => seq![Shown::Eof, Shown::Closed],
        _ => Seq::empty(),
    }
}

/// The event is the last one of a session that counts.
pub open spec fn ends_session() -> spec_fn(BridgeEvent) -> bool {
    |e: BridgeEvent|
        e matches BridgeEvent::Session(x) && !(x matches Some(SessionEvent::Stdout(_))) && !(
        x matches Some(SessionEvent::Stderr(_)))
}

/// What some events show, one after the other.
pub open spec fn all_shown(events: Seq<BridgeEvent>) -> Seq<Shown>
    decreases events.len(),
{
    if events.len() == 0 {
        Seq::empty()
    } else {
        all_shown(events.drop_last()) + shows(events.last())
    }
}

/// What an action sends to the client's channel.
pub open spec fn sent_to_client() -> spec_fn(BridgeActionView) -> Option<Shown> {
    |a: BridgeActionView|
        match a {
            BridgeActionView::Data(d) => Some(Shown::Data(d)),
            BridgeActionView::ExtendedData(kind, d) => Some(Shown::Extended(kind, d)),
            BridgeActionView::ExitStatus(c) => Some(Shown::Status(c)),
            BridgeActionView::Eof => Some(Shown::Eof),
            BridgeActionView::Close => Some(Shown::Closed),
            _ => None,
        }
}

proof fn lemma_step_shows(
    rules: BridgeRules,
    route: gateway::RouteView,
    kind: Option<GatewayKind>,
    down: bool,
    up: bool,
    event: BridgeEvent,
)
    ensures
        ({
            let phase = BridgePhaseView::Running { route, kind, down, up };
            let more = bridge_step(rules, phase, event).1;
            lists::picked(more, sent_to_client()) == if down {
                shows(event)
            } else {
                Seq::empty()
            }
        }),
{
    let phase = BridgePhaseView::Running { route, kind, down, up };
    let more = bridge_step(rules, phase, event).1;
    lists::lemma_picked_few(more, sent_to_client());
    assert(lists::picked(more, sent_to_client()) =~= if down {
        shows(event)
    } else {
        Seq::empty()
    });
}

/// All that a session tells up to its end is shown to the client as what it is, unchanged and
/// in order: output, errors, and the code that it ended with.
pub proof fn law_sessions_are_shown_as_they_are(
    rules: BridgeRules,
    route: gateway::RouteView,
    kind: Option<GatewayKind>,
    events: Seq<BridgeEvent>,
)
    ensures
        ({
            let first = BridgePhaseView::Running { route, kind, down: true, up: true };
            let (phase, actions) = bridge_run(rules, first, events);
            let before = lists::before_end(events, ends_session());
            let end = lists::first_end(events, ends_session());
            lists::picked(actions, sent_to_client()) == all_shown(before) + match end {
                Some(e) => shows(e),
                None => Seq::empty(),
            }
        }),
    decreases events.len(),
{
    let first = BridgePhaseView::Running { route, kind, down: true, up: true };
    lists::lemma_before_end(events, ends_session());
    if events.len() > 0 {
        let init = events.drop_last();
        let last = events.last();
        let (mid, actions) = bridge_run(rules, first, init);
        let more = bridge_step(rules, mid, last).1;
        law_sessions_are_shown_as_they_are(rules, route, kind, init);
        law_bridges_are_transparent(rules, route, kind, init);
        lemma_ends_agree(init);
        lists::lemma_before_end(init, ends_session());
        lists::lemma_picked_add(actions, more, sent_to_client());
        let (ended, gone) = ends_of(init);
        let kept = lists::before_end(init, ends_session());
        if ended && gone {
            assert(more =~= Seq::<BridgeActionView>::empty());
            assert(lists::picked(more, sent_to_client()) =~= Seq::<Shown>::empty());
        } else {
            lemma_step_shows(rules, route, kind, !ended, !gone, last);
        }
        if ended {
            assert(init[kept.len() as int] == events[kept.len() as int]);
        } else {
            assert(events[init.len() as int] == last);
            assert(kept.push(last).drop_last() =~= kept);
        }
        let before = lists::before_end(events, ends_session());
        let end = lists::first_end(events, ends_session());
        assert(lists::picked(actions + more, sent_to_client()) =~= all_shown(before) + match end {
            Some(e) => shows(e),
            None => Seq::empty(),
        });
    } else {
        assert(all_shown(Seq::empty()) + Seq::<Shown>::empty() =~= Seq::<Shown>::empty());
    }
}

proof fn lemma_ends_agree(events: Seq<BridgeEvent>)
    ensures
        ends_of(events).0 == lists::first_end(events, ends_session()) is Some,
    decreases events.len(),
{
    if events.len() > 0 {
        lemma_ends_agree(events.drop_last());
        lists::lemma_before_end(events.drop_last(), ends_session());
        lists::lemma_before_end(events, ends_session());
    }
}

/// A target that was resolved is opened over its first route, and over no other; one without a
/// route is given up.
pub proof fn law_first_route_is_opened(rules: BridgeRules, resolved: ResolveResult)
    ensures
        ({
            let event = BridgeEvent::Resolved(Ok(resolved));
            let (phase, actions) = bridge_step(rules, BridgePhaseView::Resolving, event);
            if resolved.routes@.len() > 0 {
                &&& actions.len() == 1
                &&& actions[0] matches BridgeActionView::Open(r) && r.gateway
                    == resolved.routes@[0].gateway_name@ && r.target
                    == resolved.routes@[0].end_target@
                &&& phase == BridgePhaseView::Opening(actions[0]->Open_0)
            } else {
                actions == seq![BridgeActionView::Stop] && phase is Over
            }
        }),
{
}

/// Before a session is started, it gets exactly the terminal that the client asked for, field
/// by field, if it asked for one, and then every variable of the client's environment in order.
/// What is started last is what the client asked to start. The log names who started what, and
/// where.
pub proof fn law_sessions_are_prepared_as_asked(
    rules: BridgeRules,
    route: gateway::RouteView,
    kind: Option<GatewayKind>,
)
    ensures
        ({
            let event = BridgeEvent::Opened { kind, result: Ok(()) };
            let (phase, actions) = bridge_step(rules, BridgePhaseView::Opening(route), event);
            let first = if rules.pty is Some {
                1int
            } else {
                0
            };
            let n = rules.env.len() as int;
            &&& actions.len() == first + n + 2
            &&& rules.pty matches Some(pty) ==> (actions[0] matches BridgeActionView::RequestPty(
                term,
                cols,
                rows,
            ) && term == pty.0 && cols == pty.1 && rows == pty.2)
            &&& forall|i: int|
                0 <= i < n ==> (#[trigger] actions[first + i] matches BridgeActionView::SetEnv(
                    name,
                    value,
                ) && name == rules.env[i].0 && value == rules.env[i].1)
            &&& actions[first + n] matches BridgeActionView::Record(entry) && {
                &&& entry.source == rules.caller.source
                &&& entry.operation is Proxy
                &&& entry.phase == "started"@
                &&& entry.target_input == rules.user
                &&& entry.gateway == route.gateway
                &&& entry.end_target == route.target
                &&& entry.exit_code is None
                &&& entry.gateway_kind is Some == kind is Some
                &&& entry.command == match rules.start {
                    StartView::Exec(c) => Some(c),
                    StartView::Shell => Some("(interactive)"@),
                    StartView::Subsystem(name) => Some(name),
                }
                &&& entry.session_kind == match rules.start {
                    StartView::Exec(_) => "exec"@,
                    StartView::Shell => "shell"@,
                    StartView::Subsystem(_) => "subsystem"@,
                }
                &&& rules.include_identity ==> entry.caller == Some(rules.caller)
                &&& !rules.include_identity ==> entry.caller is None
            }
            &&& actions[first + n + 1] == BridgeActionView::Start(rules.start)
            &&& phase == BridgePhaseView::Starting { route, kind }
        }),
{
    let event = BridgeEvent::Opened { kind, result: Ok(()) };
    let actions = bridge_step(rules, BridgePhaseView::Opening(route), event).1;
    let first = if rules.pty is Some {
        1int
    } else {
        0
    };
    let before = prepared(rules.pty, rules.env);
    assert(before.len() == first + rules.env.len());
    assert forall|i: int| 0 <= i < rules.env.len() implies (
    #[trigger] actions[first + i] matches BridgeActionView::SetEnv(name, value) && name
        == rules.env[i].0 && value == rules.env[i].1) by {
        assert(actions[first + i] == before[first + i]);
    }
    if rules.pty is Some {
        assert(actions[0] == before[0]);
    }
}

/// The end of a session is logged with its code, once, under what was started and where.
pub proof fn law_ends_are_logged(
    rules: BridgeRules,
    route: gateway::RouteView,
    kind: Option<GatewayKind>,
    up: bool,
    code: i32,
)
    ensures
        ({
            let phase = BridgePhaseView::Running { route, kind, down: true, up };
            let event = BridgeEvent::Session(Some(SessionEvent::ExitStatus(code)));
            let actions = bridge_step(rules, phase, event).1;
            &&& actions[0] matches BridgeActionView::Record(entry) && {
                &&& entry.source == rules.caller.source
                &&& entry.operation is Proxy
                &&& entry.phase == "completed"@
                &&& entry.target_input == rules.user
                &&& entry.gateway == route.gateway
                &&& entry.end_target == route.target
                &&& entry.exit_code == Some(code)
                &&& entry.command is None
                &&& entry.session_kind == match rules.start {
                    StartView::Exec(_) => "exec"@,
                    StartView::Shell => "shell"@,
                    StartView::Subsystem(_) => "subsystem"@,
                }
            }
            &&& forall|i: int| 0 < i < actions.len() ==> !(#[trigger] actions[i] is Record)
        }),
{
}

/// A session that cannot be opened or started is given up, and one that was started runs in
/// both directions.
pub proof fn law_sessions_run_once_started(
    rules: BridgeRules,
    route: gateway::RouteView,
    kind: Option<GatewayKind>,
    error: String,
)
    ensures
        ({
            let opening = BridgePhaseView::Opening(route);
            let starting = BridgePhaseView::Starting { route, kind };
            let stop = (BridgePhaseView::Over, seq![BridgeActionView::Stop]);
            &&& bridge_step(rules, BridgePhaseView::Resolving, BridgeEvent::Resolved(Err(error)))
                == stop
            &&& bridge_step(rules, opening, BridgeEvent::Opened { kind, result: Err(error) })
                == stop
            &&& bridge_step(rules, starting, BridgeEvent::Started(Err(error))) == stop
            &&& bridge_step(rules, starting, BridgeEvent::Started(Ok(()))) == (
                BridgePhaseView::Running { route, kind, down: true, up: true },
                Seq::<BridgeActionView>::empty(),
            )
        }),
{
}

/// Nothing is started for a client that did not authenticate. What is started on a channel gets
/// the terminal and the environment that were asked for on it, and no other channel notices.
pub proof fn law_only_the_accepted_start<C, T>(state: ProxyState<C, T>, id: u32, bridge: T, other: u32)
    ensures
        ({
            let (next, taken) = state.start(id, bridge);
            &&& state.user is None ==> taken is None && next == state
            &&& !state.channels.dom().contains(id) ==> taken is None && next == state
            &&& state.user is Some && state.channels.dom().contains(id) ==> {
                &&& taken matches Some(entry) && entry.pty == state.channels[id].pty && entry.env
                    == state.channels[id].env && entry.channel == state.channels[id].channel
                &&& next.bridges.dom().contains(id) && next.bridges[id] == bridge
                &&& !next.channels.dom().contains(id)
                &&& other != id ==> next.channels.dom().contains(other)
                    == state.channels.dom().contains(other) && next.bridges.dom().contains(other)
                    == state.bridges.dom().contains(other)
                &&& other != id && state.channels.dom().contains(other) ==> next.channels[other]
                    == state.channels[other]
                &&& next.user == state.user
            }
        }),
{
}

/// What is stated of a [`BridgeAction`] is stated of its own parts: each kind is seen as that
/// kind, with all that it holds.
pub proof fn law_bridge_action_is_seen_as_it_is(value: BridgeAction)
    ensures
        ({
            let seen = value@;
            match value {
                BridgeAction::Open(r) => seen == BridgeActionView::Open(r@),
                BridgeAction::RequestPty(p) => seen == BridgeActionView::RequestPty(p.term@, p.cols, p.rows),
                BridgeAction::SetEnv(k, v) => seen == BridgeActionView::SetEnv(k@, v@),
                BridgeAction::Record(e) => seen == BridgeActionView::Record(e@),
                BridgeAction::Start(s) => seen == BridgeActionView::Start(s@),
                BridgeAction::Data(d) => seen == BridgeActionView::Data(d@),
                BridgeAction::ExtendedData(n, d) => seen == BridgeActionView::ExtendedData(n, d@),
                BridgeAction::ExitStatus(c) => seen == BridgeActionView::ExitStatus(c),
                BridgeAction::Eof => seen == BridgeActionView::Eof,
                BridgeAction::Close => seen == BridgeActionView::Close,
                BridgeAction::Send(m) => seen == BridgeActionView::Send(m),
                BridgeAction::CloseSession => seen == BridgeActionView::CloseSession,
                BridgeAction::Stop => seen == BridgeActionView::Stop,
            }
        }),
{
}

} // verus!
