//! Nodes that connect to this daemon and serve as dynamic gateways.
use crate::assoc::Assoc;
use crate::config::{ServerEntry, ServerListRow};
use crate::gateway;
use crate::gateway::{
    is_transport_error, operation_error, ErrorCause, ErrorKind, GatewayError, GatewayKind,
};
use crate::listing;
use crate::listing::{remote_rows, RemoteRow};
use crate::lists;
use crate::lists::{one, two};
use crate::text;
use crate::text::{concat3, same};
use crate::xhod;
use crate::xhod::list_failure;
use vstd::prelude::*;

verus! {

/// The subsystem that a node asks for, followed by its name.
pub const REVERSE_SUBSYSTEM_NAME: &'static str = "xho-reverse";

/// The name of the subsystem that a node asks for.
pub fn reverse_subsystem(node_name: &str) -> (r: String)
    ensures
        r@ == REVERSE_SUBSYSTEM_NAME@ + ":"@ + node_name@,
{
    concat3(REVERSE_SUBSYSTEM_NAME, ":", node_name)
}

/// What is known of a connected node.
#[derive(Debug)]
pub struct ReverseProxyNodeInfo {
    pub name: String,
    /// The peer's address as text, if it is known.
    pub peer_addr: Option<String>,
    pub fingerprint: String,
    /// Seconds from the epoch to the connection; none if the clock stood before it.
    pub connected_at: Option<u64>,
    /// The host name that the node reports.
    pub hostname: String,
    /// The user that the node reports.
    pub user: String,
}

/// The mathematical counterpart of [`ReverseProxyNodeInfo`].
#[verifier::ext_equal]
pub struct InfoView {
    pub name: Seq<char>,
    pub peer_addr: Option<Seq<char>>,
    pub fingerprint: Seq<char>,
    pub connected_at: Option<u64>,
    pub hostname: Seq<char>,
    pub user: Seq<char>,
}

impl View for ReverseProxyNodeInfo {
    type V = InfoView;

    open spec fn view(&self) -> InfoView {
        InfoView {
            name: self.name@,
            peer_addr: text::opt(self.peer_addr),
            fingerprint: self.fingerprint@,
            connected_at: self.connected_at,
            hostname: self.hostname@,
            user: self.user@,
        }
    }
}

/// The status of a node, for an answer to a client.
#[derive(Debug)]
pub struct ReverseProxyNodeStatus {
    pub name: String,
    pub peer_addr: String,
    pub fingerprint: String,
    pub connected_at: u64,
    pub hostname: String,
    pub user: String,
}

/// The mathematical counterpart of [`ReverseProxyNodeStatus`].
#[verifier::ext_equal]
pub struct NodeView {
    pub name: Seq<char>,
    pub peer_addr: Seq<char>,
    pub fingerprint: Seq<char>,
    pub connected_at: int,
    pub hostname: Seq<char>,
    pub user: Seq<char>,
}

impl View for ReverseProxyNodeStatus {
    type V = NodeView;

    open spec fn view(&self) -> NodeView {
        NodeView {
            name: self.name@,
            peer_addr: self.peer_addr@,
            fingerprint: self.fingerprint@,
            connected_at: self.connected_at as int,
            hostname: self.hostname@,
            user: self.user@,
        }
    }
}

/// The status of a node: what is not known of it is empty.
pub open spec fn status_of(info: InfoView) -> NodeView {
    NodeView {
        name: info.name,
        peer_addr: match info.peer_addr {
            Some(a) => a,
            None => Seq::empty(),
        },
        fingerprint: info.fingerprint,
        connected_at: match info.connected_at {
            Some(t) => t as int,
            None => 0,
        },
        hostname: info.hostname,
        user: info.user,
    }
}

impl ReverseProxyNodeInfo {
    pub fn status(&self) -> (r: ReverseProxyNodeStatus)
        ensures
            r@ == status_of(self@),
    {
        ReverseProxyNodeStatus {
            name: self.name.clone(),
            peer_addr: match &self.peer_addr {
                Some(a) => a.clone(),
                None => String::new(),
            },
            fingerprint: self.fingerprint.clone(),
            connected_at: match self.connected_at {
                Some(t) => t,
                None => 0,
            },
            hostname: self.hostname.clone(),
            user: self.user.clone(),
        }
    }
}

/// A node and the gateway that reaches it.
pub struct RegisteredNode<G> {
    pub gateway: G,
    pub info: ReverseProxyNodeInfo,
}

/// The connected nodes by name. A name is taken by one node at a time.
pub struct ReverseProxyRegistry<G> {
    nodes: Assoc<String, RegisteredNode<G>>,
}

impl<G> View for ReverseProxyRegistry<G> {
    type V = Map<Seq<char>, (G, InfoView)>;

    closed spec fn view(&self) -> Map<Seq<char>, (G, InfoView)> {
        Map::new(
            |k: Seq<char>| self.nodes@.dom().contains(k),
            |k: Seq<char>| (self.nodes@[k].gateway, self.nodes@[k].info@),
        )
    }
}

/// The names of a list are the keys of a map, each once.
pub open spec fn lists_keys<V>(names: Seq<Seq<char>>, map: Map<Seq<char>, V>) -> bool {
    &&& names.no_duplicates()
    &&& forall|k: Seq<char>| #[trigger] names.contains(k) <==> map.dom().contains(k)
}

/// Why a node is turned away whose name is taken.
pub open spec fn name_taken(name: Seq<char>) -> Seq<char> {
    "reverse proxy node name '"@ + name + "' is already registered; refusing new connection"@
}

fn name_taken_text(name: &str) -> (r: String)
    ensures
        r@ == name_taken(name@),
{
    concat3(
        "reverse proxy node name '",
        name,
        "' is already registered; refusing new connection",
    )
}

/// What a health check's report changes: only what it names.
pub open spec fn updated(info: InfoView, hostname: Seq<char>, user: Seq<char>) -> InfoView {
    InfoView {
        hostname: if hostname.len() > 0 {
            hostname
        } else {
            info.hostname
        },
        user: if user.len() > 0 {
            user
        } else {
            info.user
        },
        ..info
    }
}

impl<G> ReverseProxyRegistry<G> {
    pub closed spec fn wf(&self) -> bool {
        self.nodes.wf()
    }

    pub fn new() -> (r: Self)
        ensures
            r.wf(),
            r@ == Map::<Seq<char>, (G, InfoView)>::empty(),
    {
        let r = ReverseProxyRegistry { nodes: Assoc::new() };
        assert(r@ =~= Map::<Seq<char>, (G, InfoView)>::empty());
        r
    }

    /// Whether a node of this name is registered.
    pub fn contains(&self, name: &str) -> (r: bool)
        ensures
            r == self@.dom().contains(name@),
    {
        let key = name.to_owned();
        self.nodes.contains(&key)
    }

    /// The gateway of a node.
    pub fn get(&self, name: &str) -> (r: Option<&G>)
        ensures
            match r {
                Some(g) => self@.dom().contains(name@) && *g == self@[name@].0,
                None => !self@.dom().contains(name@),
            },
    {
        let key = name.to_owned();
        match self.nodes.get(&key) {
            Some(node) => Some(&node.gateway),
            None => None,
        }
    }

    /// The names of all nodes. Their order is not fixed.
    #[verifier::loop_isolation(false)]
    pub fn list_names(&self) -> (r: Vec<String>)
        requires
            self.wf(),
        ensures
            lists_keys(text::texts(r@), self@),
    {
        let mut r: Vec<String> = Vec::new();
        let mut i: usize = 0;
        while i < self.nodes.len()
            invariant
                i <= self.nodes.list().len(),
                r@.len() == i,
                forall|j: int| 0 <= j < i ==> (#[trigger] r@[j])@ == self.nodes.list()[j].0@,
            decreases self.nodes.list().len() - i,
        {
            r.push(self.nodes.at(i).0.clone());
            i += 1;
        }
        proof {
            let names = text::texts(r@);
            assert forall|a: int, b: int|
                0 <= a < names.len() && 0 <= b < names.len() && a != b implies names[a]
                != names[b] by {
                if a < b {
                    self.nodes.lemma_distinct(a, b);
                } else {
                    self.nodes.lemma_distinct(b, a);
                }
            }
            assert forall|k: Seq<char>| #[trigger] names.contains(k) <==> self@.dom().contains(
                k,
            ) by {
                if names.contains(k) {
                    let j = choose|j: int| 0 <= j < names.len() && names[j] == k;
                    self.nodes.lemma_listed(j);
                }
                if self@.dom().contains(k) {
                    let j = self.nodes.lemma_key_listed(k);
                    assert(names[j] == k);
                }
            }
        }
        r
    }

    /// The status of all nodes. Their order is not fixed.
    #[verifier::loop_isolation(false)]
    pub fn list_nodes(&self) -> (r: Vec<ReverseProxyNodeStatus>)
        requires
            self.wf(),
        ensures
            exists|names: Seq<Seq<char>>| #[trigger]
                lists_keys(names, self@) && names.len() == r@.len() && forall|i: int|
                    0 <= i < r@.len() ==> (#[trigger] r@[i])@ == status_of(self@[names[i]].1),
    {
        let mut r: Vec<ReverseProxyNodeStatus> = Vec::new();
        let mut i: usize = 0;
        while i < self.nodes.len()
            invariant
                i <= self.nodes.list().len(),
                r@.len() == i,
                forall|j: int|
                    0 <= j < i ==> (#[trigger] r@[j])@ == status_of(self.nodes.list()[j].1.info@),
            decreases self.nodes.list().len() - i,
        {
            r.push(self.nodes.at(i).1.info.status());
            i += 1;
        }
        proof {
            let names = Seq::new(r@.len(), |j: int| self.nodes.list()[j].0@);
            assert forall|a: int, b: int|
                0 <= a < names.len() && 0 <= b < names.len() && a != b implies names[a]
                != names[b] by {
                if a < b {
                    self.nodes.lemma_distinct(a, b);
                } else {
                    self.nodes.lemma_distinct(b, a);
                }
            }
            assert forall|k: Seq<char>| #[trigger] names.contains(k) <==> self@.dom().contains(
                k,
            ) by {
                if names.contains(k) {
                    let j = choose|j: int| 0 <= j < names.len() && names[j] == k;
                    self.nodes.lemma_listed(j);
                }
                if self@.dom().contains(k) {
                    let j = self.nodes.lemma_key_listed(k);
                    assert(names[j] == k);
                }
            }
            assert(lists_keys(names, self@));
            assert forall|j: int| 0 <= j < r@.len() implies (#[trigger] r@[j])@ == status_of(
                self@[names[j]].1,
            ) by {
                self.nodes.lemma_listed(j);
            }
        }
        r
    }

    /// Register a node. A name that is taken is refused.
    pub fn register(&mut self, name: &str, gateway: G, info: ReverseProxyNodeInfo) -> (r: Result<
        (),
        String,
    >)
        requires
            old(self).wf(),
        ensures
            final(self).wf(),
            match r {
                Ok(_) => !old(self)@.dom().contains(name@) && final(self)@ == old(self)@.insert(
                    name@,
                    (gateway, info@),
                ),
                Err(e) => old(self)@.dom().contains(name@) && final(self)@ == old(self)@ && e@
                    == name_taken(name@),
            },
    {
        let key = name.to_owned();
        if self.nodes.contains(&key) {
            return Err(name_taken_text(name));
        }
        self.nodes.put(key, RegisteredNode { gateway, info });
        assert(self@ =~= old(self)@.insert(name@, (gateway, info@)));
        Ok(())
    }

    /// Unregister a node, if it is there. The result tells if it was.
    pub fn unregister(&mut self, name: &str) -> (r: bool)
        requires
            old(self).wf(),
        ensures
            final(self).wf(),
            final(self)@ == old(self)@.remove(name@),
            r == old(self)@.dom().contains(name@),
    {
        let key = name.to_owned();
        let gone = self.nodes.take(&key);
        assert(self@ =~= old(self)@.remove(name@));
        gone.is_some()
    }

    /// Take over what a health check reports of a node.
    pub fn update_node_info(&mut self, name: &str, hostname: String, user: String)
        requires
            old(self).wf(),
        ensures
            final(self).wf(),
            final(self)@ == if old(self)@.dom().contains(name@) {
                old(self)@.insert(
                    name@,
                    (old(self)@[name@].0, updated(old(self)@[name@].1, hostname@, user@)),
                )
            } else {
                old(self)@
            },
    {
        let key = name.to_owned();
        match self.nodes.take(&key) {
            Some(mut node) => {
                let ghost before = node;
                if !hostname.as_str().is_empty() {
                    node.info.hostname = hostname;
                }
                if !user.as_str().is_empty() {
                    node.info.user = user;
                }
                assert(node.info@ =~= updated(before.info@, hostname@, user@));
                self.nodes.put(key, node);
                assert(self@ =~= old(self)@.insert(
                    name@,
                    (old(self)@[name@].0, updated(old(self)@[name@].1, hostname@, user@)),
                ));
            },
            None => {
                assert(self@ =~= old(self)@);
            },
        }
    }

    /// The number of nodes.
    pub fn len(&self) -> (r: usize)
        requires
            self.wf(),
        ensures
            exists|names: Seq<Seq<char>>| #[trigger]
                lists_keys(names, self@) && names.len() == r,
    {
        let names = self.list_names();
        let r: usize = names.len();
        assert(lists_keys(text::texts(names@), self@) && text::texts(names@).len() == r);
        r
    }
}

// ---------------------------------------------------------------------------
// Handshake and health
// ---------------------------------------------------------------------------
/// Why a node that wants to connect is refused, if it is.
pub open spec fn refusal(node_name: Seq<char>, taken: bool) -> Option<Seq<char>> {
    if node_name.len() == 0 {
        Some("reverse proxy node name is empty (subsystem must be xho-reverse:<name>)"@)
    } else if taken {
        Some(name_taken(node_name))
    } else {
        None
    }
}

/// Whether a node that wants to connect is accepted.
pub fn accept_node(node_name: &str, taken: bool) -> (r: Result<(), String>)
    ensures
        match refusal(node_name@, taken) {
            Some(m) => r matches Err(e) && e@ == m,
            None => r is Ok,
        },
{
    if node_name.is_empty() {
        return Err(
            "reverse proxy node name is empty (subsystem must be xho-reverse:<name>)".to_owned(),
        );
    }
    if taken {
        return Err(name_taken_text(node_name));
    }
    Ok(())
}

/// The rows of a node's server list, if it gave any; or why it did not answer.
pub type HealthAnswer = Result<Option<Vec<Option<ServerEntry>>>, String>;

/// The index of the first server with the alias `_self`; the length if there is none.
pub open spec fn self_row(rows: Seq<Option<ServerEntry>>) -> int
    decreases rows.len(),
{
    if rows.len() == 0 {
        0
    } else if rows[0] matches Some(s) && s.alias@ == "_self"@ {
        0
    } else {
        1 + self_row(rows.skip(1))
    }
}

/// What a node reports of itself in its server list: its host name and its user.
pub open spec fn reported(rows: Seq<Option<ServerEntry>>) -> Option<(Seq<char>, Seq<char>)> {
    let n = self_row(rows);
    if n < rows.len() {
        match rows[n] {
            Some(s) => Some((s.host@, s.user@)),
            None => None,
        }
    } else {
        None
    }
}

/// What a node reports of itself in its server list.
#[verifier::loop_isolation(false)]
pub fn self_report(rows: &[Option<ServerEntry>]) -> (r: Option<(String, String)>)
    ensures
        match r {
            Some((host, user)) => reported(rows@) == Some((host@, user@)),
            None => reported(rows@) is None,
        },
{
    let mut i: usize = 0;
    assert(rows@.skip(0) == rows@);
    while i < rows.len()
        invariant
            i <= rows.len(),
            self_row(rows@) == i + self_row(rows@.skip(i as int)),
        decreases rows.len() - i,
    {
        assert(rows@.skip(i as int).skip(1) == rows@.skip(i + 1));
        if let Some(server) = &rows[i] {
            if same(server.alias.as_str(), "_self") {
                return Some((server.host.clone(), server.user.clone()));
            }
        }
        i += 1;
    }
    None
}

/// What happens to a node that connects.
pub enum WatchEvent {
    /// It asked for its subsystem; its name may be taken.
    Arrived { taken: bool },
    Registered(Result<(), String>),
    /// Whether it is still registered.
    LookedUp(bool),
    Answered(HealthAnswer),
    /// The time between two checks has passed.
    Waited,
}

/// What to do for a node that connects, in order.
pub enum WatchAction {
    Register,
    /// See if the node is still registered.
    LookUp,
    /// Ask the node for its servers.
    Ask,
    /// Take over what the node reports of itself.
    Update { hostname: String, user: String },
    Wait { seconds: u64 },
    Unregister,
    Finish,
    Fail(String),
}

/// The mathematical counterpart of [`WatchAction`].
pub enum WatchActionView {
    Register,
    LookUp,
    Ask,
    Update { hostname: Seq<char>, user: Seq<char> },
    Wait { seconds: int },
    Unregister,
    Finish,
    Fail(Seq<char>),
}

impl View for WatchAction {
    type V = WatchActionView;

    open spec fn view(&self) -> WatchActionView {
        match self {
            WatchAction::Register => WatchActionView::Register,
            WatchAction::LookUp => WatchActionView::LookUp,
            WatchAction::Ask => WatchActionView::Ask,
            WatchAction::Update { hostname, user } => WatchActionView::Update {
                hostname: hostname@,
                user: user@,
            },
            WatchAction::Wait { seconds } => WatchActionView::Wait { seconds: *seconds as int },
            WatchAction::Unregister => WatchActionView::Unregister,
            WatchAction::Finish => WatchActionView::Finish,
            WatchAction::Fail(e) => WatchActionView::Fail(e@),
        }
    }
}

/// Where the watch over a node stands.
#[derive(Clone, Copy, Debug, PartialEq, Eq, Structural)]
pub enum WatchPhase {
    Arriving,
    Registering,
    LookingUp,
    Asking,
    Waiting,
    Over,
}

/// The time between two checks of a node.
pub const CHECK_INTERVAL_SECONDS: u64 = 15;

/// What an event does to the watch over a node. An event that the phase does not wait for does
/// nothing. The first check follows the registration at once; a node that does not answer is
/// unregistered.
pub open spec fn watch_step(name: Seq<char>, phase: WatchPhase, event: WatchEvent) -> (
    WatchPhase,
    Seq<WatchActionView>,
) {
    let idle = (phase, Seq::<WatchActionView>::empty());
    let wait = WatchActionView::Wait { seconds: CHECK_INTERVAL_SECONDS as int };
    match (phase, event) {
        (WatchPhase::Arriving, WatchEvent::Arrived { taken }) => match refusal(name, taken) {
            Some(e) => (WatchPhase::Over, seq![WatchActionView::Fail(e)]),
            None => (WatchPhase::Registering, seq![WatchActionView::Register]),
        },
        (WatchPhase::Registering, WatchEvent::Registered(r)) => match r {
            Ok(_) => (WatchPhase::LookingUp, seq![WatchActionView::LookUp]),
            Err(e) => (WatchPhase::Over, seq![WatchActionView::Fail(e@)]),
        },
        (WatchPhase::LookingUp, WatchEvent::LookedUp(there)) => if there {
            (WatchPhase::Asking, seq![WatchActionView::Ask])
        } else {
            (WatchPhase::Over, seq![WatchActionView::Finish])
        },
        (WatchPhase::Asking, WatchEvent::Answered(answer)) => match answer {
            Err(_) => (
                WatchPhase::Over,
                seq![WatchActionView::Unregister, WatchActionView::Finish],
            ),
            Ok(None) => (WatchPhase::Waiting, seq![wait]),
            Ok(Some(rows)) => (
                WatchPhase::Waiting,
                match reported(rows@) {
                    Some((hostname, user)) => seq![
                        WatchActionView::Update { hostname, user },
                        wait,
                    ],
                    None => seq![wait],
                },
            ),
        },
        (WatchPhase::Waiting, WatchEvent::Waited) => (
            WatchPhase::LookingUp,
            seq![WatchActionView::LookUp],
        ),
        _ => idle,
    }
}

/// The watch over a node, from its arrival until it is gone.
pub struct NodeWatch {
    name: String,
    phase: WatchPhase,
}

impl NodeWatch {
    pub closed spec fn node_name(&self) -> Seq<char> {
        self.name@
    }

    pub closed spec fn phase(&self) -> WatchPhase {
        self.phase
    }

    pub fn new(name: String) -> (r: Self)
        ensures
            r.node_name() == name@,
            r.phase() == WatchPhase::Arriving,
    {
        NodeWatch { name, phase: WatchPhase::Arriving }
    }

    fn go(&mut self, phase: WatchPhase, action: WatchAction) -> (r: Vec<WatchAction>)
        ensures
            final(self).node_name() == old(self).node_name(),
            final(self).phase() == phase,
            lists::views(r@) == seq![action@],
    {
        self.phase = phase;
        let r = one(action);
        assert(lists::views(r@) =~= seq![action@]);
        r
    }

    fn on_answer(&mut self, answer: HealthAnswer) -> (r: Vec<WatchAction>)
        requires
            old(self).phase() == WatchPhase::Asking,
        ensures
            final(self).node_name() == old(self).node_name(),
            (final(self).phase(), lists::views(r@)) == watch_step(
                old(self).node_name(),
                old(self).phase(),
                WatchEvent::Answered(answer),
            ),
    {
        let ghost wanted = watch_step(
            self.node_name(),
            self.phase(),
            WatchEvent::Answered(answer),
        ).1;
        let wait = WatchAction::Wait { seconds: CHECK_INTERVAL_SECONDS };
        let r = match answer {
            Err(_) => {
                self.phase = WatchPhase::Over;
                two(WatchAction::Unregister, WatchAction::Finish)
            },
            Ok(None) => self.go(WatchPhase::Waiting, wait),
            Ok(Some(rows)) => {
                self.phase = WatchPhase::Waiting;
                match self_report(rows.as_slice()) {
                    Some((hostname, user)) => two(WatchAction::Update { hostname, user }, wait),
                    None => one(wait),
                }
            },
        };
        assert(lists::views(r@) =~= wanted);
        r
    }

    /// Take one event.
    pub fn on_event(&mut self, event: WatchEvent) -> (r: Vec<WatchAction>)
        ensures
            final(self).node_name() == old(self).node_name(),
            (final(self).phase(), lists::views(r@)) == watch_step(
                old(self).node_name(),
                old(self).phase(),
                event,
            ),
    {
        match (self.phase, event) {
            (WatchPhase::Arriving, WatchEvent::Arrived { taken }) => match accept_node(
                self.name.as_str(),
                taken,
            ) {
                Err(e) => self.go(WatchPhase::Over, WatchAction::Fail(e)),
                Ok(_) => self.go(WatchPhase::Registering, WatchAction::Register),
            },
            (WatchPhase::Registering, WatchEvent::Registered(r)) => match r {
                Err(e) => self.go(WatchPhase::Over, WatchAction::Fail(e)),
                Ok(_) => self.go(WatchPhase::LookingUp, WatchAction::LookUp),
            },
            (WatchPhase::LookingUp, WatchEvent::LookedUp(there)) => if there {
                self.go(WatchPhase::Asking, WatchAction::Ask)
            } else {
                self.go(WatchPhase::Over, WatchAction::Finish)
            },
            (WatchPhase::Asking, WatchEvent::Answered(answer)) => self.on_answer(answer),
            (WatchPhase::Waiting, WatchEvent::Waited) => self.go(
                WatchPhase::LookingUp,
                WatchAction::LookUp,
            ),
            _ => {
                let r: Vec<WatchAction> = Vec::new();
                assert(lists::views(r@) =~= Seq::<WatchActionView>::empty());
                r
            },
        }
    }
}

/// Where a sequence of events leads the watch over a node, and the actions on the way.
pub open spec fn watch_run(name: Seq<char>, events: Seq<WatchEvent>) -> (
    WatchPhase,
    Seq<WatchActionView>,
)
    decreases events.len(),
{
    if events.len() == 0 {
        (WatchPhase::Arriving, Seq::empty())
    } else {
        let (phase, actions) = watch_run(name, events.drop_last());
        let (next, more) = watch_step(name, phase, events.last());
        (next, actions + more)
    }
}

/// The action ends the watch over a node.
pub open spec fn ends_watch(a: WatchActionView) -> bool {
    a is Finish || a is Fail
}

/// The watch over a node ends once: nothing follows its end. A node is registered at most once,
/// and unregistered only as the last thing before the end.
pub proof fn law_watch_ends_once(name: Seq<char>, events: Seq<WatchEvent>)
    ensures
        ({
            let (phase, actions) = watch_run(name, events);
            &&& forall|i: int| 0 <= i < actions.len() - 1 ==> !ends_watch(#[trigger] actions[i])
            &&& (actions.len() > 0 && ends_watch(actions.last())) == (phase == WatchPhase::Over)
            &&& forall|i: int|
                0 <= i < actions.len() && (#[trigger] actions[i]) is Register ==> i == 0
            &&& forall|i: int|
                0 <= i < actions.len() && (#[trigger] actions[i]) is Unregister ==> i
                    == actions.len() - 2 && actions.last() is Finish
            &&& phase == WatchPhase::Arriving <==> actions.len() == 0
        }),
    decreases events.len(),
{
    if events.len() > 0 {
        law_watch_ends_once(name, events.drop_last());
        let (phase, actions) = watch_run(name, events.drop_last());
        let (next, more) = watch_step(name, phase, events.last());
        let all = actions + more;
        assert forall|i: int| 0 <= i < all.len() - 1 implies !ends_watch(#[trigger] all[i]) by {
            if i < actions.len() {
                assert(all[i] == actions[i]);
                if i == actions.len() - 1 {
                    assert(actions.last() == actions[i]);
                }
            } else {
                assert(all[i] == more[i - actions.len()]);
            }
        }
        assert forall|i: int| 0 <= i < all.len() && (#[trigger] all[i]) is Register implies i
            == 0 by {
            if i < actions.len() {
                assert(all[i] == actions[i]);
            } else {
                assert(all[i] == more[i - actions.len()]);
            }
        }
        assert forall|i: int| 0 <= i < all.len() && (#[trigger] all[i]) is Unregister implies i
            == all.len() - 2 && all.last() is Finish by {
            if i < actions.len() {
                assert(all[i] == actions[i]);
                assert(phase == WatchPhase::Over);
                assert(all =~= actions);
            } else {
                assert(all[i] == more[i - actions.len()]);
            }
        }
        if more.len() > 0 {
            assert(all.last() == more.last());
        } else {
            assert(all =~= actions);
        }
    }
}

// ---------------------------------------------------------------------------
// The gateway of a node
// ---------------------------------------------------------------------------
/// The gateway to a connected node. Its client `C` works over the node's own connection, and
/// is not made anew.
pub struct ReverseProxyGateway<C> {
    pub name: String,
    pub client: C,
}

impl<C> ReverseProxyGateway<C> {
    pub fn new(name: String, client: C) -> (r: Self)
        ensures
            r == (ReverseProxyGateway { name, client }),
    {
        ReverseProxyGateway { name, client }
    }

    pub fn name(&self) -> (r: &str)
        ensures
            r@ == self.name@,
    {
        self.name.as_str()
    }

    pub fn kind(&self) -> (r: GatewayKind)
        ensures
            r == GatewayKind::ReverseProxy,
    {
        GatewayKind::ReverseProxy
    }

    /// An operation through the node ended. A node whose connection is gone is unregistered.
    pub fn finish_operation<G, R>(
        &self,
        registry: &mut ReverseProxyRegistry<G>,
        result: Result<R, (ErrorCause, String)>,
    ) -> (r: Result<R, GatewayError>)
        requires
            old(registry).wf(),
        ensures
            final(registry).wf(),
            match result {
                Ok(v) => r == Ok::<R, GatewayError>(v) && final(registry)@ == old(registry)@,
                Err((cause, message)) => {
                    &&& r matches Err(e) && e.kind == gateway::failure_kind(cause) && e.source@
                        == message@
                    &&& final(registry)@ == if gateway::means_transport(cause) {
                        old(registry)@.remove(self.name@)
                    } else {
                        old(registry)@
                    }
                },
            },
    {
        match result {
            Ok(v) => Ok(v),
            Err((cause, message)) => {
                if is_transport_error(&cause) {
                    let _ = registry.unregister(self.name.as_str());
                }
                Err(operation_error(&cause, message))
            },
        }
    }

    /// The node's answer to the question for its servers. A node that does not answer has lost
    /// its connection and is unregistered.
    pub fn list_servers<G>(
        &self,
        registry: &mut ReverseProxyRegistry<G>,
        answer: Result<(Option<Vec<RemoteRow>>, Vec<ServerEntry>), String>,
    ) -> (r: Result<Vec<ServerListRow>, GatewayError>)
        requires
            old(registry).wf(),
        ensures
            final(registry).wf(),
            match answer {
                Ok((merged, servers)) => r matches Ok(rows) && lists::views(rows@)
                    == listing::answered_rows(self.name@, merged, servers@) && final(registry)@
                    == old(registry)@,
                Err(e) => r matches Err(x) && x.kind == ErrorKind::Transport && x.source@
                    == xhod::list_error(e@) && final(registry)@ == old(registry)@.remove(
                    self.name@,
                ),
            },
    {
        match answer {
            Ok((merged, servers)) => Ok(remote_rows(self.name.as_str(), merged, servers)),
            Err(e) => {
                let _ = registry.unregister(self.name.as_str());
                Err(list_failure(e.as_str()))
            },
        }
    }
}

// ---------------------------------------------------------------------------
// What is known of nodes
// ---------------------------------------------------------------------------
/// The status of a node tells what is known of it.
pub proof fn law_status_tells_what_is_known(info: InfoView)
    ensures
        ({
            let status = status_of(info);
            &&& status.name == info.name
            &&& status.fingerprint == info.fingerprint
            &&& status.hostname == info.hostname
            &&& status.user == info.user
            &&& info.peer_addr matches Some(a) ==> status.peer_addr == a
            &&& info.peer_addr is None ==> status.peer_addr.len() == 0
            &&& info.connected_at matches Some(t) ==> status.connected_at == t
            &&& info.connected_at is None ==> status.connected_at == 0
        }),
{
}

/// What a node tells of itself replaces what was known; what it leaves out stays, and so does
/// what was seen of its connection.
pub proof fn law_updates_keep_what_is_not_told(
    info: InfoView,
    hostname: Seq<char>,
    user: Seq<char>,
)
    ensures
        ({
            let now = updated(info, hostname, user);
            let none = Seq::<char>::empty();
            &&& now.name == info.name && now.peer_addr == info.peer_addr && now.fingerprint
                == info.fingerprint && now.connected_at == info.connected_at
            &&& hostname.len() > 0 ==> now.hostname == hostname
            &&& user.len() > 0 ==> now.user == user
            &&& updated(info, none, none) == info
            &&& updated(info, hostname, none).user == info.user
            &&& updated(info, none, user).hostname == info.hostname
            &&& updated(now, hostname, user) == now
        }),
{
}

/// A node tells of itself in the row with the alias `_self`: its host and its user are taken
/// from the first such row, whatever else it lists.
pub proof fn law_self_row_is_reported(
    before: Seq<Option<ServerEntry>>,
    row: ServerEntry,
    behind: Seq<Option<ServerEntry>>,
)
    requires
        row.alias@ == seq!['_', 's', 'e', 'l', 'f'],
        forall|i: int|
            0 <= i < before.len() ==> ((#[trigger] before[i]) matches Some(s) ==> s.alias@ != seq![
                '_',
                's',
                'e',
                'l',
                'f',
            ]),
    ensures
        reported(before + seq![Some(row)] + behind) == Some((row.host@, row.user@)),
        reported(before) is None,
{
    lemma_self_row(before, seq![Some(row)] + behind);
    lemma_self_row(before, Seq::empty());
    assert(before + (seq![Some(row)] + behind) =~= before + seq![Some(row)] + behind);
    assert(before + Seq::<Option<ServerEntry>>::empty() =~= before);
    reveal_strlit("_self");
    assert("_self"@ =~= seq!['_', 's', 'e', 'l', 'f']);
    let rest = seq![Some(row)] + behind;
    assert(rest[0] == Some(row));
    assert(self_row(rest) == 0);
    assert(self_row(Seq::<Option<ServerEntry>>::empty()) == 0);
}

proof fn lemma_self_row(before: Seq<Option<ServerEntry>>, rest: Seq<Option<ServerEntry>>)
    requires
        forall|i: int|
            0 <= i < before.len() ==> ((#[trigger] before[i]) matches Some(s) ==> s.alias@ != seq![
                '_',
                's',
                'e',
                'l',
                'f',
            ]),
    ensures
        self_row(before + rest) == before.len() + self_row(rest),
    decreases before.len(),
{
    reveal_strlit("_self");
    assert("_self"@ =~= seq!['_', 's', 'e', 'l', 'f']);
    if before.len() == 0 {
        assert(before + rest =~= rest);
    } else {
        assert((before + rest)[0] == before[0]);
        assert((before + rest).skip(1) =~= before.skip(1) + rest);
        assert forall|i: int| 0 <= i < before.skip(1).len() implies ((
        #[trigger] before.skip(1)[i]) matches Some(s) ==> s.alias@ != seq![
            '_',
            's',
            'e',
            'l',
            'f',
        ]) by {
            assert(before.skip(1)[i] == before[i + 1]);
        }
        lemma_self_row(before.skip(1), rest);
    }
}

/// A node is registered once it has a name that is free; then it is looked up and asked how it
/// is, again and again, fifteen seconds apart. What it tells of itself is taken over.
pub proof fn law_nodes_are_watched(name: Seq<char>, rows: Vec<Option<ServerEntry>>)
    requires
        name.len() > 0,
    ensures
        ({
            let (a, first) = watch_step(
                name,
                WatchPhase::Arriving,
                WatchEvent::Arrived { taken: false },
            );
            let (b, second) = watch_step(name, a, WatchEvent::Registered(Ok(())));
            let (c, third) = watch_step(name, b, WatchEvent::LookedUp(true));
            let (d, fourth) = watch_step(name, c, WatchEvent::Answered(Ok(Some(rows))));
            let (_, quiet) = watch_step(name, c, WatchEvent::Answered(Ok(None)));
            let wait = seq![WatchActionView::Wait { seconds: 15 }];
            &&& first == seq![WatchActionView::Register]
            &&& second == seq![WatchActionView::LookUp]
            &&& third == seq![WatchActionView::Ask]
            &&& fourth == match reported(rows@) {
                Some((hostname, user)) => seq![WatchActionView::Update { hostname, user }] + wait,
                None => wait,
            }
            &&& quiet == wait
            &&& watch_step(name, d, WatchEvent::Waited) == (b, second)
        }),
{
    let (a, _) = watch_step(name, WatchPhase::Arriving, WatchEvent::Arrived { taken: false });
    let (b, _) = watch_step(name, a, WatchEvent::Registered(Ok(())));
    let (c, _) = watch_step(name, b, WatchEvent::LookedUp(true));
    let (_, fourth) = watch_step(name, c, WatchEvent::Answered(Ok(Some(rows))));
    let wait = seq![WatchActionView::Wait { seconds: 15 }];
    match reported(rows@) {
        Some((hostname, user)) => {
            assert(fourth =~= seq![WatchActionView::Update { hostname, user }] + wait);
        },
        None => {},
    }
}

/// A node without a name, or with one that is taken, is refused and never registered. One that
/// does not answer any more is unregistered; one that is gone already is left alone.
pub proof fn law_unfit_nodes_are_turned_away(name: Seq<char>, error: String, answer: HealthAnswer)
    requires
        answer is Err,
    ensures
        ({
            let nameless = watch_step(
                Seq::empty(),
                WatchPhase::Arriving,
                WatchEvent::Arrived { taken: false },
            ).1;
            let taken = watch_step(
                name,
                WatchPhase::Arriving,
                WatchEvent::Arrived { taken: true },
            ).1;
            let failed = watch_step(
                name,
                WatchPhase::Registering,
                WatchEvent::Registered(Err(error)),
            ).1;
            let gone = watch_step(name, WatchPhase::LookingUp, WatchEvent::LookedUp(false)).1;
            let silent = watch_step(name, WatchPhase::Asking, WatchEvent::Answered(answer)).1;
            &&& nameless.len() == 1 && nameless[0] is Fail
            &&& taken.len() == 1 && taken[0] is Fail
            &&& failed == seq![WatchActionView::Fail(error@)]
            &&& gone == seq![WatchActionView::Finish]
            &&& silent == seq![WatchActionView::Unregister, WatchActionView::Finish]
        }),
{
}

/// What is stated of a [`WatchAction`] is stated of its own parts: each kind is seen as that
/// kind, with all that it holds.
pub proof fn law_watch_action_is_seen_as_it_is(value: WatchAction)
    ensures
        ({
            let seen = value@;
            match value {
                WatchAction::Register => seen == WatchActionView::Register,
                WatchAction::LookUp => seen == WatchActionView::LookUp,
                WatchAction::Ask => seen == WatchActionView::Ask,
                WatchAction::Update { hostname, user } => seen == (WatchActionView::Update {
                    hostname: hostname@,
                    user: user@,
                }),
                WatchAction::Wait { seconds } => seen == (WatchActionView::Wait { seconds: seconds as int }),
                WatchAction::Unregister => seen == WatchActionView::Unregister,
                WatchAction::Finish => seen == WatchActionView::Finish,
                WatchAction::Fail(e) => seen == WatchActionView::Fail(e@),
            }
        }),
{
}

} // verus!
