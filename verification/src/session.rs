//! Sessions and copies that clients drive over streams of messages.
use crate::gateway;
use crate::gateway::Route;
use crate::lists;
use crate::lists::{one, three, two};
use crate::relay::CopyDirection;
use crate::resolver::ResolveResult;
use crate::text::concat3;
use vstd::prelude::*;

verus! {

// ---------------------------------------------------------------------------
// Opening a session
// ---------------------------------------------------------------------------
/// A request of the client of a session.
#[derive(Debug)]
pub enum SessionRequest {
    Open { target: String },
    Pty { term: String, cols: u32, rows: u32 },
    Env { key: String, value: String },
    Exec { command: String },
    Shell,
    Subsystem { name: String },
    Resize { cols: u32, rows: u32 },
    Signal { signal: String },
    Data(Vec<u8>),
    Eof,
    /// A message without content.
    Empty,
}

/// The target that the first message of a session asks for.
pub open spec fn opened_target(first: Option<SessionRequest>) -> Result<Seq<char>, Seq<char>> {
    match first {
        None => Err("open_session: missing open request"@),
        Some(SessionRequest::Open { target }) => Ok(target@),
        _ => Err("open_session: first message must be SessionOpen"@),
    }
}

/// The target that the first message of a session asks for.
pub fn session_target(first: Option<SessionRequest>) -> (r: Result<String, String>)
    ensures
        match r {
            Ok(t) => opened_target(first) == Ok::<Seq<char>, Seq<char>>(t@),
            Err(e) => opened_target(first) == Err::<Seq<char>, Seq<char>>(e@),
        },
{
    match first {
        None => Err("open_session: missing open request".to_owned()),
        Some(SessionRequest::Open { target }) => Ok(target),
        Some(_) => Err("open_session: first message must be SessionOpen".to_owned()),
    }
}

/// The route of a session: the first candidate.
pub open spec fn first_route(resolved: ResolveResult, target: Seq<char>) -> Result<
    gateway::RouteView,
    Seq<char>,
> {
    if resolved.routes@.len() > 0 {
        Ok(resolved.routes@[0]@)
    } else {
        Err("no route for target '"@ + target + "'"@)
    }
}

/// The route of a session: the first candidate.
pub fn session_route(resolved: &ResolveResult, target: &str) -> (r: Result<Route, String>)
    ensures
        match r {
            Ok(route) => first_route(*resolved, target@) == Ok::<gateway::RouteView, Seq<char>>(
                route@,
            ),
            Err(e) => first_route(*resolved, target@) == Err::<gateway::RouteView, Seq<char>>(e@),
        },
{
    if resolved.routes.len() > 0 {
        Ok(resolved.routes[0].clone())
    } else {
        Err(concat3("no route for target '", target, "'"))
    }
}

/// What a request does to the session.
#[derive(Debug)]
pub enum SessionCommand {
    /// Do this and go on, whatever comes of it.
    Apply(SessionRequest),
    /// Start the session with this. If that fails, tell the client, and go on.
    Start(SessionRequest),
    /// The client is done.
    Stop,
}

/// The request starts a session.
pub open spec fn starts(request: SessionRequest) -> bool {
    request is Exec || request is Shell || request is Subsystem
}

/// Take a request of the client; none at the end or failure of its stream.
pub fn on_request(request: Option<SessionRequest>) -> (r: SessionCommand)
    ensures
        match request {
            None => r is Stop,
            Some(q) => if q is Open || q is Empty {
                r is Stop
            } else if starts(q) {
                r == SessionCommand::Start(q)
            } else {
                r == SessionCommand::Apply(q)
            },
        },
{
    match request {
        None => SessionCommand::Stop,
        Some(q) => match q {
            SessionRequest::Open { .. } => SessionCommand::Stop,
            SessionRequest::Empty => SessionCommand::Stop,
            SessionRequest::Exec { .. } => SessionCommand::Start(q),
            SessionRequest::Shell => SessionCommand::Start(q),
            SessionRequest::Subsystem { .. } => SessionCommand::Start(q),
            _ => SessionCommand::Apply(q),
        },
    }
}

// ---------------------------------------------------------------------------
// Events of a session
// ---------------------------------------------------------------------------
/// What a session reports.
#[derive(Debug)]
pub enum SessionEvent {
    Stdout(Vec<u8>),
    Stderr(Vec<u8>),
    ExitStatus(i32),
    ExitSignal(String),
    Eof,
}

/// What the client of a session is sent.
#[derive(Debug)]
pub enum SessionResponse {
    Started,
    Data(Vec<u8>),
    Stderr(Vec<u8>),
    ExitStatus(i32),
    ExitSignal(String),
    Eof,
    Error(String),
}

// ---------------------------------------------------------------------------
// A session as a whole
// ---------------------------------------------------------------------------
/// The mathematical counterpart of [`SessionResponse`].
pub enum ResponseView {
    Started,
    Data(Seq<u8>),
    Stderr(Seq<u8>),
    ExitStatus(int),
    ExitSignal(Seq<char>),
    Eof,
    Error(Seq<char>),
}

impl View for SessionResponse {
    type V = ResponseView;

    open spec fn view(&self) -> ResponseView {
        match self {
            SessionResponse::Started => ResponseView::Started,
            SessionResponse::Data(d) => ResponseView::Data(d@),
            SessionResponse::Stderr(d) => ResponseView::Stderr(d@),
            SessionResponse::ExitStatus(c) => ResponseView::ExitStatus(*c as int),
            SessionResponse::ExitSignal(s) => ResponseView::ExitSignal(s@),
            SessionResponse::Eof => ResponseView::Eof,
            SessionResponse::Error(e) => ResponseView::Error(e@),
        }
    }
}

/// What happens to a session that a client drives.
pub enum ServiceEvent {
    /// The first message of the client, or the end of its stream.
    First(Option<SessionRequest>),
    /// The client's stream failed before its first message.
    StreamFailed(String),
    Resolved(Result<ResolveResult, String>),
    Opened(Result<(), String>),
    /// The acknowledgement went out.
    Acknowledged,
    /// A later message of the client; none at the end or failure of its stream.
    Request(Option<SessionRequest>),
    /// What was to be started could not be.
    StartFailed(String),
    /// An event of the session; none at its end.
    Event(Option<SessionEvent>),
    /// A message could not be sent to the client.
    SendFailed,
}

/// What to do for a session that a client drives, in order.
pub enum ServiceAction {
    Resolve(String),
    /// Open a session over this route.
    Open(Route),
    /// Send the message. If that fails, drop the actions behind it and say so.
    Send(SessionResponse),
    /// Send the message, whatever comes of it.
    TrySend(SessionResponse),
    /// Hand the request to the session, whatever comes of it.
    Apply(SessionRequest),
    /// Start the session with the request. If that fails, say so.
    Start(SessionRequest),
    Finish,
}

/// The mathematical counterpart of [`ServiceAction`].
pub enum ServiceActionView {
    Resolve(Seq<char>),
    Open(gateway::RouteView),
    Send(ResponseView),
    TrySend(ResponseView),
    Apply(SessionRequest),
    Start(SessionRequest),
    Finish,
}

impl View for ServiceAction {
    type V = ServiceActionView;

    open spec fn view(&self) -> ServiceActionView {
        match self {
            ServiceAction::Resolve(t) => ServiceActionView::Resolve(t@),
            ServiceAction::Open(r) => ServiceActionView::Open(r@),
            ServiceAction::Send(m) => ServiceActionView::Send(m@),
            ServiceAction::TrySend(m) => ServiceActionView::TrySend(m@),
            ServiceAction::Apply(q) => ServiceActionView::Apply(*q),
            ServiceAction::Start(q) => ServiceActionView::Start(*q),
            ServiceAction::Finish => ServiceActionView::Finish,
        }
    }
}

/// Where a session that a client drives stands.
pub enum ServicePhase {
    Beginning,
    Resolving(String),
    Connecting,
    Acknowledging,
    Running,
    Over,
}

/// The mathematical counterpart of [`ServicePhase`].
pub enum ServicePhaseView {
    Beginning,
    Resolving(Seq<char>),
    Connecting,
    Acknowledging,
    Running,
    Over,
}

impl View for ServicePhase {
    type V = ServicePhaseView;

    open spec fn view(&self) -> ServicePhaseView {
        match self {
            ServicePhase::Beginning => ServicePhaseView::Beginning,
            ServicePhase::Resolving(t) => ServicePhaseView::Resolving(t@),
            ServicePhase::Connecting => ServicePhaseView::Connecting,
            ServicePhase::Acknowledging => ServicePhaseView::Acknowledging,
            ServicePhase::Running => ServicePhaseView::Running,
            ServicePhase::Over => ServicePhaseView::Over,
        }
    }
}

/// The session ends with an error, which the client is told if it still listens.
pub open spec fn service_failed(error: Seq<char>) -> (ServicePhaseView, Seq<ServiceActionView>) {
    (
        ServicePhaseView::Over,
        seq![
            ServiceActionView::TrySend(ResponseView::Error(error)),
            ServiceActionView::Finish,
        ],
    )
}

/// What follows an event of the session itself.
pub open spec fn session_told(event: Option<SessionEvent>) -> (
    ServicePhaseView,
    Seq<ServiceActionView>,
) {
    match event {
        Some(SessionEvent::Stdout(d)) => (
            ServicePhaseView::Running,
            seq![ServiceActionView::Send(ResponseView::Data(d@))],
        ),
        Some(SessionEvent::Stderr(d)) => (
            ServicePhaseView::Running,
            seq![ServiceActionView::Send(ResponseView::Stderr(d@))],
        ),
        Some(SessionEvent::ExitStatus(c)) => (
            ServicePhaseView::Over,
            seq![
                ServiceActionView::TrySend(ResponseView::ExitStatus(c as int)),
                ServiceActionView::TrySend(ResponseView::Eof),
                ServiceActionView::Finish,
            ],
        ),
        Some(SessionEvent::ExitSignal(s)) => (
            ServicePhaseView::Over,
            seq![
                ServiceActionView::TrySend(ResponseView::ExitSignal(s@)),
                ServiceActionView::Finish,
            ],
        ),
        Some(SessionEvent::Eof) | None => (
            ServicePhaseView::Over,
            seq![ServiceActionView::TrySend(ResponseView::Eof), ServiceActionView::Finish],
        ),
    }
}

/// What an event does to a session that a client drives. An event that the phase does not wait
/// for does nothing.
pub open spec fn service_step(phase: ServicePhaseView, event: ServiceEvent) -> (
    ServicePhaseView,
    Seq<ServiceActionView>,
) {
    let idle = (phase, Seq::<ServiceActionView>::empty());
    match phase {
        ServicePhaseView::Beginning => match event {
            ServiceEvent::First(first) => match opened_target(first) {
                Ok(t) => (ServicePhaseView::Resolving(t), seq![ServiceActionView::Resolve(t)]),
                Err(e) => service_failed(e),
            },
            ServiceEvent::StreamFailed(e) => service_failed(e@),
            _ => idle,
        },
        ServicePhaseView::Resolving(target) => match event {
            ServiceEvent::Resolved(Ok(resolved)) => match first_route(resolved, target) {
                Ok(route) => (ServicePhaseView::Connecting, seq![ServiceActionView::Open(route)]),
                Err(e) => service_failed(e),
            },
            ServiceEvent::Resolved(Err(e)) => service_failed(e@),
            _ => idle,
        },
        ServicePhaseView::Connecting => match event {
            ServiceEvent::Opened(Ok(_)) => (
                ServicePhaseView::Acknowledging,
                seq![ServiceActionView::Send(ResponseView::Started)],
            ),
            ServiceEvent::Opened(Err(e)) => service_failed(e@),
            _ => idle,
        },
        ServicePhaseView::Acknowledging => match event {
            ServiceEvent::Acknowledged => (ServicePhaseView::Running, Seq::empty()),
            ServiceEvent::SendFailed => service_failed("open_session: client stream closed"@),
            _ => idle,
        },
        ServicePhaseView::Running => match event {
            ServiceEvent::Request(None) => (ServicePhaseView::Over, seq![ServiceActionView::Finish]),
            ServiceEvent::Request(Some(q)) => if q is Open || q is Empty {
                (ServicePhaseView::Over, seq![ServiceActionView::Finish])
            } else if starts(q) {
                (ServicePhaseView::Running, seq![ServiceActionView::Start(q)])
            } else {
                (ServicePhaseView::Running, seq![ServiceActionView::Apply(q)])
            },
            ServiceEvent::StartFailed(e) => (
                ServicePhaseView::Running,
                seq![ServiceActionView::TrySend(ResponseView::Error(e@))],
            ),
            ServiceEvent::Event(e) => session_told(e),
            ServiceEvent::SendFailed => (ServicePhaseView::Over, seq![ServiceActionView::Finish]),
            _ => idle,
        },
        ServicePhaseView::Over => idle,
    }
}

/// A session that a client drives over a stream of messages.
pub struct SessionService {
    phase: ServicePhase,
}

impl View for SessionService {
    type V = ServicePhaseView;

    closed spec fn view(&self) -> ServicePhaseView {
        self.phase@
    }
}

impl SessionService {
    pub fn new() -> (r: Self)
        ensures
            r@ == ServicePhaseView::Beginning,
    {
        SessionService { phase: ServicePhase::Beginning }
    }

    fn fail(&mut self, error: String) -> (r: Vec<ServiceAction>)
        ensures
            (final(self)@, lists::views(r@)) == service_failed(error@),
    {
        let ghost wanted = service_failed(error@).1;
        self.phase = ServicePhase::Over;
        let r = two(ServiceAction::TrySend(SessionResponse::Error(error)), ServiceAction::Finish);
        assert(lists::views(r@) =~= wanted);
        r
    }

    fn finish(&mut self) -> (r: Vec<ServiceAction>)
        ensures
            final(self)@ == ServicePhaseView::Over,
            lists::views(r@) == seq![ServiceActionView::Finish],
    {
        self.phase = ServicePhase::Over;
        let r = one(ServiceAction::Finish);
        assert(lists::views(r@) =~= seq![ServiceActionView::Finish]);
        r
    }

    fn on_session(&mut self, event: Option<SessionEvent>) -> (r: Vec<ServiceAction>)
        requires
            old(self)@ == ServicePhaseView::Running,
        ensures
            (final(self)@, lists::views(r@)) == session_told(event),
    {
        let ghost wanted = session_told(event).1;
        let r = match event {
            Some(SessionEvent::Stdout(d)) => one(ServiceAction::Send(SessionResponse::Data(d))),
            Some(SessionEvent::Stderr(d)) => one(ServiceAction::Send(SessionResponse::Stderr(d))),
            Some(SessionEvent::ExitStatus(c)) => {
                self.phase = ServicePhase::Over;
                three(
                    ServiceAction::TrySend(SessionResponse::ExitStatus(c)),
                    ServiceAction::TrySend(SessionResponse::Eof),
                    ServiceAction::Finish,
                )
            },
            Some(SessionEvent::ExitSignal(s)) => {
                self.phase = ServicePhase::Over;
                two(ServiceAction::TrySend(SessionResponse::ExitSignal(s)), ServiceAction::Finish)
            },
            Some(SessionEvent::Eof) => {
                self.phase = ServicePhase::Over;
                two(ServiceAction::TrySend(SessionResponse::Eof), ServiceAction::Finish)
            },
            None => {
                self.phase = ServicePhase::Over;
                two(ServiceAction::TrySend(SessionResponse::Eof), ServiceAction::Finish)
            },
        };
        assert(lists::views(r@) =~= wanted);
        r
    }

    fn on_running(&mut self, event: ServiceEvent) -> (r: Vec<ServiceAction>)
        requires
            old(self)@ == ServicePhaseView::Running,
        ensures
            (final(self)@, lists::views(r@)) == service_step(old(self)@, event),
    {
        let ghost wanted = service_step(self@, event).1;
        let r = match event {
            ServiceEvent::Request(q) => match on_request(q) {
                SessionCommand::Apply(q) => one(ServiceAction::Apply(q)),
                SessionCommand::Start(q) => one(ServiceAction::Start(q)),
                SessionCommand::Stop => self.finish(),
            },
            ServiceEvent::StartFailed(e) => one(ServiceAction::TrySend(SessionResponse::Error(e))),
            ServiceEvent::Event(e) => self.on_session(e),
            ServiceEvent::SendFailed => self.finish(),
            _ => Vec::new(),
        };
        assert(lists::views(r@) =~= wanted);
        r
    }

    /// Take one event.
    pub fn on_event(&mut self, event: ServiceEvent) -> (r: Vec<ServiceAction>)
        ensures
            (final(self)@, lists::views(r@)) == service_step(old(self)@, event),
    {
        let nothing: Vec<ServiceAction> = Vec::new();
        assert(lists::views(nothing@) =~= Seq::<ServiceActionView>::empty());
        let ghost wanted = service_step(self@, event).1;
        let mut phase = ServicePhase::Over;
        std::mem::swap(&mut self.phase, &mut phase);
        let r = match (phase, event) {
            (ServicePhase::Beginning, ServiceEvent::First(first)) => match session_target(first) {
                Ok(target) => {
                    self.phase = ServicePhase::Resolving(target.clone());
                    one(ServiceAction::Resolve(target))
                },
                Err(e) => self.fail(e),
            },
            (ServicePhase::Beginning, ServiceEvent::StreamFailed(e)) => self.fail(e),
            (ServicePhase::Resolving(target), ServiceEvent::Resolved(Ok(resolved))) => {
                match session_route(&resolved, target.as_str()) {
                    Ok(route) => {
                        self.phase = ServicePhase::Connecting;
                        one(ServiceAction::Open(route))
                    },
                    Err(e) => self.fail(e),
                }
            },
            (ServicePhase::Resolving(_), ServiceEvent::Resolved(Err(e))) => self.fail(e),
            (ServicePhase::Connecting, ServiceEvent::Opened(Ok(_))) => {
                self.phase = ServicePhase::Acknowledging;
                one(ServiceAction::Send(SessionResponse::Started))
            },
            (ServicePhase::Connecting, ServiceEvent::Opened(Err(e))) => self.fail(e),
            (ServicePhase::Acknowledging, ServiceEvent::Acknowledged) => {
                self.phase = ServicePhase::Running;
                nothing
            },
            (ServicePhase::Acknowledging, ServiceEvent::SendFailed) => self.fail(
                "open_session: client stream closed".to_owned(),
            ),
            (ServicePhase::Running, event) => {
                self.phase = ServicePhase::Running;
                self.on_running(event)
            },
            (phase, _) => {
                self.phase = phase;
                nothing
            },
        };
        assert(lists::views(r@) =~= wanted);
        r
    }
}

/// Where a sequence of events leads a session, and the actions on the way.
pub open spec fn service_run(events: Seq<ServiceEvent>) -> (
    ServicePhaseView,
    Seq<ServiceActionView>,
)
    decreases events.len(),
{
    if events.len() == 0 {
        (ServicePhaseView::Beginning, Seq::empty())
    } else {
        let (mid, actions) = service_run(events.drop_last());
        let (next, more) = service_step(mid, events.last());
        (next, actions + more)
    }
}

/// A session was opened by one of the events.
pub open spec fn session_opened(events: Seq<ServiceEvent>) -> bool {
    exists|i: int|
        0 <= i < events.len() && (#[trigger] events[i] matches ServiceEvent::Opened(Ok(_)))
}

/// Whatever comes, a session ends at most once, and nothing follows its end; and nothing is
/// started or handed to a session before one was opened.
pub proof fn law_sessions_end_once(events: Seq<ServiceEvent>)
    ensures
        ({
            let (phase, actions) = service_run(events);
            &&& forall|i: int|
                0 <= i < actions.len() - 1 ==> !(#[trigger] actions[i] is Finish)
            &&& (actions.len() > 0 && actions.last() is Finish) == (phase is Over)
            &&& forall|i: int|
                0 <= i < actions.len() && (#[trigger] actions[i] is Apply || actions[i] is Start)
                    ==> session_opened(events)
            &&& (phase is Acknowledging || phase is Running) ==> session_opened(events)
        }),
    decreases events.len(),
{
    if events.len() > 0 {
        let before = events.drop_last();
        let (mid, actions) = service_run(before);
        let (next, more) = service_step(mid, events.last());
        law_sessions_end_once(before);
        let all = actions + more;
        if session_opened(before) {
            let i = choose|i: int|
                0 <= i < before.len() && (#[trigger] before[i] matches ServiceEvent::Opened(Ok(_)));
            assert(events[i] == before[i]);
        }
        if events.last() matches ServiceEvent::Opened(Ok(_)) {
            assert(events[events.len() - 1] == events.last());
        }
        assert forall|i: int| 0 <= i < all.len() - 1 implies !(#[trigger] all[i] is Finish) by {
            if i < actions.len() {
                if i == actions.len() - 1 {
                    assert(actions.last() == all[i]);
                } else {
                    assert(actions[i] == all[i]);
                }
            } else {
                assert(all[i] == more[i - actions.len()]);
            }
        }
        assert forall|i: int|
            0 <= i < all.len() && (#[trigger] all[i] is Apply || all[i] is Start) implies session_opened(
            events,
        ) by {
            if i < actions.len() {
                assert(actions[i] == all[i]);
            } else {
                assert(all[i] == more[i - actions.len()]);
            }
        }
        if more.len() > 0 {
            assert(all.last() == more.last());
        } else {
            assert(all =~= actions);
        }
    }
}

// ---------------------------------------------------------------------------
// Copies
// ---------------------------------------------------------------------------
/// A message of the client during a copy, as far as its relay depends on it.
#[derive(Debug)]
pub enum CopyMessage<F> {
    Start,
    Frame { frame: F, end_of_stream: bool },
    /// A frame that could not be understood.
    BadFrame,
    AuthInput,
    Empty,
}

/// What becomes of a message during an upload.
pub enum UploadStep<F> {
    /// Hand the frame on; stop if that fails, or behind the last frame.
    Forward { frame: F, last: bool },
    Ignore,
    Stop,
}

/// Take a message of the client during an upload; none at the end or failure of its stream.
pub fn on_upload_message<F>(message: Option<CopyMessage<F>>) -> (r: UploadStep<F>)
    ensures
        match message {
            Some(CopyMessage::Frame { frame, end_of_stream }) => r == (UploadStep::Forward {
                frame,
                last: end_of_stream,
            }),
            Some(CopyMessage::BadFrame) | None => r is Stop,
            _ => r is Ignore,
        },
{
    match message {
        Some(CopyMessage::Frame { frame, end_of_stream }) => UploadStep::Forward {
            frame,
            last: end_of_stream,
        },
        Some(CopyMessage::BadFrame) => UploadStep::Stop,
        None => UploadStep::Stop,
        Some(_) => UploadStep::Ignore,
    }
}

/// How a client begins a copy.
pub enum CopyOpening {
    /// The stream ended before anything came.
    Missing,
    Start { target: String, direction: CopyDirection, timeout_ms: u64 },
    /// A start that could not be understood, or a stream that failed.
    Bad(String),
    /// Another message.
    Other,
}

/// What happens to a copy that a client asks for.
pub enum CopyServiceEvent {
    First(CopyOpening),
    Resolved(Result<ResolveResult, String>),
    /// The deadline has passed.
    Timeout,
    /// The copy ended.
    Copied(Result<(), String>),
    /// The task that drives the copy broke.
    Broken(String),
    /// A message could not be sent to the client.
    SendFailed,
}

/// What to do for a copy that a client asks for, in order.
pub enum CopyServiceAction {
    Resolve(String),
    /// Send the message. If that fails, drop the actions behind it and say so.
    SendInfo(String),
    /// Relay the frames of the client, and copy over this route until the deadline.
    Run { route: Route, direction: CopyDirection, deadline_ms: Option<u64> },
    Abort,
    /// Wait until all downloaded frames were sent.
    AwaitRelay,
    /// Send the error. If that fails, drop the actions behind it and say so.
    SendError(String),
    /// Send the completion. If that fails, drop the actions behind it and say so.
    SendComplete,
    /// Send the error, whatever comes of it.
    TrySendError(String),
    Finish,
}

/// The mathematical counterpart of [`CopyServiceAction`].
pub enum CopyServiceActionView {
    Resolve(Seq<char>),
    SendInfo(Seq<char>),
    Run { route: gateway::RouteView, direction: CopyDirection, deadline_ms: Option<u64> },
    Abort,
    AwaitRelay,
    SendError(Seq<char>),
    SendComplete,
    TrySendError(Seq<char>),
    Finish,
}

impl View for CopyServiceAction {
    type V = CopyServiceActionView;

    open spec fn view(&self) -> CopyServiceActionView {
        match self {
            CopyServiceAction::Resolve(t) => CopyServiceActionView::Resolve(t@),
            CopyServiceAction::SendInfo(m) => CopyServiceActionView::SendInfo(m@),
            CopyServiceAction::Run { route, direction, deadline_ms } => {
                CopyServiceActionView::Run {
                    route: route@,
                    direction: *direction,
                    deadline_ms: *deadline_ms,
                }
            },
            CopyServiceAction::Abort => CopyServiceActionView::Abort,
            CopyServiceAction::AwaitRelay => CopyServiceActionView::AwaitRelay,
            CopyServiceAction::SendError(e) => CopyServiceActionView::SendError(e@),
            CopyServiceAction::SendComplete => CopyServiceActionView::SendComplete,
            CopyServiceAction::TrySendError(e) => CopyServiceActionView::TrySendError(e@),
            CopyServiceAction::Finish => CopyServiceActionView::Finish,
        }
    }
}

/// Where a copy that a client asks for stands.
#[derive(Clone, Copy, Debug, PartialEq, Eq, Structural)]
pub enum CopyPhase {
    Beginning,
    Resolving { direction: CopyDirection, timeout_ms: u64 },
    Running { direction: CopyDirection, timeout_ms: u64 },
    /// The outcome is on its way to the client.
    Ending,
    Over,
}

/// The copy ends with an error, which the client is told if it still listens.
pub open spec fn copy_failed(error: Seq<char>) -> (CopyPhase, Seq<CopyServiceActionView>) {
    (
        CopyPhase::Over,
        seq![CopyServiceActionView::TrySendError(error), CopyServiceActionView::Finish],
    )
}

/// The deadline of a copy. Zero means that there is none.
pub open spec fn copy_deadline(timeout_ms: u64) -> Option<u64> {
    if timeout_ms > 0 {
        Some(timeout_ms)
    } else {
        None
    }
}

/// What a target that was resolved leads to.
pub open spec fn copy_resolved(
    resolved: ResolveResult,
    direction: CopyDirection,
    timeout_ms: u64,
) -> (CopyPhase, Seq<CopyServiceActionView>) {
    if resolved.routes@.len() == 0 {
        copy_failed("no resolved target candidates"@)
    } else {
        let run = CopyServiceActionView::Run {
            route: resolved.routes@[0]@,
            direction,
            deadline_ms: copy_deadline(timeout_ms),
        };
        (
            CopyPhase::Running { direction, timeout_ms },
            match resolved.warning {
                Some(w) => seq![CopyServiceActionView::SendInfo(w@), run],
                None => seq![run],
            },
        )
    }
}

/// What an event does to a copy that a client asks for. An event that the phase does not wait
/// for does nothing. A download is complete only once its frames were sent.
pub open spec fn copy_service_step(phase: CopyPhase, event: CopyServiceEvent) -> (
    CopyPhase,
    Seq<CopyServiceActionView>,
) {
    let idle = (phase, Seq::<CopyServiceActionView>::empty());
    match phase {
        CopyPhase::Beginning => match event {
            CopyServiceEvent::First(CopyOpening::Missing) => copy_failed(
                "client disconnected before copy start request"@,
            ),
            CopyServiceEvent::First(CopyOpening::Other) => copy_failed(
                "first copy stream message must be start"@,
            ),
            CopyServiceEvent::First(CopyOpening::Bad(e)) => copy_failed(e@),
            CopyServiceEvent::First(CopyOpening::Start { target, direction, timeout_ms }) => (
                CopyPhase::Resolving { direction, timeout_ms },
                seq![CopyServiceActionView::Resolve(target@)],
            ),
            _ => idle,
        },
        CopyPhase::Resolving { direction, timeout_ms } => match event {
            CopyServiceEvent::Resolved(Ok(resolved)) => copy_resolved(
                resolved,
                direction,
                timeout_ms,
            ),
            CopyServiceEvent::Resolved(Err(e)) => copy_failed(e@),
            _ => idle,
        },
        CopyPhase::Running { direction, timeout_ms } => match event {
            CopyServiceEvent::Timeout => if timeout_ms > 0 {
                (
                    CopyPhase::Ending,
                    seq![
                        CopyServiceActionView::Abort,
                        CopyServiceActionView::SendError("copy timed out (exit code 124)"@),
                        CopyServiceActionView::Finish,
                    ],
                )
            } else {
                idle
            },
            CopyServiceEvent::Copied(Err(e)) => (
                CopyPhase::Ending,
                seq![CopyServiceActionView::SendError(e@), CopyServiceActionView::Finish],
            ),
            CopyServiceEvent::Copied(Ok(_)) => (
                CopyPhase::Ending,
                if direction == CopyDirection::Download {
                    seq![
                        CopyServiceActionView::AwaitRelay,
                        CopyServiceActionView::SendComplete,
                        CopyServiceActionView::Finish,
                    ]
                } else {
                    seq![CopyServiceActionView::SendComplete, CopyServiceActionView::Finish]
                },
            ),
            CopyServiceEvent::Broken(e) => copy_failed(e@),
            CopyServiceEvent::SendFailed => copy_failed("copy client stream closed"@),
            _ => idle,
        },
        CopyPhase::Ending => match event {
            CopyServiceEvent::SendFailed => copy_failed("copy client stream closed"@),
            _ => idle,
        },
        CopyPhase::Over => idle,
    }
}

/// A copy that a client asks for over a stream of messages.
pub struct CopyService {
    pub phase: CopyPhase,
}

impl CopyService {
    pub fn new() -> (r: Self)
        ensures
            r.phase == CopyPhase::Beginning,
    {
        CopyService { phase: CopyPhase::Beginning }
    }

    fn fail(&mut self, error: String) -> (r: Vec<CopyServiceAction>)
        ensures
            (final(self).phase, lists::views(r@)) == copy_failed(error@),
    {
        let ghost wanted = copy_failed(error@).1;
        self.phase = CopyPhase::Over;
        let r = two(CopyServiceAction::TrySendError(error), CopyServiceAction::Finish);
        assert(lists::views(r@) =~= wanted);
        r
    }

    fn on_resolved(
        &mut self,
        resolved: ResolveResult,
        direction: CopyDirection,
        timeout_ms: u64,
    ) -> (r: Vec<CopyServiceAction>)
        ensures
            (final(self).phase, lists::views(r@)) == copy_resolved(
                resolved,
                direction,
                timeout_ms,
            ),
    {
        if resolved.routes.len() == 0 {
            return self.fail("no resolved target candidates".to_owned());
        }
        let ghost wanted = copy_resolved(resolved, direction, timeout_ms).1;
        let route = resolved.routes[0].clone();
        self.phase = CopyPhase::Running { direction, timeout_ms };
        let deadline_ms = if timeout_ms > 0 {
            Some(timeout_ms)
        } else {
            None
        };
        let run = CopyServiceAction::Run { route, direction, deadline_ms };
        let r = match resolved.warning {
            Some(w) => two(CopyServiceAction::SendInfo(w), run),
            None => one(run),
        };
        assert(lists::views(r@) =~= wanted);
        r
    }

    /// Take one event.
    pub fn on_event(&mut self, event: CopyServiceEvent) -> (r: Vec<CopyServiceAction>)
        ensures
            (final(self).phase, lists::views(r@)) == copy_service_step(old(self).phase, event),
    {
        let nothing: Vec<CopyServiceAction> = Vec::new();
        assert(lists::views(nothing@) =~= Seq::<CopyServiceActionView>::empty());
        let ghost wanted = copy_service_step(self.phase, event).1;
        let r = match (self.phase, event) {
            (CopyPhase::Beginning, CopyServiceEvent::First(opening)) => match opening {
                CopyOpening::Missing => self.fail(
                    "client disconnected before copy start request".to_owned(),
                ),
                CopyOpening::Other => self.fail(
                    "first copy stream message must be start".to_owned(),
                ),
                CopyOpening::Bad(e) => self.fail(e),
                CopyOpening::Start { target, direction, timeout_ms } => {
                    self.phase = CopyPhase::Resolving { direction, timeout_ms };
                    one(CopyServiceAction::Resolve(target))
                },
            },
            (
                CopyPhase::Resolving { direction, timeout_ms },
                CopyServiceEvent::Resolved(Ok(resolved)),
            ) => self.on_resolved(resolved, direction, timeout_ms),
            (CopyPhase::Resolving { .. }, CopyServiceEvent::Resolved(Err(e))) => self.fail(e),
            (CopyPhase::Running { timeout_ms, .. }, CopyServiceEvent::Timeout) => {
                if timeout_ms > 0 {
                    self.phase = CopyPhase::Ending;
                    three(
                        CopyServiceAction::Abort,
                        CopyServiceAction::SendError("copy timed out (exit code 124)".to_owned()),
                        CopyServiceAction::Finish,
                    )
                } else {
                    nothing
                }
            },
            (CopyPhase::Running { .. }, CopyServiceEvent::Copied(Err(e))) => {
                self.phase = CopyPhase::Ending;
                two(CopyServiceAction::SendError(e), CopyServiceAction::Finish)
            },
            (CopyPhase::Running { direction, .. }, CopyServiceEvent::Copied(Ok(_))) => {
                self.phase = CopyPhase::Ending;
                match direction {
                    CopyDirection::Download => three(
                        CopyServiceAction::AwaitRelay,
                        CopyServiceAction::SendComplete,
                        CopyServiceAction::Finish,
                    ),
                    CopyDirection::Upload => two(
                        CopyServiceAction::SendComplete,
                        CopyServiceAction::Finish,
                    ),
                }
            },
            (CopyPhase::Running { .. }, CopyServiceEvent::Broken(e)) => self.fail(e),
            (CopyPhase::Running { .. }, CopyServiceEvent::SendFailed) => self.fail(
                "copy client stream closed".to_owned(),
            ),
            (CopyPhase::Ending, CopyServiceEvent::SendFailed) => self.fail(
                "copy client stream closed".to_owned(),
            ),
            _ => nothing,
        };
        assert(lists::views(r@) =~= wanted);
        r
    }
}

/// Where a sequence of events leads a copy, and the actions on the way.
pub open spec fn copy_service_run(events: Seq<CopyServiceEvent>) -> (
    CopyPhase,
    Seq<CopyServiceActionView>,
)
    decreases events.len(),
{
    if events.len() == 0 {
        (CopyPhase::Beginning, Seq::empty())
    } else {
        let (mid, actions) = copy_service_run(events.drop_last());
        let (next, more) = copy_service_step(mid, events.last());
        (next, actions + more)
    }
}

/// The copy succeeded by one of the events.
pub open spec fn copy_succeeded(events: Seq<CopyServiceEvent>) -> bool {
    exists|i: int|
        0 <= i < events.len() && (#[trigger] events[i] matches CopyServiceEvent::Copied(Ok(_)))
}

/// The action reports an outcome.
pub open spec fn is_outcome(a: CopyServiceActionView) -> bool {
    a is SendComplete || a is SendError
}

/// Whatever comes, a copy is reported complete only if it succeeded; at most one outcome is
/// reported; and once it is, the copy is ending or over.
pub proof fn law_copies_have_one_outcome(events: Seq<CopyServiceEvent>)
    ensures
        ({
            let (phase, actions) = copy_service_run(events);
            &&& forall|i: int|
                0 <= i < actions.len() && #[trigger] actions[i] is SendComplete
                    ==> copy_succeeded(events)
            &&& forall|i: int, j: int|
                0 <= i < j < actions.len() && is_outcome(#[trigger] actions[i]) ==> !is_outcome(
                    #[trigger] actions[j],
                )
            &&& forall|i: int|
                0 <= i < actions.len() && is_outcome(#[trigger] actions[i]) ==> phase is Ending
                    || phase is Over
        }),
    decreases events.len(),
{
    if events.len() > 0 {
        let before = events.drop_last();
        let (mid, actions) = copy_service_run(before);
        let (next, more) = copy_service_step(mid, events.last());
        law_copies_have_one_outcome(before);
        let all = actions + more;
        if copy_succeeded(before) {
            let i = choose|i: int|
                0 <= i < before.len() && (#[trigger] before[i] matches CopyServiceEvent::Copied(
                    Ok(_),
                ));
            assert(events[i] == before[i]);
        }
        if events.last() matches CopyServiceEvent::Copied(Ok(_)) {
            assert(events[events.len() - 1] == events.last());
        }
        assert forall|i: int|
            0 <= i < all.len() && #[trigger] all[i] is SendComplete implies copy_succeeded(
            events,
        ) by {
            if i < actions.len() {
                assert(actions[i] == all[i]);
            } else {
                assert(all[i] == more[i - actions.len()]);
            }
        }
        assert forall|i: int, j: int|
            0 <= i < j < all.len() && is_outcome(#[trigger] all[i]) implies !is_outcome(
            #[trigger] all[j],
        ) by {
            if j < actions.len() {
                assert(actions[i] == all[i]);
                assert(actions[j] == all[j]);
            } else {
                assert(all[j] == more[j - actions.len()]);
                if i < actions.len() {
                    assert(actions[i] == all[i]);
                } else {
                    assert(all[i] == more[i - actions.len()]);
                }
            }
        }
        assert forall|i: int| 0 <= i < all.len() && is_outcome(#[trigger] all[i]) implies next is Ending
            || next is Over by {
            if i < actions.len() {
                assert(actions[i] == all[i]);
            } else {
                assert(all[i] == more[i - actions.len()]);
            }
        }
    }
}

// ---------------------------------------------------------------------------
// What a service does for its client
// ---------------------------------------------------------------------------
/// A client that opens a session on a target has the first route of the target opened, and is
/// told that the session has started.
pub proof fn law_service_opens_the_first_route(target: String, resolved: ResolveResult)
    requires
        resolved.routes@.len() > 0,
    ensures
        ({
            let events = seq![
                ServiceEvent::First(Some(SessionRequest::Open { target })),
                ServiceEvent::Resolved(Ok(resolved)),
                ServiceEvent::Opened(Ok(())),
                ServiceEvent::Acknowledged,
            ];
            &&& service_run(events).0 is Running
            &&& service_run(events).1 == seq![
                ServiceActionView::Resolve(target@),
                ServiceActionView::Open(resolved.routes@[0]@),
                ServiceActionView::Send(ResponseView::Started),
            ]
        }),
{
    let a = ServiceEvent::First(Some(SessionRequest::Open { target }));
    let b = ServiceEvent::Resolved(Ok(resolved));
    let c = ServiceEvent::Opened(Ok(()));
    let d = ServiceEvent::Acknowledged;
    let events = seq![a, b, c, d];
    reveal_with_fuel(service_run, 5);
    assert(events.drop_last() =~= seq![a, b, c]);
    assert(seq![a, b, c].drop_last() =~= seq![a, b]);
    assert(seq![a, b].drop_last() =~= seq![a]);
    assert(seq![a].drop_last() =~= Seq::<ServiceEvent>::empty());
    assert(service_run(events).1 =~= seq![
        ServiceActionView::Resolve(target@),
        ServiceActionView::Open(resolved.routes@[0]@),
        ServiceActionView::Send(ResponseView::Started),
    ]);
}

/// What ends a session that runs: the client leaves or breaks the order, the session ends, or
/// the client cannot be told any more.
pub open spec fn ends_service() -> spec_fn(ServiceEvent) -> bool {
    |event: ServiceEvent|
        match event {
            ServiceEvent::Request(None) => true,
            ServiceEvent::Request(Some(q)) => q is Open || q is Empty,
            ServiceEvent::Event(Some(SessionEvent::Stdout(_))) => false,
            ServiceEvent::Event(Some(SessionEvent::Stderr(_))) => false,
            ServiceEvent::Event(_) => true,
            ServiceEvent::SendFailed => true,
            _ => false,
        }
}

/// What is done for the client and told to it while the session runs: its requests are carried
/// out as they are, and what the session writes is told as it is.
pub open spec fn served() -> spec_fn(ServiceEvent) -> Option<ServiceActionView> {
    |event: ServiceEvent|
        match event {
            ServiceEvent::Request(Some(q)) => Some(
                if q is Exec || q is Shell || q is Subsystem {
                    ServiceActionView::Start(q)
                } else {
                    ServiceActionView::Apply(q)
                },
            ),
            ServiceEvent::StartFailed(e) => Some(
                ServiceActionView::TrySend(ResponseView::Error(e@)),
            ),
            ServiceEvent::Event(Some(SessionEvent::Stdout(data))) => Some(
                ServiceActionView::Send(ResponseView::Data(data@)),
            ),
            ServiceEvent::Event(Some(SessionEvent::Stderr(data))) => Some(
                ServiceActionView::Send(ResponseView::Stderr(data@)),
            ),
            _ => None,
        }
}

/// What is told at the end of a session.
pub open spec fn served_last(event: ServiceEvent) -> Seq<ServiceActionView> {
    match event {
        ServiceEvent::Event(Some(SessionEvent::ExitStatus(code))) => seq![
            ServiceActionView::TrySend(ResponseView::ExitStatus(code as int)),
            ServiceActionView::TrySend(ResponseView::Eof),
            ServiceActionView::Finish,
        ],
        ServiceEvent::Event(Some(SessionEvent::ExitSignal(signal))) => seq![
            ServiceActionView::TrySend(ResponseView::ExitSignal(signal@)),
            ServiceActionView::Finish,
        ],
        ServiceEvent::Event(_) => seq![
            ServiceActionView::TrySend(ResponseView::Eof),
            ServiceActionView::Finish,
        ],
        _ => seq![ServiceActionView::Finish],
    }
}

/// While a session runs, each request of the client is carried out and all that the session
/// writes is told to the client, in order, until it ends; then the end is told, once.
pub proof fn law_running_sessions_are_served(before: Seq<ServiceEvent>, events: Seq<ServiceEvent>)
    requires
        service_run(before).0 is Running,
    ensures
        ({
            let (phase, actions) = service_run(before + events);
            let inner = lists::before_end(events, ends_service());
            let end = lists::first_end(events, ends_service());
            &&& actions == service_run(before).1 + lists::picked(inner, served()) + match end {
                Some(event) => served_last(event),
                None => Seq::empty(),
            }
            &&& if end is None {
                phase is Running
            } else {
                phase is Over
            }
        }),
    decreases events.len(),
{
    let ends = ends_service();
    let start = service_run(before).1;
    if events.len() == 0 {
        assert(before + events =~= before);
        assert(start + Seq::<ServiceActionView>::empty() + Seq::<ServiceActionView>::empty()
            =~= start);
    } else {
        let init = events.drop_last();
        law_running_sessions_are_served(before, init);
        assert((before + events).drop_last() =~= before + init);
        assert((before + events).last() == events.last());
        lists::lemma_before_end(init, ends);
        lists::lemma_before_end(events, ends);
        let inner = lists::before_end(init, ends);
        let (mid, actions) = service_run(before + init);
        let (next, more) = service_step(mid, events.last());
        if lists::first_end(init, ends) is None {
            assert(inner =~= init);
            if ends(events.last()) {
                assert(lists::before_end(events, ends) == inner);
                assert(lists::first_end(events, ends) == Some(events.last()));
                assert(more =~= served_last(events.last()));
                assert(actions + more =~= start + lists::picked(inner, served()) + more);
            } else {
                let longer = lists::before_end(events, ends);
                assert(longer == inner.push(events.last()));
                assert(longer.drop_last() =~= inner);
                assert(lists::first_end(events, ends) is None);
                assert(more =~= lists::as_list(served()(events.last())));
                assert(actions + more =~= start + lists::picked(longer, served()) + Seq::<
                    ServiceActionView,
                >::empty());
            }
        } else {
            assert(lists::before_end(events, ends) == inner);
            assert(lists::first_end(events, ends) == lists::first_end(init, ends));
            assert(actions + more =~= actions);
        }
    }
}

/// A session that cannot be opened is answered with the reason, and nothing more is done for
/// it.
pub proof fn law_unopened_sessions_are_told_why(
    target: Seq<char>,
    resolved: ResolveResult,
    error: String,
    first: Option<SessionRequest>,
)
    ensures
        ({
            let told = |phase: ServicePhaseView, event: ServiceEvent, reason: Seq<char>|
                service_step(phase, event) == (
                    ServicePhaseView::Over,
                    seq![
                        ServiceActionView::TrySend(ResponseView::Error(reason)),
                        ServiceActionView::Finish,
                    ],
                );
            let resolving = ServicePhaseView::Resolving(target);
            &&& told(ServicePhaseView::Beginning, ServiceEvent::StreamFailed(error), error@)
            &&& told(resolving, ServiceEvent::Resolved(Err(error)), error@)
            &&& told(ServicePhaseView::Connecting, ServiceEvent::Opened(Err(error)), error@)
            &&& resolved.routes@.len() == 0 ==> told(
                resolving,
                ServiceEvent::Resolved(Ok(resolved)),
                "no route for target '"@ + target + "'"@,
            )
            &&& first is None ==> told(
                ServicePhaseView::Beginning,
                ServiceEvent::First(first),
                "open_session: missing open request"@,
            )
            &&& first matches Some(q) ==> (!(q is Open) ==> told(
                ServicePhaseView::Beginning,
                ServiceEvent::First(first),
                "open_session: first message must be SessionOpen"@,
            ))
            &&& told(
                ServicePhaseView::Acknowledging,
                ServiceEvent::SendFailed,
                "open_session: client stream closed"@,
            )
        }),
{
}

/// A copy is run as it was asked for: on the first route of its target, in its direction and
/// with its deadline, where it has one. A warning is told before.
pub proof fn law_copies_are_run_as_asked(
    target: String,
    direction: CopyDirection,
    timeout_ms: u64,
    resolved: ResolveResult,
)
    requires
        resolved.routes@.len() > 0,
    ensures
        ({
            let events = seq![
                CopyServiceEvent::First(CopyOpening::Start { target, direction, timeout_ms }),
                CopyServiceEvent::Resolved(Ok(resolved)),
            ];
            let run = seq![
                CopyServiceActionView::Run {
                    route: resolved.routes@[0]@,
                    direction,
                    deadline_ms: if timeout_ms == 0 {
                        None
                    } else {
                        Some(timeout_ms)
                    },
                },
            ];
            let asked = seq![CopyServiceActionView::Resolve(target@)];
            copy_service_run(events).1 == match resolved.warning {
                Some(w) => asked + seq![CopyServiceActionView::SendInfo(w@)] + run,
                None => asked + run,
            }
        }),
{
    let a = CopyServiceEvent::First(CopyOpening::Start { target, direction, timeout_ms });
    let b = CopyServiceEvent::Resolved(Ok(resolved));
    reveal_with_fuel(copy_service_run, 3);
    assert(seq![a, b].drop_last() =~= seq![a]);
    assert(seq![a].drop_last() =~= Seq::<CopyServiceEvent>::empty());
    let asked = seq![CopyServiceActionView::Resolve(target@)];
    assert(copy_service_run(seq![a]).1 =~= asked);
    let more = copy_service_step(copy_service_run(seq![a]).0, b).1;
    match resolved.warning {
        Some(w) => {
            assert(asked + more =~= asked + seq![CopyServiceActionView::SendInfo(w@)] + seq![
                more[1],
            ]);
        },
        None => {},
    }
}

/// The client of a copy is told how it ended: complete, once the last of a download was
/// relayed, or with the error. A copy that takes too long is broken off, where it has a
/// deadline.
pub proof fn law_copy_outcomes_are_told(
    direction: CopyDirection,
    timeout_ms: u64,
    error: String,
)
    ensures
        ({
            let running = CopyPhase::Running { direction, timeout_ms };
            let complete = seq![CopyServiceActionView::SendComplete, CopyServiceActionView::Finish];
            let done = copy_service_step(running, CopyServiceEvent::Copied(Ok(()))).1;
            let failed = copy_service_step(running, CopyServiceEvent::Copied(Err(error))).1;
            let late = copy_service_step(running, CopyServiceEvent::Timeout).1;
            let broken = copy_service_step(running, CopyServiceEvent::Broken(error)).1;
            &&& direction is Upload ==> done == complete
            &&& direction is Download ==> done == seq![CopyServiceActionView::AwaitRelay] + complete
            &&& failed == seq![
                CopyServiceActionView::SendError(error@),
                CopyServiceActionView::Finish,
            ]
            &&& timeout_ms == 0 ==> late.len() == 0
            &&& timeout_ms > 0 ==> late == seq![
                CopyServiceActionView::Abort,
                CopyServiceActionView::SendError("copy timed out (exit code 124)"@),
                CopyServiceActionView::Finish,
            ]
            &&& broken == seq![
                CopyServiceActionView::TrySendError(error@),
                CopyServiceActionView::Finish,
            ]
        }),
{
    let running = CopyPhase::Running { direction, timeout_ms };
    let complete = seq![CopyServiceActionView::SendComplete, CopyServiceActionView::Finish];
    let done = copy_service_step(running, CopyServiceEvent::Copied(Ok(()))).1;
    if direction is Download {
        assert(done =~= seq![CopyServiceActionView::AwaitRelay] + complete);
    } else {
        assert(done =~= complete);
    }
}

/// A copy that cannot begin is answered with the reason, and nothing is copied.
pub proof fn law_unstarted_copies_are_told_why(
    direction: CopyDirection,
    timeout_ms: u64,
    resolved: ResolveResult,
    error: String,
)
    ensures
        ({
            let told = |phase: CopyPhase, event: CopyServiceEvent, reason: Seq<char>|
                copy_service_step(phase, event) == (
                    CopyPhase::Over,
                    seq![
                        CopyServiceActionView::TrySendError(reason),
                        CopyServiceActionView::Finish,
                    ],
                );
            let resolving = CopyPhase::Resolving { direction, timeout_ms };
            &&& told(
                CopyPhase::Beginning,
                CopyServiceEvent::First(CopyOpening::Missing),
                "client disconnected before copy start request"@,
            )
            &&& told(
                CopyPhase::Beginning,
                CopyServiceEvent::First(CopyOpening::Other),
                "first copy stream message must be start"@,
            )
            &&& told(
                CopyPhase::Beginning,
                CopyServiceEvent::First(CopyOpening::Bad(error)),
                error@,
            )
            &&& told(resolving, CopyServiceEvent::Resolved(Err(error)), error@)
            &&& resolved.routes@.len() == 0 ==> told(
                resolving,
                CopyServiceEvent::Resolved(Ok(resolved)),
                "no resolved target candidates"@,
            )
        }),
{
}

/// What is stated of a [`SessionResponse`] is stated of its own parts: each kind is seen as that
/// kind, with all that it holds.
pub proof fn law_session_response_is_seen_as_it_is(value: SessionResponse)
    ensures
        ({
            let seen = value@;
            match value {
                SessionResponse::Started => seen == ResponseView::Started,
                SessionResponse::Data(d) => seen == ResponseView::Data(d@),
                SessionResponse::Stderr(d) => seen == ResponseView::Stderr(d@),
                SessionResponse::ExitStatus(c) => seen == ResponseView::ExitStatus(c as int),
                SessionResponse::ExitSignal(s) => seen == ResponseView::ExitSignal(s@),
                SessionResponse::Eof => seen == ResponseView::Eof,
                SessionResponse::Error(e) => seen == ResponseView::Error(e@),
            }
        }),
{
}

/// What is stated of a [`ServiceAction`] is stated of its own parts: each kind is seen as that
/// kind, with all that it holds.
pub proof fn law_service_action_is_seen_as_it_is(value: ServiceAction)
    ensures
        ({
            let seen = value@;
            match value {
                ServiceAction::Resolve(t) => seen == ServiceActionView::Resolve(t@),
                ServiceAction::Open(r) => seen == ServiceActionView::Open(r@),
                ServiceAction::Send(m) => seen == ServiceActionView::Send(m@),
                ServiceAction::TrySend(m) => seen == ServiceActionView::TrySend(m@),
                ServiceAction::Apply(q) => seen == ServiceActionView::Apply(q),
                ServiceAction::Start(q) => seen == ServiceActionView::Start(q),
                ServiceAction::Finish => seen == ServiceActionView::Finish,
            }
        }),
{
}

/// What is stated of a [`CopyServiceAction`] is stated of its own parts: each kind is seen as that
/// kind, with all that it holds.
pub proof fn law_copy_service_action_is_seen_as_it_is(value: CopyServiceAction)
    ensures
        ({
            let seen = value@;
            match value {
                CopyServiceAction::Resolve(t) => seen == CopyServiceActionView::Resolve(t@),
                CopyServiceAction::SendInfo(m) => seen == CopyServiceActionView::SendInfo(m@),
                CopyServiceAction::Run { route, direction, deadline_ms } => seen == ({
                    CopyServiceActionView::Run {
                        route: route@,
                        direction: direction,
                        deadline_ms: deadline_ms,
                    }
                }),
                CopyServiceAction::Abort => seen == CopyServiceActionView::Abort,
                CopyServiceAction::AwaitRelay => seen == CopyServiceActionView::AwaitRelay,
                CopyServiceAction::SendError(e) => seen == CopyServiceActionView::SendError(e@),
                CopyServiceAction::SendComplete => seen == CopyServiceActionView::SendComplete,
                CopyServiceAction::TrySendError(e) => seen == CopyServiceActionView::TrySendError(e@),
                CopyServiceAction::Finish => seen == CopyServiceActionView::Finish,
            }
        }),
{
}

} // verus!
