//! Running a command for a client: admission, review, confirmation, forwarding.
use crate::config::{ReviewAction, RiskLevel};
use crate::gateway;
use crate::gateway::Route;
use crate::ids;
use crate::ids::{parse_execution_id, random_id};
use crate::lists;
use crate::lists::{five, one, three, two};
use crate::resolver::ResolveResult;
use crate::text;
use crate::text::join;
use vstd::prelude::*;

verus! {

// ---------------------------------------------------------------------------
// Requests and events
// ---------------------------------------------------------------------------
/// A request to run a command.
#[derive(Debug)]
pub struct ExecRequest {
    pub target: String,
    pub argv: Vec<String>,
    pub tty: bool,
    pub stdin: bool,
    /// Zero means no limit.
    pub timeout_ms: u64,
    pub interactive: bool,
    pub term_cols: u32,
    pub term_rows: u32,
    /// The shell to run in; empty for the configured one.
    pub shell: String,
    pub no_shell: bool,
}

/// A message of the client.
#[derive(Debug)]
pub enum ClientMessage {
    Start(ExecRequest),
    Confirm { execution_id: String, allow: bool },
    /// Input; no bytes mean its end.
    StdinData(Vec<u8>),
    WindowResize { cols: u32, rows: u32 },
    Other,
}

/// What the client is told.
#[derive(Debug)]
pub enum ServerEvent {
    Info { message: String },
    ReviewResult {
        execution_id: u128,
        risk_level: RiskLevel,
        action: ReviewAction,
        reason: String,
        matched_whitelist_reason: Option<String>,
    },
    ConfirmRequired { execution_id: u128, reason: String },
    Stdout { data: Vec<u8> },
    Stderr { data: Vec<u8> },
    ExitStatus { code: i32 },
    Error { message: String },
    AuthPrompt {
        prompt_id: String,
        target_label: String,
        kind: String,
        secret: bool,
        message: String,
    },
}

/// The mathematical counterpart of [`ServerEvent`].
pub enum EventView {
    Info(Seq<char>),
    ReviewResult {
        execution_id: int,
        risk_level: RiskLevel,
        action: ReviewAction,
        reason: Seq<char>,
        matched_whitelist_reason: Option<Seq<char>>,
    },
    ConfirmRequired { execution_id: int, reason: Seq<char> },
    Stdout(Seq<u8>),
    Stderr(Seq<u8>),
    ExitStatus(int),
    Error(Seq<char>),
    AuthPrompt {
        prompt_id: Seq<char>,
        target_label: Seq<char>,
        kind: Seq<char>,
        secret: bool,
        message: Seq<char>,
    },
}

impl View for ServerEvent {
    type V = EventView;

    open spec fn view(&self) -> EventView {
        match self {
            ServerEvent::Info { message } => EventView::Info(message@),
            ServerEvent::ReviewResult {
                execution_id,
                risk_level,
                action,
                reason,
                matched_whitelist_reason,
            } => EventView::ReviewResult {
                execution_id: *execution_id as int,
                risk_level: *risk_level,
                action: *action,
                reason: reason@,
                matched_whitelist_reason: text::opt(*matched_whitelist_reason),
            },
            ServerEvent::ConfirmRequired { execution_id, reason } => EventView::ConfirmRequired {
                execution_id: *execution_id as int,
                reason: reason@,
            },
            ServerEvent::Stdout { data } => EventView::Stdout(data@),
            ServerEvent::Stderr { data } => EventView::Stderr(data@),
            ServerEvent::ExitStatus { code } => EventView::ExitStatus(*code as int),
            ServerEvent::Error { message } => EventView::Error(message@),
            ServerEvent::AuthPrompt { prompt_id, target_label, kind, secret, message } =>
            EventView::AuthPrompt {
                prompt_id: prompt_id@,
                target_label: target_label@,
                kind: kind@,
                secret: *secret,
                message: message@,
            },
        }
    }
}

// ---------------------------------------------------------------------------
// Admission
// ---------------------------------------------------------------------------
/// The request that the first message of a stream makes.
pub fn start_request(first: Option<ClientMessage>) -> (r: Result<ExecRequest, String>)
    ensures
        match first {
            None => r matches Err(e) && e@ == "client disconnected before start request"@,
            Some(ClientMessage::Start(start)) => r == Ok::<ExecRequest, String>(start),
            _ => r matches Err(e) && e@ == "first execute stream message must be start"@,
        },
{
    match first {
        None => Err("client disconnected before start request".to_owned()),
        Some(ClientMessage::Start(start)) => Ok(start),
        Some(_) => Err("first execute stream message must be start".to_owned()),
    }
}

/// What becomes of a request before anything is resolved.
#[derive(Debug)]
pub enum Admission {
    /// The stream fails with this message.
    Fail(String),
    /// The client is told this error and the request is over.
    Reject(String),
    Interactive,
    Plain,
}

/// A request needs a command; an interactive one needs a terminal of some size.
pub fn check_request(request: &ExecRequest) -> (r: Admission)
    ensures
        if request.argv@.len() == 0 {
            r matches Admission::Fail(e) && e@ == "argv must not be empty"@
        } else if !request.interactive {
            r is Plain
        } else if !request.tty {
            r matches Admission::Reject(e) && e@ == "interactive mode requires tty (--tty)"@
        } else if request.term_cols == 0 || request.term_rows == 0 {
            r matches Admission::Reject(e) && e@
                == "interactive mode requires term_cols > 0 and term_rows > 0"@
        } else {
            r is Interactive
        },
{
    if request.argv.len() == 0 {
        return Admission::Fail("argv must not be empty".to_owned());
    }
    if !request.interactive {
        return Admission::Plain;
    }
    if !request.tty {
        return Admission::Reject("interactive mode requires tty (--tty)".to_owned());
    }
    if request.term_cols == 0 || request.term_rows == 0 {
        return Admission::Reject(
            "interactive mode requires term_cols > 0 and term_rows > 0".to_owned(),
        );
    }
    Admission::Interactive
}

/// The time after which an execution is given up, if any.
pub fn deadline_ms(timeout_ms: u64) -> (r: Option<u64>)
    ensures
        r == if timeout_ms > 0 {
            Some(timeout_ms)
        } else {
            None
        },
{
    if timeout_ms > 0 {
        Some(timeout_ms)
    } else {
        None
    }
}

// ---------------------------------------------------------------------------
// Preparation: resolution, review, confirmation
// ---------------------------------------------------------------------------
/// How a command was judged.
#[derive(Debug)]
pub struct ReviewDecision {
    pub risk_level: RiskLevel,
    pub action: ReviewAction,
    pub reason: String,
    pub matched_whitelist_reason: Option<String>,
}

/// What happens while a command is prepared.
pub enum PrepEvent {
    Resolved(Result<ResolveResult, String>),
    /// The review's decision, if the command was reviewed at all.
    Reviewed(Result<Option<ReviewDecision>, String>),
    /// The client's next message, or the end or failure of its stream.
    Message(ClientMessage),
    Disconnected,
    StreamFailed(String),
    /// All that was to be sent to the client was sent.
    Sent,
    /// An event could not be sent to the client.
    SendFailed,
}

/// What to do while a command is prepared, in order.
pub enum PrepAction {
    /// Send the event. If that fails, drop the actions behind it and say so.
    Send(ServerEvent),
    /// Have the command reviewed.
    Review { end_target: String, command: String },
    AwaitMessage,
    /// Run the command over this route.
    Proceed(Route),
    /// The request is over.
    Finish,
    /// The stream fails with this message.
    Fail(String),
}

/// The mathematical counterpart of [`PrepAction`].
pub enum PrepActionView {
    Send(EventView),
    Review { end_target: Seq<char>, command: Seq<char> },
    AwaitMessage,
    Proceed(gateway::RouteView),
    Finish,
    Fail(Seq<char>),
}

impl View for PrepAction {
    type V = PrepActionView;

    open spec fn view(&self) -> PrepActionView {
        match self {
            PrepAction::Send(e) => PrepActionView::Send(e@),
            PrepAction::Review { end_target, command } => PrepActionView::Review {
                end_target: end_target@,
                command: command@,
            },
            PrepAction::AwaitMessage => PrepActionView::AwaitMessage,
            PrepAction::Proceed(route) => PrepActionView::Proceed(route@),
            PrepAction::Finish => PrepActionView::Finish,
            PrepAction::Fail(e) => PrepActionView::Fail(e@),
        }
    }
}

/// Where a preparation stands.
pub enum PrepPhase {
    Resolving,
    Reviewing(Route),
    Confirming(Route),
    /// The client is being told that the command may run.
    Allowed(Route),
    /// The client is being told that the command may not run.
    Denied,
    Over,
}

/// The mathematical counterpart of [`PrepPhase`].
pub enum PrepPhaseView {
    Resolving,
    Reviewing(gateway::RouteView),
    Confirming(gateway::RouteView),
    Allowed(gateway::RouteView),
    Denied,
    Over,
}

impl View for PrepPhase {
    type V = PrepPhaseView;

    open spec fn view(&self) -> PrepPhaseView {
        match self {
            PrepPhase::Resolving => PrepPhaseView::Resolving,
            PrepPhase::Reviewing(r) => PrepPhaseView::Reviewing(r@),
            PrepPhase::Confirming(r) => PrepPhaseView::Confirming(r@),
            PrepPhase::Allowed(r) => PrepPhaseView::Allowed(r@),
            PrepPhase::Denied => PrepPhaseView::Denied,
            PrepPhase::Over => PrepPhaseView::Over,
        }
    }
}

/// What a preparation goes by: the execution's identifier, the command line, and what is
/// done when the review itself fails.
pub struct PrepRules {
    pub id: int,
    pub command: Seq<char>,
    pub on_failure: ReviewAction,
}

/// What follows a judgement, by its action: the client is told `told`; a denial is reported
/// as `denial`, a confirmation is asked for with `question`.
pub open spec fn judged(
    rules: PrepRules,
    route: gateway::RouteView,
    action: ReviewAction,
    told: EventView,
    question: Seq<char>,
    denial: Seq<char>,
) -> (PrepPhaseView, Seq<PrepActionView>) {
    match action {
        ReviewAction::Allow | ReviewAction::Warn => (
            PrepPhaseView::Allowed(route),
            seq![PrepActionView::Send(told)],
        ),
        ReviewAction::Confirm => (
            PrepPhaseView::Confirming(route),
            seq![
                PrepActionView::Send(told),
                PrepActionView::Send(
                    EventView::ConfirmRequired { execution_id: rules.id, reason: question },
                ),
                PrepActionView::AwaitMessage,
            ],
        ),
        ReviewAction::Deny => (
            PrepPhaseView::Denied,
            seq![PrepActionView::Send(told), PrepActionView::Send(EventView::Error(denial))],
        ),
    }
}

/// The stream fails.
pub open spec fn failed(message: Seq<char>) -> (PrepPhaseView, Seq<PrepActionView>) {
    (PrepPhaseView::Over, seq![PrepActionView::Fail(message)])
}

/// The message confirms the execution.
pub open spec fn confirms(message: ClientMessage, id: int) -> bool {
    message matches ClientMessage::Confirm { execution_id, allow } && allow && ids::uuid_value(
        execution_id@,
    ) == Ok::<int, Seq<char>>(id)
}

/// What an event does to a preparation. An event that the phase does not wait for does
/// nothing.
pub open spec fn prep_step(rules: PrepRules, phase: PrepPhaseView, event: PrepEvent) -> (
    PrepPhaseView,
    Seq<PrepActionView>,
) {
    let idle = (phase, Seq::<PrepActionView>::empty());
    match (phase, event) {
        (PrepPhaseView::Over, _) => idle,
        (_, PrepEvent::SendFailed) => failed("client receive stream closed"@),
        (PrepPhaseView::Resolving, PrepEvent::Resolved(Err(e))) => failed(e@),
        (PrepPhaseView::Resolving, PrepEvent::Resolved(Ok(resolved))) => {
            if resolved.routes@.len() == 0 {
                failed("no resolved target candidates"@)
            } else {
                let route = resolved.routes@[0]@;
                let review = PrepActionView::Review {
                    end_target: route.target,
                    command: rules.command,
                };
                (
                    PrepPhaseView::Reviewing(route),
                    match resolved.warning {
                        Some(w) => seq![PrepActionView::Send(EventView::Info(w@)), review],
                        None => seq![review],
                    },
                )
            }
        },
        (PrepPhaseView::Reviewing(route), PrepEvent::Reviewed(Ok(None))) => (
            PrepPhaseView::Over,
            seq![PrepActionView::Proceed(route)],
        ),
        (PrepPhaseView::Reviewing(route), PrepEvent::Reviewed(Ok(Some(d)))) => judged(
            rules,
            route,
            d.action,
            EventView::ReviewResult {
                execution_id: rules.id,
                risk_level: d.risk_level,
                action: d.action,
                reason: d.reason@,
                matched_whitelist_reason: text::opt(d.matched_whitelist_reason),
            },
            d.reason@,
            "command denied: "@ + d.reason@,
        ),
        (PrepPhaseView::Reviewing(route), PrepEvent::Reviewed(Err(e))) => judged(
            rules,
            route,
            rules.on_failure,
            EventView::ReviewResult {
                execution_id: rules.id,
                risk_level: RiskLevel::Dangerous,
                action: rules.on_failure,
                reason: "review failed: "@ + e@,
                matched_whitelist_reason: None,
            },
            "review service failed"@,
            "review failed and policy is deny: "@ + e@,
        ),
        (PrepPhaseView::Confirming(route), PrepEvent::Message(message)) => match message {
            ClientMessage::Confirm { execution_id, allow } => match ids::uuid_value(
                execution_id@,
            ) {
                Err(e) => failed(e),
                Ok(id) => if id == rules.id && allow {
                    (PrepPhaseView::Over, seq![PrepActionView::Proceed(route)])
                } else {
                    failed("execution not confirmed"@)
                },
            },
            _ => failed("unexpected request while awaiting confirmation"@),
        },
        (PrepPhaseView::Confirming(_), PrepEvent::Disconnected) => failed(
            "client disconnected before confirmation"@,
        ),
        (PrepPhaseView::Confirming(_), PrepEvent::StreamFailed(e)) => failed(e@),
        (PrepPhaseView::Allowed(route), PrepEvent::Sent) => (
            PrepPhaseView::Over,
            seq![PrepActionView::Proceed(route)],
        ),
        (PrepPhaseView::Denied, PrepEvent::Sent) => (
            PrepPhaseView::Over,
            seq![PrepActionView::Finish],
        ),
        _ => idle,
    }
}

/// The preparation of an execution: the target is resolved, the command is reviewed, and
/// the client confirms it where the review asks for that.
pub struct Preparation {
    id: u128,
    command: String,
    on_failure: ReviewAction,
    phase: PrepPhase,
}

impl Preparation {
    pub closed spec fn rules(&self) -> PrepRules {
        PrepRules { id: self.id as int, command: self.command@, on_failure: self.on_failure }
    }

    pub closed spec fn phase(&self) -> PrepPhaseView {
        self.phase@
    }

    /// Begin with a given identifier. The target is to be resolved first.
    pub fn with_id(id: u128, argv: &[String], on_failure: ReviewAction) -> (r: Self)
        ensures
            r.rules() == (PrepRules {
                id: id as int,
                command: text::join_of(text::texts(argv@), " "@),
                on_failure,
            }),
            r.phase() is Resolving,
    {
        Preparation { id, command: join(argv, " "), on_failure, phase: PrepPhase::Resolving }
    }

    /// Begin with a fresh identifier.
    pub fn new(argv: &[String], on_failure: ReviewAction) -> (r: Self)
        ensures
            r.rules().command == text::join_of(text::texts(argv@), " "@),
            r.rules().on_failure == on_failure,
            r.phase() is Resolving,
    {
        Preparation::with_id(random_id(), argv, on_failure)
    }

    /// The identifier of the execution.
    pub fn id(&self) -> (r: u128)
        ensures
            r == self.rules().id,
    {
        self.id
    }

    fn fail(&mut self, message: String) -> (r: Vec<PrepAction>)
        ensures
            final(self).rules() == old(self).rules(),
            (final(self).phase(), lists::views(r@)) == failed(message@),
    {
        self.phase = PrepPhase::Over;
        let r = one(PrepAction::Fail(message));
        assert(lists::views(r@) == seq![PrepActionView::Fail(message@)]);
        r
    }

    fn proceed(&mut self, route: Route) -> (r: Vec<PrepAction>)
        ensures
            final(self).rules() == old(self).rules(),
            final(self).phase() is Over,
            lists::views(r@) == seq![PrepActionView::Proceed(route@)],
    {
        self.phase = PrepPhase::Over;
        let r = one(PrepAction::Proceed(route));
        assert(lists::views(r@) == seq![PrepActionView::Proceed(route@)]);
        r
    }

    fn judge(
        &mut self,
        route: Route,
        action: ReviewAction,
        told: ServerEvent,
        question: String,
        denial: String,
    ) -> (r: Vec<PrepAction>)
        ensures
            final(self).rules() == old(self).rules(),
            (final(self).phase(), lists::views(r@)) == judged(
                old(self).rules(),
                route@,
                action,
                told@,
                question@,
                denial@,
            ),
    {
        match action {
            ReviewAction::Allow | ReviewAction::Warn => {
                self.phase = PrepPhase::Allowed(route);
                let r = one(PrepAction::Send(told));
                assert(lists::views(r@) == seq![PrepActionView::Send(told@)]);
                r
            },
            ReviewAction::Confirm => {
                let ghost asked = EventView::ConfirmRequired {
                    execution_id: self.id as int,
                    reason: question@,
                };
                let ask = ServerEvent::ConfirmRequired { execution_id: self.id, reason: question };
                self.phase = PrepPhase::Confirming(route);
                let r = three(
                    PrepAction::Send(told),
                    PrepAction::Send(ask),
                    PrepAction::AwaitMessage,
                );
                assert(lists::views(r@) == seq![
                    PrepActionView::Send(told@),
                    PrepActionView::Send(asked),
                    PrepActionView::AwaitMessage,
                ]);
                r
            },
            ReviewAction::Deny => {
                self.phase = PrepPhase::Denied;
                let r = two(
                    PrepAction::Send(told),
                    PrepAction::Send(ServerEvent::Error { message: denial }),
                );
                assert(lists::views(r@) == seq![
                    PrepActionView::Send(told@),
                    PrepActionView::Send(EventView::Error(denial@)),
                ]);
                r
            },
        }
    }

    fn on_resolved(&mut self, resolved: Result<ResolveResult, String>) -> (r: Vec<PrepAction>)
        ensures
            final(self).rules() == old(self).rules(),
            (final(self).phase(), lists::views(r@)) == prep_step(
                old(self).rules(),
                PrepPhaseView::Resolving,
                PrepEvent::Resolved(resolved),
            ),
    {
        let resolved = match resolved {
            Err(e) => {
                return self.fail(e);
            },
            Ok(resolved) => resolved,
        };
        if resolved.routes.len() == 0 {
            return self.fail("no resolved target candidates".to_owned());
        }
        let route = resolved.routes[0].clone();
        let review = PrepAction::Review {
            end_target: route.end_target.clone(),
            command: self.command.clone(),
        };
        let ghost reviewed = review@;
        self.phase = PrepPhase::Reviewing(route);
        match resolved.warning {
            Some(w) => {
                let r = two(PrepAction::Send(ServerEvent::Info { message: w }), review);
                assert(lists::views(r@) == seq![
                    PrepActionView::Send(EventView::Info(w@)),
                    reviewed,
                ]);
                r
            },
            None => {
                let r = one(review);
                assert(lists::views(r@) == seq![reviewed]);
                r
            },
        }
    }

    fn on_reviewed(
        &mut self,
        route: Route,
        reviewed: Result<Option<ReviewDecision>, String>,
    ) -> (r: Vec<PrepAction>)
        ensures
            final(self).rules() == old(self).rules(),
            (final(self).phase(), lists::views(r@)) == prep_step(
                old(self).rules(),
                PrepPhaseView::Reviewing(route@),
                PrepEvent::Reviewed(reviewed),
            ),
    {
        match reviewed {
            Ok(None) => self.proceed(route),
            Ok(Some(d)) => {
                let question = d.reason.clone();
                let mut denial = "command denied: ".to_owned();
                denial.append(d.reason.as_str());
                let told = ServerEvent::ReviewResult {
                    execution_id: self.id,
                    risk_level: d.risk_level,
                    action: d.action,
                    reason: d.reason,
                    matched_whitelist_reason: d.matched_whitelist_reason,
                };
                self.judge(route, d.action, told, question, denial)
            },
            Err(e) => {
                let mut reason = "review failed: ".to_owned();
                reason.append(e.as_str());
                let mut denial = "review failed and policy is deny: ".to_owned();
                denial.append(e.as_str());
                let action = self.on_failure;
                let told = ServerEvent::ReviewResult {
                    execution_id: self.id,
                    risk_level: RiskLevel::Dangerous,
                    action,
                    reason,
                    matched_whitelist_reason: None,
                };
                self.judge(route, action, told, "review service failed".to_owned(), denial)
            },
        }
    }

    fn on_message(&mut self, route: Route, message: ClientMessage) -> (r: Vec<PrepAction>)
        ensures
            final(self).rules() == old(self).rules(),
            (final(self).phase(), lists::views(r@)) == prep_step(
                old(self).rules(),
                PrepPhaseView::Confirming(route@),
                PrepEvent::Message(message),
            ),
    {
        match message {
            ClientMessage::Confirm { execution_id, allow } => match parse_execution_id(
                execution_id.as_str(),
            ) {
                Err(e) => self.fail(e),
                Ok(id) => if id == self.id && allow {
                    self.proceed(route)
                } else {
                    self.fail("execution not confirmed".to_owned())
                },
            },
            _ => self.fail("unexpected request while awaiting confirmation".to_owned()),
        }
    }

    /// Take one event.
    pub fn on_event(&mut self, event: PrepEvent) -> (r: Vec<PrepAction>)
        ensures
            final(self).rules() == old(self).rules(),
            (final(self).phase(), lists::views(r@)) == prep_step(
                old(self).rules(),
                old(self).phase(),
                event,
            ),
    {
        let nothing: Vec<PrepAction> = Vec::new();
        assert(lists::views(nothing@) == Seq::<PrepActionView>::empty());
        let mut phase = PrepPhase::Over;
        std::mem::swap(&mut self.phase, &mut phase);
        match (phase, event) {
            (PrepPhase::Over, _) => nothing,
            (_, PrepEvent::SendFailed) => self.fail("client receive stream closed".to_owned()),
            (PrepPhase::Resolving, PrepEvent::Resolved(resolved)) => self.on_resolved(resolved),
            (PrepPhase::Reviewing(route), PrepEvent::Reviewed(reviewed)) => self.on_reviewed(
                route,
                reviewed,
            ),
            (PrepPhase::Confirming(route), PrepEvent::Message(message)) => self.on_message(
                route,
                message,
            ),
            (PrepPhase::Confirming(_), PrepEvent::Disconnected) => self.fail(
                "client disconnected before confirmation".to_owned(),
            ),
            (PrepPhase::Confirming(_), PrepEvent::StreamFailed(e)) => self.fail(e),
            (PrepPhase::Allowed(route), PrepEvent::Sent) => self.proceed(route),
            (PrepPhase::Denied, PrepEvent::Sent) => {
                let r = one(PrepAction::Finish);
                assert(lists::views(r@) == seq![PrepActionView::Finish]);
                r
            },
            (phase, _) => {
                self.phase = phase;
                nothing
            },
        }
    }
}

// ---------------------------------------------------------------------------
// What holds of every preparation
// ---------------------------------------------------------------------------
/// Where a sequence of events leads a preparation, and the actions on the way.
pub open spec fn prep_run(rules: PrepRules, events: Seq<PrepEvent>) -> (
    PrepPhaseView,
    Seq<PrepActionView>,
)
    decreases events.len(),
{
    if events.len() == 0 {
        (PrepPhaseView::Resolving, Seq::empty())
    } else {
        let (phase, actions) = prep_run(rules, events.drop_last());
        let (next, more) = prep_step(rules, phase, events.last());
        (next, actions + more)
    }
}

/// What a review's outcome means for the command. One that was not reviewed is allowed.
pub open spec fn verdict(rules: PrepRules, event: PrepEvent) -> Option<ReviewAction> {
    match event {
        PrepEvent::Reviewed(Ok(None)) => Some(ReviewAction::Allow),
        PrepEvent::Reviewed(Ok(Some(d))) => Some(d.action),
        PrepEvent::Reviewed(Err(_)) => Some(rules.on_failure),
        _ => None,
    }
}

/// The event is the client's confirmation of this execution.
pub open spec fn is_confirmation(rules: PrepRules, event: PrepEvent) -> bool {
    event matches PrepEvent::Message(m) && confirms(m, rules.id)
}

/// The review asked for a confirmation, and the client gave it afterwards.
pub open spec fn confirmed(rules: PrepRules, events: Seq<PrepEvent>, i: int, j: int) -> bool {
    0 <= i < j < events.len() && verdict(rules, events[i]) == Some(ReviewAction::Confirm)
        && is_confirmation(rules, events[j])
}

/// The command may run: the review let it pass, or the client confirmed it.
pub open spec fn permitted(rules: PrepRules, events: Seq<PrepEvent>) -> bool {
    ||| exists|i: int|
        0 <= i < events.len() && (#[trigger] verdict(rules, events[i]) == Some(ReviewAction::Allow)
            || verdict(rules, events[i]) == Some(ReviewAction::Warn))
    ||| exists|i: int, j: int| confirmed(rules, events, i, j)
}

/// The action ends a preparation.
pub open spec fn is_last(action: PrepActionView) -> bool {
    action is Proceed || action is Finish || action is Fail
}

proof fn lemma_permitted_grows(rules: PrepRules, events: Seq<PrepEvent>)
    requires
        events.len() > 0,
        permitted(rules, events.drop_last()),
    ensures
        permitted(rules, events),
{
    let before = events.drop_last();
    if exists|i: int|
        0 <= i < before.len() && (#[trigger] verdict(rules, before[i]) == Some(ReviewAction::Allow)
            || verdict(rules, before[i]) == Some(ReviewAction::Warn)) {
        let i = choose|i: int|
            0 <= i < before.len() && (#[trigger] verdict(rules, before[i]) == Some(
                ReviewAction::Allow,
            ) || verdict(rules, before[i]) == Some(ReviewAction::Warn));
        assert(before[i] == events[i]);
        assert(verdict(rules, events[i]) == verdict(rules, before[i]));
    } else {
        let (i, j) = choose|i: int, j: int| confirmed(rules, before, i, j);
        assert(before[i] == events[i] && before[j] == events[j]);
        assert(confirmed(rules, events, i, j));
    }
}

proof fn lemma_prep_run(rules: PrepRules, events: Seq<PrepEvent>)
    ensures
        ({
            let (phase, actions) = prep_run(rules, events);
            &&& phase is Confirming ==> exists|i: int|
                0 <= i < events.len() && #[trigger] verdict(rules, events[i]) == Some(
                    ReviewAction::Confirm,
                )
            &&& phase is Allowed ==> permitted(rules, events)
            &&& forall|k: int|
                0 <= k < actions.len() && #[trigger] actions[k] is Proceed ==> permitted(
                    rules,
                    events,
                )
            &&& forall|k: int|
                0 <= k < actions.len() - 1 ==> !is_last(#[trigger] actions[k])
            &&& (phase is Over) == (actions.len() > 0 && is_last(actions.last()))
        }),
    decreases events.len(),
{
    if events.len() > 0 {
        let before = events.drop_last();
        let (phase, actions) = prep_run(rules, before);
        let (next, more) = prep_step(rules, phase, events.last());
        let n = events.len() - 1;
        lemma_prep_run(rules, before);
        assert(events[n] == events.last());
        if phase is Confirming {
            let i = choose|i: int|
                0 <= i < before.len() && #[trigger] verdict(rules, before[i]) == Some(
                    ReviewAction::Confirm,
                );
            assert(events[i] == before[i]);
            assert(verdict(rules, events[i]) == Some(ReviewAction::Confirm));
            if is_confirmation(rules, events[n]) {
                assert(confirmed(rules, events, i, n));
            }
        }
        if next is Confirming && phase is Reviewing {
            assert(verdict(rules, events[n]) == Some(ReviewAction::Confirm));
        }
        if phase is Allowed {
            lemma_permitted_grows(rules, events);
        }
        if next is Allowed && phase is Reviewing {
            assert(verdict(rules, events[n]) is Some);
        }
        assert forall|k: int| 0 <= k < (actions + more).len() && #[trigger] (actions
            + more)[k] is Proceed implies permitted(rules, events) by {
            if k < actions.len() {
                assert(actions[k] is Proceed);
                lemma_permitted_grows(rules, events);
            } else {
                assert(more[k - actions.len()] is Proceed);
                if phase is Reviewing {
                    assert(verdict(rules, events[n]) is Some);
                }
            }
        }
        assert forall|k: int| 0 <= k < (actions + more).len() - 1 implies !is_last(
            #[trigger] (actions + more)[k],
        ) by {
            if k < actions.len() {
                if more.len() > 0 {
                    assert(!(phase is Over));
                    if k == actions.len() - 1 {
                        assert(actions.last() == actions[k]);
                    }
                }
            } else {
                assert(more[k - actions.len()] == (actions + more)[k]);
            }
        }
        if more.len() > 0 {
            assert((actions + more).last() == more.last());
        } else {
            assert(actions + more == actions);
        }
    }
}

/// No command runs without permission: where a preparation proceeds, the review let the
/// command pass, or asked for a confirmation that the client then gave for this very
/// execution.
pub proof fn law_no_command_without_permission(rules: PrepRules, events: Seq<PrepEvent>)
    ensures
        forall|k: int|
            0 <= k < prep_run(rules, events).1.len() && (
            #[trigger] prep_run(rules, events).1[k]) is Proceed ==> permitted(rules, events),
{
    lemma_prep_run(rules, events);
}

/// A preparation ends once: nothing is done after the command is let go, the request is
/// answered or the stream fails.
pub proof fn law_preparation_ends_once(rules: PrepRules, events: Seq<PrepEvent>)
    ensures
        forall|k: int|
            0 <= k < prep_run(rules, events).1.len() - 1 ==> !is_last(
                #[trigger] prep_run(rules, events).1[k],
            ),
{
    lemma_prep_run(rules, events);
}

// ---------------------------------------------------------------------------
// A running command
// ---------------------------------------------------------------------------
/// What happens while a command runs.
pub enum RunEvent {
    /// The command printed something.
    Output(ServerEvent),
    /// An event could not be sent, or the client stopped to listen.
    ClientGone,
    Message(ClientMessage),
    /// The client's stream ended or failed.
    InboundClosed,
    Timeout,
    /// The command ended, with its code or an error.
    Exited(Result<i32, String>),
    /// The task that drives the command broke.
    Broken(String),
}

/// What to do while a command runs, in order.
pub enum RunAction {
    /// Send the event. If that fails, say so.
    Forward(ServerEvent),
    /// Send the event, whatever comes of it.
    TrySend(ServerEvent),
    ForwardStdin(Vec<u8>),
    /// The command sees the end of its input.
    CloseStdin,
    Abort,
    /// Forward what the command has printed so far. If that fails, the request is over and
    /// the actions behind it are dropped.
    Drain,
    Finish,
    Fail(String),
}

/// The mathematical counterpart of [`RunAction`].
pub enum RunActionView {
    Forward(EventView),
    TrySend(EventView),
    ForwardStdin(Seq<u8>),
    CloseStdin,
    Abort,
    Drain,
    Finish,
    Fail(Seq<char>),
}

impl View for RunAction {
    type V = RunActionView;

    open spec fn view(&self) -> RunActionView {
        match self {
            RunAction::Forward(e) => RunActionView::Forward(e@),
            RunAction::TrySend(e) => RunActionView::TrySend(e@),
            RunAction::ForwardStdin(d) => RunActionView::ForwardStdin(d@),
            RunAction::CloseStdin => RunActionView::CloseStdin,
            RunAction::Abort => RunActionView::Abort,
            RunAction::Drain => RunActionView::Drain,
            RunAction::Finish => RunActionView::Finish,
            RunAction::Fail(e) => RunActionView::Fail(e@),
        }
    }
}

/// The exit code of a command that ran out of time.
pub const TIMEOUT_EXIT_CODE: i32 = 124;

/// A command that runs for a client.
pub struct ExecRun {
    /// The client wants its input forwarded.
    pub stdin_enabled: bool,
    pub stdin_open: bool,
    /// The client's stream is still read.
    pub inbound_open: bool,
    pub over: bool,
}

/// What an event does to a running command.
pub open spec fn run_step(run: ExecRun, event: RunEvent) -> (ExecRun, Seq<RunActionView>) {
    let idle = (run, Seq::<RunActionView>::empty());
    let ended = ExecRun { stdin_open: false, over: true, ..run };
    if run.over {
        idle
    } else {
        match event {
            RunEvent::Output(e) => (run, seq![RunActionView::Forward(e@)]),
            RunEvent::ClientGone => (
                ended,
                seq![RunActionView::CloseStdin, RunActionView::Abort, RunActionView::Finish],
            ),
            RunEvent::Message(ClientMessage::StdinData(data)) => if !run.inbound_open
                || !run.stdin_enabled {
                idle
            } else if data@.len() == 0 {
                (ExecRun { stdin_open: false, ..run }, seq![RunActionView::CloseStdin])
            } else if run.stdin_open {
                (run, seq![RunActionView::ForwardStdin(data@)])
            } else {
                idle
            },
            RunEvent::Message(_) => idle,
            RunEvent::InboundClosed => (
                ExecRun { stdin_open: false, inbound_open: false, ..run },
                seq![RunActionView::CloseStdin],
            ),
            RunEvent::Timeout => (
                ended,
                seq![
                    RunActionView::CloseStdin,
                    RunActionView::Abort,
                    RunActionView::Drain,
                    RunActionView::TrySend(EventView::ExitStatus(TIMEOUT_EXIT_CODE as int)),
                    RunActionView::Finish,
                ],
            ),
            RunEvent::Exited(Ok(code)) => (
                ended,
                seq![
                    RunActionView::Drain,
                    RunActionView::TrySend(EventView::ExitStatus(code as int)),
                    RunActionView::Finish,
                ],
            ),
            RunEvent::Exited(Err(e)) => (
                ended,
                seq![RunActionView::TrySend(EventView::Error(e@)), RunActionView::Finish],
            ),
            RunEvent::Broken(e) => (ended, seq![RunActionView::Fail(e@)]),
        }
    }
}

impl ExecRun {
    pub fn new(stdin: bool) -> (r: Self)
        ensures
            r == (ExecRun {
                stdin_enabled: stdin,
                stdin_open: stdin,
                inbound_open: true,
                over: false,
            }),
    {
        ExecRun { stdin_enabled: stdin, stdin_open: stdin, inbound_open: true, over: false }
    }

    fn end(&mut self)
        ensures
            *final(self) == (ExecRun { stdin_open: false, over: true, ..*old(self) }),
    {
        self.stdin_open = false;
        self.over = true;
    }

    /// Take one event.
    pub fn on_event(&mut self, event: RunEvent) -> (r: Vec<RunAction>)
        ensures
            (*final(self), lists::views(r@)) == run_step(*old(self), event),
    {
        let nothing: Vec<RunAction> = Vec::new();
        assert(lists::views(nothing@) == Seq::<RunActionView>::empty());
        if self.over {
            return nothing;
        }
        let ghost wanted = run_step(*self, event).1;
        let r = match event {
            RunEvent::Output(e) => one(RunAction::Forward(e)),
            RunEvent::ClientGone => {
                self.end();
                three(RunAction::CloseStdin, RunAction::Abort, RunAction::Finish)
            },
            RunEvent::Message(ClientMessage::StdinData(data)) => if !self.inbound_open
                || !self.stdin_enabled {
                nothing
            } else if data.len() == 0 {
                self.stdin_open = false;
                one(RunAction::CloseStdin)
            } else if self.stdin_open {
                one(RunAction::ForwardStdin(data))
            } else {
                nothing
            },
            RunEvent::Message(_) => nothing,
            RunEvent::InboundClosed => {
                self.stdin_open = false;
                self.inbound_open = false;
                one(RunAction::CloseStdin)
            },
            RunEvent::Timeout => {
                self.end();
                five(
                    RunAction::CloseStdin,
                    RunAction::Abort,
                    RunAction::Drain,
                    RunAction::TrySend(ServerEvent::ExitStatus { code: TIMEOUT_EXIT_CODE }),
                    RunAction::Finish,
                )
            },
            RunEvent::Exited(Ok(code)) => {
                self.end();
                three(
                    RunAction::Drain,
                    RunAction::TrySend(ServerEvent::ExitStatus { code }),
                    RunAction::Finish,
                )
            },
            RunEvent::Exited(Err(e)) => {
                self.end();
                two(RunAction::TrySend(ServerEvent::Error { message: e }), RunAction::Finish)
            },
            RunEvent::Broken(e) => {
                self.end();
                one(RunAction::Fail(e))
            },
        };
        assert(lists::views(r@) =~= wanted);
        r
    }
}

/// Where a sequence of events leads a running command, and the actions on the way.
pub open spec fn run_all(run: ExecRun, events: Seq<RunEvent>) -> (ExecRun, Seq<RunActionView>)
    decreases events.len(),
{
    if events.len() == 0 {
        (run, Seq::empty())
    } else {
        let (mid, actions) = run_all(run, events.drop_last());
        let (next, more) = run_step(mid, events.last());
        (next, actions + more)
    }
}

proof fn lemma_run_all(run: ExecRun, events: Seq<RunEvent>)
    requires
        run.stdin_open ==> run.stdin_enabled,
        !run.over,
    ensures
        ({
            let (next, actions) = run_all(run, events);
            &&& next.stdin_enabled == run.stdin_enabled
            &&& next.stdin_open ==> run.stdin_open && forall|k: int|
                0 <= k < actions.len() ==> !(#[trigger] actions[k] is CloseStdin)
            &&& forall|k: int, l: int|
                0 <= k < l < actions.len() && #[trigger] actions[k] is CloseStdin ==> !(
                #[trigger] actions[l] is ForwardStdin)
            &&& !run.stdin_enabled ==> forall|k: int|
                0 <= k < actions.len() ==> !(#[trigger] actions[k] is ForwardStdin)
            &&& forall|k: int|
                0 <= k < actions.len() - 1 ==> !(#[trigger] actions[k] is Finish)
                    && !(actions[k] is Fail)
            &&& next.over == (actions.len() > 0 && (actions.last() is Finish
                || actions.last() is Fail))
        }),
    decreases events.len(),
{
    if events.len() > 0 {
        let before = events.drop_last();
        let (mid, actions) = run_all(run, before);
        let (next, more) = run_step(mid, events.last());
        let all = actions + more;
        lemma_run_all(run, before);
        assert(forall|k: int| 0 <= k < actions.len() ==> #[trigger] all[k] == actions[k]);
        assert(forall|k: int|
            actions.len() <= k < all.len() ==> #[trigger] all[k] == more[k - actions.len()]);
        assert forall|k: int, l: int| 0 <= k < l < all.len() && #[trigger] all[k] is CloseStdin
            && #[trigger] all[l] is ForwardStdin implies false by {
            if l >= actions.len() {
                assert(more[l - actions.len()] is ForwardStdin);
                assert(mid.stdin_open);
                assert(more.len() == 1);
                assert(k < actions.len());
                assert(actions[k] is CloseStdin);
            } else {
                assert(actions[k] is CloseStdin && actions[l] is ForwardStdin);
            }
        }
        if more.len() > 0 {
            assert(all.last() == more.last());
            assert(!mid.over);
            if actions.len() > 0 {
                assert(actions.last() == actions[actions.len() - 1]);
            }
        } else {
            assert(all == actions);
        }
    }
}

/// Input that was closed stays closed: nothing is forwarded to the command behind the end of
/// its input, and nothing at all where the client did not ask for input.
pub proof fn law_closed_input_stays_closed(stdin: bool, events: Seq<RunEvent>)
    ensures
        ({
            let run = ExecRun {
                stdin_enabled: stdin,
                stdin_open: stdin,
                inbound_open: true,
                over: false,
            };
            let actions = run_all(run, events).1;
            &&& forall|k: int, l: int|
                0 <= k < l < actions.len() && #[trigger] actions[k] is CloseStdin ==> !(
                #[trigger] actions[l] is ForwardStdin)
            &&& !stdin ==> forall|k: int|
                0 <= k < actions.len() ==> !(#[trigger] actions[k] is ForwardStdin)
        }),
{
    lemma_run_all(
        ExecRun { stdin_enabled: stdin, stdin_open: stdin, inbound_open: true, over: false },
        events,
    );
}

/// A run ends once: nothing is done behind its end.
pub proof fn law_run_ends_once(stdin: bool, events: Seq<RunEvent>)
    ensures
        ({
            let run = ExecRun {
                stdin_enabled: stdin,
                stdin_open: stdin,
                inbound_open: true,
                over: false,
            };
            let actions = run_all(run, events).1;
            forall|k: int|
                0 <= k < actions.len() - 1 ==> !(#[trigger] actions[k] is Finish)
                    && !(actions[k] is Fail)
        }),
{
    lemma_run_all(
        ExecRun { stdin_enabled: stdin, stdin_open: stdin, inbound_open: true, over: false },
        events,
    );
}

/// The event ends a run.
pub open spec fn ends_run() -> spec_fn(RunEvent) -> bool {
    |e: RunEvent|
        e is ClientGone || e is Timeout || e is Exited || e is Broken
}

/// What an event says that the command printed.
pub open spec fn put_out() -> spec_fn(RunEvent) -> Option<EventView> {
    |e: RunEvent|
        match e {
            RunEvent::Output(x) => Some(x@),
            _ => None,
        }
}

/// What an action sends on of the command's output.
pub open spec fn forwarded() -> spec_fn(RunActionView) -> Option<EventView> {
    |a: RunActionView|
        match a {
            RunActionView::Forward(x) => Some(x),
            _ => None,
        }
}

/// What an action does about the end of a run.
pub open spec fn concluding() -> spec_fn(RunActionView) -> Option<RunActionView> {
    |a: RunActionView|
        if a is Forward || a is ForwardStdin || a is CloseStdin {
            None
        } else {
            Some(a)
        }
}

/// How a run is concluded: a command that ended has its output drained before its code is
/// told, one that could not be run to its end has its error told, one that ran out of time is
/// aborted and told to have failed with the code of a timeout, and one whose client is gone
/// is aborted.
pub open spec fn conclusion(end: Option<RunEvent>) -> Seq<RunActionView> {
    match end {
        Some(RunEvent::Exited(Ok(code))) => seq![
            RunActionView::Drain,
            RunActionView::TrySend(EventView::ExitStatus(code as int)),
            RunActionView::Finish,
        ],
        Some(RunEvent::Exited(Err(e))) => seq![
            RunActionView::TrySend(EventView::Error(e@)),
            RunActionView::Finish,
        ],
        Some(RunEvent::Timeout) => seq![
            RunActionView::Abort,
            RunActionView::Drain,
            RunActionView::TrySend(EventView::ExitStatus(124)),
            RunActionView::Finish,
        ],
        Some(RunEvent::ClientGone) => seq![RunActionView::Abort, RunActionView::Finish],
        Some(RunEvent::Broken(e)) => seq![RunActionView::Fail(e@)],
        _ => Seq::empty(),
    }
}

proof fn lemma_step_tells(run: ExecRun, event: RunEvent)
    ensures
        ({
            let more = run_step(run, event).1;
            &&& lists::picked(more, forwarded()) == if run.over {
                Seq::empty()
            } else {
                lists::as_list(put_out()(event))
            }
            &&& lists::picked(more, concluding()) == if run.over || !ends_run()(event) {
                Seq::empty()
            } else {
                conclusion(Some(event))
            }
        }),
{
    let more = run_step(run, event).1;
    lists::lemma_picked_few(more, forwarded());
    lists::lemma_picked_few(more, concluding());
    assert(lists::picked(more, forwarded()) =~= if run.over {
        Seq::empty()
    } else {
        lists::as_list(put_out()(event))
    });
    assert(lists::picked(more, concluding()) =~= if run.over || !ends_run()(event) {
        Seq::empty()
    } else {
        conclusion(Some(event))
    });
}

/// Whatever the events of a run are, what is forwarded to the client is exactly what the
/// command put out before the run's end, every kind of it, unchanged and in order; and the
/// first event that ends the run alone decides what the client is told at the end.
pub proof fn law_run_tells_all(stdin: bool, events: Seq<RunEvent>)
    ensures
        ({
            let run = ExecRun {
                stdin_enabled: stdin,
                stdin_open: stdin,
                inbound_open: true,
                over: false,
            };
            let (next, actions) = run_all(run, events);
            let end = lists::first_end(events, ends_run());
            &&& next.over == end is Some
            &&& lists::picked(actions, forwarded()) == lists::picked(
                lists::before_end(events, ends_run()),
                put_out(),
            )
            &&& lists::picked(actions, concluding()) == conclusion(end)
        }),
    decreases events.len(),
{
    let run = ExecRun {
        stdin_enabled: stdin,
        stdin_open: stdin,
        inbound_open: true,
        over: false,
    };
    lists::lemma_before_end(events, ends_run());
    if events.len() > 0 {
        let before = events.drop_last();
        let last = events.last();
        let (mid, actions) = run_all(run, before);
        let more = run_step(mid, last).1;
        law_run_tells_all(stdin, before);
        lists::lemma_before_end(before, ends_run());
        lists::lemma_picked_add(actions, more, forwarded());
        lists::lemma_picked_add(actions, more, concluding());
        lemma_step_tells(mid, last);
        let kept = lists::before_end(before, ends_run());
        if mid.over {
            assert(events[kept.len() as int] == before[kept.len() as int]);
        } else {
            assert(events[before.len() as int] == last);
            assert(kept.push(last).drop_last() =~= kept);
        }
        assert(lists::picked(actions + more, forwarded()) =~= lists::picked(
            lists::before_end(events, ends_run()),
            put_out(),
        ));
        assert(lists::picked(actions + more, concluding()) =~= conclusion(
            lists::first_end(events, ends_run()),
        ));
    }
}

/// The event ends the input of a command: the run's end, the end of the client's stream, or
/// its empty message.
pub open spec fn ends_input() -> spec_fn(RunEvent) -> bool {
    |e: RunEvent|
        ends_run()(e) || e is InboundClosed || (e matches RunEvent::Message(
            ClientMessage::StdinData(d),
        ) && d@.len() == 0)
}

/// The input that an event brings.
pub open spec fn typed() -> spec_fn(RunEvent) -> Option<Seq<u8>> {
    |e: RunEvent|
        match e {
            RunEvent::Message(ClientMessage::StdinData(d)) => Some(d@),
            _ => None,
        }
}

/// The input that an action hands to the command.
pub open spec fn input_forwarded() -> spec_fn(RunActionView) -> Option<Seq<u8>> {
    |a: RunActionView|
        match a {
            RunActionView::ForwardStdin(d) => Some(d),
            _ => None,
        }
}

/// A command whose client asked for input gets exactly what the client sends before the end
/// of its input, piece by piece and in order; any other command gets none.
pub proof fn law_command_gets_its_input(stdin: bool, events: Seq<RunEvent>)
    ensures
        ({
            let run = ExecRun {
                stdin_enabled: stdin,
                stdin_open: stdin,
                inbound_open: true,
                over: false,
            };
            let (next, actions) = run_all(run, events);
            let before = lists::before_end(events, ends_input());
            &&& next.stdin_open == (stdin && before.len() == events.len())
            &&& lists::picked(actions, input_forwarded()) == if stdin {
                lists::picked(before, typed())
            } else {
                Seq::empty()
            }
        }),
    decreases events.len(),
{
    let run = ExecRun {
        stdin_enabled: stdin,
        stdin_open: stdin,
        inbound_open: true,
        over: false,
    };
    lists::lemma_before_end(events, ends_input());
    if events.len() > 0 {
        let before = events.drop_last();
        let last = events.last();
        let (mid, actions) = run_all(run, before);
        let more = run_step(mid, last).1;
        law_command_gets_its_input(stdin, before);
        lists::lemma_before_end(before, ends_input());
        lemma_run_all(run, before);
        lemma_open_run(run, before);
        lists::lemma_picked_add(actions, more, input_forwarded());
        lists::lemma_picked_few(more, input_forwarded());
        let kept = lists::before_end(before, ends_input());
        assert(kept.push(last).drop_last() =~= kept);
        if stdin {
            assert(lists::picked(actions + more, input_forwarded()) =~= lists::picked(
                lists::before_end(events, ends_input()),
                typed(),
            ));
        } else {
            assert(lists::picked(actions + more, input_forwarded()) =~= Seq::<Seq<u8>>::empty());
        }
    }
}

proof fn lemma_open_run(run: ExecRun, events: Seq<RunEvent>)
    requires
        run.inbound_open,
        !run.over,
    ensures
        ({
            let next = run_all(run, events).0;
            next.stdin_open ==> next.inbound_open && !next.over
        }),
    decreases events.len(),
{
    if events.len() > 0 {
        lemma_open_run(run, events.drop_last());
    }
}

// ---------------------------------------------------------------------------
// An interactive session
// ---------------------------------------------------------------------------
/// What happens in an interactive session.
pub enum InteractiveEvent {
    /// Output of the remote side; none at its end.
    Stdout(Option<Vec<u8>>),
    /// Output could not be sent to the client.
    SendFailed,
    Message(ClientMessage),
    /// The remote side takes no more input.
    InputGone,
    /// The client's stream ended or failed.
    InboundClosed,
    /// The session ended, with its code if one came.
    Exited(Option<i32>),
}

/// What to do in an interactive session, in order.
pub enum InteractiveAction {
    /// Send the output. If that fails, say so.
    Forward(Vec<u8>),
    /// Send the input. If that fails, say so.
    WriteStdin(Vec<u8>),
    Resize { cols: u32, rows: u32 },
    /// Wait for the exit code only.
    AwaitExit,
    /// Forward the output so far. If that fails, the actions behind it are dropped.
    Drain,
    TrySend(ServerEvent),
    Abort,
    Finish,
}

/// The mathematical counterpart of [`InteractiveAction`].
pub enum InteractiveActionView {
    Forward(Seq<u8>),
    WriteStdin(Seq<u8>),
    Resize { cols: int, rows: int },
    AwaitExit,
    Drain,
    TrySend(EventView),
    Abort,
    Finish,
}

impl View for InteractiveAction {
    type V = InteractiveActionView;

    open spec fn view(&self) -> InteractiveActionView {
        match self {
            InteractiveAction::Forward(d) => InteractiveActionView::Forward(d@),
            InteractiveAction::WriteStdin(d) => InteractiveActionView::WriteStdin(d@),
            InteractiveAction::Resize { cols, rows } => InteractiveActionView::Resize {
                cols: *cols as int,
                rows: *rows as int,
            },
            InteractiveAction::AwaitExit => InteractiveActionView::AwaitExit,
            InteractiveAction::Drain => InteractiveActionView::Drain,
            InteractiveAction::TrySend(e) => InteractiveActionView::TrySend(e@),
            InteractiveAction::Abort => InteractiveActionView::Abort,
            InteractiveAction::Finish => InteractiveActionView::Finish,
        }
    }
}

/// Where an interactive session stands.
#[derive(Clone, Copy, Debug, PartialEq, Eq, Structural)]
pub enum InteractivePhase {
    Running,
    /// The output ended; the exit code follows.
    AwaitingExit,
    Over,
}

/// What an event does to an interactive session. The exit code is sent even where the output
/// ends before it; a session that ends without one counts as a success.
pub open spec fn interactive_step(phase: InteractivePhase, event: InteractiveEvent) -> (
    InteractivePhase,
    Seq<InteractiveActionView>,
) {
    let idle = (phase, Seq::<InteractiveActionView>::empty());
    match (phase, event) {
        (InteractivePhase::Over, _) => idle,
        (_, InteractiveEvent::Exited(code)) => (
            InteractivePhase::Over,
            seq![
                InteractiveActionView::Drain,
                InteractiveActionView::TrySend(
                    EventView::ExitStatus(
                        match code {
                            Some(c) => c as int,
                            None => 0,
                        },
                    ),
                ),
                InteractiveActionView::Finish,
            ],
        ),
        (InteractivePhase::AwaitingExit, _) => idle,
        (_, InteractiveEvent::Stdout(Some(data))) => (
            phase,
            seq![InteractiveActionView::Forward(data@)],
        ),
        (_, InteractiveEvent::Stdout(None)) => (
            InteractivePhase::AwaitingExit,
            seq![InteractiveActionView::AwaitExit],
        ),
        (_, InteractiveEvent::SendFailed) => (
            InteractivePhase::Over,
            seq![InteractiveActionView::Abort, InteractiveActionView::Finish],
        ),
        (_, InteractiveEvent::Message(ClientMessage::StdinData(data))) => (
            phase,
            seq![InteractiveActionView::WriteStdin(data@)],
        ),
        (_, InteractiveEvent::Message(ClientMessage::WindowResize { cols, rows })) => (
            phase,
            seq![InteractiveActionView::Resize { cols: cols as int, rows: rows as int }],
        ),
        (_, InteractiveEvent::Message(_)) => idle,
        (_, InteractiveEvent::InputGone) => (
            InteractivePhase::Over,
            seq![InteractiveActionView::Finish],
        ),
        (_, InteractiveEvent::InboundClosed) => (
            InteractivePhase::Over,
            seq![InteractiveActionView::Abort, InteractiveActionView::Finish],
        ),
    }
}

/// An interactive session of a client.
pub struct InteractiveRun {
    pub phase: InteractivePhase,
}

impl InteractiveRun {
    pub fn new() -> (r: Self)
        ensures
            r.phase is Running,
    {
        InteractiveRun { phase: InteractivePhase::Running }
    }

    /// Take one event.
    pub fn on_event(&mut self, event: InteractiveEvent) -> (r: Vec<InteractiveAction>)
        ensures
            (final(self).phase, lists::views(r@)) == interactive_step(old(self).phase, event),
    {
        let nothing: Vec<InteractiveAction> = Vec::new();
        assert(lists::views(nothing@) == Seq::<InteractiveActionView>::empty());
        let ghost wanted = interactive_step(self.phase, event).1;
        let r = match (self.phase, event) {
            (InteractivePhase::Over, _) => nothing,
            (_, InteractiveEvent::Exited(code)) => {
                self.phase = InteractivePhase::Over;
                let code: i32 = match code {
                    Some(c) => c,
                    None => 0,
                };
                three(
                    InteractiveAction::Drain,
                    InteractiveAction::TrySend(ServerEvent::ExitStatus { code }),
                    InteractiveAction::Finish,
                )
            },
            (InteractivePhase::AwaitingExit, _) => nothing,
            (_, InteractiveEvent::Stdout(Some(data))) => one(InteractiveAction::Forward(data)),
            (_, InteractiveEvent::Stdout(None)) => {
                self.phase = InteractivePhase::AwaitingExit;
                one(InteractiveAction::AwaitExit)
            },
            (_, InteractiveEvent::SendFailed) => {
                self.phase = InteractivePhase::Over;
                two(InteractiveAction::Abort, InteractiveAction::Finish)
            },
            (_, InteractiveEvent::Message(ClientMessage::StdinData(data))) => one(
                InteractiveAction::WriteStdin(data),
            ),
            (_, InteractiveEvent::Message(ClientMessage::WindowResize { cols, rows })) => one(
                InteractiveAction::Resize { cols, rows },
            ),
            (_, InteractiveEvent::Message(_)) => nothing,
            (_, InteractiveEvent::InputGone) => {
                self.phase = InteractivePhase::Over;
                one(InteractiveAction::Finish)
            },
            (_, InteractiveEvent::InboundClosed) => {
                self.phase = InteractivePhase::Over;
                two(InteractiveAction::Abort, InteractiveAction::Finish)
            },
        };
        assert(lists::views(r@) =~= wanted);
        r
    }
}

/// The end of the output is not the end of the session: whatever else happens, what comes
/// next is the exit code, which is sent.
pub proof fn law_exit_code_follows_output(event: InteractiveEvent)
    ensures
        interactive_step(InteractivePhase::Running, InteractiveEvent::Stdout(None)).0
            == InteractivePhase::AwaitingExit,
        event matches InteractiveEvent::Exited(code) ==> interactive_step(
            InteractivePhase::AwaitingExit,
            event,
        ).1[1] == InteractiveActionView::TrySend(
            EventView::ExitStatus(
                match code {
                    Some(c) => c as int,
                    None => 0,
                },
            ),
        ),
        !(event is Exited) ==> interactive_step(InteractivePhase::AwaitingExit, event) == (
            InteractivePhase::AwaitingExit,
            Seq::<InteractiveActionView>::empty(),
        ),
{
}

/// The event ends an interactive session.
pub open spec fn ends_session() -> spec_fn(InteractiveEvent) -> bool {
    |e: InteractiveEvent| e is Exited || e is SendFailed || e is InputGone || e is InboundClosed
}

/// The event ends the exchange of an interactive session: its end, or that of its output.
pub open spec fn ends_exchange() -> spec_fn(InteractiveEvent) -> bool {
    |e: InteractiveEvent| ends_session()(e) || e matches InteractiveEvent::Stdout(None)
}

/// What an event or an action exchanges between the client and the remote side.
pub enum Exchange {
    Shown(Seq<u8>),
    Typed(Seq<u8>),
    Resized { cols: int, rows: int },
}

pub open spec fn exchange_of() -> spec_fn(InteractiveEvent) -> Option<Exchange> {
    |e: InteractiveEvent|
        match e {
            InteractiveEvent::Stdout(Some(d)) => Some(Exchange::Shown(d@)),
            InteractiveEvent::Message(ClientMessage::StdinData(d)) => Some(Exchange::Typed(d@)),
            InteractiveEvent::Message(ClientMessage::WindowResize { cols, rows }) => Some(
                Exchange::Resized { cols: cols as int, rows: rows as int },
            ),
            _ => None,
        }
}

pub open spec fn exchanged_by() -> spec_fn(InteractiveActionView) -> Option<Exchange> {
    |a: InteractiveActionView|
        match a {
            InteractiveActionView::Forward(d) => Some(Exchange::Shown(d)),
            InteractiveActionView::WriteStdin(d) => Some(Exchange::Typed(d)),
            InteractiveActionView::Resize { cols, rows } => Some(Exchange::Resized { cols, rows }),
            _ => None,
        }
}

/// Where a sequence of events leads an interactive session, and the actions on the way.
pub open spec fn interactive_run(events: Seq<InteractiveEvent>) -> (
    InteractivePhase,
    Seq<InteractiveActionView>,
)
    decreases events.len(),
{
    if events.len() == 0 {
        (InteractivePhase::Running, Seq::empty())
    } else {
        let (mid, actions) = interactive_run(events.drop_last());
        let (next, more) = interactive_step(mid, events.last());
        (next, actions + more)
    }
}

/// While an interactive session runs, all that the remote side prints is shown to the client,
/// and all that the client types and every size of its window goes to the remote side,
/// unchanged and in order.
pub proof fn law_interactive_sessions_are_transparent(events: Seq<InteractiveEvent>)
    ensures
        ({
            let (phase, actions) = interactive_run(events);
            let before = lists::before_end(events, ends_exchange());
            &&& (phase is Running) == (before.len() == events.len())
            &&& lists::picked(actions, exchanged_by()) == lists::picked(before, exchange_of())
        }),
    decreases events.len(),
{
    if events.len() > 0 {
        let before = events.drop_last();
        let last = events.last();
        let (mid, actions) = interactive_run(before);
        let more = interactive_step(mid, last).1;
        law_interactive_sessions_are_transparent(before);
        lists::lemma_before_end(before, ends_exchange());
        lists::lemma_picked_add(actions, more, exchanged_by());
        lists::lemma_picked_few(more, exchanged_by());
        let kept = lists::before_end(before, ends_exchange());
        assert(kept.push(last).drop_last() =~= kept);
        assert(lists::picked(actions + more, exchanged_by()) =~= lists::picked(
            lists::before_end(events, ends_exchange()),
            exchange_of(),
        ));
    }
}

/// A session that ends by itself tells its code, or success where it has none, once its output
/// was drained; one whose client is gone is aborted.
pub proof fn law_interactive_sessions_tell_their_end(phase: InteractivePhase, event: InteractiveEvent)
    requires
        phase is Running,
        ends_session()(event),
    ensures
        ({
            let (next, actions) = interactive_step(phase, event);
            &&& next is Over
            &&& actions.len() > 0 && actions.last() is Finish
            &&& match event {
                InteractiveEvent::Exited(Some(code)) => actions.drop_last() == seq![
                    InteractiveActionView::Drain,
                    InteractiveActionView::TrySend(EventView::ExitStatus(code as int)),
                ],
                InteractiveEvent::Exited(None) => actions.drop_last() == seq![
                    InteractiveActionView::Drain,
                    InteractiveActionView::TrySend(EventView::ExitStatus(0)),
                ],
                InteractiveEvent::InputGone => actions.len() == 1,
                _ => actions.drop_last() == seq![InteractiveActionView::Abort],
            }
        }),
{
    let actions = interactive_step(phase, event).1;
    match event {
        InteractiveEvent::Exited(code) => {
            assert(actions.drop_last() =~= seq![
                InteractiveActionView::Drain,
                InteractiveActionView::TrySend(
                    EventView::ExitStatus(
                        match code {
                            Some(c) => c as int,
                            None => 0,
                        },
                    ),
                ),
            ]);
        },
        InteractiveEvent::InputGone => {},
        _ => {
            assert(actions.drop_last() =~= seq![InteractiveActionView::Abort]);
        },
    }
}

// ---------------------------------------------------------------------------
// What a preparation tells and does
// ---------------------------------------------------------------------------
/// What an action tells the client.
pub open spec fn told_by() -> spec_fn(PrepActionView) -> Option<EventView> {
    |a: PrepActionView|
        match a {
            PrepActionView::Send(e) => Some(e),
            _ => None,
        }
}

/// A preparation without what it tells.
pub open spec fn done_by() -> spec_fn(PrepActionView) -> Option<PrepActionView> {
    |a: PrepActionView|
        if a is Send {
            None
        } else {
            Some(a)
        }
}

/// What the client is told of a judgement, whatever it is.
pub open spec fn told_judgement(
    id: int,
    risk_level: RiskLevel,
    action: ReviewAction,
    reason: Seq<char>,
    matched: Option<Seq<char>>,
) -> EventView {
    EventView::ReviewResult {
        execution_id: id,
        risk_level,
        action,
        reason,
        matched_whitelist_reason: matched,
    }
}

proof fn lemma_prep_two(rules: PrepRules, a: PrepEvent, b: PrepEvent)
    ensures
        prep_run(rules, seq![a]) == (
            prep_step(rules, PrepPhaseView::Resolving, a).0,
            prep_step(rules, PrepPhaseView::Resolving, a).1,
        ),
        ({
            let (phase, first) = prep_step(rules, PrepPhaseView::Resolving, a);
            let (next, second) = prep_step(rules, phase, b);
            prep_run(rules, seq![a, b]) == (next, first + second)
        }),
{
    reveal_with_fuel(prep_run, 3);
    assert(seq![a].drop_last() =~= Seq::<PrepEvent>::empty());
    assert(seq![a, b].drop_last() =~= seq![a]);
    let first = prep_step(rules, PrepPhaseView::Resolving, a).1;
    assert(Seq::<PrepActionView>::empty() + first =~= first);
}

/// The first route of a target is the one that counts. Its target and the command line are
/// what is reviewed; the warning of the resolution is told to the client before that. A target
/// without a route, and one that cannot be resolved, fail.
pub proof fn law_first_route_is_reviewed(rules: PrepRules, resolved: ResolveResult, error: String)
    ensures
        ({
            let (phase, actions) = prep_run(rules, seq![PrepEvent::Resolved(Ok(resolved))]);
            if resolved.routes@.len() > 0 {
                &&& lists::picked(actions, told_by()) == match resolved.warning {
                    Some(w) => seq![EventView::Info(w@)],
                    None => Seq::empty(),
                }
                &&& lists::picked(actions, done_by()) == seq![
                    PrepActionView::Review {
                        end_target: resolved.routes@[0].end_target@,
                        command: rules.command,
                    },
                ]
            } else {
                actions == seq![PrepActionView::Fail("no resolved target candidates"@)]
            }
        }),
        prep_run(rules, seq![PrepEvent::Resolved(Err(error))]).1 == seq![
            PrepActionView::Fail(error@),
        ],
{
    let a = PrepEvent::Resolved(Ok(resolved));
    lemma_prep_two(rules, a, PrepEvent::Sent);
    lemma_prep_two(rules, PrepEvent::Resolved(Err(error)), PrepEvent::Sent);
    let actions = prep_run(rules, seq![a]).1;
    if resolved.routes@.len() > 0 {
        lists::lemma_picked_few(actions, told_by());
        lists::lemma_picked_few(actions, done_by());
        assert(lists::picked(actions, told_by()) =~= match resolved.warning {
            Some(w) => seq![EventView::Info(w@)],
            None => Seq::empty(),
        });
        assert(lists::picked(actions, done_by()) =~= seq![
            PrepActionView::Review {
                end_target: resolved.routes@[0].end_target@,
                command: rules.command,
            },
        ]);
    }
}

/// A review's decision is told to the client as it is, under the execution's identifier, and
/// followed: a command that is allowed runs over the first route, one that is denied does not
/// run and the client is told why, and one that needs a confirmation runs exactly where the
/// client's next message confirms this execution. A review that fails counts as a decision of
/// the configured action.
pub proof fn law_reviews_are_followed(
    rules: PrepRules,
    resolved: ResolveResult,
    reviewed: Result<Option<ReviewDecision>, String>,
    answer: ClientMessage,
)
    requires
        resolved.routes@.len() > 0,
    ensures
        ({
            let route = resolved.routes@[0]@;
            let a = PrepEvent::Resolved(Ok(resolved));
            let b = PrepEvent::Reviewed(reviewed);
            let first = prep_run(rules, seq![a]).1;
            let (phase, actions) = prep_run(rules, seq![a, b]);
            let told = lists::picked(actions.skip(first.len() as int), told_by());
            let after_sending = prep_step(rules, phase, PrepEvent::Sent).1;
            let after_answer = prep_step(rules, phase, PrepEvent::Message(answer)).1;
            let (action, judgement, question, denial) = match reviewed {
                Ok(None) => (None, None, Seq::empty(), Seq::empty()),
                Ok(Some(d)) => (
                    Some(d.action),
                    Some(
                        told_judgement(
                            rules.id,
                            d.risk_level,
                            d.action,
                            d.reason@,
                            text::opt(d.matched_whitelist_reason),
                        ),
                    ),
                    d.reason@,
                    "command denied: "@ + d.reason@,
                ),
                Err(e) => (
                    Some(rules.on_failure),
                    Some(
                        told_judgement(
                            rules.id,
                            RiskLevel::Dangerous,
                            rules.on_failure,
                            "review failed: "@ + e@,
                            None,
                        ),
                    ),
                    "review service failed"@,
                    "review failed and policy is deny: "@ + e@,
                ),
            };
            match action {
                None => actions.last() == PrepActionView::Proceed(route) && told.len() == 0,
                Some(ReviewAction::Allow) | Some(ReviewAction::Warn) => told == seq![judgement->0]
                    && after_sending == seq![PrepActionView::Proceed(route)],
                Some(ReviewAction::Deny) => told == seq![judgement->0, EventView::Error(denial)]
                    && after_sending == seq![PrepActionView::Finish],
                Some(ReviewAction::Confirm) => told == seq![
                    judgement->0,
                    EventView::ConfirmRequired { execution_id: rules.id, reason: question },
                ] && actions.last() is AwaitMessage && (if confirms(answer, rules.id) {
                    after_answer == seq![PrepActionView::Proceed(route)]
                } else {
                    after_answer.len() == 1 && after_answer[0] is Fail
                }),
            }
        }),
{
    let a = PrepEvent::Resolved(Ok(resolved));
    let b = PrepEvent::Reviewed(reviewed);
    lemma_prep_two(rules, a, b);
    let first = prep_run(rules, seq![a]).1;
    let (phase, actions) = prep_run(rules, seq![a, b]);
    let second = actions.skip(first.len() as int);
    assert(second =~= prep_step(rules, prep_run(rules, seq![a]).0, b).1);
    lists::lemma_picked_few(second, told_by());
    assert(actions.last() == second.last());
    let told = lists::picked(second, told_by());
    match reviewed {
        Ok(None) => {},
        _ => {
            if second.len() == 1 {
                assert(told =~= seq![second[0]->Send_0]);
            } else {
                assert(told =~= seq![second[0]->Send_0, second[1]->Send_0]);
            }
        },
    }
}

/// What is stated of a [`PrepAction`] is stated of its own parts: each kind is seen as that
/// kind, with all that it holds.
pub proof fn law_prep_action_is_seen_as_it_is(value: PrepAction)
    ensures
        ({
            let seen = value@;
            match value {
                PrepAction::Send(e) => seen == PrepActionView::Send(e@),
                PrepAction::Review { end_target, command } => seen == (PrepActionView::Review {
                    end_target: end_target@,
                    command: command@,
                }),
                PrepAction::AwaitMessage => seen == PrepActionView::AwaitMessage,
                PrepAction::Proceed(route) => seen == PrepActionView::Proceed(route@),
                PrepAction::Finish => seen == PrepActionView::Finish,
                PrepAction::Fail(e) => seen == PrepActionView::Fail(e@),
            }
        }),
{
}

/// What is stated of a [`RunAction`] is stated of its own parts: each kind is seen as that
/// kind, with all that it holds.
pub proof fn law_run_action_is_seen_as_it_is(value: RunAction)
    ensures
        ({
            let seen = value@;
            match value {
                RunAction::Forward(e) => seen == RunActionView::Forward(e@),
                RunAction::TrySend(e) => seen == RunActionView::TrySend(e@),
                RunAction::ForwardStdin(d) => seen == RunActionView::ForwardStdin(d@),
                RunAction::CloseStdin => seen == RunActionView::CloseStdin,
                RunAction::Abort => seen == RunActionView::Abort,
                RunAction::Drain => seen == RunActionView::Drain,
                RunAction::Finish => seen == RunActionView::Finish,
                RunAction::Fail(e) => seen == RunActionView::Fail(e@),
            }
        }),
{
}

/// What is stated of a [`InteractiveAction`] is stated of its own parts: each kind is seen as that
/// kind, with all that it holds.
pub proof fn law_interactive_action_is_seen_as_it_is(value: InteractiveAction)
    ensures
        ({
            let seen = value@;
            match value {
                InteractiveAction::Forward(d) => seen == InteractiveActionView::Forward(d@),
                InteractiveAction::WriteStdin(d) => seen == InteractiveActionView::WriteStdin(d@),
                InteractiveAction::Resize { cols, rows } => seen == (InteractiveActionView::Resize {
                    cols: cols as int,
                    rows: rows as int,
                }),
                InteractiveAction::AwaitExit => seen == InteractiveActionView::AwaitExit,
                InteractiveAction::Drain => seen == InteractiveActionView::Drain,
                InteractiveAction::TrySend(e) => seen == InteractiveActionView::TrySend(e@),
                InteractiveAction::Abort => seen == InteractiveActionView::Abort,
                InteractiveAction::Finish => seen == InteractiveActionView::Finish,
            }
        }),
{
}

/// What is stated of a [`ServerEvent`] is stated of its own parts: each kind is seen as that
/// kind, with all that it holds.
pub proof fn law_server_event_is_seen_as_it_is(value: ServerEvent)
    ensures
        ({
            let seen = value@;
            match value {
                ServerEvent::Info { message } => seen == EventView::Info(message@),
                ServerEvent::Stdout { data } => seen == EventView::Stdout(data@),
                ServerEvent::Stderr { data } => seen == EventView::Stderr(data@),
                ServerEvent::ExitStatus { code } => seen == EventView::ExitStatus(code as int),
                ServerEvent::Error { message } => seen == EventView::Error(message@),
                ServerEvent::ConfirmRequired { execution_id, reason } => seen == (
                EventView::ConfirmRequired { execution_id: execution_id as int, reason: reason@ }),
                ServerEvent::ReviewResult {
                    execution_id,
                    risk_level,
                    action,
                    reason,
                    matched_whitelist_reason,
                } => seen == (EventView::ReviewResult {
                    execution_id: execution_id as int,
                    risk_level,
                    action,
                    reason: reason@,
                    matched_whitelist_reason: text::opt(matched_whitelist_reason),
                }),
                ServerEvent::AuthPrompt { prompt_id, target_label, kind, secret, message } => seen
                    == (EventView::AuthPrompt {
                    prompt_id: prompt_id@,
                    target_label: target_label@,
                    kind: kind@,
                    secret,
                    message: message@,
                }),
            }
        }),
{
}

} // verus!
