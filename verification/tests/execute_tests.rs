use xhod::config::{ReviewAction, RiskLevel};
use xhod::execute::{
    check_request, deadline_ms, start_request, Admission, ClientMessage, ExecRequest, ExecRun,
    InteractiveAction, InteractiveEvent, InteractiveRun, PrepAction, PrepEvent, Preparation,
    ReviewDecision, RunAction, RunEvent, ServerEvent,
};
use xhod::gateway::Route;
use xhod::ids::{make_marker_with, marker_of, parse_execution_id, simple_text};
use xhod::resolver::ResolveResult;

fn request(argv: Vec<String>, interactive: bool) -> ExecRequest {
    ExecRequest {
        target: "web".to_string(),
        argv,
        tty: false,
        stdin: true,
        timeout_ms: 0,
        interactive,
        term_cols: 80,
        term_rows: 24,
        shell: String::new(),
        no_shell: false,
    }
}

fn resolved() -> ResolveResult {
    ResolveResult {
        routes: vec![Route { gateway_name: "local".to_string(), end_target: "web".to_string() }],
        warning: None,
    }
}

fn decision(action: ReviewAction) -> ReviewDecision {
    ReviewDecision {
        risk_level: RiskLevel::Risky,
        action,
        reason: "writes".to_string(),
        matched_whitelist_reason: None,
    }
}

fn preparation() -> Preparation {
    let mut p = Preparation::with_id(7, &["rm".to_string(), "x".to_string()], ReviewAction::Deny);
    let actions = p.on_event(PrepEvent::Resolved(Ok(resolved())));
    assert_eq!(actions.len(), 1);
    assert!(matches!(
        &actions[0],
        PrepAction::Review { end_target, command } if end_target == "web" && command == "rm x"
    ));
    p
}

#[test]
fn requests_begin_with_a_start() {
    assert!(start_request(None).is_err());
    assert!(start_request(Some(ClientMessage::Other)).is_err());
    let started = start_request(Some(ClientMessage::Start(request(vec![], false)))).unwrap();
    assert_eq!(started.target, "web");
    assert!(matches!(
        check_request(&request(vec!["ls".to_string()], false)),
        Admission::Plain
    ));
    let mut terminal = request(vec!["top".to_string()], true);
    assert!(matches!(check_request(&terminal), Admission::Reject(_)));
    terminal.tty = true;
    assert!(matches!(check_request(&terminal), Admission::Interactive));
    terminal.term_rows = 0;
    assert!(matches!(check_request(&terminal), Admission::Reject(_)));
    assert!(matches!(check_request(&request(vec![], false)), Admission::Fail(_)));
    assert_eq!(deadline_ms(0), None);
    assert_eq!(deadline_ms(5), Some(5));
}

#[test]
fn allowed_commands_proceed() {
    let mut p = preparation();
    let actions = p.on_event(PrepEvent::Reviewed(Ok(None)));
    assert!(matches!(&actions[..], [PrepAction::Proceed(r)] if r.end_target == "web"));
    assert!(p.on_event(PrepEvent::Reviewed(Ok(None))).is_empty());

    let mut p = preparation();
    let actions = p.on_event(PrepEvent::Reviewed(Ok(Some(decision(ReviewAction::Warn)))));
    assert!(matches!(&actions[..], [PrepAction::Send(ServerEvent::ReviewResult { .. })]));
    assert!(matches!(
        &p.on_event(PrepEvent::Sent)[..],
        [PrepAction::Proceed(r)] if r.end_target == "web"
    ));
}

#[test]
fn denied_commands_end_with_an_error() {
    let mut p = preparation();
    let actions = p.on_event(PrepEvent::Reviewed(Ok(Some(decision(ReviewAction::Deny)))));
    assert!(matches!(
        &actions[..],
        [
            PrepAction::Send(ServerEvent::ReviewResult { .. }),
            PrepAction::Send(ServerEvent::Error { message })
        ] if message == "command denied: writes"
    ));
    assert!(matches!(&p.on_event(PrepEvent::Sent)[..], [PrepAction::Finish]));
    assert!(p.on_event(PrepEvent::Sent).is_empty());
}

#[test]
fn a_client_that_cannot_be_told_ends_the_preparation() {
    for action in [ReviewAction::Allow, ReviewAction::Warn, ReviewAction::Deny] {
        let mut p = preparation();
        let actions = p.on_event(PrepEvent::Reviewed(Ok(Some(decision(action)))));
        assert!(actions.iter().all(|a| matches!(a, PrepAction::Send(_))));
        assert!(matches!(
            &p.on_event(PrepEvent::SendFailed)[..],
            [PrepAction::Fail(e)] if e == "client receive stream closed"
        ));
        assert!(p.on_event(PrepEvent::Sent).is_empty());
    }
}

#[test]
fn a_failed_review_follows_the_policy() {
    let mut p = preparation();
    let actions = p.on_event(PrepEvent::Reviewed(Err("down".to_string())));
    assert!(matches!(
        &actions[..],
        [
            PrepAction::Send(ServerEvent::ReviewResult { risk_level: RiskLevel::Dangerous, .. }),
            PrepAction::Send(ServerEvent::Error { message })
        ] if message == "review failed and policy is deny: down"
    ));
    assert!(matches!(&p.on_event(PrepEvent::Sent)[..], [PrepAction::Finish]));
}

#[test]
fn confirmations_name_the_execution() {
    let mut p = preparation();
    let actions = p.on_event(PrepEvent::Reviewed(Ok(Some(decision(ReviewAction::Confirm)))));
    assert!(matches!(
        &actions[..],
        [
            PrepAction::Send(_),
            PrepAction::Send(ServerEvent::ConfirmRequired { execution_id: 7, .. }),
            PrepAction::AwaitMessage
        ]
    ));
    let confirm = ClientMessage::Confirm {
        execution_id: "00000000-0000-0000-0000-000000000007".to_string(),
        allow: true,
    };
    assert!(matches!(
        &p.on_event(PrepEvent::Message(confirm))[..],
        [PrepAction::Proceed(_)]
    ));
}

#[test]
fn a_confirmation_for_another_execution_is_refused() {
    let mut p = preparation();
    p.on_event(PrepEvent::Reviewed(Ok(Some(decision(ReviewAction::Confirm)))));
    let confirm = ClientMessage::Confirm {
        execution_id: "00000000-0000-0000-0000-000000000008".to_string(),
        allow: true,
    };
    assert!(matches!(
        &p.on_event(PrepEvent::Message(confirm))[..],
        [PrepAction::Fail(e)] if e == "execution not confirmed"
    ));
}

#[test]
fn targets_without_candidates_fail() {
    let mut p = Preparation::new(&["ls".to_string()], ReviewAction::Allow);
    let none = ResolveResult { routes: vec![], warning: None };
    assert!(matches!(
        &p.on_event(PrepEvent::Resolved(Ok(none)))[..],
        [PrepAction::Fail(e)] if e == "no resolved target candidates"
    ));
}

#[test]
fn identifiers_are_drawn_anew() {
    let a = Preparation::new(&[], ReviewAction::Allow).id();
    let b = Preparation::new(&[], ReviewAction::Allow).id();
    assert_ne!(a, b);
    assert_ne!(make_marker_with("M"), make_marker_with("M"));
    assert_eq!(simple_text(255), "000000000000000000000000000000ff");
    assert_eq!(marker_of("M", 0), "M00000000000000000000000000000000__");
    assert_eq!(parse_execution_id("00000000-0000-0000-0000-0000000000ff"), Ok(255));
    assert!(parse_execution_id("zzz").is_err());
}

#[test]
fn running_commands_forward_both_ways() {
    let mut run = ExecRun::new(true);
    let out = ServerEvent::Stdout { data: b"hi".to_vec() };
    assert!(matches!(&run.on_event(RunEvent::Output(out))[..], [RunAction::Forward(_)]));
    let input = ClientMessage::StdinData(b"x".to_vec());
    assert!(matches!(
        &run.on_event(RunEvent::Message(input))[..],
        [RunAction::ForwardStdin(d)] if d == b"x"
    ));
    let end = ClientMessage::StdinData(vec![]);
    assert!(matches!(&run.on_event(RunEvent::Message(end))[..], [RunAction::CloseStdin]));
    let late = ClientMessage::StdinData(b"y".to_vec());
    assert!(run.on_event(RunEvent::Message(late)).is_empty());
    assert!(matches!(
        &run.on_event(RunEvent::Exited(Ok(3)))[..],
        [
            RunAction::Drain,
            RunAction::TrySend(ServerEvent::ExitStatus { code: 3 }),
            RunAction::Finish
        ]
    ));
    assert!(run.on_event(RunEvent::Timeout).is_empty());
}

#[test]
fn timeouts_end_with_their_own_code() {
    let mut run = ExecRun::new(false);
    let actions = run.on_event(RunEvent::Timeout);
    assert!(actions
        .iter()
        .any(|a| matches!(a, RunAction::TrySend(ServerEvent::ExitStatus { code: 124 }))));
    assert!(actions.iter().any(|a| matches!(a, RunAction::Abort)));
}

#[test]
fn interactive_sessions_end_with_their_code() {
    let mut run = InteractiveRun::new();
    assert!(matches!(
        &run.on_event(InteractiveEvent::Stdout(Some(b"$ ".to_vec())))[..],
        [InteractiveAction::Forward(d)] if d == b"$ "
    ));
    assert!(matches!(
        &run.on_event(InteractiveEvent::Message(ClientMessage::WindowResize { cols: 9, rows: 8 }))[..],
        [InteractiveAction::Resize { cols: 9, rows: 8 }]
    ));
    let actions = run.on_event(InteractiveEvent::Exited(Some(4)));
    assert!(actions
        .iter()
        .any(|a| matches!(a, InteractiveAction::TrySend(ServerEvent::ExitStatus { code: 4 }))));
    assert!(run.on_event(InteractiveEvent::Exited(Some(4))).is_empty());
}
