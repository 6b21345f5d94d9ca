use xhod::config::{ReviewAction, RiskLevel};
use xhod::execute::ServerEvent;
use xhod::gateway::{GatewayKind, Route};
use xhod::keys::bootstrap_authorize;
use xhod::proxy::{
    audit_completed, audit_started, Bridge, BridgeAction, BridgeEvent, Caller, OperationKind,
    ProxyHandler, ProxyMsg, PtyParams, SessionStart,
};
use xhod::relay::{
    parse_action, parse_risk, session_relay, start_copy, start_exec, start_interactive,
    stops_upload, upload_chunks, CopyAction, CopyDataChunk, CopyDirection, CopyEvent, CopyRelay,
    ExecRelay, RelayedExec, RemoteEvent, SessionRelayAction, SessionRelayEvent, StdinEvent,
    StdinRelay,
};
use xhod::resolver::ResolveResult;
use xhod::session::{
    on_request, on_upload_message, session_route, session_target, CopyMessage, CopyOpening,
    CopyService, CopyServiceAction, CopyServiceEvent, ServiceAction, ServiceEvent, SessionCommand,
    SessionEvent, SessionRequest, SessionResponse, SessionService, UploadStep,
};

#[test]
fn requests_are_handed_on() {
    let request = RelayedExec {
        argv: vec!["ls".to_string()],
        tty: true,
        cols: 80,
        rows: 24,
        shell: "bash".to_string(),
        no_shell: false,
        timeout_ms: 9,
    };
    let start = start_exec("hub:web", request, true);
    assert_eq!(start.target, "hub:web");
    assert!(start.pty && !start.no_pty && start.stdin && !start.interactive);
    let start = start_interactive("web", vec![], 9, 8);
    assert!(start.interactive);
    assert_eq!((start.term_cols, start.term_rows), (9, 8));
    let start = start_copy("web", "/tmp/x", true, CopyDirection::Download);
    assert_eq!(start.remote_path, "/tmp/x");
    assert!(start.recursive);
}

#[test]
fn input_ends_once() {
    let mut relay = StdinRelay::new();
    assert_eq!(relay.on_event(StdinEvent::Data(b"a".to_vec())), Some(b"a".to_vec()));
    assert_eq!(relay.on_event(StdinEvent::Data(vec![])), Some(vec![]));
    assert_eq!(relay.on_event(StdinEvent::SourceClosed), None);
    let mut relay = StdinRelay::new();
    assert_eq!(relay.on_event(StdinEvent::SourceClosed), Some(vec![]));
    assert_eq!(relay.on_event(StdinEvent::Data(b"late".to_vec())), None);
}

#[test]
fn answers_are_forwarded() {
    let mut relay = ExecRelay::new();
    assert!(matches!(
        relay.on_event(RemoteEvent::Stdout(b"x".to_vec())),
        Some(ServerEvent::Stdout { data }) if data == b"x"
    ));
    assert!(relay.finish().is_err());
    assert!(relay.on_event(RemoteEvent::ExitStatus(5)).is_none());
    assert_eq!(relay.finish(), Ok(5));
    assert!(matches!(
        relay.on_event(RemoteEvent::ReviewResult {
            execution_id: "00000000-0000-0000-0000-000000000003".to_string(),
            risk_level: "risky".to_string(),
            action: "confirm".to_string(),
            reason: "r".to_string(),
            matched_whitelist_reason: String::new(),
        }),
        Some(ServerEvent::ReviewResult {
            execution_id: 3,
            risk_level: RiskLevel::Risky,
            action: ReviewAction::Confirm,
            matched_whitelist_reason: None,
            ..
        })
    ));
    assert_eq!(parse_risk("safe"), RiskLevel::Safe);
    assert_eq!(parse_action("allow"), ReviewAction::Allow);
    assert!(matches!(
        session_relay(SessionRelayEvent::Closed),
        SessionRelayAction::Finish(255)
    ));
    assert!(matches!(
        session_relay(SessionRelayEvent::Answer(RemoteEvent::Stderr(b"e".to_vec()))),
        SessionRelayAction::Forward(d) if d == b"e"
    ));
}

#[test]
fn a_download_gives_back_an_upload() {
    let file: Vec<u8> = (0..200_000u32).map(|i| (i % 251) as u8).collect();
    let chunks = upload_chunks(&file);
    assert_eq!(chunks.len(), 5);
    assert!(stops_upload(&chunks[4]) && chunks[4].data.is_empty());
    let mut relay = CopyRelay::new(false);
    let mut written = Vec::new();
    let mut created = 0;
    let mut flushed = 0;
    for chunk in chunks {
        for action in relay.on_event("/tmp/x", CopyEvent::Chunk(chunk)) {
            match action {
                CopyAction::CreateFile => created += 1,
                CopyAction::Write(data) => written.extend(data),
                CopyAction::FlushFile => flushed += 1,
                _ => panic!("unexpected action"),
            }
        }
    }
    assert_eq!((created, flushed), (1, 1));
    assert_eq!(written, file);
    assert!(matches!(&relay.on_event("/tmp/x", CopyEvent::Complete)[..], [CopyAction::Done]));
    assert!(relay.on_event("/tmp/x", CopyEvent::Complete).is_empty());
}

#[test]
fn failed_copies_say_why() {
    let mut relay = CopyRelay::new(true);
    let chunk = CopyDataChunk { data: b"x".to_vec(), eof: false };
    assert!(matches!(
        &relay.on_event("p", CopyEvent::Chunk(chunk))[..],
        [CopyAction::Relay(c)] if c.data == b"x"
    ));
    assert!(matches!(
        &relay.on_event("p", CopyEvent::Closed)[..],
        [CopyAction::Fail(e)] if e == "remote daemon closed copy stream without completion"
    ));
    let mut relay = CopyRelay::new(false);
    assert!(matches!(
        &relay.on_event("a \"b\"", CopyEvent::CreateFailed("denied".to_string()))[..],
        [CopyAction::Fail(e)]
            if e == "download: failed to create local file \"a \\\"b\\\"\": denied"
    ));
}

#[test]
fn sessions_begin_with_their_target() {
    assert!(session_target(None).is_err());
    assert!(session_target(Some(SessionRequest::Shell)).is_err());
    assert_eq!(
        session_target(Some(SessionRequest::Open { target: "web".to_string() })),
        Ok("web".to_string())
    );
    let none = ResolveResult { routes: vec![], warning: None };
    assert_eq!(session_route(&none, "web").unwrap_err(), "no route for target 'web'");
    assert!(matches!(on_request(Some(SessionRequest::Shell)), SessionCommand::Start(_)));
    assert!(matches!(on_request(Some(SessionRequest::Eof)), SessionCommand::Apply(_)));
    assert!(matches!(on_request(None), SessionCommand::Stop));
}

fn resolved(warning: Option<&str>) -> ResolveResult {
    ResolveResult {
        routes: vec![Route { gateway_name: "local".to_string(), end_target: "web".to_string() }],
        warning: warning.map(|w| w.to_string()),
    }
}

#[test]
fn a_session_runs_from_its_opening_to_its_exit() {
    let mut service = SessionService::new();
    let open = SessionRequest::Open { target: "web".to_string() };
    assert!(matches!(
        &service.on_event(ServiceEvent::First(Some(open)))[..],
        [ServiceAction::Resolve(t)] if t == "web"
    ));
    assert!(matches!(
        &service.on_event(ServiceEvent::Resolved(Ok(resolved(None))))[..],
        [ServiceAction::Open(r)] if r.end_target == "web"
    ));
    assert!(matches!(
        &service.on_event(ServiceEvent::Opened(Ok(())))[..],
        [ServiceAction::Send(SessionResponse::Started)]
    ));
    assert!(service.on_event(ServiceEvent::Acknowledged).is_empty());
    let exec = SessionRequest::Exec { command: "ls".to_string() };
    assert!(matches!(
        &service.on_event(ServiceEvent::Request(Some(exec)))[..],
        [ServiceAction::Start(SessionRequest::Exec { .. })]
    ));
    assert!(matches!(
        &service.on_event(ServiceEvent::StartFailed("no".to_string()))[..],
        [ServiceAction::TrySend(SessionResponse::Error(e))] if e == "no"
    ));
    assert!(matches!(
        &service.on_event(ServiceEvent::Event(Some(SessionEvent::ExitStatus(2))))[..],
        [
            ServiceAction::TrySend(SessionResponse::ExitStatus(2)),
            ServiceAction::TrySend(SessionResponse::Eof),
            ServiceAction::Finish
        ]
    ));
    assert!(service.on_event(ServiceEvent::SendFailed).is_empty());
}

#[test]
fn a_session_that_cannot_be_opened_ends_with_its_error() {
    let error = |actions: Vec<ServiceAction>| match &actions[..] {
        [ServiceAction::TrySend(SessionResponse::Error(e)), ServiceAction::Finish] => e.clone(),
        _ => panic!("the session goes on"),
    };
    let mut service = SessionService::new();
    assert_eq!(
        error(service.on_event(ServiceEvent::First(None))),
        "open_session: missing open request"
    );
    let mut service = SessionService::new();
    service.on_event(ServiceEvent::First(Some(SessionRequest::Open { target: "web".to_string() })));
    service.on_event(ServiceEvent::Resolved(Ok(resolved(None))));
    service.on_event(ServiceEvent::Opened(Ok(())));
    assert_eq!(
        error(service.on_event(ServiceEvent::SendFailed)),
        "open_session: client stream closed"
    );
}

#[test]
fn copies_are_driven_to_their_end() {
    let frame = CopyMessage::Frame { frame: 7, end_of_stream: true };
    assert!(matches!(
        on_upload_message(Some(frame)),
        UploadStep::Forward { frame: 7, last: true }
    ));
    assert!(matches!(on_upload_message::<u8>(Some(CopyMessage::BadFrame)), UploadStep::Stop));
    assert!(matches!(on_upload_message::<u8>(Some(CopyMessage::AuthInput)), UploadStep::Ignore));
    let running = |direction, timeout_ms| {
        let mut service = CopyService::new();
        let start = CopyOpening::Start { target: "web".to_string(), direction, timeout_ms };
        assert!(matches!(
            &service.on_event(CopyServiceEvent::First(start))[..],
            [CopyServiceAction::Resolve(t)] if t == "web"
        ));
        assert!(matches!(
            &service.on_event(CopyServiceEvent::Resolved(Ok(resolved(Some("twice")))))[..],
            [CopyServiceAction::SendInfo(w), CopyServiceAction::Run { .. }] if w == "twice"
        ));
        service
    };
    assert!(matches!(
        &running(CopyDirection::Download, 0).on_event(CopyServiceEvent::Copied(Ok(())))[..],
        [
            CopyServiceAction::AwaitRelay,
            CopyServiceAction::SendComplete,
            CopyServiceAction::Finish
        ]
    ));
    assert!(running(CopyDirection::Upload, 0).on_event(CopyServiceEvent::Timeout).is_empty());
    let mut late = running(CopyDirection::Upload, 5);
    assert!(matches!(
        &late.on_event(CopyServiceEvent::Timeout)[..],
        [CopyServiceAction::Abort, CopyServiceAction::SendError(e), CopyServiceAction::Finish]
            if e == "copy timed out (exit code 124)"
    ));
    assert!(late.on_event(CopyServiceEvent::Copied(Ok(()))).is_empty());
    assert!(matches!(
        &late.on_event(CopyServiceEvent::SendFailed)[..],
        [CopyServiceAction::TrySendError(e), CopyServiceAction::Finish]
            if e == "copy client stream closed"
    ));
}

#[test]
fn copies_that_do_not_begin_say_why() {
    let error = |opening| match &CopyService::new().on_event(CopyServiceEvent::First(opening))[..] {
        [CopyServiceAction::TrySendError(e), CopyServiceAction::Finish] => e.clone(),
        _ => panic!("the copy goes on"),
    };
    assert_eq!(error(CopyOpening::Missing), "client disconnected before copy start request");
    assert_eq!(error(CopyOpening::Other), "first copy stream message must be start");
    assert_eq!(error(CopyOpening::Bad("x".to_string())), "x");
}

const KEY_LINE: &str =
    "ssh-ed25519 AAAAC3NzaC1lZDI1NTE5AAAAILM+rvN+ot98qgEN796jTiQfZfG1KaT0PtFDJ/XFSqti me@example";

#[test]
fn the_proxy_admits_authorized_keys() {
    let key = bootstrap_authorize(KEY_LINE, None, "/keys").unwrap().key;
    let mut handler: ProxyHandler<&str, u8> = ProxyHandler::new();
    assert!(!handler.auth_publickey("web", &key, "/keys", Ok(None)));
    assert!(!handler.auth_publickey("web", &key, "/keys", Err(())));
    assert_eq!(handler.user(), None);
    assert!(handler.auth_publickey("web", &key, "/keys", Ok(Some(KEY_LINE.to_string()))));
    assert_eq!(handler.user().as_deref(), Some("web"));
}

#[test]
fn messages_before_the_bridge_keep_their_order() {
    let key = bootstrap_authorize(KEY_LINE, None, "/keys").unwrap().key;
    let mut handler: ProxyHandler<&str, u8> = ProxyHandler::new();
    assert!(handler.auth_publickey("web", &key, "/keys", Ok(Some(KEY_LINE.to_string()))));
    handler.channel_open_session(1, "channel");
    assert!(handler.pty_request(1, "xterm", 80, 24));
    assert!(!handler.pty_request(2, "xterm", 80, 24));
    assert!(handler.env_request(1, "LANG", "C"));
    assert!(handler.forward_or_buffer(1, ProxyMsg::Data(b"a".to_vec())).is_none());
    assert!(handler.forward_or_buffer(1, ProxyMsg::Eof).is_none());
    let (user, entry) = handler.start_session(1, 9).unwrap();
    assert_eq!(user, "web");
    assert!(matches!(&entry.pending[..], [ProxyMsg::Data(_), ProxyMsg::Eof]));
    assert_eq!(handler.bridge(1), Some(&9));
    assert!(matches!(
        handler.forward_or_buffer(1, ProxyMsg::Resize(1, 2)),
        Some(ProxyMsg::Resize(1, 2))
    ));
    assert!(handler.start_session(1, 9).is_none());
}

fn caller() -> Caller {
    Caller {
        source: "proxy".to_string(),
        peer_addr: None,
        ssh_user: Some("me".to_string()),
        key_fingerprint: None,
        via_token: false,
    }
}

#[test]
fn operations_are_logged() {
    let route = Route { gateway_name: "local".to_string(), end_target: "web".to_string() };
    let start = SessionStart::Shell;
    let event = audit_started(&caller(), "web", &route, Some(GatewayKind::Direct), &start, true);
    assert_eq!(event.command.as_deref(), Some("(interactive)"));
    assert_eq!(event.operation, OperationKind::Proxy);
    assert_eq!(event.caller.unwrap().ssh_user.as_deref(), Some("me"));
    let event = audit_completed("proxy", "web", &route, None, start.kind(), 3);
    assert_eq!(event.exit_code, Some(3));
    assert_eq!(event.phase, "completed");
    assert_eq!(event.operation, OperationKind::Proxy);
    assert!(matches!(SessionStart::exec(b"ls \xff"), SessionStart::Exec(c) if c == "ls \u{fffd}"));
}

fn bridge() -> Bridge {
    let pty = PtyParams { term: "xterm".to_string(), cols: 80, rows: 24 };
    let env = vec![("LANG".to_string(), "C".to_string())];
    let start = SessionStart::Exec("ls".to_string());
    let mut bridge = Bridge::new("web".to_string(), caller(), false, Some(pty), env, start);
    assert!(matches!(
        &bridge.on_event(BridgeEvent::Resolved(Ok(resolved(None))))[..],
        [BridgeAction::Open(r)] if r.end_target == "web"
    ));
    bridge
}

#[test]
fn a_bridge_is_set_up_and_carries_both_ways() {
    let mut bridge = bridge();
    let opened = BridgeEvent::Opened { kind: Some(GatewayKind::Direct), result: Ok(()) };
    assert!(matches!(
        &bridge.on_event(opened)[..],
        [
            BridgeAction::RequestPty(_),
            BridgeAction::SetEnv(k, v),
            BridgeAction::Record(e),
            BridgeAction::Start(SessionStart::Exec(_))
        ] if k == "LANG" && v == "C" && e.phase == "started" && e.caller.is_none()
    ));
    assert!(bridge.on_event(BridgeEvent::Started(Ok(()))).is_empty());
    assert!(matches!(
        &bridge.on_event(BridgeEvent::Client(Some(ProxyMsg::Data(b"in".to_vec()))))[..],
        [BridgeAction::Send(ProxyMsg::Data(d))] if d == b"in"
    ));
    let out = SessionEvent::Stdout(b"out".to_vec());
    assert!(matches!(
        &bridge.on_event(BridgeEvent::Session(Some(out)))[..],
        [BridgeAction::Data(d)] if d == b"out"
    ));
    assert!(matches!(
        &bridge.on_event(BridgeEvent::Session(Some(SessionEvent::ExitStatus(4))))[..],
        [
            BridgeAction::Record(e),
            BridgeAction::ExitStatus(4),
            BridgeAction::Eof,
            BridgeAction::Close
        ] if e.exit_code == Some(4) && e.session_kind == "exec"
    ));
    assert!(bridge.on_event(BridgeEvent::Session(None)).is_empty());
    assert!(matches!(
        &bridge.on_event(BridgeEvent::Client(None))[..],
        [BridgeAction::CloseSession, BridgeAction::Stop]
    ));
}

#[test]
fn a_bridge_stops_where_nothing_can_be_reached() {
    let mut bridge = bridge();
    let refused = BridgeEvent::Opened { kind: None, result: Err("no".to_string()) };
    assert!(matches!(&bridge.on_event(refused)[..], [BridgeAction::Stop]));
    assert!(bridge.on_event(BridgeEvent::Started(Ok(()))).is_empty());
}
