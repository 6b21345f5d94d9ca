use xhod::bastion::{closed_transport, open_failure, JumpserverGateway, MfaAnswer, OpenStage};
use xhod::config::{
    DirectAuth, JumpserverGatewayConfig, ServerConfigFile, ServerDefaults, ServerEntry,
    ServerHostConfig,
};
use xhod::direct::{
    channel_failure, choose_shell, connect_failure, list_servers, resolve_target, DirectGateway,
    DirectPoolKey, ResolvedTarget,
};
use xhod::gateway::{
    is_resolution_error, is_transport_error, operation_error, Capabilities, ErrorCause, ErrorKind,
    Gateway, GatewayError, GatewayKind, StatusCode,
};
use xhod::address_pool::Slot;
use xhod::connections::Checkout;
use xhod::listing::RemoteRow;
use xhod::local::{LocalGateway, LocalStep};
use xhod::localhost::{hostname_from, HostEnvironment, LocalhostGateway};
use xhod::retry::{Attempt, OperationStep};
use xhod::xhod::{ClientStep, ListStep, ListedServer, RhopdGateway, XhodGateway};

#[test]
fn transport_user_message_includes_retry_hint() {
    let error = GatewayError::transport("channel closed".to_string());
    assert_eq!(
        error.user_message(),
        "[transport] channel closed; please retry the operation to open a fresh connection"
    );
}

#[test]
fn non_transport_user_message_is_unchanged() {
    let error = GatewayError::execution("command failed".to_string());
    assert_eq!(error.user_message(), "[execution] command failed");
}

#[test]
fn errors_are_sorted_by_their_cause() {
    assert!(is_transport_error(&ErrorCause::Ssh));
    assert!(is_transport_error(&ErrorCause::Status(StatusCode::Unavailable)));
    assert!(!is_transport_error(&ErrorCause::Status(StatusCode::Other)));
    assert!(is_transport_error(&ErrorCause::Message("Connection RESET by peer".to_string())));
    assert!(!is_transport_error(&ErrorCause::Message("no such file".to_string())));
    assert!(is_resolution_error("Server NOT FOUND"));
    assert!(!is_resolution_error("refused"));
    let error = operation_error(&ErrorCause::Message("boom".to_string()), "boom".to_string());
    assert_eq!(error.kind, ErrorKind::Execution);
    assert_eq!(error.to_text(), "[execution] boom");
    assert_eq!(GatewayError::resolution("x".to_string()).to_text(), "[resolution] x");
    assert_eq!(GatewayError::unsupported("x".to_string()).to_text(), "[unsupported] x");
}

fn resolved_with_auth(auth: DirectAuth) -> ResolvedTarget {
    ResolvedTarget {
        host: "127.0.0.1".to_string(),
        port: 22,
        user: "admin".to_string(),
        auth,
        shell: None,
        defaults_shell: String::new(),
    }
}

#[test]
fn effective_shell_uses_cli_server_defaults_precedence() {
    let mut resolved =
        resolved_with_auth(DirectAuth::Password { password: "one".to_string() });
    resolved.shell = Some("zsh".to_string());
    resolved.defaults_shell = "bash".to_string();

    assert_eq!(DirectGateway::<u8>::effective_shell("", false, &resolved), "zsh");
    assert_eq!(DirectGateway::<u8>::effective_shell("fish", false, &resolved), "fish");
    assert_eq!(DirectGateway::<u8>::effective_shell("", true, &resolved), "");

    resolved.shell = None;
    assert_eq!(DirectGateway::<u8>::effective_shell("", false, &resolved), "bash");
}

#[test]
fn direct_pool_key_includes_user_and_auth_identity() {
    let password_key = DirectPoolKey::from_resolved(&resolved_with_auth(DirectAuth::Password {
        password: "one".to_string(),
    }));
    let different_password_key =
        DirectPoolKey::from_resolved(&resolved_with_auth(DirectAuth::Password {
            password: "two".to_string(),
        }));
    let key_auth = DirectPoolKey::from_resolved(&resolved_with_auth(DirectAuth::Key {
        identity_file: "~/.ssh/id_rsa".to_string(),
    }));
    let different_user_key = DirectPoolKey::from_resolved(&ResolvedTarget {
        user: "root".to_string(),
        ..resolved_with_auth(DirectAuth::Password { password: "one".to_string() })
    });

    assert_ne!(password_key, different_password_key);
    assert_ne!(password_key, key_auth);
    assert_ne!(password_key, different_user_key);
}

#[test]
fn direct_pool_key_label_does_not_expose_auth_secret() {
    let key = DirectPoolKey::from_resolved(&resolved_with_auth(DirectAuth::Password {
        password: "very-secret".to_string(),
    }));
    let label = key.label();

    assert!(label.contains("admin@127.0.0.1:22"));
    assert!(label.contains("password"));
    assert!(!label.contains("very-secret"));
}

#[test]
fn real_gateway_pool_starts_empty_with_configured_capacity() {
    let gateway: DirectGateway<u8> = DirectGateway::new("test".to_string(), 3, 300_000);

    assert_eq!(gateway.max_connections_per_address, 3);
    assert!(gateway.pool.status_snapshot_with(|key: &DirectPoolKey| key.label()).is_empty());
}

#[test]
fn direct_sessions_give_their_handle_back() {
    let mut gateway: DirectGateway<u8> = DirectGateway::new("test".to_string(), 1, 300_000);
    assert_eq!(gateway.name(), "test");
    assert_eq!(gateway.kind(), GatewayKind::Direct);
    assert!(gateway.capabilities().contains(Capabilities::LIST));
    let resolved = resolved_with_auth(DirectAuth::NoAuth);
    let key = || DirectPoolKey::from_resolved(&resolved);
    assert!(matches!(gateway.pool.begin_checkout(&key()), Checkout::Create));
    let lease = gateway.pool.complete_create(key(), 7);
    gateway.session_done(lease, true, 0);
    let lease = match gateway.pool.begin_checkout(&key()) {
        Checkout::Reuse(lease) => lease,
        _ => panic!("the handle was not kept"),
    };
    assert_eq!(lease.resource, 7);
    gateway.session_done(lease, false, 0);
    assert!(matches!(gateway.pool.begin_checkout(&key()), Checkout::Create));
}

fn entry() -> ServerEntry {
    ServerEntry {
        alias: "web".to_string(),
        host: "10.0.0.1".to_string(),
        port: 22,
        user: "me".to_string(),
        auth: DirectAuth::NoAuth,
    }
}

#[test]
fn direct_targets_come_from_the_server_file() {
    let file = ServerConfigFile {
        defaults: ServerDefaults { identity_file: None, shell: "bash".to_string() },
        servers: vec![(
            "web".to_string(),
            ServerHostConfig {
                host: "10.0.0.1".to_string(),
                port: None,
                user: "me".to_string(),
                identity_file: None,
                password: None,
                shell: Some("zsh".to_string()),
            },
        )],
    };
    let resolved = resolve_target("web", Ok(&file), Ok(entry())).unwrap();
    assert_eq!(resolved.host, "10.0.0.1");
    assert_eq!(resolved.shell.as_deref(), Some("zsh"));
    assert_eq!(resolved.defaults_shell, "bash");
    let error = resolve_target("db", Ok(&file), Ok(entry())).unwrap_err();
    assert_eq!(error.kind, ErrorKind::Resolution);
    assert!(resolve_target("web", Err("unreadable".to_string()), Ok(entry())).is_err());
    let rows = list_servers(Ok(vec![entry()])).unwrap();
    assert_eq!(rows.len(), 1);
    assert_eq!(rows[0].server.alias, "web");
    assert!(list_servers(Err("unreadable".to_string())).is_err());
}

#[test]
fn direct_failures_are_transport_errors() {
    let key = DirectPoolKey::from_resolved(&resolved_with_auth(DirectAuth::NoAuth));
    assert_eq!(connect_failure(&key, "refused").kind, ErrorKind::Transport);
    assert!(connect_failure(&key, "refused").source.contains("refused"));
    assert_eq!(channel_failure("closed").kind, ErrorKind::Transport);
    assert_eq!(choose_shell("false", false, Some("zsh"), "bash"), "");
}

fn test_gateway() -> JumpserverGateway<u8, &'static str> {
    gateway_with_limit(None)
}

fn gateway_with_limit(max_cached_sessions: Option<usize>) -> JumpserverGateway<u8, &'static str> {
    JumpserverGateway::new(
        "jump".to_string(),
        JumpserverGatewayConfig {
            name: "jump".to_string(),
            host: "jump.example.test".to_string(),
            port: 22,
            user: "admin".to_string(),
            identity_file: "~/.ssh/id_rsa".to_string(),
            pubkey_accepted_algorithms: None,
            totp_secret_base32: String::new(),
            totp_digits: 6,
            totp_period: 30,
            max_cached_sessions,
            session_idle_timeout_ms: 300_000,
        },
        60_000,
    )
}

#[test]
fn jumpserver_capabilities_exclude_list() {
    let gateway = test_gateway();
    let caps = gateway.capabilities();
    assert!(caps.contains(Capabilities::EXEC));
    assert!(caps.contains(Capabilities::COPY));
    assert!(caps.contains(Capabilities::PROXY));
    assert!(!caps.contains(Capabilities::LIST));
}

#[test]
fn list_servers_is_unsupported_without_connecting() {
    let gateway = test_gateway();
    let result = gateway.list_servers();
    assert!(result.is_err());
    assert_eq!(result.unwrap_err().kind, ErrorKind::Unsupported);
    assert_eq!(gateway.transport.current_generation(), None);
}

#[test]
fn bastions_keep_shells_after_successful_copies() {
    let mut gateway = test_gateway();
    assert_eq!(gateway.cached_shell("10.0.0.1"), None);
    assert!(gateway.finish_copy("10.0.0.1".to_string(), "shell", Ok(()), 5).is_ok());
    assert_eq!(gateway.cached_shell("10.0.0.1"), Some("shell"));
    let failed = gateway.finish_copy("10.0.0.1".to_string(), "shell", Err("x".to_string()), 6);
    assert!(failed.is_err());
    assert_eq!(gateway.cached_shell("10.0.0.1"), None);
    let generation = gateway.transport.insert(1, 0);
    assert!(gateway.invalidate_transport(generation));
    assert_eq!(gateway.transport.current_generation(), None);
    assert_eq!(gateway.pool_status().active, 0);
}

#[test]
fn bastions_answer_codes_or_ask() {
    let gateway = test_gateway();
    assert!(matches!(
        gateway.mfa_answer("JBSWY3DPEHPK3PXP".to_string()),
        MfaAnswer::Totp(c) if c.digits == 6 && c.period == 30 && c.digest == "sha1"
    ));
    assert!(matches!(gateway.mfa_answer(String::new()), MfaAnswer::Ask(p) if p.gateway_name == "jump"));
    assert_eq!(gateway.transport_failure("x").kind, ErrorKind::Transport);
    assert_eq!(open_failure(OpenStage::OpenChannel, "x").kind, ErrorKind::Transport);
    assert_eq!(closed_transport().kind, ErrorKind::Transport);
}

#[test]
fn the_machine_itself_is_one_server() {
    let gateway = LocalhostGateway::new(
        None,
        None,
        Some("/usr/lib/sftp-server".to_string()),
        HostEnvironment {
            shell: Some("/bin/zsh".to_string()),
            user: None,
            logname: Some("me".to_string()),
            hostname: Some(b"box\0\0".to_vec()),
        },
    );
    assert_eq!(gateway.shell(), "/bin/zsh");
    assert_eq!(gateway.sftp_server_path(), Some("/usr/lib/sftp-server"));
    assert_eq!(gateway.kind(), GatewayKind::Localhost);
    let rows = gateway.list_servers().unwrap();
    assert_eq!(rows.len(), 1);
    assert_eq!(rows[0].server.host, "box");
    assert_eq!(rows[0].server.user, "me");
    assert_eq!(hostname_from(None), "localhost");
}

#[test]
fn shells_come_back_to_their_bastion() {
    let mut gateway = gateway_with_limit(Some(1));
    gateway.return_shell("10.0.0.1".to_string(), "old", 1);
    gateway.return_shell("10.0.0.2".to_string(), "new", 2);
    assert_eq!(gateway.cached_shell("10.0.0.1"), None);
    assert_eq!(gateway.pool_status().idle, 1);
    let generation = gateway.transport.insert(1, 0);
    gateway.prune_idle(0, 300_003);
    assert_eq!(gateway.transport.current_generation(), Some(generation));
    assert_eq!(gateway.cached_shell("10.0.0.2"), None);
    gateway.prune_idle(1, u64::MAX);
    assert_eq!(gateway.transport.current_generation(), Some(generation));
    gateway.prune_idle(0, u64::MAX);
    assert_eq!(gateway.transport.current_generation(), None);
}

fn broken<R>() -> Result<R, (ErrorCause, String)> {
    Err((ErrorCause::Message("Broken pipe".to_string()), "Broken pipe".to_string()))
}

#[test]
fn local_operations_reuse_connections_and_try_twice() {
    let mut gateway: LocalGateway<&str> =
        LocalGateway::new("local".to_string(), "/servers.toml".to_string(), 1, 100);
    assert_eq!(gateway.name(), "local");
    assert_eq!(gateway.kind(), GatewayKind::Direct);
    let target = resolved_with_auth(DirectAuth::NoAuth);
    assert!(gateway.get_connection(&target, |_| true).is_none());
    assert_eq!(
        LocalGateway::<u8>::connect_failure(&target, Attempt::First, "refused").source,
        "failed to connect to 127.0.0.1:22: refused"
    );
    assert_eq!(
        LocalGateway::<u8>::connect_failure(&target, Attempt::Second, "refused").source,
        "retry connect failed for 127.0.0.1:22: refused"
    );
    let slot = |conn| Slot { id: 1, conn, last_used: 0 };
    let step = gateway.finish_operation(&target, Attempt::First, slot("a"), broken::<i32>(), 5);
    assert!(matches!(step, LocalStep::Reconnect));
    let step = gateway.finish_operation(&target, Attempt::Second, slot("a"), broken::<i32>(), 5);
    assert!(matches!(step, LocalStep::Fail(e) if e.kind == ErrorKind::Transport));
    assert!(gateway.get_connection(&target, |_| true).is_none());
    let step = gateway.finish_operation(&target, Attempt::First, slot("b"), Ok(7), 5);
    assert!(matches!(step, LocalStep::Done(7)));
    let step = gateway.finish_operation(&target, Attempt::First, slot("c"), Ok(8), 6);
    assert!(matches!(step, LocalStep::Done(8)));
    let kept = gateway.get_connection(&target, |_| true).unwrap();
    assert_eq!((kept.conn, kept.last_used), ("b", 5));
    gateway.finish_operation(&target, Attempt::First, kept, Ok(9), 10);
    gateway.prune_idle(109);
    assert!(gateway.get_connection(&target, |_| false).is_none());
    gateway.finish_operation(&target, Attempt::First, slot("d"), Ok(9), 10);
    gateway.prune_idle(110);
    assert!(gateway.get_connection(&target, |_| true).is_none());
    let cause = ErrorCause::Message("no".to_string());
    assert_eq!(
        LocalGateway::<u8>::interactive_failure(&cause, "no".to_string()).kind,
        ErrorKind::Execution
    );
    assert!(LocalGateway::<u8>::resolve_target(
        "web",
        Ok(&ServerConfigFile::default()),
        Err("unused".to_string())
    )
    .is_err());
    assert!(LocalGateway::<u8>::list_servers(Err("x".to_string())).is_err());
}

fn hub_gateway() -> XhodGateway<&'static str> {
    XhodGateway::new(
        "hub".to_string(),
        "me@hub:22".to_string(),
        "/k".to_string(),
        "/kh".to_string(),
        50,
    )
}

#[test]
fn a_daemon_gateway_shares_its_client() {
    let mut gateway = hub_gateway();
    assert_eq!(gateway.name(), "hub");
    assert_eq!(gateway.kind(), GatewayKind::Xhod);
    assert!(gateway.capabilities().contains(Capabilities::LIST));
    assert_eq!(gateway.plan_transport(None, "/kh").unwrap().target.host, "hub");
    assert_eq!(gateway.ensure_client(0), None);
    let step = gateway.connected(Attempt::First, Err("refused".to_string()), 0);
    assert!(matches!(step, ClientStep::Retry));
    let step = gateway.connected(Attempt::Second, Err("refused".to_string()), 0);
    assert!(matches!(
        step,
        ClientStep::Fail(e)
            if e.source == "failed to establish gRPC channel over SSH for hub: refused"
    ));
    assert!(matches!(gateway.connected(Attempt::First, Ok("c"), 1), ClientStep::Use(1)));
    assert_eq!(gateway.ensure_client(2), Some(1));
    assert_eq!((gateway.pool_status(3).active, gateway.pool_status(3).capacity), (3, 1));
    gateway.prune_idle(1, 100);
    assert_eq!(gateway.ensure_client(2), Some(1));
    gateway.prune_idle(0, 53);
    assert_eq!(gateway.ensure_client(60), None);
    let argv = vec!["ls".to_string(), "a b".to_string()];
    assert_eq!(XhodGateway::<u8>::exec_command(&argv), "'ls' 'a b'");
}

#[test]
fn a_daemon_gateway_asks_twice_for_servers() {
    let mut gateway = hub_gateway();
    gateway.connected(Attempt::First, Ok("c"), 0);
    let row = RemoteRow {
        server: Some(ServerEntry {
            alias: "web".to_string(),
            host: "h".to_string(),
            port: 22,
            user: "me".to_string(),
            auth: DirectAuth::NoAuth,
        }),
        source: "local".to_string(),
    };
    let step = gateway.list_servers(Attempt::First, 1, Ok((Some(vec![row]), vec![])));
    assert!(matches!(step, ListStep::Done(rows) if rows.len() == 1));
    let step = gateway.list_servers(Attempt::First, 1, Err("down".to_string()));
    assert!(matches!(step, ListStep::Retry));
    assert_eq!(gateway.ensure_client(1), None);
    gateway.connected(Attempt::First, Ok("d"), 2);
    assert!(!gateway.invalidate_client(1));
    let step = gateway.list_servers(Attempt::Second, 2, Err("down".to_string()));
    assert!(matches!(step, ListStep::Fail(e) if e.source == "list_servers RPC failed: down"));
    assert_eq!(gateway.ensure_client(3), None);
}

#[test]
fn a_persistent_client_is_kept_until_it_breaks() {
    let mut gateway: RhopdGateway<&str> = RhopdGateway::new(
        "hub".to_string(),
        "me@hub:x".to_string(),
        String::new(),
        String::new(),
    );
    assert_eq!(gateway.name(), "hub");
    assert!(gateway
        .plan_transport(None, "/kh")
        .unwrap_err()
        .starts_with("failed to parse rhopd address \"me@hub:x\": "));
    assert_eq!(gateway.ensure_client(), None);
    let refused = gateway.connected(Err("refused".to_string())).unwrap_err();
    assert_eq!((refused.kind, refused.source.as_str()), (ErrorKind::Transport, "refused"));
    gateway.connected(Ok("c")).unwrap();
    assert_eq!(gateway.ensure_client(), Some(&"c"));
    assert!(matches!(gateway.finish_operation(Attempt::First, Ok(1)), OperationStep::Done(1)));
    assert!(gateway.ensure_client().is_some());
    let step = gateway.finish_operation(Attempt::First, broken::<i32>());
    assert!(matches!(step, OperationStep::Retry));
    assert_eq!(gateway.ensure_client(), None);
    gateway.connected(Ok("d")).unwrap();
    let failed = || (ErrorCause::Message("no".to_string()), "no".to_string());
    let step = gateway.finish_operation(Attempt::First, Err::<i32, _>(failed()));
    assert!(matches!(step, OperationStep::Fail { discard: false, .. }));
    assert!(gateway.ensure_client().is_some());
    let step = gateway.finish_operation(Attempt::Second, Err::<i32, _>(failed()));
    assert!(matches!(step, OperationStep::Fail { discard: true, .. }));
    assert_eq!(gateway.ensure_client(), None);
    assert_eq!(
        RhopdGateway::<u8>::interactive_failure(&ErrorCause::Ssh, "x".to_string()).kind,
        ErrorKind::Transport
    );
    let listed = |kind: &str, port: u32| ListedServer {
        alias: "web".to_string(),
        host: "h".to_string(),
        port,
        user: "me".to_string(),
        auth_kind: kind.to_string(),
    };
    let servers =
        RhopdGateway::<u8>::list_servers(Ok(vec![listed("password", 22), listed("key", 65_558)]))
            .unwrap();
    assert!(matches!(&servers[0].auth, DirectAuth::Password { password } if password.is_empty()));
    assert!(matches!(&servers[1].auth, DirectAuth::Key { .. }));
    assert_eq!(servers[1].port, 22);
    assert!(RhopdGateway::<u8>::list_servers(Err("x".to_string())).is_err());
}
