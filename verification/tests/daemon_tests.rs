use xhod::config::{
    AppConfig, DirectAuth, DirectGatewayConfig, GatewayConfig, ServerConfigFile, ServerEntry,
    ServerListRow, ServerListSource, SshLookup, XhodGatewayConfig,
};
use xhod::connections::ConnectionStatusSnapshot;
use xhod::daemon::{
    after_failed_step, build_gateways, finish_update, resolve_plan,
    resolve_target_with_merged_view, shutdown_daemon, startup_plan, status, temp_config_name,
    token_label, token_ttl, update_config,
};
use xhod::daemon::{
    CliStartOptions, DaemonOrigin, DaemonState, PlannedGateway, ResolvePlan, StartupStep,
    UpdateConfigRequest, UpdatePlan,
};
use xhod::gateway::{ErrorCause, ErrorKind, GatewayError, GatewayKind};
use xhod::listing::{
    asks_gateway, prefix_source, process_list_servers, remote_rows, reverse_nodes, GatewayAnswer,
    ListOutcome, NodeAnswer, RemoteRow, ServerListSourceStatus,
};
use xhod::reverse::{
    accept_node, reverse_subsystem, self_report, NodeWatch, ReverseProxyGateway,
    ReverseProxyNodeInfo, ReverseProxyRegistry, WatchAction, WatchEvent,
};

fn hub(name: &str) -> GatewayConfig {
    GatewayConfig::Xhod(XhodGatewayConfig {
        name: name.to_string(),
        address: "me@hub".to_string(),
        identity_file: String::new(),
        known_hosts_path: String::new(),
    })
}

fn server(alias: &str) -> ServerEntry {
    ServerEntry {
        alias: alias.to_string(),
        host: "10.0.0.1".to_string(),
        port: 22,
        user: "me".to_string(),
        auth: DirectAuth::NoAuth,
    }
}

fn node(name: &str) -> ReverseProxyNodeInfo {
    ReverseProxyNodeInfo {
        name: name.to_string(),
        peer_addr: None,
        fingerprint: "SHA256:x".to_string(),
        connected_at: Some(5),
        hostname: String::new(),
        user: String::new(),
    }
}

fn update(kind: &str, name: &str) -> UpdateConfigRequest {
    UpdateConfigRequest {
        mutation_type: kind.to_string(),
        name: name.to_string(),
        kind: "xhod".to_string(),
        address: "me@hub:22".to_string(),
        identity_file: String::new(),
        known_hosts_path: String::new(),
    }
}

#[test]
fn only_a_spawned_daemon_is_stopped() {
    assert!(shutdown_daemon(DaemonOrigin::CliSpawned).is_ok());
    assert!(shutdown_daemon(DaemonOrigin::External).is_err());
}

#[test]
fn a_gateway_can_be_added_and_removed() {
    let mut config = AppConfig::default();
    let reserved = vec!["local".to_string()];
    let plan = update_config(&mut config, update("add_gateway", " hub1 "), &reserved);
    assert!(matches!(&plan, UpdatePlan::Added(n) if n == "hub1"));
    let (answer, reload) = finish_update(&mut config, plan, Ok(()));
    assert!(answer.success && reload);
    assert_eq!(config.gateways[0].name(), "hub1");
    let plan = update_config(&mut config, update("remove_gateway", "hub1"), &reserved);
    let (answer, reload) = finish_update(&mut config, plan, Ok(()));
    assert!(answer.success && reload);
    assert!(config.gateways.is_empty());
}

#[test]
fn an_addition_that_is_not_written_is_undone() {
    let mut config = AppConfig::default();
    config.gateways.push(hub("old"));
    let plan = update_config(&mut config, update("add_gateway", "new"), &[]);
    let (answer, reload) = finish_update(&mut config, plan, Err("disk full".to_string()));
    assert_eq!(answer.message, "failed to write config: disk full");
    assert!(!answer.success && !reload);
    assert_eq!(config.gateways.len(), 1);
    assert_eq!(config.gateways[0].name(), "old");
}

#[test]
fn bad_changes_are_refused() {
    let mut config = AppConfig::default();
    config.gateways.push(hub("old"));
    let reserved = vec!["local".to_string(), "_self".to_string()];
    let message = |config: &mut AppConfig, req| match update_config(config, req, &reserved) {
        UpdatePlan::Answer(a) => a.message,
        _ => panic!("the change was made"),
    };
    assert_eq!(message(&mut config, update("add_gateway", "  ")), "name must not be empty");
    assert_eq!(
        message(&mut config, update("add_gateway", "local")),
        "name 'local' is reserved (reserved names: [\"local\", \"_self\"])"
    );
    assert_eq!(
        message(&mut config, update("add_gateway", "old")),
        "name 'old' is already used by an existing gateway"
    );
    let mut other = update("add_gateway", "new");
    other.kind = "direct".to_string();
    assert_eq!(
        message(&mut config, other),
        "add_gateway via RPC only supports kind 'xhod', got 'direct'"
    );
    assert_eq!(message(&mut config, update("remove_gateway", "new")), "gateway 'new' not found");
    assert_eq!(message(&mut config, update("rename", "new")), "unknown mutation_type: 'rename'");
}

#[test]
fn a_start_follows_its_configuration() {
    let mut config = AppConfig::default();
    config.gateways.push(hub("hub1"));
    config.gateways.push(GatewayConfig::Direct(DirectGatewayConfig {
        name: "lan".to_string(),
        host: "10.0.0.1".to_string(),
        port: 22,
    }));
    config.server.proxy.enable = true;
    config.server.proxy.listen_addr = "0.0.0.0:2200".to_string();
    config.ssh.max_connections_per_ip = 4;
    config.ssh.max_idle_time = 60;
    let plan = startup_plan(&config, Some("debug".to_string()));
    let names: Vec<&str> = plan.gateways.iter().map(|g| g.name()).collect();
    assert_eq!(names, ["local", "hub1", "lan", "_self"]);
    assert_eq!(plan.gateways[3].kind(), GatewayKind::Localhost);
    assert_eq!(plan.log_level, "debug");
    assert!(matches!(
        &plan.steps[..],
        [
            StartupStep::ServeProxy { listen_addr, .. },
            StartupStep::SpawnReaper,
            StartupStep::WatchHangup,
            StartupStep::ServeRpc
        ] if listen_addr == "0.0.0.0:2200"
    ));
    assert_eq!(after_failed_step(&plan.steps[0], "in use"), None);
    assert_eq!(after_failed_step(&plan.steps[3], "broken").as_deref(), Some("broken"));
    let bind = StartupStep::BindLocal("/run/x.sock".to_string());
    assert_eq!(
        after_failed_step(&bind, "in use").as_deref(),
        Some("failed to bind /run/x.sock")
    );
    config.server.local.enable = true;
    let steps = startup_plan(&config, None).steps;
    assert!(matches!(steps.first(), Some(StartupStep::PrepareSocket(_))));
    assert!(matches!(steps.last(), Some(StartupStep::RemoveSocket(_))));
    let planned = build_gateways(&config.ssh, "/etc/server.toml", &[hub("hub1")]);
    assert_eq!(planned.len(), 2);
    assert!(matches!(
        &planned[0],
        PlannedGateway::Direct {
            name,
            server_config_path,
            max_connections_per_address: 4,
            max_idle_time: 60
        } if name == "local" && server_config_path == "/etc/server.toml"
    ));
    assert_eq!((planned[1].name(), planned[1].kind()), ("hub1", GatewayKind::Xhod));
    assert!(matches!(planned[1], PlannedGateway::Xhod { max_idle_time: 60, .. }));
}

#[test]
fn the_status_reports_what_is_there() {
    let mut config = AppConfig::default();
    config.gateways.push(hub("hub1"));
    config.server.remote.enable = true;
    config.server.remote.listen_addr = "0.0.0.0:2222".to_string();
    let snapshots = vec![ConnectionStatusSnapshot {
        key: "a".to_string(),
        generation: 1,
        active: 2,
        idle: 3,
        capacity: 9,
    }];
    let s = status(&config, DaemonOrigin::External, &CliStartOptions::default(), vec![], &snapshots);
    assert_eq!((s.pools[0].total, s.pools[0].busy, s.pools[0].idle), (5, 2, 3));
    assert_eq!(s.gateways[0].kind, "xhod");
    assert_eq!(s.remote_addr, "0.0.0.0:2222");
    assert_eq!(s.proxy_addr, "");
    assert_eq!(s.reverse_proxy_client_status, "disabled");
    assert!(!s.cli_controllable);
}

#[test]
fn gateways_are_found_by_name() {
    let mut state = DaemonState {
        config: AppConfig::default(),
        gateways: vec![("local".to_string(), 1), ("hub1".to_string(), 2)],
        origin: DaemonOrigin::External,
        cli_start_options: CliStartOptions::default(),
        registry: ReverseProxyRegistry::new(),
    };
    state.registry.register("node1", 3, node("node1")).unwrap();
    assert_eq!(state.find_gateway("hub1"), Some(&2));
    assert_eq!(state.find_gateway("node1"), None);
    assert_eq!(state.find_gateway_any("node1"), Some(&3));
    assert_eq!(state.all_gateway_names(), ["local", "hub1", "node1"]);
    let next = || {
        let mut next = AppConfig::default();
        next.server.log_level = "warn".to_string();
        next.gateways.push(hub("hub2"));
        next
    };
    state.reload_config(None, true);
    state.reload_config(Some(next()), false);
    assert!(state.config.gateways.is_empty());
    state.reload_config(Some(next()), true);
    assert_eq!(state.config.gateways.len(), 1);
    assert_eq!(state.config.server.log_level, "warn");
    assert_eq!(state.gateways.len(), 2);
}

#[test]
fn gateway_names_mean_the_machine_behind_them() {
    let names = vec!["local".to_string(), "hub1".to_string()];
    assert!(matches!(
        resolve_plan("hub1", &names, &[]),
        ResolvePlan::Gateway(r) if r.gateway_name == "hub1" && r.end_target == "_self"
    ));
    assert!(matches!(resolve_plan("local", &names, &[]), ResolvePlan::Merged));
    assert!(matches!(resolve_plan("hub1:web", &names, &[]), ResolvePlan::Qualified));
    let mut config = AppConfig::default();
    config.gateways.push(hub("hub1"));
    let rows = vec![ServerListRow {
        source: ServerListSource::Gateway("hub1".to_string()),
        server: server("web"),
    }];
    let files = ServerConfigFile::default();
    let r = resolve_target_with_merged_view(
        "web", &names, &[], &config, &files, &[], &SshLookup::NotFound, &rows,
    )
    .unwrap();
    assert_eq!(r.routes[0].gateway_name, "hub1");
}

#[test]
fn tokens_have_a_life_and_a_label() {
    assert_eq!(token_ttl(0), 300);
    assert_eq!(token_ttl(5), 5);
    assert_eq!(token_label(Some("  a ".to_string())).as_deref(), Some("a"));
    assert_eq!(token_label(Some("  ".to_string())), None);
    assert_eq!(temp_config_name(42), ".config.toml.tmp.42");
}

#[test]
fn nodes_are_registered_once() {
    let mut registry = ReverseProxyRegistry::new();
    assert!(registry.register("b", 1, node("b")).is_ok());
    assert!(registry.register("a", 2, node("a")).is_ok());
    assert!(registry.register("a", 3, node("a")).is_err());
    assert_eq!(registry.len(), 2);
    assert_eq!(registry.get("a"), Some(&2));
    registry.update_node_info("a", "box".to_string(), "me".to_string());
    let nodes = registry.list_nodes();
    let a = nodes.iter().find(|n| n.name == "a").unwrap();
    assert_eq!((a.hostname.as_str(), a.user.as_str(), a.connected_at), ("box", "me", 5));
    assert!(registry.unregister("a"));
    assert!(!registry.unregister("a"));
    assert!(!registry.contains("a"));
    assert_eq!(registry.list_names(), ["b"]);
}

#[test]
fn nodes_are_accepted_and_checked() {
    assert_eq!(reverse_subsystem("n"), "xho-reverse:n");
    assert!(accept_node("n", false).is_ok());
    assert!(accept_node("n", true).is_err());
    assert!(accept_node("", false).is_err());
    assert_eq!(self_report(&[None, Some(server("web"))]), None);
    assert_eq!(
        self_report(&[None, Some(server("_self"))]),
        Some(("10.0.0.1".to_string(), "me".to_string()))
    );
}

#[test]
fn a_node_is_watched_until_it_is_gone() {
    let mut watch = NodeWatch::new("n".to_string());
    assert!(watch.on_event(WatchEvent::Waited).is_empty());
    let actions = watch.on_event(WatchEvent::Arrived { taken: false });
    assert!(matches!(actions[..], [WatchAction::Register]));
    let actions = watch.on_event(WatchEvent::Registered(Ok(())));
    assert!(matches!(actions[..], [WatchAction::LookUp]));
    let actions = watch.on_event(WatchEvent::LookedUp(true));
    assert!(matches!(actions[..], [WatchAction::Ask]));
    let actions = watch.on_event(WatchEvent::Answered(Ok(Some(vec![Some(server("_self"))]))));
    assert!(matches!(
        &actions[..],
        [WatchAction::Update { hostname, user }, WatchAction::Wait { seconds: 15 }]
            if hostname == "10.0.0.1" && user == "me"
    ));
    assert!(matches!(watch.on_event(WatchEvent::Waited)[..], [WatchAction::LookUp]));
    watch.on_event(WatchEvent::LookedUp(true));
    let actions = watch.on_event(WatchEvent::Answered(Err("gone".to_string())));
    assert!(matches!(actions[..], [WatchAction::Unregister, WatchAction::Finish]));
    assert!(watch.on_event(WatchEvent::Waited).is_empty());

    let mut refused = NodeWatch::new("n".to_string());
    let actions = refused.on_event(WatchEvent::Arrived { taken: true });
    assert!(matches!(
        &actions[..],
        [WatchAction::Fail(e)]
            if e == "reverse proxy node name 'n' is already registered; refusing new connection"
    ));
}

#[test]
fn a_node_whose_connection_is_gone_is_unregistered() {
    let mut registry = ReverseProxyRegistry::new();
    registry.register("n", 1, node("n")).unwrap();
    let gateway = ReverseProxyGateway::new("n".to_string(), ());
    assert_eq!(gateway.kind(), GatewayKind::ReverseProxy);
    assert_eq!(gateway.name(), "n");
    assert_eq!(gateway.finish_operation(&mut registry, Ok(3)).unwrap(), 3);
    let failed: Result<i32, _> =
        Err((ErrorCause::Message("exit".to_string()), "exit".to_string()));
    let error = gateway.finish_operation(&mut registry, failed).unwrap_err();
    assert_eq!(error.kind, ErrorKind::Execution);
    assert!(registry.contains("n"));
    let lost: Result<i32, _> = Err((ErrorCause::Ssh, "lost".to_string()));
    assert_eq!(gateway.finish_operation(&mut registry, lost).unwrap_err().kind, ErrorKind::Transport);
    assert!(!registry.contains("n"));
    registry.register("n", 1, node("n")).unwrap();
    let answer = Ok((None, vec![server("web")]));
    let rows = gateway.list_servers(&mut registry, answer).unwrap();
    assert_eq!(rows[0].source, ServerListSource::Gateway("n".to_string()));
    assert!(registry.contains("n"));
    let error = gateway.list_servers(&mut registry, Err("down".to_string())).unwrap_err();
    assert_eq!(error.kind, ErrorKind::Transport);
    assert_eq!(error.source, "list_servers RPC failed: down");
    assert!(!registry.contains("n"));
}

#[test]
fn sources_lie_behind_their_gateway() {
    assert_eq!(prefix_source("hub", "local"), ServerListSource::Gateway("hub".to_string()));
    assert_eq!(prefix_source("hub", "sub"), ServerListSource::Gateway("hub:sub".to_string()));
    let rows = remote_rows(
        "hub",
        Some(vec![
            RemoteRow { server: Some(server("a")), source: "sub".to_string() },
            RemoteRow { server: None, source: "sub".to_string() },
        ]),
        vec![],
    );
    assert_eq!(rows.len(), 1);
    assert_eq!(rows[0].source, ServerListSource::Gateway("hub:sub".to_string()));
    assert_eq!(remote_rows("hub", None, vec![server("b")]).len(), 1);
}

#[test]
fn every_source_is_reported() {
    let gateways = || {
        vec![
            GatewayAnswer {
                name: "local".to_string(),
                kind: GatewayKind::Direct,
                outcome: ListOutcome::Rows(vec![ServerListRow {
                    source: ServerListSource::Local,
                    server: server("web"),
                }]),
            },
            GatewayAnswer {
                name: "jump".to_string(),
                kind: GatewayKind::Jumpserver,
                outcome: ListOutcome::Failed(GatewayError::unsupported("no".to_string())),
            },
            GatewayAnswer {
                name: "hub".to_string(),
                kind: GatewayKind::Xhod,
                outcome: ListOutcome::TimedOut,
            },
        ]
    };
    let nodes = vec![NodeAnswer { node: node("n1").status(), outcome: None }];
    let (rows, reports) = process_list_servers(gateways(), nodes, false);
    assert_eq!(rows.len(), 2);
    assert_eq!(rows[1].server.alias, "n1");
    assert_eq!(reports.len(), 4);
    assert!(matches!(reports[1].status, ServerListSourceStatus::Unsupported));
    assert!(matches!(&reports[2].status, ServerListSourceStatus::Error(e) if e == "timeout"));
    assert_eq!(reverse_nodes(&rows, &["n1".to_string()]), [false, true]);
    let (_, reports) = process_list_servers(gateways(), vec![], true);
    assert_eq!(reports.len(), 2);
    assert!(!asks_gateway(GatewayKind::Xhod, true));
}
