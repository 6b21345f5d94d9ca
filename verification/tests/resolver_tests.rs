use xhod::config::{
    AppConfig, DirectAuth, FallbackEntry, GatewayConfig, JumpserverGatewayConfig, ServerConfigFile,
    ServerDefaults, ServerEntry, ServerHostConfig, ServerListRow, ServerListSource, SshHostEntry,
    SshLookup, XhodGatewayConfig,
};
use xhod::resolver::{
    derive_target_ip, full_target_name, parse_explicit_qualified, route_from_source, Resolver,
};

#[test]
fn derives_target_ip_from_suffix() {
    assert_eq!(derive_target_ip("foo-192-0-2-163"), "192.0.2.163");
    assert_eq!(derive_target_ip("192.0.2.163"), "192.0.2.163");
}

#[test]
fn parse_explicit_qualified_valid() {
    assert_eq!(
        parse_explicit_qualified("myjump:myserver"),
        Some(("myjump", "myserver"))
    );
    assert_eq!(
        parse_explicit_qualified("local:web01"),
        Some(("local", "web01"))
    );
}

#[test]
fn parse_explicit_qualified_rejects_port_like() {
    assert_eq!(parse_explicit_qualified("host:22"), None);
}

#[test]
fn parse_explicit_qualified_rejects_empty_parts() {
    assert_eq!(parse_explicit_qualified(":server"), None);
    assert_eq!(parse_explicit_qualified("jump:"), None);
    assert_eq!(parse_explicit_qualified(":"), None);
}

#[test]
fn parse_explicit_qualified_rejects_ipv6() {
    assert_eq!(parse_explicit_qualified("::1"), None);
    assert_eq!(parse_explicit_qualified("fe80::1"), None);
}

#[test]
fn parse_explicit_qualified_rejects_no_colon() {
    assert_eq!(parse_explicit_qualified("bareserver"), None);
}

#[test]
fn parse_explicit_qualified_multi_colon_two_levels() {
    assert_eq!(
        parse_explicit_qualified("remote-xhod:sub-gw:server1"),
        Some(("remote-xhod", "sub-gw:server1"))
    );
}

#[test]
fn parse_explicit_qualified_multi_colon_three_levels() {
    assert_eq!(
        parse_explicit_qualified("gw:sub:deep:server1"),
        Some(("gw", "sub:deep:server1"))
    );
}

fn make_server_config_with(entries: Vec<(&str, &str)>) -> ServerConfigFile {
    let mut servers = Vec::new();
    for (alias, host) in entries {
        servers.push((
            alias.to_string(),
            ServerHostConfig {
                host: host.to_string(),
                port: Some(22),
                user: "testuser".to_string(),
                identity_file: Some("/tmp/test_key".to_string()),
                password: None,
                shell: None,
            },
        ));
    }
    ServerConfigFile {
        defaults: ServerDefaults {
            identity_file: None,
            shell: String::new(),
        },
        servers,
    }
}

#[test]
fn resolver_explicit_local_found() {
    let config = AppConfig::default();
    let server_config = make_server_config_with(vec![("web01", "10.0.0.1")]);
    let gateways: Vec<GatewayConfig> = vec![];

    let resolver = Resolver::new(&config, &server_config, &gateways);
    let routes = resolver.resolve("local:web01").unwrap();

    assert_eq!(routes.len(), 1);
    assert_eq!(routes[0].gateway_name, "local");
    assert_eq!(routes[0].end_target, "web01");
}

#[test]
fn resolver_explicit_local_not_found() {
    let config = AppConfig::default();
    let server_config = make_server_config_with(vec![("web01", "10.0.0.1")]);
    let gateways: Vec<GatewayConfig> = vec![];

    let resolver = Resolver::new(&config, &server_config, &gateways);
    let result = resolver.resolve("local:nonexistent");

    assert!(result.is_err());
    let msg = result.unwrap_err().to_string();
    assert!(msg.contains("not found"));
}

#[test]
fn resolver_explicit_gateway() {
    let config = AppConfig::default();
    let server_config = make_server_config_with(vec![]);
    let gateways = vec![GatewayConfig::Xhod(XhodGatewayConfig {
        name: "remote1".to_string(),
        address: "10.0.0.99:2222".to_string(),
        identity_file: String::new(),
        known_hosts_path: String::new(),
    })];

    let resolver = Resolver::new(&config, &server_config, &gateways);
    let routes = resolver.resolve("remote1:db01").unwrap();

    assert_eq!(routes.len(), 1);
    assert_eq!(routes[0].gateway_name, "remote1");
    assert_eq!(routes[0].end_target, "db01");
}

#[test]
fn resolver_explicit_unknown_gateway() {
    let config = AppConfig::default();
    let server_config = make_server_config_with(vec![]);
    let gateways: Vec<GatewayConfig> = vec![];

    let resolver = Resolver::new(&config, &server_config, &gateways);
    let result = resolver.resolve("unknown:db01");

    assert!(result.is_err());
    let msg = result.unwrap_err().to_string();
    assert!(msg.contains("not found"));
}

#[test]
fn resolver_bare_alias_found_in_server_config() {
    let config = AppConfig::default();
    let server_config = make_server_config_with(vec![("web01", "10.0.0.1")]);
    let gateways: Vec<GatewayConfig> = vec![];

    let resolver = Resolver::new(&config, &server_config, &gateways);
    let routes = resolver.resolve("web01").unwrap();

    assert_eq!(routes.len(), 1);
    assert_eq!(routes[0].gateway_name, "local");
    assert_eq!(routes[0].end_target, "web01");
}

#[test]
fn resolver_bare_host_found_in_server_config() {
    let config = AppConfig::default();
    let server_config = make_server_config_with(vec![("web01", "10.0.0.1")]);
    let gateways: Vec<GatewayConfig> = vec![];

    let resolver = Resolver::new(&config, &server_config, &gateways);
    let routes = resolver.resolve("10.0.0.1").unwrap();

    assert_eq!(routes.len(), 1);
    assert_eq!(routes[0].gateway_name, "local");
    assert_eq!(routes[0].end_target, "web01");
}

#[test]
fn resolver_fallback_jumpserver_enabled() {
    let mut config = AppConfig::default();
    config.ssh.fallback = vec![FallbackEntry::Gateway("test-jump".to_string())];
    config.ssh.server_config_path = "/tmp/nonexistent_server.toml".to_string();
    config.ssh.ssh_config_path = "/tmp/nonexistent_ssh_config".to_string();

    let server_config = ServerConfigFile::default();
    let gateways = vec![GatewayConfig::Jumpserver(JumpserverGatewayConfig {
        name: "test-jump".to_string(),
        host: "jump.example.com".to_string(),
        port: 22,
        user: "admin".to_string(),
        identity_file: String::new(),
        pubkey_accepted_algorithms: None,
        totp_secret_base32: String::new(),
        totp_digits: 6,
        totp_period: 30,
        max_cached_sessions: None,
        session_idle_timeout_ms: 300_000,
    })];

    let resolver = Resolver::new(&config, &server_config, &gateways);
    let routes = resolver.resolve("somehost").unwrap();

    assert_eq!(routes.len(), 1);
    assert_eq!(routes[0].gateway_name, "test-jump");
    assert_eq!(routes[0].end_target, "somehost");
}

#[test]
fn resolver_fallback_jumpserver_disabled() {
    let mut config = AppConfig::default();
    config.ssh.fallback = vec![FallbackEntry::Gateway("nonexistent-jump".to_string())];
    config.ssh.server_config_path = "/tmp/nonexistent_server.toml".to_string();
    config.ssh.ssh_config_path = "/tmp/nonexistent_ssh_config".to_string();

    let server_config = ServerConfigFile::default();
    let gateways: Vec<GatewayConfig> = vec![];

    let resolver = Resolver::new(&config, &server_config, &gateways);
    let result = resolver.resolve("somehost");

    assert!(result.is_err());
}

#[test]
fn resolver_empty_fallback_contributes_zero_candidates() {
    let mut config = AppConfig::default();
    config.ssh.fallback = vec![];
    config.ssh.server_config_path = "/tmp/nonexistent_server.toml".to_string();
    config.ssh.ssh_config_path = "/tmp/nonexistent_ssh_config".to_string();

    let server_config = ServerConfigFile::default();
    let gateways: Vec<GatewayConfig> = vec![];

    let resolver = Resolver::new(&config, &server_config, &gateways);
    let result = resolver.resolve("somehost");

    assert!(result.is_err());
}

#[test]
fn resolver_server_config_takes_priority_over_fallback() {
    let mut config = AppConfig::default();
    config.ssh.fallback = vec![FallbackEntry::Gateway("test-jump".to_string())];
    config.ssh.server_config_path = "/tmp/nonexistent_server.toml".to_string();
    config.ssh.ssh_config_path = "/tmp/nonexistent_ssh_config".to_string();

    let server_config = make_server_config_with(vec![("web01", "10.0.0.1")]);
    let gateways = vec![GatewayConfig::Jumpserver(JumpserverGatewayConfig {
        name: "test-jump".to_string(),
        host: "jump.example.com".to_string(),
        port: 22,
        user: "admin".to_string(),
        identity_file: String::new(),
        pubkey_accepted_algorithms: None,
        totp_secret_base32: String::new(),
        totp_digits: 6,
        totp_period: 30,
        max_cached_sessions: None,
        session_idle_timeout_ms: 300_000,
    })];

    let resolver = Resolver::new(&config, &server_config, &gateways);
    let routes = resolver.resolve("web01").unwrap();

    // Server config match should be returned, not the jumpserver fallback
    assert_eq!(routes.len(), 1);
    assert_eq!(routes[0].gateway_name, "local");
    assert_eq!(routes[0].end_target, "web01");
}

#[test]
fn resolver_idempotent() {
    let config = AppConfig::default();
    let server_config = make_server_config_with(vec![("web01", "10.0.0.1")]);
    let gateways: Vec<GatewayConfig> = vec![];

    let resolver = Resolver::new(&config, &server_config, &gateways);
    let routes1 = resolver.resolve("web01").unwrap();
    let routes2 = resolver.resolve("web01").unwrap();

    assert_eq!(routes1.len(), routes2.len());
    for (r1, r2) in routes1.iter().zip(routes2.iter()) {
        assert_eq!(r1.gateway_name, r2.gateway_name);
        assert_eq!(r1.end_target, r2.end_target);
    }
}

#[test]
fn resolver_derived_ip_matches_server_host() {
    let config = AppConfig::default();
    let server_config = make_server_config_with(vec![("web01", "192.0.2.163")]);
    let gateways: Vec<GatewayConfig> = vec![];

    let resolver = Resolver::new(&config, &server_config, &gateways);
    let routes = resolver.resolve("foo-192-0-2-163").unwrap();

    assert_eq!(routes.len(), 1);
    assert_eq!(routes[0].gateway_name, "local");
    assert_eq!(routes[0].end_target, "web01");
}

// --- Tests for merged-view resolution ---

fn make_merged_rows() -> Vec<ServerListRow> {
    vec![
        ServerListRow {
            source: ServerListSource::Local,
            server: ServerEntry {
                alias: "web01".to_string(),
                host: "10.0.0.1".to_string(),
                port: 22,
                user: "deploy".to_string(),
                auth: DirectAuth::Key {
                    identity_file: "/tmp/key".to_string(),
                },
            },
        },
        ServerListRow {
            source: ServerListSource::Gateway("remote1".to_string()),
            server: ServerEntry {
                alias: "db01".to_string(),
                host: "192.168.1.10".to_string(),
                port: 22,
                user: "admin".to_string(),
                auth: DirectAuth::Key {
                    identity_file: "/tmp/key".to_string(),
                },
            },
        },
        ServerListRow {
            source: ServerListSource::Local,
            server: ServerEntry {
                alias: "shared".to_string(),
                host: "10.0.0.5".to_string(),
                port: 22,
                user: "deploy".to_string(),
                auth: DirectAuth::Key {
                    identity_file: "/tmp/key".to_string(),
                },
            },
        },
        ServerListRow {
            source: ServerListSource::Gateway("remote1".to_string()),
            server: ServerEntry {
                alias: "shared".to_string(),
                host: "192.168.1.5".to_string(),
                port: 22,
                user: "admin".to_string(),
                auth: DirectAuth::Key {
                    identity_file: "/tmp/key".to_string(),
                },
            },
        },
        ServerListRow {
            source: ServerListSource::Gateway("remote1:nested-xhod".to_string()),
            server: ServerEntry {
                alias: "deep01".to_string(),
                host: "172.16.1.20".to_string(),
                port: 22,
                user: "admin".to_string(),
                auth: DirectAuth::Key {
                    identity_file: "/tmp/key".to_string(),
                },
            },
        },
        ServerListRow {
            source: ServerListSource::Gateway("remote1:nested-xhod".to_string()),
            server: ServerEntry {
                alias: "shared".to_string(),
                host: "172.16.1.21".to_string(),
                port: 22,
                user: "admin".to_string(),
                auth: DirectAuth::Key {
                    identity_file: "/tmp/key".to_string(),
                },
            },
        },
    ]
}

#[test]
fn resolver_merged_view_bare_alias_unique() {
    let config = AppConfig::default();
    let server_config = make_server_config_with(vec![("web01", "10.0.0.1")]);
    let gateways = vec![GatewayConfig::Xhod(XhodGatewayConfig {
        name: "remote1".to_string(),
        address: "10.0.0.99:2222".to_string(),
        identity_file: String::new(),
        known_hosts_path: String::new(),
    })];
    let merged_rows = make_merged_rows();

    let resolver = Resolver::with_merged_view(&config, &server_config, &gateways, &merged_rows);

    // "db01" is unique (only in remote1)
    let routes = resolver.resolve("db01").unwrap();
    assert_eq!(routes.len(), 1);
    assert_eq!(routes[0].gateway_name, "remote1");
    assert_eq!(routes[0].end_target, "db01");
}

#[test]
fn resolver_merged_view_bare_alias_unique_local() {
    let config = AppConfig::default();
    let server_config = make_server_config_with(vec![("web01", "10.0.0.1")]);
    let gateways = vec![GatewayConfig::Xhod(XhodGatewayConfig {
        name: "remote1".to_string(),
        address: "10.0.0.99:2222".to_string(),
        identity_file: String::new(),
        known_hosts_path: String::new(),
    })];
    let merged_rows = make_merged_rows();

    let resolver = Resolver::with_merged_view(&config, &server_config, &gateways, &merged_rows);

    // "web01" is unique (only in local)
    let routes = resolver.resolve("web01").unwrap();
    assert_eq!(routes.len(), 1);
    assert_eq!(routes[0].gateway_name, "local");
    assert_eq!(routes[0].end_target, "web01");
}

#[test]
fn resolver_merged_view_bare_alias_ambiguous_uses_first_with_warning() {
    let config = AppConfig::default();
    let server_config = make_server_config_with(vec![("shared", "10.0.0.5")]);
    let gateways = vec![GatewayConfig::Xhod(XhodGatewayConfig {
        name: "remote1".to_string(),
        address: "10.0.0.99:2222".to_string(),
        identity_file: String::new(),
        known_hosts_path: String::new(),
    })];
    let merged_rows = make_merged_rows();

    let resolver = Resolver::with_merged_view(&config, &server_config, &gateways, &merged_rows);

    // "shared" exists in multiple sources — choose the first merged row.
    let result = resolver.resolve_with_warning("shared").unwrap();
    assert_eq!(result.routes.len(), 1);
    assert_eq!(result.routes[0].gateway_name, "local");
    assert_eq!(result.routes[0].end_target, "shared");
    let warning = result.warning.expect("ambiguous match should warn");
    assert!(
        warning.contains("using local:shared"),
        "warning should mention chosen target: {}",
        warning
    );
    assert!(
        warning.contains("remote1:shared") && warning.contains("remote1:nested-xhod:shared"),
        "warning should mention other targets: {}",
        warning
    );
}

#[test]
fn resolver_merged_view_bare_alias_multi_level_source() {
    let config = AppConfig::default();
    let server_config = make_server_config_with(vec![]);
    let gateways = vec![GatewayConfig::Xhod(XhodGatewayConfig {
        name: "remote1".to_string(),
        address: "10.0.0.99:2222".to_string(),
        identity_file: String::new(),
        known_hosts_path: String::new(),
    })];
    let merged_rows = make_merged_rows();

    let resolver = Resolver::with_merged_view(&config, &server_config, &gateways, &merged_rows);

    let result = resolver.resolve_with_warning("deep01").unwrap();
    assert_eq!(result.routes.len(), 1);
    assert_eq!(result.routes[0].gateway_name, "remote1");
    assert_eq!(result.routes[0].end_target, "nested-xhod:deep01");
    assert!(result.warning.is_none());
}

#[test]
fn resolver_merged_view_explicit_gateway_found() {
    let config = AppConfig::default();
    let server_config = make_server_config_with(vec![("web01", "10.0.0.1")]);
    let gateways = vec![GatewayConfig::Xhod(XhodGatewayConfig {
        name: "remote1".to_string(),
        address: "10.0.0.99:2222".to_string(),
        identity_file: String::new(),
        known_hosts_path: String::new(),
    })];
    let merged_rows = make_merged_rows();

    let resolver = Resolver::with_merged_view(&config, &server_config, &gateways, &merged_rows);

    // Explicit "remote1:db01" should work
    let routes = resolver.resolve("remote1:db01").unwrap();
    assert_eq!(routes.len(), 1);
    assert_eq!(routes[0].gateway_name, "remote1");
    assert_eq!(routes[0].end_target, "db01");
}

#[test]
fn resolver_merged_view_explicit_multi_level_gateway_found() {
    let config = AppConfig::default();
    let server_config = make_server_config_with(vec![]);
    let gateways = vec![GatewayConfig::Xhod(XhodGatewayConfig {
        name: "remote1".to_string(),
        address: "10.0.0.99:2222".to_string(),
        identity_file: String::new(),
        known_hosts_path: String::new(),
    })];
    let merged_rows = make_merged_rows();

    let resolver = Resolver::with_merged_view(&config, &server_config, &gateways, &merged_rows);

    let routes = resolver.resolve("remote1:nested-xhod:deep01").unwrap();
    assert_eq!(routes.len(), 1);
    assert_eq!(routes[0].gateway_name, "remote1");
    assert_eq!(routes[0].end_target, "nested-xhod:deep01");
}

#[test]
fn resolver_merged_view_explicit_gateway_not_found() {
    let config = AppConfig::default();
    let server_config = make_server_config_with(vec![("web01", "10.0.0.1")]);
    let gateways = vec![GatewayConfig::Xhod(XhodGatewayConfig {
        name: "remote1".to_string(),
        address: "10.0.0.99:2222".to_string(),
        identity_file: String::new(),
        known_hosts_path: String::new(),
    })];
    let merged_rows = make_merged_rows();

    let resolver = Resolver::with_merged_view(&config, &server_config, &gateways, &merged_rows);

    // Explicit "remote1:nonexistent" should fail
    let result = resolver.resolve("remote1:nonexistent");
    assert!(result.is_err());
    let msg = result.unwrap_err().to_string();
    assert!(
        msg.contains("not found"),
        "error should mention not found: {}",
        msg
    );
}

#[test]
fn resolver_merged_view_explicit_local_found() {
    let config = AppConfig::default();
    let server_config = make_server_config_with(vec![("web01", "10.0.0.1")]);
    let gateways: Vec<GatewayConfig> = vec![];
    let merged_rows = make_merged_rows();

    let resolver = Resolver::with_merged_view(&config, &server_config, &gateways, &merged_rows);

    // Explicit "local:web01" should work
    let routes = resolver.resolve("local:web01").unwrap();
    assert_eq!(routes.len(), 1);
    assert_eq!(routes[0].gateway_name, "local");
    assert_eq!(routes[0].end_target, "web01");
}

#[test]
fn resolver_merged_view_bare_not_found_falls_through() {
    let mut config = AppConfig::default();
    config.ssh.fallback = vec![FallbackEntry::Gateway("test-jump".to_string())];
    config.ssh.server_config_path = "/tmp/nonexistent_server.toml".to_string();
    config.ssh.ssh_config_path = "/tmp/nonexistent_ssh_config".to_string();

    let server_config = ServerConfigFile::default();
    let gateways = vec![GatewayConfig::Jumpserver(JumpserverGatewayConfig {
        name: "test-jump".to_string(),
        host: "jump.example.com".to_string(),
        port: 22,
        user: "admin".to_string(),
        identity_file: String::new(),
        pubkey_accepted_algorithms: None,
        totp_secret_base32: String::new(),
        totp_digits: 6,
        totp_period: 30,
        max_cached_sessions: None,
        session_idle_timeout_ms: 300_000,
    })];
    let merged_rows = make_merged_rows();

    let resolver = Resolver::with_merged_view(&config, &server_config, &gateways, &merged_rows);

    // "unknown_host" is not in the merged view — should fall through to fallback
    let routes = resolver.resolve("unknown_host").unwrap();
    assert_eq!(routes.len(), 1);
    assert_eq!(routes[0].gateway_name, "test-jump");
    assert_eq!(routes[0].end_target, "unknown_host");
}

#[test]
fn full_names_lead_back_to_their_route() {
    for source in [
        ServerListSource::Local,
        ServerListSource::Gateway("gw".to_string()),
        ServerListSource::Gateway("gw:sub".to_string()),
    ] {
        let name = full_target_name(&source, "alpha");
        let route = route_from_source(&source, "alpha").unwrap();
        assert_eq!(
            parse_explicit_qualified(&name),
            Some((route.gateway_name.as_str(), route.end_target.as_str()))
        );
    }
}

#[test]
fn fallback_asks_the_ssh_configuration() {
    let mut config = AppConfig::default();
    config.ssh.fallback = vec![FallbackEntry::Local];
    let server_config = ServerConfigFile::default();
    let gateways: Vec<GatewayConfig> = vec![];
    let found = SshLookup::Found(SshHostEntry {
        user: Some("me".to_string()),
        identity_file: Some("/tmp/key".to_string()),
        proxy_command: None,
    });
    let resolver = Resolver::new(&config, &server_config, &gateways).with_ssh_lookup(&found);
    let routes = resolver.resolve("somehost").unwrap();
    assert_eq!(routes.len(), 1);
    assert_eq!(routes[0].gateway_name, "local");
    assert_eq!(routes[0].end_target, "somehost");
    let proxied = SshLookup::Found(SshHostEntry {
        user: Some("me".to_string()),
        identity_file: Some("/tmp/key".to_string()),
        proxy_command: Some("nc".to_string()),
    });
    let resolver = Resolver::new(&config, &server_config, &gateways).with_ssh_lookup(&proxied);
    assert_eq!(
        resolver.resolve("somehost").unwrap_err(),
        "ProxyCommand is not supported for direct SSH targets"
    );
}

#[test]
fn servers_without_a_complete_entry_are_absent() {
    let config = AppConfig::default();
    let server_config = make_server_config_with(vec![("web01", "10.0.0.1")]);
    let gateways: Vec<GatewayConfig> = vec![];
    let unresolved = vec!["web01".to_string()];
    let resolver =
        Resolver::new(&config, &server_config, &gateways).with_unresolved_servers(&unresolved);
    assert!(resolver.resolve("local:web01").is_err());
    assert!(resolver.resolve("web01").is_err());
}

#[test]
fn connected_nodes_are_gateways() {
    let config = AppConfig::default();
    let server_config = ServerConfigFile::default();
    let gateways: Vec<GatewayConfig> = vec![];
    let nodes = vec!["node1".to_string()];
    let resolver = Resolver::new(&config, &server_config, &gateways).with_dynamic_gateways(&nodes);
    let routes = resolver.resolve("node1:db").unwrap();
    assert_eq!(routes[0].gateway_name, "node1");
    assert_eq!(routes[0].end_target, "db");
}
