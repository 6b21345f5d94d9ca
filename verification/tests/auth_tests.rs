use xhod::auth::{
    after_keyboard_interactive, after_password, after_public_key, answer_prompt, code_from_digest,
    expand_tilde, generate_totp, inspect_known_host, normalize_paths, parse_remote_target, totp_at,
    wants_legacy_ssh_rsa,
};
use xhod::auth::{
    AuthReply, InteractiveReply, InteractiveStep, KeyAuthStep, KnownHostLookup, KnownHostState,
    MfaConfig, PromptAnswer, RemoteTarget,
};
use xhod::keys::{
    append_authorized_key, bootstrap_authorize, is_authorized_key, AppendPlan, BootstrapError,
};
use xhod::remote::{
    key_auth_result, node_failure, plan_connection, plan_node, rpc_failure, ConnectAction,
    ConnectEvent, Connector, KeyOutcome, NodeAction, NodeClient, NodeEvent, NodeStage,
    ServeOutcome,
};

const KEY_LINE: &str =
    "ssh-ed25519 AAAAC3NzaC1lZDI1NTE5AAAAILM+rvN+ot98qgEN796jTiQfZfG1KaT0PtFDJ/XFSqti me@example";

fn mfa(digest: &str, secret: &str) -> MfaConfig {
    MfaConfig {
        totp_secret_base32: secret.to_string(),
        digits: 6,
        period: 30,
        digest: digest.to_string(),
    }
}

#[test]
fn generates_valid_totp_code() {
    let config = mfa("sha1", "JBSWY3DPEHPK3PXP");
    let code = generate_totp(&config).unwrap();
    assert_eq!(code.len(), 6);
    assert!(code.chars().all(|c| c.is_ascii_digit()));
}

#[test]
fn totp_rejects_non_sha1_digest() {
    let config = mfa("sha256", "JBSWY3DPEHPK3PXP");
    let result = generate_totp(&config);
    assert!(result.is_err());
    assert!(result.unwrap_err().to_string().contains("sha1"));
}

#[test]
fn totp_rejects_invalid_base32() {
    let config = mfa("sha1", "!!!invalid!!!");
    let result = generate_totp(&config);
    assert!(result.is_err());
}

#[test]
fn normalize_paths_defaults() {
    let (id_file, kh_path) =
        normalize_paths(None, None, Some("/home/me"), "~/.ssh/known_hosts").unwrap();
    assert!(id_file.contains(".ssh/id_ed25519"));
    assert!(!kh_path.is_empty());
}

#[test]
fn normalize_paths_with_custom_values() {
    let (id_file, kh_path) = normalize_paths(
        Some("/tmp/my_key"),
        Some("/tmp/known_hosts"),
        Some("/home/me"),
        "~/.ssh/known_hosts",
    )
    .unwrap();
    assert_eq!(id_file, "/tmp/my_key");
    assert_eq!(kh_path, "/tmp/known_hosts");
}

// The secret "12345678901234567890" of the published test vectors.
#[test]
fn codes_follow_the_published_vectors() {
    let mut config = mfa("sha1", "GEZDGNBVGY3TQOJQGEZDGNBVGY3TQOJQ");
    config.digits = 8;
    assert_eq!(totp_at(&config, 59).unwrap(), "94287082");
    assert_eq!(totp_at(&config, 1111111109).unwrap(), "07081804");
    assert_eq!(totp_at(&config, 20000000000).unwrap(), "65353130");
}

#[test]
fn codes_keep_their_length() {
    let digest = [0u8; 20];
    assert_eq!(code_from_digest(&digest, 6), "000000");
    assert_eq!(code_from_digest(&digest, 9), "000000000");
}

#[test]
fn targets_are_read_and_written() {
    let target = parse_remote_target("me@example.org:2200").unwrap();
    assert_eq!(target.address(), "example.org:2200");
    assert_eq!(target.user, "me");
    let target = parse_remote_target("me@example.org").unwrap();
    assert_eq!((target.host.as_str(), target.port, target.user.as_str()), ("example.org", 2222, "me"));
    assert_eq!(parse_remote_target("example.org").unwrap().user, "xho");
    assert_eq!(parse_remote_target("  ").unwrap_err(), "remote target must not be empty");
    assert_eq!(parse_remote_target("me@").unwrap_err(), "remote host must not be empty");
    assert!(parse_remote_target("me@example.org:x").is_err());
}

#[test]
fn tildes_stand_for_the_home_directory() {
    assert_eq!(expand_tilde("~/x", Some("/home/me")).unwrap(), "/home/me/x");
    assert_eq!(expand_tilde("/x", None).unwrap(), "/x");
    assert!(expand_tilde("~/x", None).is_err());
}

#[test]
fn legacy_signatures_are_asked_for() {
    assert!(wants_legacy_ssh_rsa(Some("rsa-sha2-256, +ssh-rsa")));
    assert!(!wants_legacy_ssh_rsa(Some("rsa-sha2-256")));
    assert!(!wants_legacy_ssh_rsa(None));
}

#[test]
fn authorized_keys_are_read_with_the_real_parser() {
    let first = bootstrap_authorize(KEY_LINE, None, "/keys").unwrap();
    assert!(first.key.fingerprint.starts_with("SHA256:"));
    assert_eq!(first.key.algorithm, "ssh-ed25519");
    let line = match first.plan {
        AppendPlan::Append(line) => line,
        AppendPlan::AlreadyPresent => panic!("nothing was there"),
    };
    let data = first.key.data;
    assert_eq!(is_authorized_key(Some(&line), "/keys", &data), Ok(true));
    assert_eq!(is_authorized_key(Some("# nothing\n\n"), "/keys", &data), Ok(false));
    assert_eq!(is_authorized_key(None, "/keys", &data), Ok(false));
    let second = bootstrap_authorize(KEY_LINE, Some(&line), "/keys").unwrap();
    assert!(matches!(second.plan, AppendPlan::AlreadyPresent));
    assert!(matches!(
        append_authorized_key(Some(&line), "/keys", &second.key),
        Ok(AppendPlan::AlreadyPresent)
    ));
}

#[test]
fn bad_keys_are_refused() {
    assert!(matches!(
        bootstrap_authorize("not a key", None, "/keys"),
        Err(BootstrapError::InvalidArgument(_))
    ));
    assert!(matches!(
        bootstrap_authorize(KEY_LINE, Some("broken line\n"), "/keys"),
        Err(BootstrapError::Internal(_))
    ));
}

#[test]
fn host_keys_are_compared() {
    let key = bootstrap_authorize(KEY_LINE, None, "/keys").unwrap().key;
    assert_eq!(inspect_known_host(KnownHostLookup::Match, &key), KnownHostState::Known);
    assert!(matches!(
        inspect_known_host(KnownHostLookup::NoEntry, &key),
        KnownHostState::Unknown { algorithm, fingerprint }
            if algorithm == "ssh-ed25519" && fingerprint == key.fingerprint
    ));
    assert!(matches!(
        inspect_known_host(KnownHostLookup::KeyChanged, &key),
        KnownHostState::Changed { .. }
    ));
}

#[test]
fn authentication_goes_on_with_prompts() {
    assert!(matches!(after_public_key(AuthReply::Success, "me"), KeyAuthStep::Done));
    assert!(matches!(
        after_public_key(
            AuthReply::Failure { partial_success: true, keyboard_interactive_remains: true },
            "me"
        ),
        KeyAuthStep::KeyboardInteractive
    ));
    assert!(matches!(
        after_public_key(
            AuthReply::Failure { partial_success: false, keyboard_interactive_remains: false },
            "me"
        ),
        KeyAuthStep::Fail(_)
    ));
    assert!(after_password(true, "me").is_ok());
    assert!(after_password(false, "me").is_err());
    assert!(matches!(
        after_keyboard_interactive(InteractiveReply::InfoRequest(2), "me"),
        InteractiveStep::Respond(2)
    ));
    assert!(matches!(
        after_keyboard_interactive(InteractiveReply::Success, "me"),
        InteractiveStep::Done
    ));
    assert!(matches!(
        after_keyboard_interactive(InteractiveReply::Failure, "me"),
        InteractiveStep::Fail(_)
    ));
    let config = mfa("sha1", "JBSWY3DPEHPK3PXP");
    assert!(matches!(
        answer_prompt(Some(&config), true, "gw", "Code: ", false),
        PromptAnswer::Totp
    ));
    assert!(matches!(
        answer_prompt(None, true, "gw", "Password: ", false),
        PromptAnswer::Ask(p) if p.secret && p.gateway_name == "gw"
    ));
    assert!(matches!(
        answer_prompt(None, false, "gw", "Password: ", false),
        PromptAnswer::Fail(_)
    ));
}

fn target() -> RemoteTarget {
    RemoteTarget { host: "hub".to_string(), port: 2222, user: "me".to_string() }
}

#[test]
fn a_connection_opens_after_its_key_is_accepted() {
    let mut c = Connector::new("gw", target(), "xho-rpc");
    assert!(matches!(c.on_event(ConnectEvent::Connected(Ok(()))), ConnectAction::AuthenticateKey));
    assert!(matches!(
        c.on_event(ConnectEvent::KeyAuthenticated(Ok(()))),
        ConnectAction::OpenChannel
    ));
    assert!(matches!(
        c.on_event(ConnectEvent::ChannelOpened(Ok(()))),
        ConnectAction::StartSubsystem
    ));
    assert!(matches!(
        c.on_event(ConnectEvent::SubsystemStarted(Ok(()))),
        ConnectAction::EstablishRpc
    ));
    assert!(matches!(c.on_event(ConnectEvent::RpcEstablished(Ok(()))), ConnectAction::Done));
    assert!(matches!(c.on_event(ConnectEvent::Connected(Ok(()))), ConnectAction::Nothing));
}

#[test]
fn a_refused_key_leads_to_the_password() {
    let mut c = Connector::new("gw", target(), "xho-rpc");
    c.on_event(ConnectEvent::Connected(Ok(())));
    assert!(matches!(
        c.on_event(ConnectEvent::KeyAuthenticated(Err("no".to_string()))),
        ConnectAction::Prompt(p) if p.secret
    ));
    assert!(matches!(
        c.on_event(ConnectEvent::Prompted(Ok("pw".to_string()))),
        ConnectAction::AuthenticatePassword(p) if p == "pw"
    ));
    assert!(matches!(
        c.on_event(ConnectEvent::PasswordAuthenticated(Err("no".to_string()))),
        ConnectAction::Fail(_)
    ));
}

#[test]
fn connections_are_planned() {
    let plan = plan_connection("xhod", "gw", "me@hub", "~/.ssh/key", "/kh", Some("/home/me"), "/kh")
        .unwrap();
    assert_eq!(plan.identity_file, "/home/me/.ssh/key");
    assert_eq!(plan.target.address(), "hub:2222");
    assert!(plan_connection("xhod", "gw", "me@hub:x", "/k", "/kh", None, "/kh").is_err());
    let node = plan_node("me@hub:22", "/k", "/kh", None).unwrap();
    assert_eq!(node.target.port, 22);
    assert!(plan_node("me@", "/k", "/kh", None)
        .unwrap_err()
        .starts_with("failed to parse server_address: "));
    assert_eq!(key_auth_result(Ok(()), true, "me", "/k"), Ok(()));
    assert!(key_auth_result(Ok(()), false, "me", "/k").is_err());
    assert!(key_auth_result(Err("no file".to_string()), true, "me", "/k").is_err());
    assert_eq!(node_failure(NodeStage::Serve, "x"), "gRPC server: x");
    assert!(rpc_failure("gw", "x").ends_with("x"));
}

#[test]
fn a_node_comes_back_to_its_hub() {
    let mut node = NodeClient::new("n1".to_string(), "me@hub:22", "/k", "/kh", None);
    let plan = node.plan().unwrap();
    assert_eq!((plan.target.host.as_str(), plan.identity_file.as_str()), ("hub", "/k"));
    assert!(matches!(node.on_event(NodeEvent::Shutdown), NodeAction::Nothing));
    assert!(matches!(node.on_event(NodeEvent::Begin), NodeAction::Connect));
    assert!(matches!(node.on_event(NodeEvent::Connected(Ok(()))), NodeAction::AuthenticateKey));
    assert!(matches!(
        node.on_event(NodeEvent::Authenticated(KeyOutcome::Refused)),
        NodeAction::Wait(Some(e)) if e == "publickey authentication failed for me using /k"
    ));
    assert!(matches!(node.on_event(NodeEvent::Waited), NodeAction::Connect));
    node.on_event(NodeEvent::Connected(Ok(())));
    assert!(matches!(
        node.on_event(NodeEvent::Authenticated(KeyOutcome::Accepted)),
        NodeAction::OpenChannel
    ));
    assert!(matches!(
        node.on_event(NodeEvent::ChannelOpened(Ok(()))),
        NodeAction::StartSubsystem(s) if s == "xho-reverse:n1"
    ));
    assert!(matches!(node.on_event(NodeEvent::SubsystemStarted(Ok(()))), NodeAction::Serve));
    assert!(matches!(
        node.on_event(NodeEvent::Served(ServeOutcome::Closed)),
        NodeAction::Wait(None)
    ));
    assert!(matches!(node.on_event(NodeEvent::Shutdown), NodeAction::Stop));
    assert!(matches!(node.on_event(NodeEvent::Waited), NodeAction::Nothing));

    let mut lost = NodeClient::new("n1".to_string(), "me@", "/k", "/kh", None);
    assert!(lost.plan().is_none());
    assert!(matches!(
        lost.on_event(NodeEvent::Begin),
        NodeAction::Wait(Some(e)) if e.starts_with("failed to parse server_address: ")
    ));
}

#[test]
fn every_stage_of_a_node_names_its_failure() {
    let fails = |event: NodeEvent, before: Vec<NodeEvent>| {
        let mut node = NodeClient::new("n1".to_string(), "me@hub:22", "/k", "/kh", None);
        node.on_event(NodeEvent::Begin);
        for e in before {
            node.on_event(e);
        }
        match node.on_event(event) {
            NodeAction::Wait(Some(e)) => e,
            _ => panic!("the node goes on"),
        }
    };
    let e = || "x".to_string();
    let connected = || NodeEvent::Connected(Ok(()));
    let accepted = || NodeEvent::Authenticated(KeyOutcome::Accepted);
    assert_eq!(fails(NodeEvent::Connected(Err(e())), vec![]), "SSH connection failed: x");
    assert_eq!(
        fails(NodeEvent::Authenticated(KeyOutcome::NoKey(e())), vec![connected()]),
        "failed to load key /k: x"
    );
    assert_eq!(
        fails(NodeEvent::Authenticated(KeyOutcome::NoAlgorithm(e())), vec![connected()]),
        "x"
    );
    assert_eq!(
        fails(NodeEvent::Authenticated(KeyOutcome::Failed(e())), vec![connected()]),
        "SSH auth error: x"
    );
    assert_eq!(
        fails(NodeEvent::ChannelOpened(Err(e())), vec![connected(), accepted()]),
        "failed to open session channel: x"
    );
    assert_eq!(
        fails(
            NodeEvent::SubsystemStarted(Err(e())),
            vec![connected(), accepted(), NodeEvent::ChannelOpened(Ok(()))]
        ),
        "failed to start xho-reverse subsystem: x"
    );
}
