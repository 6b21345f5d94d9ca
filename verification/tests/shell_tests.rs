use xhod::output::extract_sentinel;
use xhod::shell::{
    build_final_command, build_interactive_shell_command, build_remote_command,
    is_safe_shell_command_word, resolve_shell, shell_flags, shell_quote, wrap_in_shell,
};

#[test]
fn shell_quotes_arguments() {
    assert_eq!(shell_quote("plain"), "'plain'");
    assert_eq!(shell_quote("a b"), "'a b'");
    assert_eq!(shell_quote("a'b"), "'a'\\''b'");
}

#[test]
fn builds_remote_command() {
    let argv = vec!["echo".to_string(), "hello world".to_string()];
    assert_eq!(build_remote_command(&argv), "'echo' 'hello world'");
}

#[test]
fn extracts_sentinel() {
    let input = b"hello\n__ARUN_EXIT__abc__:17\nprompt$ ";
    let (status, before, after) = extract_sentinel(input, b"__ARUN_EXIT__abc__").unwrap();
    assert_eq!(status, 17);
    assert_eq!(before, b"hello\n");
    assert_eq!(after, b"prompt$ ");
}

#[test]
fn shell_flags_returns_ic_for_bash_zsh() {
    assert_eq!(shell_flags("bash"), "-ic");
    assert_eq!(shell_flags("zsh"), "-ic");
}

#[test]
fn shell_flags_returns_c_for_others() {
    assert_eq!(shell_flags("sh"), "-c");
    assert_eq!(shell_flags("fish"), "-c");
    assert_eq!(shell_flags("ksh"), "-c");
    assert_eq!(shell_flags("unknown"), "-c");
}

#[test]
fn wrap_in_shell_basic() {
    assert_eq!(wrap_in_shell("echo hello", "bash"), "bash -ic 'echo hello'");
    assert_eq!(wrap_in_shell("echo hello", "zsh"), "zsh -ic 'echo hello'");
    assert_eq!(wrap_in_shell("echo hello", "sh"), "sh -c 'echo hello'");
    assert_eq!(wrap_in_shell("echo hello", "fish"), "fish -c 'echo hello'");
}

#[test]
fn wrap_in_shell_escapes_single_quotes() {
    assert_eq!(
        wrap_in_shell("echo 'hi'", "bash"),
        "bash -ic 'echo '\\''hi'\\'''",
    );
}

#[test]
fn wrap_in_shell_empty_command() {
    assert_eq!(wrap_in_shell("", "bash"), "bash -ic ''");
}

#[test]
fn build_final_command_with_shell() {
    let argv = vec!["ls".to_string(), "-la".to_string()];
    let result = build_final_command(&argv, "bash");
    let expected = r#"bash -ic 'ls '\''-la'\'''"#;
    assert_eq!(result, expected);

    let argv2 = vec!["ls".to_string()];
    let result2 = build_final_command(&argv2, "bash");
    assert_eq!(result2, "bash -ic 'ls'");
}

#[test]
fn build_final_command_without_shell() {
    let argv = vec!["echo".to_string(), "hello".to_string()];
    let result = build_final_command(&argv, "");
    assert_eq!(result, build_remote_command(&argv));
}

#[test]
fn resolve_shell_no_shell_flag_wins() {
    assert_eq!(resolve_shell(Some("bash"), true, Some("zsh"), "sh"), None);
}

#[test]
fn resolve_shell_cli_shell_wins() {
    assert_eq!(
        resolve_shell(Some("bash"), false, Some("zsh"), "sh"),
        Some("bash".to_string())
    );
}

#[test]
fn resolve_shell_cli_false_disables() {
    assert_eq!(resolve_shell(Some("false"), false, Some("zsh"), "sh"), None);
}

#[test]
fn resolve_shell_server_shell_used() {
    assert_eq!(
        resolve_shell(None, false, Some("zsh"), "bash"),
        Some("zsh".to_string())
    );
}

#[test]
fn resolve_shell_server_empty_disables() {
    assert_eq!(resolve_shell(None, false, Some(""), "bash"), None);
}

#[test]
fn resolve_shell_defaults_used() {
    assert_eq!(
        resolve_shell(None, false, None, "bash"),
        Some("bash".to_string())
    );
}

#[test]
fn resolve_shell_defaults_empty_returns_none() {
    assert_eq!(resolve_shell(None, false, None, ""), None);
}

#[test]
fn quoting_the_empty_argument_keeps_it() {
    assert_eq!(shell_quote(""), "''");
    assert_eq!(build_remote_command(&[]), "");
}

#[test]
fn safe_words_are_left_bare_in_interactive_commands() {
    assert!(is_safe_shell_command_word("/usr/bin/ls-1.0_x"));
    assert!(!is_safe_shell_command_word("a b"));
    assert!(!is_safe_shell_command_word(""));
    let argv = vec!["ll".to_string(), "a b".to_string()];
    assert_eq!(build_interactive_shell_command(&argv), "ll 'a b'");
}
