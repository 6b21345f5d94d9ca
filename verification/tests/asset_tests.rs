use xhod::assets::{
    contains_menu_prompt, contains_mfa_prompt, contains_page_prompt, looks_like_ipv4,
    parse_asset_rows, parse_page_status, select_exact_asset_id, PageStatus,
};
use xhod::navigate::{NavAction, Navigator};
use xhod::output::{has_ascii_escapes, strip_ansi};
use xhod::pty::{shell_prompt_suffixes, PtyShell};

#[test]
fn parses_asset_table_and_selects_exact_ip() {
    let text = r#"
  ID    | 主机名                                                                             | IP                                       | 备注
+-------+------------------------------------------------------------------------------------+------------------------------------------+------------------------------------------------+
  1     | asset-198.51.100.3                                           | 198.51.100.3                             |
  2     | asset-198.51.100.30                                          | 198.51.100.30                            |
  3     | asset-198.51.100.31                                          | 198.51.100.31                            |
页码：1，每页行数：9，总页数：1，总数量：3
Opt>
"#;
    assert_eq!(
        select_exact_asset_id(text, "198.51.100.3").unwrap(),
        Some("1".to_string())
    );
    assert_eq!(select_exact_asset_id(text, "198.51.100.4").unwrap(), None);
}

#[test]
fn parses_ansi_paginated_asset_table() {
    let text = "\u{1b}[H\u{1b}[2J  \u{1b}[1;32mID\u{1b}[0m | \u{1b}[1;32m主机名\u{1b}[0m | \u{1b}[1;32mIP\u{1b}[0m | 备注\n\
  1  | ass....30 | 198.51.100.30 | \n\
\u{1b}[32m页码：1，每页行数：1，总页数：3，总数量：3\u{1b}[0m\n\
上一页：P/p  下一页：Enter|N/n  返回：B/b\n:";
    assert_eq!(
        select_exact_asset_id(text, "198.51.100.30").unwrap(),
        Some("1".to_string())
    );
    assert_eq!(
        parse_page_status(text),
        Some(PageStatus {
            current: 1,
            total: 3
        })
    );
    assert!(contains_page_prompt(text));
}

#[test]
fn duplicate_exact_asset_ids_are_rejected() {
    let text = "\
  1 | host-a | 10.0.0.1 | \n\
  2 | host-b | 10.0.0.1 | \n\
页码：1，每页行数：9，总页数：1，总数量：2\n\
Opt>";
    let error = select_exact_asset_id(text, "10.0.0.1").unwrap_err();
    assert!(error.to_string().contains("returned 2 exact matches"));
}

#[test]
fn engine_parses_asset_table() {
    let text = "\
  1 | host-a | 10.0.0.1 | \n\
  2 | host-b | 10.0.0.2 | \n\
页码：1，每页行数：9，总页数：1，总数量：2\n\
Opt>";
    assert_eq!(
        select_exact_asset_id(text, "10.0.0.2").unwrap(),
        Some("2".to_string())
    );
    assert_eq!(
        parse_page_status(text),
        Some(PageStatus {
            current: 1,
            total: 1
        })
    );
}

#[test]
fn addresses_are_told_from_names() {
    assert!(looks_like_ipv4("10.0.0.1"));
    assert!(!looks_like_ipv4("10.0.0"));
    assert!(!looks_like_ipv4("host.a.b.c"));
}

#[test]
fn rows_hold_identifier_and_address() {
    let text = "  7 | host | 10.0.0.7 | \nno row here\n";
    let rows = parse_asset_rows(text);
    assert_eq!(rows.len(), 1);
    assert_eq!(rows[0].id, "7");
    assert_eq!(rows[0].ip, "10.0.0.7");
}

#[test]
fn escapes_are_stripped_and_plain_text_is_kept() {
    assert!(has_ascii_escapes("\u{1b}[1;32mID\u{1b}[0m"));
    assert_eq!(strip_ansi("\u{1b}[1;32mID\u{1b}[0m"), "ID");
    assert_eq!(strip_ansi("主机名"), "主机名");
}

fn screen(nav: &mut Navigator, text: &str) -> NavAction {
    assert!(has_ascii_escapes(text));
    nav.on_text(text)
}

#[test]
fn navigation_searches_selects_and_arrives() {
    let mut nav = Navigator::new("10.0.0.2".to_string(), shell_prompt_suffixes());
    assert!(contains_mfa_prompt("Please enter 6 digits\n[MFA auth]: "));
    assert!(matches!(
        screen(&mut nav, "Please enter 6 digits\n[MFA auth]: "),
        NavAction::SendMfa
    ));
    assert!(contains_menu_prompt("welcome\nOpt> "));
    assert!(matches!(screen(&mut nav, "welcome\nOpt> "), NavAction::WriteLine(l) if l == "10.0.0.2"));
    assert!(matches!(
        screen(&mut nav, "  1 | a | 10.0.0.1 | \n  2 | b | 10.0.0.2 | \nOpt> "),
        NavAction::WriteLine(l) if l == "2"
    ));
    assert!(matches!(screen(&mut nav, "connecting"), NavAction::ReadMore));
    assert!(matches!(
        screen(&mut nav, "me@host:~$ "),
        NavAction::WriteLine(l) if l == "stty -echo"
    ));
    assert!(matches!(screen(&mut nav, "stty -echo\r\n"), NavAction::ReadMore));
    assert!(matches!(nav.on_text("\u{1b}\u{4e3b}\r\nme@host:~$ "), NavAction::Arrived));
}

#[test]
fn navigation_turns_pages_and_gives_up_after_the_last() {
    let page = |n: u32| {
        format!(
            "  1 | a | 10.0.0.{} | \n页码：{}，每页行数：1，总页数：2，总数量：2\n上一页：P/p  下一页：Enter|N/n  返回：B/b\n:",
            n, n
        )
    };
    let mut nav = Navigator::new("10.0.0.9".to_string(), shell_prompt_suffixes());
    assert!(matches!(screen(&mut nav, "Opt> "), NavAction::WriteLine(_)));
    assert!(matches!(screen(&mut nav, &page(1)), NavAction::WriteLine(l) if l.is_empty()));
    assert!(matches!(
        screen(&mut nav, &page(2)),
        NavAction::Fail(e) if e == "jumpserver asset search for 10.0.0.9 did not find an exact IP match after 2 page(s)"
    ));
}

#[test]
fn navigation_reads_the_pending_bytes_of_a_shell() {
    let mut shell = PtyShell::new(shell_prompt_suffixes());
    let mut nav = Navigator::new("10.0.0.2".to_string(), shell_prompt_suffixes());
    assert!(matches!(nav.on_chunk(&mut shell, b"Op"), Some(NavAction::ReadMore)));
    assert!(matches!(
        nav.on_chunk(&mut shell, b"t> "),
        Some(NavAction::WriteLine(l)) if l == "10.0.0.2"
    ));
}
