use xhod::execute::ServerEvent;
use xhod::paths::{
    dirs_to_create, file_name, join_remote_path, parent, plan_expansion, probe_output, probe_result,
    remote_path_needs_expansion, remote_source_name, shell_path_basename_or, split_tilde_path,
    validate_remote_path, Expansion,
};
use xhod::pty::{shell_prompt_suffixes, ChannelMessage, PtyShell};
use xhod::shell_copy::{
    build_jumpserver_exec_command, build_jumpserver_stdin_command, command_input, download_command,
    download_data, download_frames, extracted_tar_root, strip_trailing_newlines,
    upload_here_doc_command, upload_payload, upload_writes,
};
use xhod::shell_copy::{
    FlagIntent, JumpserverConnection, ShellCopy, ShellCopyAction, ShellCopyRequest, TarRoot,
};
use xhod::download::{
    is_dot_entry, join_entry, EntryInfo, EntryKind, Listed, Walk, WalkAction, WalkEvent,
};
use xhod::transfer::{
    file_frames, place, CopyFrame, Destination, ExecAction, ExecChannel, ExecEvent,
    TerminalAction, TerminalChannel, TerminalEvent, Upload, UploadAction,
};

#[test]
fn jumpserver_exec_command_disables_stdin_when_not_requested() {
    let argv = vec!["cat".to_string()];

    assert_eq!(
        build_jumpserver_exec_command(&argv, "", FlagIntent::Disable),
        "{ 'cat'; } </dev/null"
    );
}

#[test]
fn jumpserver_exec_command_keeps_stdin_when_requested() {
    let argv = vec!["cat".to_string()];

    assert_eq!(build_jumpserver_exec_command(&argv, "", FlagIntent::Enable), "'cat'");
}

#[test]
fn jumpserver_exec_command_keeps_stdin_when_default() {
    let argv = vec!["cat".to_string()];

    assert_eq!(build_jumpserver_exec_command(&argv, "", FlagIntent::Unset), "'cat'");
}

#[test]
fn jumpserver_stdin_command_pipes_base64_decoded_payload() {
    let payload = build_jumpserver_stdin_command("'cat'", b"hello\n");
    let text = String::from_utf8(payload).unwrap();

    assert_eq!(text, "printf %s 'aGVsbG8K' | base64 -d | 'cat'\n");
}

#[test]
fn commands_are_typed_with_or_without_input() {
    assert_eq!(
        command_input("ls", "M", None),
        b"{ ls; }; status=$?; printf 'M:%s\\n' \"$status\"\r"
    );
    assert_eq!(
        command_input("cat", "M", Some(b"")),
        b"printf %s '' | base64 -d | { cat; }; status=$?; printf 'M:%s\\n' \"$status\"\n"
    );
}

#[test]
fn payloads_read_back() {
    for data in [&b""[..], b"a", b"ab", b"abc", &[0u8, 255, 10, 13][..]] {
        let payload = upload_payload(data);
        assert_eq!(payload.last(), Some(&b'\n'));
        assert_eq!(download_data(payload).unwrap(), data);
    }
    assert_eq!(
        download_data(b"???".to_vec()).unwrap_err(),
        "failed to decode base64 download payload"
    );
    assert_eq!(strip_trailing_newlines(b"a\r\n\n".to_vec()), b"a");
}

#[test]
fn uploads_are_typed_as_here_documents() {
    let template = upload_here_doc_command(false, "/tmp/a b");
    assert_eq!(template, "base64 -d <<'{}' > '/tmp/a b'");
    let data = vec![7u8; 40_000];
    let writes = upload_writes(&template, "END", &data);
    assert_eq!(writes[0], b"base64 -d <<'END' > '/tmp/a b'\r");
    assert_eq!(writes.last().unwrap(), b"END\r");
    let middle: Vec<u8> = writes[1..writes.len() - 1].concat();
    assert_eq!(download_data(middle).unwrap(), data);
    assert_eq!(
        upload_here_doc_command(true, "/srv"),
        "base64 -d <<'{}' | tar xf - -C '/srv'"
    );
}

#[test]
fn downloads_print_base64() {
    assert_eq!(download_command(false, "/a b").unwrap(), "base64 -w 0 '/a b' ; printf '\\n'");
    assert_eq!(
        download_command(true, "/srv/www").unwrap(),
        "cd '/srv' && tar cf - 'www' | base64 -w 0; printf '\\n'"
    );
    assert_eq!(
        download_command(true, "www").unwrap(),
        "cd '.' && tar cf - 'www' | base64 -w 0; printf '\\n'"
    );
    assert_eq!(
        download_command(true, "/").unwrap_err(),
        "invalid remote path for recursive copy: /"
    );
    assert_eq!(extracted_tar_root(true, 5), TarRoot::Named);
    assert_eq!(extracted_tar_root(false, 1), TarRoot::OnlyEntry);
    assert_eq!(extracted_tar_root(false, 2), TarRoot::Everything);
}

fn request(upload: bool, recursive: bool) -> ShellCopyRequest {
    ShellCopyRequest { upload, recursive, source_name: "dir/file.txt".to_string() }
}

#[test]
fn an_upload_into_a_directory_keeps_its_name() {
    let (mut copy, action) = ShellCopy::begin(request(true, false), "~/in");
    assert!(matches!(action, ShellCopyAction::Capture(c) if c == "printf %s \"$HOME\""));
    assert!(matches!(
        copy.on_captured(0, b"/home/me\r\n".to_vec()),
        ShellCopyAction::Capture(c) if c == "test -d '/home/me/in'"
    ));
    assert!(matches!(
        copy.on_captured(0, vec![]),
        ShellCopyAction::Send(t) if t == "base64 -d <<'{}' > '/home/me/in/file.txt'"
    ));
    assert!(matches!(copy.on_captured(0, vec![]), ShellCopyAction::Nothing));
}

#[test]
fn a_download_delivers_the_file() {
    let (mut copy, action) = ShellCopy::begin(request(false, false), "/etc/motd");
    assert!(matches!(action, ShellCopyAction::Capture(_)));
    assert!(matches!(
        copy.on_captured(0, b"aGVsbG8K\r\n".to_vec()),
        ShellCopyAction::Deliver(d) if d == b"hello\n"
    ));
}

#[test]
fn copies_through_a_shell_fail_with_reasons() {
    let (_, action) = ShellCopy::begin(request(false, false), "");
    assert!(matches!(action, ShellCopyAction::Fail(e) if e == "remote_path must not be empty"));
    let (mut copy, _) = ShellCopy::begin(request(false, false), "/x");
    assert!(matches!(
        copy.on_captured(-2, vec![]),
        ShellCopyAction::Fail(e) if e == "remote copy command exited with status -2"
    ));
    let (mut copy, _) = ShellCopy::begin(request(true, false), "~root/x");
    assert!(matches!(
        copy.on_captured(1, vec![]),
        ShellCopyAction::Fail(e)
            if e == "failed to resolve remote path via `getent passwd 'root' | cut -d: -f6`"
    ));
}

#[test]
fn a_lent_shell_is_not_given_away() {
    let shell = || PtyShell::new(shell_prompt_suffixes());
    let mut own = JumpserverConnection::new(shell());
    assert!(own.is_alive());
    assert!(own.exec_interactive().is_ok());
    assert!(!own.is_alive());
    assert!(own.shell().is_err());
    let mut lent = JumpserverConnection::new_borrowed(shell());
    assert!(lent.exec_interactive().is_err());
    assert!(lent.is_alive());
}

#[test]
fn paths_are_taken_apart() {
    assert!(remote_path_needs_expansion("~"));
    assert!(remote_path_needs_expansion("~me/x"));
    assert!(!remote_path_needs_expansion("~me"));
    assert_eq!(split_tilde_path("~/a/b"), Some((None, "a/b".to_string())));
    assert_eq!(split_tilde_path("~me/a"), Some((Some("me".to_string()), "a".to_string())));
    assert_eq!(join_remote_path("/home/me/", "x"), "/home/me/x");
    assert_eq!(join_remote_path("/home/me", ""), "/home/me");
    assert!(matches!(plan_expansion("/x"), Expansion::Plain(p) if p == "/x"));
    assert_eq!(file_name("/a/b.txt/").as_deref(), Some("b.txt"));
    assert_eq!(file_name("a/.."), None);
    assert_eq!(parent("/a/b"), "/a");
    assert_eq!(parent("/a"), "/");
    assert_eq!(parent("a"), "");
    assert_eq!(shell_path_basename_or("///", "copy"), "copy");
    assert_eq!(remote_source_name("/srv/www/"), "www");
    assert!(validate_remote_path("").is_err());
    assert_eq!(probe_result(" /home/me\n", Some(0), "c").unwrap(), "/home/me");
    assert!(probe_result("home", Some(0), "c").is_err());
    assert!(probe_result("/home", None, "c").is_err());
    assert_eq!(probe_output(b" /home/\xff\n", Some(0), "c").unwrap(), "/home/\u{fffd}");
    assert!(probe_output(b"\xff/home", Some(0), "c").is_err());
}

#[test]
fn directories_are_created_from_the_outermost() {
    assert_eq!(dirs_to_create("/srv//www/./x/"), ["/", "/srv", "/srv/www", "/srv/www/x"]);
    assert_eq!(dirs_to_create("./a/../b"), [".", "./a", "./a/..", "./a/../b"]);
    assert!(dirs_to_create("").is_empty());
}

fn begin(name: &str) -> Option<CopyFrame> {
    Some(CopyFrame::BeginFile {
        relative_path: name.to_string(),
        mode: 0,
        size: 0,
        mtime: 0,
    })
}

#[test]
fn files_of_an_upload_follow_each_other() {
    let mut upload = Upload::new(true, true);
    assert!(matches!(
        &upload.on_frame(begin("a"))[..],
        [UploadAction::CreateParents(_), UploadAction::CreateFile(_)]
    ));
    let data = Some(CopyFrame::FileData { data: b"x".to_vec() });
    assert!(matches!(&upload.on_frame(data)[..], [UploadAction::Write(d)] if d == b"x"));
    assert!(matches!(&upload.on_frame(Some(CopyFrame::EndFile))[..], [UploadAction::CloseFile]));
    assert!(matches!(&upload.on_frame(None)[..], [UploadAction::Done]));
    assert!(upload.on_frame(None).is_empty());
}

#[test]
fn frames_out_of_order_fail() {
    let fail = |recursive: bool, frames: Vec<Option<CopyFrame>>| {
        let mut upload = Upload::new(recursive, false);
        let mut last = Vec::new();
        for frame in frames {
            last = upload.on_frame(frame);
        }
        match &last[..] {
            [UploadAction::Fail(e)] => e.clone(),
            _ => panic!("the frames were accepted"),
        }
    };
    assert_eq!(
        fail(true, vec![begin("a"), begin("b")]),
        "copy stream began a new file before ending the previous file"
    );
    let data = || Some(CopyFrame::FileData { data: vec![1] });
    assert_eq!(fail(true, vec![data()]), "copy stream sent file data before BeginFile");
    assert_eq!(
        fail(true, vec![Some(CopyFrame::EndFile)]),
        "copy stream sent EndFile before BeginFile"
    );
    assert_eq!(
        fail(
            false,
            vec![Some(CopyFrame::BeginDirectory {
                relative_path: "d".to_string(),
                mode: 0,
                mtime: 0,
            })]
        ),
        "remote directory frame requires recursive copy"
    );
    assert_eq!(fail(true, vec![begin("a"), None]), "copy stream ended before EndFile");
}

fn info(kind: EntryKind) -> EntryInfo {
    EntryInfo { kind, permissions: None, size: 3, mtime: Some(9) }
}

fn listed(name: &str, kind: EntryKind) -> Listed {
    Listed { name: name.to_string(), info: info(kind) }
}

#[test]
fn a_download_walks_through_its_directories() {
    let mut walk = Walk::new("/srv/data/".to_string(), true);
    assert!(walk.on_event(WalkEvent::Opened(Ok(()))).is_empty());
    let mut frames = Vec::new();
    let mut asked = Vec::new();
    let mut event = Some(WalkEvent::Stat(Ok(info(EntryKind::Directory))));
    let mut chunks = vec![Vec::new(), b"abc".to_vec()];
    while let Some(e) = event.take() {
        for action in walk.on_event(e) {
            match action {
                WalkAction::Send(frame) => frames.push(frame),
                WalkAction::ReadDir(path) => {
                    let listing = if path == "/srv/data/" {
                        vec![
                            listed(".", EntryKind::Directory),
                            listed("sub", EntryKind::Directory),
                            listed("..", EntryKind::Directory),
                            listed("f", EntryKind::Regular),
                        ]
                    } else {
                        vec![listed("l", EntryKind::Symlink)]
                    };
                    asked.push(path);
                    event = Some(WalkEvent::Listing(Ok(listing)));
                }
                WalkAction::ReadLink(path) => {
                    asked.push(path);
                    event = Some(WalkEvent::Link(Ok("../f".to_string())));
                }
                WalkAction::Open(path) => {
                    asked.push(path);
                    event = Some(WalkEvent::Opened(Ok(())));
                }
                WalkAction::Read => event = Some(WalkEvent::Read(Ok(chunks.pop().unwrap()))),
                WalkAction::Finish => {}
                WalkAction::Fail(e) => panic!("{}", e),
            }
        }
    }
    assert_eq!(asked, ["/srv/data/", "/srv/data/sub", "/srv/data/sub/l", "/srv/data/f"]);
    assert!(matches!(
        &frames[..],
        [
            CopyFrame::BeginDirectory { relative_path: root, .. },
            CopyFrame::BeginDirectory { relative_path: sub, .. },
            CopyFrame::Symlink { relative_path: link, target },
            CopyFrame::BeginFile { relative_path: file, mode: 0, size: 3, mtime: 9 },
            CopyFrame::FileData { data },
            CopyFrame::EndFile,
            CopyFrame::EndOfStream,
        ] if root.is_empty() && sub == "sub" && link == "sub/l" && target == "../f"
            && file == "f" && data == b"abc"
    ));
    let mut upload = Upload::new(true, false);
    let mut last = Vec::new();
    for frame in frames {
        last = upload.on_frame(Some(frame));
        assert!(!last.iter().any(|a| matches!(a, UploadAction::Fail(_))));
    }
    assert!(matches!(last[..], [UploadAction::Done]));
}

#[test]
fn a_download_says_what_fails() {
    let fails = |recursive: bool, events: Vec<WalkEvent>| {
        let mut walk = Walk::new("/d/x".to_string(), recursive);
        let mut last = Vec::new();
        for event in events {
            last = walk.on_event(event);
        }
        match last.pop() {
            Some(WalkAction::Fail(e)) => e,
            _ => panic!("the download goes on"),
        }
    };
    let stat = |kind| WalkEvent::Stat(Ok(info(kind)));
    let e = || "x".to_string();
    assert_eq!(fails(true, vec![WalkEvent::Stat(Err(e()))]), "failed to stat remote path /d/x");
    assert_eq!(
        fails(false, vec![stat(EntryKind::Directory)]),
        "copying a remote directory requires -r"
    );
    assert_eq!(
        fails(true, vec![stat(EntryKind::Other)]),
        "unsupported remote file type for copy: /d/x"
    );
    assert_eq!(
        fails(true, vec![stat(EntryKind::Directory), WalkEvent::Listing(Err(e()))]),
        "failed to read remote dir /d/x"
    );
    assert_eq!(
        fails(true, vec![stat(EntryKind::Symlink), WalkEvent::Link(Err(e()))]),
        "failed to read remote symlink /d/x"
    );
    assert_eq!(
        fails(true, vec![stat(EntryKind::Regular), WalkEvent::Opened(Err(e()))]),
        "failed to open remote /d/x"
    );
    assert_eq!(
        fails(
            true,
            vec![stat(EntryKind::Regular), WalkEvent::Opened(Ok(())), WalkEvent::Read(Err(e()))]
        ),
        "x"
    );
    assert_eq!(
        fails(true, vec![stat(EntryKind::Regular), WalkEvent::SendFailed]),
        "download copy frame stream closed"
    );
    assert_eq!(
        fails(
            true,
            vec![
                stat(EntryKind::Regular),
                WalkEvent::Opened(Ok(())),
                WalkEvent::Read(Ok(vec![])),
                WalkEvent::SendFailed
            ]
        ),
        "download copy frame stream closed"
    );
    assert_eq!(
        fails(
            true,
            vec![stat(EntryKind::Symlink), WalkEvent::Link(Ok(e())), WalkEvent::SendFailed]
        ),
        "download copy frame stream closed"
    );
    assert!(is_dot_entry(".") && is_dot_entry("..") && !is_dot_entry("..."));
    assert_eq!(join_entry("", "a"), "a");
    assert_eq!(join_entry("a/", "b"), "a/b");
    assert_eq!(join_entry("a", "/b"), "/b");
}

#[test]
fn entries_have_their_place() {
    let inside = |name: &str| Destination::Inside(name.to_string());
    assert_eq!(place("/srv/", "s", &Destination::Below("a/b".to_string())), "/srv/a/b");
    assert_eq!(place("/srv", "s", &inside("x/y")), "/srv/y");
    assert_eq!(place("/srv", "dir/s", &inside("")), "/srv/s");
    assert_eq!(place("/srv", "", &inside("")), "/srv/copy");
    assert_eq!(place("/srv", "s", &Destination::Exactly), "/srv");
}

#[test]
fn frames_hold_the_file() {
    let data: Vec<u8> = (0..70_000u32).map(|i| i as u8).collect();
    let frames = file_frames("f".to_string(), &data);
    assert_eq!(frames.len(), 5);
    let mut bytes = Vec::new();
    for frame in &frames {
        if let CopyFrame::FileData { data } = frame {
            bytes.extend_from_slice(data);
        }
    }
    assert_eq!(bytes, data);
    assert!(matches!(frames[4], CopyFrame::EndOfStream));
}

#[test]
fn commands_on_a_channel_report_their_last_code() {
    let mut channel = ExecChannel::new(true);
    assert!(matches!(
        channel.on_event(ExecEvent::Stdin(Some(b"x".to_vec()))),
        ExecAction::Write(d) if d == b"x"
    ));
    assert!(matches!(channel.on_event(ExecEvent::Stdin(None)), ExecAction::SendEof));
    assert!(matches!(channel.on_event(ExecEvent::Stdin(None)), ExecAction::Nothing));
    assert!(matches!(
        channel.on_event(ExecEvent::Message(Some(ChannelMessage::ExtendedData(b"e".to_vec())))),
        ExecAction::Forward(ServerEvent::Stderr { .. })
    ));
    channel.on_event(ExecEvent::Message(Some(ChannelMessage::ExitStatus(3))));
    assert!(matches!(channel.on_event(ExecEvent::Message(None)), ExecAction::Finish(3)));
    let mut silent = ExecChannel::new(false);
    assert!(matches!(silent.on_event(ExecEvent::Message(None)), ExecAction::Finish(255)));
}

#[test]
fn terminals_end_well_by_default() {
    let mut terminal = TerminalChannel::new();
    assert!(matches!(
        terminal.on_event(TerminalEvent::Resize(1, 2)),
        TerminalAction::WindowChange(1, 2)
    ));
    assert!(matches!(
        terminal.on_event(TerminalEvent::Message(Some(ChannelMessage::Eof))),
        TerminalAction::Finish(Some(0))
    ));
    assert!(matches!(terminal.on_event(TerminalEvent::OutputGone), TerminalAction::Finish(None)));
    terminal.on_event(TerminalEvent::Message(Some(ChannelMessage::ExitSignal)));
    assert!(matches!(
        terminal.on_event(TerminalEvent::Message(None)),
        TerminalAction::Finish(Some(255))
    ));
}

#[test]
fn a_downloaded_file_is_named_after_its_source() {
    let frames = download_frames("/var/log/app.log/", b"abc");
    assert_eq!(frames.len(), 4);
    assert!(matches!(
        &frames[0],
        CopyFrame::BeginFile { relative_path, mode: 0, size: 3, mtime: 0 }
            if relative_path == "app.log"
    ));
    assert!(matches!(&frames[1], CopyFrame::FileData { data } if data == b"abc"));
    assert!(matches!(frames[2], CopyFrame::EndFile));
    assert!(matches!(
        &download_frames("/", b"")[0],
        CopyFrame::BeginFile { relative_path, size: 0, .. } if relative_path == "download"
    ));
}
