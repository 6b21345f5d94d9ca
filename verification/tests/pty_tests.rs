use xhod::output::{
    extract_marker, looks_like_prompt, prompt_output_split, strip_leading_shell_noise,
    strip_trailing_cr,
};
use xhod::passthrough::{make_marker, wrap_shell_command, PassAction, PassEvent, Passthrough};
use xhod::pty::{
    line_payload, read_chunk, shell_prompt_suffixes, ChannelMessage, CommandReader,
    InteractiveAction, InteractiveEvent, InteractiveReader, PtyShell, ReadEvent, SentinelReader,
    ShellRead,
};
use xhod::text::{decimal, join, replace, signed_decimal, split, trim};

#[test]
fn prompts_are_recognised() {
    let suffixes = shell_prompt_suffixes();
    assert!(looks_like_prompt(b"out\nme@host:~$ ", &suffixes));
    assert!(!looks_like_prompt(b"still running", &suffixes));
    assert_eq!(prompt_output_split(b"out\nme@host:~$ ", &suffixes), Some(4));
    assert_eq!(strip_trailing_cr(b"a\r"), b"a");
    assert_eq!(strip_leading_shell_noise(b"\x1b[?2004l\r\nout"), b"out");
    assert_eq!(extract_marker(b"out\nM:7\n", b"M"), (7, &b"out\n"[..]));
    assert_eq!(extract_marker(b"M:%s\nout\nM:7\r\n", b"M"), (7, &b"M:%s\nout\n"[..]));
    assert_eq!(extract_marker(b"out M:x\n", b"M"), (0, &b"out M:x\n"[..]));
    assert_eq!(extract_marker(b"out M:7", b"M"), (0, &b"out M:7"[..]));
    assert_eq!(extract_marker(b"out", b""), (0, &b"out"[..]));
}

#[test]
fn bytes_that_are_no_text_are_shown_anyway() {
    let mut shell = PtyShell::new(shell_prompt_suffixes());
    shell.extend_pending(b"a\xffb");
    assert_eq!(shell.pending_text(), "a\u{fffd}b");
    shell.clear_pending();
    assert_eq!(shell.pending_text(), "");
}

#[test]
fn shells_drop_prompts_and_echoes() {
    let mut shell = PtyShell::new(shell_prompt_suffixes());
    shell.extend_pending(b"me@host:~$ ");
    assert!(shell.pending_has_prompt());
    shell.clear_prompt_remainder();
    assert_eq!(shell.pending_text(), "");
    shell.extend_pending(b"ls\r\nfile");
    assert!(shell.drain_echo_line());
    assert_eq!(shell.pending_text(), "file");
    assert!(!shell.drain_echo_line());
    assert_eq!(line_payload("ls"), b"ls\r");
}

#[test]
fn reads_fail_when_the_shell_is_gone() {
    assert_eq!(read_chunk(ShellRead::TimedOut).unwrap_err(), "timed out waiting for shell output");
    assert_eq!(read_chunk(ShellRead::Closed).unwrap_err(), "shell closed unexpectedly");
    assert_eq!(
        read_chunk(ShellRead::Message(ChannelMessage::Data(b"x".to_vec()))),
        Ok(b"x".to_vec())
    );
}

#[test]
fn output_is_read_up_to_its_marker() {
    let mut shell = PtyShell::new(shell_prompt_suffixes());
    let mut reader = SentinelReader::new(b"M__".to_vec(), false, true);
    let step = reader.on_event(&mut shell, ReadEvent::StdinClosed);
    assert_eq!(step.write, Some(vec![4]));
    assert!(!reader.is_stdin_open());
    let step = reader.on_event(&mut shell, ReadEvent::Chunk(b"hello\nM__:5\n$ ".to_vec()));
    assert_eq!(step.finished, Some((5, b"hello\n".to_vec())));
    assert_eq!(shell.pending_text(), "$ ");
}

#[test]
fn commands_end_at_the_prompt() {
    let mut shell = PtyShell::new(shell_prompt_suffixes());
    let mut reader = CommandReader::with_marker(b"M__".to_vec());
    assert_eq!(reader.on_chunk(&mut shell, b"hel").1, None);
    let (out, code) = reader.on_chunk(&mut shell, b"lo\nM__:2\nme@host:~$ ");
    assert_eq!(code, Some(2));
    assert!(out.starts_with(b"hello"));
    let mut plain = CommandReader::plain();
    let mut shell = PtyShell::new(shell_prompt_suffixes());
    assert_eq!(plain.on_chunk(&mut shell, b"x\nme@host:~$ ").1, Some(0));
}

#[test]
fn interactive_commands_finish_at_their_marker() {
    let shell = PtyShell::new(shell_prompt_suffixes());
    let mut reader = InteractiveReader::new(shell, b"M__".to_vec());
    assert!(matches!(
        reader.on_event(InteractiveEvent::Stdin(b"q".to_vec())),
        InteractiveAction::Write(d) if d == b"q"
    ));
    let data = ChannelMessage::Data(b"bye\nM__:4\n".to_vec());
    assert!(matches!(
        reader.on_event(InteractiveEvent::Message(Some(data))),
        InteractiveAction::Finish(out, 4) if out == b"bye\n"
    ));
}

#[test]
fn a_passthrough_hides_the_sentinel_and_keeps_the_terminal() {
    let (mut pass, out, end) = Passthrough::start(Some(b"M__".to_vec()), b"out\n".to_vec());
    assert_eq!(out, b"out\n");
    assert!(end.is_none());
    let data = ChannelMessage::Data(b"M__:6\n$ ".to_vec());
    assert!(matches!(
        pass.on_event(PassEvent::Message(Some(data))),
        PassAction::Finish { exit_code: 6, reusable: Some(rest) } if rest == b"$ "
    ));
    let (mut pass, _, _) = Passthrough::start(None, vec![]);
    assert!(matches!(
        pass.on_event(PassEvent::Message(Some(ChannelMessage::ExitStatus(9)))),
        PassAction::Nothing
    ));
    assert!(matches!(
        pass.on_event(PassEvent::Message(None)),
        PassAction::Finish { exit_code: 9, reusable: None }
    ));
}

#[test]
fn output_is_complete_however_it_is_cut() {
    let text: Vec<u8> = (0..200u8).map(|i| b'a' + i % 26).collect();
    let mut stream = b"\n".to_vec();
    stream.extend_from_slice(&text);
    stream.extend_from_slice(b"M__:3\nme@host:~$ ");
    for size in [1, 7, 50, 500] {
        let mut shell = PtyShell::new(shell_prompt_suffixes());
        let mut reader = SentinelReader::new(b"M__".to_vec(), true, false);
        let mut out = Vec::new();
        let mut code = None;
        let mut read = 0;
        for chunk in stream.chunks(size) {
            let step = reader.on_event(&mut shell, ReadEvent::Chunk(chunk.to_vec()));
            out.extend_from_slice(&step.emit);
            read += chunk.len();
            if let Some((c, _)) = step.finished {
                code = Some(c);
                break;
            }
        }
        assert_eq!(code, Some(3));
        assert_eq!(out, text);
        assert!(stream[..read].ends_with(shell.pending_text().as_bytes()));

        let mut shell = PtyShell::new(shell_prompt_suffixes());
        let mut reader = CommandReader::with_marker(b"M__".to_vec());
        let mut out = Vec::new();
        let mut code = None;
        for chunk in stream.chunks(size) {
            let (more, c) = reader.on_chunk(&mut shell, chunk);
            out.extend_from_slice(&more);
            code = code.or(c);
        }
        assert_eq!(code, Some(3));
        assert_eq!(out, text);
        assert_eq!(shell.pending_text(), "me@host:~$ ");
    }
}

#[test]
fn a_passthrough_is_transparent() {
    let (mut pass, first, end) = Passthrough::start(None, b"M__:1\n".to_vec());
    assert_eq!(first, b"M__:1\n");
    assert!(end.is_none());
    assert!(pass.is_stdin_open());
    assert!(matches!(
        pass.on_event(PassEvent::Stdin(b"\x03\xff".to_vec())),
        PassAction::Write(d) if d == b"\x03\xff"
    ));
    let data = ChannelMessage::Data(b"\x1b[0mM__:2\n".to_vec());
    assert!(matches!(
        pass.on_event(PassEvent::Message(Some(data))),
        PassAction::Forward(d) if d == b"\x1b[0mM__:2\n"
    ));
    assert!(matches!(pass.on_event(PassEvent::Forwarded(true)), PassAction::Nothing));
    assert!(matches!(pass.on_event(PassEvent::StdinClosed), PassAction::SendEof));
    assert!(!pass.is_stdin_open());
    assert!(matches!(
        pass.on_event(PassEvent::Forwarded(false)),
        PassAction::Finish { exit_code: 0, reusable: None }
    ));

    let (mut pass, first, _) = Passthrough::start(Some(b"M__".to_vec()), b"aM".to_vec());
    assert_eq!(first, b"a");
    let data = ChannelMessage::Data(b"bM__:8\n$ ".to_vec());
    assert!(matches!(
        pass.on_event(PassEvent::Message(Some(data))),
        PassAction::Forward(d) if d == b"Mb"
    ));
    assert!(matches!(
        pass.on_event(PassEvent::Forwarded(true)),
        PassAction::Finish { exit_code: 8, reusable: Some(rest) } if rest == b"$ "
    ));
}

#[test]
fn markers_are_fresh() {
    let marker = make_marker();
    assert!(marker.starts_with("__XHO_E_") && marker.ends_with("__"));
    assert_eq!(marker.len(), "__XHO_E_".len() + 34);
    assert_ne!(marker, make_marker());
    assert_eq!(
        wrap_shell_command("ls", "M"),
        "{ ls; }; status=$?; printf 'M:%s\\n' \"$status\""
    );
}

#[test]
fn texts_are_cut_and_joined() {
    assert_eq!(trim("\u{3000} a b\t\n"), "a b");
    let parts = split("a:b::c", ':');
    assert_eq!(parts, ["a", "b", "", "c"]);
    assert_eq!(join(&parts, "-"), "a-b--c");
    assert_eq!(replace("a{}b{}", "{}", "x"), "axbx");
    assert_eq!(decimal(0), "0");
    assert_eq!(decimal(u64::MAX), "18446744073709551615");
    assert_eq!(signed_decimal(i32::MIN), "-2147483648");
}
