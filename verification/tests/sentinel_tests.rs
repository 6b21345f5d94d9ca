use xhod::sentinel::{
    find_sentinel, find_subslice, lookahead_sentinel, partial_suffix_match, Lookahead,
    SentinelFind, SentinelScanner,
};

fn scan(marker: &[u8], chunks: &[&[u8]]) -> (Vec<u8>, i32, Vec<u8>) {
    let mut sc = SentinelScanner::new(marker.to_vec());
    let mut out = Vec::new();
    let mut done = false;
    for chunk in chunks {
        if done {
            break;
        }
        let (forward, d) = sc.feed(chunk);
        out.extend_from_slice(&forward);
        done = d;
    }
    let code = if done { sc.exit_code() } else { -1 };
    let leftover = sc.take_leftover();
    (out, code, leftover)
}

/// The leak bug: marker fully present in the first "pending" feed must be
/// stripped, not forwarded, with the exit code parsed.
#[test]
fn scanner_strips_marker_present_in_first_chunk() {
    let marker = b"__XHO_E_test__";
    let feed = b"file1 file2\n__XHO_E_test__:0\ndevops@host:~$ ";
    let (out, code, leftover) = scan(marker, &[feed]);
    assert_eq!(out, b"file1 file2\n");
    assert_eq!(code, 0);
    assert_eq!(leftover, b"devops@host:~$ ");
}

#[test]
fn scanner_matches_marker_split_across_chunks() {
    let marker = b"__XHO_E_test__";
    let (out, code, _leftover) = scan(
        marker,
        &[
            b"file1\n__XHO_E_t",
            b"est__:42\ndevops@host:~$ ",
        ],
    );
    assert_eq!(out, b"file1\n");
    assert_eq!(code, 42);
}

#[test]
fn scanner_lookahead_split_across_chunks() {
    // Marker complete in chunk 1, but the `:7\n` lookahead arrives later.
    let marker = b"__XHO_E_test__";
    let (out, code, _leftover) = scan(
        marker,
        &[b"out__XHO_E_test__", b":7\nprompt$ "],
    );
    assert_eq!(out, b"out");
    assert_eq!(code, 7);
}

/// The echoed command line contains the marker followed by `:%s` — it must
/// NOT match. Scanning continues to the real sentinel.
#[test]
fn scanner_ignores_marker_in_echoed_command_line() {
    let marker = b"__XHO_E_test__";
    let echo = b"{ ls; }; status=$?; printf '__XHO_E_test__:%s\\n' \"$status\"\r\n";
    let output = b"file1\n__XHO_E_test__:0\n$ ";
    let (out, code, _leftover) = scan(marker, &[echo, output]);
    // Real output is recovered and the real sentinel is matched with code 0.
    assert!(out.ends_with(b"file1\n"));
    assert!(find_subslice(&out, marker).is_some()); // echo line forwarded
    assert_eq!(code, 0);
}

#[test]
fn scanner_parses_nonzero_exit_codes() {
    let marker = b"__XHO_E_test__";
    let (_, code1, _) = scan(marker, &[b"__XHO_E_test__:1\n"]);
    assert_eq!(code1, 1);
    let (_, code255, _) = scan(marker, &[b"__XHO_E_test__:255\n"]);
    assert_eq!(code255, 255);
}

/// A real bastion is a PTY: `\n` is translated to `\r\n` (onlcr), so the
/// sentinel arrives as `marker:0\r\n`. The scanner MUST accept CRLF — this
/// is the form that actually occurs in production.
#[test]
fn scanner_matches_crlf_terminator() {
    let marker = b"__XHO_E_test__";
    let (out, code, leftover) =
        scan(marker, &[b"file1\r\n__XHO_E_test__:0\r\ndevops@host:~$ "]);
    assert_eq!(out, b"file1\r\n");
    assert_eq!(code, 0);
    assert_eq!(leftover, b"devops@host:~$ ");
}

#[test]
fn scanner_matches_crlf_split_before_newline() {
    // `:0\r` in one chunk, `\n` in the next — the `\r` is held as incomplete.
    let marker = b"__XHO_E_test__";
    let (out, code, _) = scan(marker, &[b"out__XHO_E_test__:0\r", b"\n$ "]);
    assert_eq!(out, b"out");
    assert_eq!(code, 0);
}

#[test]
fn scanner_marker_at_start_forwards_nothing() {
    let marker = b"__XHO_E_test__";
    let (out, code, leftover) = scan(marker, &[b"__XHO_E_test__:0\nafter$ "]);
    assert!(out.is_empty());
    assert_eq!(code, 0);
    assert_eq!(leftover, b"after$ ");
}

#[test]
fn scanner_without_marker_forwards_everything() {
    // Many feeds, no marker -> all bytes forwarded, never done (code -1).
    let marker = b"__XHO_E_test__";
    let (out, code, _) = scan(marker, &[b"abc", b"def", b"ghi"]);
    assert_eq!(out, b"abcdefghi");
    assert_eq!(code, -1);
}

#[test]
fn scanner_holds_partial_marker_suffix() {
    // Chunk ends with a prefix of the marker; it must be held, not flushed.
    let marker = b"__XHO_E_test__";
    let (out, code, _leftover) = scan(
        marker,
        &[b"data __XHO_E", b"_test__:0\n"],
    );
    assert_eq!(out, b"data ");
    assert_eq!(code, 0);
}

#[test]
fn bytes_are_held_from_the_first_possible_sentinel_on() {
    let marker = b"aXa";
    for chunks in [&[&b"1aXaXa:12"[..]][..], &[b"1a", b"XaX", b"a:", b"12"], &[b"1aXaX", b"a:12"]] {
        let (out, code, _leftover) = scan(marker, chunks);
        assert_eq!(out, b"1aX");
        assert_eq!(code, -1);
    }
    assert_eq!(scan(marker, &[b"1aX", b"b"]).0, b"1aXb");
}

#[test]
fn scanning_does_not_depend_on_the_chunks() {
    let marker = b"__XHO_E_test__";
    let stream = b"one\n__XHO_E_tes two__XHO_E_test__:3\r\n$ ";
    let whole = scan(marker, &[stream]);
    for cut in 0..stream.len() {
        let (a, b) = stream.split_at(cut);
        let mut parts = scan(marker, &[a, b]);
        // What stands behind the sentinel in a later chunk was never fed.
        if whole.2.starts_with(&parts.2) {
            parts.2 = whole.2.clone();
        }
        assert_eq!(parts, whole);
    }
}

#[test]
fn lookahead_tells_codes_from_text() {
    assert!(matches!(
        lookahead_sentinel(b":12\nrest"),
        Lookahead::Confirmed { code: 12, consumed: 4 }
    ));
    assert!(matches!(lookahead_sentinel(b":12"), Lookahead::Incomplete));
    assert!(matches!(lookahead_sentinel(b""), Lookahead::Incomplete));
    assert!(matches!(lookahead_sentinel(b":%s"), Lookahead::Mismatch));
    assert!(matches!(lookahead_sentinel(b"x"), Lookahead::Mismatch));
}

#[test]
fn sentinels_are_found_where_they_stand() {
    assert!(matches!(
        find_sentinel(b"abM:0\nz", b"M"),
        SentinelFind::Confirmed { pos: 2, code: 0, end: 6 }
    ));
    assert!(matches!(find_sentinel(b"abM:0", b"M"), SentinelFind::Incomplete(2)));
    assert!(matches!(find_sentinel(b"abc", b"M"), SentinelFind::Absent));
    assert_eq!(partial_suffix_match(b"data __X", b"__XHO"), 3);
    assert_eq!(partial_suffix_match(b"data", b"__XHO"), 0);
    assert_eq!(partial_suffix_match(b"abc", b"abc"), 3);
    assert_eq!(partial_suffix_match(b"xa", b"a"), 1);
    assert_eq!(partial_suffix_match(b"xa", b""), 0);
    assert_eq!(find_subslice(b"hello", b"ll"), Some(2));
}

#[test]
fn a_sentinel_may_overlap_a_false_one() {
    assert!(matches!(
        find_sentinel(b"aXaXa:0\n", b"aXa"),
        SentinelFind::Confirmed { pos: 2, code: 0, end: 8 }
    ));
    let stream = b"out__M__M__:4\r\n$ ";
    for cut in 0..stream.len() {
        let (head, tail) = stream.split_at(cut);
        let (out, code, _) = scan(b"__M__", &[head, tail]);
        assert_eq!((out.as_slice(), code), (&b"out__M"[..], 4));
    }
}
