//! Terminal output: prompts, escape sequences, marker lines.
use crate::search;
use crate::search::{bytes_after_last, bytes_until, find_bytes_from};
use crate::sentinel::find_subslice;
use crate::text;
use crate::text::{
    digits_only, ends_with, from_chars, parse_i32, to_chars, trim, trim_bounds,
};
use vstd::prelude::*;

verus! {

// ---------------------------------------------------------------------------
// Bytes as text
// ---------------------------------------------------------------------------
/// The text that std's lossy UTF-8 decoding makes of bytes: what is not UTF-8 becomes
/// U+FFFD.
pub uninterp spec fn lossy_text(bytes: Seq<u8>) -> Seq<char>;

/// Calls `String::from_utf8_lossy` of std, whose result depends on the bytes alone
/// and is their plain decoding where they are valid UTF-8.
#[verifier::external_body]
pub(crate) fn decode_lossy(bytes: &[u8]) -> (r: String)
    ensures
        r@ == lossy_text(bytes@),
        vstd::utf8::valid_utf8(bytes@) ==> r@ == vstd::utf8::decode_utf8(bytes@),
{
    String::from_utf8_lossy(bytes).into_owned()
}

/// Calls `std::str::from_utf8`: text exactly where the bytes are valid UTF-8, and then
/// their decoding.
#[verifier::external_body]
pub(crate) fn decode_strict(bytes: &[u8]) -> (r: Option<String>)
    ensures
        r is Some <==> vstd::utf8::valid_utf8(bytes@),
        r matches Some(s) ==> s@ == vstd::utf8::decode_utf8(bytes@),
{
    std::str::from_utf8(bytes).ok().map(|s| s.to_owned())
}

// ---------------------------------------------------------------------------
// Prompts
// ---------------------------------------------------------------------------
/// `s` without the carriage returns at its end.
pub open spec fn without_crs(s: Seq<char>) -> Seq<char>
    decreases s.len(),
{
    if s.len() > 0 && s.last() == '\r' {
        without_crs(s.drop_last())
    } else {
        s
    }
}

/// The last line of a text.
pub open spec fn last_line(s: Seq<char>) -> Seq<char> {
    without_crs(s.skip(search::last_index(s, '\n') + 1))
}

/// The last line of `s` ends with one of the suffixes.
pub open spec fn at_prompt(s: Seq<char>, suffixes: Seq<Seq<char>>) -> bool {
    exists|i: int| 0 <= i < suffixes.len() && text::ends(last_line(s), #[trigger] suffixes[i])
}

/// Whether the last line of a text ends with a shell prompt.
pub fn ends_at_prompt(s: &str, suffixes: &[String]) -> (r: bool)
    ensures
        r == at_prompt(s@, text::texts(suffixes@)),
{
    let v = to_chars(s);
    let start: usize = crate::search::chars_after_last(v.as_slice(), '\n');
    let mut end: usize = v.len();
    assert(v@.subrange(start as int, end as int) == s@.skip(start as int));
    while end > start && v[end - 1] == '\r'
        invariant
            start <= end <= v.len(),
            without_crs(v@.subrange(start as int, end as int)) == last_line(s@),
        decreases end,
    {
        assert(v@.subrange(start as int, end as int).drop_last() == v@.subrange(
            start as int,
            end - 1,
        ));
        end -= 1;
    }
    let tail = from_chars(vstd::slice::slice_subrange(v.as_slice(), start, end));
    assert(tail@ == last_line(s@));
    let mut i: usize = 0;
    while i < suffixes.len()
        invariant
            i <= suffixes.len(),
            tail@ == last_line(s@),
            forall|j: int|
                0 <= j < i ==> !text::ends(last_line(s@), #[trigger] text::texts(suffixes@)[j]),
        decreases suffixes.len() - i,
    {
        if ends_with(tail.as_str(), suffixes[i].as_str()) {
            assert(text::ends(last_line(s@), text::texts(suffixes@)[i as int]));
            return true;
        }
        i += 1;
    }
    false
}

/// Whether a byte buffer ends with something that looks like a shell prompt.
pub fn looks_like_prompt(buffer: &[u8], suffixes: &[String]) -> (r: bool)
    ensures
        r == at_prompt(lossy_text(buffer@), text::texts(suffixes@)),
{
    let s = decode_lossy(buffer);
    ends_at_prompt(s.as_str(), suffixes)
}

/// Where the prompt begins, if the buffer ends with one: behind its last newline.
pub open spec fn prompt_split(buffer: Seq<u8>, suffixes: Seq<Seq<char>>) -> Option<int> {
    if at_prompt(lossy_text(buffer), suffixes) {
        Some(search::last_index(buffer, 0x0a) + 1)
    } else {
        None
    }
}

/// If `buffer` ends with a prompt, the index where the prompt begins; the command
/// output is what stands before it.
pub fn prompt_output_split(buffer: &[u8], suffixes: &[String]) -> (r: Option<usize>)
    ensures
        r is Some <==> prompt_split(buffer@, text::texts(suffixes@)) is Some,
        r matches Some(n) ==> n <= buffer.len() && prompt_split(
            buffer@,
            text::texts(suffixes@),
        ) == Some(n as int),
{
    if !looks_like_prompt(buffer, suffixes) {
        return None;
    }
    Some(bytes_after_last(buffer, 0x0a))
}

// ---------------------------------------------------------------------------
// Escape sequences in bytes
// ---------------------------------------------------------------------------
/// The index behind a control sequence whose parameters start at `i`.
pub open spec fn csi_end(b: Seq<u8>, i: int) -> Option<int>
    decreases b.len() - i,
{
    if i < 0 || i >= b.len() {
        None
    } else if 0x40 <= b[i] <= 0x7e {
        Some(i + 1)
    } else {
        csi_end(b, i + 1)
    }
}

/// The index behind an operating system command whose text starts at `i`.
pub open spec fn osc_end(b: Seq<u8>, i: int) -> Option<int>
    decreases b.len() - i,
{
    if i < 0 || i >= b.len() {
        None
    } else if b[i] == 0x07 {
        Some(i + 1)
    } else if b[i] == 0x1b && i + 1 < b.len() && b[i + 1] == 0x5c {
        Some(i + 2)
    } else {
        osc_end(b, i + 1)
    }
}

/// The index behind the complete escape sequence that starts at `i`.
pub open spec fn escape_end(b: Seq<u8>, i: int) -> Option<int> {
    if i < 0 || i + 1 >= b.len() || b[i] != 0x1b {
        None
    } else if b[i + 1] == 0x5b {
        csi_end(b, i + 2)
    } else if b[i + 1] == 0x5d {
        osc_end(b, i + 2)
    } else {
        None
    }
}

proof fn lemma_csi_end(b: Seq<u8>, i: int)
    ensures
        csi_end(b, i) matches Some(n) ==> i < n <= b.len(),
    decreases b.len() - i,
{
    if 0 <= i < b.len() && !(0x40 <= b[i] <= 0x7e) {
        lemma_csi_end(b, i + 1);
    }
}

proof fn lemma_osc_end(b: Seq<u8>, i: int)
    ensures
        osc_end(b, i) matches Some(n) ==> i < n <= b.len(),
    decreases b.len() - i,
{
    if 0 <= i < b.len() {
        lemma_osc_end(b, i + 1);
    }
}

proof fn lemma_escape_end(b: Seq<u8>, i: int)
    ensures
        escape_end(b, i) matches Some(n) ==> i < n <= b.len(),
{
    lemma_csi_end(b, i + 2);
    lemma_osc_end(b, i + 2);
}

/// The index behind the escape sequence that starts at `start`, if one does and it
/// is complete.
#[verifier::loop_isolation(false)]
pub fn skip_leading_ansi_escape(bytes: &[u8], start: usize) -> (r: Option<usize>)
    requires
        start <= bytes.len(),
    ensures
        r is Some <==> escape_end(bytes@, start as int) is Some,
        r matches Some(n) ==> start < n <= bytes.len() && escape_end(bytes@, start as int)
            == Some(n as int),
{
    if bytes.len() - start < 2 || bytes[start] != 0x1b {
        return None;
    }
    let kind = bytes[start + 1];
    let mut i: usize = start + 2;
    if kind == 0x5b {
        while i < bytes.len()
            invariant
                start + 2 <= i <= bytes.len(),
                csi_end(bytes@, start + 2) == csi_end(bytes@, i as int),
            decreases bytes.len() - i,
        {
            if 0x40 <= bytes[i] && bytes[i] <= 0x7e {
                return Some(i + 1);
            }
            i += 1;
        }
        None
    } else if kind == 0x5d {
        while i < bytes.len()
            invariant
                start + 2 <= i <= bytes.len(),
                osc_end(bytes@, start + 2) == osc_end(bytes@, i as int),
            decreases bytes.len() - i,
        {
            if bytes[i] == 0x07 {
                return Some(i + 1);
            }
            if bytes[i] == 0x1b && bytes.len() - i > 1 && bytes[i + 1] == 0x5c {
                return Some(i + 2);
            }
            i += 1;
        }
        None
    } else {
        None
    }
}

/// The index behind the line ends and complete escape sequences from `i` on.
pub open spec fn noise_end(b: Seq<u8>, i: int) -> int
    decreases b.len() - i,
    via noise_end_decreases
{
    if i < 0 || i >= b.len() {
        i
    } else if b[i] == 0x0d || b[i] == 0x0a {
        noise_end(b, i + 1)
    } else {
        match escape_end(b, i) {
            Some(n) => noise_end(b, n),
            None => i,
        }
    }
}

#[via_fn]
proof fn noise_end_decreases(b: Seq<u8>, i: int) {
    lemma_escape_end(b, i);
}

/// `b` without the line ends and escape sequences it begins with.
pub open spec fn without_noise(b: Seq<u8>) -> Seq<u8> {
    b.skip(noise_end(b, 0))
}

/// Strip the line ends and escape sequences that a shell prints before a command's
/// output.
pub fn strip_leading_shell_noise(bytes: &[u8]) -> (r: &[u8])
    ensures
        r@ == without_noise(bytes@),
{
    let mut i: usize = 0;
    loop
        invariant
            i <= bytes.len(),
            noise_end(bytes@, 0) == noise_end(bytes@, i as int),
        decreases bytes.len() - i,
    {
        if i < bytes.len() && (bytes[i] == 0x0d || bytes[i] == 0x0a) {
            i += 1;
        } else {
            match skip_leading_ansi_escape(bytes, i) {
                Some(next) => {
                    i = next;
                },
                None => {
                    let rest = vstd::slice::slice_subrange(bytes, i, bytes.len());
                    assert(rest@ == bytes@.skip(i as int));
                    return rest;
                },
            }
        }
    }
}

// ---------------------------------------------------------------------------
// Escape sequences in text
// ---------------------------------------------------------------------------
/// The index behind a control sequence whose parameters start at `i`, or the end.
pub open spec fn text_csi_end(s: Seq<char>, i: int) -> int
    decreases s.len() - i,
{
    if i < 0 || i >= s.len() {
        s.len() as int
    } else if 0x40 <= s[i] as u32 <= 0x7e {
        i + 1
    } else {
        text_csi_end(s, i + 1)
    }
}

/// The index behind an operating system command whose text starts at `i`, or the end.
pub open spec fn text_osc_end(s: Seq<char>, i: int) -> int
    decreases s.len() - i,
{
    if i < 0 || i >= s.len() {
        s.len() as int
    } else if s[i] as u32 == 0x07 {
        i + 1
    } else if s[i] as u32 == 0x1b && i + 1 < s.len() && s[i + 1] == '\\' {
        i + 2
    } else {
        text_osc_end(s, i + 1)
    }
}

proof fn lemma_text_csi_end(s: Seq<char>, i: int)
    requires
        0 <= i <= s.len(),
    ensures
        i <= text_csi_end(s, i) <= s.len(),
    decreases s.len() - i,
{
    if i < s.len() {
        lemma_text_csi_end(s, i + 1);
    }
}

proof fn lemma_text_osc_end(s: Seq<char>, i: int)
    requires
        0 <= i <= s.len(),
    ensures
        i <= text_osc_end(s, i) <= s.len(),
    decreases s.len() - i,
{
    if i < s.len() {
        lemma_text_osc_end(s, i + 1);
    }
}

/// The index behind the escape sequence that starts at `i`; any other character
/// behind the escape makes a sequence of two.
pub open spec fn text_escape_end(s: Seq<char>, i: int) -> int {
    if i + 1 >= s.len() {
        s.len() as int
    } else if s[i + 1] == '[' {
        text_csi_end(s, i + 2)
    } else if s[i + 1] == ']' {
        text_osc_end(s, i + 2)
    } else {
        i + 2
    }
}

/// `s` from `i` on without its escape sequences.
pub open spec fn ansi_free_from(s: Seq<char>, i: int) -> Seq<char>
    decreases s.len() - i,
    via ansi_free_from_decreases
{
    if i < 0 || i >= s.len() {
        Seq::empty()
    } else if s[i] as u32 == 0x1b {
        ansi_free_from(s, text_escape_end(s, i))
    } else {
        seq![s[i]] + ansi_free_from(s, i + 1)
    }
}

#[via_fn]
proof fn ansi_free_from_decreases(s: Seq<char>, i: int) {
    if 0 <= i && i + 1 < s.len() {
        lemma_text_csi_end(s, i + 2);
        lemma_text_osc_end(s, i + 2);
    }
}

/// `s` without its escape sequences.
pub open spec fn ansi_free(s: Seq<char>) -> Seq<char> {
    ansi_free_from(s, 0)
}

/// No escape, from `i` on, is directly followed by a character outside ASCII.
pub open spec fn ascii_escapes_from(s: Seq<char>, i: int) -> bool
    decreases s.len() - i,
    via ascii_escapes_from_decreases
{
    if i < 0 || i >= s.len() {
        true
    } else if s[i] as u32 == 0x1b {
        (i + 1 < s.len() ==> (s[i + 1] as u32) < 0x80) && ascii_escapes_from(
            s,
            text_escape_end(s, i),
        )
    } else {
        ascii_escapes_from(s, i + 1)
    }
}

#[via_fn]
proof fn ascii_escapes_from_decreases(s: Seq<char>, i: int) {
    if 0 <= i && i + 1 < s.len() {
        lemma_text_csi_end(s, i + 2);
        lemma_text_osc_end(s, i + 2);
    }
}

/// No escape is directly followed by a character outside ASCII.
pub open spec fn ascii_escapes(s: Seq<char>) -> bool {
    ascii_escapes_from(s, 0)
}

/// The index behind the escape sequence that starts at `i`.
#[verifier::loop_isolation(false)]
fn end_of_text_escape(v: &[char], i: usize) -> (r: usize)
    requires
        i < v.len(),
    ensures
        r == text_escape_end(v@, i as int),
        i < r <= v.len(),
{
    if v.len() - i < 2 {
        return v.len();
    }
    let kind = v[i + 1];
    let mut k: usize = i + 2;
    if kind == '[' {
        while k < v.len()
            invariant
                i + 2 <= k <= v.len(),
                text_csi_end(v@, i + 2) == text_csi_end(v@, k as int),
            decreases v.len() - k,
        {
            let u: u32 = v[k] as u32;
            if 0x40 <= u && u <= 0x7e {
                return k + 1;
            }
            k += 1;
        }
        k
    } else if kind == ']' {
        while k < v.len()
            invariant
                i + 2 <= k <= v.len(),
                text_osc_end(v@, i + 2) == text_osc_end(v@, k as int),
            decreases v.len() - k,
        {
            let u: u32 = v[k] as u32;
            if u == 0x07 {
                return k + 1;
            }
            if u == 0x1b && v.len() - k > 1 && v[k + 1] == '\\' {
                return k + 2;
            }
            k += 1;
        }
        k
    } else {
        k
    }
}

/// Whether no escape in a text is directly followed by a character outside ASCII.
pub fn has_ascii_escapes(input: &str) -> (r: bool)
    ensures
        r == ascii_escapes(input@),
{
    let v = to_chars(input);
    let mut i: usize = 0;
    while i < v.len()
        invariant
            i <= v.len(),
            v@ == input@,
            ascii_escapes(input@) == ascii_escapes_from(v@, i as int),
        decreases v.len() - i,
    {
        if v[i] as u32 == 0x1b {
            if v.len() - i > 1 && v[i + 1] as u32 >= 0x80 {
                return false;
            }
            i = end_of_text_escape(v.as_slice(), i);
        } else {
            i += 1;
        }
    }
    true
}

/// Remove the escape sequences of a terminal from a text.
pub fn strip_ansi(input: &str) -> (r: String)
    requires
        ascii_escapes(input@),
    ensures
        r@ == ansi_free(input@),
{
    let v = to_chars(input);
    let mut r = String::new();
    let mut i: usize = 0;
    assert(r@ + ansi_free(v@) == ansi_free(v@));
    while i < v.len()
        invariant
            i <= v.len(),
            v@ == input@,
            r@ + ansi_free_from(v@, i as int) == ansi_free(input@),
        decreases v.len() - i,
    {
        if v[i] as u32 == 0x1b {
            i = end_of_text_escape(v.as_slice(), i);
        } else {
            let ghost before = r@;
            r.push(v[i]);
            i += 1;
            assert(before + (seq![v@[i - 1]] + ansi_free_from(v@, i as int)) == r@
                + ansi_free_from(v@, i as int));
        }
    }
    assert(r@ + Seq::<char>::empty() == r@);
    r
}

/// A text without escape characters is left as it is.
pub proof fn law_plain_text_is_kept(s: Seq<char>)
    requires
        forall|i: int| 0 <= i < s.len() ==> s[i] as u32 != 0x1b,
    ensures
        ascii_escapes(s),
        ansi_free(s) == s,
{
    lemma_plain_from(s, 0);
    assert(s.skip(0) == s);
}

proof fn lemma_plain_from(s: Seq<char>, i: int)
    requires
        0 <= i <= s.len(),
        forall|j: int| 0 <= j < s.len() ==> s[j] as u32 != 0x1b,
    ensures
        ascii_escapes_from(s, i),
        ansi_free_from(s, i) == s.skip(i),
    decreases s.len() - i,
{
    if i < s.len() {
        lemma_plain_from(s, i + 1);
        assert(s.skip(i) == seq![s[i]] + s.skip(i + 1));
    } else {
        assert(s.skip(i) == Seq::<char>::empty());
    }
}

/// What is left of a text holds no escape character.
pub proof fn law_stripped_text_has_no_escape(s: Seq<char>)
    ensures
        forall|i: int| 0 <= i < ansi_free(s).len() ==> (#[trigger] ansi_free(s)[i]) as u32 != 0x1b,
{
    lemma_stripped_from(s, 0);
}

proof fn lemma_stripped_from(s: Seq<char>, i: int)
    ensures
        forall|k: int|
            0 <= k < ansi_free_from(s, i).len() ==> (#[trigger] ansi_free_from(s, i)[k]) as u32
                != 0x1b,
    decreases s.len() - i,
{
    if 0 <= i < s.len() {
        if i + 1 < s.len() {
            lemma_text_csi_end(s, i + 2);
            lemma_text_osc_end(s, i + 2);
        }
        if s[i] as u32 == 0x1b {
            lemma_stripped_from(s, text_escape_end(s, i));
            assert(ansi_free_from(s, i) == ansi_free_from(s, text_escape_end(s, i)));
        } else {
            lemma_stripped_from(s, i + 1);
            let rest = ansi_free_from(s, i + 1);
            assert forall|k: int| 0 <= k < ansi_free_from(s, i).len() implies (
            #[trigger] ansi_free_from(s, i)[k]) as u32 != 0x1b by {
                if k > 0 {
                    assert(ansi_free_from(s, i)[k] == rest[k - 1]);
                }
            }
        }
    } else {
        assert(ansi_free_from(s, i).len() == 0);
    }
}

// ---------------------------------------------------------------------------
// Marker lines
// ---------------------------------------------------------------------------
/// The number on a status line.
pub open spec fn status_of(line: Seq<u8>) -> Option<int> {
    if vstd::utf8::valid_utf8(line) {
        text::i32_of(text::trim_of(vstd::utf8::decode_utf8(line)))
    } else {
        None
    }
}

fn read_status(line: &[u8]) -> (r: Option<i32>)
    ensures
        r is Some <==> status_of(line@) is Some,
        r matches Some(n) ==> status_of(line@) == Some(n as int),
{
    match decode_strict(line) {
        Some(s) => {
            let v = to_chars(s.as_str());
            let (i, j) = trim_bounds(v.as_slice());
            parse_i32(vstd::slice::slice_subrange(v.as_slice(), i, j))
        },
        None => None,
    }
}

/// `line` without one carriage return at its end.
pub open spec fn without_cr(line: Seq<u8>) -> Seq<u8> {
    if line.len() > 0 && line.last() == 0x0d {
        line.drop_last()
    } else {
        line
    }
}

pub fn strip_trailing_cr(bytes: &[u8]) -> (r: &[u8])
    ensures
        r@ == without_cr(bytes@),
{
    if bytes.len() > 0 && bytes[bytes.len() - 1] == 0x0d {
        let r = vstd::slice::slice_subrange(bytes, 0, bytes.len() - 1);
        assert(r@ == bytes@.drop_last());
        r
    } else {
        bytes
    }
}

/// The marker line of a buffer: its status, the bytes before and the bytes behind it.
pub open spec fn marker_line(buffer: Seq<u8>, prefix: Seq<u8>) -> Option<
    (int, Seq<u8>, Seq<u8>),
> {
    match search::find(buffer, prefix) {
        None => None,
        Some(start) => {
            let after = buffer.skip(start + prefix.len());
            let rest = after.skip(1);
            let end = search::until(rest, 0x0a);
            if after.len() == 0 || after[0] != 0x3a {
                None
            } else {
                match status_of(without_cr(rest.take(end))) {
                    None => None,
                    Some(code) => Some(
                        (
                            code,
                            buffer.take(start),
                            if end < rest.len() {
                                rest.skip(end + 1)
                            } else {
                                rest.skip(end)
                            },
                        ),
                    ),
                }
            }
        },
    }
}

/// Extract the marker line from a byte buffer: exit status, bytes before, bytes after.
pub fn extract_sentinel<'a>(buffer: &'a [u8], prefix: &[u8]) -> (r: Option<
    (i32, &'a [u8], &'a [u8]),
>)
    requires
        prefix@.len() > 0,
    ensures
        r is Some <==> marker_line(buffer@, prefix@) is Some,
        r matches Some((code, before, after)) ==> marker_line(buffer@, prefix@) == Some(
            (code as int, before@, after@),
        ),
{
    match find_subslice(buffer, prefix) {
        None => None,
        Some(start) => {
            let after = vstd::slice::slice_subrange(buffer, start + prefix.len(), buffer.len());
            assert(after@ == buffer@.skip(start + prefix.len()));
            if after.len() == 0 || after[0] != 0x3a {
                return None;
            }
            let rest = vstd::slice::slice_subrange(after, 1, after.len());
            assert(rest@ == after@.skip(1));
            let end: usize = bytes_until(rest, 0x0a);
            let full = vstd::slice::slice_subrange(rest, 0, end);
            assert(full@ == rest@.take(end as int));
            let line = strip_trailing_cr(full);
            match read_status(line) {
                None => None,
                Some(code) => {
                    let before = vstd::slice::slice_subrange(buffer, 0, start);
                    assert(before@ == buffer@.take(start as int));
                    let from: usize = if end < rest.len() {
                        end + 1
                    } else {
                        end
                    };
                    let remainder = vstd::slice::slice_subrange(rest, from, rest.len());
                    assert(remainder@ == rest@.skip(from as int));
                    Some((code, before, remainder))
                },
            }
        },
    }
}

/// The exit code on a status line, if the line holds a number. One that no `i32` holds counts
/// as 0.
pub open spec fn code_on(line: Seq<u8>) -> Option<int> {
    if !vstd::utf8::valid_utf8(line) {
        None
    } else {
        let number = text::trim_of(vstd::utf8::decode_utf8(line));
        match text::i32_of(number) {
            Some(code) => Some(code),
            None => if number.len() > 0 && text::all_digits(number) {
                Some(0)
            } else {
                None
            },
        }
    }
}

fn read_code(line: &[u8]) -> (r: Option<i32>)
    ensures
        r is Some <==> code_on(line@) is Some,
        r matches Some(n) ==> code_on(line@) == Some(n as int),
{
    match decode_strict(line) {
        Some(s) => {
            let number = trim(s.as_str());
            let v = to_chars(number.as_str());
            match parse_i32(v.as_slice()) {
                Some(code) => Some(code),
                None => if v.len() > 0 && digits_only(number.as_str()) {
                    Some(0)
                } else {
                    None
                },
            }
        },
        None => None,
    }
}

/// The exit code of a marker line that begins at `pos`: the marker, a colon, a number and a
/// line end.
pub open spec fn code_at(buf: Seq<u8>, marker: Seq<u8>, pos: int) -> Option<int> {
    let after = buf.skip(pos + marker.len());
    let rest = after.skip(1);
    let end = search::until(rest, 0x0a);
    if marker.len() == 0 || !search::occurs_at(buf, marker, pos) || after.len() == 0 || after[0]
        != 0x3a || end >= rest.len() {
        None
    } else {
        code_on(rest.take(end))
    }
}

/// The first index, not below `from`, at which a marker line begins, and its exit code.
pub open spec fn marker_from(buf: Seq<u8>, marker: Seq<u8>, from: int) -> Option<(int, int)>
    decreases buf.len() - from,
{
    if from < 0 || from >= buf.len() {
        None
    } else {
        match code_at(buf, marker, from) {
            Some(code) => Some((from, code)),
            None => marker_from(buf, marker, from + 1),
        }
    }
}

/// The exit code of the first marker line in `buf` and the bytes before it. Without such a
/// line the code is 0 and the bytes are all of them.
pub open spec fn marker_code(buf: Seq<u8>, marker: Seq<u8>) -> (int, Seq<u8>) {
    match marker_from(buf, marker, 0) {
        Some((pos, code)) => (code, buf.take(pos)),
        None => (0, buf),
    }
}

/// Indices at which no marker line begins can be left out of the search.
proof fn lemma_marker_gap(buf: Seq<u8>, marker: Seq<u8>, lo: int, hi: int)
    requires
        0 <= lo <= hi,
        forall|j: int| lo <= j < hi ==> #[trigger] code_at(buf, marker, j) is None,
    ensures
        marker_from(buf, marker, lo) == marker_from(buf, marker, hi),
    decreases hi - lo,
{
    if lo < hi {
        assert(code_at(buf, marker, lo) is None);
        lemma_marker_gap(buf, marker, lo + 1, hi);
    }
}

/// What is found is a marker line.
pub proof fn lemma_marker_from(buf: Seq<u8>, marker: Seq<u8>, from: int)
    ensures
        marker_from(buf, marker, from) matches Some((pos, code)) ==> from <= pos < buf.len()
            && code_at(buf, marker, pos) == Some(code),
    decreases buf.len() - from,
{
    if 0 <= from < buf.len() && code_at(buf, marker, from) is None {
        lemma_marker_from(buf, marker, from + 1);
    }
}

/// The exit code of a marker line at an occurrence of the marker.
fn read_code_at(buf: &[u8], marker: &[u8], pos: usize) -> (r: Option<i32>)
    requires
        marker@.len() > 0,
        search::occurs_at(buf@, marker@, pos as int),
    ensures
        r is Some <==> code_at(buf@, marker@, pos as int) is Some,
        r matches Some(n) ==> code_at(buf@, marker@, pos as int) == Some(n as int),
{
    assert(pos + marker.len() <= buf.len());
    let after = vstd::slice::slice_subrange(buf, pos + marker.len(), buf.len());
    assert(after@ == buf@.skip(pos + marker.len()));
    if after.len() == 0 || after[0] != 0x3a {
        return None;
    }
    let rest = vstd::slice::slice_subrange(after, 1, after.len());
    assert(rest@ == after@.skip(1));
    let end: usize = bytes_until(rest, 0x0a);
    if end >= rest.len() {
        return None;
    }
    let line = vstd::slice::slice_subrange(rest, 0, end);
    assert(line@ == rest@.take(end as int));
    read_code(line)
}

/// Search `buf` for the marker line; returns the exit code and what stands before it. An
/// occurrence of the marker that no number and line end follow, as in the echo of a wrapped
/// command, is no such line.
pub fn extract_marker<'a>(buf: &'a [u8], marker: &[u8]) -> (r: (i32, &'a [u8]))
    ensures
        (r.0 as int, r.1@) == marker_code(buf@, marker@),
{
    let mut from: usize = 0;
    while from < buf.len() && marker.len() > 0
        invariant
            from <= buf.len(),
            marker_from(buf@, marker@, 0) == marker_from(buf@, marker@, from as int),
        decreases buf.len() - from,
    {
        match find_bytes_from(buf, marker, from) {
            None => {
                proof {
                    search::lemma_find_from(buf@, marker@, from as int);
                    lemma_marker_gap(buf@, marker@, from as int, buf.len() as int);
                }
                return (0, buf);
            },
            Some(pos) => {
                proof {
                    search::lemma_find_from(buf@, marker@, from as int);
                    lemma_marker_gap(buf@, marker@, from as int, pos as int);
                }
                if let Some(code) = read_code_at(buf, marker, pos) {
                    let before = vstd::slice::slice_subrange(buf, 0, pos);
                    assert(before@ == buf@.take(pos as int));
                    return (code, before);
                }
                from = pos + 1;
            },
        }
    }
    proof {
        if marker@.len() == 0 {
            lemma_marker_gap(buf@, marker@, 0, buf.len() as int);
        }
    }
    (0, buf)
}

/// The echo of a wrapped command does not hide the marker line behind it: where the marker is
/// followed by a colon and a percent sign, the search goes on.
pub proof fn law_echo_is_no_marker_line(buf: Seq<u8>, marker: Seq<u8>, pos: int)
    requires
        search::occurs_at(buf, marker, pos),
        pos + marker.len() + 1 < buf.len(),
        buf[pos + marker.len()] == 0x3a,
        buf[pos + marker.len() + 1] == 0x25,
    ensures
        marker_from(buf, marker, pos) == marker_from(buf, marker, pos + 1),
{
    let rest = buf.skip(pos + marker.len()).skip(1);
    let end = search::until(rest, 0x0a);
    search::lemma_until(rest, 0x0a);
    let line = rest.take(end);
    assert(rest[0] == 0x25);
    if end < rest.len() && vstd::utf8::valid_utf8(line) {
        let decoded = vstd::utf8::decode_utf8(line);
        assert(line[0] == 0x25);
        let first = vstd::utf8::decode_first_scalar(line);
        assert(first == 0x25) by {
            assert(vstd::utf8::codepoint_width_1(0x25) == 0x25) by (bit_vector);
        }
        assert(decoded == seq![first as char] + vstd::utf8::decode_utf8(
            vstd::utf8::pop_first_scalar(line),
        ));
        assert(decoded[0] == '%');
        text::lemma_trim_end_keeps(decoded);
        assert(!text::is_digit('%'));
    }
}

// ---------------------------------------------------------------------------
// What output shows
// ---------------------------------------------------------------------------
/// A text is at a prompt exactly where its last line ends in one of the suffixes; carriage
/// returns behind the line do not count.
pub proof fn law_prompt_ends_the_last_line(
    before: Seq<char>,
    line: Seq<char>,
    suffixes: Seq<Seq<char>>,
)
    requires
        !line.contains('\n'),
        line.len() > 0 ==> line.last() != '\r',
    ensures
        ({
            let ends = exists|i: int|
                0 <= i < suffixes.len() && text::ends(line, #[trigger] suffixes[i]);
            &&& at_prompt(line, suffixes) == ends
            &&& at_prompt(before + seq!['\n'] + line, suffixes) == ends
            &&& at_prompt(before + seq!['\n'] + line + seq!['\r'], suffixes) == ends
        }),
{
    assert forall|j: int| 0 <= j < line.len() implies line[j] != '\n' by {
        assert(line.contains(line[j]));
    }
    search::lemma_last_index_is(line, '\n', -1);
    assert(line.skip(0) =~= line);
    assert(last_line(line) == line);
    let s = before + seq!['\n'] + line;
    let n = before.len() as int;
    search::lemma_last_index_is(s, '\n', n);
    assert(s.skip(n + 1) =~= line);
    assert(last_line(s) == line);
    let t = s + seq!['\r'];
    search::lemma_last_index_is(t, '\n', n);
    assert(t.skip(n + 1) =~= line.push('\r'));
    assert(line.push('\r').drop_last() =~= line);
    assert(last_line(t) == line);
}

/// The prompt begins behind the last line end: what stands before it is the output.
pub proof fn law_output_ends_before_the_prompt(buffer: Seq<u8>, suffixes: Seq<Seq<char>>)
    ensures
        prompt_split(buffer, suffixes) is Some == at_prompt(lossy_text(buffer), suffixes),
        prompt_split(buffer, suffixes) matches Some(n) ==> {
            &&& 0 <= n <= buffer.len()
            &&& n > 0 ==> buffer[n - 1] == 10
            &&& forall|i: int| n <= i < buffer.len() ==> buffer[i] != 10
        },
{
    search::lemma_last_index(buffer, 0x0a);
}

/// A code that is written behind a marker and a colon, on a line of its own, is the exit code;
/// what stands before the marker is the output. This holds for the first such line.
pub proof fn law_code_behind_the_marker_is_read(
    out: Seq<u8>,
    marker: Seq<u8>,
    line: Seq<u8>,
    behind: Seq<u8>,
    code: int,
)
    requires
        marker.len() > 0,
        !line.contains(10),
        vstd::utf8::valid_utf8(line),
        text::i32_of(text::trim_of(vstd::utf8::decode_utf8(line))) == Some(code),
        ({
            let buf = out + marker + seq![58u8] + line + seq![10u8] + behind;
            forall|j: int|
                0 <= j < out.len() ==> !#[trigger] search::occurs_at(buf, marker, j)
        }),
    ensures
        marker_code(out + marker + seq![58u8] + line + seq![10u8] + behind, marker) == (code, out),
{
    let buf = out + marker + seq![58u8] + line + seq![10u8] + behind;
    let pos = out.len() as int;
    let after = buf.skip(pos + marker.len());
    let rest = after.skip(1);
    let end = line.len() as int;
    assert(after =~= seq![58u8] + line + seq![10u8] + behind);
    assert(rest =~= line + seq![10u8] + behind);
    assert forall|j: int| 0 <= j < end implies rest[j] != 10 by {
        assert(line.contains(line[j]));
    }
    search::lemma_until_is(rest, 10u8, end);
    assert(rest.take(end) =~= line);
    assert(buf.subrange(pos, pos + marker.len()) =~= marker);
    lemma_marker_is(buf, marker, 0, pos);
    assert(buf.take(pos) =~= out);
}

proof fn lemma_marker_is(buf: Seq<u8>, marker: Seq<u8>, from: int, pos: int)
    requires
        0 <= from <= pos < buf.len(),
        code_at(buf, marker, pos) is Some,
        forall|j: int| 0 <= j < pos ==> !#[trigger] search::occurs_at(buf, marker, j),
    ensures
        marker_from(buf, marker, from) == Some((pos, code_at(buf, marker, pos)->0)),
    decreases pos - from,
{
    if from < pos {
        assert(!search::occurs_at(buf, marker, from));
        lemma_marker_is(buf, marker, from + 1, pos);
    }
}

/// Without such a line the whole is output and the code is that of success.
pub proof fn law_no_marker_means_success(buf: Seq<u8>, marker: Seq<u8>)
    requires
        forall|j: int| 0 <= j ==> !#[trigger] search::occurs_at(buf, marker, j),
    ensures
        marker_code(buf, marker) == (0int, buf),
{
    lemma_marker_from(buf, marker, 0);
}

/// A line of a marker gives its code, what stands before it and what follows it. A carriage
/// return at the end of the line does not count.
pub proof fn law_marker_line_parts_the_output(
    out: Seq<u8>,
    prefix: Seq<u8>,
    line: Seq<u8>,
    behind: Seq<u8>,
    code: int,
)
    requires
        !line.contains(10),
        line.len() > 0 ==> line.last() != 13,
        status_of(line) == Some(code),
        ({
            let buf = out + prefix + seq![58u8] + line + seq![10u8] + behind;
            let other = out + prefix + seq![58u8] + line + seq![13u8, 10u8] + behind;
            search::find(buf, prefix) == Some(out.len() as int) && search::find(other, prefix)
                == Some(out.len() as int)
        }),
    ensures
        marker_line(out + prefix + seq![58u8] + line + seq![10u8] + behind, prefix) == Some(
            (code, out, behind),
        ),
        marker_line(out + prefix + seq![58u8] + line + seq![13u8, 10u8] + behind, prefix) == Some(
            (code, out, behind),
        ),
{
    let buf = out + prefix + seq![58u8] + line + seq![10u8] + behind;
    let pos = out.len() as int;
    let rest = buf.skip(pos + prefix.len()).skip(1);
    let end = line.len() as int;
    assert(buf.skip(pos + prefix.len()) =~= seq![58u8] + line + seq![10u8] + behind);
    assert(rest =~= line + seq![10u8] + behind);
    assert forall|j: int| 0 <= j < end implies line[j] != 10 by {
        assert(line.contains(line[j]));
    }
    search::lemma_until_is(rest, 10u8, end);
    assert(rest.take(end) =~= line);
    assert(rest.skip(end + 1) =~= behind);
    assert(buf.take(pos) =~= out);
    let other = out + prefix + seq![58u8] + line + seq![13u8, 10u8] + behind;
    let more = other.skip(pos + prefix.len()).skip(1);
    assert(other.skip(pos + prefix.len()) =~= seq![58u8] + line + seq![13u8, 10u8] + behind);
    assert(more =~= line + seq![13u8, 10u8] + behind);
    search::lemma_until_is(more, 10u8, end + 1);
    assert(more.take(end + 1) =~= line.push(13));
    assert(line.push(13).drop_last() =~= line);
    assert(more.skip(end + 2) =~= behind);
    assert(other.take(pos) =~= out);
}

/// Only line ends and whole escape sequences in front of an output are dropped: the rest is kept
/// as it is, and an output that begins otherwise is kept whole.
pub proof fn law_only_noise_in_front_is_dropped(b: Seq<u8>)
    ensures
        0 <= noise_end(b, 0) <= b.len(),
        without_noise(b) == b.skip(noise_end(b, 0)),
        without_noise(b).len() > 0 ==> without_noise(b)[0] != 10 && without_noise(b)[0] != 13,
        b.len() > 0 && b[0] != 10 && b[0] != 13 && b[0] != 27 ==> without_noise(b) == b,
        without_noise(seq![10u8] + b) == without_noise(b),
        without_noise(seq![13u8] + b) == without_noise(b),
{
    lemma_noise_end(b, 0);
    lemma_noise_skips(b, 10u8);
    lemma_noise_skips(b, 13u8);
    if b.len() > 0 && b[0] != 10 && b[0] != 13 && b[0] != 27 {
        assert(b.skip(0) =~= b);
    }
}

proof fn lemma_noise_end(b: Seq<u8>, i: int)
    requires
        0 <= i <= b.len(),
    ensures
        i <= noise_end(b, i) <= b.len(),
        noise_end(b, i) < b.len() ==> b[noise_end(b, i)] != 10 && b[noise_end(b, i)] != 13,
    decreases b.len() - i,
{
    if i < b.len() {
        if b[i] == 0x0d || b[i] == 0x0a {
            lemma_noise_end(b, i + 1);
        } else {
            match escape_end(b, i) {
                Some(n) => {
                    lemma_escape_within(b, i);
                    lemma_noise_end(b, n);
                },
                None => {},
            }
        }
    }
}

proof fn lemma_escape_within(b: Seq<u8>, i: int)
    requires
        0 <= i,
    ensures
        escape_end(b, i) matches Some(n) ==> i < n <= b.len(),
{
    lemma_csi_within(b, i + 2);
    lemma_osc_within(b, i + 2);
}

proof fn lemma_csi_within(b: Seq<u8>, i: int)
    ensures
        csi_end(b, i) matches Some(n) ==> i < n <= b.len(),
    decreases b.len() - i,
{
    if 0 <= i < b.len() && !(0x40 <= b[i] <= 0x7e) {
        lemma_csi_within(b, i + 1);
    }
}

proof fn lemma_osc_within(b: Seq<u8>, i: int)
    ensures
        osc_end(b, i) matches Some(n) ==> i < n <= b.len(),
    decreases b.len() - i,
{
    if 0 <= i < b.len() {
        lemma_osc_within(b, i + 1);
    }
}

proof fn lemma_noise_skips(b: Seq<u8>, c: u8)
    requires
        c == 10 || c == 13,
    ensures
        without_noise(seq![c] + b) == without_noise(b),
{
    let s = seq![c] + b;
    assert(s.skip(1) =~= b);
    lemma_noise_shift(s, b, 0);
    lemma_noise_end(b, 0);
    assert(noise_end(s, 0) == noise_end(s, 1));
    assert(s.skip(noise_end(b, 0) + 1) =~= b.skip(noise_end(b, 0)));
}

proof fn lemma_noise_shift(s: Seq<u8>, b: Seq<u8>, i: int)
    requires
        s.len() == b.len() + 1,
        s.skip(1) == b,
        0 <= i <= b.len(),
    ensures
        noise_end(s, i + 1) == noise_end(b, i) + 1,
    decreases b.len() - i,
{
    if i < b.len() {
        assert(s.skip(1)[i] == s[i + 1]);
        if b[i] == 0x0d || b[i] == 0x0a {
            lemma_noise_shift(s, b, i + 1);
        } else {
            if i + 1 < b.len() {
                assert(s.skip(1)[i + 1] == s[i + 2]);
            }
            lemma_ends_shift(s, b, i + 2);
            match escape_end(b, i) {
                Some(n) => {
                    lemma_escape_within(b, i);
                    lemma_noise_shift(s, b, n);
                },
                None => {},
            }
        }
    }
}

proof fn lemma_ends_shift(s: Seq<u8>, b: Seq<u8>, i: int)
    requires
        s.len() == b.len() + 1,
        s.skip(1) == b,
        0 <= i,
    ensures
        csi_end(s, i + 1) == match csi_end(b, i) {
            Some(n) => Some(n + 1),
            None => None,
        },
        osc_end(s, i + 1) == match osc_end(b, i) {
            Some(n) => Some(n + 1),
            None => None,
        },
    decreases b.len() - i,
{
    if i < b.len() {
        assert(s.skip(1)[i] == s[i + 1]);
        if i + 1 < b.len() {
            assert(s.skip(1)[i + 1] == s[i + 2]);
        }
        lemma_ends_shift(s, b, i + 1);
    }
}

/// A control sequence is removed from a text whole, from its escape to the letter that ends it;
/// the text around it stays.
pub proof fn law_control_sequences_are_removed(
    before: Seq<char>,
    inside: Seq<char>,
    last: char,
    behind: Seq<char>,
)
    requires
        forall|i: int| 0 <= i < before.len() ==> (#[trigger] before[i]) as u32 != 0x1b,
        forall|i: int| 0 <= i < behind.len() ==> (#[trigger] behind[i]) as u32 != 0x1b,
        forall|i: int|
            0 <= i < inside.len() ==> !(0x40 <= (#[trigger] inside[i]) as u32 && inside[i] as u32
                <= 0x7e),
        0x40 <= last as u32 <= 0x7e,
    ensures
        ansi_free(before + seq![0x1b as char, '['] + inside + seq![last] + behind) == before
            + behind,
{
    let esc = 0x1b as char;
    let s = before + seq![esc, '['] + inside + seq![last] + behind;
    let k = before.len() as int;
    let e = k + 2 + inside.len() as int;
    assert(s[k] == esc);
    assert(s[k + 1] == '[');
    assert forall|j: int| k + 2 <= j < e implies !(0x40 <= (#[trigger] s[j]) as u32 && s[j] as u32
        <= 0x7e) by {
        assert(s[j] == inside[j - k - 2]);
    }
    assert(s[e] == last);
    lemma_text_csi(s, k + 2, e);
    assert(s.skip(e + 1) =~= behind);
    assert forall|j: int| e + 1 <= j < s.len() implies (#[trigger] s[j]) as u32 != 0x1b by {
        assert(s[j] == behind[j - e - 1]);
    }
    lemma_plain_tail(s, e + 1);
    assert forall|j: int| 0 <= j < k implies (#[trigger] s[j]) as u32 != 0x1b by {
        assert(s[j] == before[j]);
    }
    lemma_plain_head(s, 0, k);
    assert(s.subrange(0, k) =~= before);
    assert(text_escape_end(s, k) == e + 1);
    assert(ansi_free_from(s, k) == behind);
}

proof fn lemma_text_csi(s: Seq<char>, i: int, e: int)
    requires
        0 <= i <= e < s.len(),
        forall|j: int|
            i <= j < e ==> !(0x40 <= (#[trigger] s[j]) as u32 && s[j] as u32 <= 0x7e),
        0x40 <= s[e] as u32 <= 0x7e,
    ensures
        text_csi_end(s, i) == e + 1,
    decreases e - i,
{
    if i < e {
        assert(!(0x40 <= s[i] as u32 && s[i] as u32 <= 0x7e));
        lemma_text_csi(s, i + 1, e);
    }
}

proof fn lemma_plain_tail(s: Seq<char>, i: int)
    requires
        0 <= i <= s.len(),
        forall|j: int| i <= j < s.len() ==> (#[trigger] s[j]) as u32 != 0x1b,
    ensures
        ansi_free_from(s, i) == s.skip(i),
    decreases s.len() - i,
{
    if i < s.len() {
        lemma_plain_tail(s, i + 1);
        assert(seq![s[i]] + s.skip(i + 1) =~= s.skip(i));
    } else {
        assert(s.skip(i) =~= Seq::<char>::empty());
    }
}

proof fn lemma_plain_head(s: Seq<char>, i: int, k: int)
    requires
        0 <= i <= k <= s.len(),
        forall|j: int| i <= j < k ==> (#[trigger] s[j]) as u32 != 0x1b,
    ensures
        ansi_free_from(s, i) == s.subrange(i, k) + ansi_free_from(s, k),
    decreases k - i,
{
    if i < k {
        lemma_plain_head(s, i + 1, k);
        assert(seq![s[i]] + (s.subrange(i + 1, k) + ansi_free_from(s, k)) =~= s.subrange(i, k)
            + ansi_free_from(s, k));
    } else {
        assert(s.subrange(i, k) + ansi_free_from(s, k) =~= ansi_free_from(s, k));
    }
}

/// A system command is removed from a text whole, from its escape to the bell or the string
/// terminator that ends it; the text around it stays.
pub proof fn law_system_commands_are_removed(
    before: Seq<char>,
    inside: Seq<char>,
    behind: Seq<char>,
)
    requires
        forall|i: int| 0 <= i < before.len() ==> (#[trigger] before[i]) as u32 != 0x1b,
        forall|i: int| 0 <= i < behind.len() ==> (#[trigger] behind[i]) as u32 != 0x1b,
        forall|i: int|
            0 <= i < inside.len() ==> (#[trigger] inside[i]) as u32 != 0x1b && inside[i] as u32
                != 0x07,
    ensures
        ansi_free(before + seq![0x1b as char, ']'] + inside + seq![0x07 as char] + behind)
            == before + behind,
        ansi_free(before + seq![0x1b as char, ']'] + inside + seq![0x1b as char, '\\'] + behind)
            == before + behind,
{
    let bell = seq![0x07 as char];
    let terminator = seq![0x1b as char, '\\'];
    lemma_system_command(before, inside, bell, behind);
    lemma_system_command(before, inside, terminator, behind);
}

proof fn lemma_system_command(
    before: Seq<char>,
    inside: Seq<char>,
    end: Seq<char>,
    behind: Seq<char>,
)
    requires
        forall|i: int| 0 <= i < before.len() ==> (#[trigger] before[i]) as u32 != 0x1b,
        forall|i: int| 0 <= i < behind.len() ==> (#[trigger] behind[i]) as u32 != 0x1b,
        forall|i: int|
            0 <= i < inside.len() ==> (#[trigger] inside[i]) as u32 != 0x1b && inside[i] as u32
                != 0x07,
        end == seq![0x07 as char] || end == seq![0x1b as char, '\\'],
    ensures
        ansi_free(before + seq![0x1b as char, ']'] + inside + end + behind) == before + behind,
{
    let esc = 0x1b as char;
    let s = before + seq![esc, ']'] + inside + end + behind;
    let k = before.len() as int;
    let e = k + 2 + inside.len() as int;
    let stop = e + end.len() as int;
    assert(s[k] == esc);
    assert(s[k + 1] == ']');
    assert forall|j: int| k + 2 <= j < e implies (#[trigger] s[j]) as u32 != 0x1b && s[j] as u32
        != 0x07 by {
        assert(s[j] == inside[j - k - 2]);
    }
    assert(s[e] == end[0]);
    if end.len() == 2 {
        assert(s[e + 1] == end[1]);
    }
    lemma_text_osc(s, k + 2, e, stop);
    assert(s.skip(stop) =~= behind);
    assert forall|j: int| stop <= j < s.len() implies (#[trigger] s[j]) as u32 != 0x1b by {
        assert(s[j] == behind[j - stop]);
    }
    lemma_plain_tail(s, stop);
    assert forall|j: int| 0 <= j < k implies (#[trigger] s[j]) as u32 != 0x1b by {
        assert(s[j] == before[j]);
    }
    lemma_plain_head(s, 0, k);
    assert(s.subrange(0, k) =~= before);
    assert(text_escape_end(s, k) == stop);
    assert(ansi_free_from(s, k) == behind);
}

proof fn lemma_text_osc(s: Seq<char>, i: int, e: int, stop: int)
    requires
        0 <= i <= e < s.len(),
        forall|j: int| i <= j < e ==> (#[trigger] s[j]) as u32 != 0x1b && s[j] as u32 != 0x07,
        (s[e] as u32 == 0x07 && stop == e + 1) || (s[e] as u32 == 0x1b && e + 1 < s.len() && s[e
            + 1] == '\\' && stop == e + 2),
    ensures
        text_osc_end(s, i) == stop,
    decreases e - i,
{
    if i < e {
        assert(s[i] as u32 != 0x1b && s[i] as u32 != 0x07);
        lemma_text_osc(s, i + 1, e, stop);
    }
}

/// Any other escape takes the one character behind it; at the end of a text it takes nothing.
pub proof fn law_short_escapes_take_one_character(before: Seq<char>, c: char, behind: Seq<char>)
    requires
        forall|i: int| 0 <= i < before.len() ==> (#[trigger] before[i]) as u32 != 0x1b,
        forall|i: int| 0 <= i < behind.len() ==> (#[trigger] behind[i]) as u32 != 0x1b,
        c != '[',
        c != ']',
    ensures
        ansi_free(before + seq![0x1b as char, c] + behind) == before + behind,
        ansi_free(before + seq![0x1b as char]) == before,
{
    let esc = 0x1b as char;
    let s = before + seq![esc, c] + behind;
    let k = before.len() as int;
    assert(s[k] == esc);
    assert(s[k + 1] == c);
    assert(s.skip(k + 2) =~= behind);
    assert forall|j: int| k + 2 <= j < s.len() implies (#[trigger] s[j]) as u32 != 0x1b by {
        assert(s[j] == behind[j - k - 2]);
    }
    lemma_plain_tail(s, k + 2);
    assert forall|j: int| 0 <= j < k implies (#[trigger] s[j]) as u32 != 0x1b by {
        assert(s[j] == before[j]);
    }
    lemma_plain_head(s, 0, k);
    assert(s.subrange(0, k) =~= before);
    let t = before + seq![esc];
    assert(t[k] == esc);
    assert forall|j: int| 0 <= j < k implies (#[trigger] t[j]) as u32 != 0x1b by {
        assert(t[j] == before[j]);
    }
    lemma_plain_head(t, 0, k);
    assert(t.subrange(0, k) =~= before);
    assert(text_escape_end(t, k) == t.len());
    assert(ansi_free_from(t, t.len() as int) =~= Seq::<char>::empty());
    assert(before + Seq::<char>::empty() =~= before);
}

/// A text without escapes is safe to strip, and one with an escape before a character beyond
/// ASCII is not.
pub proof fn law_escapes_are_checked(before: Seq<char>, c: char, behind: Seq<char>)
    requires
        forall|i: int| 0 <= i < before.len() ==> (#[trigger] before[i]) as u32 != 0x1b,
        c as u32 >= 0x80,
    ensures
        ascii_escapes(before),
        !ascii_escapes(before + seq![0x1b as char, c] + behind),
{
    assert(before.take(before.len() as int) =~= before);
    lemma_no_escapes(before, before, 0);
    let s = before + seq![0x1b as char, c] + behind;
    assert(s.take(before.len() as int) =~= before);
    lemma_no_escapes(s, before, 0);
    assert(s[before.len() as int] == 0x1b as char);
    assert(s[before.len() as int + 1] == c);
}

proof fn lemma_no_escapes(s: Seq<char>, before: Seq<char>, i: int)
    requires
        0 <= i <= before.len() <= s.len(),
        s.take(before.len() as int) == before,
        forall|j: int| 0 <= j < before.len() ==> (#[trigger] before[j]) as u32 != 0x1b,
    ensures
        ascii_escapes_from(s, i) == ascii_escapes_from(s, before.len() as int),
        s.len() == before.len() ==> ascii_escapes_from(s, i),
    decreases before.len() - i,
{
    if i < before.len() {
        assert(s.take(before.len() as int)[i] == s[i]);
        assert(before[i] as u32 != 0x1b);
        lemma_no_escapes(s, before, i + 1);
    }
}

/// A code that is a number but too great for an exit code counts as success; a line that holds
/// no number holds no code.
pub proof fn law_only_numbers_are_codes(line: Seq<u8>)
    requires
        vstd::utf8::valid_utf8(line),
    ensures
        ({
            let number = text::trim_of(vstd::utf8::decode_utf8(line));
            let code = text::i32_of(number);
            &&& code is Some ==> code_on(line) == code
            &&& code is None && number.len() > 0 && text::all_digits(number) ==> code_on(line)
                == Some(0int)
            &&& code is None && (number.len() == 0 || !text::all_digits(number)) ==> code_on(line)
                is None
        }),
{
}

/// A marker at the end of what has been read, or with anything but a colon behind it, begins no
/// line of the marker. A line that is not ended yet takes all that was read.
pub proof fn law_marker_lines_have_a_colon(
    out: Seq<u8>,
    prefix: Seq<u8>,
    c: u8,
    line: Seq<u8>,
    behind: Seq<u8>,
)
    requires
        search::find(out + prefix, prefix) == Some(out.len() as int),
        search::find(out + prefix + seq![c] + behind, prefix) == Some(out.len() as int),
        search::find(out + prefix + seq![58u8] + line, prefix) == Some(out.len() as int),
        !line.contains(10),
        line.len() > 0 ==> line.last() != 13,
        c != 58,
    ensures
        marker_line(out + prefix, prefix) is None,
        marker_line(out + prefix + seq![c] + behind, prefix) is None,
        status_of(line) matches Some(code) ==> marker_line(
            out + prefix + seq![58u8] + line,
            prefix,
        ) == Some((code, out, Seq::<u8>::empty())),
{
    let pos = out.len() as int;
    assert((out + prefix).skip(pos + prefix.len()) =~= Seq::<u8>::empty());
    assert((out + prefix + seq![c] + behind).skip(pos + prefix.len()) =~= seq![c] + behind);
    let buf = out + prefix + seq![58u8] + line;
    assert(buf.skip(pos + prefix.len()) =~= seq![58u8] + line);
    let rest = buf.skip(pos + prefix.len()).skip(1);
    assert(rest =~= line);
    assert forall|j: int| 0 <= j < line.len() implies line[j] != 10 by {
        assert(line.contains(line[j]));
    }
    search::lemma_until_is(rest, 10u8, line.len() as int);
    assert(rest.take(line.len() as int) =~= line);
    assert(rest.skip(line.len() as int) =~= Seq::<u8>::empty());
    assert(buf.take(pos) =~= out);
}

/// A whole escape sequence in front of an output is dropped, whichever way it ends.
pub proof fn law_escapes_in_front_are_dropped(inside: Seq<u8>, last: u8, b: Seq<u8>)
    requires
        forall|i: int| 0 <= i < inside.len() ==> !(0x40 <= #[trigger] inside[i] <= 0x7e),
        forall|i: int| 0 <= i < inside.len() ==> #[trigger] inside[i] != 7 && inside[i] != 27,
        0x40 <= last <= 0x7e,
    ensures
        without_noise(seq![27u8, 91u8] + inside + seq![last] + b) == without_noise(b),
        without_noise(seq![27u8, 93u8] + inside + seq![7u8] + b) == without_noise(b),
        without_noise(seq![27u8, 93u8] + inside + seq![27u8, 92u8] + b) == without_noise(b),
{
    let e = inside.len() as int + 2;
    let one = seq![27u8, 91u8] + inside + seq![last] + b;
    let two = seq![27u8, 93u8] + inside + seq![7u8] + b;
    let three = seq![27u8, 93u8] + inside + seq![27u8, 92u8] + b;
    assert forall|j: int| 2 <= j < e implies !(0x40 <= #[trigger] one[j] <= 0x7e) by {
        assert(one[j] == inside[j - 2]);
    }
    assert forall|j: int| 2 <= j < e implies #[trigger] two[j] != 7 && two[j] != 27 by {
        assert(two[j] == inside[j - 2]);
    }
    assert forall|j: int| 2 <= j < e implies #[trigger] three[j] != 7 && three[j] != 27 by {
        assert(three[j] == inside[j - 2]);
    }
    assert(one[e] == last);
    assert(two[e] == 7);
    assert(three[e] == 27 && three[e + 1] == 92);
    lemma_csi_run(one, 2, e);
    lemma_osc_run(two, 2, e, e + 1);
    lemma_osc_run(three, 2, e, e + 2);
    assert(one.skip(e + 1) =~= b);
    assert(two.skip(e + 1) =~= b);
    assert(three.skip(e + 2) =~= b);
    lemma_noise_behind(one, e + 1);
    lemma_noise_behind(two, e + 1);
    lemma_noise_behind(three, e + 2);
    lemma_noise_end(b, 0);
    let n = noise_end(b, 0);
    assert(one.skip(e + 1 + n) =~= b.skip(n));
    assert(two.skip(e + 1 + n) =~= b.skip(n));
    assert(three.skip(e + 2 + n) =~= b.skip(n));
}

proof fn lemma_csi_run(b: Seq<u8>, i: int, e: int)
    requires
        0 <= i <= e < b.len(),
        forall|j: int| i <= j < e ==> !(0x40 <= #[trigger] b[j] <= 0x7e),
        0x40 <= b[e] <= 0x7e,
    ensures
        csi_end(b, i) == Some(e + 1),
    decreases e - i,
{
    if i < e {
        lemma_csi_run(b, i + 1, e);
    }
}

proof fn lemma_osc_run(b: Seq<u8>, i: int, e: int, stop: int)
    requires
        0 <= i <= e < b.len(),
        forall|j: int| i <= j < e ==> #[trigger] b[j] != 7 && b[j] != 27,
        (b[e] == 7 && stop == e + 1) || (b[e] == 27 && e + 1 < b.len() && b[e + 1] == 92 && stop
            == e + 2),
    ensures
        osc_end(b, i) == Some(stop),
    decreases e - i,
{
    if i < e {
        assert(b[i] != 7 && b[i] != 27);
        lemma_osc_run(b, i + 1, e, stop);
    }
}

proof fn lemma_noise_behind(s: Seq<u8>, k: int)
    requires
        0 <= k <= s.len(),
    ensures
        noise_end(s, k) == noise_end(s.skip(k), 0) + k,
    decreases k,
{
    if k == 0 {
        assert(s.skip(0) =~= s);
    } else {
        let t = s.skip(1);
        lemma_noise_shift(s, t, k - 1);
        lemma_noise_behind(t, k - 1);
        assert(t.skip(k - 1) =~= s.skip(k));
    }
}

/// A status is the number on its line, blanks aside; a line that is no text holds none.
pub proof fn law_status_is_the_number_of_its_line(line: Seq<u8>)
    ensures
        vstd::utf8::valid_utf8(line) ==> status_of(line) == text::i32_of(
            text::trim_of(vstd::utf8::decode_utf8(line)),
        ),
        !vstd::utf8::valid_utf8(line) ==> status_of(line) is None && code_on(line) is None,
{
}

} // verus!
