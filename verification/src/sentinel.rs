//! The exit-code sentinel: a marker line that a wrapped command prints when it is
//! done, found again in the byte stream of a terminal.
use crate::search;
use crate::search::{bytes_at, find_bytes_from};
use crate::text;
use vstd::prelude::*;

verus! {

// ---------------------------------------------------------------------------
// Behind a marker
// ---------------------------------------------------------------------------
pub open spec fn is_byte_digit(b: u8) -> bool {
    0x30 <= b <= 0x39
}

/// The index behind the run of digits that starts at `i`.
pub open spec fn digits_end(s: Seq<u8>, i: int) -> int
    decreases s.len() - i,
{
    if 0 <= i < s.len() && is_byte_digit(s[i]) {
        digits_end(s, i + 1)
    } else {
        i
    }
}

/// The number that a run of digits stands for.
pub open spec fn byte_digits_value(s: Seq<u8>) -> int
    decreases s.len(),
{
    if s.len() == 0 {
        0
    } else {
        byte_digits_value(s.drop_last()) * 10 + (s.last() - 0x30)
    }
}

/// The exit code of a run of digits; one that no `i32` holds counts as 0.
pub open spec fn exit_code_of(s: Seq<u8>) -> int {
    if byte_digits_value(s) <= i32::MAX {
        byte_digits_value(s)
    } else {
        0
    }
}

/// What stands behind an occurrence of the marker.
pub enum Lookahead {
    /// A colon, digits and a line end: `consumed` bytes, with that exit code.
    Confirmed { code: i32, consumed: usize },
    /// A beginning of that, and no more bytes.
    Incomplete,
    /// Something else.
    Mismatch,
}

/// The mathematical counterpart of [`Lookahead`].
pub enum Look {
    Confirmed { code: int, consumed: int },
    Incomplete,
    Mismatch,
}

impl View for Lookahead {
    type V = Look;

    open spec fn view(&self) -> Look {
        match self {
            Lookahead::Confirmed { code, consumed } => Look::Confirmed {
                code: *code as int,
                consumed: *consumed as int,
            },
            Lookahead::Incomplete => Look::Incomplete,
            Lookahead::Mismatch => Look::Mismatch,
        }
    }
}

/// `:`, one or more digits, then `\n` or `\r\n`.
pub open spec fn look(after: Seq<u8>) -> Look {
    let i = digits_end(after, 1);
    if after.len() == 0 {
        Look::Incomplete
    } else if after[0] != 0x3a {
        Look::Mismatch
    } else if i >= after.len() {
        Look::Incomplete
    } else if i == 1 {
        Look::Mismatch
    } else if after[i] == 0x0a {
        Look::Confirmed { code: exit_code_of(after.subrange(1, i)), consumed: i + 1 }
    } else if after[i] == 0x0d {
        if i + 1 >= after.len() {
            Look::Incomplete
        } else if after[i + 1] == 0x0a {
            Look::Confirmed { code: exit_code_of(after.subrange(1, i)), consumed: i + 2 }
        } else {
            Look::Mismatch
        }
    } else {
        Look::Mismatch
    }
}

proof fn lemma_digits_end(s: Seq<u8>, i: int)
    requires
        0 <= i <= s.len(),
    ensures
        i <= digits_end(s, i) <= s.len(),
        forall|j: int| i <= j < digits_end(s, i) ==> is_byte_digit(s[j]),
        digits_end(s, i) < s.len() ==> !is_byte_digit(s[digits_end(s, i)]),
    decreases s.len() - i,
{
    if i < s.len() && is_byte_digit(s[i]) {
        lemma_digits_end(s, i + 1);
    }
}

proof fn lemma_digits_end_is(s: Seq<u8>, i: int, e: int)
    requires
        0 <= i <= e <= s.len(),
        forall|j: int| i <= j < e ==> is_byte_digit(s[j]),
        e < s.len() ==> !is_byte_digit(s[e]),
    ensures
        digits_end(s, i) == e,
    decreases e - i,
{
    if i < e {
        lemma_digits_end_is(s, i + 1, e);
    }
}

proof fn lemma_byte_digits_value(s: Seq<u8>, i: int)
    requires
        0 <= i <= s.len(),
        forall|j: int| 0 <= j < s.len() ==> is_byte_digit(s[j]),
    ensures
        0 <= byte_digits_value(s.take(i)) <= byte_digits_value(s),
    decreases s.len() + i,
{
    if i < s.len() {
        assert(s.drop_last().take(i) == s.take(i));
        lemma_byte_digits_value(s.drop_last(), i);
    } else {
        assert(s.take(i) == s);
        if s.len() > 0 {
            lemma_byte_digits_value(s.drop_last(), s.len() - 1);
            assert(s.drop_last().take(s.len() - 1) == s.drop_last());
        }
    }
}

/// The exit code of a run of digits.
fn read_exit_code(s: &[u8]) -> (r: i32)
    requires
        forall|j: int| 0 <= j < s@.len() ==> is_byte_digit(s@[j]),
    ensures
        r == exit_code_of(s@),
{
    let mut n: i64 = 0;
    let mut i: usize = 0;
    while i < s.len()
        invariant
            i <= s.len(),
            0 <= n <= i32::MAX,
            n == byte_digits_value(s@.take(i as int)),
            forall|j: int| 0 <= j < s@.len() ==> is_byte_digit(s@[j]),
        decreases s.len() - i,
    {
        n = n * 10 + (s[i] as i64 - 0x30);
        i += 1;
        assert(s@.take(i as int).drop_last() == s@.take(i - 1));
        if n > 0x7fff_ffff {
            proof {
                lemma_byte_digits_value(s@, i as int);
            }
            return 0;
        }
    }
    assert(s@.take(i as int) == s@);
    n as i32
}

/// Inspect the bytes that follow a marker occurrence.
pub fn lookahead_sentinel(after: &[u8]) -> (r: Lookahead)
    ensures
        r@ == look(after@),
        r matches Lookahead::Confirmed { consumed, .. } ==> 0 < consumed <= after.len(),
{
    if after.len() == 0 {
        return Lookahead::Incomplete;
    }
    if after[0] != 0x3a {
        return Lookahead::Mismatch;
    }
    let mut i: usize = 1;
    while i < after.len() && 0x30 <= after[i] && after[i] <= 0x39
        invariant
            1 <= i <= after.len(),
            forall|j: int| 1 <= j < i ==> is_byte_digit(after@[j]),
        decreases after.len() - i,
    {
        i += 1;
    }
    proof {
        lemma_digits_end_is(after@, 1, i as int);
    }
    if i >= after.len() {
        return Lookahead::Incomplete;
    }
    if i == 1 {
        return Lookahead::Mismatch;
    }
    let term_len: usize = if after[i] == 0x0a {
        1
    } else if after[i] == 0x0d {
        if i + 1 >= after.len() {
            return Lookahead::Incomplete;
        }
        if after[i + 1] != 0x0a {
            return Lookahead::Mismatch;
        }
        2
    } else {
        return Lookahead::Mismatch;
    };
    let code: i32 = read_exit_code(vstd::slice::slice_subrange(after, 1, i));
    Lookahead::Confirmed { code, consumed: i + term_len }
}

// ---------------------------------------------------------------------------
// A sentinel in a buffer
// ---------------------------------------------------------------------------
/// The first occurrence of `needle` in `haystack`; an empty needle occurs nowhere.
pub fn find_subslice(haystack: &[u8], needle: &[u8]) -> (r: Option<usize>)
    ensures
        r is Some <==> needle@.len() > 0 && search::find(haystack@, needle@) is Some,
        r matches Some(k) ==> search::find(haystack@, needle@) == Some(k as int) && k
            + needle.len() <= haystack.len(),
{
    if needle.len() == 0 || needle.len() > haystack.len() {
        return None;
    }
    find_bytes_from(haystack, needle, 0)
}

/// Where a buffer stands with respect to the sentinel.
pub enum SentinelFind {
    /// A sentinel at `pos` with exit code `code` that ends before `end`.
    Confirmed { pos: usize, code: i32, end: usize },
    /// A marker at `pos` of which more bytes must decide.
    Incomplete(usize),
    /// No sentinel: no marker, or only occurrences that are followed by something else.
    Absent,
}

/// The mathematical counterpart of [`SentinelFind`].
pub enum Found {
    Confirmed { pos: int, code: int, end: int },
    Incomplete(int),
    Absent,
}

impl View for SentinelFind {
    type V = Found;

    open spec fn view(&self) -> Found {
        match self {
            SentinelFind::Confirmed { pos, code, end } => Found::Confirmed {
                pos: *pos as int,
                code: *code as int,
                end: *end as int,
            },
            SentinelFind::Incomplete(pos) => Found::Incomplete(*pos as int),
            SentinelFind::Absent => Found::Absent,
        }
    }
}

impl Found {
    /// The same find, `n` bytes further on.
    pub open spec fn shift(self, n: int) -> Found {
        match self {
            Found::Confirmed { pos, code, end } => Found::Confirmed {
                pos: pos + n,
                code,
                end: end + n,
            },
            Found::Incomplete(pos) => Found::Incomplete(pos + n),
            Found::Absent => Found::Absent,
        }
    }
}

/// The first index, not below `from`, at which the marker occurs and is not followed by
/// something else than a sentinel's rest.
pub open spec fn sentinel_from(buf: Seq<u8>, marker: Seq<u8>, from: int) -> Found
    decreases buf.len() - from,
{
    if marker.len() == 0 || from < 0 || from + marker.len() > buf.len() {
        Found::Absent
    } else if !search::occurs_at(buf, marker, from) {
        sentinel_from(buf, marker, from + 1)
    } else {
        match look(buf.skip(from + marker.len())) {
            Look::Confirmed { code, consumed } => Found::Confirmed {
                pos: from,
                code,
                end: from + marker.len() + consumed,
            },
            Look::Incomplete => Found::Incomplete(from),
            Look::Mismatch => sentinel_from(buf, marker, from + 1),
        }
    }
}

/// The sentinel of a buffer.
pub open spec fn sentinel(buf: Seq<u8>, marker: Seq<u8>) -> Found {
    sentinel_from(buf, marker, 0)
}

/// Search `buf` for the first confirmed sentinel of `marker`. Occurrences of the marker that
/// are followed by something else do not count, also where they overlap the sentinel.
pub fn find_sentinel(buf: &[u8], marker: &[u8]) -> (r: SentinelFind)
    ensures
        r@ == sentinel(buf@, marker@),
        match r {
            SentinelFind::Confirmed { pos, end, .. } => pos < end <= buf.len(),
            SentinelFind::Incomplete(pos) => pos <= buf.len(),
            SentinelFind::Absent => true,
        },
{
    if marker.len() == 0 {
        return SentinelFind::Absent;
    }
    let mut from: usize = 0;
    loop
        invariant
            from <= buf.len(),
            marker.len() > 0,
            sentinel(buf@, marker@) == sentinel_from(buf@, marker@, from as int),
        decreases buf.len() - from,
    {
        match find_bytes_from(buf, marker, from) {
            None => {
                proof {
                    search::lemma_find_from(buf@, marker@, from as int);
                    lemma_sentinel_gap(buf@, marker@, from as int, buf.len() as int);
                }
                return SentinelFind::Absent;
            },
            Some(pos) => {
                proof {
                    search::lemma_find_from(buf@, marker@, from as int);
                    lemma_sentinel_gap(buf@, marker@, from as int, pos as int);
                }
                let after = vstd::slice::slice_subrange(buf, pos + marker.len(), buf.len());
                assert(after@ == buf@.skip(pos + marker.len()));
                match lookahead_sentinel(after) {
                    Lookahead::Confirmed { code, consumed } => {
                        return SentinelFind::Confirmed {
                            pos,
                            code,
                            end: pos + marker.len() + consumed,
                        };
                    },
                    Lookahead::Incomplete => {
                        return SentinelFind::Incomplete(pos);
                    },
                    Lookahead::Mismatch => {
                        from = pos + 1;
                    },
                }
            },
        }
    }
}

/// An index at which no sentinel begins, whatever follows the buffer.
spec fn passed(buf: Seq<u8>, marker: Seq<u8>, j: int) -> bool {
    search::occurs_at(buf, marker, j) ==> look(buf.skip(j + marker.len())) is Mismatch
}

/// Indices at which no sentinel begins can be left out of the search.
proof fn lemma_sentinel_gap(buf: Seq<u8>, marker: Seq<u8>, lo: int, hi: int)
    requires
        0 <= lo <= hi,
        forall|j: int| lo <= j < hi ==> #[trigger] passed(buf, marker, j),
    ensures
        sentinel_from(buf, marker, lo) == sentinel_from(buf, marker, hi),
    decreases hi - lo,
{
    if lo < hi {
        assert(passed(buf, marker, lo));
        lemma_sentinel_gap(buf, marker, lo + 1, hi);
    }
}

/// What a search comes to, and what it has passed.
proof fn lemma_sentinel_from(buf: Seq<u8>, marker: Seq<u8>, from: int)
    requires
        0 <= from,
        marker.len() > 0,
    ensures
        match sentinel_from(buf, marker, from) {
            Found::Confirmed { pos, code, end } => {
                &&& from <= pos < end <= buf.len()
                &&& search::occurs_at(buf, marker, pos)
                &&& look(buf.skip(pos + marker.len())) == (Look::Confirmed {
                    code,
                    consumed: end - pos - marker.len(),
                })
                &&& forall|j: int| from <= j < pos ==> #[trigger] passed(buf, marker, j)
            },
            Found::Incomplete(pos) => {
                &&& from <= pos < buf.len()
                &&& search::occurs_at(buf, marker, pos)
                &&& look(buf.skip(pos + marker.len())) is Incomplete
                &&& forall|j: int| from <= j < pos ==> #[trigger] passed(buf, marker, j)
            },
            Found::Absent => forall|j: int| from <= j ==> #[trigger] passed(buf, marker, j),
        },
    decreases buf.len() - from,
{
    if from + marker.len() <= buf.len() {
        let after = buf.skip(from + marker.len());
        if after.len() > 0 {
            lemma_digits_end(after, 1);
        }
        if passed(buf, marker, from) {
            lemma_sentinel_from(buf, marker, from + 1);
        }
    }
}

// ---------------------------------------------------------------------------
// The end of a chunk
// ---------------------------------------------------------------------------
/// The largest length up to `n` at which a suffix of `buf` is a prefix of `pattern`.
pub open spec fn overlap_up_to(buf: Seq<u8>, pattern: Seq<u8>, n: int) -> int
    decreases n,
{
    if n <= 0 {
        0
    } else if buf.skip(buf.len() - n) == pattern.take(n) {
        n
    } else {
        overlap_up_to(buf, pattern, n - 1)
    }
}

/// The length of the longest suffix of `buf` that is also a prefix of `pattern`.
pub open spec fn overlap(buf: Seq<u8>, pattern: Seq<u8>) -> int {
    overlap_up_to(
        buf,
        pattern,
        if buf.len() < pattern.len() {
            buf.len() as int
        } else {
            pattern.len() as int
        },
    )
}

proof fn lemma_overlap_up_to(buf: Seq<u8>, pattern: Seq<u8>, n: int)
    requires
        n <= buf.len(),
        n <= pattern.len(),
    ensures
        0 <= overlap_up_to(buf, pattern, n),
        n >= 0 ==> overlap_up_to(buf, pattern, n) <= n,
        ({
            let k = overlap_up_to(buf, pattern, n);
            k > 0 ==> buf.skip(buf.len() - k) == pattern.take(k)
        }),
        forall|k: int|
            1 <= k <= n && #[trigger] buf.skip(buf.len() - k) == pattern.take(k)
                ==> k <= overlap_up_to(buf, pattern, n),
    decreases n,
{
    if n > 0 && buf.skip(buf.len() - n) != pattern.take(n) {
        lemma_overlap_up_to(buf, pattern, n - 1);
    }
}

/// The length of the longest suffix of `buf` that is also a prefix of `pattern`: how many bytes
/// at the end of `buf` may belong to an occurrence of the pattern.
pub fn partial_suffix_match(buf: &[u8], pattern: &[u8]) -> (r: usize)
    ensures
        r == overlap(buf@, pattern@),
        r <= buf.len(),
{
    let mut n: usize = if buf.len() < pattern.len() {
        buf.len()
    } else {
        pattern.len()
    };
    while n > 0
        invariant
            n <= buf.len(),
            n <= pattern.len(),
            overlap(buf@, pattern@) == overlap_up_to(buf@, pattern@, n as int),
        decreases n,
    {
        let head = vstd::slice::slice_subrange(pattern, 0, n);
        assert(head@ == pattern@.take(n as int));
        assert(buf@.subrange(buf.len() - n, buf.len() - n + head@.len()) == buf@.skip(
            buf.len() - n,
        ));
        if bytes_at(buf, head, buf.len() - n) {
            return n;
        }
        n -= 1;
    }
    0
}

// ---------------------------------------------------------------------------
// The streaming scanner
// ---------------------------------------------------------------------------
/// What a scanner holds.
pub struct ScanState {
    pub marker: Seq<u8>,
    pub hold: Seq<u8>,
    pub leftover: Seq<u8>,
    pub done: bool,
    pub code: int,
}

impl ScanState {
    pub open spec fn init(marker: Seq<u8>) -> ScanState {
        ScanState { marker, hold: Seq::empty(), leftover: Seq::empty(), done: false, code: 0 }
    }

    /// The state after one more chunk, and the bytes that it lets through.
    pub open spec fn feed(self, chunk: Seq<u8>) -> (ScanState, Seq<u8>) {
        let buf = self.hold + chunk;
        if self.done {
            (self, Seq::empty())
        } else {
            match sentinel(buf, self.marker) {
                Found::Confirmed { pos, code, end } => (
                    ScanState {
                        hold: Seq::empty(),
                        leftover: buf.skip(end),
                        done: true,
                        code,
                        ..self
                    },
                    buf.take(pos),
                ),
                Found::Incomplete(pos) => (
                    ScanState { hold: buf.skip(pos), ..self },
                    buf.take(pos),
                ),
                Found::Absent => {
                    let safe = buf.len() - overlap(buf, self.marker);
                    (ScanState { hold: buf.skip(safe), ..self }, buf.take(safe))
                },
            }
        }
    }
}

/// A streaming scanner for the sentinel of a marker. It forwards everything before
/// the sentinel, however the stream is cut into chunks.
pub struct SentinelScanner {
    marker: Vec<u8>,
    hold: Vec<u8>,
    leftover: Vec<u8>,
    done: bool,
    exit_code: i32,
}

impl View for SentinelScanner {
    type V = ScanState;

    closed spec fn view(&self) -> ScanState {
        ScanState {
            marker: self.marker@,
            hold: self.hold@,
            leftover: self.leftover@,
            done: self.done,
            code: self.exit_code as int,
        }
    }
}

/// A copy of a part of a byte slice.
pub fn copy_range(s: &[u8], from: usize, to: usize) -> (r: Vec<u8>)
    requires
        from <= to <= s.len(),
    ensures
        r@ == s@.subrange(from as int, to as int),
{
    let part = vstd::slice::slice_subrange(s, from, to);
    let mut r: Vec<u8> = Vec::new();
    r.extend_from_slice(part);
    assert(r@ == s@.subrange(from as int, to as int));
    r
}

impl SentinelScanner {
    pub fn new(marker: Vec<u8>) -> (r: Self)
        ensures
            r@ == ScanState::init(marker@),
    {
        SentinelScanner {
            marker,
            hold: Vec::new(),
            leftover: Vec::new(),
            done: false,
            exit_code: 0,
        }
    }

    /// Feed one chunk of output. Returns the bytes that are safe to forward now,
    /// and whether the sentinel has matched. Until then nothing is lost: what was
    /// held and came in is forwarded or held.
    pub fn feed(&mut self, chunk: &[u8]) -> (r: (Vec<u8>, bool))
        ensures
            (final(self)@, r.0@) == old(self)@.feed(chunk@),
            r.1 == final(self)@.done,
            !r.1 ==> r.0@ + final(self)@.hold == old(self)@.hold + chunk@,
    {
        if self.done {
            let none: Vec<u8> = Vec::new();
            assert(none@ == Seq::<u8>::empty());
            return (none, true);
        }
        self.hold.extend_from_slice(chunk);
        assert(self.hold@ == old(self)@.hold + chunk@);
        let ghost buf = self.hold@;
        match find_sentinel(self.hold.as_slice(), self.marker.as_slice()) {
            SentinelFind::Confirmed { pos, code, end } => {
                let forward = copy_range(self.hold.as_slice(), 0, pos);
                self.leftover = copy_range(self.hold.as_slice(), end, self.hold.len());
                self.hold = Vec::new();
                self.exit_code = code;
                self.done = true;
                assert(forward@ == buf.take(pos as int));
                assert(self.leftover@ == buf.skip(end as int));
                (forward, true)
            },
            SentinelFind::Incomplete(pos) => {
                let forward = copy_range(self.hold.as_slice(), 0, pos);
                self.hold = copy_range(self.hold.as_slice(), pos, self.hold.len());
                assert(forward@ == buf.take(pos as int));
                assert(self.hold@ == buf.skip(pos as int));
                assert(forward@ + self.hold@ == buf);
                (forward, false)
            },
            SentinelFind::Absent => {
                let partial: usize = partial_suffix_match(
                    self.hold.as_slice(),
                    self.marker.as_slice(),
                );
                let safe: usize = self.hold.len() - partial;
                let forward = copy_range(self.hold.as_slice(), 0, safe);
                self.hold = copy_range(self.hold.as_slice(), safe, self.hold.len());
                assert(forward@ == buf.take(safe as int));
                assert(self.hold@ == buf.skip(safe as int));
                assert(forward@ + self.hold@ == buf);
                (forward, false)
            },
        }
    }

    pub fn exit_code(&self) -> (r: i32)
        ensures
            r == self@.code,
    {
        self.exit_code
    }

    /// The bytes behind the sentinel, such as the next shell prompt.
    pub fn take_leftover(&mut self) -> (r: Vec<u8>)
        ensures
            r@ == old(self)@.leftover,
            final(self)@ == (ScanState { leftover: Seq::empty(), ..old(self)@ }),
    {
        let mut taken: Vec<u8> = Vec::new();
        std::mem::swap(&mut taken, &mut self.leftover);
        assert(self@.leftover == Seq::<u8>::empty());
        taken
    }
}

// ---------------------------------------------------------------------------
// However the stream is cut
// ---------------------------------------------------------------------------
/// What is decided behind a marker stays so when more bytes arrive.
proof fn lemma_look_extends(after: Seq<u8>, x: Seq<u8>)
    requires
        !(look(after) is Incomplete),
    ensures
        look(after + x) == look(after),
{
    if after[0] == 0x3a {
        let i = digits_end(after, 1);
        lemma_digits_end(after, 1);
        lemma_digits_end_is(after + x, 1, i);
        assert((after + x).subrange(1, i) =~= after.subrange(1, i));
    }
}

/// An index that was passed stays so when more bytes arrive, unless the marker may yet come
/// to stand there.
proof fn lemma_passed_extends(buf: Seq<u8>, marker: Seq<u8>, x: Seq<u8>, j: int)
    requires
        0 <= j,
        j + marker.len() <= buf.len(),
        passed(buf, marker, j),
    ensures
        passed(buf + x, marker, j),
{
    let m = marker.len();
    assert((buf + x).subrange(j, j + m) =~= buf.subrange(j, j + m));
    if search::occurs_at(buf + x, marker, j) {
        assert(search::occurs_at(buf, marker, j));
        lemma_look_extends(buf.skip(j + m), x);
        assert((buf + x).skip(j + m) =~= buf.skip(j + m) + x);
    }
}

/// What was confirmed stays so when more bytes arrive.
proof fn lemma_confirmed_extends(buf: Seq<u8>, marker: Seq<u8>, x: Seq<u8>)
    requires
        marker.len() > 0,
        sentinel(buf, marker) is Confirmed,
    ensures
        sentinel(buf + x, marker) == sentinel(buf, marker),
{
    let m = marker.len();
    lemma_sentinel_from(buf, marker, 0);
    match sentinel(buf, marker) {
        Found::Confirmed { pos, .. } => {
            assert forall|j: int| 0 <= j < pos implies #[trigger] passed(buf + x, marker, j) by {
                assert(passed(buf, marker, j));
                lemma_passed_extends(buf, marker, x, j);
            }
            lemma_sentinel_gap(buf + x, marker, 0, pos);
            assert((buf + x).subrange(pos, pos + m) =~= buf.subrange(pos, pos + m));
            lemma_look_extends(buf.skip(pos + m), x);
            assert((buf + x).skip(pos + m) =~= buf.skip(pos + m) + x);
        },
        _ => {},
    }
}

proof fn lemma_sentinel_skip(s: Seq<u8>, marker: Seq<u8>, n: int, from: int)
    requires
        0 <= n <= from,
        n <= s.len(),
    ensures
        sentinel_from(s, marker, from) == sentinel_from(s.skip(n), marker, from - n).shift(n),
    decreases s.len() - from,
{
    let m = marker.len();
    if m > 0 && from + m <= s.len() {
        assert(s.skip(n).subrange(from - n, from - n + m) =~= s.subrange(from, from + m));
        assert(s.skip(n).skip(from - n + m) =~= s.skip(from + m));
        lemma_sentinel_skip(s, marker, n, from + 1);
    }
}

/// How many bytes of a buffer without a confirmed sentinel a scanner lets through.
spec fn safe_len(buf: Seq<u8>, marker: Seq<u8>) -> int {
    match sentinel(buf, marker) {
        Found::Incomplete(pos) => pos,
        _ => buf.len() - overlap(buf, marker),
    }
}

/// What a scanner lets through does not change what is found in the rest.
proof fn lemma_forwarding_keeps_sentinel(buf: Seq<u8>, marker: Seq<u8>, x: Seq<u8>)
    requires
        marker.len() > 0,
        !(sentinel(buf, marker) is Confirmed),
    ensures
        ({
            let safe = safe_len(buf, marker);
            &&& 0 <= safe <= buf.len()
            &&& sentinel(buf + x, marker) == sentinel((buf + x).skip(safe), marker).shift(safe)
        }),
{
    let t = buf + x;
    let m = marker.len();
    let safe = safe_len(buf, marker);
    let top = if buf.len() < m {
        buf.len() as int
    } else {
        m as int
    };
    lemma_sentinel_from(buf, marker, 0);
    lemma_overlap_up_to(buf, marker, top);
    assert forall|j: int| 0 <= j < safe implies #[trigger] passed(t, marker, j) by {
        assert(passed(buf, marker, j));
        if j + m <= buf.len() {
            lemma_passed_extends(buf, marker, x, j);
        } else if search::occurs_at(t, marker, j) {
            let k = buf.len() - j;
            assert forall|q: int| 0 <= q < k implies buf.skip(j)[q] == marker.take(k)[q] by {
                assert(t.subrange(j, j + m)[q] == marker[q]);
            }
            assert(buf.skip(buf.len() - k) =~= marker.take(k));
        }
    }
    lemma_sentinel_gap(t, marker, 0, safe);
    lemma_sentinel_skip(t, marker, safe, safe);
}

/// In a stream whose end has not come yet, a sentinel may begin at `i`: the marker stands
/// there and what follows it does not rule one out, or all that is there begins the marker.
pub open spec fn may_begin(s: Seq<u8>, marker: Seq<u8>, i: int) -> bool {
    if i + marker.len() <= s.len() {
        search::occurs_at(s, marker, i) && !(look(s.skip(i + marker.len())) is Mismatch)
    } else {
        0 <= i < s.len() && s.skip(i) == marker.take(s.len() - i)
    }
}

/// `n` is the first index at which a sentinel may begin, or the length of the stream.
pub open spec fn first_beginning(s: Seq<u8>, marker: Seq<u8>, n: int) -> bool {
    &&& 0 <= n <= s.len()
    &&& forall|j: int| 0 <= j < n ==> !#[trigger] may_begin(s, marker, j)
    &&& n < s.len() ==> may_begin(s, marker, n)
}

/// What a scanner lets through of a buffer ends where a sentinel may first begin.
proof fn lemma_safe_len(buf: Seq<u8>, marker: Seq<u8>)
    requires
        marker.len() > 0,
        !(sentinel(buf, marker) is Confirmed),
    ensures
        first_beginning(buf, marker, safe_len(buf, marker)),
{
    let m = marker.len();
    let safe = safe_len(buf, marker);
    let top = if buf.len() < m {
        buf.len() as int
    } else {
        m as int
    };
    lemma_sentinel_from(buf, marker, 0);
    lemma_overlap_up_to(buf, marker, top);
    assert forall|j: int| 0 <= j < safe implies !#[trigger] may_begin(buf, marker, j) by {
        assert(passed(buf, marker, j));
        if j + m > buf.len() {
            let k = buf.len() - j;
            assert(buf.skip(buf.len() - k) == buf.skip(j));
        }
    }
    if sentinel(buf, marker) is Absent && safe + m <= buf.len() {
        assert(buf.skip(safe) =~= buf.subrange(safe, safe + m));
        assert(marker.take(m as int) =~= marker);
        assert(passed(buf, marker, safe));
        assert(buf.skip(safe + m).len() == 0);
    }
}

/// Where no sentinel may begin, none may when more bytes arrive.
proof fn lemma_beginning_extends(s: Seq<u8>, marker: Seq<u8>, x: Seq<u8>, j: int)
    requires
        0 <= j < s.len(),
        !may_begin(s, marker, j),
    ensures
        !may_begin(s + x, marker, j),
{
    let t = s + x;
    let m = marker.len();
    if j + m <= s.len() {
        lemma_passed_extends(s, marker, x, j);
    } else if may_begin(t, marker, j) {
        let k = s.len() - j;
        assert forall|q: int| 0 <= q < k implies s.skip(j)[q] == marker.take(k)[q] by {
            if j + m <= t.len() {
                assert(t.subrange(j, j + m)[q] == marker[q]);
            } else {
                assert(t.skip(j)[q] == marker.take(t.len() - j)[q]);
            }
        }
        assert(s.skip(j) =~= marker.take(k));
    }
}

proof fn lemma_beginning_skip(s: Seq<u8>, marker: Seq<u8>, f: int, j: int)
    requires
        0 <= f <= j,
        f <= s.len(),
    ensures
        may_begin(s, marker, j) == may_begin(s.skip(f), marker, j - f),
{
    let m = marker.len();
    if j + m <= s.len() {
        assert(s.skip(f).subrange(j - f, j - f + m) =~= s.subrange(j, j + m));
        assert(s.skip(f).skip(j - f + m) =~= s.skip(j + m));
    } else if j < s.len() {
        assert(s.skip(f).skip(j - f) =~= s.skip(j));
    }
}

/// The concatenation of the chunks of a stream.
pub open spec fn stream(chunks: Seq<Seq<u8>>) -> Seq<u8>
    decreases chunks.len(),
{
    if chunks.len() == 0 {
        Seq::empty()
    } else {
        stream(chunks.drop_last()) + chunks.last()
    }
}

/// A scanner that is fed all chunks in turn, and all that it lets through.
pub open spec fn scan_all(marker: Seq<u8>, chunks: Seq<Seq<u8>>) -> (ScanState, Seq<u8>)
    decreases chunks.len(),
{
    if chunks.len() == 0 {
        (ScanState::init(marker), Seq::empty())
    } else {
        let (state, out) = scan_all(marker, chunks.drop_last());
        let (next, forward) = state.feed(chunks.last());
        (next, out + forward)
    }
}

/// A prefix of length `f` can be left out of the search, whatever follows.
spec fn prefix_irrelevant(s: Seq<u8>, marker: Seq<u8>, f: int) -> bool {
    forall|x: Seq<u8>|
        sentinel(#[trigger] (s + x), marker) == sentinel((s + x).skip(f), marker).shift(f)
}

/// What holds of a scanner that was fed the stream `s` and let `out` through.
spec fn scanned(s: Seq<u8>, marker: Seq<u8>, state: ScanState, out: Seq<u8>) -> bool {
    &&& state.marker == marker
    &&& match sentinel(s, marker) {
        Found::Confirmed { pos, code, end } => {
            &&& state.done
            &&& state.code == code
            &&& 0 <= pos <= end <= end + state.leftover.len() <= s.len()
            &&& out == s.take(pos)
            &&& state.leftover == s.subrange(end, end + state.leftover.len())
        },
        _ => {
            &&& !state.done
            &&& out + state.hold == s
            &&& prefix_irrelevant(s, marker, out.len() as int)
            &&& first_beginning(s, marker, out.len() as int)
        },
    }
}

proof fn lemma_prefix_irrelevant(
    s0: Seq<u8>,
    chunk: Seq<u8>,
    marker: Seq<u8>,
    f: int,
    safe: int,
)
    requires
        marker.len() > 0,
        0 <= f <= s0.len(),
        prefix_irrelevant(s0, marker, f),
        !(sentinel((s0 + chunk).skip(f), marker) is Confirmed),
        safe == safe_len((s0 + chunk).skip(f), marker),
    ensures
        prefix_irrelevant(s0 + chunk, marker, f + safe),
{
    let s = s0 + chunk;
    let buf = s.skip(f);
    assert forall|x: Seq<u8>|
        sentinel(#[trigger] (s + x), marker) == sentinel((s + x).skip(f + safe), marker).shift(
            f + safe,
        ) by {
        assert(s + x =~= s0 + (chunk + x));
        assert((s + x).skip(f) =~= buf + x);
        lemma_forwarding_keeps_sentinel(buf, marker, x);
        assert((buf + x).skip(safe) =~= (s + x).skip(f + safe));
    }
}

proof fn lemma_scan_step(
    s0: Seq<u8>,
    chunk: Seq<u8>,
    marker: Seq<u8>,
    st0: ScanState,
    out0: Seq<u8>,
)
    requires
        marker.len() > 0,
        scanned(s0, marker, st0, out0),
        !st0.done,
    ensures
        scanned(s0 + chunk, marker, st0.feed(chunk).0, out0 + st0.feed(chunk).1),
{
    let s = s0 + chunk;
    let f = out0.len() as int;
    let buf = st0.hold + chunk;
    let (state, forward) = st0.feed(chunk);
    assert(s =~= out0 + buf);
    assert(s.skip(f) =~= buf);
    assert(sentinel(s, marker) == sentinel(buf, marker).shift(f));
    match sentinel(buf, marker) {
        Found::Confirmed { pos, code, end } => {
            lemma_sentinel_from(buf, marker, 0);
            assert(out0 + forward =~= s.take(pos + f));
            assert(state.leftover =~= s.subrange(end + f, s.len() as int));
        },
        _ => {
            let safe = safe_len(buf, marker);
            lemma_forwarding_keeps_sentinel(buf, marker, Seq::empty());
            lemma_prefix_irrelevant(s0, chunk, marker, f, safe);
            assert(forward =~= buf.take(safe));
            assert((out0 + forward) + state.hold =~= s);
            lemma_safe_len(buf, marker);
            assert forall|j: int| 0 <= j < f + safe implies !#[trigger] may_begin(s, marker, j) by {
                if j < f {
                    lemma_beginning_extends(s0, marker, chunk, j);
                } else {
                    lemma_beginning_skip(s, marker, f, j);
                }
            }
            lemma_beginning_skip(s, marker, f, f + safe);
        },
    }
}

proof fn lemma_scan_done(
    s0: Seq<u8>,
    chunk: Seq<u8>,
    marker: Seq<u8>,
    st0: ScanState,
    out0: Seq<u8>,
)
    requires
        marker.len() > 0,
        scanned(s0, marker, st0, out0),
        st0.done,
    ensures
        scanned(s0 + chunk, marker, st0.feed(chunk).0, out0 + st0.feed(chunk).1),
{
    let s = s0 + chunk;
    lemma_confirmed_extends(s0, marker, chunk);
    match sentinel(s0, marker) {
        Found::Confirmed { pos, code, end } => {
            let n = st0.leftover.len();
            assert(s.subrange(end, end + n) =~= s0.subrange(end, end + n));
            assert(s.take(pos) =~= s0.take(pos));
            assert(out0 + st0.feed(chunk).1 =~= out0);
        },
        _ => {},
    }
}

proof fn lemma_scan_all(marker: Seq<u8>, chunks: Seq<Seq<u8>>)
    requires
        marker.len() > 0,
    ensures
        scanned(stream(chunks), marker, scan_all(marker, chunks).0, scan_all(marker, chunks).1),
    decreases chunks.len(),
{
    let s = stream(chunks);
    if chunks.len() == 0 {
        assert forall|x: Seq<u8>|
            sentinel(#[trigger] (s + x), marker) == sentinel((s + x).skip(0), marker).shift(0) by {
            assert((s + x).skip(0) =~= s + x);
        }
    } else {
        let prev = chunks.drop_last();
        let s0 = stream(prev);
        let (st0, out0) = scan_all(marker, prev);
        lemma_scan_all(marker, prev);
        if st0.done {
            lemma_scan_done(s0, chunks.last(), marker, st0, out0);
        } else {
            lemma_scan_step(s0, chunks.last(), marker, st0, out0);
        }
    }
}

/// However a stream is cut into chunks, a scanner lets through exactly the bytes
/// before the stream's sentinel and reports its exit code; the bytes that it keeps
/// as leftover are those that follow it. While there is no sentinel nothing is lost: what was
/// let through ends where a sentinel may first begin, and the rest is held.
pub proof fn law_scanning_is_independent_of_chunks(marker: Seq<u8>, chunks: Seq<Seq<u8>>)
    requires
        marker.len() > 0,
    ensures
        ({
            let s = stream(chunks);
            let (state, out) = scan_all(marker, chunks);
            match sentinel(s, marker) {
                Found::Confirmed { pos, code, end } => {
                    &&& state.done
                    &&& state.code == code
                    &&& out == s.take(pos)
                    &&& end + state.leftover.len() <= s.len()
                    &&& state.leftover == s.subrange(end, end + state.leftover.len())
                },
                _ => {
                    &&& !state.done
                    &&& out + state.hold == s
                    &&& first_beginning(s, marker, out.len() as int)
                },
            }
        }),
{
    lemma_scan_all(marker, chunks);
}

proof fn lemma_incomplete_has_no_line_end(after: Seq<u8>, i: int)
    requires
        look(after) is Incomplete,
        0 <= i < after.len(),
    ensures
        after[i] != 0x0a,
{
    lemma_digits_end(after, 1);
}

/// The first occurrence of the marker that a colon, digits and a line end follow is the one
/// that is found, whatever other occurrences stand before it or overlap it.
pub proof fn law_first_confirmed_is_found(buf: Seq<u8>, marker: Seq<u8>, pos: int)
    requires
        marker.len() > 0,
        search::occurs_at(buf, marker, pos),
        look(buf.skip(pos + marker.len())) is Confirmed,
        forall|j: int|
            0 <= j < pos && #[trigger] search::occurs_at(buf, marker, j) ==> !(look(
                buf.skip(j + marker.len()),
            ) is Confirmed),
    ensures
        look(buf.skip(pos + marker.len())) matches Look::Confirmed { code, consumed } && sentinel(
            buf,
            marker,
        ) == (Found::Confirmed { pos, code, end: pos + marker.len() + consumed }),
{
    let m = marker.len();
    lemma_sentinel_from(buf, marker, 0);
    match sentinel(buf, marker) {
        Found::Confirmed { pos: p, .. } => {
            if p > pos {
                assert(passed(buf, marker, pos));
            }
        },
        Found::Incomplete(p) => {
            if p > pos {
                assert(passed(buf, marker, pos));
            } else {
                let after = buf.skip(pos + m);
                let consumed = look(after)->consumed;
                lemma_digits_end(after, 1);
                assert(after[consumed - 1] == 0x0a);
                assert(buf.skip(p + m)[pos - p + consumed - 1] == 0x0a);
                lemma_incomplete_has_no_line_end(buf.skip(p + m), pos - p + consumed - 1);
            }
        },
        Found::Absent => {
            assert(passed(buf, marker, pos));
        },
    }
}

/// The echo of the wrapped command, in which the format `%s` follows the marker and
/// its colon, is never taken for the sentinel.
pub proof fn law_echoed_format_is_no_sentinel(after: Seq<u8>)
    requires
        after.len() >= 2,
        after[0] == 0x3a,
        after[1] == 0x25,
    ensures
        look(after) is Mismatch,
{
    lemma_digits_end_is(after, 1, 1);
}

// ---------------------------------------------------------------------------
// What a sentinel tells
// ---------------------------------------------------------------------------
/// The bytes of a number in decimal.
pub open spec fn number_bytes(n: int) -> Seq<u8> {
    Seq::new(text::dec(n).len(), |i: int| (text::dec(n)[i] as u32) as u8)
}

/// A colon, a number and the end of a line behind a marker tell the number as the exit code; a
/// number that no exit code can be tells success. A carriage return before the end of the line
/// does not count. As long as the line is open, nothing is told.
pub proof fn law_sentinel_tells_the_code(n: int, behind: Seq<u8>)
    requires
        0 <= n,
    ensures
        ({
            let start = seq![58u8] + number_bytes(n);
            let code = if n <= i32::MAX {
                n
            } else {
                0
            };
            let len = number_bytes(n).len() as int;
            &&& look(start + seq![10u8] + behind) == (Look::Confirmed { code, consumed: len + 2 })
            &&& look(start + seq![13u8, 10u8] + behind) == (Look::Confirmed {
                code,
                consumed: len + 3,
            })
            &&& look(start) is Incomplete
            &&& look(start + seq![13u8]) is Incomplete
            &&& look(seq![58u8]) is Incomplete
            &&& look(Seq::empty()) is Incomplete
        }),
{
    let digits = number_bytes(n);
    let start = seq![58u8] + digits;
    let len = digits.len() as int;
    lemma_number_bytes(n);
    assert((start + seq![10u8] + behind).subrange(1, len + 1) =~= digits);
    assert((start + seq![13u8, 10u8] + behind).subrange(1, len + 1) =~= digits);
    assert(start.subrange(1, len + 1) =~= digits);
    assert((start + seq![13u8]).subrange(1, len + 1) =~= digits);
    lemma_number_end(start + seq![10u8] + behind, digits);
    lemma_number_end(start + seq![13u8, 10u8] + behind, digits);
    lemma_number_end(start, digits);
    lemma_number_end(start + seq![13u8], digits);
}

proof fn lemma_number_bytes(n: int)
    requires
        0 <= n,
    ensures
        number_bytes(n).len() > 0,
        forall|i: int| 0 <= i < number_bytes(n).len() ==> is_byte_digit(#[trigger] number_bytes(n)[i]),
        byte_digits_value(number_bytes(n)) == n,
    decreases n,
{
    text::lemma_decimal_reads_back(n);
    let b = number_bytes(n);
    assert forall|i: int| 0 <= i < b.len() implies is_byte_digit(#[trigger] b[i]) by {
        let c = text::dec(n)[i];
        assert(text::is_digit(c));
        assert(b[i] == (c as u32) as u8);
    }
    if n >= 10 {
        lemma_number_bytes(n / 10);
        assert(b.drop_last() =~= number_bytes(n / 10));
        assert(text::digits_value(text::dec(n)) == n);
        text::lemma_decimal_reads_back(n / 10);
        assert(text::dec(n).drop_last() =~= text::dec(n / 10));
    } else {
        assert(b.drop_last() =~= Seq::<u8>::empty());
        assert(text::dec(n).drop_last() =~= Seq::<char>::empty());
        assert(byte_digits_value(b.drop_last()) == 0);
    }
}

proof fn lemma_number_end(s: Seq<u8>, digits: Seq<u8>)
    requires
        s.len() >= digits.len() as int + 1,
        s.subrange(1, digits.len() as int + 1) == digits,
        forall|i: int| 0 <= i < digits.len() ==> is_byte_digit(#[trigger] digits[i]),
        s.len() > digits.len() as int + 1 ==> !is_byte_digit(s[digits.len() as int + 1]),
    ensures
        digits_end(s, 1) == digits.len() as int + 1,
{
    assert forall|i: int| 1 <= i <= digits.len() implies is_byte_digit(#[trigger] s[i]) by {
        assert(s.subrange(1, digits.len() as int + 1)[i - 1] == s[i]);
    }
    lemma_digits_run(s, 1, digits.len() as int + 1);
}

proof fn lemma_digits_run(s: Seq<u8>, i: int, end: int)
    requires
        0 <= i <= end <= s.len(),
        forall|j: int| i <= j < end ==> is_byte_digit(#[trigger] s[j]),
        end < s.len() ==> !is_byte_digit(s[end]),
    ensures
        digits_end(s, i) == end,
    decreases end - i,
{
    if i < end {
        lemma_digits_run(s, i + 1, end);
    }
}

/// Anything else behind a marker is no sentinel: what does not begin with a colon, a colon
/// without a number, a number with anything else behind it.
pub proof fn law_other_bytes_are_no_sentinel(n: int, c: u8, behind: Seq<u8>)
    requires
        0 <= n,
        c != 10,
        c != 13,
        c != 58,
        !is_byte_digit(c),
    ensures
        look(seq![c] + behind) is Mismatch,
        look(seq![58u8, c] + behind) is Mismatch,
        look(seq![58u8, 10u8] + behind) is Mismatch,
        look(seq![58u8] + number_bytes(n) + seq![c] + behind) is Mismatch,
        look(seq![58u8] + number_bytes(n) + seq![13u8, c] + behind) is Mismatch,
{
    let digits = number_bytes(n);
    let start = seq![58u8] + digits;
    lemma_number_bytes(n);
    assert((start + seq![c] + behind).subrange(1, digits.len() as int + 1) =~= digits);
    assert((start + seq![13u8, c] + behind).subrange(1, digits.len() as int + 1) =~= digits);
    lemma_number_end(start + seq![c] + behind, digits);
    lemma_number_end(start + seq![13u8, c] + behind, digits);
}

/// A scanner begins with nothing held back and nothing found.
pub proof fn law_fresh_scanner_has_found_nothing(marker: Seq<u8>)
    ensures
        ({
            let s = ScanState::init(marker);
            s.marker == marker && s.hold.len() == 0 && s.leftover.len() == 0 && !s.done && s.code
                == 0
        }),
{
}

} // verus!
