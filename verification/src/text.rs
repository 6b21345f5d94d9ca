//! Text as sequences of characters: searching, trimming, splitting, numbers.
use crate::search::{chars_at, chars_until, find_chars};
use vstd::prelude::*;

verus! {

/// `String::push` of std appends one character.
pub assume_specification[ String::push ](s: &mut String, c: char)
    ensures
        final(s)@ == old(s)@.push(c),
;

// ---------------------------------------------------------------------------
// Characters in and out of strings
// ---------------------------------------------------------------------------
/// The characters of a string.
pub fn to_chars(s: &str) -> (v: Vec<char>)
    ensures
        v@ == s@,
{
    let mut v: Vec<char> = Vec::new();
    for c in it: s.chars()
        invariant
            v@ == it.seq().take(it.index()),
            it.seq() == s@,
    {
        v.push(c);
        assert(v@ == it.seq().take(it.index() + 1));
    }
    assert(s@.take(s@.len() as int) == s@);
    v
}

/// The string made of the given characters.
pub fn from_chars(v: &[char]) -> (s: String)
    ensures
        s@ == v@,
{
    let mut s = String::new();
    let mut i: usize = 0;
    while i < v.len()
        invariant
            i <= v.len(),
            s@ == v@.take(i as int),
        decreases v.len() - i,
    {
        s.push(v[i]);
        i += 1;
        assert(s@ == v@.take(i as int));
    }
    s
}

/// The views of a list of strings.
pub open spec fn texts(v: Seq<String>) -> Seq<Seq<char>> {
    Seq::new(v.len(), |i: int| v[i]@)
}

/// The view of an optional string.
pub open spec fn opt(o: Option<String>) -> Option<Seq<char>> {
    match o {
        Some(s) => Some(s@),
        None => None,
    }
}

/// The view of an optional string slice.
pub open spec fn opt_str(o: Option<&str>) -> Option<Seq<char>> {
    match o {
        Some(s) => Some(s@),
        None => None,
    }
}

/// Whether two character slices are equal.
pub fn same_chars(a: &[char], b: &[char]) -> (r: bool)
    ensures
        r == (a@ == b@),
{
    if a.len() != b.len() {
        return false;
    }
    let mut i: usize = 0;
    while i < a.len()
        invariant
            i <= a.len(),
            a.len() == b.len(),
            forall|j: int| 0 <= j < i ==> a@[j] == b@[j],
        decreases a.len() - i,
    {
        if a[i] != b[i] {
            return false;
        }
        i += 1;
    }
    assert(a@ == b@);
    true
}

/// Whether two strings are equal.
pub fn same(a: &str, b: &str) -> (r: bool)
    ensures
        r == (a@ == b@),
{
    same_chars(to_chars(a).as_slice(), to_chars(b).as_slice())
}

// ---------------------------------------------------------------------------
// White space and trimming
// ---------------------------------------------------------------------------
/// Unicode's White_Space property.
pub open spec fn is_white(c: char) -> bool {
    let u = c as u32;
    ||| 0x09 <= u <= 0x0d
    ||| u == 0x20
    ||| u == 0x85
    ||| u == 0xa0
    ||| u == 0x1680
    ||| 0x2000 <= u <= 0x200a
    ||| u == 0x2028
    ||| u == 0x2029
    ||| u == 0x202f
    ||| u == 0x205f
    ||| u == 0x3000
}

/// Whether a character is white space.
pub fn white(c: char) -> (r: bool)
    ensures
        r == is_white(c),
{
    let u: u32 = c as u32;
    (0x09 <= u && u <= 0x0d) || u == 0x20 || u == 0x85 || u == 0xa0 || u == 0x1680 || (0x2000 <= u
        && u <= 0x200a) || u == 0x2028 || u == 0x2029 || u == 0x202f || u == 0x205f || u == 0x3000
}

/// `s` without its leading white space.
pub open spec fn trim_start_of(s: Seq<char>) -> Seq<char>
    decreases s.len(),
{
    if s.len() > 0 && is_white(s[0]) {
        trim_start_of(s.skip(1))
    } else {
        s
    }
}

/// `s` without its trailing white space.
pub open spec fn trim_end_of(s: Seq<char>) -> Seq<char>
    decreases s.len(),
{
    if s.len() > 0 && is_white(s.last()) {
        trim_end_of(s.drop_last())
    } else {
        s
    }
}

/// `s` without the white space around it.
pub open spec fn trim_of(s: Seq<char>) -> Seq<char> {
    trim_end_of(trim_start_of(s))
}

/// Trimming leaves something of a text with a character that is no white space.
pub proof fn lemma_trim_keeps(s: Seq<char>, i: int)
    requires
        0 <= i < s.len(),
        !is_white(s[i]),
    ensures
        trim_of(s).len() > 0,
    decreases s.len(),
{
    if is_white(s[0]) {
        assert(s.skip(1)[i - 1] == s[i]);
        lemma_trim_keeps(s.skip(1), i - 1);
    } else {
        lemma_trim_end_keeps(s);
    }
}

/// A text that does not begin with white space still begins the same when it is trimmed.
pub proof fn lemma_trim_end_keeps(s: Seq<char>)
    requires
        s.len() > 0,
        !is_white(s[0]),
    ensures
        trim_end_of(s).len() > 0,
        trim_end_of(s)[0] == s[0],
    decreases s.len(),
{
    if is_white(s.last()) {
        lemma_trim_end_keeps(s.drop_last());
    }
}

/// White space around a text is trimmed, and nothing else.
pub proof fn law_trimming_removes_the_white_space_around(
    before: Seq<char>,
    s: Seq<char>,
    behind: Seq<char>,
)
    requires
        forall|i: int| 0 <= i < before.len() ==> is_white(#[trigger] before[i]),
        forall|i: int| 0 <= i < behind.len() ==> is_white(#[trigger] behind[i]),
        s.len() > 0 ==> !is_white(s[0]) && !is_white(s.last()),
    ensures
        trim_of(before + s + behind) == s,
        trim_of(s) == s,
    decreases before.len(),
{
    let all = before + s + behind;
    if before.len() > 0 {
        assert(all[0] == before[0]);
        let rest = before.skip(1);
        assert(all.skip(1) =~= rest + s + behind);
        assert forall|i: int| 0 <= i < rest.len() implies is_white(#[trigger] rest[i]) by {
            assert(rest[i] == before[i + 1]);
        }
        law_trimming_removes_the_white_space_around(rest, s, behind);
    } else {
        assert(all =~= s + behind);
        lemma_trim_end_padded(s, behind);
        if s.len() > 0 {
            assert(all[0] == s[0]);
            assert(trim_start_of(all) == all);
            assert(trim_start_of(s) == s);
        } else {
            assert(all =~= behind);
            lemma_all_white(behind);
        }
    }
}

/// White space behind a text is trimmed.
pub proof fn lemma_trim_end_padded(s: Seq<char>, behind: Seq<char>)
    requires
        forall|i: int| 0 <= i < behind.len() ==> is_white(#[trigger] behind[i]),
        s.len() > 0 ==> !is_white(s.last()),
    ensures
        trim_end_of(s + behind) == s,
    decreases behind.len(),
{
    let all = s + behind;
    if behind.len() > 0 {
        assert(all.last() == behind[behind.len() - 1]);
        assert(all.drop_last() =~= s + behind.drop_last());
        lemma_trim_end_padded(s, behind.drop_last());
    } else {
        assert(all =~= s);
    }
}

proof fn lemma_all_white(s: Seq<char>)
    requires
        forall|i: int| 0 <= i < s.len() ==> is_white(#[trigger] s[i]),
    ensures
        trim_of(s).len() == 0,
        trim_start_of(s).len() == 0,
    decreases s.len(),
{
    if s.len() > 0 {
        assert forall|i: int| 0 <= i < s.skip(1).len() implies is_white(
            #[trigger] s.skip(1)[i],
        ) by {
            assert(s.skip(1)[i] == s[i + 1]);
        }
        lemma_all_white(s.skip(1));
    }
}

/// The bounds of the trimmed part of a character slice.
pub fn trim_bounds(v: &[char]) -> (r: (usize, usize))
    ensures
        r.0 <= r.1 <= v.len(),
        v@.subrange(r.0 as int, r.1 as int) == trim_of(v@),
{
    let mut i: usize = 0;
    assert(v@.skip(0) == v@);
    while i < v.len() && white(v[i])
        invariant
            i <= v.len(),
            trim_start_of(v@) == trim_start_of(v@.skip(i as int)),
        decreases v.len() - i,
    {
        assert(v@.skip(i as int).skip(1) == v@.skip(i + 1));
        i += 1;
    }
    let mut j: usize = v.len();
    assert(v@.subrange(i as int, j as int) == v@.skip(i as int));
    while j > i && white(v[j - 1])
        invariant
            i <= j <= v.len(),
            trim_of(v@) == trim_end_of(v@.subrange(i as int, j as int)),
        decreases j,
    {
        assert(v@.subrange(i as int, j as int).drop_last() == v@.subrange(i as int, j - 1));
        j -= 1;
    }
    (i, j)
}

/// Rust's `str::trim`.
pub fn trim(s: &str) -> (r: String)
    ensures
        r@ == trim_of(s@),
{
    let v = to_chars(s);
    let (i, j) = trim_bounds(v.as_slice());
    from_chars(vstd::slice::slice_subrange(v.as_slice(), i, j))
}

/// Whether a string ends with `p` once its trailing white space is gone.
pub fn trimmed_ends_with(s: &str, p: &str) -> (r: bool)
    ensures
        r == ends(trim_end_of(s@), p@),
{
    let v = to_chars(s);
    let mut j: usize = v.len();
    assert(v@.take(j as int) == s@);
    while j > 0 && white(v[j - 1])
        invariant
            j <= v.len(),
            trim_end_of(s@) == trim_end_of(v@.take(j as int)),
        decreases j,
    {
        assert(v@.take(j as int).drop_last() == v@.take(j - 1));
        j -= 1;
    }
    let head = from_chars(vstd::slice::slice_subrange(v.as_slice(), 0, j));
    assert(head@ == v@.take(j as int));
    ends_with(head.as_str(), p)
}

/// Whether a string holds nothing but white space.
pub fn is_blank(s: &str) -> (r: bool)
    ensures
        r == (trim_of(s@).len() == 0),
{
    let v = to_chars(s);
    let (i, j) = trim_bounds(v.as_slice());
    i == j
}

// ---------------------------------------------------------------------------
// Parts of strings
// ---------------------------------------------------------------------------
/// Whether `s` begins with `p`.
pub open spec fn begins(s: Seq<char>, p: Seq<char>) -> bool {
    crate::search::occurs_at(s, p, 0)
}

/// Whether `s` ends with `p`.
pub open spec fn ends(s: Seq<char>, p: Seq<char>) -> bool {
    crate::search::occurs_at(s, p, s.len() - p.len())
}

/// Whether `p` occurs somewhere in `s`.
pub open spec fn holds(s: Seq<char>, p: Seq<char>) -> bool {
    crate::search::find(s, p) is Some
}

pub fn contains(s: &str, p: &str) -> (r: bool)
    ensures
        r == holds(s@, p@),
{
    find_chars(to_chars(s).as_slice(), to_chars(p).as_slice()).is_some()
}

pub fn contains_char(s: &str, c: char) -> (r: bool)
    ensures
        r == s@.contains(c),
{
    let v = to_chars(s);
    let i: usize = chars_until(v.as_slice(), c);
    proof {
        crate::search::lemma_until(s@, c);
    }
    i < v.len()
}

pub fn starts_with(s: &str, p: &str) -> (r: bool)
    ensures
        r == begins(s@, p@),
{
    chars_at(to_chars(s).as_slice(), to_chars(p).as_slice(), 0)
}

pub fn ends_with(s: &str, p: &str) -> (r: bool)
    ensures
        r == ends(s@, p@),
{
    let a = to_chars(s);
    let b = to_chars(p);
    if b.len() > a.len() {
        return false;
    }
    chars_at(a.as_slice(), b.as_slice(), a.len() - b.len())
}

/// The parts of `s` between the occurrences of `c`: one more than there are of those.
pub open spec fn split_of(s: Seq<char>, c: char) -> Seq<Seq<char>>
    decreases s.len(),
    via split_of_decreases
{
    let n = crate::search::until(s, c);
    if n >= s.len() {
        seq![s]
    } else {
        seq![s.take(n)] + split_of(s.skip(n + 1), c)
    }
}

#[via_fn]
proof fn split_of_decreases(s: Seq<char>, c: char) {
    crate::search::lemma_until(s, c);
}

/// What is split off before the first separator.
pub proof fn lemma_split_first(head: Seq<char>, rest: Seq<char>, c: char)
    requires
        !head.contains(c),
    ensures
        split_of(head + seq![c] + rest, c) == seq![head] + split_of(rest, c),
{
    let s = head + seq![c] + rest;
    assert forall|j: int| 0 <= j < head.len() implies s[j] != c by {
        assert(head.contains(head[j]));
    }
    assert(s[head.len() as int] == c);
    crate::search::lemma_until_is(s, c, head.len() as int);
    assert(s.take(head.len() as int) == head);
    assert(s.skip(head.len() as int + 1) == rest);
}

/// Text that is appended after a separator is split on its own.
pub proof fn lemma_split_appended(s: Seq<char>, x: Seq<char>, c: char)
    requires
        s.len() == 0 || s.last() == c,
    ensures
        split_of(s, c).len() > 0,
        split_of(s, c).last().len() == 0,
        split_of(s + x, c) == split_of(s, c).drop_last() + split_of(x, c),
    decreases s.len(),
{
    if s.len() == 0 {
        assert(s + x == x);
        assert(crate::search::until(s, c) == 0);
        assert(split_of(s, c) == seq![s]);
        assert(split_of(s, c).drop_last() == Seq::<Seq<char>>::empty());
        assert(split_of(s, c).drop_last() + split_of(x, c) == split_of(x, c));
    } else {
        crate::search::lemma_until(s, c);
        let n = crate::search::until(s, c);
        assert(n < s.len());
        let head = s.take(n);
        let rest = s.skip(n + 1);
        assert(!head.contains(c));
        assert(s == head + seq![c] + rest);
        assert(s + x == head + seq![c] + (rest + x));
        lemma_split_first(head, rest, c);
        lemma_split_first(head, rest + x, c);
        assert(rest.len() > 0 ==> rest.last() == s.last());
        lemma_split_appended(rest, x, c);
        assert((seq![head] + split_of(rest, c)).drop_last() == seq![head] + split_of(
            rest,
            c,
        ).drop_last());
        assert(split_of(s + x, c) == split_of(s, c).drop_last() + split_of(x, c));
    }
}

/// Rust's `str::split` at a character.
pub fn split(s: &str, c: char) -> (r: Vec<String>)
    ensures
        texts(r@) == split_of(s@, c),
        r.len() > 0,
{
    let v = to_chars(s);
    let mut r: Vec<String> = Vec::new();
    let mut start: usize = 0;
    assert(s@.skip(0) == s@);
    assert(texts(r@) + split_of(s@, c) == split_of(s@, c));
    loop
        invariant
            v@ == s@,
            start <= v.len(),
            texts(r@) + split_of(s@.skip(start as int), c) == split_of(s@, c),
        decreases v.len() - start,
    {
        let rest = vstd::slice::slice_subrange(v.as_slice(), start, v.len());
        assert(rest@ == s@.skip(start as int));
        let n: usize = chars_until(rest, c);
        let part = from_chars(vstd::slice::slice_subrange(rest, 0, n));
        let ghost before = texts(r@);
        r.push(part);
        assert(texts(r@) == before.push(part@));
        if n == rest.len() {
            assert(rest@.subrange(0, n as int) == rest@);
            assert(texts(r@) == split_of(s@, c));
            return r;
        }
        assert(rest@.subrange(0, n as int) == rest@.take(n as int));
        assert(rest@.skip(n + 1) == s@.skip(start + n + 1));
        assert(before.push(part@) + split_of(s@.skip(start + n + 1), c) == before + (seq![part@]
            + split_of(s@.skip(start + n + 1), c)));
        start = start + n + 1;
    }
}

pub proof fn lemma_split_none(s: Seq<char>, c: char)
    requires
        !s.contains(c),
    ensures
        split_of(s, c) == seq![s],
{
    assert forall|j: int| 0 <= j < s.len() implies s[j] != c by {
        assert(s.contains(s[j]));
    }
    crate::search::lemma_until_is(s, c, s.len() as int);
}

/// A last part without the separator is the last part of the whole.
pub proof fn lemma_split_last(s: Seq<char>, last: Seq<char>, c: char)
    requires
        !last.contains(c),
    ensures
        split_of(s + seq![c] + last, c) == split_of(s, c).push(last),
    decreases s.len(),
{
    let n = crate::search::until(s, c);
    crate::search::lemma_until(s, c);
    if n >= s.len() {
        assert(!s.contains(c));
        lemma_split_first(s, last, c);
        lemma_split_none(last, c);
        assert(seq![s] + seq![last] =~= seq![s].push(last));
    } else {
        let head = s.take(n);
        let rest = s.skip(n + 1);
        assert(!head.contains(c));
        assert(s =~= head + seq![c] + rest);
        assert(s + seq![c] + last =~= head + seq![c] + (rest + seq![c] + last));
        lemma_split_first(head, rest, c);
        lemma_split_first(head, rest + seq![c] + last, c);
        lemma_split_last(rest, last, c);
        assert(seq![head] + split_of(rest, c).push(last) =~= (seq![head] + split_of(rest, c)).push(
            last,
        ));
    }
}

/// The concatenation of `parts` with `sep` between two of them.
pub open spec fn join_of(parts: Seq<Seq<char>>, sep: Seq<char>) -> Seq<char>
    decreases parts.len(),
{
    if parts.len() == 0 {
        Seq::empty()
    } else if parts.len() == 1 {
        parts[0]
    } else {
        join_of(parts.drop_last(), sep) + sep + parts.last()
    }
}

/// Rust's `join`.
pub fn join(parts: &[String], sep: &str) -> (r: String)
    ensures
        r@ == join_of(texts(parts@), sep@),
{
    let mut r = String::new();
    let mut i: usize = 0;
    while i < parts.len()
        invariant
            i <= parts.len(),
            r@ == join_of(texts(parts@).take(i as int), sep@),
        decreases parts.len() - i,
    {
        let ghost done = texts(parts@).take(i + 1);
        assert(done.drop_last() == texts(parts@).take(i as int));
        if i > 0 {
            r.append(sep);
        }
        r.append(parts[i].as_str());
        i += 1;
    }
    assert(texts(parts@).take(i as int) == texts(parts@));
    r
}

/// The concatenation of three strings.
pub fn concat3(a: &str, b: &str, c: &str) -> (r: String)
    ensures
        r@ == a@ + b@ + c@,
{
    let mut r = a.to_owned();
    r.append(b);
    r.append(c);
    r
}

/// The concatenation of five strings.
pub fn concat5(a: &str, b: &str, c: &str, d: &str, e: &str) -> (r: String)
    ensures
        r@ == a@ + b@ + c@ + d@ + e@,
{
    let mut r = concat3(a, b, c);
    r.append(d);
    r.append(e);
    r
}

// ---------------------------------------------------------------------------
// Numbers
// ---------------------------------------------------------------------------
pub open spec fn is_digit(c: char) -> bool {
    0x30 <= c as u32 <= 0x39
}

pub open spec fn all_digits(s: Seq<char>) -> bool {
    forall|i: int| 0 <= i < s.len() ==> is_digit(#[trigger] s[i])
}

/// The number that a sequence of decimal digits stands for.
pub open spec fn digits_value(s: Seq<char>) -> int
    decreases s.len(),
{
    if s.len() == 0 {
        0
    } else {
        digits_value(s.drop_last()) * 10 + (s.last() as u32 - 0x30)
    }
}

/// What Rust's `parse` makes of `s` for an unsigned type with the given maximum.
pub open spec fn unsigned_of(s: Seq<char>, max: int) -> Option<int> {
    let d = if s.len() > 0 && s[0] == '+' {
        s.skip(1)
    } else {
        s
    };
    if d.len() == 0 || !all_digits(d) || digits_value(d) > max {
        None
    } else {
        Some(digits_value(d))
    }
}

/// What Rust's `parse::<i32>` makes of `s`.
pub open spec fn i32_of(s: Seq<char>) -> Option<int> {
    let signed = s.len() > 0 && (s[0] == '+' || s[0] == '-');
    let d = if signed {
        s.skip(1)
    } else {
        s
    };
    let v = if signed && s[0] == '-' {
        -digits_value(d)
    } else {
        digits_value(d)
    };
    if d.len() == 0 || !all_digits(d) || v > i32::MAX || v < i32::MIN {
        None
    } else {
        Some(v)
    }
}

/// A prefix of digits stands for no larger a number than the whole.
pub proof fn lemma_digits_value_grows(s: Seq<char>, i: int)
    requires
        all_digits(s),
        0 <= i <= s.len(),
    ensures
        0 <= digits_value(s.take(i)) <= digits_value(s),
    decreases s.len() + i,
{
    if i < s.len() {
        assert(s.drop_last().take(i) == s.take(i));
        assert forall|j: int| 0 <= j < s.len() - 1 implies is_digit(#[trigger] s.drop_last()[j]) by {
            assert(s.drop_last()[j] == s[j]);
        }
        lemma_digits_value_grows(s.drop_last(), i);
    } else {
        assert(s.take(i) == s);
        if s.len() > 0 {
            assert forall|j: int| 0 <= j < s.len() - 1 implies is_digit(
                #[trigger] s.drop_last()[j],
            ) by {
                assert(s.drop_last()[j] == s[j]);
            }
            lemma_digits_value_grows(s.drop_last(), s.len() - 1);
            assert(s.drop_last().take(s.len() - 1) == s.drop_last());
        }
    }
}

pub fn digit(c: char) -> (r: bool)
    ensures
        r == is_digit(c),
{
    let u: u32 = c as u32;
    0x30 <= u && u <= 0x39
}

/// The value of a run of digits, if it is not empty and not above `max`.
pub fn digits(v: &[char], max: u64) -> (r: Option<u64>)
    ensures
        match r {
            Some(n) => v@.len() > 0 && all_digits(v@) && n == digits_value(v@) && n <= max,
            None => v@.len() == 0 || !all_digits(v@) || digits_value(v@) > max,
        },
{
    if v.len() == 0 {
        return None;
    }
    let mut n: u64 = 0;
    let mut i: usize = 0;
    while i < v.len()
        invariant
            i <= v.len(),
            n <= max,
            n == digits_value(v@.take(i as int)),
            all_digits(v@.take(i as int)),
        decreases v.len() - i,
    {
        if !digit(v[i]) {
            return None;
        }
        let wide: u128 = (n as u128) * 10 + ((v[i] as u32) - 0x30) as u128;
        let ghost t = v@.take(i + 1);
        assert(t.drop_last() == v@.take(i as int));
        assert(t.last() == v@[i as int]);
        assert(wide == digits_value(t));
        if wide > max as u128 {
            proof {
                if all_digits(v@) {
                    lemma_digits_value_grows(v@, i + 1);
                }
            }
            return None;
        }
        assert forall|j: int| 0 <= j < t.len() implies is_digit(#[trigger] t[j]) by {
            if j < i {
                assert(v@.take(i as int)[j] == t[j]);
            }
        }
        n = wide as u64;
        i += 1;
    }
    assert(v@.take(i as int) == v@);
    Some(n)
}

/// Whether a text holds digits only.
pub fn digits_only(s: &str) -> (r: bool)
    ensures
        r == all_digits(s@),
{
    let v = to_chars(s);
    let mut i: usize = 0;
    while i < v.len()
        invariant
            i <= v.len(),
            v@ == s@,
            forall|j: int| 0 <= j < i ==> is_digit(#[trigger] v@[j]),
        decreases v.len() - i,
    {
        if !digit(v[i]) {
            assert(!is_digit(s@[i as int]));
            return false;
        }
        i += 1;
    }
    true
}

/// Rust's `parse` for an unsigned type with the given maximum.
pub fn parse_unsigned(v: &[char], max: u64) -> (r: Option<u64>)
    ensures
        r is Some <==> unsigned_of(v@, max as int) is Some,
        r matches Some(n) ==> unsigned_of(v@, max as int) == Some(n as int) && n <= max,
{
    if v.len() > 0 && v[0] == '+' {
        let rest = vstd::slice::slice_subrange(v, 1, v.len());
        assert(rest@ == v@.skip(1));
        digits(rest, max)
    } else {
        digits(v, max)
    }
}

/// Rust's `parse::<i32>`.
pub fn parse_i32(v: &[char]) -> (r: Option<i32>)
    ensures
        r is Some <==> i32_of(v@) is Some,
        r matches Some(n) ==> i32_of(v@) == Some(n as int),
{
    if v.len() > 0 && (v[0] == '+' || v[0] == '-') {
        let rest = vstd::slice::slice_subrange(v, 1, v.len());
        assert(rest@ == v@.skip(1));
        if v[0] == '-' {
            match digits(rest, 0x8000_0000) {
                Some(n) => Some((0i64 - n as i64) as i32),
                None => None,
            }
        } else {
            match digits(rest, 0x7fff_ffff) {
                Some(n) => Some(n as i32),
                None => None,
            }
        }
    } else {
        match digits(v, 0x7fff_ffff) {
            Some(n) => Some(n as i32),
            None => None,
        }
    }
}

/// The character of a decimal digit.
pub open spec fn digit_char(d: int) -> char {
    (0x30 + d) as char
}

/// The decimal digits of a number.
pub open spec fn dec(n: int) -> Seq<char>
    decreases n,
{
    if n < 10 {
        seq![digit_char(n)]
    } else {
        dec(n / 10).push(digit_char(n % 10))
    }
}

/// A number in decimal.
pub fn decimal(n: u64) -> (r: String)
    ensures
        r@ == dec(n as int),
    decreases n,
{
    let mut r = if n < 10 {
        String::new()
    } else {
        decimal(n / 10)
    };
    let d: u8 = (n % 10) as u8;
    r.push((48 + d) as char);
    assert(n < 10 ==> r@ == seq![digit_char(n as int)]);
    r
}

/// A number written in decimal reads as that number.
pub proof fn lemma_decimal_reads_back(n: int)
    requires
        0 <= n,
    ensures
        all_digits(dec(n)),
        dec(n).len() > 0,
        digits_value(dec(n)) == n,
    decreases n,
{
    if n >= 10 {
        lemma_decimal_reads_back(n / 10);
        assert(dec(n).drop_last() == dec(n / 10));
    } else {
        assert(dec(n).drop_last() == Seq::<char>::empty());
        assert(digits_value(dec(n).drop_last()) == 0);
    }
}

/// A number in decimal, with a sign if it is negative.
pub open spec fn signed_dec(n: int) -> Seq<char> {
    if n < 0 {
        "-"@ + dec(-n)
    } else {
        dec(n)
    }
}

pub fn signed_decimal(n: i32) -> (r: String)
    ensures
        r@ == signed_dec(n as int),
{
    if n < 0 {
        let m: u64 = (-(n as i64)) as u64;
        let d = decimal(m);
        let mut r = "-".to_owned();
        r.append(d.as_str());
        r
    } else {
        decimal(n as u64)
    }
}

// ---------------------------------------------------------------------------
// Replacing
// ---------------------------------------------------------------------------
/// A text with each occurrence of a pattern replaced, from the left, without overlaps.
pub open spec fn replaced(s: Seq<char>, p: Seq<char>, by: Seq<char>) -> Seq<char>
    decreases s.len(),
    via replaced_decreases
{
    match crate::search::find(s, p) {
        Some(k) => if p.len() > 0 {
            s.take(k) + by + replaced(s.skip(k + p.len()), p, by)
        } else {
            s
        },
        None => s,
    }
}

#[via_fn]
proof fn replaced_decreases(s: Seq<char>, p: Seq<char>, by: Seq<char>) {
    crate::search::lemma_find_from(s, p, 0);
}

/// Rust's `str::replace` for a pattern that is not empty.
pub fn replace(s: &str, p: &str, by: &str) -> (r: String)
    requires
        p@.len() > 0,
    ensures
        r@ == replaced(s@, p@, by@),
{
    let v = to_chars(s);
    let pat = to_chars(p);
    let mut r = String::new();
    let mut start: usize = 0;
    assert(s@.skip(0) =~= s@);
    assert(r@ + replaced(s@, p@, by@) =~= replaced(s@, p@, by@));
    loop
        invariant
            v@ == s@,
            pat@ == p@,
            p@.len() > 0,
            start <= v.len(),
            r@ + replaced(s@.skip(start as int), p@, by@) == replaced(s@, p@, by@),
        decreases v.len() - start,
    {
        let rest = vstd::slice::slice_subrange(v.as_slice(), start, v.len());
        assert(rest@ =~= s@.skip(start as int));
        match crate::search::find_chars(rest, pat.as_slice()) {
            None => {
                let tail = from_chars(rest);
                r.append(tail.as_str());
                return r;
            },
            Some(k) => {
                let head = from_chars(vstd::slice::slice_subrange(rest, 0, k));
                let ghost before = r@;
                r.append(head.as_str());
                r.append(by);
                let next: usize = start + k + pat.len();
                proof {
                    let tail = replaced(s@.skip(next as int), p@, by@);
                    assert(head@ =~= rest@.take(k as int));
                    assert(rest@.skip(k + p@.len()) =~= s@.skip(next as int));
                    assert(before + (head@ + by@ + tail) =~= before + head@ + by@ + tail);
                }
                start = next;
            },
        }
    }
}

// ---------------------------------------------------------------------------
// Quoting
// ---------------------------------------------------------------------------
/// A text as Rust's `Debug` shows it: in double quotes, with escapes.
pub uninterp spec fn debug_of(s: Seq<char>) -> Seq<char>;

/// Calls std's `Debug` for `str`, through `format!`. Its result depends on the text alone.
#[verifier::external_body]
pub(crate) fn debug_text(s: &str) -> (r: String)
    ensures
        r@ == debug_of(s@),
{
    format!("{:?}", s)
}

/// Some texts as Rust's `Debug` shows a list of them.
pub open spec fn debug_list_of(items: Seq<Seq<char>>) -> Seq<char> {
    "["@ + join_of(Seq::new(items.len(), |i: int| debug_of(items[i])), ", "@) + "]"@
}

pub fn debug_list(items: &[String]) -> (r: String)
    ensures
        r@ == debug_list_of(texts(items@)),
{
    let mut shown: Vec<String> = Vec::new();
    let mut i: usize = 0;
    while i < items.len()
        invariant
            i <= items.len(),
            shown@.len() == i,
            forall|j: int| 0 <= j < i ==> (#[trigger] shown@[j])@ == debug_of(items@[j]@),
        decreases items.len() - i,
    {
        shown.push(debug_text(items[i].as_str()));
        i += 1;
    }
    assert(texts(shown@) =~= Seq::new(
        texts(items@).len(),
        |j: int| debug_of(texts(items@)[j]),
    ));
    let inner = join(shown.as_slice(), ", ");
    concat3("[", inner.as_str(), "]")
}

// ---------------------------------------------------------------------------
// What texts mean
// ---------------------------------------------------------------------------
/// The parts of a text joined give the text back, and none of them holds the separator.
pub proof fn law_split_parts_join_back(s: Seq<char>, c: char)
    ensures
        split_of(s, c).len() > 0,
        join_of(split_of(s, c), seq![c]) == s,
        forall|i: int| 0 <= i < split_of(s, c).len() ==> !(#[trigger] split_of(s, c)[i]).contains(c),
    decreases s.len(),
{
    crate::search::lemma_until(s, c);
    let n = crate::search::until(s, c);
    let parts = split_of(s, c);
    if n >= s.len() {
        assert(parts =~= seq![s]);
        if s.contains(c) {
            let i = choose|i: int| 0 <= i < s.len() && s[i] == c;
            assert(false);
        }
    } else {
        let head = s.take(n);
        let rest = s.skip(n + 1);
        law_split_parts_join_back(rest, c);
        let others = split_of(rest, c);
        if head.contains(c) {
            let i = choose|i: int| 0 <= i < head.len() && head[i] == c;
            assert(s[i] == c);
        }
        assert forall|i: int| 0 <= i < parts.len() implies !(#[trigger] parts[i]).contains(c) by {
            if i > 0 {
                assert(parts[i] == others[i - 1]);
            }
        }
        lemma_join_first(head, others, seq![c]);
        assert(s =~= head + seq![c] + rest);
    }
}

proof fn lemma_join_first(head: Seq<char>, others: Seq<Seq<char>>, separator: Seq<char>)
    requires
        others.len() > 0,
    ensures
        join_of(seq![head] + others, separator) == head + separator + join_of(others, separator),
    decreases others.len(),
{
    let all = seq![head] + others;
    assert(all.drop_last() =~= seq![head] + others.drop_last());
    assert(all.last() == others.last());
    if others.len() == 1 {
        assert(all.drop_last() =~= seq![head]);
        assert(join_of(seq![head], separator) == head);
    } else {
        lemma_join_first(head, others.drop_last(), separator);
        assert(join_of(all, separator) =~= head + separator + join_of(others, separator));
    }
}

/// A number is read back from its decimal digits, with or without a sign in front, as far as
/// the type holds it.
pub proof fn law_numbers_read_back(n: int, max: int)
    requires
        0 <= n,
    ensures
        ({
            let bare = dec(n);
            let plus = seq!['+'] + dec(n);
            let minus = seq!['-'] + dec(n);
            let unsigned = if n <= max {
                Some(n)
            } else {
                None
            };
            let signed = |m: int|
                if i32::MIN <= m <= i32::MAX {
                    Some(m)
                } else {
                    None
                };
            &&& unsigned_of(bare, max) == unsigned
            &&& unsigned_of(plus, max) == unsigned
            &&& unsigned_of(minus, max) is None
            &&& i32_of(bare) == signed(n)
            &&& i32_of(plus) == signed(n)
            &&& i32_of(minus) == signed(-n)
        }),
{
    lemma_decimal_reads_back(n);
    let bare = dec(n);
    assert(is_digit(bare[0]));
    assert((seq!['+'] + bare).skip(1) =~= bare);
    assert((seq!['-'] + bare).skip(1) =~= bare);
    let minus = seq!['-'] + bare;
    assert(minus[0] == '-');
    assert(!is_digit(minus[0]));
}

/// A text that holds anything but digits behind its sign is no number, and an empty one is none.
pub proof fn law_other_texts_are_no_numbers(s: Seq<char>, i: int, max: int)
    requires
        1 <= i < s.len(),
        !is_digit(s[i]),
    ensures
        unsigned_of(s, max) is None,
        i32_of(s) is None,
        unsigned_of(Seq::empty(), max) is None,
        i32_of(Seq::empty()) is None,
        unsigned_of(seq!['+'], max) is None,
        i32_of(seq!['-']) is None,
{
    assert(s.skip(1)[i - 1] == s[i]);
    assert(seq!['+'].skip(1) =~= Seq::<char>::empty());
    assert(seq!['-'].skip(1) =~= Seq::<char>::empty());
}

/// A text begins with another one where it is that one with something behind it, and ends with
/// it where it is that one with something in front.
pub proof fn law_beginnings_and_ends(a: Seq<char>, b: Seq<char>, s: Seq<char>)
    ensures
        begins(a + b, a),
        ends(a + b, b),
        begins(s, a) ==> s == a + s.skip(a.len() as int),
        ends(s, b) ==> s == s.take(s.len() - b.len()) + b,
        holds(a + s + b, s),
{
    assert((a + b).subrange(0, a.len() as int) =~= a);
    assert((a + b).subrange(a.len() as int, (a + b).len() as int) =~= b);
    if begins(s, a) {
        assert(s =~= s.subrange(0, a.len() as int) + s.skip(a.len() as int));
    }
    if ends(s, b) {
        assert(s =~= s.take(s.len() - b.len()) + s.subrange(s.len() - b.len(), s.len() as int));
    }
    let all = a + s + b;
    let k = a.len() as int;
    assert(all.subrange(k, k + s.len()) =~= s);
    assert(crate::search::occurs_at(all, s, k));
    crate::search::lemma_find_from(all, s, 0);
}

/// Each first occurrence of a pattern is replaced and the text around it stays.
pub proof fn law_patterns_are_replaced(
    before: Seq<char>,
    p: Seq<char>,
    behind: Seq<char>,
    by: Seq<char>,
)
    requires
        p.len() > 0,
        crate::search::find(before + p + behind, p) == Some(before.len() as int),
    ensures
        replaced(before + p + behind, p, by) == before + by + replaced(behind, p, by),
        forall|s: Seq<char>| !holds(s, p) ==> #[trigger] replaced(s, p, by) == s,
{
    let s = before + p + behind;
    assert(s.take(before.len() as int) =~= before);
    assert(s.skip(before.len() as int + p.len()) =~= behind);
}

} // verus!
