//! First and last occurrences in sequences.
use vstd::prelude::*;

verus! {

/// `p` occurs in `s` at index `i`.
pub open spec fn occurs_at<T>(s: Seq<T>, p: Seq<T>, i: int) -> bool {
    0 <= i && i + p.len() <= s.len() && s.subrange(i, i + p.len()) == p
}

/// The first index, not below `i`, at which `p` occurs in `s`.
pub open spec fn find_from<T>(s: Seq<T>, p: Seq<T>, i: int) -> Option<int>
    decreases s.len() - i + 1,
{
    if i < 0 || i + p.len() > s.len() {
        None
    } else if s.subrange(i, i + p.len()) == p {
        Some(i)
    } else {
        find_from(s, p, i + 1)
    }
}

/// The first index at which `p` occurs in `s`.
pub open spec fn find<T>(s: Seq<T>, p: Seq<T>) -> Option<int> {
    find_from(s, p, 0)
}

/// What `find_from` returns is an occurrence, no earlier one lies behind `i`,
/// and `None` means that there is none.
pub proof fn lemma_find_from<T>(s: Seq<T>, p: Seq<T>, i: int)
    requires
        0 <= i,
    ensures
        match find_from(s, p, i) {
            Some(k) => i <= k && occurs_at(s, p, k) && (forall|j: int|
                i <= j < k ==> !occurs_at(s, p, j)),
            None => forall|j: int| i <= j ==> !occurs_at(s, p, j),
        },
    decreases s.len() - i + 1,
{
    if i + p.len() > s.len() {
    } else if s.subrange(i, i + p.len()) == p {
        assert(occurs_at(s, p, i));
    } else {
        lemma_find_from(s, p, i + 1);
        assert(!occurs_at(s, p, i));
    }
}

/// The first place at which a pattern stands is the one that is found.
pub proof fn lemma_find_is<T>(s: Seq<T>, p: Seq<T>, k: int)
    requires
        occurs_at(s, p, k),
        forall|j: int| 0 <= j < k ==> !#[trigger] occurs_at(s, p, j),
    ensures
        find(s, p) == Some(k),
{
    lemma_find_from(s, p, 0);
}

/// How many elements stand before the first `c` (all of them if there is none).
pub open spec fn until<T>(s: Seq<T>, c: T) -> int
    decreases s.len(),
{
    if s.len() == 0 || s[0] == c {
        0
    } else {
        1 + until(s.skip(1), c)
    }
}

pub proof fn lemma_until<T>(s: Seq<T>, c: T)
    ensures
        0 <= until(s, c) <= s.len(),
        forall|j: int| 0 <= j < until(s, c) ==> s[j] != c,
        until(s, c) < s.len() ==> s[until(s, c)] == c,
    decreases s.len(),
{
    if s.len() > 0 && s[0] != c {
        lemma_until(s.skip(1), c);
        let n = until(s.skip(1), c);
        assert forall|j: int| 0 <= j < until(s, c) implies s[j] != c by {
            if j > 0 {
                assert(s.skip(1)[j - 1] == s[j]);
            }
        }
        if n < s.skip(1).len() {
            assert(s.skip(1)[n] == s[n + 1]);
        }
    }
}

pub proof fn lemma_until_is<T>(s: Seq<T>, c: T, n: int)
    requires
        0 <= n <= s.len(),
        forall|j: int| 0 <= j < n ==> s[j] != c,
        n < s.len() ==> s[n] == c,
    ensures
        until(s, c) == n,
{
    lemma_until(s, c);
    if until(s, c) < n {
        assert(s[until(s, c)] == c);
    }
}

/// The index of the last `c`, or -1.
pub open spec fn last_index<T>(s: Seq<T>, c: T) -> int
    decreases s.len(),
{
    if s.len() == 0 {
        -1
    } else if s.last() == c {
        s.len() - 1
    } else {
        last_index(s.drop_last(), c)
    }
}

pub proof fn lemma_last_index<T>(s: Seq<T>, c: T)
    ensures
        -1 <= last_index(s, c) < s.len(),
        last_index(s, c) >= 0 ==> s[last_index(s, c)] == c,
        forall|j: int| last_index(s, c) < j < s.len() ==> s[j] != c,
    decreases s.len(),
{
    if s.len() > 0 && s.last() != c {
        lemma_last_index(s.drop_last(), c);
        assert forall|j: int| last_index(s, c) < j < s.len() implies s[j] != c by {
            if j < s.len() - 1 {
                assert(s.drop_last()[j] == s[j]);
            }
        }
    }
}

pub proof fn lemma_last_index_is<T>(s: Seq<T>, c: T, n: int)
    requires
        -1 <= n < s.len(),
        n >= 0 ==> s[n] == c,
        forall|j: int| n < j < s.len() ==> s[j] != c,
    ensures
        last_index(s, c) == n,
{
    lemma_last_index(s, c);
}

/// Whether `needle` occurs in `s` at `i`.
pub fn bytes_at(s: &[u8], needle: &[u8], i: usize) -> (r: bool)
    requires
        i <= s.len(),
    ensures
        r == occurs_at(s@, needle@, i as int),
{
    if needle.len() > s.len() - i {
        return false;
    }
    let mut j: usize = 0;
    while j < needle.len()
        invariant
            j <= needle.len(),
            i + needle.len() <= s.len(),
            forall|k: int| 0 <= k < j ==> s@[i + k] == needle@[k],
        decreases needle.len() - j,
    {
        if s[i + j] != needle[j] {
            assert(s@.subrange(i as int, i + needle.len())[j as int] != needle@[j as int]);
            return false;
        }
        j += 1;
    }
    assert(s@.subrange(i as int, i + needle.len()) == needle@);
    true
}

/// The first occurrence of `needle` in `s` at or behind `start`.
pub fn find_bytes_from(s: &[u8], needle: &[u8], start: usize) -> (r: Option<usize>)
    requires
        start <= s.len(),
    ensures
        r is Some <==> find_from(s@, needle@, start as int) is Some,
        r matches Some(k) ==> find_from(s@, needle@, start as int) == Some(k as int) && start <= k
            && k + needle.len() <= s.len(),
{
    let mut i: usize = start;
    while i < s.len() && needle.len() <= s.len() - i
        invariant
            start <= i <= s.len(),
            find_from(s@, needle@, start as int) == find_from(s@, needle@, i as int),
        decreases s.len() - i,
    {
        if bytes_at(s, needle, i) {
            return Some(i);
        }
        i += 1;
    }
    if needle.len() == 0 {
        assert(s@.subrange(i as int, i + needle.len()) == needle@);
        return Some(i);
    }
    None
}

/// The first index of `c`, or the length.
pub fn bytes_until(s: &[u8], c: u8) -> (r: usize)
    ensures
        r == until(s@, c),
        r <= s.len(),
{
    let mut i: usize = 0;
    while i < s.len() && s[i] != c
        invariant
            i <= s.len(),
            forall|j: int| 0 <= j < i ==> s@[j] != c,
        decreases s.len() - i,
    {
        i += 1;
    }
    proof {
        lemma_until_is(s@, c, i as int);
    }
    i
}

/// The index behind the last `c`, or 0.
pub fn bytes_after_last(s: &[u8], c: u8) -> (r: usize)
    ensures
        r == last_index(s@, c) + 1,
        r <= s.len(),
{
    let mut i: usize = s.len();
    while i > 0 && s[i - 1] != c
        invariant
            i <= s.len(),
            forall|j: int| i <= j < s.len() ==> s@[j] != c,
        decreases i,
    {
        i -= 1;
    }
    proof {
        lemma_last_index_is(s@, c, i - 1);
    }
    i
}

/// Whether `needle` occurs in `s` at `i`.
pub fn chars_at(s: &[char], needle: &[char], i: usize) -> (r: bool)
    requires
        i <= s.len(),
    ensures
        r == occurs_at(s@, needle@, i as int),
{
    if needle.len() > s.len() - i {
        return false;
    }
    let mut j: usize = 0;
    while j < needle.len()
        invariant
            j <= needle.len(),
            i + needle.len() <= s.len(),
            forall|k: int| 0 <= k < j ==> s@[i + k] == needle@[k],
        decreases needle.len() - j,
    {
        if s[i + j] != needle[j] {
            assert(s@.subrange(i as int, i + needle.len())[j as int] != needle@[j as int]);
            return false;
        }
        j += 1;
    }
    assert(s@.subrange(i as int, i + needle.len()) == needle@);
    true
}

/// The first occurrence of `needle` in `s`.
pub fn find_chars(s: &[char], needle: &[char]) -> (r: Option<usize>)
    ensures
        r is Some <==> find(s@, needle@) is Some,
        r matches Some(k) ==> find(s@, needle@) == Some(k as int) && k + needle.len() <= s.len(),
{
    let mut i: usize = 0;
    while i < s.len() && needle.len() <= s.len() - i
        invariant
            i <= s.len(),
            find(s@, needle@) == find_from(s@, needle@, i as int),
        decreases s.len() - i,
    {
        if chars_at(s, needle, i) {
            return Some(i);
        }
        i += 1;
    }
    if needle.len() == 0 {
        assert(s@.subrange(i as int, i + needle.len()) == needle@);
        return Some(i);
    }
    None
}

/// The first index of `c`, or the length.
pub fn chars_until(s: &[char], c: char) -> (r: usize)
    ensures
        r == until(s@, c),
        r <= s.len(),
{
    let mut i: usize = 0;
    while i < s.len() && s[i] != c
        invariant
            i <= s.len(),
            forall|j: int| 0 <= j < i ==> s@[j] != c,
        decreases s.len() - i,
    {
        i += 1;
    }
    proof {
        lemma_until_is(s@, c, i as int);
    }
    i
}

/// The index behind the last `c`, or 0.
pub fn chars_after_last(s: &[char], c: char) -> (r: usize)
    ensures
        r == last_index(s@, c) + 1,
        r <= s.len(),
{
    let mut i: usize = s.len();
    while i > 0 && s[i - 1] != c
        invariant
            i <= s.len(),
            forall|j: int| i <= j < s.len() ==> s@[j] != c,
        decreases i,
    {
        i -= 1;
    }
    proof {
        lemma_last_index_is(s@, c, i - 1);
    }
    i
}

/// A pattern occurs where the sequence can be taken apart into what stands before it, the
/// pattern and what follows.
pub proof fn law_occurrences_take_a_sequence_apart<T>(before: Seq<T>, p: Seq<T>, behind: Seq<T>)
    ensures
        occurs_at(before + p + behind, p, before.len() as int),
        forall|s: Seq<T>, i: int| #[trigger]
            occurs_at(s, p, i) ==> 0 <= i <= s.len() - p.len() && s == s.take(i) + p + s.skip(
                i + p.len(),
            ),
{
    let all = before + p + behind;
    let k = before.len() as int;
    assert(all.subrange(k, k + p.len()) =~= p);
    assert forall|s: Seq<T>, i: int| #[trigger] occurs_at(s, p, i) implies 0 <= i <= s.len()
        - p.len() && s == s.take(i) + p + s.skip(i + p.len()) by {
        assert(s =~= s.take(i) + s.subrange(i, i + p.len()) + s.skip(i + p.len()));
    }
}

} // verus!
