//! Short vectors.
use vstd::prelude::*;

verus! {

pub fn one<A>(a: A) -> (r: Vec<A>)
    ensures
        r@ == seq![a],
{
    let mut r: Vec<A> = Vec::new();
    r.push(a);
    r
}

pub fn two<A>(a: A, b: A) -> (r: Vec<A>)
    ensures
        r@ == seq![a, b],
{
    let mut r: Vec<A> = Vec::new();
    r.push(a);
    r.push(b);
    r
}

pub fn three<A>(a: A, b: A, c: A) -> (r: Vec<A>)
    ensures
        r@ == seq![a, b, c],
{
    let mut r: Vec<A> = Vec::new();
    r.push(a);
    r.push(b);
    r.push(c);
    r
}

pub fn five<A>(a: A, b: A, c: A, d: A, e: A) -> (r: Vec<A>)
    ensures
        r@ == seq![a, b, c, d, e],
{
    let mut r: Vec<A> = Vec::new();
    r.push(a);
    r.push(b);
    r.push(c);
    r.push(d);
    r.push(e);
    r
}

/// The views of the elements of a sequence.
pub open spec fn views<A: View>(v: Seq<A>) -> Seq<A::V> {
    Seq::new(v.len(), |i: int| v[i]@)
}

/// The concatenation of some byte sequences.
pub open spec fn flat(pieces: Seq<Seq<u8>>) -> Seq<u8>
    decreases pieces.len(),
{
    if pieces.len() == 0 {
        Seq::empty()
    } else {
        flat(pieces.drop_last()) + pieces.last()
    }
}

/// None or one, as a list.
pub open spec fn as_list<B>(o: Option<B>) -> Seq<B> {
    match o {
        Some(b) => seq![b],
        None => Seq::empty(),
    }
}

/// What `f` picks out of the elements of a sequence, in order.
pub open spec fn picked<A, B>(s: Seq<A>, f: spec_fn(A) -> Option<B>) -> Seq<B>
    decreases s.len(),
{
    if s.len() == 0 {
        Seq::empty()
    } else {
        picked(s.drop_last(), f) + as_list(f(s.last()))
    }
}

/// The elements of a sequence before the first that ends it.
pub open spec fn before_end<A>(s: Seq<A>, ends: spec_fn(A) -> bool) -> Seq<A>
    decreases s.len(),
{
    if s.len() == 0 {
        Seq::empty()
    } else {
        let before = before_end(s.drop_last(), ends);
        if before.len() == s.len() - 1 && !ends(s.last()) {
            before.push(s.last())
        } else {
            before
        }
    }
}

/// The first element that ends a sequence.
pub open spec fn first_end<A>(s: Seq<A>, ends: spec_fn(A) -> bool) -> Option<A> {
    let n = before_end(s, ends).len() as int;
    if n < s.len() {
        Some(s[n])
    } else {
        None
    }
}

pub proof fn lemma_before_end<A>(s: Seq<A>, ends: spec_fn(A) -> bool)
    ensures
        before_end(s, ends).len() <= s.len(),
        before_end(s, ends) == s.take(before_end(s, ends).len() as int),
        forall|i: int| 0 <= i < before_end(s, ends).len() ==> !ends(#[trigger] s[i]),
        first_end(s, ends) matches Some(a) ==> ends(a),
    decreases s.len(),
{
    if s.len() > 0 {
        let init = s.drop_last();
        lemma_before_end(init, ends);
        let before = before_end(init, ends);
        assert forall|i: int| 0 <= i < before.len() implies !ends(#[trigger] s[i]) by {
            assert(init[i] == s[i]);
        }
        assert(before =~= s.take(before.len() as int));
        if before.len() == init.len() {
            assert(s[init.len() as int] == s.last());
            assert(before_end(s, ends) =~= s.take(before_end(s, ends).len() as int));
        } else {
            assert(init[before.len() as int] == s[before.len() as int]);
            assert(first_end(init, ends) == first_end(s, ends));
        }
    }
}

pub proof fn lemma_picked_add<A, B>(a: Seq<A>, b: Seq<A>, f: spec_fn(A) -> Option<B>)
    ensures
        picked(a + b, f) == picked(a, f) + picked(b, f),
    decreases b.len(),
{
    if b.len() == 0 {
        assert(a + b =~= a);
        assert(picked(a, f) + picked(b, f) =~= picked(a, f));
    } else {
        lemma_picked_add(a, b.drop_last(), f);
        assert((a + b).drop_last() =~= a + b.drop_last());
        assert((a + b).last() == b.last());
        assert(picked(a + b, f) =~= picked(a, f) + picked(b, f));
    }
}

/// What is picked out of a sequence of at most five elements.
pub proof fn lemma_picked_few<A, B>(s: Seq<A>, f: spec_fn(A) -> Option<B>)
    requires
        s.len() <= 5,
    ensures
        s.len() == 0 ==> picked(s, f) == Seq::<B>::empty(),
        s.len() == 1 ==> picked(s, f) == as_list(f(s[0])),
        s.len() == 2 ==> picked(s, f) == as_list(f(s[0])) + as_list(f(s[1])),
        s.len() == 3 ==> picked(s, f) == as_list(f(s[0])) + as_list(f(s[1])) + as_list(f(s[2])),
        s.len() == 4 ==> picked(s, f) == as_list(f(s[0])) + as_list(f(s[1])) + as_list(f(s[2]))
            + as_list(f(s[3])),
        s.len() == 5 ==> picked(s, f) == as_list(f(s[0])) + as_list(f(s[1])) + as_list(f(s[2]))
            + as_list(f(s[3])) + as_list(f(s[4])),
    decreases s.len(),
{
    if s.len() > 0 {
        let init = s.drop_last();
        lemma_picked_few(init, f);
        assert(forall|i: int| 0 <= i < init.len() ==> init[i] == s[i]);
        if s.len() == 1 {
            assert(picked(s, f) =~= as_list(f(s[0])));
        }
    }
}

/// How many pieces of a size some bytes make.
pub open spec fn piece_count(len: int, size: int) -> int {
    (len + size - 1) / size
}

/// The pieces make up the data. All are of the size but the last one, which may be shorter.
pub open spec fn cut_into(data: Seq<u8>, pieces: Seq<Seq<u8>>, size: int) -> bool {
    &&& flat(pieces) == data
    &&& pieces.len() == piece_count(data.len() as int, size)
    &&& forall|i: int|
        0 <= i < pieces.len() ==> 0 < (#[trigger] pieces[i]).len() <= size && (i < pieces.len() - 1
            ==> pieces[i].len() == size)
}

/// Bytes in pieces of a size; the last one may be shorter.
#[verifier::loop_isolation(false)]
pub fn chunks(data: &[u8], size: usize) -> (r: Vec<Vec<u8>>)
    requires
        size > 0,
    ensures
        cut_into(data@, views(r@), size as int),
{
    let mut r: Vec<Vec<u8>> = Vec::new();
    let mut start: usize = 0;
    proof {
        assert(views(r@) =~= Seq::<Seq<u8>>::empty());
        assert(data@.take(0) =~= Seq::<u8>::empty());
        assert(piece_count(0, size as int) == 0) by (nonlinear_arith)
            requires
                size > 0,
                piece_count(0, size as int) == (0 + size - 1) / (size as int),
        ;
    }
    while start < data.len()
        invariant
            start <= data.len(),
            r@.len() == piece_count(start as int, size as int),
            start < data.len() ==> start == r@.len() * size,
            flat(views(r@)) == data@.take(start as int),
            forall|i: int|
                0 <= i < r@.len() ==> 0 < (#[trigger] r@[i])@.len() <= size && (i < r@.len() - 1
                    || start < data.len() ==> r@[i]@.len() == size),
        decreases data.len() - start,
    {
        let left: usize = data.len() - start;
        let n: usize = if left < size {
            left
        } else {
            size
        };
        let piece = crate::sentinel::copy_range(data, start, start + n);
        let ghost before = views(r@);
        let ghost count = r@.len() as int;
        r.push(piece);
        proof {
            assert(views(r@) =~= before.push(piece@));
            assert(views(r@).drop_last() =~= before);
            assert(data@.take(start as int) + piece@ =~= data@.take(start + n));
            assert(piece_count(start + n, size as int) == count + 1) by (nonlinear_arith)
                requires
                    start == count * size,
                    0 < n <= size,
                    size > 0,
                    piece_count(start + n, size as int) == (start + n + size - 1) / (size as int),
            {
                assert(start + n + size - 1 == (count + 1) * size + (n - 1));
                vstd::arithmetic::div_mod::lemma_fundamental_div_mod_converse(
                    start + n + size - 1,
                    size as int,
                    count + 1,
                    n - 1,
                );
            }
            assert(n == size ==> start + n == (count + 1) * size) by (nonlinear_arith)
                requires
                    start == count * size,
            ;
        }
        start = start + n;
    }
    assert(data@.take(start as int) =~= data@);
    assert forall|i: int| 0 <= i < views(r@).len() implies 0 < (#[trigger] views(r@)[i]).len()
        <= size && (i < views(r@).len() - 1 ==> views(r@)[i].len() == size) by {
        assert(views(r@)[i] == r@[i]@);
    }
    r
}

} // verus!
