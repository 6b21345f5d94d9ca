//! A small map: a list of entries with distinct keys.
use crate::text::same;
use vstd::prelude::*;

verus! {

/// What a map can be keyed by.
pub trait Key: View + Sized {
    /// Whether two keys are the same.
    fn same_key(&self, other: &Self) -> (r: bool)
        ensures
            r == (self@ == other@),
    ;

    /// Another copy of the key.
    fn copy_key(&self) -> (r: Self)
        ensures
            r@ == self@,
    ;
}

impl Key for String {
    fn same_key(&self, other: &Self) -> (r: bool) {
        same(self.as_str(), other.as_str())
    }

    fn copy_key(&self) -> (r: Self) {
        self.clone()
    }
}

impl Key for u32 {
    fn same_key(&self, other: &Self) -> (r: bool) {
        *self == *other
    }

    fn copy_key(&self) -> (r: Self) {
        *self
    }
}

/// A map from keys to values.
pub struct Assoc<K: Key, V> {
    items: Vec<(K, V)>,
}

/// The first index of a key, or the length.
spec fn index_of<K: Key, V>(items: Seq<(K, V)>, k: K::V) -> int
    decreases items.len(),
{
    if items.len() == 0 || items[0].0@ == k {
        0
    } else {
        1 + index_of(items.skip(1), k)
    }
}

proof fn lemma_index_of<K: Key, V>(items: Seq<(K, V)>, k: K::V)
    ensures
        0 <= index_of(items, k) <= items.len(),
        forall|j: int| 0 <= j < index_of(items, k) ==> (#[trigger] items[j]).0@ != k,
        index_of(items, k) < items.len() ==> items[index_of(items, k)].0@ == k,
    decreases items.len(),
{
    if items.len() > 0 && items[0].0@ != k {
        let rest = items.skip(1);
        lemma_index_of(rest, k);
        assert forall|j: int| 0 <= j < index_of(items, k) implies (#[trigger] items[j]).0@ != k by {
            if j > 0 {
                assert(rest[j - 1] == items[j]);
            }
        }
        if index_of(rest, k) < rest.len() {
            assert(rest[index_of(rest, k)] == items[index_of(items, k)]);
        }
    }
}

/// No two entries have the same key.
spec fn distinct<K: Key, V>(items: Seq<(K, V)>) -> bool {
    forall|i: int, j: int| 0 <= i < j < items.len() ==> (#[trigger] items[i]).0@ != (
    #[trigger] items[j]).0@
}

proof fn lemma_index_is<K: Key, V>(items: Seq<(K, V)>, i: int)
    requires
        distinct(items),
        0 <= i < items.len(),
    ensures
        index_of(items, items[i].0@) == i,
{
    lemma_index_of(items, items[i].0@);
}

/// The map that a list of entries stands for.
spec fn map_of<K: Key, V>(items: Seq<(K, V)>) -> Map<K::V, V> {
    Map::new(
        |k: K::V| index_of(items, k) < items.len(),
        |k: K::V| items[index_of(items, k)].1,
    )
}

proof fn lemma_index_push<K: Key, V>(items: Seq<(K, V)>, item: (K, V), k: K::V)
    requires
        index_of(items, item.0@) >= items.len(),
    ensures
        index_of(items, k) < items.len() ==> index_of(items.push(item), k) == index_of(items, k)
            && k != item.0@,
        index_of(items, k) >= items.len() ==> index_of(items.push(item), k) == if k == item.0@ {
            items.len() as int
        } else {
            (items.len() + 1) as int
        },
{
    let after = items.push(item);
    lemma_index_of(items, k);
    lemma_index_of(after, k);
    let i = index_of(items, k);
    let j = index_of(after, k);
    assert(after[items.len() as int] == item);
    if j < items.len() {
        assert(after[j] == items[j]);
    }
    if i < items.len() {
        assert(after[i] == items[i]);
    }
}

proof fn lemma_map_push<K: Key, V>(items: Seq<(K, V)>, item: (K, V))
    requires
        distinct(items),
        index_of(items, item.0@) >= items.len(),
    ensures
        distinct(items.push(item)),
        map_of(items.push(item)) == map_of(items).insert(item.0@, item.1),
{
    let after = items.push(item);
    lemma_index_of(items, item.0@);
    let left = map_of(after);
    let right = map_of(items).insert(item.0@, item.1);
    assert forall|k: K::V| #[trigger] left.dom().contains(k) == right.dom().contains(k) by {
        lemma_index_push(items, item, k);
    }
    assert forall|k: K::V| left.dom().contains(k) implies #[trigger] left[k] == right[k] by {
        lemma_index_of(items, k);
        lemma_index_push(items, item, k);
    }
    assert(left =~= right);
}

proof fn lemma_index_remove<K: Key, V>(items: Seq<(K, V)>, i: int, k: K::V)
    requires
        distinct(items),
        0 <= i < items.len(),
    ensures
        ({
            let a = index_of(items, k);
            let b = index_of(items.remove(i), k);
            &&& 0 <= a
            &&& 0 <= b
            &&& a == i <==> items[i].0@ == k
            &&& if a == i || a >= items.len() {
                b >= items.len() - 1
            } else {
                b < items.len() - 1 && items.remove(i)[b] == items[a]
            }
        }),
{
    let after = items.remove(i);
    lemma_index_of(items, k);
    lemma_index_of(after, k);
    lemma_index_is(items, i);
    let a = index_of(items, k);
    let b = index_of(after, k);
    if b < after.len() {
        let p = if b < i {
            b
        } else {
            b + 1
        };
        assert(after[b] == items[p]);
        lemma_index_is(items, p);
    }
    if a < items.len() && a != i {
        let q = if a < i {
            a
        } else {
            a - 1
        };
        assert(after[q] == items[a]);
    }
}

proof fn lemma_map_remove<K: Key, V>(items: Seq<(K, V)>, i: int)
    requires
        distinct(items),
        0 <= i < items.len(),
    ensures
        distinct(items.remove(i)),
        map_of(items.remove(i)) == map_of(items).remove(items[i].0@),
{
    let after = items.remove(i);
    let gone = items[i].0@;
    assert forall|p: int, q: int| 0 <= p < q < after.len() implies (#[trigger] after[p]).0@ != (
    #[trigger] after[q]).0@ by {
        let a = if p < i {
            p
        } else {
            p + 1
        };
        let b = if q < i {
            q
        } else {
            q + 1
        };
        assert(after[p] == items[a]);
        assert(after[q] == items[b]);
    }
    let left = map_of(after);
    let right = map_of(items).remove(gone);
    assert forall|k: K::V| #[trigger] left.dom().contains(k) == right.dom().contains(k) by {
        lemma_index_remove(items, i, k);
    }
    assert forall|k: K::V| left.dom().contains(k) implies #[trigger] left[k] == right[k] by {
        lemma_index_remove(items, i, k);
    }
    assert(left =~= right);
}

impl<K: Key, V> View for Assoc<K, V> {
    type V = Map<K::V, V>;

    closed spec fn view(&self) -> Map<K::V, V> {
        map_of(self.items@)
    }
}

impl<K: Key, V> Assoc<K, V> {
    pub closed spec fn wf(&self) -> bool {
        distinct(self.items@)
    }

    /// The entries in their order.
    pub closed spec fn list(&self) -> Seq<(K, V)> {
        self.items@
    }

    pub fn new() -> (r: Self)
        ensures
            r.wf(),
            r@ == Map::<K::V, V>::empty(),
            r.list().len() == 0,
    {
        let r = Assoc { items: Vec::new() };
        assert(r@ =~= Map::<K::V, V>::empty());
        r
    }

    fn position(&self, key: &K) -> (r: usize)
        ensures
            r == index_of(self.items@, key@),
    {
        let mut i: usize = 0;
        while i < self.items.len() && !self.items[i].0.same_key(key)
            invariant
                i <= self.items.len(),
                forall|j: int| 0 <= j < i ==> (#[trigger] self.items@[j]).0@ != key@,
            decreases self.items.len() - i,
        {
            i += 1;
        }
        proof {
            lemma_index_of(self.items@, key@);
        }
        i
    }

    pub fn contains(&self, key: &K) -> (r: bool)
        ensures
            r == self@.dom().contains(key@),
    {
        self.position(key) < self.items.len()
    }

    pub fn get(&self, key: &K) -> (r: Option<&V>)
        ensures
            match r {
                Some(v) => self@.dom().contains(key@) && *v == self@[key@],
                None => !self@.dom().contains(key@),
            },
    {
        let i: usize = self.position(key);
        if i < self.items.len() {
            Some(&self.items[i].1)
        } else {
            None
        }
    }

    /// Remove the entry of a key.
    pub fn take(&mut self, key: &K) -> (r: Option<V>)
        requires
            old(self).wf(),
        ensures
            final(self).wf(),
            final(self)@ == old(self)@.remove(key@),
            match r {
                Some(v) => old(self)@.dom().contains(key@) && v == old(self)@[key@],
                None => !old(self)@.dom().contains(key@),
            },
    {
        let i: usize = self.position(key);
        proof {
            lemma_index_of(self.items@, key@);
        }
        if i < self.items.len() {
            proof {
                lemma_map_remove(self.items@, i as int);
            }
            let (_, v) = self.items.remove(i);
            Some(v)
        } else {
            assert(self@.remove(key@) =~= self@);
            None
        }
    }

    /// Set the value of a key.
    pub fn put(&mut self, key: K, value: V)
        requires
            old(self).wf(),
        ensures
            final(self).wf(),
            final(self)@ == old(self)@.insert(key@, value),
    {
        let _ = self.take(&key);
        let ghost mid = self@;
        proof {
            lemma_index_of(self.items@, key@);
            assert(!mid.dom().contains(key@));
            lemma_map_push(self.items@, (key, value));
        }
        self.items.push((key, value));
        assert(self@ =~= old(self)@.insert(key@, value));
    }

    /// Add the value of a key that is not there yet, behind the others.
    pub fn add_new(&mut self, key: K, value: V)
        requires
            old(self).wf(),
            !old(self)@.dom().contains(key@),
        ensures
            final(self).wf(),
            final(self)@ == old(self)@.insert(key@, value),
            final(self).list() == old(self).list().push((key, value)),
    {
        proof {
            lemma_index_of(self.items@, key@);
            lemma_map_push(self.items@, (key, value));
        }
        self.items.push((key, value));
    }

    pub fn len(&self) -> (r: usize)
        ensures
            r == self.list().len(),
    {
        self.items.len()
    }

    /// The entry at an index.
    pub fn at(&self, i: usize) -> (r: &(K, V))
        requires
            i < self.list().len(),
        ensures
            *r == self.list()[i as int],
    {
        &self.items[i]
    }

    /// Take the first entry.
    pub fn take_first(&mut self) -> (r: Option<(K, V)>)
        requires
            old(self).wf(),
        ensures
            final(self).wf(),
            match r {
                Some(item) => {
                    &&& old(self).list().len() > 0
                    &&& item == old(self).list()[0]
                    &&& final(self).list() == old(self).list().skip(1)
                    &&& old(self)@.dom().contains(item.0@)
                    &&& old(self)@[item.0@] == item.1
                    &&& final(self)@ == old(self)@.remove(item.0@)
                },
                None => {
                    &&& old(self).list().len() == 0
                    &&& final(self).list() == old(self).list()
                    &&& final(self)@ == old(self)@
                    &&& final(self)@ == Map::<K::V, V>::empty()
                },
            },
    {
        if self.items.len() == 0 {
            assert(self@ =~= Map::<K::V, V>::empty());
            return None;
        }
        proof {
            lemma_map_remove(self.items@, 0);
            lemma_index_is(self.items@, 0);
            assert(self.items@.remove(0) =~= self.items@.skip(1));
        }
        Some(self.items.remove(0))
    }

    /// Every entry of the list is in the map.
    pub proof fn lemma_listed(&self, i: int)
        requires
            self.wf(),
            0 <= i < self.list().len(),
        ensures
            self@.dom().contains(self.list()[i].0@),
            self@[self.list()[i].0@] == self.list()[i].1,
    {
        lemma_index_is(self.items@, i);
    }

    /// Every key of the map is in the list.
    pub proof fn lemma_key_listed(&self, k: K::V) -> (i: int)
        requires
            self@.dom().contains(k),
        ensures
            0 <= i < self.list().len(),
            self.list()[i].0@ == k,
            self.list()[i].1 == self@[k],
    {
        lemma_index_of(self.items@, k);
        index_of(self.items@, k)
    }

    /// The keys of the list are distinct.
    pub proof fn lemma_distinct(&self, i: int, j: int)
        requires
            self.wf(),
            0 <= i < j < self.list().len(),
        ensures
            self.list()[i].0@ != self.list()[j].0@,
    {
    }
}

} // verus!
