//! Shared connections: one that all use, and pools of several per endpoint.
use crate::assoc::{Assoc, Key};
use crate::lists;
use vstd::prelude::*;

verus! {

/// How far an operation on a connection has come.
#[derive(Clone, Copy, Debug, PartialEq, Eq, Structural)]
pub enum ConnectionStage {
    Connect,
    Prepare,
    Started,
}

/// Whether a failed operation may be tried again.
#[derive(Clone, Copy, Debug, PartialEq, Eq, Structural)]
pub enum RetryDecision {
    Retry,
    DoNotRetry,
}

impl ConnectionStage {
    /// An operation may be tried again as long as it has not started.
    pub fn retry_decision(self) -> (r: RetryDecision)
        ensures
            r == RetryDecision::DoNotRetry <==> self == ConnectionStage::Started,
    {
        match self {
            ConnectionStage::Connect => RetryDecision::Retry,
            ConnectionStage::Prepare => RetryDecision::Retry,
            ConnectionStage::Started => RetryDecision::DoNotRetry,
        }
    }
}

/// The state of a pool, for status reports.
#[derive(Debug, PartialEq, Eq)]
pub struct ConnectionStatusSnapshot {
    pub key: String,
    pub generation: u64,
    pub active: usize,
    pub idle: usize,
    pub capacity: usize,
}

/// The generation behind `n`; the last one stays.
pub open spec fn next_of(n: u64) -> u64 {
    if n == u64::MAX {
        n
    } else {
        (n + 1) as u64
    }
}

// ---------------------------------------------------------------------------
// One shared connection
// ---------------------------------------------------------------------------
/// The connection of a singleton.
pub struct SingletonEntry<T> {
    pub resource: T,
    pub generation: u64,
    pub last_used: u64,
}

/// A connection that all operations share. It is made at first use; each one made gets
/// a new generation number.
pub struct ManagedSingleton<T> {
    entry: Option<SingletonEntry<T>>,
    next_generation: u64,
}

impl<T> ManagedSingleton<T> {
    /// The connection at hand.
    pub closed spec fn current(&self) -> Option<SingletonEntry<T>> {
        self.entry
    }

    /// The number that the next connection gets.
    pub closed spec fn next(&self) -> u64 {
        self.next_generation
    }

    /// The numbers of connections stay below the next one (up to the last number).
    pub open spec fn wf(&self) -> bool {
        self.next() >= 1 && (self.current() matches Some(e) ==> 1 <= e.generation && (e.generation
            < self.next() || self.next() == u64::MAX))
    }

    pub fn new() -> (r: Self)
        ensures
            r.wf(),
            r.current() is None,
            r.next() == 1,
    {
        ManagedSingleton { entry: None, next_generation: 1 }
    }

    /// Use the connection at hand, if there is one: its generation.
    pub fn checkout(&mut self, now: u64) -> (r: Option<u64>)
        requires
            old(self).wf(),
        ensures
            final(self).wf(),
            final(self).next() == old(self).next(),
            match old(self).current() {
                Some(e) => r == Some(e.generation) && final(self).current() == Some(
                    SingletonEntry { last_used: now, ..e },
                ),
                None => r is None && final(self).current() is None,
            },
    {
        match self.entry.take() {
            Some(e) => {
                let generation: u64 = e.generation;
                self.entry = Some(SingletonEntry { last_used: now, ..e });
                Some(generation)
            },
            None => None,
        }
    }

    /// Put a new connection in place; its generation.
    pub fn insert(&mut self, resource: T, now: u64) -> (r: u64)
        requires
            old(self).wf(),
        ensures
            final(self).wf(),
            r == old(self).next(),
            final(self).next() == next_of(old(self).next()),
            final(self).current() == Some(
                SingletonEntry { resource, generation: r, last_used: now },
            ),
    {
        let generation: u64 = self.next_generation;
        self.next_generation = self.next_generation.saturating_add(1);
        self.entry = Some(SingletonEntry { resource, generation, last_used: now });
        generation
    }

    /// Drop the connection if it is of the given generation. A newer one stays.
    pub fn invalidate_generation(&mut self, generation: u64) -> (r: bool)
        requires
            old(self).wf(),
        ensures
            final(self).wf(),
            final(self).next() == old(self).next(),
            r == (old(self).current() matches Some(e) && e.generation == generation),
            final(self).current() == if r {
                None
            } else {
                old(self).current()
            },
    {
        let hit = match &self.entry {
            Some(e) => e.generation == generation,
            None => false,
        };
        if hit {
            self.entry = None;
        }
        hit
    }

    pub fn current_generation(&self) -> (r: Option<u64>)
        ensures
            r == match self.current() {
                Some(e) => Some(e.generation),
                None => None,
            },
    {
        match &self.entry {
            Some(e) => Some(e.generation),
            None => None,
        }
    }

    /// Use the connection if it is of the given generation.
    pub fn checkout_generation(&mut self, generation: u64, now: u64) -> (r: bool)
        requires
            old(self).wf(),
        ensures
            final(self).wf(),
            final(self).next() == old(self).next(),
            r == (old(self).current() matches Some(e) && e.generation == generation),
            final(self).current() == if r {
                Some(SingletonEntry { last_used: now, ..old(self).current()->0 })
            } else {
                old(self).current()
            },
    {
        match self.entry.take() {
            Some(e) => if e.generation == generation {
                self.entry = Some(SingletonEntry { last_used: now, ..e });
                true
            } else {
                self.entry = Some(e);
                false
            },
            None => false,
        }
    }

    /// The connection at hand.
    pub fn resource(&self) -> (r: Option<&T>)
        ensures
            match r {
                Some(t) => self.current() matches Some(e) && *t == e.resource,
                None => self.current() is None,
            },
    {
        match &self.entry {
            Some(e) => Some(&e.resource),
            None => None,
        }
    }

    /// Drop a connection that nobody uses and that was idle for longer than `max_idle`.
    pub fn prune_idle(&mut self, users: usize, now: u64, max_idle: u64) -> (r: bool)
        requires
            old(self).wf(),
        ensures
            final(self).wf(),
            final(self).next() == old(self).next(),
            r == (users == 0 && (old(self).current() matches Some(e) && now - e.last_used
                > max_idle)),
            final(self).current() == if r {
                None
            } else {
                old(self).current()
            },
    {
        let stale = match &self.entry {
            Some(e) => users == 0 && now > e.last_used && now - e.last_used > max_idle,
            None => false,
        };
        if stale {
            self.entry = None;
        }
        stale
    }

    /// The state of the singleton, for status reports.
    pub fn status_snapshot(&self, key: String, users: usize) -> (r: ConnectionStatusSnapshot)
        ensures
            r.key@ == key@,
            r.capacity == 1,
            match self.current() {
                Some(e) => r.generation == e.generation && r.active == users && r.idle == 1,
                None => r.generation == 0 && r.active == 0 && r.idle == 0,
            },
    {
        match &self.entry {
            Some(e) => ConnectionStatusSnapshot {
                key,
                generation: e.generation,
                active: users,
                idle: 1,
                capacity: 1,
            },
            None => ConnectionStatusSnapshot {
                key,
                generation: 0,
                active: 0,
                idle: 0,
                capacity: 1,
            },
        }
    }
}

// ---------------------------------------------------------------------------
// Pools
// ---------------------------------------------------------------------------
/// An idle connection.
pub struct PoolEntry<T> {
    pub resource: T,
    pub generation: u64,
    pub last_used: u64,
}

/// The pool of one endpoint.
pub struct PoolState<T> {
    idle: Vec<PoolEntry<T>>,
    active: usize,
    latest_generation: u64,
}

/// What the pool of one endpoint holds.
#[verifier::ext_equal]
pub struct PoolView<T> {
    pub idle: Seq<PoolEntry<T>>,
    pub active: int,
    pub latest: u64,
}

impl<T> View for PoolState<T> {
    type V = PoolView<T>;

    closed spec fn view(&self) -> PoolView<T> {
        PoolView {
            idle: self.idle@,
            active: self.active as int,
            latest: self.latest_generation,
        }
    }
}

pub open spec fn max_u64(a: u64, b: u64) -> u64 {
    if a >= b {
        a
    } else {
        b
    }
}

fn larger(a: u64, b: u64) -> (r: u64)
    ensures
        r == max_u64(a, b),
{
    if a >= b {
        a
    } else {
        b
    }
}

impl<T> PoolView<T> {
    pub open spec fn empty() -> PoolView<T> {
        PoolView { idle: Seq::empty(), active: 0, latest: 0 }
    }

    /// Connections in use and idle ones.
    pub open spec fn total(self) -> int {
        self.active + self.idle.len()
    }

    /// With one connection less in use.
    pub open spec fn release(self) -> PoolView<T> {
        PoolView {
            active: if self.active > 0 {
                self.active - 1
            } else {
                0
            },
            ..self
        }
    }

    /// The connection that came back last is in use again.
    pub open spec fn reuse(self) -> PoolView<T> {
        PoolView {
            idle: self.idle.drop_last(),
            active: self.active + 1,
            latest: max_u64(self.latest, self.idle.last().generation),
        }
    }

    /// A connection comes back.
    pub open spec fn give_back(self, entry: PoolEntry<T>) -> PoolView<T> {
        PoolView {
            idle: self.idle.push(entry),
            active: self.release().active,
            latest: max_u64(self.latest, entry.generation),
        }
    }
}

impl<T> PoolState<T> {
    fn new() -> (r: Self)
        ensures
            r@ == PoolView::<T>::empty(),
    {
        let r = PoolState { idle: Vec::new(), active: 0, latest_generation: 0 };
        assert(r@.idle == Seq::<PoolEntry<T>>::empty());
        r
    }
}

/// A connection that is in use.
pub struct PoolLease<K, T> {
    pub key: K,
    pub resource: T,
    pub generation: u64,
}

/// What a request for a connection comes to.
pub enum Checkout<K, T> {
    /// An idle connection.
    Reuse(PoolLease<K, T>),
    /// A new connection is to be made; room for it is taken.
    Create,
    /// All connections are in use: wait for one to come back.
    Wait,
}

/// Pools of connections by endpoint, each with at most `capacity` of them.
pub struct ManagedPool<K: Key, T> {
    entries: Assoc<K, PoolState<T>>,
    next_generation: u64,
    max_idle: u64,
    capacity: usize,
}

/// Which entries of a list are kept: `keeps(e, b)` says that `b` is an answer for `e`.
pub open spec fn retained<E>(
    before: Seq<E>,
    after: Seq<E>,
    keeps: spec_fn(E, bool) -> bool,
) -> bool
    decreases before.len(),
{
    if before.len() == 0 {
        after.len() == 0
    } else {
        ||| keeps(before.last(), false) && retained(before.drop_last(), after, keeps)
        ||| keeps(before.last(), true) && after.len() > 0 && after.last() == before.last()
            && retained(before.drop_last(), after.drop_last(), keeps)
    }
}

/// The connections of all pools, in use or idle.
pub open spec fn total_of<A, T>(pools: Map<A, PoolView<T>>) -> int
    decreases pools.dom().len(),
    when pools.dom().finite()
{
    if pools.dom().len() == 0 {
        0
    } else {
        let k = pools.dom().choose();
        pools[k].total() + total_of(pools.remove(k))
    }
}

/// The total is that of one pool and that of the others.
pub proof fn lemma_total_remove<A, T>(pools: Map<A, PoolView<T>>, k: A)
    requires
        pools.dom().finite(),
        pools.dom().contains(k),
    ensures
        total_of(pools) == pools[k].total() + total_of(pools.remove(k)),
    decreases pools.dom().len(),
{
    let c = pools.dom().choose();
    assert(pools.dom().contains(c));
    if c != k {
        lemma_total_remove(pools.remove(c), k);
        lemma_total_remove(pools.remove(k), c);
        assert(pools.remove(c).remove(k) =~= pools.remove(k).remove(c));
    }
}

/// A pool that changes moves the total by as much as its own.
pub proof fn lemma_total_insert<A, T>(pools: Map<A, PoolView<T>>, k: A, pool: PoolView<T>)
    requires
        pools.dom().finite(),
    ensures
        total_of(pools.insert(k, pool)) == total_of(pools) + pool.total() - if pools.dom().contains(
            k,
        ) {
            pools[k].total()
        } else {
            0
        },
{
    let after = pools.insert(k, pool);
    lemma_total_remove(after, k);
    if pools.dom().contains(k) {
        lemma_total_remove(pools, k);
        assert(after.remove(k) =~= pools.remove(k));
    } else {
        assert(after.remove(k) =~= pools);
    }
}

impl<K: Key, T> ManagedPool<K, T> {
    /// The pools by key.
    pub closed spec fn pools(&self) -> Map<K::V, PoolView<T>> {
        Map::new(|k: K::V| self.entries@.dom().contains(k), |k: K::V| self.entries@[k]@)
    }

    /// The pool of a key; an empty one if the key has none.
    pub open spec fn pool(&self, k: K::V) -> PoolView<T> {
        if self.pools().dom().contains(k) {
            self.pools()[k]
        } else {
            PoolView::empty()
        }
    }

    pub closed spec fn next(&self) -> u64 {
        self.next_generation
    }

    pub closed spec fn max_idle_time(&self) -> u64 {
        self.max_idle
    }

    pub closed spec fn limit(&self) -> int {
        self.capacity as int
    }

    closed spec fn keyed(&self) -> bool {
        self.entries.wf()
    }

    /// The same limits and the same next generation.
    pub open spec fn same_settings(&self, other: &Self) -> bool {
        self.limit() == other.limit() && self.max_idle_time() == other.max_idle_time()
            && self.next() == other.next()
    }

    /// No pool is over its capacity.
    pub closed spec fn wf(&self) -> bool {
        &&& self.keyed()
        &&& 1 <= self.limit()
        &&& forall|k: K::V|
            self.pools().dom().contains(k) ==> (#[trigger] self.pools()[k]).total() <= self.limit()
                && 0 <= self.pools()[k].active
    }

    /// Pools with the given capacity (at least one), whose connections may idle for
    /// `max_idle`.
    pub fn new(capacity: usize, max_idle: u64) -> (r: Self)
        ensures
            r.wf(),
            r.pools() == Map::<K::V, PoolView<T>>::empty(),
            r.limit() == if capacity >= 1 {
                capacity as int
            } else {
                1
            },
            r.next() == 1,
            r.max_idle_time() == max_idle,
            r.total() == 0,
    {
        let r = ManagedPool {
            entries: Assoc::new(),
            next_generation: 1,
            max_idle,
            capacity: if capacity >= 1 {
                capacity
            } else {
                1
            },
        };
        assert(r.pools() =~= Map::<K::V, PoolView<T>>::empty());
        r
    }

    /// Take the state of a key out, or a new one.
    fn take_state(&mut self, key: &K) -> (r: PoolState<T>)
        requires
            old(self).wf(),
        ensures
            final(self).keyed(),
            final(self).same_settings(old(self)),
            r@ == old(self).pool(key@),
            final(self).pools() == old(self).pools().remove(key@),
    {
        let r = match self.entries.take(key) {
            Some(state) => state,
            None => PoolState::new(),
        };
        assert(self.pools() =~= old(self).pools().remove(key@));
        r
    }

    /// Put the state of a key back.
    fn put_state(&mut self, key: &K, state: PoolState<T>)
        requires
            old(self).keyed(),
        ensures
            final(self).keyed(),
            final(self).same_settings(old(self)),
            final(self).pools() == old(self).pools().insert(key@, state@),
    {
        self.entries.put(key.copy_key(), state);
        assert(self.pools() =~= old(self).pools().insert(key@, state@));
    }

    /// Ask for a connection: an idle one if there is any, else a new one while the
    /// capacity allows, else wait.
    pub fn begin_checkout(&mut self, key: &K) -> (r: Checkout<K, T>)
        requires
            old(self).wf(),
        ensures
            final(self).wf(),
            final(self).same_settings(old(self)),
            ({
                let pool = old(self).pool(key@);
                if pool.idle.len() > 0 {
                    &&& r matches Checkout::Reuse(lease) && lease.key@ == key@ && lease.resource
                        == pool.idle.last().resource && lease.generation
                        == pool.idle.last().generation
                    &&& final(self).pools() == old(self).pools().insert(key@, pool.reuse())
                } else if pool.active < old(self).limit() {
                    &&& r is Create
                    &&& final(self).pools() == old(self).pools().insert(
                        key@,
                        PoolView { active: pool.active + 1, ..pool },
                    )
                } else {
                    &&& r is Wait
                    &&& final(self).pools() == old(self).pools()
                }
            }),
            final(self).total() == old(self).total() + if r is Create {
                1int
            } else {
                0
            },
    {
        let ghost before = self.pools();
        let mut state = self.take_state(key);
        let ghost pool = state@;
        let ghost held = old(self).pool(key@);
        proof {
            if before.dom().contains(key@) {
                assert(before[key@].total() <= self.limit());
            }
        }
        let result = match state.idle.pop() {
            Some(entry) => {
                state.active = state.active + 1;
                state.latest_generation = larger(state.latest_generation, entry.generation);
                assert(state@ =~= pool.reuse());
                Checkout::Reuse(
                    PoolLease {
                        key: key.copy_key(),
                        resource: entry.resource,
                        generation: entry.generation,
                    },
                )
            },
            None => {
                if state.active < self.capacity {
                    state.active = state.active + 1;
                    Checkout::Create
                } else {
                    Checkout::Wait
                }
            },
        };
        let ghost now = state@;
        self.put_state(key, state);
        proof {
            assert(self.pools() =~= before.insert(key@, now));
            old(self).lemma_sum();
            lemma_total_insert(before, key@, now);
            if result is Wait {
                assert(now =~= pool);
                assert(before.dom().contains(key@));
                assert(before.insert(key@, now) =~= before);
            }
        }
        result
    }

    /// A new connection was made: it gets the next generation.
    pub fn complete_create(&mut self, key: K, resource: T) -> (r: PoolLease<K, T>)
        requires
            old(self).wf(),
        ensures
            final(self).wf(),
            r.key@ == key@,
            r.resource == resource,
            r.generation == old(self).next(),
            final(self).limit() == old(self).limit(),
            final(self).max_idle_time() == old(self).max_idle_time(),
            final(self).next() == next_of(old(self).next()),
            ({
                let pool = old(self).pool(key@);
                final(self).pools() == old(self).pools().insert(
                    key@,
                    PoolView { latest: max_u64(pool.latest, r.generation), ..pool },
                )
            }),
            final(self).total() == old(self).total(),
    {
        let ghost before = self.pools();
        let generation: u64 = self.next_generation;
        let mut state = self.take_state(&key);
        state.latest_generation = larger(state.latest_generation, generation);
        let ghost now = state@;
        self.put_state(&key, state);
        self.next_generation = self.next_generation.saturating_add(1);
        assert(self.pools() =~= before.insert(key@, now));
        proof {
            old(self).lemma_sum();
            lemma_total_insert(before, key@, now);
        }
        PoolLease { key, resource, generation }
    }

    /// No connection could be made: the room for it is free again.
    pub fn abort_create(&mut self, key: &K)
        requires
            old(self).wf(),
        ensures
            final(self).wf(),
            final(self).same_settings(old(self)),
            final(self).pools() == if old(self).pools().dom().contains(key@) {
                old(self).pools().insert(key@, old(self).pool(key@).release())
            } else {
                old(self).pools()
            },
            final(self).total() == old(self).total() - if old(self).pool(key@).active > 0 {
                1int
            } else {
                0
            },
    {
        if self.entries.contains(key) {
            let ghost before = self.pools();
            let mut state = self.take_state(key);
            state.active = state.active.saturating_sub(1);
            let ghost now = state@;
            self.put_state(key, state);
            assert(now =~= old(self).pool(key@).release());
            assert(self.pools() =~= before.insert(key@, now));
            proof {
                old(self).lemma_sum();
                lemma_total_insert(before, key@, now);
                assert(before[key@].active >= 0);
            }
        }
    }

    /// A connection comes back in order, and is idle.
    pub fn return_healthy(&mut self, lease: PoolLease<K, T>, now: u64)
        requires
            old(self).wf(),
            old(self).pool(lease.key@).active > 0,
        ensures
            final(self).wf(),
            final(self).same_settings(old(self)),
            final(self).pools() == old(self).pools().insert(
                lease.key@,
                old(self).pool(lease.key@).give_back(
                    PoolEntry {
                        resource: lease.resource,
                        generation: lease.generation,
                        last_used: now,
                    },
                ),
            ),
            final(self).total() == old(self).total(),
    {
        let ghost before = self.pools();
        let PoolLease { key, resource, generation } = lease;
        let mut state = self.take_state(&key);
        let ghost pool = state@;
        let entry = PoolEntry { resource, generation, last_used: now };
        state.active = state.active.saturating_sub(1);
        state.latest_generation = larger(state.latest_generation, generation);
        state.idle.push(entry);
        let ghost after = state@;
        assert(after =~= pool.give_back(entry));
        proof {
            assert(before.dom().contains(key@));
            assert(before[key@].total() <= self.limit());
        }
        self.put_state(&key, state);
        assert(self.pools() =~= before.insert(key@, after));
        proof {
            old(self).lemma_sum();
            lemma_total_insert(before, key@, after);
        }
    }

    /// A connection is given up. A pool without connections goes.
    pub fn discard(&mut self, lease: PoolLease<K, T>)
        requires
            old(self).wf(),
        ensures
            final(self).wf(),
            final(self).same_settings(old(self)),
            ({
                let pool = old(self).pool(lease.key@).release();
                final(self).pools() == if !old(self).pools().dom().contains(lease.key@) {
                    old(self).pools()
                } else if pool.total() == 0 {
                    old(self).pools().remove(lease.key@)
                } else {
                    old(self).pools().insert(lease.key@, pool)
                }
            }),
            final(self).total() == old(self).total() - if old(self).pool(lease.key@).active > 0 {
                1int
            } else {
                0
            },
    {
        let ghost before = self.pools();
        let key = lease.key;
        if self.entries.contains(&key) {
            let mut state = self.take_state(&key);
            state.active = state.active.saturating_sub(1);
            let ghost after = state@;
            assert(after =~= old(self).pool(key@).release());
            proof {
                old(self).lemma_sum();
                lemma_total_insert(before, key@, after);
                lemma_total_remove(before, key@);
                assert(before[key@].active >= 0);
            }
            if state.active == 0 && state.idle.len() == 0 {
                assert(self.pools() =~= before.remove(key@));
            } else {
                self.put_state(&key, state);
                assert(self.pools() =~= before.insert(key@, after));
            }
        }
    }

    /// Drop the idle connections of a generation.
    pub fn invalidate_generation(&mut self, key: &K, generation: u64) -> (r: bool)
        requires
            old(self).wf(),
        ensures
            final(self).wf(),
            final(self).same_settings(old(self)),
            ({
                let pool = old(self).pool(key@);
                let kept = without_generation(pool.idle, generation);
                &&& r == (kept.len() != pool.idle.len())
                &&& final(self).pools() == if old(self).pools().dom().contains(key@) {
                    old(self).pools().insert(key@, PoolView { idle: kept, ..pool })
                } else {
                    old(self).pools()
                }
                &&& final(self).total() == old(self).total() - (pool.idle.len() - kept.len())
            }),
    {
        if !self.entries.contains(key) {
            return false;
        }
        let ghost before = self.pools();
        let mut state = self.take_state(key);
        let ghost pool = state@;
        let mut kept: Vec<PoolEntry<T>> = Vec::new();
        let count: usize = state.idle.len();
        let mut taken: Vec<PoolEntry<T>> = Vec::new();
        std::mem::swap(&mut taken, &mut state.idle);
        let mut i: usize = 0;
        assert(taken@ == pool.idle);
        assert(taken@ =~= pool.idle.skip(0));
        assert(kept@ =~= without_generation(pool.idle.take(0), generation));
        while taken.len() > 0
            invariant
                i + taken.len() == pool.idle.len(),
                taken@ == pool.idle.skip(i as int),
                kept@ == without_generation(pool.idle.take(i as int), generation),
                count == pool.idle.len(),
            decreases taken.len(),
        {
            let entry = taken.remove(0);
            assert(pool.idle.take(i + 1).drop_last() =~= pool.idle.take(i as int));
            assert(pool.idle.take(i + 1).last() == entry);
            assert(taken@ =~= pool.idle.skip(i + 1));
            if entry.generation != generation {
                kept.push(entry);
            }
            i += 1;
        }
        assert(pool.idle.take(i as int) =~= pool.idle);
        proof {
            lemma_without_generation(pool.idle, generation);
        }
        let changed = kept.len() != count;
        state.idle = kept;
        let ghost after = state@;
        proof {
            assert(before[key@].total() <= self.limit());
        }
        self.put_state(key, state);
        assert(self.pools() =~= before.insert(key@, after));
        proof {
            old(self).lemma_sum();
            lemma_total_insert(before, key@, after);
        }
        changed
    }
}

/// The entries of another generation.
pub open spec fn without_generation<T>(idle: Seq<PoolEntry<T>>, generation: u64) -> Seq<
    PoolEntry<T>,
>
    decreases idle.len(),
{
    if idle.len() == 0 {
        Seq::empty()
    } else if idle.last().generation == generation {
        without_generation(idle.drop_last(), generation)
    } else {
        without_generation(idle.drop_last(), generation).push(idle.last())
    }
}

proof fn lemma_without_generation<T>(idle: Seq<PoolEntry<T>>, generation: u64)
    ensures
        without_generation(idle, generation).len() <= idle.len(),
    decreases idle.len(),
{
    if idle.len() > 0 {
        lemma_without_generation(idle.drop_last(), generation);
    }
}

// ---------------------------------------------------------------------------
// Sweeping and reporting
// ---------------------------------------------------------------------------
/// Connections of all pools of a list.
spec fn sum_of<K: Key, T>(list: Seq<(K, PoolState<T>)>) -> int
    decreases list.len(),
{
    if list.len() == 0 {
        0
    } else {
        list[0].1@.total() + sum_of(list.skip(1))
    }
}

proof fn lemma_sum_push<K: Key, T>(list: Seq<(K, PoolState<T>)>, item: (K, PoolState<T>))
    ensures
        sum_of(list.push(item)) == sum_of(list) + item.1@.total(),
    decreases list.len(),
{
    if list.len() == 0 {
        assert(list.push(item).skip(1) =~= list);
        assert(sum_of(list.push(item)) == item.1@.total() + sum_of(list.push(item).skip(1)));
    } else {
        assert(list.push(item).skip(1) =~= list.skip(1).push(item));
        lemma_sum_push(list.skip(1), item);
    }
}

/// A list of distinct keys with their pools has the total of the pools.
proof fn lemma_sum_is_total<K: Key, T>(
    list: Seq<(K, PoolState<T>)>,
    pools: Map<K::V, PoolView<T>>,
)
    requires
        forall|i: int, j: int|
            0 <= i < j < list.len() ==> (#[trigger] list[i]).0@ != (#[trigger] list[j]).0@,
        forall|i: int|
            0 <= i < list.len() ==> pools.dom().contains((#[trigger] list[i]).0@)
                && pools[list[i].0@] == list[i].1@,
        forall|k: K::V| #[trigger]
            pools.dom().contains(k) ==> exists|i: int|
                0 <= i < list.len() && (#[trigger] list[i]).0@ == k,
    ensures
        pools.dom().finite(),
        sum_of(list) == total_of(pools),
    decreases list.len(),
{
    if list.len() == 0 {
        assert(pools.dom() =~= Set::<K::V>::empty());
    } else {
        let k = list[0].0@;
        let rest = list.skip(1);
        let less = pools.remove(k);
        assert forall|i: int, j: int| 0 <= i < j < rest.len() implies (#[trigger] rest[i]).0@ != (
        #[trigger] rest[j]).0@ by {
            assert(rest[i] == list[i + 1] && rest[j] == list[j + 1]);
        }
        assert forall|i: int| 0 <= i < rest.len() implies less.dom().contains(
            (#[trigger] rest[i]).0@,
        ) && less[rest[i].0@] == rest[i].1@ by {
            assert(rest[i] == list[i + 1]);
        }
        assert forall|q: K::V| #[trigger] less.dom().contains(q) implies exists|i: int|
            0 <= i < rest.len() && (#[trigger] rest[i]).0@ == q by {
            assert(pools.dom().contains(q));
            let i = choose|i: int| 0 <= i < list.len() && (#[trigger] list[i]).0@ == q;
            assert(rest[i - 1] == list[i]);
        }
        lemma_sum_is_total(rest, less);
        assert(pools.dom() =~= less.dom().insert(k));
        lemma_total_remove(pools, k);
    }
}

proof fn lemma_retained_len<E>(before: Seq<E>, after: Seq<E>, keeps: spec_fn(E, bool) -> bool)
    requires
        retained(before, after, keeps),
    ensures
        after.len() <= before.len(),
    decreases before.len(),
{
    if before.len() > 0 {
        if keeps(before.last(), false) && retained(before.drop_last(), after, keeps) {
            lemma_retained_len(before.drop_last(), after, keeps);
        } else {
            lemma_retained_len(before.drop_last(), after.drop_last(), keeps);
        }
    }
}

/// The idle connections of `after` are those of `before` that `keeps` allows; the rest
/// of the pool is as it was.
pub open spec fn swept<T>(
    before: PoolView<T>,
    after: PoolView<T>,
    keeps: spec_fn(PoolEntry<T>, bool) -> bool,
) -> bool {
    &&& after.active == before.active
    &&& after.latest == before.latest
    &&& retained(before.idle, after.idle, keeps)
}

/// Every pool was swept, and those without connections are gone.
pub open spec fn all_swept<KV, T>(
    before: Map<KV, PoolView<T>>,
    after: Map<KV, PoolView<T>>,
    keeps: spec_fn(PoolEntry<T>, bool) -> bool,
) -> bool {
    &&& forall|k: KV| #[trigger]
        after.dom().contains(k) ==> before.dom().contains(k) && swept(before[k], after[k], keeps)
            && after[k].total() > 0
    &&& forall|k: KV| #[trigger]
        before.dom().contains(k) && !after.dom().contains(k) ==> exists|gone: PoolView<T>|
            gone.total() == 0 && #[trigger] swept(before[k], gone, keeps)
}

/// Which idle connections a sweep keeps: those whose answer to `f` is `wanted`, unless
/// they have been idle for `max_idle` at the time `now`.
pub open spec fn keep_rule<T, F: Fn(&T) -> bool>(
    f: F,
    wanted: bool,
    now: Option<u64>,
    max_idle: u64,
) -> spec_fn(PoolEntry<T>, bool) -> bool {
    |e: PoolEntry<T>, b: bool|
        if now matches Some(n) && n - e.last_used >= max_idle {
            !b
        } else {
            call_ensures(f, (&e.resource,), b == wanted)
        }
}

/// The entries that a sweep keeps.
fn filter_entries<T, F: Fn(&T) -> bool>(
    idle: Vec<PoolEntry<T>>,
    f: &F,
    wanted: bool,
    now: Option<u64>,
    max_idle: u64,
) -> (r: Vec<PoolEntry<T>>)
    requires
        forall|t: &T| #[trigger] call_requires(*f, (t,)),
    ensures
        retained(idle@, r@, keep_rule(*f, wanted, now, max_idle)),
{
    let ghost all = idle@;
    let ghost keeps = keep_rule(*f, wanted, now, max_idle);
    let mut rest = idle;
    let mut kept: Vec<PoolEntry<T>> = Vec::new();
    let ghost mut i: int = 0;
    assert(rest@ =~= all.skip(0));
    assert(retained(all.take(0), kept@, keeps));
    while rest.len() > 0
        invariant
            forall|t: &T| #[trigger] call_requires(*f, (t,)),
            keeps == keep_rule(*f, wanted, now, max_idle),
            0 <= i,
            i + rest.len() == all.len(),
            rest@ == all.skip(i),
            retained(all.take(i), kept@, keeps),
        decreases rest.len(),
    {
        let entry = rest.remove(0);
        assert(rest@ =~= all.skip(i + 1));
        assert(all.take(i + 1).drop_last() =~= all.take(i));
        assert(all.take(i + 1).last() == entry);
        let stale = match now {
            Some(n) => n >= entry.last_used && n - entry.last_used >= max_idle,
            None => false,
        };
        let yes = if stale {
            false
        } else {
            f(&entry.resource) == wanted
        };
        assert(keeps(entry, yes));
        if yes {
            let ghost before = kept@;
            kept.push(entry);
            assert(kept@.drop_last() =~= before);
        }
        proof {
            i = i + 1;
        }
    }
    assert(all.take(i) =~= all);
    kept
}

impl<K: Key, T> ManagedPool<K, T> {
    /// All connections, in use or idle.
    pub open spec fn total(&self) -> int {
        total_of(self.pools())
    }

    proof fn lemma_sum(&self)
        requires
            self.keyed(),
        ensures
            self.pools().dom().finite(),
            sum_of(self.entries.list()) == self.total(),
    {
        let list = self.entries.list();
        assert forall|i: int, j: int| 0 <= i < j < list.len() implies (#[trigger] list[i]).0@ != (
        #[trigger] list[j]).0@ by {
            self.entries.lemma_distinct(i, j);
        }
        assert forall|i: int| 0 <= i < list.len() implies self.pools().dom().contains(
            (#[trigger] list[i]).0@,
        ) && self.pools()[list[i].0@] == list[i].1@ by {
            self.entries.lemma_listed(i);
        }
        assert forall|k: K::V| #[trigger] self.pools().dom().contains(k) implies exists|i: int|
            0 <= i < list.len() && (#[trigger] list[i]).0@ == k by {
            let i = self.entries.lemma_key_listed(k);
            assert(list[i].0@ == k);
        }
        lemma_sum_is_total(list, self.pools());
    }

    /// There are finitely many pools, and each has its one key among the keys.
    pub proof fn lemma_keys(&self)
        requires
            self.wf(),
        ensures
            self.pools().dom().finite(),
            forall|i: int, j: int|
                0 <= i < j < self.keys().len() ==> (#[trigger] self.keys()[i])@ != (
                #[trigger] self.keys()[j])@,
            forall|i: int|
                0 <= i < self.keys().len() ==> self.pools().dom().contains(
                    (#[trigger] self.keys()[i])@,
                ),
            forall|k: K::V| #[trigger]
                self.pools().dom().contains(k) ==> exists|i: int|
                    0 <= i < self.keys().len() && (#[trigger] self.keys()[i])@ == k,
    {
        self.lemma_sum();
        let list = self.entries.list();
        assert forall|i: int, j: int| 0 <= i < j < self.keys().len() implies (
        #[trigger] self.keys()[i])@ != (#[trigger] self.keys()[j])@ by {
            self.entries.lemma_distinct(i, j);
        }
        assert forall|i: int| 0 <= i < self.keys().len() implies self.pools().dom().contains(
            (#[trigger] self.keys()[i])@,
        ) by {
            self.entries.lemma_listed(i);
        }
        assert forall|k: K::V| #[trigger] self.pools().dom().contains(k) implies exists|i: int|
            0 <= i < self.keys().len() && (#[trigger] self.keys()[i])@ == k by {
            let i = self.entries.lemma_key_listed(k);
            assert(self.keys()[i]@ == k);
        }
    }

    /// The keys that have a pool.
    pub closed spec fn keys(&self) -> Seq<K> {
        Seq::new(self.entries.list().len(), |i: int| self.entries.list()[i].0)
    }

    pub fn total_entries(&self) -> (r: usize)
        requires
            self.wf(),
            self.total() <= usize::MAX,
        ensures
            r == self.total(),
    {
        let ghost list = self.entries.list();
        proof {
            self.lemma_sum();
        }
        let mut sum: usize = 0;
        let mut i: usize = 0;
        assert(list.skip(0) =~= list);
        while i < self.entries.len()
            invariant
                self.wf(),
                list == self.entries.list(),
                i <= list.len(),
                sum + sum_of(list.skip(i as int)) == sum_of(list),
                sum_of(list) <= usize::MAX,
            decreases list.len() - i,
        {
            let item = self.entries.at(i);
            proof {
                assert(list.skip(i as int)[0] == list[i as int]);
                assert(list.skip(i as int).skip(1) =~= list.skip(i + 1));
                lemma_sum_nonneg(list.skip(i + 1));
            }
            sum = sum + (item.1.active + item.1.idle.len());
            i += 1;
        }
        sum
    }

    /// Keep the idle connections whose answer to `f` is `wanted`, unless they idled too
    /// long.
    fn sweep<F: Fn(&T) -> bool>(&mut self, f: &F, wanted: bool, now: Option<u64>)
        requires
            old(self).wf(),
            forall|t: &T| #[trigger] call_requires(*f, (t,)),
        ensures
            final(self).wf(),
            final(self).same_settings(old(self)),
            final(self).total() <= old(self).total(),
            all_swept(
                old(self).pools(),
                final(self).pools(),
                keep_rule(*f, wanted, now, old(self).max_idle_time()),
            ),
    {
        proof {
            self.lemma_sum();
        }
        let ghost keeps = keep_rule(*f, wanted, now, self.max_idle_time());
        let max_idle: u64 = self.max_idle;
        let ghost before = self.pools();
        let mut rest: Assoc<K, PoolState<T>> = Assoc::new();
        std::mem::swap(&mut rest, &mut self.entries);
        let ghost start = rest.list();
        assert(self.pools() =~= Map::<K::V, PoolView<T>>::empty());
        loop
            invariant
                rest.wf(),
                self.entries.wf(),
                1 <= self.capacity,
                self.same_settings(old(self)),
                old(self).wf(),
                before == old(self).pools(),
                keeps == keep_rule(*f, wanted, now, max_idle),
                forall|t: &T| #[trigger] call_requires(*f, (t,)),
                forall|k: K::V| #[trigger]
                    rest@.dom().contains(k) ==> before.dom().contains(k) && rest@[k]@
                        == before[k] && !self.pools().dom().contains(k),
                forall|k: K::V| #[trigger]
                    self.pools().dom().contains(k) ==> before.dom().contains(k) && swept(
                        before[k],
                        self.pools()[k],
                        keeps,
                    ) && self.pools()[k].total() > 0,
                forall|k: K::V| #[trigger]
                    before.dom().contains(k) && !rest@.dom().contains(k)
                        && !self.pools().dom().contains(k) ==> exists|gone: PoolView<T>|
                        gone.total() == 0 && #[trigger] swept(before[k], gone, keeps),
                sum_of(self.entries.list()) + sum_of(rest.list()) <= sum_of(start),
            ensures
                rest.list().len() == 0,
                rest@ == Map::<K::V, PoolState<T>>::empty(),
            decreases rest.list().len(),
        {
            let ghost rest0 = rest;
            let ghost pools0 = self.pools();
            match rest.take_first() {
                None => {
                    break;
                },
                Some((key, state)) => {
                    let ghost k = key@;
                    let ghost pool = state@;
                    let PoolState { idle, active, latest_generation } = state;
                    let kept = filter_entries(idle, f, wanted, now, max_idle);
                    let next = PoolState { idle: kept, active, latest_generation };
                    let ghost after = next@;
                    proof {
                        lemma_retained_len(pool.idle, after.idle, keeps);
                        assert(swept(pool, after, keeps));
                        assert(before[k] == pool);
                        assert(before[k].total() <= old(self).limit());
                    }
                    if next.active > 0 || next.idle.len() > 0 {
                        let ghost list0 = self.entries.list();
                        proof {
                            assert(!self.pools().dom().contains(k));
                            assert(!self.entries@.dom().contains(k));
                        }
                        self.entries.add_new(key, next);
                        proof {
                            lemma_sum_push(list0, (key, next));
                            assert(self.pools() =~= pools0.insert(k, after));
                        }
                    }
                    proof {
                        assert(sum_of(rest0.list()) == pool.total() + sum_of(rest.list()));
                    }
                },
            }
        }
        proof {
            assert forall|k: K::V| self.pools().dom().contains(k) implies (
            #[trigger] self.pools()[k]).total() <= self.limit() && 0 <= self.pools()[k].active by {
                assert(before.dom().contains(k));
                assert(swept(before[k], self.pools()[k], keeps));
                lemma_retained_len(before[k].idle, self.pools()[k].idle, keeps);
                assert(before[k].total() <= old(self).limit());
            }
            lemma_sum_nonneg(rest.list());
            self.lemma_sum();
        }
    }

    /// Drop the idle connections that the predicate picks; returns how many there were.
    pub fn discard_idle_where<F: Fn(&T) -> bool>(&mut self, should_discard: F) -> (r: usize)
        requires
            old(self).wf(),
            old(self).total() <= usize::MAX,
            forall|t: &T| #[trigger] call_requires(should_discard, (t,)),
        ensures
            final(self).wf(),
            final(self).same_settings(old(self)),
            r == old(self).total() - final(self).total(),
            all_swept(
                old(self).pools(),
                final(self).pools(),
                keep_rule(should_discard, false, None, old(self).max_idle_time()),
            ),
    {
        let before: usize = self.total_entries();
        self.sweep(&should_discard, false, None);
        let after: usize = self.total_entries();
        before - after
    }

    /// Drop the idle connections that idled too long or are not alive.
    pub fn prune_idle_with<F: Fn(&T) -> bool>(&mut self, now: u64, is_alive: F)
        requires
            old(self).wf(),
            forall|t: &T| #[trigger] call_requires(is_alive, (t,)),
        ensures
            final(self).wf(),
            final(self).same_settings(old(self)),
            all_swept(
                old(self).pools(),
                final(self).pools(),
                keep_rule(is_alive, true, Some(now), old(self).max_idle_time()),
            ),
    {
        self.sweep(&is_alive, true, Some(now));
    }

    /// A snapshot shows the pool of a key.
    pub open spec fn reports(&self, snapshot: ConnectionStatusSnapshot, k: K::V) -> bool {
        &&& self.pools().dom().contains(k)
        &&& snapshot.generation == self.pools()[k].latest
        &&& snapshot.active == self.pools()[k].active
        &&& snapshot.idle == self.pools()[k].idle.len()
        &&& snapshot.capacity == self.limit()
    }

    /// The state of every pool, under the label of its key.
    pub fn status_snapshot_with<F: Fn(&K) -> String>(&self, key_label: F) -> (r: Vec<
        ConnectionStatusSnapshot,
    >)
        requires
            self.wf(),
            forall|k: &K| #[trigger] call_requires(key_label, (k,)),
        ensures
            r@.len() == self.keys().len(),
            forall|i: int, j: int|
                0 <= i < j < self.keys().len() ==> (#[trigger] self.keys()[i])@ != (
                #[trigger] self.keys()[j])@,
            forall|i: int|
                0 <= i < r@.len() ==> self.reports(
                    #[trigger] r@[i],
                    self.keys()[i]@,
                ) && call_ensures(key_label, (&self.keys()[i],), r@[i].key),
            forall|k: K::V| #[trigger]
                self.pools().dom().contains(k) ==> exists|i: int|
                    0 <= i < self.keys().len() && (#[trigger] self.keys()[i])@ == k,
    {
        let mut r: Vec<ConnectionStatusSnapshot> = Vec::new();
        let mut i: usize = 0;
        while i < self.entries.len()
            invariant
                self.wf(),
                forall|k: &K| #[trigger] call_requires(key_label, (k,)),
                i <= self.entries.list().len(),
                r@.len() == i,
                forall|j: int|
                    0 <= j < i ==> self.reports(
                        #[trigger] r@[j],
                        self.keys()[j]@,
                    ) && call_ensures(key_label, (&self.keys()[j],), r@[j].key),
            decreases self.entries.list().len() - i,
        {
            let item = self.entries.at(i);
            proof {
                self.entries.lemma_listed(i as int);
                assert(self.keys()[i as int] == item.0);
            }
            let key = key_label(&item.0);
            r.push(
                ConnectionStatusSnapshot {
                    key,
                    generation: item.1.latest_generation,
                    active: item.1.active,
                    idle: item.1.idle.len(),
                    capacity: self.capacity,
                },
            );
            i += 1;
        }
        proof {
            self.lemma_keys();
        }
        r
    }
}

proof fn lemma_sum_nonneg<K: Key, T>(list: Seq<(K, PoolState<T>)>)
    ensures
        sum_of(list) >= 0,
    decreases list.len(),
{
    if list.len() > 0 {
        lemma_sum_nonneg(list.skip(1));
    }
}

// ---------------------------------------------------------------------------
// Laws
// ---------------------------------------------------------------------------
/// A connection that comes back is the next one handed out: the pool is then as it was
/// before, with that connection in use.
pub proof fn law_returned_connection_is_reused<T>(pool: PoolView<T>, entry: PoolEntry<T>)
    requires
        pool.active > 0,
        pool.latest >= entry.generation,
    ensures
        pool.give_back(entry).idle.last() == entry,
        pool.give_back(entry).reuse() == pool,
{
    assert(pool.give_back(entry).idle.drop_last() =~= pool.idle);
    assert(pool.give_back(entry).reuse() =~= pool);
}

/// A connection that comes back and is handed out again leaves all pools as they were: no
/// connection is made, and their number is the same all the way.
pub proof fn law_reuse_leaves_the_pools_as_they_were<A, T>(
    pools: Map<A, PoolView<T>>,
    k: A,
    entry: PoolEntry<T>,
)
    requires
        pools.dom().finite(),
        pools.dom().contains(k),
        pools[k].active > 0,
        pools[k].latest >= entry.generation,
    ensures
        ({
            let back = pools.insert(k, pools[k].give_back(entry));
            &&& back[k].idle.len() > 0 && back[k].idle.last() == entry
            &&& total_of(back) == total_of(pools)
            &&& back.insert(k, back[k].reuse()) == pools
        }),
{
    let back = pools.insert(k, pools[k].give_back(entry));
    lemma_total_insert(pools, k, pools[k].give_back(entry));
    law_returned_connection_is_reused(pools[k], entry);
    assert(back.insert(k, back[k].reuse()) =~= pools);
}

/// Handing out, giving back and releasing never raise the number of connections.
pub proof fn law_reuse_and_return_keep_total<T>(pool: PoolView<T>, entry: PoolEntry<T>)
    requires
        pool.active >= 0,
    ensures
        pool.idle.len() > 0 ==> pool.reuse().total() == pool.total(),
        pool.active > 0 ==> pool.give_back(entry).total() == pool.total(),
        pool.release().total() <= pool.total(),
{
}

/// Dropping the connections of a generation leaves every connection of another one.
pub proof fn law_invalidation_spares_other_generations<T>(
    idle: Seq<PoolEntry<T>>,
    generation: u64,
    i: int,
)
    requires
        0 <= i < idle.len(),
        idle[i].generation != generation,
    ensures
        without_generation(idle, generation).contains(idle[i]),
    decreases idle.len(),
{
    if i < idle.len() - 1 {
        law_invalidation_spares_other_generations(idle.drop_last(), generation, i);
        let rest = without_generation(idle.drop_last(), generation);
        let j = choose|j: int| 0 <= j < rest.len() && rest[j] == idle[i];
        if idle.last().generation != generation {
            assert(rest.push(idle.last())[j] == idle[i]);
        }
    } else {
        let rest = without_generation(idle.drop_last(), generation);
        assert(rest.push(idle.last())[rest.len() as int] == idle[i]);
    }
}

/// A connection that is made after another was dropped has a newer generation, so that
/// dropping the old generation again does not touch it.
pub proof fn law_new_generation_differs<T>(singleton: ManagedSingleton<T>)
    requires
        singleton.wf(),
        singleton.current() is Some,
        singleton.next() < u64::MAX,
    ensures
        singleton.next() > singleton.current()->0.generation,
        next_of(singleton.next()) > singleton.next(),
{
}

/// A sweep whose rule says of each connection whether it stays leaves exactly those, in order,
/// and the connections in use.
pub proof fn law_sweeps_keep_what_the_rule_keeps<T>(
    before: PoolView<T>,
    after: PoolView<T>,
    keeps: spec_fn(PoolEntry<T>, bool) -> bool,
    stays: spec_fn(PoolEntry<T>) -> bool,
)
    requires
        swept(before, after, keeps),
        forall|e: PoolEntry<T>, b: bool| #[trigger] keeps(e, b) == (b == stays(e)),
    ensures
        after.active == before.active,
        after.latest == before.latest,
        after.idle == lists::picked(
            before.idle,
            |e: PoolEntry<T>|
                if stays(e) {
                    Some(e)
                } else {
                    None
                },
        ),
{
    lemma_retained_is_picked(before.idle, after.idle, keeps, stays);
}

proof fn lemma_retained_is_picked<T>(
    before: Seq<PoolEntry<T>>,
    after: Seq<PoolEntry<T>>,
    keeps: spec_fn(PoolEntry<T>, bool) -> bool,
    stays: spec_fn(PoolEntry<T>) -> bool,
)
    requires
        retained(before, after, keeps),
        forall|e: PoolEntry<T>, b: bool| #[trigger] keeps(e, b) == (b == stays(e)),
    ensures
        after == lists::picked(
            before,
            |e: PoolEntry<T>|
                if stays(e) {
                    Some(e)
                } else {
                    None
                },
        ),
    decreases before.len(),
{
    let f = |e: PoolEntry<T>|
        if stays(e) {
            Some(e)
        } else {
            None
        };
    if before.len() == 0 {
        assert(after =~= Seq::<PoolEntry<T>>::empty());
    } else if stays(before.last()) {
        assert(!keeps(before.last(), false));
        lemma_retained_is_picked(before.drop_last(), after.drop_last(), keeps, stays);
        assert(after =~= lists::picked(before, f));
    } else {
        assert(!keeps(before.last(), true));
        lemma_retained_is_picked(before.drop_last(), after, keeps, stays);
        assert(after =~= lists::picked(before, f));
    }
}

/// A connection that idled for as long as it may does not stay; one that did not stays where
/// the check says so.
pub proof fn law_idle_connections_do_not_stay<T, F: Fn(&T) -> bool>(
    f: F,
    wanted: bool,
    now: u64,
    max_idle: u64,
    e: PoolEntry<T>,
    stays: bool,
)
    requires
        keep_rule(f, wanted, Some(now), max_idle)(e, stays),
    ensures
        now >= e.last_used + max_idle ==> !stays,
        now < e.last_used + max_idle ==> call_ensures(f, (&e.resource,), stays == wanted),
{
}

/// The generation of a pool is the latest of all that it has seen.
pub proof fn law_latest_generation_is_known<T>(pool: PoolView<T>, entry: PoolEntry<T>)
    ensures
        pool.give_back(entry).latest >= entry.generation,
        pool.give_back(entry).latest >= pool.latest,
        pool.give_back(entry).latest == entry.generation || pool.give_back(entry).latest
            == pool.latest,
        pool.idle.len() > 0 ==> pool.reuse().latest >= pool.idle.last().generation
            && pool.reuse().latest >= pool.latest && (pool.reuse().latest
            == pool.idle.last().generation || pool.reuse().latest == pool.latest),
{
}

} // verus!
