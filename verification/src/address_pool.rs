//! Idle connections by address, for gateways that connect once per operation.
use crate::assoc::Assoc;
use crate::auth;
use crate::lists;
use crate::text::{concat3, decimal};
use vstd::prelude::*;

verus! {

/// An idle connection.
#[derive(Debug)]
pub struct Slot<T> {
    pub id: u64,
    pub conn: T,
    pub last_used: u64,
}

/// Idle connections by address, at most `max_connections_per_address` for each.
pub struct AddressPools<T> {
    pools: Assoc<String, Vec<Slot<T>>>,
    max_connections_per_address: usize,
    max_idle_time: u64,
}

/// The address of a server as the key of its pool.
pub fn pool_key(host: &str, port: u16) -> (r: String)
    ensures
        r@ == auth::address_of(host@, port as int),
{
    let port = decimal(port as u64);
    concat3(host, ":", port.as_str())
}

/// How long a connection was idle at a time.
pub open spec fn idle_time(last_used: u64, now: u64) -> int {
    if now >= last_used {
        now - last_used
    } else {
        0
    }
}

/// The connections that have not been idle for too long.
pub open spec fn fresh_slots<T>(slots: Seq<Slot<T>>, now: u64, max_idle: u64) -> Seq<Slot<T>>
    decreases slots.len(),
{
    if slots.len() == 0 {
        slots
    } else if idle_time(slots.last().last_used, now) < max_idle {
        fresh_slots(slots.drop_last(), now, max_idle).push(slots.last())
    } else {
        fresh_slots(slots.drop_last(), now, max_idle)
    }
}

/// The connections without that of an identity.
pub open spec fn without_id<T>(slots: Seq<Slot<T>>, id: u64) -> Seq<Slot<T>>
    decreases slots.len(),
{
    if slots.len() == 0 {
        slots
    } else if slots.last().id != id {
        without_id(slots.drop_last(), id).push(slots.last())
    } else {
        without_id(slots.drop_last(), id)
    }
}

proof fn lemma_kept_len<T>(slots: Seq<Slot<T>>, now: u64, max_idle: u64, id: u64)
    ensures
        fresh_slots(slots, now, max_idle).len() <= slots.len(),
        without_id(slots, id).len() <= slots.len(),
    decreases slots.len(),
{
    if slots.len() > 0 {
        lemma_kept_len(slots.drop_last(), now, max_idle, id);
    }
}

/// The slot that an acquisition found: the last one that lives. Those behind it were dead.
pub open spec fn found_alive<T, F: Fn(&T) -> bool>(slots: Seq<Slot<T>>, n: int, is_alive: F) -> bool {
    &&& 0 <= n < slots.len()
    &&& call_ensures(is_alive, (&slots[n].conn,), true)
    &&& forall|i: int|
        n < i < slots.len() ==> call_ensures(is_alive, (&(#[trigger] slots[i]).conn,), false)
}

/// No slot lives.
pub open spec fn all_dead<T, F: Fn(&T) -> bool>(slots: Seq<Slot<T>>, is_alive: F) -> bool {
    forall|i: int|
        0 <= i < slots.len() ==> call_ensures(is_alive, (&(#[trigger] slots[i]).conn,), false)
}

#[verifier::loop_isolation(false)]
fn keep_fresh<T>(slots: Vec<Slot<T>>, now: u64, max_idle: u64) -> (r: Vec<Slot<T>>)
    ensures
        r@ == fresh_slots(slots@, now, max_idle),
{
    let ghost all = slots@;
    let mut rest = slots;
    let mut r: Vec<Slot<T>> = Vec::new();
    let ghost mut done: int = 0;
    assert(all.take(0) =~= Seq::<Slot<T>>::empty());
    while rest.len() > 0
        invariant
            0 <= done <= all.len(),
            rest@ == all.skip(done),
            r@ == fresh_slots(all.take(done), now, max_idle),
        decreases rest.len(),
    {
        let slot = rest.remove(0);
        assert(slot == all[done]);
        assert(all.take(done + 1).drop_last() =~= all.take(done));
        let idle: u64 = if now >= slot.last_used {
            now - slot.last_used
        } else {
            0
        };
        if idle < max_idle {
            r.push(slot);
        }
        proof {
            done = done + 1;
            assert(rest@ =~= all.skip(done));
        }
    }
    assert(all.take(done) =~= all);
    r
}

#[verifier::loop_isolation(false)]
fn keep_others<T>(slots: Vec<Slot<T>>, id: u64) -> (r: Vec<Slot<T>>)
    ensures
        r@ == without_id(slots@, id),
{
    let ghost all = slots@;
    let mut rest = slots;
    let mut r: Vec<Slot<T>> = Vec::new();
    let ghost mut done: int = 0;
    assert(all.take(0) =~= Seq::<Slot<T>>::empty());
    while rest.len() > 0
        invariant
            0 <= done <= all.len(),
            rest@ == all.skip(done),
            r@ == without_id(all.take(done), id),
        decreases rest.len(),
    {
        let slot = rest.remove(0);
        assert(slot == all[done]);
        assert(all.take(done + 1).drop_last() =~= all.take(done));
        if slot.id != id {
            r.push(slot);
        }
        proof {
            done = done + 1;
            assert(rest@ =~= all.skip(done));
        }
    }
    assert(all.take(done) =~= all);
    r
}

impl<T> View for AddressPools<T> {
    type V = Map<Seq<char>, Seq<Slot<T>>>;

    closed spec fn view(&self) -> Map<Seq<char>, Seq<Slot<T>>> {
        Map::new(|k: Seq<char>| self.pools@.dom().contains(k), |k: Seq<char>| self.pools@[k]@)
    }
}

impl<T> AddressPools<T> {
    pub closed spec fn limit(&self) -> int {
        self.max_connections_per_address as int
    }

    pub closed spec fn max_idle(&self) -> u64 {
        self.max_idle_time
    }

    closed spec fn keyed(&self) -> bool {
        self.pools.wf()
    }

    /// The idle connections to an address.
    pub open spec fn idle(&self, key: Seq<char>) -> Seq<Slot<T>> {
        if self@.dom().contains(key) {
            self@[key]
        } else {
            Seq::empty()
        }
    }

    /// No address has more idle connections than allowed.
    pub closed spec fn wf(&self) -> bool {
        &&& self.keyed()
        &&& forall|k: Seq<char>|
            self@.dom().contains(k) ==> (#[trigger] self@[k]).len() <= self.limit()
    }

    /// Every address keeps its idle connections within the limit.
    pub proof fn lemma_within_limit(&self, key: Seq<char>)
        requires
            self.wf(),
        ensures
            self.idle(key).len() <= self.limit(),
    {
    }

    pub fn new(max_connections_per_address: usize, max_idle_time: u64) -> (r: Self)
        ensures
            r.wf(),
            r@ == Map::<Seq<char>, Seq<Slot<T>>>::empty(),
            r.limit() == max_connections_per_address,
            r.max_idle() == max_idle_time,
    {
        let r = AddressPools { pools: Assoc::new(), max_connections_per_address, max_idle_time };
        assert(r@ =~= Map::<Seq<char>, Seq<Slot<T>>>::empty());
        r
    }

    fn take_slots(&mut self, key: &String) -> (r: Option<Vec<Slot<T>>>)
        requires
            old(self).wf(),
        ensures
            final(self).keyed(),
            final(self).limit() == old(self).limit(),
            final(self).max_idle() == old(self).max_idle(),
            final(self)@ == old(self)@.remove(key@),
            match r {
                Some(slots) => old(self)@.dom().contains(key@) && slots@ == old(self)@[key@],
                None => !old(self)@.dom().contains(key@),
            },
    {
        let r = self.pools.take(key);
        assert(self@ =~= old(self)@.remove(key@));
        r
    }

    fn put_slots(&mut self, key: String, slots: Vec<Slot<T>>)
        requires
            old(self).keyed(),
        ensures
            final(self).keyed(),
            final(self).limit() == old(self).limit(),
            final(self).max_idle() == old(self).max_idle(),
            final(self)@ == old(self)@.insert(key@, slots@),
    {
        self.pools.put(key, slots);
        assert(self@ =~= old(self)@.insert(key@, slots@));
    }

    /// Take an idle connection that lives, the one used last first. Dead ones on the way are
    /// dropped.
    #[verifier::loop_isolation(false)]
    pub fn acquire_connection<F: Fn(&T) -> bool>(&mut self, key: &str, is_alive: F) -> (r: Option<
        Slot<T>,
    >)
        requires
            old(self).wf(),
            forall|t: &T| #[trigger] call_requires(is_alive, (t,)),
        ensures
            final(self).wf(),
            final(self).limit() == old(self).limit(),
            final(self).max_idle() == old(self).max_idle(),
            ({
                let slots = old(self).idle(key@);
                match r {
                    Some(slot) => exists|n: int|
                        {
                            &&& #[trigger] found_alive(slots, n, is_alive)
                            &&& slot == slots[n]
                            &&& final(self)@ == old(self)@.insert(key@, slots.take(n))
                        },
                    None => {
                        &&& all_dead(slots, is_alive)
                        &&& final(self)@ == if old(self)@.dom().contains(key@) {
                            old(self)@.insert(key@, Seq::empty())
                        } else {
                            old(self)@
                        }
                    },
                }
            }),
    {
        let owned = key.to_owned();
        let mut slots = match self.take_slots(&owned) {
            Some(slots) => slots,
            None => {
                assert(self@ =~= old(self)@);
                return None;
            },
        };
        let ghost all = slots@;
        assert(all == old(self).idle(key@));
        assert(slots@ =~= all.take(slots@.len() as int));
        while slots.len() > 0
            invariant
                self.keyed(),
                self.limit() == old(self).limit(),
                self.max_idle() == old(self).max_idle(),
                self@ == old(self)@.remove(key@),
                owned@ == key@,
                slots@.len() <= all.len(),
                slots@ == all.take(slots@.len() as int),
                forall|i: int|
                    slots@.len() <= i < all.len() ==> call_ensures(
                        is_alive,
                        (&(#[trigger] all[i]).conn,),
                        false,
                    ),
            decreases slots.len(),
        {
            let ghost n = slots@.len() - 1;
            match slots.pop() {
                Some(slot) => {
                    assert(slot == all[n]);
                    assert(slots@ =~= all.take(n));
                    let alive = is_alive(&slot.conn);
                    if alive {
                        self.put_slots(owned, slots);
                        assert(self@ =~= old(self)@.insert(key@, all.take(n)));
                        assert(found_alive(all, n, is_alive));
                        return Some(slot);
                    }
                },
                None => {},
            }
        }
        self.put_slots(owned, slots);
        assert(slots@ =~= Seq::<Slot<T>>::empty());
        assert(self@ =~= old(self)@.insert(key@, Seq::empty()));
        assert(all_dead(all, is_alive));
        None
    }

    /// A connection comes back after use. Where the address has enough idle ones it is dropped.
    pub fn return_connection(&mut self, key: &str, id: u64, conn: T, now: u64)
        requires
            old(self).wf(),
        ensures
            final(self).wf(),
            final(self).limit() == old(self).limit(),
            final(self).max_idle() == old(self).max_idle(),
            final(self)@ == old(self)@.insert(
                key@,
                if old(self).idle(key@).len() < old(self).limit() {
                    old(self).idle(key@).push(Slot { id, conn, last_used: now })
                } else {
                    old(self).idle(key@)
                },
            ),
    {
        proof {
            self.lemma_within_limit(key@);
        }
        let owned = key.to_owned();
        let mut slots = match self.take_slots(&owned) {
            Some(slots) => slots,
            None => Vec::new(),
        };
        assert(slots@ =~= old(self).idle(key@));
        if slots.len() < self.max_connections_per_address {
            slots.push(Slot { id, conn, last_used: now });
        }
        self.put_slots(owned, slots);
        assert(self@ =~= old(self)@.insert(key@, slots@));
    }

    /// Drop an idle connection.
    pub fn discard_connection(&mut self, key: &str, id: u64)
        requires
            old(self).wf(),
        ensures
            final(self).wf(),
            final(self).limit() == old(self).limit(),
            final(self).max_idle() == old(self).max_idle(),
            final(self)@ == if old(self)@.dom().contains(key@) {
                old(self)@.insert(key@, without_id(old(self)@[key@], id))
            } else {
                old(self)@
            },
    {
        let owned = key.to_owned();
        match self.take_slots(&owned) {
            Some(slots) => {
                proof {
                    lemma_kept_len(slots@, 0, 0, id);
                }
                let kept = keep_others(slots, id);
                self.put_slots(owned, kept);
                assert(self@ =~= old(self)@.insert(key@, kept@));
            },
            None => {
                assert(self@ =~= old(self)@);
            },
        }
    }

    /// Drop the connections that were idle for too long, and addresses without any.
    #[verifier::loop_isolation(false)]
    pub fn prune_idle(&mut self, now: u64)
        requires
            old(self).wf(),
        ensures
            final(self).wf(),
            final(self).limit() == old(self).limit(),
            final(self).max_idle() == old(self).max_idle(),
            forall|k: Seq<char>|
                #![trigger final(self)@.dom().contains(k)]
                {
                    let kept = fresh_slots(old(self).idle(k), now, old(self).max_idle());
                    &&& final(self)@.dom().contains(k) <==> kept.len() > 0
                    &&& kept.len() > 0 ==> final(self)@[k] == kept
                },
    {
        let mut rest: Assoc<String, Vec<Slot<T>>> = Assoc::new();
        std::mem::swap(&mut rest, &mut self.pools);
        let max_idle: u64 = self.max_idle_time;
        let ghost before = old(self)@;
        loop
            invariant
                rest.wf(),
                self.keyed(),
                self.limit() == old(self).limit(),
                self.max_idle() == old(self).max_idle(),
                max_idle == old(self).max_idle(),
                before == old(self)@,
                forall|k: Seq<char>| #[trigger]
                    rest@.dom().contains(k) ==> before.dom().contains(k) && rest@[k]@ == before[k]
                        && !self@.dom().contains(k),
                forall|k: Seq<char>| #[trigger]
                    self@.dom().contains(k) ==> before.dom().contains(k) && self@[k]
                        == fresh_slots(before[k], now, max_idle) && self@[k].len() > 0,
                forall|k: Seq<char>| #[trigger]
                    before.dom().contains(k) && !rest@.dom().contains(k) && !self@.dom().contains(
                        k,
                    ) ==> fresh_slots(before[k], now, max_idle).len() == 0,
            decreases rest.list().len(),
        {
            let ghost rest0 = rest;
            let ghost self0 = self@;
            match rest.take_first() {
                None => {
                    proof {
                        assert forall|k: Seq<char>|
                            #![trigger self@.dom().contains(k)]
                            ({
                                let kept = fresh_slots(old(self).idle(k), now, max_idle);
                                &&& self@.dom().contains(k) <==> kept.len() > 0
                                &&& kept.len() > 0 ==> self@[k] == kept
                            }) by {
                            assert(!rest@.dom().contains(k));
                        }
                        assert forall|k: Seq<char>| self@.dom().contains(k) implies (
                        #[trigger] self@[k]).len() <= self.limit() by {
                            lemma_kept_len(before[k], now, max_idle, 0);
                            old(self).lemma_within_limit(k);
                        }
                    }
                    return;
                },
                Some((key, slots)) => {
                    let ghost k0 = key@;
                    let kept = keep_fresh(slots, now, max_idle);
                    if kept.len() > 0 {
                        self.put_slots(key, kept);
                    }
                    proof {
                        assert forall|k: Seq<char>| #[trigger]
                            rest@.dom().contains(k) implies before.dom().contains(k) && rest@[k]@
                            == before[k] && !self@.dom().contains(k) by {
                            assert(rest0@.dom().contains(k));
                        }
                        assert forall|k: Seq<char>| #[trigger]
                            self@.dom().contains(k) implies before.dom().contains(k) && self@[k]
                            == fresh_slots(before[k], now, max_idle) && self@[k].len() > 0 by {
                            if k != k0 {
                                assert(self0.dom().contains(k));
                            } else {
                                assert(rest0@.dom().contains(k0));
                            }
                        }
                        assert forall|k: Seq<char>| #[trigger]
                            before.dom().contains(k) && !rest@.dom().contains(k)
                                && !self@.dom().contains(k) implies fresh_slots(
                            before[k],
                            now,
                            max_idle,
                        ).len() == 0 by {
                            if k != k0 {
                                assert(!rest0@.dom().contains(k));
                                assert(!self0.dom().contains(k));
                            } else {
                                assert(rest0@.dom().contains(k0));
                            }
                        }
                    }
                },
            }
        }
    }
}

/// An idle connection is used before a new one is made, and the one that came back last comes
/// first: if it lives, an acquisition finds it and nothing else.
pub proof fn law_last_returned_is_acquired<T, F: Fn(&T) -> bool>(
    slots: Seq<Slot<T>>,
    slot: Slot<T>,
    is_alive: F,
)
    requires
        !call_ensures(is_alive, (&slot.conn,), false),
    ensures
        !all_dead(slots.push(slot), is_alive),
        forall|n: int|
            found_alive(slots.push(slot), n, is_alive) ==> n == slots.len() && slots.push(slot)[n]
                == slot && #[trigger] slots.push(slot).take(n) == slots,
{
    let all = slots.push(slot);
    assert(all[slots.len() as int] == slot);
    assert forall|n: int| found_alive(all, n, is_alive) implies n == slots.len() && all[n] == slot
        && #[trigger] all.take(n) == slots by {
        if n < slots.len() {
            assert(call_ensures(is_alive, (&all[slots.len() as int].conn,), false));
        }
        assert(all.take(slots.len() as int) =~= slots);
    }
}

/// Exactly the connections that idled for less than the limit stay, in order.
pub proof fn law_idle_connections_are_dropped<T>(slots: Seq<Slot<T>>, now: u64, max_idle: u64)
    ensures
        fresh_slots(slots, now, max_idle) == lists::picked(
            slots,
            |slot: Slot<T>|
                if (now < slot.last_used && max_idle > 0) || (now >= slot.last_used && now
                    - slot.last_used < max_idle) {
                    Some(slot)
                } else {
                    None
                },
        ),
    decreases slots.len(),
{
    if slots.len() > 0 {
        law_idle_connections_are_dropped(slots.drop_last(), now, max_idle);
        let f = |slot: Slot<T>|
            if (now < slot.last_used && max_idle > 0) || (now >= slot.last_used && now
                - slot.last_used < max_idle) {
                Some(slot)
            } else {
                None
            };
        assert(fresh_slots(slots, now, max_idle) =~= lists::picked(slots, f));
    }
}

/// Exactly the connection with the identifier is dropped.
pub proof fn law_only_the_named_connection_is_dropped<T>(slots: Seq<Slot<T>>, id: u64)
    ensures
        without_id(slots, id) == lists::picked(
            slots,
            |slot: Slot<T>|
                if slot.id == id {
                    None
                } else {
                    Some(slot)
                },
        ),
    decreases slots.len(),
{
    if slots.len() > 0 {
        law_only_the_named_connection_is_dropped(slots.drop_last(), id);
        let f = |slot: Slot<T>|
            if slot.id == id {
                None
            } else {
                Some(slot)
            };
        assert(without_id(slots, id) =~= lists::picked(slots, f));
    }
}

} // verus!
