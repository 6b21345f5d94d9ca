//! Shells on a bastion's assets, kept for the next operation on the same asset.
use crate::text::same;
use vstd::prelude::*;

verus! {

/// A shell that waits at its prompt.
pub struct CachedShell<T> {
    pub ip: String,
    pub shell: T,
    pub last_used: u64,
}

/// The shells in the order of their last use, the oldest first. With a limit the oldest
/// give way.
pub struct SessionCache<T> {
    shells: Vec<CachedShell<T>>,
    max_cached_sessions: Option<usize>,
}

/// Whether each shell was used no earlier than those before it.
pub open spec fn by_age<T>(shells: Seq<CachedShell<T>>) -> bool {
    forall|i: int, j: int|
        0 <= i <= j < shells.len() ==> (#[trigger] shells[i]).last_used <= (
        #[trigger] shells[j]).last_used
}

/// The index of the newest shell on an address, or -1.
pub open spec fn newest_for<T>(shells: Seq<CachedShell<T>>, ip: Seq<char>) -> int
    decreases shells.len(),
{
    if shells.len() == 0 {
        -1
    } else if shells.last().ip@ == ip {
        shells.len() - 1
    } else {
        newest_for(shells.drop_last(), ip)
    }
}

/// The shells that are left once there is room for one more.
pub open spec fn with_room<T>(shells: Seq<CachedShell<T>>, max: Option<usize>) -> Seq<
    CachedShell<T>,
> {
    match max {
        Some(m) => if shells.len() >= m {
            shells.skip(shells.len() - m + 1)
        } else {
            shells
        },
        None => shells,
    }
}

/// The time at which a shell comes back: now, but never before the shell that came last.
pub open spec fn time_of_return<T>(shells: Seq<CachedShell<T>>, now: u64) -> u64 {
    if shells.len() > 0 && now < shells.last().last_used {
        shells.last().last_used
    } else {
        now
    }
}

/// The shells once one more came back. At the limit the oldest one goes first.
pub open spec fn with_shell<T>(
    shells: Seq<CachedShell<T>>,
    max: Option<usize>,
    ip: String,
    shell: T,
    now: u64,
) -> Seq<CachedShell<T>> {
    with_room(shells, max).push(
        CachedShell { ip, shell, last_used: time_of_return(shells, now) },
    )
}

/// The shells that were used not longer than `idle_timeout` ago, from the first such one
/// on.
pub open spec fn fresh_part<T>(shells: Seq<CachedShell<T>>, now: u64, idle_timeout: u64) -> Seq<
    CachedShell<T>,
>
    decreases shells.len(),
{
    if shells.len() > 0 && now - shells[0].last_used > idle_timeout {
        fresh_part(shells.skip(1), now, idle_timeout)
    } else {
        shells
    }
}

proof fn lemma_newest_for<T>(shells: Seq<CachedShell<T>>, ip: Seq<char>, i: int)
    requires
        -1 <= i < shells.len(),
        i >= 0 ==> shells[i].ip@ == ip,
        forall|j: int| i < j < shells.len() ==> (#[trigger] shells[j]).ip@ != ip,
    ensures
        newest_for(shells, ip) == i,
    decreases shells.len(),
{
    if shells.len() > 0 && i < shells.len() - 1 {
        assert(shells[shells.len() - 1].ip@ != ip);
        assert forall|j: int| i < j < shells.len() - 1 implies (
        #[trigger] shells.drop_last()[j]).ip@ != ip by {
            assert(shells.drop_last()[j] == shells[j]);
        }
        lemma_newest_for(shells.drop_last(), ip, i);
    }
}

impl<T> SessionCache<T> {
    pub closed spec fn entries(&self) -> Seq<CachedShell<T>> {
        self.shells@
    }

    pub closed spec fn limit(&self) -> Option<usize> {
        self.max_cached_sessions
    }

    /// Shells are in order of age and not more than the limit.
    pub open spec fn wf(&self) -> bool {
        &&& by_age(self.entries())
        &&& self.limit() matches Some(m) ==> self.entries().len() <= m
    }

    pub fn new(max_cached_sessions: Option<usize>) -> (r: Self)
        ensures
            r.wf(),
            r.entries().len() == 0,
            r.limit() == max_cached_sessions,
    {
        SessionCache { shells: Vec::new(), max_cached_sessions }
    }

    /// How many shells are cached.
    pub fn len(&self) -> (r: usize)
        ensures
            r == self.entries().len(),
    {
        self.shells.len()
    }

    /// Take the newest shell on the given address.
    pub fn checkout(&mut self, ip: &str) -> (r: Option<T>)
        requires
            old(self).wf(),
        ensures
            final(self).wf(),
            final(self).limit() == old(self).limit(),
            ({
                let i = newest_for(old(self).entries(), ip@);
                match r {
                    Some(shell) => {
                        &&& 0 <= i < old(self).entries().len()
                        &&& old(self).entries()[i].ip@ == ip@
                        &&& shell == old(self).entries()[i].shell
                        &&& final(self).entries() == old(self).entries().remove(i)
                    },
                    None => i < 0 && final(self).entries() == old(self).entries(),
                }
            }),
    {
        let mut i: usize = self.shells.len();
        while i > 0 && !same(self.shells[i - 1].ip.as_str(), ip)
            invariant
                i <= self.shells.len(),
                forall|j: int| i <= j < self.shells@.len() ==> (#[trigger] self.shells@[j]).ip@
                    != ip@,
            decreases i,
        {
            i -= 1;
        }
        proof {
            lemma_newest_for(self.shells@, ip@, i - 1);
        }
        if i == 0 {
            return None;
        }
        let entry = self.shells.remove(i - 1);
        Some(entry.shell)
    }

    /// Keep a shell. At the limit the oldest ones go first. With a limit of none at all no
    /// shell can be kept.
    pub fn insert(&mut self, ip: String, shell: T, now: u64)
        requires
            old(self).wf(),
            old(self).limit() != Some(0usize),
        ensures
            final(self).wf(),
            final(self).limit() == old(self).limit(),
            final(self).entries() == with_shell(
                old(self).entries(),
                old(self).limit(),
                ip,
                shell,
                now,
            ),
    {
        let ghost start = self.shells@;
        let count: usize = self.shells.len();
        let last_used: u64 = if count > 0 && now < self.shells[count - 1].last_used {
            self.shells[count - 1].last_used
        } else {
            now
        };
        assert(last_used == time_of_return(start, now));
        if let Some(max) = self.max_cached_sessions {
            let ghost mut gone: int = 0;
            assert(self.shells@ =~= start.skip(0));
            while self.shells.len() >= max
                invariant
                    1 <= max,
                    start.len() <= max,
                    self.max_cached_sessions == Some(max),
                    0 <= gone <= 1,
                    gone <= start.len(),
                    self.shells@ == start.skip(gone),
                    gone == 1 ==> start.len() >= max,
                decreases self.shells.len(),
            {
                let _ = self.shells.remove(0);
                proof {
                    gone = gone + 1;
                    assert(self.shells@ =~= start.skip(gone));
                }
            }
            assert(self.shells@ =~= with_room(start, Some(max)));
        }
        self.shells.push(CachedShell { ip, shell, last_used });
    }

    /// Drop the shells that were not used for longer than `idle_timeout`.
    pub fn prune(&mut self, now: u64, idle_timeout: u64)
        requires
            old(self).wf(),
        ensures
            final(self).wf(),
            final(self).limit() == old(self).limit(),
            final(self).entries() == fresh_part(old(self).entries(), now, idle_timeout),
    {
        let ghost start = self.shells@;
        while self.shells.len() > 0 && now >= self.shells[0].last_used && now
            - self.shells[0].last_used > idle_timeout
            invariant
                self.wf(),
                self.limit() == old(self).limit(),
                fresh_part(self.shells@, now, idle_timeout) == fresh_part(
                    start,
                    now,
                    idle_timeout,
                ),
            decreases self.shells.len(),
        {
            let ghost before = self.shells@;
            let _ = self.shells.remove(0);
            proof {
                assert(self.shells@ =~= before.skip(1));
                assert forall|i: int, j: int| 0 <= i <= j < self.shells@.len() implies (
                #[trigger] self.shells@[i]).last_used <= (#[trigger] self.shells@[j]).last_used by {
                    assert(self.shells@[i] == before[i + 1]);
                    assert(self.shells@[j] == before[j + 1]);
                }
            }
        }
    }

    /// Drop all shells.
    pub fn clear(&mut self)
        requires
            old(self).wf(),
        ensures
            final(self).wf(),
            final(self).limit() == old(self).limit(),
            final(self).entries().len() == 0,
    {
        self.shells = Vec::new();
    }
}

/// A shell that was just cached is the one handed out next for its address, and the others are
/// then as they were but for the one that had to go.
pub proof fn law_cached_shell_is_handed_out<T>(
    shells: Seq<CachedShell<T>>,
    max: Option<usize>,
    ip: String,
    shell: T,
    now: u64,
)
    ensures
        ({
            let after = with_shell(shells, max, ip, shell, now);
            let i = newest_for(after, ip@);
            i == after.len() - 1 && after[i].shell == shell && after.remove(i) == with_room(
                shells,
                max,
            )
        }),
{
    let after = with_shell(shells, max, ip, shell, now);
    assert(after.remove(after.len() - 1) =~= with_room(shells, max));
}

/// At its limit the cache gives up exactly the shell that came first, whatever its address;
/// below the limit it gives up none. It never holds more shells than the limit allows.
pub proof fn law_oldest_shell_gives_way<T>(
    shells: Seq<CachedShell<T>>,
    max: usize,
    ip: String,
    shell: T,
    now: u64,
)
    requires
        max >= 1,
        shells.len() <= max,
    ensures
        ({
            let after = with_shell(shells, Some(max), ip, shell, now);
            &&& after.last().ip == ip && after.last().shell == shell
            &&& shells.len() < max ==> after.drop_last() == shells && after.len() == shells.len()
                + 1
            &&& shells.len() == max ==> after.drop_last() == shells.skip(1) && after.len() == max
        }),
{
    let after = with_shell(shells, Some(max), ip, shell, now);
    assert(after.drop_last() =~= with_room(shells, Some(max)));
}

/// After pruning, a shell is there if and only if it was used recently enough: no fresh
/// shell is dropped and no stale one is left.
pub proof fn law_pruning_keeps_exactly_the_fresh<T>(
    shells: Seq<CachedShell<T>>,
    now: u64,
    idle_timeout: u64,
)
    requires
        by_age(shells),
    ensures
        ({
            let left = fresh_part(shells, now, idle_timeout);
            &&& left.len() <= shells.len()
            &&& left == shells.skip(shells.len() - left.len())
            &&& forall|i: int|
                0 <= i < shells.len() - left.len() ==> now - (#[trigger] shells[i]).last_used
                    > idle_timeout
            &&& forall|i: int|
                0 <= i < left.len() ==> now - (#[trigger] left[i]).last_used <= idle_timeout
        }),
    decreases shells.len(),
{
    let left = fresh_part(shells, now, idle_timeout);
    if shells.len() > 0 && now - shells[0].last_used > idle_timeout {
        let rest = shells.skip(1);
        assert forall|i: int, j: int| 0 <= i <= j < rest.len() implies (
        #[trigger] rest[i]).last_used <= (#[trigger] rest[j]).last_used by {
            assert(rest[i] == shells[i + 1]);
            assert(rest[j] == shells[j + 1]);
        }
        law_pruning_keeps_exactly_the_fresh(rest, now, idle_timeout);
        assert(left =~= shells.skip(shells.len() - left.len()));
        assert forall|i: int| 0 <= i < shells.len() - left.len() implies now - (
        #[trigger] shells[i]).last_used > idle_timeout by {
            if i > 0 {
                assert(rest[i - 1] == shells[i]);
            }
        }
    } else {
        assert(shells.skip(0) =~= shells);
        assert forall|i: int| 0 <= i < left.len() implies now - (#[trigger] left[i]).last_used
            <= idle_timeout by {
            assert(shells[0].last_used <= shells[i].last_used);
        }
    }
}

} // verus!
