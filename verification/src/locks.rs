//! Advisory, non-blocking mutual exclusion keyed by string identifiers.
//!
//! A [`LockMap`] associates keys — account and link ids — with a held/free
//! flag.  Locking never waits: a held key answers `None` at once.  A key
//! never seen before is entered in the held state; releasing a guard flips
//! its key back to free but never removes the entry, so the map grows with
//! the set of distinct keys ever locked (acceptable while that set is
//! bounded).  The lock is purely advisory: it restrains only callers that
//! consult it.

use vstd::prelude::*;

verus! {

use vstd::pervasive::VecAdditionalExecFns;

/// A map from string keys to held/free lock flags.
pub struct LockMap {
    entries: Vec<(String, bool)>,
}

/// A witness that a key in a [`LockMap`] is held; handing it back to
/// [`LockMap::unlock`] frees the key.
pub struct LockMapGuard {
    key: String,
}

impl LockMapGuard {
    /// The key this guard holds.
    pub closed spec fn view(&self) -> Seq<char> {
        self.key@
    }

    /// The key this guard holds.
    pub fn key(&self) -> (k: &String)
        ensures
            k@ == self@,
    {
        &self.key
    }
}

impl LockMap {
    /// Each key appears at most once.
    pub closed spec fn wf(self) -> bool {
        forall|i: int, j: int|
            0 <= i < j < self.entries@.len() ==> (#[trigger] self.entries@[i]).0@ != (
            #[trigger] self.entries@[j]).0@
    }

    /// Whether the key has ever been locked through this map.
    pub closed spec fn contains(self, k: Seq<char>) -> bool {
        exists|i: int| 0 <= i < self.entries@.len() && (#[trigger] self.entries@[i]).0@ == k
    }

    /// Whether the key is currently held.
    pub closed spec fn held(self, k: Seq<char>) -> bool {
        exists|i: int|
            0 <= i < self.entries@.len() && (#[trigger] self.entries@[i]).0@ == k
                && self.entries@[i].1
    }

    /// An empty lock map.
    pub fn new() -> (m: Self)
        ensures
            m.wf(),
            forall|k: Seq<char>| !m.contains(k),
            forall|k: Seq<char>| !m.held(k),
    {
        LockMap { entries: Vec::new() }
    }

    /// An empty lock map; the capacity is advisory.
    pub fn with_capacity(capacity: usize) -> (m: Self)
        ensures
            m.wf(),
            forall|k: Seq<char>| !m.contains(k),
            forall|k: Seq<char>| !m.held(k),
    {
        LockMap { entries: Vec::with_capacity(capacity) }
    }

    /// Try to acquire the lock for `key`, without blocking.
    ///
    /// A free or never-seen key is flipped (or entered) as held and a guard
    /// is returned; a held key answers `None` at once and the map is
    /// untouched.  Every other key's state is left as it was.
    pub fn lock(&mut self, key: &str) -> (g: Option<LockMapGuard>)
        requires
            old(self).wf(),
        ensures
            final(self).wf(),
            g is Some <==> !old(self).held(key@),
            g matches Some(guard) ==> guard@ == key@,
            !old(self).held(key@) ==> {
                &&& final(self).contains(key@)
                &&& final(self).held(key@)
            },
            old(self).held(key@) ==> *final(self) == *old(self),
            forall|k: Seq<char>|
                k != key@ ==> (#[trigger] final(self).contains(k) <==> old(self).contains(k)),
            forall|k: Seq<char>|
                k != key@ ==> (#[trigger] final(self).held(k) <==> old(self).held(k)),
    {
        let owned: String = key.to_owned();
        let n: usize = self.entries.len();
        let mut i: usize = 0;
        while i < n
            invariant
                n == self.entries@.len(),
                0 <= i <= n,
                forall|j: int| 0 <= j < i ==> (#[trigger] self.entries@[j]).0@ != key@,
                owned@ == key@,
                self.wf(),
                *self == *old(self),
            decreases n - i,
        {
            if string_eq(&self.entries[i].0, &owned) {
                if self.entries[i].1 {
                    proof {
                        assert(old(self).held(key@));
                    }
                    return None;
                } else {
                    let ghost prev = self.entries@;
                    self.entries.set(i, (owned, true));
                    proof {
                        assert(!old(self).held(key@)) by {
                            assert(forall|j: int|
                                0 <= j < prev.len() && (#[trigger] prev[j]).0@ == key@ ==> j == i);
                        }
                        assert forall|k: Seq<char>| k != key@ implies (#[trigger] self.contains(k)
                            <==> old(self).contains(k)) by {
                            lemma_update_preserves_key(prev, self.entries@, i as int, k);
                        }
                        assert forall|k: Seq<char>| k != key@ implies (#[trigger] self.held(k)
                            <==> old(self).held(k)) by {
                            lemma_update_preserves_key(prev, self.entries@, i as int, k);
                        }
                    }
                    return Some(LockMapGuard { key: key.to_owned() });
                }
            }
            i = i + 1;
        }
        let ghost prev = self.entries@;
        self.entries.push((owned, true));
        proof {
            assert(!old(self).held(key@));
            assert(self.contains(key@) && self.held(key@)) by {
                assert(self.entries@[prev.len() as int].0@ == key@);
            }
            assert forall|k: Seq<char>| k != key@ implies (#[trigger] self.contains(k)
                <==> old(self).contains(k)) by {
                lemma_push_preserves_key(prev, self.entries@, k);
            }
            assert forall|k: Seq<char>| k != key@ implies (#[trigger] self.held(k)
                <==> old(self).held(k)) by {
                lemma_push_preserves_key(prev, self.entries@, k);
            }
        }
        Some(LockMapGuard { key: key.to_owned() })
    }

    /// Release a held key, flipping it back to free.  The entry stays in
    /// the map.
    pub fn unlock(&mut self, guard: LockMapGuard)
        requires
            old(self).wf(),
            old(self).contains(guard@),
        ensures
            final(self).wf(),
            !final(self).held(guard@),
            final(self).contains(guard@),
            forall|k: Seq<char>|
                (#[trigger] final(self).contains(k) <==> old(self).contains(k)),
            forall|k: Seq<char>|
                k != guard@ ==> (#[trigger] final(self).held(k) <==> old(self).held(k)),
    {
        let n: usize = self.entries.len();
        let mut i: usize = 0;
        while i < n
            invariant
                n == self.entries@.len(),
                0 <= i <= n,
                forall|j: int| 0 <= j < i ==> (#[trigger] self.entries@[j]).0@ != guard@,
                self.wf(),
                *self == *old(self),
            decreases n - i,
        {
            if string_eq(&self.entries[i].0, guard.key()) {
                let ghost prev = self.entries@;
                let k: String = guard.key;
                self.entries.set(i, (k, false));
                proof {
                    assert(forall|j: int|
                        0 <= j < prev.len() && (#[trigger] prev[j]).0@ == guard@ ==> j == i);
                    assert forall|k: Seq<char>| k != guard@ implies (#[trigger] self.contains(k)
                        <==> old(self).contains(k)) by {
                        lemma_update_preserves_key(prev, self.entries@, i as int, k);
                    }
                    assert forall|k: Seq<char>| k != guard@ implies (#[trigger] self.held(k)
                        <==> old(self).held(k)) by {
                        lemma_update_preserves_key(prev, self.entries@, i as int, k);
                    }
                    assert(self.contains(guard@)) by {
                        assert(self.entries@[i as int].0@ == guard@);
                    }
                }
                return ;
            }
            i = i + 1;
        }
        proof {
            // The scan found no entry, yet a guard's key is always in the
            // map: this exit contradicts the precondition.
            assert(!old(self).contains(guard@));
        }
    }
}

/// Compare two strings for equality.
fn string_eq(a: &String, b: &String) -> (r: bool)
    ensures
        r <==> a@ == b@,
{
    a.eq(b)
}

/// Updating one entry leaves any other key's presence and held state as
/// it was.
proof fn lemma_update_preserves_key(
    prev: Seq<(String, bool)>,
    cur: Seq<(String, bool)>,
    i: int,
    k: Seq<char>,
)
    requires
        0 <= i < prev.len(),
        cur.len() == prev.len(),
        cur[i].0@ == prev[i].0@,
        forall|j: int| 0 <= j < prev.len() && j != i ==> cur[j] == prev[j],
        k != prev[i].0@,
    ensures
        (exists|j: int| 0 <= j < cur.len() && (#[trigger] cur[j]).0@ == k) <==> (exists|j: int|
            0 <= j < prev.len() && (#[trigger] prev[j]).0@ == k),
        (exists|j: int| 0 <= j < cur.len() && (#[trigger] cur[j]).0@ == k && cur[j].1) <==> (
        exists|j: int| 0 <= j < prev.len() && (#[trigger] prev[j]).0@ == k && prev[j].1),
{
    if exists|j: int| 0 <= j < cur.len() && (#[trigger] cur[j]).0@ == k {
        let j = choose|j: int| 0 <= j < cur.len() && (#[trigger] cur[j]).0@ == k;
        assert(prev[j].0@ == k);
    }
    if exists|j: int| 0 <= j < prev.len() && (#[trigger] prev[j]).0@ == k {
        let j = choose|j: int| 0 <= j < prev.len() && (#[trigger] prev[j]).0@ == k;
        assert(cur[j].0@ == k);
    }
    if exists|j: int| 0 <= j < cur.len() && (#[trigger] cur[j]).0@ == k && cur[j].1 {
        let j = choose|j: int| 0 <= j < cur.len() && (#[trigger] cur[j]).0@ == k && cur[j].1;
        assert(prev[j].0@ == k && prev[j].1);
    }
    if exists|j: int| 0 <= j < prev.len() && (#[trigger] prev[j]).0@ == k && prev[j].1 {
        let j = choose|j: int| 0 <= j < prev.len() && (#[trigger] prev[j]).0@ == k && prev[j].1;
        assert(cur[j].0@ == k && cur[j].1);
    }
}

/// Appending an entry leaves any other key's presence and held state as it
/// was.
proof fn lemma_push_preserves_key(prev: Seq<(String, bool)>, cur: Seq<(String, bool)>, k: Seq<char>)
    requires
        cur.len() == prev.len() + 1,
        forall|j: int| 0 <= j < prev.len() ==> cur[j] == prev[j],
        k != cur[prev.len() as int].0@,
    ensures
        (exists|j: int| 0 <= j < cur.len() && (#[trigger] cur[j]).0@ == k) <==> (exists|j: int|
            0 <= j < prev.len() && (#[trigger] prev[j]).0@ == k),
        (exists|j: int| 0 <= j < cur.len() && (#[trigger] cur[j]).0@ == k && cur[j].1) <==> (
        exists|j: int| 0 <= j < prev.len() && (#[trigger] prev[j]).0@ == k && prev[j].1),
{
    if exists|j: int| 0 <= j < cur.len() && (#[trigger] cur[j]).0@ == k {
        let j = choose|j: int| 0 <= j < cur.len() && (#[trigger] cur[j]).0@ == k;
        assert(j < prev.len() && prev[j].0@ == k);
    }
    if exists|j: int| 0 <= j < prev.len() && (#[trigger] prev[j]).0@ == k {
        let j = choose|j: int| 0 <= j < prev.len() && (#[trigger] prev[j]).0@ == k;
        assert(cur[j].0@ == k);
    }
    if exists|j: int| 0 <= j < cur.len() && (#[trigger] cur[j]).0@ == k && cur[j].1 {
        let j = choose|j: int| 0 <= j < cur.len() && (#[trigger] cur[j]).0@ == k && cur[j].1;
        assert(j < prev.len() && prev[j].0@ == k && prev[j].1);
    }
    if exists|j: int| 0 <= j < prev.len() && (#[trigger] prev[j]).0@ == k && prev[j].1 {
        let j = choose|j: int| 0 <= j < prev.len() && (#[trigger] prev[j]).0@ == k && prev[j].1;
        assert(cur[j].0@ == k && cur[j].1);
    }
}

} // verus!
