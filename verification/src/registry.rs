//! The transfer registry: the in-process mapping from transfer id to
//! [`TransferStatus`], shared between the UI dispatcher and the sender and
//! receiver state machines.
//!
//! The registry is the synchronisation point for pause / resume / cancel:
//! the UI writes a status here, and each state machine observes it on its
//! next poll. This module holds the map itself; the surrounding
//! application wraps it in a lock and hands observed statuses to the state
//! machines as events.

use vstd::map::*;
use vstd::prelude::*;

verus! {

/// The lifecycle status of one transfer, as held in the registry.
#[derive(Clone, Copy, Debug, PartialEq, Eq, Structural)]
pub enum TransferStatus {
    InProgress,
    Paused,
    Cancelled,
    Completed,
    Failed,
}

/// Mapping from transfer id to current [`TransferStatus`].
///
/// Modelled as a `Map<Seq<char>, TransferStatus>`; the entry list keeps
/// one entry per id.
pub struct TransferRegistry {
    entries: Vec<(String, TransferStatus)>,
}

/// Whether some entry of `s` carries the id `k`.
pub open spec fn has_entry(s: Seq<(String, TransferStatus)>, k: Seq<char>) -> bool {
    exists|i: int| 0 <= i < s.len() && #[trigger] s[i].0@ == k
}

/// The status that the entry carrying `k` holds.
pub open spec fn entry_value(s: Seq<(String, TransferStatus)>, k: Seq<char>) -> TransferStatus {
    s[choose|i: int| 0 <= i < s.len() && #[trigger] s[i].0@ == k].1
}

/// The mapping that an entry list denotes.
pub open spec fn entries_map(s: Seq<(String, TransferStatus)>) -> Map<Seq<char>, TransferStatus> {
    Map::new(|k: Seq<char>| has_entry(s, k), |k: Seq<char>| entry_value(s, k))
}

impl TransferRegistry {
    /// No two entries carry the same id.
    pub closed spec fn wf(&self) -> bool {
        forall|i: int, j: int|
            0 <= i < j < self.entries@.len() ==> #[trigger] self.entries@[i].0@
                != #[trigger] self.entries@[j].0@
    }

    pub closed spec fn view(&self) -> Map<Seq<char>, TransferStatus> {
        entries_map(self.entries@)
    }

    /// An empty registry.
    pub fn new() -> (r: TransferRegistry)
        ensures
            r.wf(),
            r@ == Map::<Seq<char>, TransferStatus>::empty(),
    {
        let r = TransferRegistry { entries: Vec::new() };
        proof {
            assert(r@ =~= Map::<Seq<char>, TransferStatus>::empty());
        }
        r
    }

    /// The status registered for `id`, if any.
    pub fn get(&self, id: &String) -> (r: Option<TransferStatus>)
        requires
            self.wf(),
        ensures
            r == if self@.contains_key(id@) {
                Some(self@[id@])
            } else {
                None::<TransferStatus>
            },
    {
        let n = self.entries.len();
        let mut i: usize = 0;
        while i < n
            invariant
                self.wf(),
                n == self.entries@.len(),
                0 <= i <= n,
                forall|j: int| 0 <= j < i ==> #[trigger] self.entries@[j].0@ != id@,
            decreases n - i,
        {
            if self.entries[i].0.eq(id) {
                proof {
                    let w = choose|w: int|
                        0 <= w < self.entries@.len() && #[trigger] self.entries@[w].0@ == id@;
                    assert(w == i);
                }
                return Some(self.entries[i].1);
            }
            i += 1;
        }
        proof {
            assert(!has_entry(self.entries@, id@));
        }
        None
    }

    /// The status registered for `id`, defaulting to `InProgress` where no
    /// entry exists — the reading both state machines apply on each poll.
    pub fn status_of(&self, id: &String) -> (r: TransferStatus)
        requires
            self.wf(),
        ensures
            r == if self@.contains_key(id@) {
                self@[id@]
            } else {
                TransferStatus::InProgress
            },
    {
        match self.get(id) {
            Some(s) => s,
            None => TransferStatus::InProgress,
        }
    }

    /// Registers `status` for `id`, replacing any earlier entry.
    pub fn insert(&mut self, id: String, status: TransferStatus)
        requires
            old(self).wf(),
        ensures
            final(self).wf(),
            final(self)@ == old(self)@.insert(id@, status),
    {
        let found = self.find_index(&id);
        match found {
            Some(i) => {
                let ghost old_entries = self.entries@;
                self.entries[i].1 = status;
                proof {
                    lemma_update_entry(old_entries, self.entries@, i as int, id@, status);
                }
            },
            None => {
                let ghost old_entries = self.entries@;
                self.entries.push((id, status));
                proof {
                    lemma_push_entry(old_entries, self.entries@, id@, status);
                }
            },
        }
    }

    /// The position of the entry carrying `id`, if any.
    fn find_index(&self, id: &String) -> (r: Option<usize>)
        requires
            self.wf(),
        ensures
            match r {
                Some(i) => i < self.entries@.len() && self.entries@[i as int].0@ == id@,
                None => !has_entry(self.entries@, id@),
            },
    {
        let n = self.entries.len();
        let mut i: usize = 0;
        while i < n
            invariant
                n == self.entries@.len(),
                0 <= i <= n,
                forall|j: int| 0 <= j < i ==> #[trigger] self.entries@[j].0@ != id@,
            decreases n - i,
        {
            if self.entries[i].0.eq(id) {
                return Some(i);
            }
            i += 1;
        }
        None
    }

    /// Marks `id` paused, if the registry knows it. Returns whether it
    /// did: an unknown id is left alone and reported to the caller.
    pub fn pause_transfer(&mut self, id: &String) -> (ok: bool)
        requires
            old(self).wf(),
        ensures
            final(self).wf(),
            ok == old(self)@.contains_key(id@),
            ok ==> final(self)@ == old(self)@.insert(id@, TransferStatus::Paused),
            !ok ==> final(self)@ == old(self)@,
    {
        self.set_if_known(id, TransferStatus::Paused)
    }

    /// Marks `id` in progress again, if the registry knows it.
    pub fn resume_transfer(&mut self, id: &String) -> (ok: bool)
        requires
            old(self).wf(),
        ensures
            final(self).wf(),
            ok == old(self)@.contains_key(id@),
            ok ==> final(self)@ == old(self)@.insert(id@, TransferStatus::InProgress),
            !ok ==> final(self)@ == old(self)@,
    {
        self.set_if_known(id, TransferStatus::InProgress)
    }

    /// Marks `id` cancelled, if the registry knows it. Both state machines
    /// observe the new value within one polling tick.
    pub fn cancel_transfer(&mut self, id: &String) -> (ok: bool)
        requires
            old(self).wf(),
        ensures
            final(self).wf(),
            ok == old(self)@.contains_key(id@),
            ok ==> final(self)@ == old(self)@.insert(id@, TransferStatus::Cancelled),
            !ok ==> final(self)@ == old(self)@,
    {
        self.set_if_known(id, TransferStatus::Cancelled)
    }

    fn set_if_known(&mut self, id: &String, status: TransferStatus) -> (ok: bool)
        requires
            old(self).wf(),
        ensures
            final(self).wf(),
            ok == old(self)@.contains_key(id@),
            ok ==> final(self)@ == old(self)@.insert(id@, status),
            !ok ==> final(self)@ == old(self)@,
    {
        if self.get(id).is_some() {
            self.insert(id.clone(), status);
            true
        } else {
            false
        }
    }
}

proof fn lemma_update_entry(
    s1: Seq<(String, TransferStatus)>,
    s2: Seq<(String, TransferStatus)>,
    i: int,
    k: Seq<char>,
    status: TransferStatus,
)
    requires
        forall|a: int, b: int| 0 <= a < b < s1.len() ==> #[trigger] s1[a].0@ != #[trigger] s1[b].0@,
        0 <= i < s1.len(),
        s1[i].0@ == k,
        s2.len() == s1.len(),
        s2[i].1 == status,
        s2[i].0@ == k,
        forall|j: int| 0 <= j < s1.len() && j != i ==> s2[j] == s1[j],
    ensures
        forall|a: int, b: int| 0 <= a < b < s2.len() ==> #[trigger] s2[a].0@ != #[trigger] s2[b].0@,
        entries_map(s2) == entries_map(s1).insert(k, status),
{
    assert(forall|j: int| 0 <= j < s2.len() ==> #[trigger] s2[j].0@ == s1[j].0@);
    let m1 = entries_map(s1);
    let m2 = entries_map(s2);
    assert forall|q: Seq<char>| has_entry(s2, q) implies has_entry(s1, q) by {
        let w = choose|w: int| 0 <= w < s2.len() && #[trigger] s2[w].0@ == q;
        assert(s1[w].0@ == q);
    }
    assert forall|q: Seq<char>| has_entry(s1, q) implies has_entry(s2, q) by {
        let w = choose|w: int| 0 <= w < s1.len() && #[trigger] s1[w].0@ == q;
        assert(s2[w].0@ == q);
    }
    assert forall|q: Seq<char>| has_entry(s2, q) implies entry_value(s2, q) == m1.insert(
        k,
        status,
    )[q] by {
        let w = choose|w: int| 0 <= w < s2.len() && #[trigger] s2[w].0@ == q;
        if q == k {
            assert(w == i);
            assert(entry_value(s2, q) == status);
        } else {
            assert(w != i);
            let w1 = choose|w1: int| 0 <= w1 < s1.len() && #[trigger] s1[w1].0@ == q;
            assert(w1 == w);
            assert(entry_value(s1, q) == s1[w].1);
            assert(entry_value(s2, q) == s2[w].1);
        }
    }
    assert(m2 =~= m1.insert(k, status));
}

proof fn lemma_push_entry(
    s1: Seq<(String, TransferStatus)>,
    s2: Seq<(String, TransferStatus)>,
    k: Seq<char>,
    status: TransferStatus,
)
    requires
        forall|a: int, b: int| 0 <= a < b < s1.len() ==> #[trigger] s1[a].0@ != #[trigger] s1[b].0@,
        forall|j: int| 0 <= j < s1.len() ==> #[trigger] s1[j].0@ != k,
        s2.len() == s1.len() + 1,
        s2[s1.len() as int].0@ == k,
        s2[s1.len() as int].1 == status,
        forall|j: int| 0 <= j < s1.len() ==> s2[j] == s1[j],
    ensures
        forall|a: int, b: int| 0 <= a < b < s2.len() ==> #[trigger] s2[a].0@ != #[trigger] s2[b].0@,
        entries_map(s2) == entries_map(s1).insert(k, status),
{
    let n = s1.len() as int;
    assert(forall|j: int| 0 <= j < n ==> #[trigger] s2[j].0@ == s1[j].0@);
    let m1 = entries_map(s1);
    let m2 = entries_map(s2);
    assert forall|a: int, b: int| 0 <= a < b < s2.len() implies #[trigger] s2[a].0@
        != #[trigger] s2[b].0@ by {
        if b == n {
            assert(s2[a].0@ == s1[a].0@);
        }
    }
    assert forall|q: Seq<char>| has_entry(s1, q) implies has_entry(s2, q) by {
        let w = choose|w: int| 0 <= w < s1.len() && #[trigger] s1[w].0@ == q;
        assert(s2[w].0@ == q);
    }
    assert(has_entry(s2, k));
    assert forall|q: Seq<char>| has_entry(s2, q) implies entry_value(s2, q) == m1.insert(
        k,
        status,
    )[q] by {
        let w = choose|w: int| 0 <= w < s2.len() && #[trigger] s2[w].0@ == q;
        if q == k {
            assert(w == n);
            assert(entry_value(s2, q) == status);
        } else {
            assert(w != n);
            assert(s1[w].0@ == q);
            let w1 = choose|w1: int| 0 <= w1 < s1.len() && #[trigger] s1[w1].0@ == q;
            assert(w1 == w);
            assert(entry_value(s2, q) == s2[w].1);
            assert(entry_value(s1, q) == s1[w1].1);
        }
    }
    assert forall|q: Seq<char>| has_entry(s2, q) && q != k implies has_entry(s1, q) by {
        let w = choose|w: int| 0 <= w < s2.len() && #[trigger] s2[w].0@ == q;
        assert(w != n);
        assert(s1[w].0@ == q);
    }
    assert(m2 =~= m1.insert(k, status));
}

} // verus!
