//! A bounded in-memory cache with least-recently-used eviction.
//!
//! Entries are kept most-recent first, so the recency order and the map from
//! identifier to payload live in one sequence.  The capacity is fixed at
//! construction; an insertion into a full cache evicts exactly the
//! least-recent entry first.

use vstd::prelude::*;

use crate::ids::id_eq;

verus! {

/// A bounded LRU map from identifier to payload.
pub struct Cache<V> {
    cap: usize,
    /// Entries ordered most-recent first; keys are distinct.
    entries: Vec<(String, V)>,
}

impl<V> View for Cache<V> {
    type V = Seq<(Seq<char>, V)>;

    closed spec fn view(&self) -> Seq<(Seq<char>, V)> {
        self.entries@.map_values(|e: (String, V)| (e.0@, e.1))
    }
}

/// Whether `s` holds an entry for `id`.
pub open spec fn contains_id<V>(s: Seq<(Seq<char>, V)>, id: Seq<char>) -> bool {
    exists|i: int| 0 <= i < s.len() && s[i].0 == id
}

/// The position of the entry for `id` in `s`.
pub open spec fn idx_of<V>(s: Seq<(Seq<char>, V)>, id: Seq<char>) -> int {
    choose|i: int| 0 <= i < s.len() && s[i].0 == id
}

/// Whether the keys of `s` are distinct.
pub open spec fn distinct_keys<V>(s: Seq<(Seq<char>, V)>) -> bool {
    forall|i: int, j: int| 0 <= i < j < s.len() ==> s[i].0 != s[j].0
}

/// The contents after promoting the entry at `i` to most-recent.
pub open spec fn promoted<V>(s: Seq<(Seq<char>, V)>, i: int) -> Seq<(Seq<char>, V)>
    recommends
        0 <= i < s.len(),
{
    seq![s[i]] + s.remove(i)
}

/// The contents after inserting a fresh entry, evicting the least-recent
/// entry first when the cache is full.
pub open spec fn inserted<V>(
    s: Seq<(Seq<char>, V)>,
    cap: int,
    id: Seq<char>,
    v: V,
) -> Seq<(Seq<char>, V)> {
    if s.len() >= cap {
        seq![(id, v)] + s.drop_last()
    } else {
        seq![(id, v)] + s
    }
}

impl<V> Cache<V> {
    /// The fixed capacity.
    pub closed spec fn spec_cap(&self) -> int {
        self.cap as int
    }

    /// Structural invariant: a positive capacity bounds the entry count, and
    /// keys are distinct.
    pub open spec fn wf(&self) -> bool {
        &&& self.spec_cap() >= 1
        &&& self@.len() <= self.spec_cap()
        &&& distinct_keys(self@)
    }

    /// Creates an empty cache with the given capacity.
    pub fn new(cap: usize) -> (r: Self)
        requires
            cap >= 1,
        ensures
            r.wf(),
            r@ == Seq::<(Seq<char>, V)>::empty(),
            r.spec_cap() == cap,
    {
        let r = Cache { cap, entries: Vec::new() };
        proof {
            assert(r@ =~= Seq::<(Seq<char>, V)>::empty());
        }
        r
    }

    /// The number of cached entries.
    pub fn len(&self) -> (r: usize)
        ensures
            r == self@.len(),
    {
        self.entries.len()
    }

    /// The fixed capacity.
    pub fn capacity(&self) -> (r: usize)
        ensures
            r == self.spec_cap(),
    {
        self.cap
    }

    /// Position of the entry for `id`, if any.
    fn find(&self, id: &str) -> (r: Option<usize>)
        ensures
            match r {
                Some(i) => i < self@.len() && self@[i as int].0 == id@,
                None => !contains_id(self@, id@),
            },
    {
        let mut i: usize = 0;
        while i < self.entries.len()
            invariant
                i <= self.entries.len(),
                forall|j: int| 0 <= j < i ==> self@[j].0 != id@,
            decreases self.entries.len() - i,
        {
            if id_eq(self.entries[i].0.as_str(), id) {
                return Some(i);
            }
            i = i + 1;
        }
        None
    }

    /// Looks `id` up; a hit promotes the entry to most-recent and returns a
    /// reference to its payload, a miss leaves the cache unchanged.
    pub fn get(&mut self, id: &str) -> (r: Option<&V>)
        requires
            old(self).wf(),
        ensures
            final(self).wf(),
            final(self).spec_cap() == old(self).spec_cap(),
            contains_id(old(self)@, id@) ==> {
                let i = idx_of(old(self)@, id@);
                &&& final(self)@ == promoted(old(self)@, i)
                &&& r matches Some(v) && *v == old(self)@[i].1
            },
            !contains_id(old(self)@, id@) ==> final(self)@ == old(self)@ && r is None,
    {
        let ghost s0 = self@;
        match self.find(id) {
            Some(i) => {
                proof {
                    assert(contains_id(s0, id@));
                    let j = idx_of(s0, id@);
                    assert(0 <= j < s0.len() && s0[j].0 == id@);
                    assert(distinct_keys(s0));
                    assert(j == i as int);
                }
                let e = self.entries.remove(i);
                self.entries.insert(0, e);
                proof {
                    assert(final(self)@ =~= promoted(s0, i as int));
                    assert(distinct_keys(promoted(s0, i as int)));
                }
                Some(&self.entries[0].1)
            },
            None => None,
        }
    }

    /// Inserts a payload for `id`.
    ///
    /// A fresh identifier goes in as most-recent, after evicting exactly the
    /// least-recent entry when the cache is already full; an identifier that
    /// is already present has its payload replaced and is promoted instead.
    /// The entry count never exceeds the capacity.
    pub fn put(&mut self, id: String, v: V)
        requires
            old(self).wf(),
        ensures
            final(self).wf(),
            final(self).spec_cap() == old(self).spec_cap(),
            !contains_id(old(self)@, id@) ==> final(self)@ == inserted(
                old(self)@,
                old(self).spec_cap(),
                id@,
                v,
            ),
            contains_id(old(self)@, id@) ==> final(self)@ == promoted(
                old(self)@.update(idx_of(old(self)@, id@), (id@, v)),
                idx_of(old(self)@, id@),
            ),
    {
        let ghost s0 = self@;
        match self.find(&id) {
            Some(i) => {
                proof {
                    let j = idx_of(s0, id@);
                    assert(0 <= j < s0.len() && s0[j].0 == id@);
                    assert(j == i as int);
                }
                self.entries.remove(i);
                self.entries.insert(0, (id, v));
                proof {
                    let t = s0.update(i as int, (id@, v));
                    assert(t.remove(i as int) =~= s0.remove(i as int));
                    assert(final(self)@ =~= promoted(t, i as int));
                    assert(distinct_keys(final(self)@));
                }
            },
            None => {
                if self.entries.len() >= self.cap {
                    self.entries.pop();
                }
                self.entries.insert(0, (id, v));
                proof {
                    assert(final(self)@ =~= inserted(s0, old(self).spec_cap(), id@, v));
                    assert(distinct_keys(final(self)@));
                }
            },
        }
    }

    /// Removes the entry for `id`, if any.
    pub fn del(&mut self, id: &str)
        requires
            old(self).wf(),
        ensures
            final(self).wf(),
            final(self).spec_cap() == old(self).spec_cap(),
            contains_id(old(self)@, id@) ==> final(self)@ == old(self)@.remove(
                idx_of(old(self)@, id@),
            ),
            !contains_id(old(self)@, id@) ==> final(self)@ == old(self)@,
            !contains_id(final(self)@, id@),
    {
        let ghost s0 = self@;
        match self.find(id) {
            Some(i) => {
                proof {
                    let j = idx_of(s0, id@);
                    assert(0 <= j < s0.len() && s0[j].0 == id@);
                    assert(j == i as int);
                }
                self.entries.remove(i);
                proof {
                    assert(final(self)@ =~= s0.remove(i as int));
                    assert(distinct_keys(final(self)@));
                    assert forall|k: int|
                        0 <= k < final(self)@.len() implies final(self)@[k].0 != id@ by {
                        if k < i as int {
                            assert(final(self)@[k] == s0[k]);
                        } else {
                            assert(final(self)@[k] == s0[k + 1]);
                        }
                    }
                }
            },
            None => {},
        }
    }
}

/// The bound law of the cache: whatever sequence of insertions reaches a
/// well-formed cache, an insertion never leaves more entries than the
/// capacity, and an insertion into a full cache evicts exactly the
/// least-recent entry.
pub proof fn lemma_lru_bound<V>(s: Seq<(Seq<char>, V)>, cap: int, id: Seq<char>, v: V)
    requires
        cap >= 1,
        s.len() <= cap,
    ensures
        inserted(s, cap, id, v).len() <= cap,
        inserted(s, cap, id, v)[0] == (id, v),
        s.len() == cap ==> inserted(s, cap, id, v) == seq![(id, v)] + s.drop_last(),
        s.len() < cap ==> inserted(s, cap, id, v) == seq![(id, v)] + s,
{
}

} // verus!
