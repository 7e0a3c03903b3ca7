//! The byte-level key-value store: an ordered map from identifier to byte
//! string supporting point get, put, delete, and a full scan.
//!
//! The store is modelled as a map from key to byte string; the workers share
//! a single handle threaded through construction.

use vstd::prelude::*;

use crate::ids::id_eq;
use crate::models::clone_copy_vec;

verus! {

/// The byte-level key-value store.
#[derive(Debug)]
pub struct RocksDB {
    entries: Vec<(String, Vec<u8>)>,
}

/// The map a list of key/value pairs with distinct keys denotes; an earlier
/// pair wins over a later one with the same key.
pub open spec fn map_of(s: Seq<(Seq<char>, Seq<u8>)>) -> Map<Seq<char>, Seq<u8>>
    decreases s.len(),
{
    if s.len() == 0 {
        Map::empty()
    } else {
        map_of(s.drop_first()).insert(s[0].0, s[0].1)
    }
}

/// Whether the keys of `s` are distinct.
pub open spec fn distinct_raw_keys(s: Seq<(Seq<char>, Seq<u8>)>) -> bool {
    forall|i: int, j: int| 0 <= i < j < s.len() ==> s[i].0 != s[j].0
}

proof fn lemma_map_of_contains(s: Seq<(Seq<char>, Seq<u8>)>, i: int)
    requires
        0 <= i < s.len(),
    ensures
        map_of(s).contains_key(s[i].0),
    decreases s.len(),
{
    if i > 0 {
        lemma_map_of_contains(s.drop_first(), i - 1);
    }
}

proof fn lemma_map_of_absent(s: Seq<(Seq<char>, Seq<u8>)>, k: Seq<char>)
    requires
        forall|i: int| 0 <= i < s.len() ==> s[i].0 != k,
    ensures
        !map_of(s).contains_key(k),
    decreases s.len(),
{
    if s.len() > 0 {
        lemma_map_of_absent(s.drop_first(), k);
    }
}

proof fn lemma_map_of_at(s: Seq<(Seq<char>, Seq<u8>)>, i: int)
    requires
        distinct_raw_keys(s),
        0 <= i < s.len(),
    ensures
        map_of(s).contains_key(s[i].0),
        map_of(s)[s[i].0] == s[i].1,
    decreases s.len(),
{
    lemma_map_of_contains(s, i);
    if i == 0 {
    } else {
        lemma_map_of_at(s.drop_first(), i - 1);
        assert(s[0].0 != s[i].0);
    }
}

proof fn lemma_map_of_push(s: Seq<(Seq<char>, Seq<u8>)>, k: Seq<char>, v: Seq<u8>)
    requires
        forall|i: int| 0 <= i < s.len() ==> s[i].0 != k,
    ensures
        map_of(s.push((k, v))) == map_of(s).insert(k, v),
    decreases s.len(),
{
    if s.len() == 0 {
        assert(s.push((k, v))[0] == (k, v));
        assert(s.push((k, v)).drop_first() =~= Seq::<(Seq<char>, Seq<u8>)>::empty());
        assert(map_of(s.push((k, v))) == map_of(s.push((k, v)).drop_first()).insert(k, v));
        assert(map_of(Seq::<(Seq<char>, Seq<u8>)>::empty()) == Map::<Seq<char>, Seq<u8>>::empty());
        assert(s =~= Seq::<(Seq<char>, Seq<u8>)>::empty());
        assert(map_of(s.push((k, v))) =~= map_of(s).insert(k, v));
    } else {
        assert(s.push((k, v)).drop_first() =~= s.drop_first().push((k, v)));
        lemma_map_of_push(s.drop_first(), k, v);
        assert(map_of(s.push((k, v))) == map_of(s.drop_first().push((k, v))).insert(
            s[0].0,
            s[0].1,
        ));
        assert(map_of(s.drop_first()).insert(k, v).insert(s[0].0, s[0].1) =~= map_of(
            s.drop_first(),
        ).insert(s[0].0, s[0].1).insert(k, v));
    }
}

proof fn lemma_map_of_remove(s: Seq<(Seq<char>, Seq<u8>)>, i: int)
    requires
        distinct_raw_keys(s),
        0 <= i < s.len(),
    ensures
        map_of(s.remove(i)) == map_of(s).remove(s[i].0),
    decreases s.len(),
{
    if i == 0 {
        assert(s.remove(0) =~= s.drop_first());
        lemma_map_of_absent(s.drop_first(), s[0].0);
        assert(map_of(s.drop_first()).insert(s[0].0, s[0].1).remove(s[0].0) =~= map_of(
            s.drop_first(),
        ));
    } else {
        assert(s.remove(i).drop_first() =~= s.drop_first().remove(i - 1));
        lemma_map_of_remove(s.drop_first(), i - 1);
        assert(map_of(s.remove(i)) == map_of(s.drop_first()).remove(s[i].0).insert(
            s[0].0,
            s[0].1,
        ));
        assert(s[0].0 != s[i].0);
        assert(map_of(s.drop_first()).remove(s[i].0).insert(s[0].0, s[0].1) =~= map_of(
            s.drop_first(),
        ).insert(s[0].0, s[0].1).remove(s[i].0));
    }
}

proof fn lemma_map_of_dom_len(s: Seq<(Seq<char>, Seq<u8>)>)
    requires
        distinct_raw_keys(s),
    ensures
        map_of(s).dom().len() == s.len(),
        map_of(s).dom().finite(),
    decreases s.len(),
{
    if s.len() > 0 {
        lemma_map_of_dom_len(s.drop_first());
        lemma_map_of_absent(s.drop_first(), s[0].0);
        assert(map_of(s).dom() =~= map_of(s.drop_first()).dom().insert(s[0].0));
        vstd::set::axiom_set_insert_len(map_of(s.drop_first()).dom(), s[0].0);
    }
}

impl RocksDB {
    /// The pairs the store holds, as ghost data.
    pub closed spec fn pairs(&self) -> Seq<(Seq<char>, Seq<u8>)> {
        self.entries@.map_values(|e: (String, Vec<u8>)| (e.0@, e.1@))
    }
}

impl View for RocksDB {
    type V = Map<Seq<char>, Seq<u8>>;

    open spec fn view(&self) -> Map<Seq<char>, Seq<u8>> {
        map_of(self.pairs())
    }
}

impl RocksDB {
    /// Internal invariant: keys are distinct.
    pub open spec fn wf(&self) -> bool {
        distinct_raw_keys(self.pairs())
    }

    /// Opens the production store.
    pub fn new() -> (r: Self)
        ensures
            r.wf(),
            r@ == Map::<Seq<char>, Seq<u8>>::empty(),
    {
        let r = RocksDB { entries: Vec::new() };
        proof {
            assert(r.pairs() =~= Seq::<(Seq<char>, Seq<u8>)>::empty());
        }
        r
    }

    /// Opens a scratch store for tests.
    pub fn dev() -> (r: Self)
        ensures
            r.wf(),
            r@ == Map::<Seq<char>, Seq<u8>>::empty(),
    {
        Self::new()
    }

    /// Position of the entry for `key`, if any.
    fn find(&self, key: &str) -> (r: Option<usize>)
        ensures
            match r {
                Some(i) => i < self.pairs().len() && self.pairs()[i as int].0 == key@,
                None => forall|i: int| 0 <= i < self.pairs().len() ==> self.pairs()[i].0 != key@,
            },
    {
        let mut i: usize = 0;
        while i < self.entries.len()
            invariant
                i <= self.entries.len(),
                forall|j: int| 0 <= j < i ==> self.pairs()[j].0 != key@,
            decreases self.entries.len() - i,
        {
            if id_eq(self.entries[i].0.as_str(), key) {
                return Some(i);
            }
            i = i + 1;
        }
        None
    }

    /// Stores `value` under `key`; a later `get` of `key` observes it.
    pub fn put(&mut self, key: &str, value: Vec<u8>) -> (r: Result<(), super::RocksDBError>)
        requires
            old(self).wf(),
        ensures
            final(self).wf(),
            final(self)@ == old(self)@.insert(key@, value@),
            r is Ok,
    {
        let ghost s0 = self.pairs();
        match self.find(key) {
            Some(i) => {
                proof {
                    lemma_map_of_remove(s0, i as int);
                    assert(forall|j: int|
                        0 <= j < s0.remove(i as int).len() ==> s0.remove(i as int)[j].0 != key@);
                    lemma_map_of_push(s0.remove(i as int), key@, value@);
                }
                self.entries.remove(i);
                let owned = key.to_owned();
                self.entries.push((owned, value));
                proof {
                    assert(self.pairs() =~= s0.remove(i as int).push((key@, value@)));
                    assert(final(self)@ =~= old(self)@.insert(key@, value@));
                }
            },
            None => {
                proof {
                    lemma_map_of_push(s0, key@, value@);
                }
                let owned = key.to_owned();
                self.entries.push((owned, value));
                proof {
                    assert(self.pairs() =~= s0.push((key@, value@)));
                }
            },
        }
        Ok(())
    }

    /// The byte string stored under `key`, if any.
    pub fn get(&self, key: &str) -> (r: Option<Vec<u8>>)
        requires
            self.wf(),
        ensures
            match r {
                Some(v) => self@.contains_key(key@) && v@ == self@[key@],
                None => !self@.contains_key(key@),
            },
    {
        match self.find(key) {
            Some(i) => {
                proof {
                    lemma_map_of_at(self.pairs(), i as int);
                }
                Some(clone_copy_vec(&self.entries[i].1))
            },
            None => {
                proof {
                    lemma_map_of_absent(self.pairs(), key@);
                }
                None
            },
        }
    }

    /// Removes `key`; a later `get` of `key` observes its absence.
    pub fn del(&mut self, key: &str) -> (r: Result<(), super::RocksDBError>)
        requires
            old(self).wf(),
        ensures
            final(self).wf(),
            final(self)@ == old(self)@.remove(key@),
            r is Ok,
    {
        let ghost s0 = self.pairs();
        match self.find(key) {
            Some(i) => {
                proof {
                    lemma_map_of_remove(s0, i as int);
                }
                self.entries.remove(i);
                proof {
                    assert(self.pairs() =~= s0.remove(i as int));
                }
            },
            None => {
                proof {
                    lemma_map_of_absent(s0, key@);
                    assert(old(self)@.remove(key@) =~= old(self)@);
                }
            },
        }
        Ok(())
    }

    /// Every stored byte string, in store order.
    pub fn get_all(&self) -> (r: Vec<Vec<u8>>)
        requires
            self.wf(),
        ensures
            r@.len() == self@.dom().len(),
            r@.len() == self.pairs().len(),
            forall|i: int|
                #![all_triggers]
                0 <= i < r@.len() ==> self@.contains_key(self.pairs()[i].0) && r@[i]@
                    == self@[self.pairs()[i].0],
    {
        proof {
            lemma_map_of_dom_len(self.pairs());
        }
        let mut r: Vec<Vec<u8>> = Vec::new();
        let mut i: usize = 0;
        while i < self.entries.len()
            invariant
                self.wf(),
                i <= self.entries.len(),
                r@.len() == i,
                forall|j: int|
                    #![all_triggers]
                    0 <= j < i ==> self@.contains_key(self.pairs()[j].0) && r@[j]@
                        == self@[self.pairs()[j].0],
            decreases self.entries.len() - i,
        {
            proof {
                lemma_map_of_at(self.pairs(), i as int);
                assert(self.pairs()[i as int] == (
                    self.entries@[i as int].0@,
                    self.entries@[i as int].1@,
                ));
                assert(self@.contains_key(self.pairs()[i as int].0));
            }
            let ghost r_pre = r@;
            r.push(clone_copy_vec(&self.entries[i].1));
            i = i + 1;
            proof {
                assert forall|j: int|
                    #![all_triggers]
                    0 <= j < i implies self@.contains_key(self.pairs()[j].0) && r@[j]@
                    == self@[self.pairs()[j].0] by {
                    if j < i - 1 {
                        assert(r@[j] == r_pre[j]);
                    } else {
                        lemma_map_of_at(self.pairs(), j);
                    }
                }
            }
        }
        r
    }

    /// The number of stored keys.
    pub fn count(&self) -> (r: usize)
        requires
            self.wf(),
        ensures
            r == self@.dom().len(),
    {
        proof {
            lemma_map_of_dom_len(self.pairs());
        }
        self.entries.len()
    }
}

} // verus!
