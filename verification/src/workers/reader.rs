//! The reader worker: serves point reads and size queries, owns the module
//! cache, and consumes invalidation identifiers from the writer.
//!
//! A read of a cached identifier promotes the entry and never touches the
//! store; a miss fetches from the store and fills the cache; an absent
//! identifier is never cached.

use vstd::prelude::*;

use crate::cache::{contains_id, distinct_keys, idx_of, inserted, promoted, Cache};
use crate::database::RocksDB;
use crate::errors::WessError;
use crate::models::{ModuleView, WasmModule};

verus! {

/// The reply to one read job: the record, a typed failure, or the store
/// size.
#[derive(Debug, PartialEq, Eq)]
pub enum ReadResponse {
    Module(WasmModule),
    Fail(WessError),
    Size(usize),
}

/// The record a read of `id` observes: the cached record if one is cached,
/// else the stored record, else nothing.
pub open spec fn found_record(
    c: Seq<(Seq<char>, ModuleView)>,
    db: Map<Seq<char>, ModuleView>,
    id: Seq<char>,
) -> Option<ModuleView> {
    if contains_id(c, id) {
        Some(c[idx_of(c, id)].1)
    } else if db.contains_key(id) {
        Some(db[id])
    } else {
        None
    }
}

/// The module cache after a read of `id`: a hit promotes, a store miss
/// fills, an absent identifier changes nothing.
pub open spec fn cache_after_read(
    c: Seq<(Seq<char>, ModuleView)>,
    cap: int,
    db: Map<Seq<char>, ModuleView>,
    id: Seq<char>,
) -> Seq<(Seq<char>, ModuleView)> {
    if contains_id(c, id) {
        promoted(c, idx_of(c, id))
    } else if db.contains_key(id) {
        inserted(c, cap, id, db[id])
    } else {
        c
    }
}

/// The record value of each cached entry, by identifier, most recent first.
pub open spec fn cache_records(s: Seq<(Seq<char>, WasmModule)>) -> Seq<(Seq<char>, ModuleView)> {
    s.map_values(|e: (Seq<char>, WasmModule)| (e.0, e.1@))
}

proof fn lemma_cache_records_contains(s: Seq<(Seq<char>, WasmModule)>, id: Seq<char>)
    requires
        distinct_keys(s),
    ensures
        contains_id(cache_records(s), id) == contains_id(s, id),
        contains_id(s, id) ==> idx_of(cache_records(s), id) == idx_of(s, id),
{
    if contains_id(s, id) {
        let i = idx_of(s, id);
        assert(cache_records(s)[i].0 == id);
        assert(contains_id(cache_records(s), id));
        let j = idx_of(cache_records(s), id);
        assert(s[j].0 == id);
    } else {
        if contains_id(cache_records(s), id) {
            let j = idx_of(cache_records(s), id);
            assert(s[j].0 == id);
            assert(false);
        }
    }
}

/// The reader worker: the module cache and its discipline.
pub struct Reader {
    cache: Cache<WasmModule>,
}

impl View for Reader {
    type V = Seq<(Seq<char>, ModuleView)>;

    closed spec fn view(&self) -> Seq<(Seq<char>, ModuleView)> {
        cache_records(self.cache@)
    }
}

impl Reader {
    /// The module cache capacity.
    pub closed spec fn spec_cap(&self) -> int {
        self.cache.spec_cap()
    }

    /// Structural invariant, inherited from the cache.
    pub closed spec fn wf(&self) -> bool {
        self.cache.wf()
    }

    /// The invariant seen from outside: distinct identifiers, bounded count.
    pub proof fn lemma_wf(&self)
        requires
            self.wf(),
        ensures
            self.spec_cap() >= 1,
            self@.len() <= self.spec_cap(),
            distinct_keys(self@),
    {
        assert forall|i: int, j: int| 0 <= i < j < self@.len() implies self@[i].0 != self@[j].0 by {
            assert(self.cache@[i].0 != self.cache@[j].0);
        }
    }

    /// Creates a reader whose module cache holds `cache_size` records.
    pub fn new(cache_size: usize) -> (r: Self)
        requires
            cache_size >= 1,
        ensures
            r.wf(),
            r@ == Seq::<(Seq<char>, ModuleView)>::empty(),
            r.spec_cap() == cache_size,
    {
        let r = Reader { cache: Cache::new(cache_size) };
        proof {
            assert(r@ =~= Seq::<(Seq<char>, ModuleView)>::empty());
        }
        r
    }

    /// Drops the cached record for `id`, if any: the writer has committed a
    /// mutation of `id`.
    pub fn handle_invalidation(&mut self, id: &str)
        requires
            old(self).wf(),
        ensures
            final(self).wf(),
            final(self).spec_cap() == old(self).spec_cap(),
            contains_id(old(self)@, id@) ==> final(self)@ == old(self)@.remove(
                idx_of(old(self)@, id@),
            ),
            !contains_id(old(self)@, id@) ==> final(self)@ == old(self)@,
            !contains_id(final(self)@, id@),
    {
        let ghost c0 = self.cache@;
        proof {
            lemma_cache_records_contains(c0, id@);
        }
        self.cache.del(id);
        proof {
            if contains_id(c0, id@) {
                let i = idx_of(c0, id@);
                assert(cache_records(self.cache@) =~= cache_records(c0).remove(i));
            } else {
                assert(cache_records(self.cache@) == cache_records(c0));
            }
            lemma_cache_records_contains(self.cache@, id@);
        }
    }

    /// Serves one read job: an absent identifier is a size query answered
    /// with the store's key count; otherwise the record comes from the cache
    /// or the store, and its absence is a 404-class failure.
    pub fn handle_read(&mut self, db: &RocksDB, id: Option<&String>) -> (r: ReadResponse)
        requires
            old(self).wf(),
            db.wf(),
        ensures
            final(self).wf(),
            final(self).spec_cap() == old(self).spec_cap(),
            match id {
                None => final(self)@ == old(self)@ && (r matches ReadResponse::Size(n) && n
                    == db@.dom().len()),
                Some(k) => {
                    &&& final(self)@ == cache_after_read(
                        old(self)@,
                        old(self).spec_cap(),
                        db@,
                        k@,
                    )
                    &&& match found_record(old(self)@, db@, k@) {
                        Some(m) => r matches ReadResponse::Module(rec) && rec@ == m,
                        None => r matches ReadResponse::Fail(e) && e.status == 404,
                    }
                },
            },
    {
        let k = match id {
            None => {
                return ReadResponse::Size(db.count());
            },
            Some(k) => k,
        };
        let ghost c0 = self.cache@;
        proof {
            lemma_cache_records_contains(c0, k@);
        }
        let cached = match self.cache.get(k.as_str()) {
            Some(m) => Some(m.clone()),
            None => None,
        };
        proof {
            if contains_id(c0, k@) {
                let i = idx_of(c0, k@);
                assert(cache_records(self.cache@) =~= promoted(cache_records(c0), i));
            } else {
                assert(cache_records(self.cache@) == cache_records(c0));
            }
        }
        match cached {
            Some(rec) => ReadResponse::Module(rec),
            None => {
                match db.get(k.as_str()) {
                    Some(rec) => {
                        let copy = rec.clone();
                        let ghost c1 = self.cache@;
                        self.cache.put(k.clone(), rec);
                        proof {
                            assert(cache_records(self.cache@) =~= inserted(
                                cache_records(c1),
                                old(self).spec_cap(),
                                k@,
                                db@[k@],
                            ));
                        }
                        ReadResponse::Module(copy)
                    },
                    None => ReadResponse::Fail(
                        WessError::new("Not found".to_owned(), 404),
                    ),
                }
            },
        }
    }
}

} // verus!
