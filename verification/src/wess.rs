//! The service: the store, the three workers, the bounded write queue, and
//! the broadcast invalidation channels, owned together so that the
//! cache-coherence protocol is a theorem rather than a convention.
//!
//! The dispatcher enqueues mutations and answers reads and invocations; the
//! three tick functions advance the writer and the two invalidation
//! consumers by one step each.  [`Wess::lemma_coherence`] states the
//! coherence the design promises: a cached record or artifact is either
//! current, or its invalidation is still queued; and every cached artifact
//! was compiled from committed bytecode.

use vstd::prelude::*;

use crate::cache::{contains_id, idx_of, inserted, promoted};
use crate::config::Config;
use crate::database::RocksDB;
use crate::errors::WessError;
use crate::ids::{mint_id, valid_token};
use crate::models::ModuleView;
use crate::models::WasmModule;
use crate::wire::WireNumber;
use crate::workers::reader::{cache_after_read, found_record, ReadResponse, Reader};
use crate::workers::runner::{run_contract, Runner, RunResponse};
use crate::workers::writer::{apply_write, write_step, WriteJob, WriteJobView, WriteOps};

verus! {

/// The identifiers of a queue of invalidations, in order.
pub open spec fn ids_of(q: Seq<String>) -> Seq<Seq<char>> {
    q.map_values(|s: String| s@)
}

/// Whether an invalidation for `id` is still queued.
pub open spec fn pending(q: Seq<Seq<char>>, id: Seq<char>) -> bool {
    exists|i: int| 0 <= i < q.len() && q[i] == id
}

/// The job views of the write queue, in order.
pub open spec fn jobs_of(q: Seq<WriteJob>) -> Seq<WriteJobView> {
    q.map_values(|j: WriteJob| j@)
}

/// Every queued job carries the payload its operation needs.
pub open spec fn queue_wf(q: Seq<WriteJobView>) -> bool {
    forall|k: int| 0 <= k < q.len() ==> (#[trigger] q[k]).wf()
}

/// Module-cache coherence: each cached record is the current stored record,
/// or its invalidation is still queued.
pub open spec fn reader_coherent(
    c: Seq<(Seq<char>, ModuleView)>,
    db: Map<Seq<char>, ModuleView>,
    q: Seq<Seq<char>>,
) -> bool {
    forall|k: int|
        0 <= k < c.len() ==> ((db.contains_key((#[trigger] c[k]).0) && c[k].1 == db[c[k].0])
            || pending(q, c[k].0))
}

/// Compile-cache coherence: each cached artifact was compiled from the
/// current stored bytecode, or its invalidation is still queued.
pub open spec fn runner_coherent(
    c: Seq<(Seq<char>, Seq<u8>)>,
    db: Map<Seq<char>, ModuleView>,
    q: Seq<Seq<char>>,
) -> bool {
    forall|k: int|
        0 <= k < c.len() ==> ((db.contains_key((#[trigger] c[k]).0) && c[k].1 == db[c[k].0].wasm)
            || pending(q, c[k].0))
}

/// Every stored bytecode has been committed.
pub open spec fn store_committed(db: Map<Seq<char>, ModuleView>, committed: Set<Seq<u8>>) -> bool {
    forall|id: Seq<char>| #[trigger] db.contains_key(id) ==> committed.contains(db[id].wasm)
}

/// Every cached artifact was compiled from committed bytecode.
pub open spec fn sources_committed(
    c: Seq<(Seq<char>, Seq<u8>)>,
    committed: Set<Seq<u8>>,
) -> bool {
    forall|k: int| 0 <= k < c.len() ==> committed.contains((#[trigger] c[k]).1)
}

/// The service state: the record store, the reader with its module cache,
/// the runner with its compile cache, the bounded write queue, and the two
/// invalidation queues the writer broadcasts on.
pub struct Wess {
    db: RocksDB,
    reader: Reader,
    runner: Runner,
    wqueue: Vec<WriteJob>,
    inv_reader: Vec<String>,
    inv_runner: Vec<String>,
    wcap: usize,
    /// Every bytecode a committed write has ever stored.
    committed: Ghost<Set<Seq<u8>>>,
}

impl Wess {
    /// The stored records, by identifier.
    pub closed spec fn store(&self) -> Map<Seq<char>, ModuleView> {
        self.db@
    }

    /// The reader's module cache, most recent first.
    pub closed spec fn reader_cache(&self) -> Seq<(Seq<char>, ModuleView)> {
        self.reader@
    }

    /// The module cache capacity.
    pub closed spec fn reader_cap(&self) -> int {
        self.reader.spec_cap()
    }

    /// The runner's compile cache, as identifier and source bytecode.
    pub closed spec fn compile_cache(&self) -> Seq<(Seq<char>, Seq<u8>)> {
        self.runner.cache_view()
    }

    /// The compile cache capacity.
    pub closed spec fn compile_cap(&self) -> int {
        self.runner.spec_cap()
    }

    /// How many compiles have happened.
    pub closed spec fn spec_compile_count(&self) -> u64 {
        self.runner.spec_compile_count()
    }

    /// The queued, not yet applied, write jobs in order.
    pub closed spec fn write_queue(&self) -> Seq<WriteJobView> {
        jobs_of(self.wqueue@)
    }

    /// The write queue bound.
    pub closed spec fn write_cap(&self) -> int {
        self.wcap as int
    }

    /// The queued invalidations the reader has not yet processed.
    pub closed spec fn pending_reader(&self) -> Seq<Seq<char>> {
        ids_of(self.inv_reader@)
    }

    /// The queued invalidations the runner has not yet processed.
    pub closed spec fn pending_runner(&self) -> Seq<Seq<char>> {
        ids_of(self.inv_runner@)
    }

    /// Every bytecode a committed write has ever stored.
    pub closed spec fn committed(&self) -> Set<Seq<u8>> {
        self.committed@
    }

    /// The system invariant.
    pub closed spec fn wf(&self) -> bool {
        &&& self.db.wf()
        &&& self.reader.wf()
        &&& self.runner.wf()
        &&& self.wcap >= 1
        &&& self.wqueue@.len() <= self.wcap
        &&& queue_wf(self.write_queue())
        &&& reader_coherent(self.reader_cache(), self.store(), self.pending_reader())
        &&& runner_coherent(self.compile_cache(), self.store(), self.pending_runner())
        &&& store_committed(self.store(), self.committed())
        &&& sources_committed(self.compile_cache(), self.committed())
    }

    /// The coherence the design promises, as a theorem of the invariant: a
    /// cached record or artifact is either the current stored one, or its
    /// invalidation is still queued; and every cached artifact was compiled
    /// from bytecode some committed write stored.
    pub proof fn lemma_coherence(&self)
        requires
            self.wf(),
        ensures
            reader_coherent(self.reader_cache(), self.store(), self.pending_reader()),
            runner_coherent(self.compile_cache(), self.store(), self.pending_runner()),
            store_committed(self.store(), self.committed()),
            sources_committed(self.compile_cache(), self.committed()),
    {
    }

    /// Builds the service from a validated configuration: empty store, empty
    /// caches, empty queues.
    pub fn new(config: &Config) -> (r: Self)
        requires
            config.wf(),
        ensures
            r.wf(),
            r.store() == Map::<Seq<char>, ModuleView>::empty(),
            r.reader_cache() == Seq::<(Seq<char>, ModuleView)>::empty(),
            r.compile_cache() == Seq::<(Seq<char>, Seq<u8>)>::empty(),
            r.write_queue() == Seq::<WriteJobView>::empty(),
            r.pending_reader() == Seq::<Seq<char>>::empty(),
            r.pending_runner() == Seq::<Seq<char>>::empty(),
            r.spec_compile_count() == 0,
            r.reader_cap() == config.reader.cache_size,
            r.compile_cap() == config.runner.cache_size,
            r.write_cap() == config.writer.channel_size,
    {
        let r = Wess {
            db: RocksDB::new(),
            reader: Reader::new(config.reader.cache_size),
            runner: Runner::new(config.runner.cache_size),
            wqueue: Vec::new(),
            inv_reader: Vec::new(),
            inv_runner: Vec::new(),
            wcap: config.writer.channel_size,
            committed: Ghost(Set::empty()),
        };
        proof {
            assert(r.write_queue() =~= Seq::<WriteJobView>::empty());
            assert(r.pending_reader() =~= Seq::<Seq<char>>::empty());
            assert(r.pending_runner() =~= Seq::<Seq<char>>::empty());
        }
        r
    }

    /// How many compiles have happened, for the metrics export.
    pub fn compile_count(&self) -> (r: u64)
        ensures
            r == self.spec_compile_count(),
    {
        self.runner.compile_count()
    }

    /// How many write jobs are queued.
    pub fn write_queue_len(&self) -> (r: usize)
        ensures
            r == self.write_queue().len(),
    {
        self.wqueue.len()
    }

    /// Create: validates the bytecode, mints a fresh identifier, and
    /// enqueues the create; the caller is answered at enqueue time.  Invalid
    /// bytecode is refused with a 400-class failure and nothing changes.
    pub fn create(&mut self, record: WasmModule) -> (r: Result<String, WessError>)
        requires
            old(self).wf(),
            old(self).write_queue().len() < old(self).write_cap(),
        ensures
            final(self).wf(),
            final(self).store() == old(self).store(),
            final(self).reader_cache() == old(self).reader_cache(),
            final(self).compile_cache() == old(self).compile_cache(),
            final(self).pending_reader() == old(self).pending_reader(),
            final(self).pending_runner() == old(self).pending_runner(),
            final(self).spec_compile_count() == old(self).spec_compile_count(),
            final(self).committed() == old(self).committed(),
            final(self).write_cap() == old(self).write_cap(),
            final(self).reader_cap() == old(self).reader_cap(),
            final(self).compile_cap() == old(self).compile_cap(),
            match r {
                Ok(id) => valid_token(id@) && final(self).write_queue() == old(self).write_queue().push(
                    WriteJobView {
                        write_op: WriteOps::Create,
                        write_module: Some(record@),
                        id: id@,
                    },
                ),
                Err(e) => e.status == 400 && final(self).write_queue() == old(self).write_queue(),
            },
    {
        match self.runner.validate(record.to_binary()) {
            Ok(()) => {},
            Err(msg) => {
                return Err(WessError::new(msg, 400));
            },
        }
        let id = mint_id();
        let job = WriteJob::new(Some(record), id.clone(), WriteOps::Create);
        let ghost q0 = self.write_queue();
        self.wqueue.push(job);
        proof {
            assert(final(self).write_queue() =~= q0.push(job@));
        }
        Ok(id)
    }

    /// Update: checks that the identifier exists (through the reader, which
    /// may fill or promote its cache), validates the bytecode, and enqueues
    /// the update.  An unknown identifier is refused with a 404-class
    /// failure, invalid bytecode with a 400-class failure.
    pub fn update(&mut self, id: &String, record: WasmModule) -> (r: Result<String, WessError>)
        requires
            old(self).wf(),
            old(self).write_queue().len() < old(self).write_cap(),
        ensures
            final(self).wf(),
            final(self).store() == old(self).store(),
            final(self).compile_cache() == old(self).compile_cache(),
            final(self).pending_reader() == old(self).pending_reader(),
            final(self).pending_runner() == old(self).pending_runner(),
            final(self).spec_compile_count() == old(self).spec_compile_count(),
            final(self).committed() == old(self).committed(),
            final(self).write_cap() == old(self).write_cap(),
            final(self).reader_cache() == cache_after_read(
                old(self).reader_cache(),
                old(self).reader_cap(),
                old(self).store(),
                id@,
            ),
            match r {
                Ok(out) => out@ == id@ && found_record(
                    old(self).reader_cache(),
                    old(self).store(),
                    id@,
                ) is Some && final(self).write_queue() == old(self).write_queue().push(
                    WriteJobView {
                        write_op: WriteOps::Update,
                        write_module: Some(record@),
                        id: id@,
                    },
                ),
                Err(e) => final(self).write_queue() == old(self).write_queue() && ((e.status == 404
                    && found_record(old(self).reader_cache(), old(self).store(), id@) is None) || (
                e.status == 400 && found_record(
                    old(self).reader_cache(),
                    old(self).store(),
                    id@,
                ) is Some)),
            },
    {
        let resp = self.reader.handle_read(&self.db, Some(id));
        proof {
            old(self).reader.lemma_wf();
            lemma_read_cache_coherent(
                old(self).reader_cache(),
                self.reader_cache(),
                old(self).reader_cap(),
                self.store(),
                self.pending_reader(),
                id@,
            );
        }
        match resp {
            ReadResponse::Module(_) => {},
            ReadResponse::Fail(e) => {
                return Err(e);
            },
            ReadResponse::Size(_) => {
                proof {
                    assert(false);
                }
            },
        }
        match self.runner.validate(record.to_binary()) {
            Ok(()) => {},
            Err(msg) => {
                return Err(WessError::new(msg, 400));
            },
        }
        let job = WriteJob::new(Some(record), id.clone(), WriteOps::Update);
        let ghost q0 = self.write_queue();
        self.wqueue.push(job);
        proof {
            assert(final(self).write_queue() =~= q0.push(job@));
        }
        Ok(id.clone())
    }

    /// Delete: checks that the identifier exists (through the reader) and
    /// enqueues the delete.  An unknown identifier is refused with a
    /// 404-class failure.
    pub fn delete(&mut self, id: &String) -> (r: Result<String, WessError>)
        requires
            old(self).wf(),
            old(self).write_queue().len() < old(self).write_cap(),
        ensures
            final(self).wf(),
            final(self).store() == old(self).store(),
            final(self).compile_cache() == old(self).compile_cache(),
            final(self).pending_reader() == old(self).pending_reader(),
            final(self).pending_runner() == old(self).pending_runner(),
            final(self).spec_compile_count() == old(self).spec_compile_count(),
            final(self).committed() == old(self).committed(),
            final(self).write_cap() == old(self).write_cap(),
            final(self).reader_cache() == cache_after_read(
                old(self).reader_cache(),
                old(self).reader_cap(),
                old(self).store(),
                id@,
            ),
            match r {
                Ok(out) => out@ == id@ && found_record(
                    old(self).reader_cache(),
                    old(self).store(),
                    id@,
                ) is Some && final(self).write_queue() == old(self).write_queue().push(
                    WriteJobView { write_op: WriteOps::Delete, write_module: None, id: id@ },
                ),
                Err(e) => e.status == 404 && found_record(
                    old(self).reader_cache(),
                    old(self).store(),
                    id@,
                ) is None && final(self).write_queue() == old(self).write_queue(),
            },
    {
        let resp = self.reader.handle_read(&self.db, Some(id));
        proof {
            old(self).reader.lemma_wf();
            lemma_read_cache_coherent(
                old(self).reader_cache(),
                self.reader_cache(),
                old(self).reader_cap(),
                self.store(),
                self.pending_reader(),
                id@,
            );
        }
        match resp {
            ReadResponse::Module(_) => {},
            ReadResponse::Fail(e) => {
                return Err(e);
            },
            ReadResponse::Size(_) => {
                proof {
                    assert(false);
                }
            },
        }
        let job = WriteJob::new(None, id.clone(), WriteOps::Delete);
        let ghost q0 = self.write_queue();
        self.wqueue.push(job);
        proof {
            assert(final(self).write_queue() =~= q0.push(job@));
        }
        Ok(id.clone())
    }

    /// Read: an absent identifier is a size query answered with the store's
    /// key count; otherwise the reader serves the record from its cache or
    /// the store, and its absence is a 404-class failure.
    pub fn read(&mut self, id: Option<&String>) -> (r: ReadResponse)
        requires
            old(self).wf(),
        ensures
            final(self).wf(),
            final(self).store() == old(self).store(),
            final(self).compile_cache() == old(self).compile_cache(),
            final(self).pending_reader() == old(self).pending_reader(),
            final(self).pending_runner() == old(self).pending_runner(),
            final(self).spec_compile_count() == old(self).spec_compile_count(),
            final(self).committed() == old(self).committed(),
            final(self).write_queue() == old(self).write_queue(),
            final(self).write_cap() == old(self).write_cap(),
            match id {
                None => final(self).reader_cache() == old(self).reader_cache() && (r matches
                    ReadResponse::Size(n) && n == old(self).store().dom().len()),
                Some(k) => {
                    &&& final(self).reader_cache() == cache_after_read(
                        old(self).reader_cache(),
                        old(self).reader_cap(),
                        old(self).store(),
                        k@,
                    )
                    &&& match found_record(old(self).reader_cache(), old(self).store(), k@) {
                        Some(m) => r matches ReadResponse::Module(rec) && rec@ == m,
                        None => r matches ReadResponse::Fail(e) && e.status == 404,
                    }
                },
            },
    {
        let r = self.reader.handle_read(&self.db, id);
        proof {
            old(self).reader.lemma_wf();
            match id {
                Some(k) => {
                    lemma_read_cache_coherent(
                        old(self).reader_cache(),
                        self.reader_cache(),
                        old(self).reader_cap(),
                        self.store(),
                        self.pending_reader(),
                        k@,
                    );
                },
                None => {},
            }
        }
        r
    }

    /// Invoke: the runner fetches the stored record, type-checks the
    /// arguments, reuses or compiles the artifact, and runs the export; see
    /// [`run_contract`] for the exact relation.
    pub fn invoke(&mut self, id: &String, body: &Vec<Option<WireNumber>>) -> (r: RunResponse)
        requires
            old(self).wf(),
        ensures
            final(self).wf(),
            final(self).store() == old(self).store(),
            final(self).reader_cache() == old(self).reader_cache(),
            final(self).pending_reader() == old(self).pending_reader(),
            final(self).pending_runner() == old(self).pending_runner(),
            final(self).committed() == old(self).committed(),
            final(self).write_queue() == old(self).write_queue(),
            final(self).write_cap() == old(self).write_cap(),
            final(self).compile_cap() == old(self).compile_cap(),
            run_contract(
                old(self).store(),
                old(self).compile_cache(),
                old(self).compile_cap(),
                old(self).spec_compile_count(),
                id@,
                body@,
                r,
                final(self).compile_cache(),
                final(self).spec_compile_count(),
            ),
    {
        let ghost c0 = self.compile_cache();
        let r = self.runner.handle_run(&self.db, id, body);
        proof {
            let cc = self.compile_cache();
            let db = self.store();
            let q = self.pending_runner();
            let com = self.committed();
            old(self).runner.lemma_wf();
            if cc != c0 {
                assert(runner_coherent(cc, db, q) && sources_committed(cc, com)) by {
                    lemma_invoke_cache_coherent(
                        db,
                        c0,
                        old(self).compile_cap(),
                        old(self).spec_compile_count(),
                        id@,
                        body@,
                        r,
                        cc,
                        self.spec_compile_count(),
                        q,
                        com,
                    );
                }
            }
        }
        r
    }

    /// Writer tick: applies the first queued write job to the store and
    /// broadcasts the identifier on both invalidation queues.
    pub fn writer_tick(&mut self) -> (r: Option<String>)
        requires
            old(self).wf(),
        ensures
            final(self).wf(),
            final(self).reader_cache() == old(self).reader_cache(),
            final(self).compile_cache() == old(self).compile_cache(),
            final(self).spec_compile_count() == old(self).spec_compile_count(),
            final(self).write_cap() == old(self).write_cap(),
            final(self).reader_cap() == old(self).reader_cap(),
            final(self).compile_cap() == old(self).compile_cap(),
            old(self).write_queue().len() == 0 ==> r is None && final(self).store() == old(self).store() && final(self).write_queue() == old(self).write_queue() && final(self).pending_reader() == old(self).pending_reader() && final(self).pending_runner()
                == old(self).pending_runner() && final(self).committed() == old(self).committed(),
            old(self).write_queue().len() > 0 ==> ({
                let j = old(self).write_queue()[0];
                &&& r matches Some(out) && out@ == j.id
                &&& final(self).store() == apply_write(old(self).store(), j)
                &&& final(self).write_queue() == old(self).write_queue().drop_first()
                &&& final(self).pending_reader() == old(self).pending_reader().push(j.id)
                &&& final(self).pending_runner() == old(self).pending_runner().push(j.id)
                &&& final(self).committed() == (match j.write_op {
                    WriteOps::Delete => old(self).committed(),
                    _ => old(self).committed().insert(j.write_module->0.wasm),
                })
            }),
    {
        if self.wqueue.len() == 0 {
            return None;
        }
        let ghost q0 = self.write_queue();
        let ghost db0 = self.store();
        let job = self.wqueue.remove(0);
        let ghost jv = job@;
        proof {
            assert(jv == q0[0]);
            assert(self.write_queue() =~= q0.drop_first());
            self.committed = Ghost(
                match jv.write_op {
                    WriteOps::Delete => self.committed@,
                    _ => self.committed@.insert(jv.write_module->0.wasm),
                },
            );
        }
        let inv = write_step(&mut self.db, job);
        let inv2 = inv.clone();
        let out = inv.clone();
        let ghost pr0 = self.pending_reader();
        let ghost pn0 = self.pending_runner();
        self.inv_reader.push(inv);
        self.inv_runner.push(inv2);
        proof {
            assert(self.pending_reader() =~= pr0.push(jv.id));
            assert(self.pending_runner() =~= pn0.push(jv.id));
            lemma_tick_coherence(
                self.reader_cache(),
                self.compile_cache(),
                db0,
                self.store(),
                pr0,
                pn0,
                jv,
            );
        }
        Some(out)
    }

    /// Reader tick: processes the first queued invalidation by dropping the
    /// cached record for that identifier.
    pub fn reader_tick(&mut self) -> (r: bool)
        requires
            old(self).wf(),
        ensures
            final(self).wf(),
            final(self).store() == old(self).store(),
            final(self).compile_cache() == old(self).compile_cache(),
            final(self).spec_compile_count() == old(self).spec_compile_count(),
            final(self).write_queue() == old(self).write_queue(),
            final(self).pending_runner() == old(self).pending_runner(),
            final(self).committed() == old(self).committed(),
            final(self).write_cap() == old(self).write_cap(),
            final(self).reader_cap() == old(self).reader_cap(),
            final(self).compile_cap() == old(self).compile_cap(),
            old(self).pending_reader().len() == 0 ==> !r && final(self).reader_cache() == old(self).reader_cache() && final(self).pending_reader() == old(self).pending_reader(),
            old(self).pending_reader().len() > 0 ==> ({
                let id = old(self).pending_reader()[0];
                &&& r
                &&& final(self).pending_reader() == old(self).pending_reader().drop_first()
                &&& !contains_id(final(self).reader_cache(), id)
                &&& (contains_id(old(self).reader_cache(), id) ==> final(self).reader_cache()
                    == old(self).reader_cache().remove(idx_of(old(self).reader_cache(), id)))
                &&& (!contains_id(old(self).reader_cache(), id) ==> final(self).reader_cache()
                    == old(self).reader_cache())
            }),
    {
        if self.inv_reader.len() == 0 {
            return false;
        }
        let ghost p0 = self.pending_reader();
        let ghost c0 = self.reader_cache();
        let id = self.inv_reader.remove(0);
        proof {
            assert(id@ == p0[0]);
            assert(self.pending_reader() =~= p0.drop_first());
        }
        self.reader.handle_invalidation(id.as_str());
        proof {
            lemma_inv_tick_reader(c0, self.reader_cache(), self.store(), p0, id@);
        }
        true
    }

    /// Runner tick: processes the first queued invalidation by dropping the
    /// cached artifact for that identifier.
    pub fn runner_tick(&mut self) -> (r: bool)
        requires
            old(self).wf(),
        ensures
            final(self).wf(),
            final(self).store() == old(self).store(),
            final(self).reader_cache() == old(self).reader_cache(),
            final(self).spec_compile_count() == old(self).spec_compile_count(),
            final(self).write_queue() == old(self).write_queue(),
            final(self).pending_reader() == old(self).pending_reader(),
            final(self).committed() == old(self).committed(),
            final(self).write_cap() == old(self).write_cap(),
            final(self).reader_cap() == old(self).reader_cap(),
            final(self).compile_cap() == old(self).compile_cap(),
            old(self).pending_runner().len() == 0 ==> !r && final(self).compile_cache() == old(self).compile_cache() && final(self).pending_runner() == old(self).pending_runner(),
            old(self).pending_runner().len() > 0 ==> ({
                let id = old(self).pending_runner()[0];
                &&& r
                &&& final(self).pending_runner() == old(self).pending_runner().drop_first()
                &&& !contains_id(final(self).compile_cache(), id)
                &&& (contains_id(old(self).compile_cache(), id) ==> final(self).compile_cache()
                    == old(self).compile_cache().remove(idx_of(old(self).compile_cache(), id)))
                &&& (!contains_id(old(self).compile_cache(), id) ==> final(self).compile_cache()
                    == old(self).compile_cache())
            }),
    {
        if self.inv_runner.len() == 0 {
            return false;
        }
        let ghost p0 = self.pending_runner();
        let ghost c0 = self.compile_cache();
        let id = self.inv_runner.remove(0);
        proof {
            assert(id@ == p0[0]);
            assert(self.pending_runner() =~= p0.drop_first());
        }
        self.runner.handle_invalidation(id.as_str());
        proof {
            lemma_inv_tick_runner(c0, self.compile_cache(), self.store(), p0, id@, self.committed());
        }
        true
    }
}

/// After one write is applied and its identifier queued on both channels,
/// both caches stay coherent: an entry for the written identifier is now
/// pending, every other entry is untouched by the write.
proof fn lemma_tick_coherence(
    rc: Seq<(Seq<char>, ModuleView)>,
    cc: Seq<(Seq<char>, Seq<u8>)>,
    db0: Map<Seq<char>, ModuleView>,
    db1: Map<Seq<char>, ModuleView>,
    pr0: Seq<Seq<char>>,
    pn0: Seq<Seq<char>>,
    j: WriteJobView,
)
    requires
        reader_coherent(rc, db0, pr0),
        runner_coherent(cc, db0, pn0),
        db1 == apply_write(db0, j),
    ensures
        reader_coherent(rc, db1, pr0.push(j.id)),
        runner_coherent(cc, db1, pn0.push(j.id)),
{
    assert forall|k: int|
        0 <= k < rc.len() implies ((db1.contains_key((#[trigger] rc[k]).0) && rc[k].1
        == db1[rc[k].0]) || pending(pr0.push(j.id), rc[k].0)) by {
        if rc[k].0 == j.id {
            assert(pr0.push(j.id)[pr0.len() as int] == j.id);
        } else {
            if pending(pr0, rc[k].0) {
                let w = choose|i: int| 0 <= i < pr0.len() && pr0[i] == rc[k].0;
                assert(pr0.push(j.id)[w] == rc[k].0);
            }
        }
    }
    assert forall|k: int|
        0 <= k < cc.len() implies ((db1.contains_key((#[trigger] cc[k]).0) && cc[k].1
        == db1[cc[k].0].wasm) || pending(pn0.push(j.id), cc[k].0)) by {
        if cc[k].0 == j.id {
            assert(pn0.push(j.id)[pn0.len() as int] == j.id);
        } else {
            if pending(pn0, cc[k].0) {
                let w = choose|i: int| 0 <= i < pn0.len() && pn0[i] == cc[k].0;
                assert(pn0.push(j.id)[w] == cc[k].0);
            }
        }
    }
}

/// Processing one reader invalidation keeps the module cache coherent: the
/// entry for the processed identifier is gone, every other pending witness
/// shifts down by one.
proof fn lemma_inv_tick_reader(
    c0: Seq<(Seq<char>, ModuleView)>,
    c1: Seq<(Seq<char>, ModuleView)>,
    db: Map<Seq<char>, ModuleView>,
    p0: Seq<Seq<char>>,
    id: Seq<char>,
)
    requires
        reader_coherent(c0, db, p0),
        p0.len() > 0,
        p0[0] == id,
        !contains_id(c1, id),
        contains_id(c0, id) ==> c1 == c0.remove(idx_of(c0, id)),
        !contains_id(c0, id) ==> c1 == c0,
    ensures
        reader_coherent(c1, db, p0.drop_first()),
{
    assert forall|k: int|
        0 <= k < c1.len() implies ((db.contains_key((#[trigger] c1[k]).0) && c1[k].1
        == db[c1[k].0]) || pending(p0.drop_first(), c1[k].0)) by {
        let e = c1[k];
        assert(exists|k0: int| 0 <= k0 < c0.len() && c0[k0] == e) by {
            if contains_id(c0, id) {
                let i = idx_of(c0, id);
                if k < i {
                    assert(c0[k] == e);
                } else {
                    assert(c0[k + 1] == e);
                }
            } else {
                assert(c0[k] == e);
            }
        }
        let k0 = choose|k0: int| 0 <= k0 < c0.len() && c0[k0] == e;
        assert(e.0 != id);
        if !(db.contains_key(e.0) && e.1 == db[e.0]) {
            assert(pending(p0, e.0));
            let w = choose|i: int| 0 <= i < p0.len() && p0[i] == e.0;
            assert(w != 0);
            assert(p0.drop_first()[w - 1] == e.0);
        }
    }
}

/// Processing one runner invalidation keeps the compile cache coherent.
proof fn lemma_inv_tick_runner(
    c0: Seq<(Seq<char>, Seq<u8>)>,
    c1: Seq<(Seq<char>, Seq<u8>)>,
    db: Map<Seq<char>, ModuleView>,
    p0: Seq<Seq<char>>,
    id: Seq<char>,
    committed: Set<Seq<u8>>,
)
    requires
        runner_coherent(c0, db, p0),
        sources_committed(c0, committed),
        p0.len() > 0,
        p0[0] == id,
        !contains_id(c1, id),
        contains_id(c0, id) ==> c1 == c0.remove(idx_of(c0, id)),
        !contains_id(c0, id) ==> c1 == c0,
    ensures
        runner_coherent(c1, db, p0.drop_first()),
        sources_committed(c1, committed),
{
    assert forall|k: int|
        0 <= k < c1.len() implies (((db.contains_key((#[trigger] c1[k]).0) && c1[k].1
        == db[c1[k].0].wasm) || pending(p0.drop_first(), c1[k].0)) && committed.contains(
        c1[k].1,
    )) by {
        let e = c1[k];
        assert(exists|k0: int| 0 <= k0 < c0.len() && c0[k0] == e) by {
            if contains_id(c0, id) {
                let i = idx_of(c0, id);
                if k < i {
                    assert(c0[k] == e);
                } else {
                    assert(c0[k + 1] == e);
                }
            } else {
                assert(c0[k] == e);
            }
        }
        let k0 = choose|k0: int| 0 <= k0 < c0.len() && c0[k0] == e;
        assert(e.0 != id);
        if !(db.contains_key(e.0) && e.1 == db[e.0].wasm) {
            assert(pending(p0, e.0));
            let w = choose|i: int| 0 <= i < p0.len() && p0[i] == e.0;
            assert(w != 0);
            assert(p0.drop_first()[w - 1] == e.0);
        }
    }
}

/// An invocation that changes the compile cache keeps it coherent and its
/// sources committed: a promoted cache is a permutation, and a fill uses the
/// current stored bytecode, which every committed store holds.
proof fn lemma_invoke_cache_coherent(
    db: Map<Seq<char>, ModuleView>,
    c0: Seq<(Seq<char>, Seq<u8>)>,
    cap: int,
    n0: u64,
    id: Seq<char>,
    body: Seq<Option<crate::wire::WireNumber>>,
    r: RunResponse,
    c1: Seq<(Seq<char>, Seq<u8>)>,
    n1: u64,
    q: Seq<Seq<char>>,
    committed: Set<Seq<u8>>,
)
    requires
        cap >= 1,
        run_contract(db, c0, cap, n0, id, body, r, c1, n1),
        runner_coherent(c0, db, q),
        sources_committed(c0, committed),
        store_committed(db, committed),
        c1 != c0,
    ensures
        runner_coherent(c1, db, q),
        sources_committed(c1, committed),
{
    assert(db.contains_key(id));
    if contains_id(c0, id) {
        let i = idx_of(c0, id);
        assert(c1 == promoted(c0, i));
        assert forall|k: int|
            0 <= k < c1.len() implies (((db.contains_key((#[trigger] c1[k]).0) && c1[k].1
            == db[c1[k].0].wasm) || pending(q, c1[k].0)) && committed.contains(c1[k].1)) by {
            if k == 0 {
                assert(c1[k] == c0[i]);
            } else if k - 1 < i {
                assert(c1[k] == c0[k - 1]);
            } else {
                assert(c1[k] == c0[k]);
            }
        }
    } else {
        assert(c1 == inserted(c0, cap, id, db[id].wasm));
        assert forall|k: int|
            0 <= k < c1.len() implies (((db.contains_key((#[trigger] c1[k]).0) && c1[k].1
            == db[c1[k].0].wasm) || pending(q, c1[k].0)) && committed.contains(c1[k].1)) by {
            if k == 0 {
                assert(c1[k] == (id, db[id].wasm));
            } else {
                if c0.len() >= cap {
                    assert(c1[k] == (seq![(id, db[id].wasm)] + c0.drop_last())[k]);
                    assert(c1[k] == c0.drop_last()[k - 1]);
                    assert(c1[k] == c0[k - 1]);
                } else {
                    assert(c1[k] == (seq![(id, db[id].wasm)] + c0)[k]);
                    assert(c1[k] == c0[k - 1]);
                }
            }
        }
    }
}

/// A read keeps the module cache coherent: a hit only reorders entries, a
/// fill caches the current stored record.
proof fn lemma_read_cache_coherent(
    c0: Seq<(Seq<char>, ModuleView)>,
    c1: Seq<(Seq<char>, ModuleView)>,
    cap: int,
    db: Map<Seq<char>, ModuleView>,
    q: Seq<Seq<char>>,
    id: Seq<char>,
)
    requires
        cap >= 1,
        reader_coherent(c0, db, q),
        c1 == cache_after_read(c0, cap, db, id),
    ensures
        reader_coherent(c1, db, q),
{
    if contains_id(c0, id) {
        let i = idx_of(c0, id);
        assert(c1 == promoted(c0, i));
        assert forall|k: int|
            0 <= k < c1.len() implies ((db.contains_key((#[trigger] c1[k]).0) && c1[k].1
            == db[c1[k].0]) || pending(q, c1[k].0)) by {
            if k == 0 {
                assert(c1[k] == c0[i]);
            } else if k - 1 < i {
                assert(c1[k] == c0[k - 1]);
            } else {
                assert(c1[k] == c0[k]);
            }
        }
    } else if db.contains_key(id) {
        assert(c1 == inserted(c0, cap, id, db[id]));
        assert forall|k: int|
            0 <= k < c1.len() implies ((db.contains_key((#[trigger] c1[k]).0) && c1[k].1
            == db[c1[k].0]) || pending(q, c1[k].0)) by {
            if k == 0 {
                assert(c1[k] == (id, db[id]));
            } else {
                if c0.len() >= cap {
                    assert(c1[k] == (seq![(id, db[id])] + c0.drop_last())[k]);
                    assert(c1[k] == c0.drop_last()[k - 1]);
                    assert(c1[k] == c0[k - 1]);
                } else {
                    assert(c1[k] == (seq![(id, db[id])] + c0)[k]);
                    assert(c1[k] == c0[k - 1]);
                }
            }
        }
    }
}

} // verus!
