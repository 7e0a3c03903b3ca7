//! The service-level laws: what a client observes across create, update,
//! delete, read, and invoke, stated over the workers' contracts and proved
//! once and for all.

use vstd::prelude::*;

use crate::cache::{contains_id, inserted};
use crate::models::ModuleView;
use crate::wire::{all_wire_ok, present, RequestError, WireNumber};
use crate::workers::reader::found_record;
use crate::workers::runner::{bumped, run_contract, RunResponse};
use crate::workers::writer::{apply_write, WriteJobView, WriteOps};

verus! {

/// Create/read round trip: once the writer has applied a create job for a
/// fresh identifier and the reader holds no stale entry for it (the create's
/// invalidation has been processed), a read of that identifier observes
/// exactly the created record.
pub proof fn lemma_create_read_roundtrip(
    db: Map<Seq<char>, ModuleView>,
    c: Seq<(Seq<char>, ModuleView)>,
    id: Seq<char>,
    r: ModuleView,
)
    requires
        !contains_id(c, id),
    ensures
        ({
            let db1 = apply_write(
                db,
                WriteJobView { write_op: WriteOps::Create, write_module: Some(r), id },
            );
            found_record(c, db1, id) == Some(r)
        }),
{
}

/// Update supersedes: once the writer has applied an update and the reader
/// has processed the matching invalidation, a read observes the new record.
pub proof fn lemma_update_supersedes(
    db: Map<Seq<char>, ModuleView>,
    c: Seq<(Seq<char>, ModuleView)>,
    id: Seq<char>,
    r2: ModuleView,
)
    requires
        !contains_id(c, id),
    ensures
        ({
            let db1 = apply_write(
                db,
                WriteJobView { write_op: WriteOps::Update, write_module: Some(r2), id },
            );
            found_record(c, db1, id) == Some(r2)
        }),
{
}

/// Update supersedes, compile-cache half: once the update is applied and the
/// runner has processed the matching invalidation, an invocation that passes
/// the type check and is not refused by the compiler compiles exactly the
/// new record's bytecode and caches it.
pub proof fn lemma_update_compiles_new(
    db: Map<Seq<char>, ModuleView>,
    cc: Seq<(Seq<char>, Seq<u8>)>,
    cap: int,
    n0: u64,
    id: Seq<char>,
    r2: ModuleView,
    body: Seq<Option<WireNumber>>,
    resp: RunResponse,
    c1: Seq<(Seq<char>, Seq<u8>)>,
    n1: u64,
)
    requires
        !contains_id(cc, id),
        ({
            let db1 = apply_write(
                db,
                WriteJobView { write_op: WriteOps::Update, write_module: Some(r2), id },
            );
            &&& run_contract(db1, cc, cap, n0, id, body, resp, c1, n1)
            &&& present(r2.metadata.args).len() == present(body).len()
            &&& all_wire_ok(present(r2.metadata.args), present(body))
        }),
        !(resp matches RunResponse::Fail(e) && e matches RequestError::CompileError(_)),
    ensures
        c1 == inserted(cc, cap, id, r2.wasm),
        n1 == bumped(n0),
        contains_id(c1, id),
{
    let db1 = apply_write(
        db,
        WriteJobView { write_op: WriteOps::Update, write_module: Some(r2), id },
    );
    assert(db1[id] == r2);
    assert(inserted(cc, cap, id, r2.wasm)[0].0 == id);
}

/// Delete removes, read half: once the writer has applied a delete and the
/// reader has processed the matching invalidation, a read observes nothing,
/// so the service answers with its 404-class failure.
pub proof fn lemma_delete_removes(
    db: Map<Seq<char>, ModuleView>,
    c: Seq<(Seq<char>, ModuleView)>,
    id: Seq<char>,
)
    requires
        !contains_id(c, id),
    ensures
        ({
            let db1 = apply_write(
                db,
                WriteJobView { write_op: WriteOps::Delete, write_module: None, id },
            );
            found_record(c, db1, id) is None
        }),
{
}

/// Delete removes, invoke half: once the delete is applied, any invocation
/// of the identifier fails with the 404-class `InvalidId` and changes
/// neither the compile cache nor the compile counter.
pub proof fn lemma_delete_invoke_rejected(
    db: Map<Seq<char>, ModuleView>,
    cc: Seq<(Seq<char>, Seq<u8>)>,
    cap: int,
    n0: u64,
    id: Seq<char>,
    body: Seq<Option<WireNumber>>,
    resp: RunResponse,
    c1: Seq<(Seq<char>, Seq<u8>)>,
    n1: u64,
)
    requires
        ({
            let db1 = apply_write(
                db,
                WriteJobView { write_op: WriteOps::Delete, write_module: None, id },
            );
            run_contract(db1, cc, cap, n0, id, body, resp, c1, n1)
        }),
    ensures
        resp matches RunResponse::Fail(e) && e matches RequestError::InvalidId(_),
        c1 == cc,
        n1 == n0,
{
}

/// The store after the writer has drained a queue of jobs, in order.
pub open spec fn apply_all(
    db: Map<Seq<char>, ModuleView>,
    jobs: Seq<WriteJobView>,
) -> Map<Seq<char>, ModuleView>
    decreases jobs.len(),
{
    if jobs.len() == 0 {
        db
    } else {
        apply_all(apply_write(db, jobs[0]), jobs.drop_first())
    }
}

/// Jobs that never write an identifier leave its record alone.
pub proof fn lemma_other_writes_preserve(
    db: Map<Seq<char>, ModuleView>,
    jobs: Seq<WriteJobView>,
    id: Seq<char>,
)
    requires
        forall|j: int| 0 <= j < jobs.len() ==> (#[trigger] jobs[j]).id != id,
    ensures
        apply_all(db, jobs).contains_key(id) == db.contains_key(id),
        db.contains_key(id) ==> apply_all(db, jobs)[id] == db[id],
    decreases jobs.len(),
{
    if jobs.len() > 0 {
        lemma_other_writes_preserve(apply_write(db, jobs[0]), jobs.drop_first(), id);
    }
}

/// Writes are linearized and the last write wins: after the writer has
/// drained its queue, the store holds, for each identifier, exactly the
/// payload of the last job that stored it.  Invocations never change the
/// store, so any interleaving of invocations leaves this unchanged.
pub proof fn lemma_last_write_wins(
    db: Map<Seq<char>, ModuleView>,
    jobs: Seq<WriteJobView>,
    i: int,
)
    requires
        0 <= i < jobs.len(),
        forall|j: int| i < j < jobs.len() ==> (#[trigger] jobs[j]).id != jobs[i].id,
        jobs[i].write_op != WriteOps::Delete,
        jobs[i].write_module is Some,
    ensures
        apply_all(db, jobs).contains_key(jobs[i].id),
        apply_all(db, jobs)[jobs[i].id] == jobs[i].write_module->0,
    decreases jobs.len(),
{
    if i == 0 {
        let db1 = apply_write(db, jobs[0]);
        assert(db1.contains_key(jobs[0].id) && db1[jobs[0].id] == jobs[0].write_module->0);
        assert(forall|j: int|
            0 <= j < jobs.drop_first().len() ==> (#[trigger] jobs.drop_first()[j]).id
                != jobs[0].id);
        lemma_other_writes_preserve(db1, jobs.drop_first(), jobs[0].id);
    } else {
        assert(jobs.drop_first()[i - 1] == jobs[i]);
        assert(forall|j: int|
            i - 1 < j < jobs.drop_first().len() ==> (#[trigger] jobs.drop_first()[j]).id
                != jobs.drop_first()[i - 1].id);
        lemma_last_write_wins(apply_write(db, jobs[0]), jobs.drop_first(), i - 1);
    }
}

/// Invocations run only committed bytecode: whichever artifact an
/// invocation of `id` can have executed — the cached one or a fresh compile
/// of the stored record — its source bytecode was stored by some committed
/// write.  Together with [`lemma_last_write_wins`] this bounds what an
/// invocation interleaved with writes can observe.
pub proof fn lemma_invoke_runs_committed(
    db: Map<Seq<char>, ModuleView>,
    c0: Seq<(Seq<char>, Seq<u8>)>,
    id: Seq<char>,
    committed: Set<Seq<u8>>,
)
    requires
        crate::wess::sources_committed(c0, committed),
        crate::wess::store_committed(db, committed),
    ensures
        contains_id(c0, id) ==> committed.contains(c0[crate::cache::idx_of(c0, id)].1),
        db.contains_key(id) ==> committed.contains(db[id].wasm),
{
    if contains_id(c0, id) {
        let i = crate::cache::idx_of(c0, id);
        assert(0 <= i < c0.len());
    }
}

/// Back-to-back invocations compile once: if the first invocation of an
/// identifier misses the compile cache, passes the type check, and is not
/// refused by the compiler, it compiles and counts exactly one compile; a
/// second invocation of the same identifier against the unchanged store hits
/// the cache and compiles nothing.
pub proof fn lemma_back_to_back_invokes(
    db: Map<Seq<char>, ModuleView>,
    c0: Seq<(Seq<char>, Seq<u8>)>,
    cap: int,
    n0: u64,
    id: Seq<char>,
    body: Seq<Option<WireNumber>>,
    r1: RunResponse,
    c1: Seq<(Seq<char>, Seq<u8>)>,
    n1: u64,
    r2: RunResponse,
    c2: Seq<(Seq<char>, Seq<u8>)>,
    n2: u64,
)
    requires
        run_contract(db, c0, cap, n0, id, body, r1, c1, n1),
        run_contract(db, c1, cap, n1, id, body, r2, c2, n2),
        !contains_id(c0, id),
        db.contains_key(id),
        present(db[id].metadata.args).len() == present(body).len(),
        all_wire_ok(present(db[id].metadata.args), present(body)),
        !(r1 matches RunResponse::Fail(e) && e matches RequestError::CompileError(_)),
        n0 < u64::MAX,
    ensures
        n1 == n0 + 1,
        n2 == n1,
        contains_id(c1, id),
{
    assert(c1 == inserted(c0, cap, id, db[id].wasm));
    assert(inserted(c0, cap, id, db[id].wasm)[0].0 == id);
    assert(contains_id(c1, id));
}

} // verus!
