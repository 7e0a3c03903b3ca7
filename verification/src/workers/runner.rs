//! The runner worker: serves invocations, owns the compile cache, and drives
//! the Wasm runtime.
//!
//! One invocation fetches the stored record, type-checks the arguments
//! against the declared tags, reuses or compiles the artifact, and runs the
//! exported function on a fresh instance.  Everything up to the engine call
//! is deterministic and stated exactly; of the engine itself the contract
//! says only which failure class each stage maps to.

use vstd::prelude::*;

use crate::cache::{contains_id, distinct_keys, idx_of, inserted, promoted};
use crate::database::RocksDB;
use crate::engine::{CompiledWasmCache, EngineStage, Runtime};
use crate::models::ModuleView;
use crate::wire::{all_wire_ok, deserialize_request, first_bad, present, serialize_wasm_return,
    RequestError, WireNumber, WireOut};

verus! {

/// The reply to one run job: the encoded return values, or a typed failure.
#[derive(Debug, PartialEq, Eq)]
pub enum RunResponse {
    Success(Vec<WireOut>),
    Fail(RequestError),
}

impl RunResponse {
    /// Wraps the encoded return values of a successful invocation.
    pub fn new(r: Vec<WireOut>) -> (s: Self)
        ensures
            s == RunResponse::Success(r),
    {
        RunResponse::Success(r)
    }

    /// Wraps a failure.
    pub fn fail(e: RequestError) -> (s: Self)
        ensures
            s == RunResponse::Fail(e),
    {
        RunResponse::Fail(e)
    }
}

/// One more compile, capped at the counter's range.
pub open spec fn bumped(c: u64) -> u64 {
    if c < u64::MAX {
        (c + 1) as u64
    } else {
        c
    }
}


/// The outcomes an invocation can have once the engine is reached: the
/// encoded return values, or a failure from instantiation or execution.
pub open spec fn engine_outcome(r: RunResponse) -> bool {
    ||| r matches RunResponse::Success(_)
    ||| r matches RunResponse::Fail(e) && (e matches RequestError::InstantiateError(_) || e matches
        RequestError::ExecutionError(_))
}

/// The contract of one run job, relating the store, the compile cache and
/// compile counter before (`c0`, `n0`) and after (`c1`, `n1`), the request,
/// and the reply:
/// - an identifier not in the store fails with `InvalidId`, changing nothing;
/// - an argument list whose count differs from the declared count fails with
///   `LengthArgsError` naming both counts, changing nothing;
/// - an argument that does not match its tag fails with `InvalidType` naming
///   the first offending tag, changing nothing;
/// - past the type check, a cached artifact is promoted and nothing is
///   compiled; otherwise the engine either refuses the bytecode
///   (`CompileError`, changing nothing) or the current bytecode is compiled,
///   counted once, and cached; either way the outcome is the encoded return
///   values or an instantiate- or execute-stage failure.
pub open spec fn run_contract(
    db: Map<Seq<char>, ModuleView>,
    c0: Seq<(Seq<char>, Seq<u8>)>,
    cap: int,
    n0: u64,
    id: Seq<char>,
    body: Seq<Option<WireNumber>>,
    r: RunResponse,
    c1: Seq<(Seq<char>, Seq<u8>)>,
    n1: u64,
) -> bool {
    &&& (!db.contains_key(id) ==> (r matches RunResponse::Fail(e) && e matches
        RequestError::InvalidId(_) && c1 == c0 && n1 == n0))
    &&& (db.contains_key(id) ==> ({
        let m = db[id];
        let tags = present(m.metadata.args);
        let vals = present(body);
        &&& (tags.len() != vals.len() ==> r == RunResponse::Fail(
            RequestError::LengthArgsError {
                expect: tags.len() as usize,
                found: vals.len() as usize,
            },
        ) && c1 == c0 && n1 == n0)
        &&& (tags.len() == vals.len() && !all_wire_ok(tags, vals) ==> r == RunResponse::Fail(
            RequestError::InvalidType(tags[first_bad(tags, vals)]),
        ) && c1 == c0 && n1 == n0)
        &&& (tags.len() == vals.len() && all_wire_ok(tags, vals) && contains_id(c0, id) ==> (c1
            == promoted(c0, idx_of(c0, id)) && n1 == n0 && engine_outcome(r)))
        &&& (tags.len() == vals.len() && all_wire_ok(tags, vals) && !contains_id(c0, id) ==> ({
            ||| (r matches RunResponse::Fail(e) && e matches RequestError::CompileError(_) && c1
                == c0 && n1 == n0)
            ||| (c1 == inserted(c0, cap, id, m.wasm) && n1 == bumped(n0) && engine_outcome(r))
        }))
    }))
}

/// The runner worker: the compile cache, the runtime, and the compile
/// counter the metrics export.
pub struct Runner {
    cache: CompiledWasmCache,
    runtime: Runtime,
    compile_count: u64,
}

impl Runner {
    /// The source bytecode of each cached artifact, most recent first.
    pub closed spec fn cache_view(&self) -> Seq<(Seq<char>, Seq<u8>)> {
        self.cache@
    }

    /// The compile cache capacity.
    pub closed spec fn spec_cap(&self) -> int {
        self.cache.spec_cap()
    }

    /// How many compiles have happened.
    pub closed spec fn spec_compile_count(&self) -> u64 {
        self.compile_count
    }

    /// Structural invariant, inherited from the compile cache.
    pub closed spec fn wf(&self) -> bool {
        self.cache.wf()
    }

    /// The invariant seen from outside: distinct identifiers, bounded count.
    pub proof fn lemma_wf(&self)
        requires
            self.wf(),
        ensures
            self.spec_cap() >= 1,
            self.cache_view().len() <= self.spec_cap(),
            distinct_keys(self.cache_view()),
    {
        self.cache.lemma_wf();
    }

    /// Creates a runner whose compile cache holds `cache_size` artifacts.
    pub fn new(cache_size: usize) -> (r: Self)
        requires
            cache_size >= 1,
        ensures
            r.wf(),
            r.cache_view() == Seq::<(Seq<char>, Seq<u8>)>::empty(),
            r.spec_cap() == cache_size,
            r.spec_compile_count() == 0,
    {
        Runner { cache: CompiledWasmCache::new(cache_size), runtime: Runtime::new(), compile_count: 0 }
    }

    /// How many compiles have happened, for the metrics export.
    pub fn compile_count(&self) -> (r: u64)
        ensures
            r == self.spec_compile_count(),
    {
        self.compile_count
    }

    /// Quick-validates uploaded bytecode, for the write path.
    pub fn validate(&self, bytes: &[u8]) -> (r: Result<(), String>) {
        self.runtime.validate(bytes)
    }

    /// Drops the cached artifact for `id`, if any: the writer has committed
    /// a mutation of `id`.
    pub fn handle_invalidation(&mut self, id: &str)
        requires
            old(self).wf(),
        ensures
            final(self).wf(),
            final(self).spec_cap() == old(self).spec_cap(),
            final(self).spec_compile_count() == old(self).spec_compile_count(),
            contains_id(old(self).cache_view(), id@) ==> final(self).cache_view() == old(self).cache_view().remove(idx_of(old(self).cache_view(), id@)),
            !contains_id(old(self).cache_view(), id@) ==> final(self).cache_view() == old(self).cache_view(),
            !contains_id(final(self).cache_view(), id@),
    {
        self.cache.del(id);
    }

    /// Serves one run job.
    ///
    /// The reply is exactly one of:
    /// - `InvalidId` when the identifier is not in the store; nothing changes;
    /// - `LengthArgsError` or `InvalidType` from the type check, naming the
    ///   counts or the first offending tag; nothing changes;
    /// - `CompileError` when the artifact was not cached and the engine
    ///   refused the bytecode; nothing changes;
    /// - otherwise the export ran: on a cache hit the artifact is promoted
    ///   and no compile happens, on a miss the current bytecode is compiled,
    ///   counted, and cached; the outcome is the encoded return values or an
    ///   `InstantiateError` / `ExecutionError` failure.
    pub fn handle_run(&mut self, db: &RocksDB, id: &String, body: &Vec<Option<WireNumber>>) -> (r:
        RunResponse)
        requires
            old(self).wf(),
            db.wf(),
        ensures
            final(self).wf(),
            final(self).spec_cap() == old(self).spec_cap(),
            run_contract(
                db@,
                old(self).cache_view(),
                old(self).spec_cap(),
                old(self).spec_compile_count(),
                id@,
                body@,
                r,
                final(self).cache_view(),
                final(self).spec_compile_count(),
            ),
    {
        let record = match db.get(id.as_str()) {
            Some(m) => m,
            None => {
                return RunResponse::Fail(
                    RequestError::InvalidId("Wasm module not found".to_owned()),
                );
            },
        };
        let args = match deserialize_request(&record.metadata.args, body) {
            Ok(a) => a,
            Err(e) => {
                return RunResponse::Fail(e);
            },
        };
        let artifact = match self.cache.get(id.as_str()) {
            Some(a) => a,
            None => {
                let compiled = match self.runtime.compile(&record.wasm) {
                    Ok(a) => a,
                    Err(msg) => {
                        return RunResponse::Fail(RequestError::CompileError(msg));
                    },
                };
                let shared = compiled.share();
                self.cache.put(id.clone(), compiled);
                if self.compile_count < u64::MAX {
                    self.compile_count = self.compile_count + 1;
                }
                shared
            },
        };
        match self.runtime.run(&artifact.module, record.metadata.function_name.as_str(), &args) {
            Ok(vals) => RunResponse::Success(serialize_wasm_return(&vals)),
            Err((stage, msg)) => {
                match stage {
                    EngineStage::Instantiate | EngineStage::Lookup => RunResponse::Fail(
                        RequestError::InstantiateError(msg),
                    ),
                    EngineStage::Execute => RunResponse::Fail(RequestError::ExecutionError(msg)),
                }
            },
        }
    }
}

} // verus!
