//! The Wasm engine boundary: compile, instantiate, look up an export, and
//! call it.
//!
//! Everything the engine computes is opaque to the library; each call goes
//! through one trusted wrapper.  The compile cache pairs each compiled
//! artifact with the (ghost) bytecode it was compiled from, so the cache
//! coherence argument never rests on the engine itself.

use vstd::prelude::*;

use crate::cache::{contains_id, distinct_keys, idx_of, inserted, promoted, Cache};
use crate::wire::WasmVal;

verus! {

#[verifier::external_type_specification]
#[verifier::external_body]
pub struct ExStore(wasmer::Store);

#[verifier::external_type_specification]
#[verifier::external_body]
pub struct ExModule(wasmer::Module);

#[verifier::external_type_specification]
#[verifier::external_body]
pub struct ExInstance(wasmer::Instance);

#[verifier::external_type_specification]
#[verifier::external_body]
pub struct ExFunction(wasmer::Function);

#[verifier::external_type_specification]
#[verifier::external_body]
pub struct ExValue(wasmer::Value);

/// Relies on `wasmer::Store::default`: a fresh store with the default
/// (compiling) engine.
#[verifier::external_body]
fn new_store() -> wasmer::Store {
    wasmer::Store::default()
}

/// Relies on `wasmer::Module::validate`: checks that the bytes are a
/// well-formed Wasm binary for the store's engine, without fully compiling.
#[verifier::external_body]
fn validate_bytes(store: &wasmer::Store, bytes: &[u8]) -> (r: Result<(), String>) {
    wasmer::Module::validate(store, bytes).map_err(|e| e.to_string())
}

/// Relies on `wasmer::Module::new`: validates and compiles the bytecode,
/// returning the compiled module or the compiler diagnostic.
#[verifier::external_body]
fn compile_bytes(store: &wasmer::Store, bytes: &Vec<u8>) -> (r: Result<wasmer::Module, String>) {
    wasmer::Module::new(store, bytes.as_slice()).map_err(|e| e.to_string())
}

/// Relies on `wasmer::Instance::new`: instantiates the module with an empty
/// import set; the start function runs here.
#[verifier::external_body]
fn instantiate(store: &mut wasmer::Store, module: &wasmer::Module) -> (r: Result<
    wasmer::Instance,
    String,
>) {
    let imports = wasmer::Imports::new();
    wasmer::Instance::new(store, module, &imports).map_err(|e| e.to_string())
}

/// Relies on `wasmer::Exports::get_function`: resolves the named export on
/// the instance.
#[verifier::external_body]
fn get_export_function(instance: &wasmer::Instance, name: &str) -> (r: Result<
    wasmer::Function,
    String,
>) {
    instance.exports.get_function(name).map(|f| f.clone()).map_err(|e| e.to_string())
}

/// Relies on the `wasmer::Value` constructors and on float parsing: each
/// typed value becomes the engine value of the same tag.  A float arrives as
/// its decimal text and is parsed here, narrowed for the 32-bit tag; text
/// that is not a float becomes zero.
#[verifier::external_body]
fn to_engine_value(v: &WasmVal) -> wasmer::Value {
    match v {
        WasmVal::I32(x) => wasmer::Value::I32(*x),
        WasmVal::I64(x) => wasmer::Value::I64(*x),
        WasmVal::F32(t) => wasmer::Value::F32(t.parse().unwrap_or_default()),
        WasmVal::F64(t) => wasmer::Value::F64(t.parse().unwrap_or_default()),
    }
}

/// Relies on the `wasmer::Value` accessors and on float formatting, whose
/// shortest decimal output parses back to the same float: each basic engine
/// value becomes its typed value; values outside the four basic types have
/// no wire form.
#[verifier::external_body]
fn from_engine_value(v: &wasmer::Value) -> Option<WasmVal> {
    match v {
        wasmer::Value::I32(x) => Some(WasmVal::I32(*x)),
        wasmer::Value::I64(x) => Some(WasmVal::I64(*x)),
        wasmer::Value::F32(x) => Some(WasmVal::F32(x.to_string())),
        wasmer::Value::F64(x) => Some(WasmVal::F64(x.to_string())),
        _ => None,
    }
}

/// Relies on `wasmer::Function::call`: runs the export on the given typed
/// arguments and hands back the returned values in order, or the trap text.
#[verifier::external_body]
fn call_function(store: &mut wasmer::Store, f: &wasmer::Function, args: &Vec<WasmVal>) -> (r:
    Result<Vec<Option<WasmVal>>, String>) {
    let params: Vec<wasmer::Value> = args.iter().map(to_engine_value).collect();
    match f.call(store, params.as_slice()) {
        Ok(vals) => Ok(vals.iter().map(from_engine_value).collect()),
        Err(e) => Err(e.to_string()),
    }
}

/// Relies on `wasmer::Module::clone`: the compiled artifact is shared, not
/// rebuilt.
#[verifier::external_body]
fn clone_module(m: &wasmer::Module) -> wasmer::Module {
    m.clone()
}

/// A compiled artifact together with the bytecode it was compiled from.
pub struct CompiledArtifact {
    pub module: wasmer::Module,
    /// The source bytecode, kept as ghost data for the coherence argument.
    pub source: Ghost<Seq<u8>>,
}

impl CompiledArtifact {
    /// Shares the artifact: the module handle is cloned, the source stays.
    pub fn share(&self) -> (r: CompiledArtifact)
        ensures
            r.source@ == self.source@,
    {
        CompiledArtifact { module: clone_module(&self.module), source: Ghost(self.source@) }
    }
}

/// The stage at which the engine refused an invocation.
#[derive(Clone, Copy, PartialEq, Eq, Structural, Debug)]
pub enum EngineStage {
    Instantiate,
    Lookup,
    Execute,
}

/// The runtime environment: one store, owned by the runner.
pub struct Runtime {
    store: wasmer::Store,
}

impl Runtime {
    /// Creates the runtime with a fresh store.
    pub fn new() -> (r: Self) {
        Runtime { store: new_store() }
    }

    /// Quick-validates uploaded bytecode without compiling it.
    pub fn validate(&self, bytes: &[u8]) -> (r: Result<(), String>) {
        validate_bytes(&self.store, bytes)
    }

    /// Compiles bytecode into an artifact that remembers its source.
    pub fn compile(&self, bytes: &Vec<u8>) -> (r: Result<CompiledArtifact, String>)
        ensures
            r matches Ok(a) ==> a.source@ == bytes@,
    {
        match compile_bytes(&self.store, bytes) {
            Ok(module) => Ok(CompiledArtifact { module, source: Ghost(bytes@) }),
            Err(e) => Err(e),
        }
    }

    /// Instantiates the artifact, resolves the named export and calls it on
    /// the typed arguments; a failure names the stage it came from.
    pub fn run(&mut self, module: &wasmer::Module, function_name: &str, args: &Vec<WasmVal>) -> (r:
        Result<Vec<Option<WasmVal>>, (EngineStage, String)>) {
        let instance = match instantiate(&mut self.store, module) {
            Ok(i) => i,
            Err(e) => {
                return Err((EngineStage::Instantiate, e));
            },
        };
        let f = match get_export_function(&instance, function_name) {
            Ok(f) => f,
            Err(e) => {
                return Err((EngineStage::Lookup, e));
            },
        };
        match call_function(&mut self.store, &f, args) {
            Ok(vals) => Ok(vals),
            Err(e) => Err((EngineStage::Execute, e)),
        }
    }
}

/// The source bytecode each cached artifact was compiled from, by
/// identifier, most recent first.
pub open spec fn cache_sources(s: Seq<(Seq<char>, CompiledArtifact)>) -> Seq<(Seq<char>, Seq<u8>)> {
    s.map_values(|e: (Seq<char>, CompiledArtifact)| (e.0, e.1.source@))
}

proof fn lemma_cache_sources_contains(s: Seq<(Seq<char>, CompiledArtifact)>, id: Seq<char>)
    requires
        distinct_keys(s),
    ensures
        contains_id(cache_sources(s), id) == contains_id(s, id),
        contains_id(s, id) ==> idx_of(cache_sources(s), id) == idx_of(s, id),
{
    if contains_id(s, id) {
        let i = idx_of(s, id);
        assert(cache_sources(s)[i].0 == id);
        assert(contains_id(cache_sources(s), id));
        let j = idx_of(cache_sources(s), id);
        assert(s[j].0 == id);
    } else {
        if contains_id(cache_sources(s), id) {
            let j = idx_of(cache_sources(s), id);
            assert(s[j].0 == id);
            assert(false);
        }
    }
}

/// The bounded compile cache: identifier to compiled artifact, least
/// recently used out first.
pub struct CompiledWasmCache {
    cache: Cache<CompiledArtifact>,
}

impl View for CompiledWasmCache {
    type V = Seq<(Seq<char>, Seq<u8>)>;

    closed spec fn view(&self) -> Seq<(Seq<char>, Seq<u8>)> {
        cache_sources(self.cache@)
    }
}

impl CompiledWasmCache {
    /// The fixed capacity.
    pub closed spec fn spec_cap(&self) -> int {
        self.cache.spec_cap()
    }

    /// Structural invariant, inherited from the underlying cache.
    pub closed spec fn wf(&self) -> bool {
        self.cache.wf()
    }

    /// The invariant seen from outside: distinct identifiers, bounded count.
    pub proof fn lemma_wf(&self)
        requires
            self.wf(),
        ensures
            self.spec_cap() >= 1,
            self@.len() <= self.spec_cap(),
            distinct_keys(self@),
    {
        assert forall|i: int, j: int| 0 <= i < j < self@.len() implies self@[i].0 != self@[j].0 by {
            assert(self.cache@[i].0 != self.cache@[j].0);
        }
    }

    /// Creates an empty compile cache with the given capacity.
    pub fn new(cap: usize) -> (r: Self)
        requires
            cap >= 1,
        ensures
            r.wf(),
            r@ == Seq::<(Seq<char>, Seq<u8>)>::empty(),
            r.spec_cap() == cap,
    {
        let r = CompiledWasmCache { cache: Cache::new(cap) };
        proof {
            assert(r@ =~= Seq::<(Seq<char>, Seq<u8>)>::empty());
        }
        r
    }

    /// Looks `id` up; a hit promotes the artifact to most-recent and hands
    /// back a shared handle to it.
    pub fn get(&mut self, id: &str) -> (r: Option<CompiledArtifact>)
        requires
            old(self).wf(),
        ensures
            final(self).wf(),
            final(self).spec_cap() == old(self).spec_cap(),
            contains_id(old(self)@, id@) ==> {
                let i = idx_of(old(self)@, id@);
                &&& final(self)@ == promoted(old(self)@, i)
                &&& r matches Some(a) && a.source@ == old(self)@[i].1
            },
            !contains_id(old(self)@, id@) ==> final(self)@ == old(self)@ && r is None,
    {
        let ghost c0 = self.cache@;
        proof {
            lemma_cache_sources_contains(c0, id@);
        }
        let found = self.cache.get(id);
        let r = match found {
            Some(a) => Some(
                CompiledArtifact { module: clone_module(&a.module), source: Ghost(a.source@) },
            ),
            None => None,
        };
        proof {
            if contains_id(c0, id@) {
                let i = idx_of(c0, id@);
                assert(cache_sources(self.cache@) =~= promoted(cache_sources(c0), i));
            } else {
                assert(cache_sources(self.cache@) == cache_sources(c0));
            }
        }
        r
    }

    /// Caches a freshly compiled artifact under `id`, evicting the least
    /// recently used artifact first if the cache is full.
    pub fn put(&mut self, id: String, artifact: CompiledArtifact)
        requires
            old(self).wf(),
        ensures
            final(self).wf(),
            final(self).spec_cap() == old(self).spec_cap(),
            !contains_id(old(self)@, id@) ==> final(self)@ == inserted(
                old(self)@,
                old(self).spec_cap(),
                id@,
                artifact.source@,
            ),
            contains_id(old(self)@, id@) ==> final(self)@ == promoted(
                old(self)@.update(idx_of(old(self)@, id@), (id@, artifact.source@)),
                idx_of(old(self)@, id@),
            ),
    {
        let ghost c0 = self.cache@;
        let ghost idv = id@;
        let ghost src = artifact.source@;
        proof {
            lemma_cache_sources_contains(c0, idv);
        }
        self.cache.put(id, artifact);
        proof {
            if contains_id(c0, idv) {
                let i = idx_of(c0, idv);
                assert(cache_sources(self.cache@) =~= promoted(
                    cache_sources(c0).update(i, (idv, src)),
                    i,
                ));
            } else {
                assert(cache_sources(self.cache@) =~= inserted(
                    cache_sources(c0),
                    old(self).spec_cap(),
                    idv,
                    src,
                ));
            }
        }
    }

    /// Drops the artifact for `id`, if any.
    pub fn del(&mut self, id: &str)
        requires
            old(self).wf(),
        ensures
            final(self).wf(),
            final(self).spec_cap() == old(self).spec_cap(),
            contains_id(old(self)@, id@) ==> final(self)@ == old(self)@.remove(
                idx_of(old(self)@, id@),
            ),
            !contains_id(old(self)@, id@) ==> final(self)@ == old(self)@,
            !contains_id(final(self)@, id@),
    {
        let ghost c0 = self.cache@;
        proof {
            lemma_cache_sources_contains(c0, id@);
        }
        self.cache.del(id);
        proof {
            if contains_id(c0, id@) {
                let i = idx_of(c0, id@);
                assert(cache_sources(self.cache@) =~= cache_sources(c0).remove(i));
            } else {
                assert(cache_sources(self.cache@) == cache_sources(c0));
            }
            lemma_cache_sources_contains(self.cache@, id@);
        }
    }
}

} // verus!
