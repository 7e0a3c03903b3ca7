//! Core data model: value-type tags, module metadata, and module records.
//!
//! A stored module is a pair of raw Wasm bytecode and the metadata needed to
//! type-check an invocation without decoding the binary: the exported function
//! name, the declared argument tags, and the declared return tags.  Positions
//! whose type is unknown are carried as `None` and are filtered out before a
//! call signature is compared.

use vstd::prelude::*;

verus! {

/// A value type that may cross the invocation boundary.
#[derive(Clone, Copy, PartialEq, Eq, Structural, Debug)]
pub enum TypeTag {
    I32,
    I64,
    F32,
    F64,
}

/// Metadata describing the exported function of a stored module.
#[derive(Debug, PartialEq, Eq)]
pub struct WasmMetadata {
    /// Name of the exported function selected for invocation.
    pub function_name: String,
    /// Declared return tags, in order; `None` marks a position of unknown type.
    pub return_type: Vec<Option<TypeTag>>,
    /// Declared argument tags, in order; `None` marks a position of unknown type.
    pub args: Vec<Option<TypeTag>>,
}

/// The mathematical value of a [`WasmMetadata`].
pub ghost struct MetadataView {
    pub function_name: Seq<char>,
    pub return_type: Seq<Option<TypeTag>>,
    pub args: Seq<Option<TypeTag>>,
}

impl View for WasmMetadata {
    type V = MetadataView;

    open spec fn view(&self) -> MetadataView {
        MetadataView {
            function_name: self.function_name@,
            return_type: self.return_type@,
            args: self.args@,
        }
    }
}

/// A stored module record: raw bytecode plus its metadata.
#[derive(Debug, PartialEq, Eq)]
pub struct WasmModule {
    /// The raw WebAssembly binary.
    pub wasm: Vec<u8>,
    /// The metadata associated with the exported function.
    pub metadata: WasmMetadata,
}

/// The mathematical value of a [`WasmModule`].
pub ghost struct ModuleView {
    pub wasm: Seq<u8>,
    pub metadata: MetadataView,
}

impl View for WasmModule {
    type V = ModuleView;

    open spec fn view(&self) -> ModuleView {
        ModuleView { wasm: self.wasm@, metadata: self.metadata@ }
    }
}

/// Copies a vector of `Copy` elements.
pub fn clone_copy_vec<T: Copy>(v: &Vec<T>) -> (r: Vec<T>)
    ensures
        r@ == v@,
{
    let mut r: Vec<T> = Vec::new();
    let mut i: usize = 0;
    while i < v.len()
        invariant
            i <= v.len(),
            r@ == v@.take(i as int),
        decreases v.len() - i,
    {
        r.push(v[i]);
        i = i + 1;
        proof {
            assert(r@ =~= v@.take(i as int));
        }
    }
    proof {
        assert(r@ =~= v@);
    }
    r
}

impl WasmMetadata {
    /// Builds metadata from its three components.
    pub fn new(
        function_name: String,
        return_type: Vec<Option<TypeTag>>,
        args: Vec<Option<TypeTag>>,
    ) -> (r: Self)
        ensures
            r@ == (MetadataView {
                function_name: function_name@,
                return_type: return_type@,
                args: args@,
            }),
    {
        Self { function_name, return_type, args }
    }
}

impl Default for WasmMetadata {
    /// The empty metadata: no name, no tags.
    fn default() -> (r: Self)
        ensures
            r@.function_name.len() == 0,
            r@.return_type.len() == 0,
            r@.args.len() == 0,
    {
        WasmMetadata { function_name: String::new(), return_type: Vec::new(), args: Vec::new() }
    }
}

impl Clone for WasmMetadata {
    fn clone(&self) -> (r: Self)
        ensures
            r@ == self@,
    {
        WasmMetadata {
            function_name: self.function_name.clone(),
            return_type: clone_copy_vec(&self.return_type),
            args: clone_copy_vec(&self.args),
        }
    }
}

impl WasmModule {
    /// Builds a record from bytecode and metadata.
    pub fn new(wasm: Vec<u8>, metadata: WasmMetadata) -> (r: Self)
        ensures
            r@ == (ModuleView { wasm: wasm@, metadata: metadata@ }),
    {
        Self { wasm, metadata }
    }

    /// The raw bytecode of the record, as a byte slice.
    pub fn to_binary(&self) -> (r: &[u8])
        ensures
            r@ == self@.wasm,
    {
        self.wasm.as_slice()
    }
}

impl Default for WasmModule {
    /// The empty record: no bytecode, empty metadata.
    fn default() -> (r: Self)
        ensures
            r@.wasm.len() == 0,
            r@.metadata.function_name.len() == 0,
            r@.metadata.return_type.len() == 0,
            r@.metadata.args.len() == 0,
    {
        WasmModule { wasm: Vec::new(), metadata: WasmMetadata::default() }
    }
}

impl Clone for WasmModule {
    fn clone(&self) -> (r: Self)
        ensures
            r@ == self@,
    {
        WasmModule { wasm: clone_copy_vec(&self.wasm), metadata: self.metadata.clone() }
    }
}

} // verus!
