//! The record store: module records encoded into the byte-level store.
//!
//! Each record is kept under its identifier as the codec's byte string; the
//! store is modelled as a map from identifier to record, and every operation
//! says exactly how it changes that map.

use vstd::prelude::*;

pub mod rocksdb;

use crate::codec::{decode, decoded, encode, lemma_codec_roundtrip, pow256};
use vstd::string::StringSliceAdditionalSpecFns;
use vstd::utf8::encode_utf8;
use crate::errors::WessError;
use crate::models::{ModuleView, WasmModule};

verus! {

/// An error of the byte-level store.
#[derive(Debug)]
pub enum RocksDBError {
    /// An unknown error, with its diagnostic.
    Unknown(String),
    /// The requested key was not found.
    NotFound,
}

/// The record store, a map from identifier to module record.
#[derive(Debug)]
pub struct RocksDB {
    db: rocksdb::RocksDB,
}

/// The mathematical record map of a store: every stored byte string decodes,
/// and the map sends each identifier to its decoded record.
impl View for RocksDB {
    type V = Map<Seq<char>, ModuleView>;

    closed spec fn view(&self) -> Map<Seq<char>, ModuleView> {
        Map::new(|k: Seq<char>| self.db@.contains_key(k), |k: Seq<char>| decoded(self.db@[k])->0)
    }
}

impl RocksDB {
    /// Internal invariant: the byte store is well formed and holds only
    /// encoded records.
    pub closed spec fn wf(&self) -> bool {
        &&& self.db.wf()
        &&& forall|k: Seq<char>|
            self.db@.contains_key(k) ==> (#[trigger] decoded(self.db@[k])) is Some
    }

    /// Opens the production store.
    pub fn new() -> (r: Self)
        ensures
            r.wf(),
            r@ == Map::<Seq<char>, ModuleView>::empty(),
    {
        let r = RocksDB { db: rocksdb::RocksDB::new() };
        proof {
            assert(r@ =~= Map::<Seq<char>, ModuleView>::empty());
        }
        r
    }

    /// Opens a scratch store for tests.
    pub fn dev() -> (r: Self)
        ensures
            r.wf(),
            r@ == Map::<Seq<char>, ModuleView>::empty(),
    {
        let r = RocksDB { db: rocksdb::RocksDB::dev() };
        proof {
            assert(r@ =~= Map::<Seq<char>, ModuleView>::empty());
        }
        r
    }

    /// Creates the record under `key`; after it returns, a `get` of `key`
    /// observes exactly this record.
    pub fn add(&mut self, key: &str, wasm: WasmModule) -> (r: Result<String, WessError>)
        requires
            old(self).wf(),
        ensures
            final(self).wf(),
            final(self)@ == old(self)@.insert(key@, wasm@),
            r matches Ok(k) && k@ == key@,
    {
        let wl = wasm.wasm.len();
        let name_bytes = wasm.metadata.function_name.as_str().as_bytes();
        let nl = name_bytes.len();
        proof {
            assert(name_bytes@ == encode_utf8(wasm.metadata.function_name@));
            assert(nl == encode_utf8(wasm.metadata.function_name@).len());
        }
        let rl = wasm.metadata.return_type.len();
        let al = wasm.metadata.args.len();
        let bytes = encode(&wasm);
        proof {
            assert(pow256(8) == 0x1_0000_0000_0000_0000) by {
                reveal_with_fuel(pow256, 9);
            }
            assert(wl < pow256(8) && nl < pow256(8) && rl < pow256(8) && al < pow256(8));
            lemma_codec_roundtrip(wasm@);
        }
        let _ = self.db.put(key, bytes);
        proof {
            assert(final(self)@ =~= old(self)@.insert(key@, wasm@));
        }
        Ok(key.to_owned())
    }

    /// Replaces the record under `key` wholesale; the map afterwards sends
    /// `key` to the new record.
    pub fn upd(&mut self, key: &str, wasm: WasmModule) -> (r: Result<String, WessError>)
        requires
            old(self).wf(),
        ensures
            final(self).wf(),
            final(self)@ == old(self)@.insert(key@, wasm@),
            r matches Ok(k) && k@ == key@,
    {
        self.add(key, wasm)
    }

    /// The record stored under `key`, or its absence.
    pub fn get(&self, key: &str) -> (r: Option<WasmModule>)
        requires
            self.wf(),
        ensures
            match r {
                Some(m) => self@.contains_key(key@) && m@ == self@[key@],
                None => !self@.contains_key(key@),
            },
    {
        match self.db.get(key) {
            Some(bytes) => {
                match decode(&bytes) {
                    Some(m) => Some(m),
                    None => {
                        proof {
                            assert(decoded(self.db@[key@]) is Some);
                            assert(false);
                        }
                        None
                    },
                }
            },
            None => None,
        }
    }

    /// Removes the record under `key`; a later `get` observes its absence.
    pub fn del(&mut self, key: &str) -> (r: Result<String, WessError>)
        requires
            old(self).wf(),
        ensures
            final(self).wf(),
            final(self)@ == old(self)@.remove(key@),
            r matches Ok(k) && k@ == key@,
    {
        let _ = self.db.del(key);
        proof {
            assert(final(self)@ =~= old(self)@.remove(key@));
        }
        Ok(key.to_owned())
    }

    /// Every stored record, one per key, in store order.
    pub fn all(&self) -> (r: Vec<Option<WasmModule>>)
        requires
            self.wf(),
        ensures
            r@.len() == self@.dom().len(),
            forall|i: int| 0 <= i < r@.len() ==> (#[trigger] r@[i]) is Some,
    {
        let raw = self.db.get_all();
        let mut r: Vec<Option<WasmModule>> = Vec::new();
        let mut i: usize = 0;
        while i < raw.len()
            invariant
                self.wf(),
                i <= raw@.len(),
                r@.len() == i,
                raw@.len() == self.db.pairs().len(),
                forall|j: int|
                    0 <= j < raw@.len() ==> self.db@.contains_key(self.db.pairs()[j].0) && (
                    #[trigger] raw@[j])@ == self.db@[self.db.pairs()[j].0],
                forall|j: int| 0 <= j < i ==> (#[trigger] r@[j]) is Some,
            decreases raw@.len() - i,
        {
            match decode(&raw[i]) {
                Some(m) => {
                    r.push(Some(m));
                },
                None => {
                    proof {
                        assert(decoded(self.db@[self.db.pairs()[i as int].0]) is Some);
                        assert(false);
                    }
                },
            }
            i = i + 1;
        }
        proof {
            assert(r@.len() == self@.dom().len()) by {
                assert(self@.dom() =~= self.db@.dom());
            }
        }
        r
    }

    /// The number of stored records.
    pub fn count(&self) -> (r: usize)
        requires
            self.wf(),
        ensures
            r == self@.dom().len(),
    {
        let n = self.db.count();
        proof {
            assert(self@.dom() =~= self.db@.dom());
        }
        n
    }
}

} // verus!
