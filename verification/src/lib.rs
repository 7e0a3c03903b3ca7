//! A persistent WebAssembly function service: clients store compiled Wasm
//! modules with typed function metadata, retrieve and mutate them by
//! identifier, and invoke an exported function with typed arguments.
//!
//! The crate verifies the execution pipeline: the record store and its codec,
//! the bounded LRU caches, the typed-argument marshalling between the JSON
//! wire format and the Wasm value domain, and the writer/reader/runner
//! workers with their cache-invalidation protocol.  The Wasm engine itself is
//! called through a small set of trusted wrappers.

pub mod models;
pub mod wire;
pub mod ids;
pub mod cache;
pub mod codec;
pub mod errors;
pub mod config;
pub mod database;
pub mod engine;
pub mod workers;
pub mod wess;
pub mod laws;
pub mod fixtures;
pub mod metrics;
