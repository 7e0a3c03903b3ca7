//! The three back-end workers: the writer serializes all mutations, the
//! reader serves point reads and size queries through the module cache, and
//! the runner serves invocations through the compile cache.

use vstd::prelude::*;

pub mod reader;
pub mod runner;
pub mod writer;

verus! {

} // verus!
