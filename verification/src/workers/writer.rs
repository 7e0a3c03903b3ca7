//! The writer worker: consumes write jobs in order, applies each to the
//! store, and emits the identifier for cache invalidation.
//!
//! All mutations go through this single worker, so writes are linearized;
//! [`apply_write`] is the mathematical meaning of one job.

use vstd::prelude::*;

use crate::database::RocksDB;
use crate::models::{ModuleView, WasmModule};

verus! {

/// A write operation kind.
#[derive(Clone, Copy, PartialEq, Eq, Structural, Debug)]
pub enum WriteOps {
    Create,
    Update,
    Delete,
}

/// One queued mutation: the operation, its payload (present for create and
/// update, absent for delete), and the target identifier.
#[derive(Debug)]
pub struct WriteJob {
    pub write_op: WriteOps,
    pub write_module: Option<WasmModule>,
    pub id: String,
}

/// The mathematical value of a [`WriteJob`].
pub ghost struct WriteJobView {
    pub write_op: WriteOps,
    pub write_module: Option<ModuleView>,
    pub id: Seq<char>,
}

impl View for WriteJob {
    type V = WriteJobView;

    open spec fn view(&self) -> WriteJobView {
        WriteJobView {
            write_op: self.write_op,
            write_module: match self.write_module {
                Some(m) => Some(m@),
                None => None,
            },
            id: self.id@,
        }
    }
}

impl WriteJobView {
    /// A job carries a payload exactly when its operation stores one.
    pub open spec fn wf(self) -> bool {
        self.write_op != WriteOps::Delete ==> self.write_module is Some
    }
}

impl WriteJob {
    /// Builds a write job.
    pub fn new(write_module: Option<WasmModule>, id: String, write_op: WriteOps) -> (r: Self)
        ensures
            r@.write_op == write_op,
            r@.id == id@,
            r@.write_module == (match write_module {
                Some(m) => Some::<ModuleView>(m@),
                None => None::<ModuleView>,
            }),
    {
        Self { write_module, write_op, id }
    }
}

/// The store after one write job: create and update store the payload under
/// the identifier wholesale, delete removes it.
pub open spec fn apply_write(
    m: Map<Seq<char>, ModuleView>,
    j: WriteJobView,
) -> Map<Seq<char>, ModuleView> {
    match j.write_op {
        WriteOps::Create => m.insert(j.id, j.write_module->0),
        WriteOps::Update => m.insert(j.id, j.write_module->0),
        WriteOps::Delete => m.remove(j.id),
    }
}

/// Applies one write job to the store and hands back the identifier to
/// publish on the invalidation channel.
pub fn write_step(db: &mut RocksDB, job: WriteJob) -> (inv: String)
    requires
        old(db).wf(),
        job@.wf(),
    ensures
        final(db).wf(),
        final(db)@ == apply_write(old(db)@, job@),
        inv@ == job@.id,
{
    let WriteJob { write_op, write_module, id } = job;
    match write_op {
        WriteOps::Create | WriteOps::Update => {
            match write_module {
                Some(m) => {
                    let _ = db.add(id.as_str(), m);
                },
                None => {
                    proof {
                        assert(false);
                    }
                },
            }
        },
        WriteOps::Delete => {
            let _ = db.del(id.as_str());
        },
    }
    id
}

} // verus!
