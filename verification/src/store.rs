//! Store handles: copyable identifiers for named sub-databases.

use vstd::prelude::*;

verus! {

/// A handle to one named sub-database of an environment.
///
/// A `Store` is copyable metadata and performs no I/O itself; every data
/// operation takes both a `Store` and a transaction, and the handle is
/// only meaningful with transactions of the environment that opened it,
/// while that environment is alive. The `slot` field mirrors the engine's
/// database slot number for the handle and is what the transaction models
/// are keyed by; handles are only ever built by this crate's open and
/// create calls, which fill it from the engine.
#[derive(Clone, Copy, Debug)]
pub struct Store {
    pub(crate) db: lmdb::Database,
    pub(crate) slot: u32,
}

impl Store {
    /// The model key of this store: its engine slot number.
    pub closed spec fn id(&self) -> int {
        self.slot as int
    }
}

/// The model key is nothing but the slot number.
pub(crate) proof fn lemma_id_is_slot(s: Store)
    ensures
        s.id() == s.slot as int,
{
}

} // verus!
