//! Reader and writer transactions: isolated views over an environment.

use crate::engine;
use crate::engine::{ro_view, rw_view};
use crate::error::{StoreError, MDB_NOTFOUND};
use crate::store::Store;
use crate::value::{spec_decode, spec_encode, decode, encode, Value, ValueView, DataError};
use vstd::prelude::*;

verus! {

/// A read-only, snapshot-isolated view over the environment.
///
/// The snapshot is fixed when the transaction begins: every lookup and
/// every iteration made through one `Reader` is answered from the same
/// map, whatever writers commit in the meantime.
pub struct Reader<'e> {
    pub(crate) txn: lmdb::RoTransaction<'e>,
}

/// The read-write view over the environment. At most one is live at a
/// time; its uncommitted writes are visible to its own lookups and to
/// nobody else until commit.
pub struct Writer<'e> {
    pub(crate) txn: lmdb::RwTransaction<'e>,
}

/// What `get` says about one looked-up key of a store map.
pub open spec fn get_result_matches(
    m: Map<Seq<u8>, Seq<u8>>,
    key: Seq<u8>,
    r: Result<Option<Value>, StoreError>,
) -> bool {
    match r {
        Ok(None) => !m.contains_key(key),
        Ok(Some(v)) => m.contains_key(key) && spec_decode(m[key]) == Ok::<ValueView, DataError>(
            v@,
        ),
        Err(StoreError::Data(e)) => m.contains_key(key) && spec_decode(m[key]) == Err::<
            ValueView,
            DataError,
        >(e),
        Err(StoreError::Engine(_)) => true,
        Err(_) => false,
    }
}

/// One entry of a write batch: store this value under the key, or remove
/// whatever the key holds.
pub type BatchOp = (Vec<u8>, Option<Value>);

/// A batch folded over a store map, first entry first: a value is stored
/// as its encoding, `None` removes the key, and removing an absent key
/// leaves the map as it was.
pub open spec fn apply_ops(m: Map<Seq<u8>, Seq<u8>>, ops: Seq<BatchOp>) -> Map<Seq<u8>, Seq<u8>>
    decreases ops.len(),
{
    if ops.len() == 0 {
        m
    } else {
        let rest = apply_ops(m, ops.drop_last());
        match ops.last().1 {
            Some(v) => rest.insert(ops.last().0@, spec_encode(v@)),
            None => rest.remove(ops.last().0@),
        }
    }
}

/// Look up `key` in the raw transaction view `m` and decode what is there.
fn decode_found(m: Ghost<Map<Seq<u8>, Seq<u8>>>, key: Ghost<Seq<u8>>, found: Option<Vec<u8>>) -> (r:
    Result<Option<Value>, StoreError>)
    requires
        match found {
            Some(v) => m@.contains_key(key@) && v@ == m@[key@],
            None => !m@.contains_key(key@),
        },
    ensures
        get_result_matches(m@, key@, r),
{
    match found {
        None => Ok(None),
        Some(bytes) => match decode(bytes.as_slice()) {
            Ok(v) => Ok(Some(v)),
            Err(e) => Err(StoreError::Data(e)),
        },
    }
}

/// Law: one snapshot, one key, one answer. Every lookup made through one
/// reader is answered from the same fixed map, so two lookups of the same
/// key can never disagree, however many writers commit in between: a found
/// value is found both times with the same contents, and an absent key
/// stays absent.
pub proof fn lemma_reader_lookups_agree(
    m: Map<Seq<u8>, Seq<u8>>,
    key: Seq<u8>,
    r1: Result<Option<Value>, StoreError>,
    r2: Result<Option<Value>, StoreError>,
)
    requires
        get_result_matches(m, key, r1),
        get_result_matches(m, key, r2),
    ensures
        r1 matches Ok(Some(v1)) ==> (r2 matches Ok(Some(v2)) ==> v1@ == v2@),
        r1 matches Ok(None) ==> !(r2 matches Ok(Some(_))),
        r1 matches Ok(Some(_)) ==> !(r2 matches Ok(None)),
{
}

/// A reader's snapshot is the engine view of its transaction.
pub(crate) proof fn lemma_snapshot_is_ro_view(r: &Reader<'_>)
    ensures
        r.snapshot() == ro_view(&r.txn),
{
}

impl<'e> Reader<'e> {
    /// The fixed map this reader sees: database slot to key/value map.
    pub closed spec fn snapshot(&self) -> Map<int, Map<Seq<u8>, Seq<u8>>> {
        ro_view(&self.txn)
    }

    /// The fixed map this reader sees for one store.
    pub open spec fn store_snapshot(&self, store: Store) -> Map<Seq<u8>, Seq<u8>> {
        self.snapshot()[store.id()]
    }

    /// Look up a key. An absent key is `Ok(None)`, never an error; stored
    /// bytes that do not decode are a data error.
    pub fn get(&self, store: &Store, key: &[u8]) -> (r: Result<Option<Value>, StoreError>)
        ensures
            get_result_matches(self.store_snapshot(*store), key@, r),
    {
        match engine::ro_get(&self.txn, store, key) {
            Ok(found) => decode_found(
                Ghost(self.store_snapshot(*store)),
                Ghost(key@),
                found,
            ),
            Err(e) => Err(StoreError::Engine(e.code)),
        }
    }

    /// End the transaction, releasing its snapshot. Always succeeds.
    pub fn abort(self) {
        engine::ro_abort(self.txn);
    }
}

impl<'e> Writer<'e> {
    /// The map this writer sees: committed state plus its own writes.
    pub closed spec fn current(&self) -> Map<int, Map<Seq<u8>, Seq<u8>>> {
        rw_view(&self.txn)
    }

    /// The map this writer sees for one store.
    pub open spec fn store_current(&self, store: Store) -> Map<Seq<u8>, Seq<u8>> {
        self.current()[store.id()]
    }

    /// Look up a key through this writer: its own uncommitted writes are
    /// visible. An absent key is `Ok(None)`, never an error.
    pub fn get(&self, store: &Store, key: &[u8]) -> (r: Result<Option<Value>, StoreError>)
        ensures
            get_result_matches(self.store_current(*store), key@, r),
    {
        match engine::rw_get(&self.txn, store, key) {
            Ok(found) => decode_found(
                Ghost(self.store_current(*store)),
                Ghost(key@),
                found,
            ),
            Err(e) => Err(StoreError::Engine(e.code)),
        }
    }

    /// Store the encoding of `value` under `key`, replacing what was there.
    /// Nothing outside this store's map changes, and nothing is visible
    /// elsewhere until commit.
    pub fn put(&mut self, store: &Store, key: &[u8], value: &Value) -> (r: Result<(), StoreError>)
        ensures
            r is Ok ==> final(self).current() == old(self).current().insert(
                store.id(),
                old(self).store_current(*store).insert(key@, spec_encode(value@)),
            ),
            r is Err ==> final(self).current() == old(self).current() && r matches Err(
                StoreError::Engine(_),
            ),
    {
        let bytes = encode(value);
        match engine::rw_put(&mut self.txn, store, key, bytes.as_slice()) {
            Ok(()) => Ok(()),
            Err(e) => Err(StoreError::Engine(e.code)),
        }
    }

    /// Remove `key` from the store. Removing an absent key fails with
    /// `KeyAbsent` — callers that want idempotent deletes catch exactly
    /// that — and a failed delete changes nothing.
    pub fn delete(&mut self, store: &Store, key: &[u8]) -> (r: Result<(), StoreError>)
        ensures
            r is Ok ==> old(self).store_current(*store).contains_key(key@) && final(self).current()
                == old(self).current().insert(
                store.id(),
                old(self).store_current(*store).remove(key@),
            ),
            !old(self).store_current(*store).contains_key(key@) ==> !(r is Ok),
            r matches Err(StoreError::KeyAbsent) ==> !old(self).store_current(*store).contains_key(
                key@,
            ),
            r is Err ==> final(self).current() == old(self).current() && (r matches Err(
                StoreError::KeyAbsent,
            ) || r matches Err(StoreError::Engine(_))),
    {
        match engine::rw_del(&mut self.txn, store, key) {
            Ok(()) => Ok(()),
            Err(e) => if e.code == MDB_NOTFOUND {
                Err(StoreError::KeyAbsent)
            } else {
                Err(StoreError::Engine(e.code))
            },
        }
    }

    /// Apply a whole batch of writes and removals to one store, in order.
    /// Removing keys that are not present is fine here — batches are
    /// replayed logs, so absence is expected — and the store ends up
    /// holding exactly the batch folded over its map, with every other
    /// store untouched. Nothing is visible to others until this writer
    /// commits, and a writer that fails mid-way is meant to be aborted,
    /// which discards the batch entirely.
    pub fn apply_batch(&mut self, store: &Store, ops: &Vec<BatchOp>) -> (r: Result<
        (),
        StoreError,
    >)
        ensures
            r is Ok ==> final(self).store_current(*store) == apply_ops(
                old(self).store_current(*store),
                ops@,
            ),
            r is Ok ==> forall|d: int|
                d != store.id() ==> final(self).current()[d] == old(self).current()[d],
            r is Err ==> r matches Err(StoreError::Engine(_)),
            r is Err ==> forall|d: int|
                d != store.id() ==> final(self).current()[d] == old(self).current()[d],
            r is Err ==> exists|k: int|
                0 <= k <= ops@.len() && final(self).store_current(*store) == apply_ops(
                    old(self).store_current(*store),
                    #[trigger] ops@.take(k),
                ),
    {
        let ghost m0 = self.store_current(*store);
        let ghost all = self.current();
        let n = ops.len();
        let mut i: usize = 0;
        proof {
            assert(ops@.take(0).len() == 0);
        }
        while i < n
            invariant
                n == ops@.len(),
                0 <= i <= n,
                m0 == old(self).store_current(*store),
                all == old(self).current(),
                self.store_current(*store) == apply_ops(m0, ops@.take(i as int)),
                forall|d: int| d != store.id() ==> self.current()[d] == all[d],
            decreases n - i,
        {
            let ghost before = self.current();
            proof {
                assert(ops@.take(i + 1).drop_last() =~= ops@.take(i as int));
                assert(ops@.take(i + 1).last() == ops@[i as int]);
            }
            match &ops[i].1 {
                Some(v) => {
                    match self.put(store, ops[i].0.as_slice(), v) {
                        Ok(()) => {},
                        Err(e) => {
                            proof {
                                assert(self.store_current(*store) == apply_ops(
                                    m0,
                                    ops@.take(i as int),
                                ));
                            }
                            return Err(e);
                        },
                    }
                },
                None => {
                    match self.delete(store, ops[i].0.as_slice()) {
                        Ok(()) => {},
                        Err(StoreError::KeyAbsent) => {
                            proof {
                                let ghost d = store.id();
                                assert(before[d].remove(ops@[i as int].0@) =~= before[d]);
                            }
                        },
                        Err(e) => {
                            proof {
                                assert(self.store_current(*store) == apply_ops(
                                    m0,
                                    ops@.take(i as int),
                                ));
                            }
                            return Err(e);
                        },
                    }
                },
            }
            i = i + 1;
        }
        proof {
            assert(ops@.take(n as int) =~= ops@);
        }
        Ok(())
    }

    /// Commit: on success every write of this transaction becomes visible,
    /// atomically, to transactions begun afterwards; on failure nothing is
    /// applied. Consumes the transaction either way.
    pub fn commit(self) -> (r: Result<(), StoreError>)
        ensures
            r is Err ==> r matches Err(StoreError::Engine(_)),
    {
        match engine::rw_commit(self.txn) {
            Ok(()) => Ok(()),
            Err(e) => Err(StoreError::Engine(e.code)),
        }
    }

    /// Abort: every write of this transaction is discarded, and no later
    /// transaction ever sees any of them. Always succeeds.
    pub fn abort(self) {
        engine::rw_abort(self.txn);
    }
}

} // verus!
