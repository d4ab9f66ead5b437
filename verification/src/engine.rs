//! The trusted boundary around the memory-mapped storage engine.
//!
//! Everything the library knows about the engine is stated here, as
//! contracts on thin wrappers around single engine calls. A transaction's
//! contents are named by an uninterpreted view — a map from database slot
//! to the key/value map that the transaction sees — and each wrapper states
//! what the engine's documentation promises about that view, no more.

use crate::error::{EngineError, MDB_NOTFOUND};
use crate::order::{entries_match, keys_from, nul_free};
use crate::store::Store;
use vstd::prelude::*;
use vstd::string::StringSliceAdditionalSpecFns;

verus! {

#[verifier::external_type_specification]
#[verifier::external_body]
pub struct ExEnvironment(lmdb::Environment);

#[verifier::external_type_specification]
#[verifier::external_body]
pub struct ExEnvironmentBuilder(lmdb::EnvironmentBuilder);

#[verifier::external_type_specification]
#[verifier::external_body]
pub struct ExDatabase(lmdb::Database);

#[verifier::external_type_specification]
#[verifier::external_body]
pub struct ExRoTransaction<'a>(lmdb::RoTransaction<'a>);

#[verifier::external_type_specification]
#[verifier::external_body]
pub struct ExRwTransaction<'a>(lmdb::RwTransaction<'a>);

#[verifier::external_type_specification]
#[verifier::external_body]
pub struct ExLmdbError(lmdb::Error);

#[verifier::external_type_specification]
#[verifier::external_body]
pub struct ExRoCursor<'a>(lmdb::RoCursor<'a>);

#[verifier::external_type_specification]
#[verifier::external_body]
pub struct ExIter<'a>(lmdb::Iter<'a>);

/// What a read transaction sees: for each database slot, a map from key to
/// stored bytes, fixed for the transaction's whole lifetime.
pub uninterp spec fn ro_view(txn: &lmdb::RoTransaction) -> Map<int, Map<Seq<u8>, Seq<u8>>>;

/// What the write transaction sees: its own uncommitted writes included.
pub uninterp spec fn rw_view(txn: &lmdb::RwTransaction) -> Map<int, Map<Seq<u8>, Seq<u8>>>;

/// The entries a forward iterator has left to yield, in ascending key order.
pub uninterp spec fn iter_items(it: &lmdb::Iter) -> Seq<(Seq<u8>, Seq<u8>)>;

/// Relies on `lmdb::Environment::new`: yields a fresh builder with default
/// options.
#[verifier::external_body]
pub(crate) fn env_builder() -> lmdb::EnvironmentBuilder {
    lmdb::Environment::new()
}

/// Relies on `lmdb::EnvironmentBuilder::set_max_dbs`: fixes how many named
/// databases the opened environment will admit.
#[verifier::external_body]
pub(crate) fn builder_set_max_dbs(b: &mut lmdb::EnvironmentBuilder, n: u32) {
    b.set_max_dbs(n);
}

/// Relies on `lmdb::EnvironmentBuilder::open`: maps the files under `path`,
/// failing with the operating system's code when the directory is absent.
#[verifier::external_body]
pub(crate) fn builder_open(b: &lmdb::EnvironmentBuilder, path: &str) -> (r: Result<
    lmdb::Environment,
    EngineError,
>) {
    b.open(std::path::Path::new(path)).map_err(|e| EngineError { code: e.to_err_code() })
}

/// Relies on `lmdb::Environment::create_db`: opens the named database,
/// creating it if needed, and fails with `MDB_DBS_FULL` beyond the limit.
/// The returned handle carries the engine's slot number for the database.
/// A name holding a NUL byte is excluded: the engine binding builds a
/// C string from it and would panic, not error.
#[verifier::external_body]
pub(crate) fn env_create_db(env: &lmdb::Environment, name: Option<&str>) -> (r: Result<
    Store,
    EngineError,
>)
    requires
        name matches Some(s) ==> nul_free(s.spec_bytes()),
{
    match env.create_db(name, lmdb::DatabaseFlags::empty()) {
        Ok(db) => Ok(Store { db, slot: db.dbi() }),
        Err(e) => Err(EngineError { code: e.to_err_code() }),
    }
}

/// Relies on `lmdb::Environment::open_db`: opens an existing named database
/// through an internal read transaction, so it neither blocks on nor
/// conflicts with a live writer; fails with `MDB_NOTFOUND` when the name
/// was never created. A name holding a NUL byte is excluded, as for
/// creation: the engine binding would panic on it.
#[verifier::external_body]
pub(crate) fn env_open_db(env: &lmdb::Environment, name: Option<&str>) -> (r: Result<
    Store,
    EngineError,
>)
    requires
        name matches Some(s) ==> nul_free(s.spec_bytes()),
{
    match env.open_db(name) {
        Ok(db) => Ok(Store { db, slot: db.dbi() }),
        Err(e) => Err(EngineError { code: e.to_err_code() }),
    }
}

/// Relies on `lmdb::Environment::get_db_flags`: the persistent flag bits
/// a database was created with, read through an internal read
/// transaction. Every store this library creates carries zero; nonzero
/// bits mean a foreign program made the database with another key or
/// value discipline, which the opening calls refuse.
#[verifier::external_body]
pub(crate) fn db_flags_bits(env: &lmdb::Environment, store: &Store) -> (r: Result<
    u32,
    EngineError,
>) {
    match env.get_db_flags(store.db) {
        Ok(flags) => Ok(flags.bits()),
        Err(e) => Err(EngineError { code: e.to_err_code() }),
    }
}

/// Relies on `lmdb::Environment::begin_ro_txn`: starts a snapshot-isolated
/// read transaction, failing with `MDB_BAD_RSLOT` when this thread already
/// has a live one.
#[verifier::external_body]
pub(crate) fn begin_ro<'e>(env: &'e lmdb::Environment) -> (r: Result<
    lmdb::RoTransaction<'e>,
    EngineError,
>) {
    env.begin_ro_txn().map_err(|e| EngineError { code: e.to_err_code() })
}

/// Relies on `lmdb::Environment::begin_rw_txn`: starts the single write
/// transaction, blocking while another is live anywhere in the process.
#[verifier::external_body]
pub(crate) fn begin_rw<'e>(env: &'e lmdb::Environment) -> (r: Result<
    lmdb::RwTransaction<'e>,
    EngineError,
>) {
    env.begin_rw_txn().map_err(|e| EngineError { code: e.to_err_code() })
}

/// Relies on `lmdb::Transaction::get` on a read transaction: a present key
/// yields its stored bytes, an absent key yields `MDB_NOTFOUND`, which this
/// wrapper converts to `None`.
#[verifier::external_body]
pub(crate) fn ro_get(txn: &lmdb::RoTransaction, store: &Store, key: &[u8]) -> (r: Result<
    Option<Vec<u8>>,
    EngineError,
>)
    ensures
        r matches Ok(Some(v)) ==> ro_view(txn)[store.id()].contains_key(key@) && v@ == ro_view(
            txn,
        )[store.id()][key@],
        r matches Ok(None) ==> !ro_view(txn)[store.id()].contains_key(key@),
{
    match lmdb::Transaction::get(txn, store.db, &key) {
        Ok(bytes) => Ok(Some(bytes.to_vec())),
        Err(lmdb::Error::NotFound) => Ok(None),
        Err(e) => Err(EngineError { code: e.to_err_code() }),
    }
}

/// Relies on `lmdb::Transaction::get` on the write transaction: same as the
/// read form, over the transaction's own view, uncommitted writes included.
#[verifier::external_body]
pub(crate) fn rw_get(txn: &lmdb::RwTransaction, store: &Store, key: &[u8]) -> (r: Result<
    Option<Vec<u8>>,
    EngineError,
>)
    ensures
        r matches Ok(Some(v)) ==> rw_view(txn)[store.id()].contains_key(key@) && v@ == rw_view(
            txn,
        )[store.id()][key@],
        r matches Ok(None) ==> !rw_view(txn)[store.id()].contains_key(key@),
{
    match lmdb::Transaction::get(txn, store.db, &key) {
        Ok(bytes) => Ok(Some(bytes.to_vec())),
        Err(lmdb::Error::NotFound) => Ok(None),
        Err(e) => Err(EngineError { code: e.to_err_code() }),
    }
}

/// Relies on `lmdb::RwTransaction::put`: on success the key now maps to
/// exactly these bytes in this store and nothing else changed; on failure
/// the transaction's view is unchanged.
#[verifier::external_body]
pub(crate) fn rw_put(
    txn: &mut lmdb::RwTransaction,
    store: &Store,
    key: &[u8],
    data: &[u8],
) -> (r: Result<(), EngineError>)
    ensures
        r is Ok ==> rw_view(final(txn)) == rw_view(old(txn)).insert(
            store.id(),
            rw_view(old(txn))[store.id()].insert(key@, data@),
        ),
        r is Err ==> rw_view(final(txn)) == rw_view(old(txn)),
{
    txn.put(store.db, &key, &data, lmdb::WriteFlags::empty()).map_err(
        |e| EngineError { code: e.to_err_code() },
    )
}

/// Relies on `lmdb::RwTransaction::del`: deleting a present key removes it
/// and nothing else; deleting an absent key fails with `MDB_NOTFOUND` and
/// changes nothing; on any failure the view is unchanged.
#[verifier::external_body]
pub(crate) fn rw_del(txn: &mut lmdb::RwTransaction, store: &Store, key: &[u8]) -> (r: Result<
    (),
    EngineError,
>)
    ensures
        r is Ok ==> rw_view(old(txn))[store.id()].contains_key(key@) && rw_view(final(txn))
            == rw_view(old(txn)).insert(
            store.id(),
            rw_view(old(txn))[store.id()].remove(key@),
        ),
        r is Err ==> rw_view(final(txn)) == rw_view(old(txn)),
        r matches Err(e) && e.code == MDB_NOTFOUND ==> !rw_view(old(txn))[store.id()].contains_key(
            key@,
        ),
        !rw_view(old(txn))[store.id()].contains_key(key@) ==> !(r is Ok),
{
    txn.del(store.db, &key, None).map_err(|e| EngineError { code: e.to_err_code() })
}

/// Relies on `lmdb::Transaction::commit` on the write transaction: on
/// success every write of the transaction becomes durable and visible to
/// transactions begun later, atomically; on failure nothing is applied.
#[verifier::external_body]
pub(crate) fn rw_commit(txn: lmdb::RwTransaction) -> (r: Result<(), EngineError>) {
    lmdb::Transaction::commit(txn).map_err(|e| EngineError { code: e.to_err_code() })
}

/// Relies on `lmdb::Transaction::abort` on the write transaction: every
/// write of the transaction is discarded.
#[verifier::external_body]
pub(crate) fn rw_abort(txn: lmdb::RwTransaction) {
    lmdb::Transaction::abort(txn);
}

/// Relies on `lmdb::Transaction::abort` on a read transaction: releases the
/// snapshot.
#[verifier::external_body]
pub(crate) fn ro_abort(txn: lmdb::RoTransaction) {
    lmdb::Transaction::abort(txn);
}

/// Relies on `lmdb::Transaction::open_ro_cursor` and the engine's key
/// order: a forward walk from the start yields every entry the transaction
/// sees in this store, in ascending byte order of keys, each key once —
/// stores are always created without duplicate-key support, and foreign
/// databases made with any other discipline are refused at open. The cursor is
/// opened and the walk started in one wrapper because the promise relates
/// the walk's items to the transaction's view, and only the pair states
/// that; the cursor travels along only to keep the walk alive.
#[verifier::external_body]
pub(crate) fn ro_cursor_iter_start<'t>(txn: &'t lmdb::RoTransaction<'_>, store: &Store) -> (r:
    Result<(lmdb::RoCursor<'t>, lmdb::Iter<'t>), EngineError>)
    ensures
        r matches Ok(ci) ==> entries_match(iter_items(&ci.1), ro_view(txn)[store.id()]),
{
    let mut cursor = lmdb::Transaction::open_ro_cursor(txn, store.db).map_err(
        |e| EngineError { code: e.to_err_code() },
    )?;
    let iter = lmdb::Cursor::iter_start(&mut cursor);
    Ok((cursor, iter))
}

/// Relies on `lmdb::Transaction::open_ro_cursor` and `lmdb::Cursor::iter_from`:
/// positions at the first key at or after `key` and walks forward, so the
/// iterator's items are exactly the transaction's entries from that key on;
/// a key past every entry leaves nothing to yield, and does not fail. One
/// wrapper pairs the two calls for the same reason as the walk from the
/// start.
#[verifier::external_body]
pub(crate) fn ro_cursor_iter_from<'t>(
    txn: &'t lmdb::RoTransaction<'_>,
    store: &Store,
    key: &[u8],
) -> (r: Result<(lmdb::RoCursor<'t>, lmdb::Iter<'t>), EngineError>)
    ensures
        r matches Ok(ci) ==> entries_match(
            iter_items(&ci.1),
            keys_from(ro_view(txn)[store.id()], key@),
        ),
{
    let mut cursor = lmdb::Transaction::open_ro_cursor(txn, store.db).map_err(
        |e| EngineError { code: e.to_err_code() },
    )?;
    let iter = lmdb::Cursor::iter_from(&mut cursor, key);
    Ok((cursor, iter))
}

/// Relies on `lmdb::Iter::next`: yields the front remaining entry and steps
/// past it; reports the end, and keeps reporting it, exactly when nothing
/// remains; on an engine error the remaining entries are unchanged.
#[verifier::external_body]
pub(crate) fn iter_next<'t>(it: &mut lmdb::Iter<'t>) -> (r: Option<
    Result<(Vec<u8>, Vec<u8>), EngineError>,
>)
    ensures
        r is None ==> iter_items(old(it)).len() == 0 && iter_items(final(it)) == iter_items(
            old(it),
        ),
        iter_items(old(it)).len() > 0 ==> !(r is None),
        r matches Some(Ok(kv)) ==> iter_items(old(it)).len() > 0 && kv.0@ == iter_items(
            old(it),
        )[0].0 && kv.1@ == iter_items(old(it))[0].1 && iter_items(final(it)) == iter_items(
            old(it),
        ).drop_first(),
        r matches Some(Err(_)) ==> iter_items(final(it)) == iter_items(old(it)),
{
    match Iterator::next(it) {
        None => None,
        Some(Ok((k, v))) => Some(Ok((k.to_vec(), v.to_vec()))),
        Some(Err(e)) => Some(Err(EngineError { code: e.to_err_code() })),
    }
}

} // verus!
