//! The environment: one memory-mapped database directory, the point where
//! stores are opened and transactions begin.

use crate::engine;
use crate::error::{StoreError, EINVAL, ENOENT, MDB_BAD_DBI, MDB_BAD_RSLOT, MDB_DBS_FULL,
    MDB_INCOMPATIBLE};
use crate::order::{bytes_nul_free, nul_free};
use crate::store::Store;
use crate::txn::{Reader, Writer};
use vstd::prelude::*;
use vstd::string::StringSliceAdditionalSpecFns;

verus! {

/// The named-store limit an environment gets when its caller asks for
/// nothing else.
pub const DEFAULT_MAX_STORES: u32 = 5;

/// The view of an optional store name held as owned data.
pub open spec fn name_view(n: Option<String>) -> Option<Seq<char>> {
    match n {
        Some(s) => Some(s@),
        None => None,
    }
}

/// The view of an optional store name passed by reference.
pub open spec fn opt_name_view(n: Option<&str>) -> Option<Seq<char>> {
    match n {
        Some(s) => Some(s@),
        None => None,
    }
}

/// Whether a store name the caller passes is one the engine can take: its
/// bytes hold no NUL. The anonymous default store always qualifies.
pub open spec fn opt_name_ok(n: Option<&str>) -> bool {
    match n {
        Some(s) => nul_free(vstd::utf8::encode_utf8(s@)),
        None => true,
    }
}

/// The same soundness condition on a recorded, owned name.
spec fn rec_name_ok(n: Option<String>) -> bool {
    match n {
        Some(s) => nul_free(vstd::utf8::encode_utf8(s@)),
        None => true,
    }
}

/// Which stores a record list has open: name to database slot.
spec fn opened_of(s: Seq<(Option<String>, Store)>) -> Map<Option<Seq<char>>, int>
    decreases s.len(),
{
    if s.len() == 0 {
        Map::empty()
    } else {
        opened_of(s.drop_last()).insert(name_view(s.last().0), s.last().1.id())
    }
}

/// How many of the records carry a name: the anonymous default store does
/// not count against the named-store limit.
spec fn named_count_of(s: Seq<(Option<String>, Store)>) -> int
    decreases s.len(),
{
    if s.len() == 0 {
        0
    } else {
        named_count_of(s.drop_last()) + if s.last().0 is Some {
            1int
        } else {
            0int
        }
    }
}

/// A name is open exactly when some record carries it.
proof fn lemma_opened_contains(s: Seq<(Option<String>, Store)>, nv: Option<Seq<char>>)
    ensures
        opened_of(s).contains_key(nv) <==> exists|i: int|
            0 <= i < s.len() && name_view(#[trigger] s[i].0) == nv,
    decreases s.len(),
{
    if s.len() > 0 {
        lemma_opened_contains(s.drop_last(), nv);
        assert(forall|i: int|
            0 <= i < s.len() - 1 ==> #[trigger] s.drop_last()[i] == s[i]);
        if opened_of(s).contains_key(nv) {
            if name_view(s.last().0) == nv {
                assert(name_view(s[s.len() - 1].0) == nv);
            } else {
                let i = choose|i: int|
                    0 <= i < s.drop_last().len() && name_view(#[trigger] s.drop_last()[i].0) == nv;
                assert(name_view(s[i].0) == nv);
            }
        }
        if exists|i: int| 0 <= i < s.len() && name_view(#[trigger] s[i].0) == nv {
            let i = choose|i: int| 0 <= i < s.len() && name_view(#[trigger] s[i].0) == nv;
            if i < s.len() - 1 {
                assert(name_view(s.drop_last()[i].0) == nv);
            }
        }
    }
}

/// With no name recorded twice, each record's slot is what `opened_of`
/// holds for its name.
proof fn lemma_opened_at(s: Seq<(Option<String>, Store)>, i: int)
    requires
        0 <= i < s.len(),
        forall|p: int, q: int|
            0 <= p < q < s.len() ==> name_view(#[trigger] s[p].0) != name_view(#[trigger] s[q].0),
    ensures
        opened_of(s)[name_view(s[i].0)] == s[i].1.id(),
    decreases s.len(),
{
    if i == s.len() - 1 {
        assert(s.last() == s[i]);
    } else {
        assert(forall|p: int|
            0 <= p < s.len() - 1 ==> #[trigger] s.drop_last()[p] == s[p]);
        lemma_opened_at(s.drop_last(), i);
        assert(name_view(s.last().0) != name_view(s[i].0));
    }
}

/// The handle to one database directory.
///
/// All named stores opened through this handle are recorded, so that a
/// second open of a name hands back the same store, and distinct names are
/// known to sit on distinct database slots.
pub struct Env {
    env: lmdb::Environment,
    path: String,
    max_dbs: u32,
    named: u32,
    stores: Vec<(Option<String>, Store)>,
}

impl Env {
    /// The directory path this environment was opened for.
    pub closed spec fn spec_path(&self) -> Seq<char> {
        self.path@
    }

    /// The named-store limit fixed when the environment was opened.
    pub closed spec fn spec_max_stores(&self) -> u32 {
        self.max_dbs
    }

    /// The stores opened so far: name to database slot.
    pub closed spec fn opened(&self) -> Map<Option<Seq<char>>, int> {
        opened_of(self.stores@)
    }

    /// How many named stores are open.
    pub closed spec fn named_open(&self) -> int {
        named_count_of(self.stores@)
    }

    /// Well-formedness: no name and no slot is recorded twice, and the
    /// named records stay within the limit.
    pub closed spec fn wf(&self) -> bool {
        &&& (forall|p: int, q: int|
            0 <= p < q < self.stores@.len() ==> name_view(#[trigger] self.stores@[p].0)
                != name_view(#[trigger] self.stores@[q].0))
        &&& (forall|p: int, q: int|
            0 <= p < q < self.stores@.len() ==> (#[trigger] self.stores@[p].1).id() != (
            #[trigger] self.stores@[q].1).id())
        &&& (forall|p: int|
            0 <= p < self.stores@.len() ==> rec_name_ok(#[trigger] self.stores@[p].0))
        &&& self.named as int == named_count_of(self.stores@)
        &&& named_count_of(self.stores@) <= self.max_dbs as int
    }

    /// Distinct names never share a database slot: what one store holds,
    /// another store's keyspace cannot see.
    pub proof fn lemma_distinct_stores(&self, n1: Option<Seq<char>>, n2: Option<Seq<char>>)
        requires
            self.wf(),
            self.opened().contains_key(n1),
            self.opened().contains_key(n2),
            n1 != n2,
        ensures
            self.opened()[n1] != self.opened()[n2],
    {
        lemma_opened_contains(self.stores@, n1);
        lemma_opened_contains(self.stores@, n2);
        let i = choose|i: int| 0 <= i < self.stores@.len() && name_view(#[trigger] self.stores@[i].0) == n1;
        let j = choose|j: int| 0 <= j < self.stores@.len() && name_view(#[trigger] self.stores@[j].0) == n2;
        lemma_opened_at(self.stores@, i);
        lemma_opened_at(self.stores@, j);
    }

    /// Open the environment over an existing directory, fixing the named-
    /// store limit for its whole lifetime. The directory is never created
    /// here: a missing one is `DirectoryDoesNotExist`.
    ///
    /// The engine forbids two live mappings of one directory in a process:
    /// open each directory once and share the handle — the registry in
    /// [`crate::Manager`] exists for exactly that.
    pub fn open_or_create(path: &str, max_stores: u32) -> (r: Result<Env, StoreError>)
        ensures
            r matches Ok(e) ==> e.wf() && e.spec_path() == path@ && e.spec_max_stores()
                == max_stores && e.opened() == Map::<Option<Seq<char>>, int>::empty(),
            r matches Err(err) ==> (err matches StoreError::DirectoryDoesNotExist
                || err matches StoreError::Engine(_)),
    {
        let mut b = engine::env_builder();
        engine::builder_set_max_dbs(&mut b, max_stores);
        match engine::builder_open(&b, path) {
            Ok(env) => {
                let e = Env {
                    env,
                    path: path.to_owned(),
                    max_dbs: max_stores,
                    named: 0,
                    stores: Vec::new(),
                };
                proof {
                    assert(e.stores@.len() == 0);
                    assert(e.opened() =~= Map::<Option<Seq<char>>, int>::empty());
                }
                Ok(e)
            },
            Err(err) => {
                if err.code == ENOENT {
                    Err(StoreError::DirectoryDoesNotExist)
                } else {
                    Err(StoreError::Engine(err.code))
                }
            },
        }
    }

    /// Whether the record at `i` carries exactly this name.
    fn name_matches(&self, i: usize, name: Option<&str>) -> (r: bool)
        requires
            i < self.stores@.len(),
        ensures
            r == (name_view(self.stores@[i as int].0) == opt_name_view(name)),
    {
        let rec = &self.stores[i].0;
        match (rec, name) {
            (None, None) => true,
            (Some(a), Some(b)) => {
                let owned: String = b.to_owned();
                *a == owned
            },
            _ => {
                proof {
                    assert(name_view(self.stores@[i as int].0) != opt_name_view(name));
                }
                false
            },
        }
    }

    /// Open the store of this name, creating it if it does not exist;
    /// `None` names the environment's anonymous default store.
    ///
    /// A name already opened through this handle hands back the very same
    /// store and cannot fail. A fresh name is admitted only while the
    /// named-store limit is not yet reached: at the limit, the answer is
    /// exactly `TooManyStores`.
    ///
    /// Taking the environment exclusively keeps store creation apart from
    /// live transactions on this handle, which the engine requires.
    pub fn create_or_open(&mut self, name: Option<&str>) -> (r: Result<Store, StoreError>)
        requires
            old(self).wf(),
        ensures
            final(self).wf(),
            final(self).spec_path() == old(self).spec_path(),
            final(self).spec_max_stores() == old(self).spec_max_stores(),
            r matches Ok(s) ==> final(self).opened() == old(self).opened().insert(
                opt_name_view(name),
                s.id(),
            ) && final(self).opened().contains_key(opt_name_view(name)) && s.id() == final(self).opened()[opt_name_view(name)],
            r matches Ok(s) ==> (old(self).opened().contains_key(opt_name_view(name)) ==> s.id()
                == old(self).opened()[opt_name_view(name)] && final(self).opened() == old(
                self,
            ).opened()),
            old(self).opened().contains_key(opt_name_view(name)) ==> r is Ok,
            !opt_name_ok(name) ==> r == Err::<Store, StoreError>(StoreError::Engine(EINVAL)),
            name is Some && opt_name_ok(name) && !old(self).opened().contains_key(
                opt_name_view(name),
            ) && old(self).named_open() == old(self).spec_max_stores() as int ==> r matches Err(
                StoreError::TooManyStores,
            ),
            r is Err ==> final(self).opened() == old(self).opened() && (r matches Err(
                StoreError::TooManyStores,
            ) || r matches Err(StoreError::Engine(_))),
    {
        let nv = Ghost(opt_name_view(name));
        if let Some(s) = name {
            if !bytes_nul_free(s.as_bytes()) {
                proof {
                    assert(s.spec_bytes() == vstd::utf8::encode_utf8(s@));
                    lemma_opened_contains(self.stores@, nv@);
                    if self.opened().contains_key(nv@) {
                        let p = choose|p: int|
                            0 <= p < self.stores@.len() && name_view(
                                #[trigger] self.stores@[p].0,
                            ) == nv@;
                        assert(rec_name_ok(self.stores@[p].0));
                        assert(false);
                    }
                }
                return Err(StoreError::Engine(EINVAL));
            }
        }
        let n = self.stores.len();
        let mut i: usize = 0;
        while i < n
            invariant
                n == self.stores@.len(),
                0 <= i <= n,
                forall|p: int| 0 <= p < i ==> name_view(#[trigger] self.stores@[p].0) != nv@,
                old(self).wf(),
                *self == *old(self),
                nv@ == opt_name_view(name),
                opt_name_ok(name),
            decreases n - i,
        {
            if self.name_matches(i, name) {
                let found = self.stores[i].1;
                proof {
                    lemma_opened_contains(self.stores@, nv@);
                    lemma_opened_at(self.stores@, i as int);
                    assert(self.opened().insert(nv@, found.id()) =~= self.opened());
                }
                return Ok(found);
            }
            i = i + 1;
        }
        proof {
            lemma_opened_contains(self.stores@, nv@);
            assert(!self.opened().contains_key(nv@));
        }
        if name.is_some() && self.named == self.max_dbs {
            return Err(StoreError::TooManyStores);
        }
        match engine::env_create_db(&self.env, name) {
            Ok(store) => {
                let bits = match engine::db_flags_bits(&self.env, &store) {
                    Ok(b) => b,
                    Err(e) => {
                        return Err(StoreError::Engine(e.code));
                    },
                };
                if bits != 0 {
                    // A foreign program made this database with another
                    // key or value discipline; refuse it rather than
                    // iterate it under the wrong order model.
                    return Err(StoreError::Engine(MDB_INCOMPATIBLE));
                }
                let mut j: usize = 0;
                while j < n
                    invariant
                        n == self.stores@.len(),
                        0 <= j <= n,
                        forall|p: int|
                            0 <= p < j ==> (#[trigger] self.stores@[p].1).id() != store.id(),
                        *self == *old(self),
                        old(self).wf(),
                        !self.opened().contains_key(nv@),
                        nv@ == opt_name_view(name),
                        opt_name_ok(name),
                        !(name is Some && old(self).named_open() == old(
                            self,
                        ).spec_max_stores() as int),
                    decreases n - j,
                {
                    if self.stores[j].1.slot == store.slot {
                        return Err(StoreError::Engine(MDB_BAD_DBI));
                    }
                    proof {
                        crate::store::lemma_id_is_slot(self.stores@[j as int].1);
                        crate::store::lemma_id_is_slot(store);
                    }
                    j = j + 1;
                }
                let owned_name: Option<String> = match name {
                    Some(s) => Some(s.to_owned()),
                    None => None,
                };
                let ghost before = self.stores@;
                self.stores.push((owned_name, store));
                if name.is_some() {
                    self.named = self.named + 1;
                }
                proof {
                    assert(self.stores@.drop_last() =~= before);
                    assert(self.stores@.last() == (owned_name, store));
                    assert(name_view(owned_name) == nv@);
                    assert(rec_name_ok(owned_name));
                    assert(forall|p: int|
                        0 <= p < before.len() ==> #[trigger] self.stores@[p] == before[p]);
                    lemma_opened_contains(before, nv@);
                }
                Ok(store)
            },
            Err(e) => {
                if e.code == MDB_DBS_FULL {
                    Err(StoreError::TooManyStores)
                } else {
                    Err(StoreError::Engine(e.code))
                }
            },
        }
    }

    /// Open an existing named store without creating it, resolved through
    /// an internal read transaction so an in-flight writer neither blocks
    /// nor is blocked; a name never created is `StoreDoesNotExist`.
    pub fn open_existing(&mut self, name: &str) -> (r: Result<Store, StoreError>)
        requires
            old(self).wf(),
        ensures
            final(self).wf(),
            final(self).spec_path() == old(self).spec_path(),
            final(self).spec_max_stores() == old(self).spec_max_stores(),
            r matches Ok(s) ==> final(self).opened() == old(self).opened().insert(
                opt_name_view(Some(name)),
                s.id(),
            ) && s.id() == final(self).opened()[opt_name_view(Some(name))],
            r matches Ok(s) ==> (old(self).opened().contains_key(opt_name_view(Some(name)))
                ==> s.id() == old(self).opened()[opt_name_view(Some(name))] && final(self).opened()
                == old(self).opened()),
            old(self).opened().contains_key(opt_name_view(Some(name))) ==> r is Ok,
            !opt_name_ok(Some(name)) ==> r == Err::<Store, StoreError>(StoreError::Engine(EINVAL)),
            r is Err ==> final(self).opened() == old(self).opened() && (r matches Err(
                StoreError::StoreDoesNotExist,
            ) || r matches Err(StoreError::Engine(_))),
    {
        let nv = Ghost(opt_name_view(Some(name)));
        if !bytes_nul_free(name.as_bytes()) {
            proof {
                assert(name.spec_bytes() == vstd::utf8::encode_utf8(name@));
                lemma_opened_contains(self.stores@, nv@);
                if self.opened().contains_key(nv@) {
                    let p = choose|p: int|
                        0 <= p < self.stores@.len() && name_view(
                            #[trigger] self.stores@[p].0,
                        ) == nv@;
                    assert(rec_name_ok(self.stores@[p].0));
                    assert(false);
                }
            }
            return Err(StoreError::Engine(EINVAL));
        }
        let n = self.stores.len();
        let mut i: usize = 0;
        while i < n
            invariant
                n == self.stores@.len(),
                0 <= i <= n,
                forall|p: int| 0 <= p < i ==> name_view(#[trigger] self.stores@[p].0) != nv@,
                old(self).wf(),
                *self == *old(self),
                nv@ == opt_name_view(Some(name)),
                opt_name_ok(Some(name)),
            decreases n - i,
        {
            if self.name_matches(i, Some(name)) {
                let found = self.stores[i].1;
                proof {
                    lemma_opened_contains(self.stores@, nv@);
                    lemma_opened_at(self.stores@, i as int);
                    assert(self.opened().insert(nv@, found.id()) =~= self.opened());
                }
                return Ok(found);
            }
            i = i + 1;
        }
        proof {
            lemma_opened_contains(self.stores@, nv@);
            assert(!self.opened().contains_key(nv@));
        }
        match engine::env_open_db(&self.env, Some(name)) {
            Ok(store) => {
                let bits = match engine::db_flags_bits(&self.env, &store) {
                    Ok(b) => b,
                    Err(e) => {
                        return Err(StoreError::Engine(e.code));
                    },
                };
                if bits != 0 {
                    // A foreign program made this database with another
                    // key or value discipline; refuse it rather than
                    // iterate it under the wrong order model.
                    return Err(StoreError::Engine(MDB_INCOMPATIBLE));
                }
                let mut j: usize = 0;
                while j < n
                    invariant
                        n == self.stores@.len(),
                        0 <= j <= n,
                        forall|p: int|
                            0 <= p < j ==> (#[trigger] self.stores@[p].1).id() != store.id(),
                        *self == *old(self),
                        old(self).wf(),
                        !self.opened().contains_key(nv@),
                        nv@ == opt_name_view(Some(name)),
                        opt_name_ok(Some(name)),
                    decreases n - j,
                {
                    if self.stores[j].1.slot == store.slot {
                        return Err(StoreError::Engine(MDB_BAD_DBI));
                    }
                    proof {
                        crate::store::lemma_id_is_slot(self.stores@[j as int].1);
                        crate::store::lemma_id_is_slot(store);
                    }
                    j = j + 1;
                }
                if self.named == self.max_dbs {
                    // A fresh name cannot be recorded past the limit; the
                    // engine itself admitted it, so pass its handle on
                    // without recording it. This cannot happen while every
                    // open goes through this handle.
                    return Err(StoreError::Engine(MDB_BAD_DBI));
                }
                let ghost before = self.stores@;
                self.stores.push((Some(name.to_owned()), store));
                self.named = self.named + 1;
                proof {
                    assert(self.stores@.drop_last() =~= before);
                    assert(rec_name_ok(self.stores@.last().0));
                    assert(forall|p: int|
                        0 <= p < before.len() ==> #[trigger] self.stores@[p] == before[p]);
                    lemma_opened_contains(before, nv@);
                }
                Ok(store)
            },
            Err(e) => {
                if e.code == crate::error::MDB_NOTFOUND {
                    Err(StoreError::StoreDoesNotExist)
                } else {
                    Err(StoreError::Engine(e.code))
                }
            },
        }
    }

    /// Begin a read transaction: a snapshot of the environment as of now.
    /// A thread that still holds one gets `ReadTransactionAlreadyExists`,
    /// not a deadlock.
    pub fn begin_read(&self) -> (r: Result<Reader<'_>, StoreError>)
        ensures
            r is Err ==> (r matches Err(StoreError::ReadTransactionAlreadyExists) || r matches Err(
                StoreError::Engine(_),
            )),
    {
        match engine::begin_ro(&self.env) {
            Ok(txn) => Ok(Reader { txn }),
            Err(e) => {
                if e.code == MDB_BAD_RSLOT {
                    Err(StoreError::ReadTransactionAlreadyExists)
                } else {
                    Err(StoreError::Engine(e.code))
                }
            },
        }
    }

    /// Begin the write transaction. While another is live anywhere in the
    /// process, this call blocks in the engine's writer lock until that
    /// one commits or aborts — including one this same thread still
    /// holds, which therefore never returns: finish each writer before
    /// beginning the next.
    pub fn begin_write(&self) -> (r: Result<Writer<'_>, StoreError>)
        ensures
            r is Err ==> r matches Err(StoreError::Engine(_)),
    {
        match engine::begin_rw(&self.env) {
            Ok(txn) => Ok(Writer { txn }),
            Err(e) => Err(StoreError::Engine(e.code)),
        }
    }

    /// The named-store limit this environment was opened with.
    pub fn max_stores(&self) -> (r: u32)
        ensures
            r == self.spec_max_stores(),
    {
        self.max_dbs
    }

    /// The directory path this environment was opened for.
    pub fn path(&self) -> (r: &str)
        ensures
            r@ == self.spec_path(),
    {
        self.path.as_str()
    }
}

} // verus!
