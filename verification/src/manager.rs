//! The environment registry: at most one live environment per directory.
//!
//! The engine forbids two live mappings of one directory in a process, so
//! environments are handed out through a registry keyed by path: a second
//! request for the same path gets the environment already open, never a
//! second mapping. The registry is an explicit collaborator — callers make
//! one and share it — rather than a hidden process-wide singleton, which
//! keeps every use injectable and testable.

use crate::env::Env;
use crate::error::StoreError;
use vstd::prelude::*;
use vstd::std_specs::vec::vec_index_mut;

verus! {

/// The registry of open environments, keyed by directory path.
pub struct Manager {
    envs: Vec<(String, Env)>,
}

impl Manager {
    /// How many environments are open.
    pub closed spec fn spec_len(&self) -> int {
        self.envs@.len() as int
    }

    /// The path of the environment at a slot.
    pub closed spec fn path_at(&self, i: int) -> Seq<char> {
        self.envs@[i].0@
    }

    /// The environment at a slot.
    pub closed spec fn env_at(&self, i: int) -> Env {
        self.envs@[i].1
    }

    /// Whether some slot holds this path.
    pub open spec fn has_path(&self, p: Seq<char>) -> bool {
        exists|i: int| 0 <= i < self.spec_len() && self.path_at(i) == p
    }

    /// Well-formedness: paths are distinct — one environment per
    /// directory — and each environment is well-formed and keyed by its
    /// own path.
    pub closed spec fn wf(&self) -> bool {
        &&& (forall|p: int, q: int|
            0 <= p < q < self.envs@.len() ==> (#[trigger] self.envs@[p].0)@ != (
            #[trigger] self.envs@[q].0)@)
        &&& (forall|i: int|
            0 <= i < self.envs@.len() ==> (#[trigger] self.envs@[i].1).wf()
                && self.envs@[i].1.spec_path() == self.envs@[i].0@)
    }

    /// An empty registry.
    pub fn new() -> (r: Manager)
        ensures
            r.wf(),
            r.spec_len() == 0,
    {
        Manager { envs: Vec::new() }
    }

    /// The slot for `path`: the one already open for it if there is one —
    /// a duplicate open never maps the directory twice — else a fresh
    /// environment opened with the given named-store limit.
    ///
    /// The limit is fixed when the environment first opens: asking later
    /// for a larger one is refused with `TooManyStores`, never silently
    /// left at the old limit.
    pub fn get_or_create(&mut self, path: &str, max_stores: u32) -> (r: Result<usize, StoreError>)
        requires
            old(self).wf(),
        ensures
            final(self).wf(),
            r matches Ok(i) ==> i < final(self).spec_len() && final(self).path_at(i as int)
                == path@,
            r matches Ok(i) ==> (old(self).has_path(path@) ==> *final(self) == *old(self)
                && max_stores <= final(self).env_at(i as int).spec_max_stores()),
            r matches Ok(i) ==> (!old(self).has_path(path@) ==> i as int == old(self).spec_len()
                && final(self).spec_len() == old(self).spec_len() + 1 && final(self).env_at(
                i as int,
            ).opened() == Map::<Option<Seq<char>>, int>::empty() && final(self).env_at(
                i as int,
            ).spec_max_stores() == max_stores),
            r matches Ok(i) ==> final(self).env_at(i as int).wf() && final(self).env_at(
                i as int,
            ).spec_path() == path@,
            old(self).has_path(path@) ==> (r is Ok || r matches Err(StoreError::TooManyStores)),
            r matches Ok(i) ==> forall|j: int|
                0 <= j < final(self).spec_len() && final(self).path_at(j) == path@ ==> j
                    == i as int,
            forall|j: int|
                0 <= j < old(self).spec_len() && old(self).path_at(j) == path@ && max_stores <= old(
                    self,
                ).env_at(j).spec_max_stores() ==> r is Ok,
            r is Err ==> *final(self) == *old(self) && (r matches Err(
                StoreError::DirectoryDoesNotExist,
            ) || r matches Err(StoreError::TooManyStores) || r matches Err(StoreError::Engine(_))),
    {
        let n = self.envs.len();
        let owned: String = path.to_owned();
        let mut i: usize = 0;
        while i < n
            invariant
                n == self.envs@.len(),
                0 <= i <= n,
                forall|p: int| 0 <= p < i ==> (#[trigger] self.envs@[p].0)@ != path@,
                old(self).wf(),
                *self == *old(self),
                owned@ == path@,
            decreases n - i,
        {
            if self.envs[i].0 == owned {
                proof {
                    assert(self.path_at(i as int) == path@);
                    assert(old(self).has_path(path@));
                    assert forall|j: int|
                        0 <= j < self.spec_len() && self.path_at(j) == path@ implies j
                            == i as int by {
                        if j < i as int {
                            assert(self.envs@[j].0@ != self.envs@[i as int].0@);
                        } else if j > i as int {
                            assert(self.envs@[i as int].0@ != self.envs@[j].0@);
                        }
                    }
                }
                if max_stores > self.envs[i].1.max_stores() {
                    return Err(StoreError::TooManyStores);
                }
                return Ok(i);
            }
            i = i + 1;
        }
        match Env::open_or_create(path, max_stores) {
            Ok(env) => {
                let ghost before = self.envs@;
                self.envs.push((owned, env));
                proof {
                    assert(forall|p: int|
                        0 <= p < before.len() ==> #[trigger] self.envs@[p] == before[p]);
                    assert(self.envs@[before.len() as int].0@ == path@);
                    assert forall|j: int|
                        0 <= j < self.spec_len() && self.path_at(j) == path@ implies j
                            == before.len() as int by {
                        if j < before.len() {
                            assert(self.envs@[j].0@ != path@);
                        }
                    }
                }
                Ok(n)
            },
            Err(e) => Err(e),
        }
    }

    /// Borrow the environment at a slot, for reads and transactions.
    pub fn env(&self, i: usize) -> (r: &Env)
        requires
            self.wf(),
            i < self.spec_len(),
        ensures
            *r == self.env_at(i as int),
            r.wf(),
    {
        &self.envs[i].1
    }

    /// Borrow the environment at a slot exclusively, for opening stores.
    /// The registry stays well-formed as long as the borrower leaves the
    /// environment well-formed under its recorded path, which every
    /// environment operation does.
    pub fn env_mut(&mut self, i: usize) -> (r: &mut Env)
        requires
            old(self).wf(),
            i < old(self).spec_len(),
        ensures
            *r == old(self).env_at(i as int),
            final(self).spec_len() == old(self).spec_len(),
            final(self).env_at(i as int) == *final(r),
            final(self).path_at(i as int) == old(self).path_at(i as int),
            forall|j: int|
                0 <= j < old(self).spec_len() && j != i ==> final(self).env_at(j) == old(self).env_at(j) && final(self).path_at(j) == old(self).path_at(j),
            (final(r).wf() && final(r).spec_path() == old(self).path_at(i as int)) ==> final(self).wf(),
    {
        let entry = vec_index_mut(&mut self.envs, i);
        &mut entry.1
    }
}

} // verus!
