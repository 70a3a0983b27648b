//! The global repository: variable ids mapped to heap pointers.
use vstd::prelude::*;

use fnv::FnvHashMap;

verus! {

/// fnv's hasher, carried opaquely inside the map type.
#[verifier::external_type_specification]
#[verifier::external_body]
pub struct ExFnvHasher(fnv::FnvHasher);

/// std's hasher builder, carried opaquely inside the map type.
#[verifier::external_type_specification]
#[verifier::external_body]
#[verifier::reject_recursive_types(H)]
pub struct ExBuildHasherDefault<H>(std::hash::BuildHasherDefault<H>);

/// The map type that holds the repository's entries.
pub type PointerMap = FnvHashMap<usize, usize>;

/// Relies on std's `HashMap::with_capacity_and_hasher` with fnv's hasher: an empty map.
#[verifier::external_body]
fn fnv_map_new(capacity: usize) -> (r: PointerMap)
    ensures
        r@.dom() == Set::<usize>::empty(),
{
    FnvHashMap::with_capacity_and_hasher(capacity, Default::default())
}

/// Relies on std's `HashMap::insert` with fnv's hasher: the key now maps to the value.
#[verifier::external_body]
fn fnv_map_insert(m: &mut PointerMap, k: usize, v: usize)
    ensures
        final(m)@ == old(m)@.insert(k, v),
{
    m.insert(k, v);
}

/// Relies on std's `HashMap::get` with fnv's hasher: the value stored under the key.
#[verifier::external_body]
fn fnv_map_get(m: &PointerMap, k: usize) -> (r: Option<usize>)
    ensures
        m@.contains_key(k) ==> r == Some(m@[k]),
        !m@.contains_key(k) ==> r is None,
{
    m.get(&k).copied()
}

/// Relies on std's `HashMap::remove` with fnv's hasher: the key leaves the map.
#[verifier::external_body]
fn fnv_map_remove(m: &mut PointerMap, k: usize) -> (r: Option<usize>)
    ensures
        final(m)@ == old(m)@.remove(k),
        old(m)@.contains_key(k) ==> r == Some(old(m)@[k]),
        !old(m)@.contains_key(k) ==> r is None,
{
    m.remove(&k)
}

/// Relies on std's `HashMap::len` with fnv's hasher: the number of keys.
#[verifier::external_body]
fn fnv_map_len(m: &PointerMap) -> (r: usize)
    ensures
        r == m@.len(),
{
    m.len()
}

/// Why a repository operation failed.
#[derive(PartialEq, Eq, Structural, Clone, Copy, Debug)]
pub enum RepoError {
    /// The repository already holds as many entries as its capacity.
    CapacityExceeded,
    /// No entry under the requested id.
    UndefinedVariable,
    /// A pop on an empty repository.
    Empty,
}

/// Fixed-capacity mapping from variable ids to heap pointers.
pub struct VMRepository {
    /// The stored pointers.
    pub repo_var_pointers: PointerMap,
    /// Most entries the repository may hold.
    pub repo_capacity: usize,
}

impl View for VMRepository {
    type V = Map<usize, usize>;

    open spec fn view(&self) -> Map<usize, usize> {
        self.repo_var_pointers@
    }
}

impl VMRepository {
    pub open spec fn wf(&self) -> bool {
        &&& self@.dom().finite()
        &&& self@.len() <= self.repo_capacity
    }

    /// An empty repository of the given capacity.
    pub fn new(repo_capacity: usize) -> (r: Self)
        ensures
            r.wf(),
            r@ == Map::<usize, usize>::empty(),
            r.repo_capacity == repo_capacity,
    {
        let m = fnv_map_new(repo_capacity);
        assert(m@ =~= Map::<usize, usize>::empty());
        VMRepository { repo_var_pointers: m, repo_capacity }
    }

    /// Stores `var_data` under `var_name`, replacing an entry under that id;
    /// refused once the repository is full, even for an id already present.
    pub fn add_var(&mut self, var_name: usize, var_data: usize) -> (r: Result<(), RepoError>)
        requires
            old(self).wf(),
        ensures
            final(self).wf(),
            final(self).repo_capacity == old(self).repo_capacity,
            old(self)@.len() == old(self).repo_capacity ==> r == Err::<(), RepoError>(
                RepoError::CapacityExceeded,
            ) && final(self)@ == old(self)@,
            old(self)@.len() < old(self).repo_capacity ==> r is Ok && final(self)@ == old(self)@.insert(
                var_name,
                var_data,
            ),
    {
        if fnv_map_len(&self.repo_var_pointers) == self.repo_capacity {
            return Err(RepoError::CapacityExceeded);
        }
        fnv_map_insert(&mut self.repo_var_pointers, var_name, var_data);
        Ok(())
    }

    /// The pointer stored under `var_name`.
    pub fn get_var(&self, var_name: usize) -> (r: Result<usize, RepoError>)
        ensures
            self@.contains_key(var_name) ==> r == Ok::<usize, RepoError>(self@[var_name]),
            !self@.contains_key(var_name) ==> r == Err::<usize, RepoError>(RepoError::UndefinedVariable),
    {
        match fnv_map_get(&self.repo_var_pointers, var_name) {
            Some(p) => Ok(p),
            None => Err(RepoError::UndefinedVariable),
        }
    }

    /// Removes the entry under `var_name` and returns its pointer. Fails with
    /// `Empty` when the repository holds nothing at all, and otherwise with
    /// `UndefinedVariable` when the id is absent.
    pub fn pop_var(&mut self, var_name: usize) -> (r: Result<usize, RepoError>)
        requires
            old(self).wf(),
        ensures
            final(self).wf(),
            final(self).repo_capacity == old(self).repo_capacity,
            old(self)@.len() == 0 ==> r == Err::<usize, RepoError>(RepoError::Empty),
            old(self)@.len() > 0 && !old(self)@.contains_key(var_name) ==> r == Err::<
                usize,
                RepoError,
            >(RepoError::UndefinedVariable),
            old(self)@.contains_key(var_name) ==> r == Ok::<usize, RepoError>(old(self)@[var_name]),
            final(self)@ == old(self)@.remove(var_name),
    {
        if self.repo_var_pointers.is_empty() {
            proof {
                assert(self@ =~= self@.remove(var_name));
            }
            return Err(RepoError::Empty);
        }
        proof {
            if old(self)@.len() == 0 {
                assert(old(self)@ =~= Map::<usize, usize>::empty());
            }
        }
        match fnv_map_remove(&mut self.repo_var_pointers, var_name) {
            Some(p) => Ok(p),
            None => Err(RepoError::UndefinedVariable),
        }
    }

    /// Removes the entry under `var_name`; fails when the id is absent.
    pub fn remove_var(&mut self, var_name: usize) -> (r: Result<(), RepoError>)
        requires
            old(self).wf(),
        ensures
            final(self).wf(),
            final(self).repo_capacity == old(self).repo_capacity,
            old(self)@.contains_key(var_name) ==> r is Ok,
            !old(self)@.contains_key(var_name) ==> r == Err::<(), RepoError>(
                RepoError::UndefinedVariable,
            ),
            final(self)@ == old(self)@.remove(var_name),
    {
        match fnv_map_remove(&mut self.repo_var_pointers, var_name) {
            Some(_) => Ok(()),
            None => Err(RepoError::UndefinedVariable),
        }
    }

    /// Removes every entry.
    pub fn clear_repo(&mut self)
        requires
            old(self).wf(),
        ensures
            final(self).wf(),
            final(self).repo_capacity == old(self).repo_capacity,
            final(self)@ == Map::<usize, usize>::empty(),
    {
        self.repo_var_pointers.clear();
    }
}

} // verus!
