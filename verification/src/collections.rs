//! The insertion-ordered maps (`indexmap::IndexMap`) that hold the store.
//!
//! Verus sees an `IndexMap` only through the names below, which give its
//! contents as a sequence of key/value entries in iteration order, and
//! through the contracts of the wrappers, which follow `indexmap`'s
//! documentation: `insert` keeps an existing key in place and replaces its
//! value, or appends a new key last; `shift_remove` removes a key and keeps the
//! relative order of the rest; `get_index` reads the entry at a position.

use vstd::prelude::*;
use indexmap::IndexMap;
use crate::entries::{SecretsModel, EnvsModel, ProjectModel, StoreModel, lookup, insert_entry, remove_key};
use crate::model::{Environment, Project};

verus! {

#[verifier::external_type_specification]
#[verifier::external_body]
#[verifier::reject_recursive_types(K)]
#[verifier::reject_recursive_types(V)]
#[verifier::reject_recursive_types(S)]
pub struct ExIndexMap<K, V, S>(IndexMap<K, V, S>);

/// The entries of a secrets map, in iteration order.
pub uninterp spec fn secret_entries(m: IndexMap<String, String>) -> SecretsModel;

/// The entries of an environments map, in iteration order.
pub uninterp spec fn env_entries(m: IndexMap<String, Environment>) -> EnvsModel;

/// The entries of a projects map, in iteration order.
pub uninterp spec fn project_entries(m: IndexMap<String, Project>) -> StoreModel;

// --- IndexMap<String, String> ----------------------------------------------

/// `IndexMap::new`: an empty map.
#[verifier::external_body]
pub(crate) fn secrets_new() -> (m: IndexMap<String, String>)
    ensures
        secret_entries(m) == Seq::<(Seq<char>, Seq<char>)>::empty(),
{
    IndexMap::new()
}

/// `IndexMap::len`: the number of entries.
#[verifier::external_body]
pub(crate) fn secrets_len(m: &IndexMap<String, String>) -> (n: usize)
    ensures
        n == secret_entries(*m).len(),
{
    m.len()
}

/// `IndexMap::get`: the value stored under `k`.
#[verifier::external_body]
pub(crate) fn secrets_get<'a>(m: &'a IndexMap<String, String>, k: &str) -> (r: Option<&'a String>)
    ensures
        match r {
            Some(v) => lookup(secret_entries(*m), k@) == Some(v@),
            None => lookup(secret_entries(*m), k@) is None,
        },
{
    m.get(k)
}

/// `IndexMap::insert`: replace the value of an existing key in place, or
/// append a new entry; returns the value that was replaced.
#[verifier::external_body]
pub(crate) fn secrets_insert(m: &mut IndexMap<String, String>, k: String, v: String) -> (r: Option<String>)
    ensures
        secret_entries(*final(m)) == insert_entry(secret_entries(*old(m)), k@, v@),
        match r {
            Some(o) => lookup(secret_entries(*old(m)), k@) == Some(o@),
            None => lookup(secret_entries(*old(m)), k@) is None,
        },
{
    m.insert(k, v)
}

/// `IndexMap::shift_remove`: remove `k`, keeping the order of the rest;
/// returns the removed value.
#[verifier::external_body]
pub(crate) fn secrets_remove(m: &mut IndexMap<String, String>, k: &str) -> (r: Option<String>)
    ensures
        secret_entries(*final(m)) == remove_key(secret_entries(*old(m)), k@),
        match r {
            Some(o) => lookup(secret_entries(*old(m)), k@) == Some(o@),
            None => lookup(secret_entries(*old(m)), k@) is None,
        },
{
    m.shift_remove(k)
}

/// `IndexMap::get_index`: the entry at position `i`; no other entry has its
/// key, as keys of an `IndexMap` are distinct.
#[verifier::external_body]
pub(crate) fn secrets_get_index<'a>(m: &'a IndexMap<String, String>, i: usize) -> (r: Option<(&'a String, &'a String)>)
    ensures
        match r {
            Some(e) => i < secret_entries(*m).len() && e.0@ == secret_entries(*m)[i as int].0
                && e.1@ == secret_entries(*m)[i as int].1
                && forall|j: int| 0 <= j < secret_entries(*m).len() && j != i ==> #[trigger] secret_entries(*m)[j].0 != e.0@,
            None => i >= secret_entries(*m).len(),
        },
{
    m.get_index(i)
}

/// `IndexMap::clone`: a map with the same entries.
#[verifier::external_body]
pub(crate) fn secrets_clone(m: &IndexMap<String, String>) -> (c: IndexMap<String, String>)
    ensures
        secret_entries(c) == secret_entries(*m),
{
    m.clone()
}

// --- IndexMap<String, Environment> -----------------------------------------

/// `IndexMap::new`: an empty map.
#[verifier::external_body]
pub(crate) fn envs_new() -> (m: IndexMap<String, Environment>)
    ensures
        env_entries(m) == Seq::<(Seq<char>, SecretsModel)>::empty(),
{
    IndexMap::new()
}

/// `IndexMap::len`: the number of entries.
#[verifier::external_body]
pub(crate) fn envs_len(m: &IndexMap<String, Environment>) -> (n: usize)
    ensures
        n == env_entries(*m).len(),
{
    m.len()
}

/// `IndexMap::get`: the environment stored under `k`.
#[verifier::external_body]
pub(crate) fn envs_get<'a>(m: &'a IndexMap<String, Environment>, k: &str) -> (r: Option<&'a Environment>)
    ensures
        match r {
            Some(v) => lookup(env_entries(*m), k@) == Some(v@),
            None => lookup(env_entries(*m), k@) is None,
        },
{
    m.get(k)
}

/// `IndexMap::get_mut`: the environment stored under `k`, to be changed in place.
#[verifier::external_body]
pub(crate) fn envs_get_mut<'a>(m: &'a mut IndexMap<String, Environment>, k: &str) -> (r: Option<&'a mut Environment>)
    ensures
        match r {
            Some(v) => lookup(env_entries(*old(m)), k@) == Some((*v)@) && env_entries(*final(m))
                == insert_entry(env_entries(*old(m)), k@, (*final(v))@),
            None => lookup(env_entries(*old(m)), k@) is None && env_entries(*final(m))
                == env_entries(*old(m)),
        },
{
    m.get_mut(k)
}

/// `IndexMap::insert`: replace the environment of an existing key in place,
/// or append a new entry; returns the environment that was replaced.
#[verifier::external_body]
pub(crate) fn envs_insert(m: &mut IndexMap<String, Environment>, k: String, v: Environment) -> (r: Option<Environment>)
    ensures
        env_entries(*final(m)) == insert_entry(env_entries(*old(m)), k@, v@),
        match r {
            Some(o) => lookup(env_entries(*old(m)), k@) == Some(o@),
            None => lookup(env_entries(*old(m)), k@) is None,
        },
{
    m.insert(k, v)
}

/// `IndexMap::shift_remove`: remove `k`, keeping the order of the rest.
#[verifier::external_body]
pub(crate) fn envs_remove(m: &mut IndexMap<String, Environment>, k: &str) -> (r: Option<Environment>)
    ensures
        env_entries(*final(m)) == remove_key(env_entries(*old(m)), k@),
        match r {
            Some(o) => lookup(env_entries(*old(m)), k@) == Some(o@),
            None => lookup(env_entries(*old(m)), k@) is None,
        },
{
    m.shift_remove(k)
}

/// `IndexMap::get_index`: the entry at position `i`.
#[verifier::external_body]
pub(crate) fn envs_get_index<'a>(m: &'a IndexMap<String, Environment>, i: usize) -> (r: Option<(&'a String, &'a Environment)>)
    ensures
        match r {
            Some(e) => i < env_entries(*m).len() && e.0@ == env_entries(*m)[i as int].0
                && e.1@ == env_entries(*m)[i as int].1,
            None => i >= env_entries(*m).len(),
        },
{
    m.get_index(i)
}

// --- IndexMap<String, Project> ---------------------------------------------

/// `IndexMap::new`: an empty map.
#[verifier::external_body]
pub(crate) fn projects_new() -> (m: IndexMap<String, Project>)
    ensures
        project_entries(m) == Seq::<(Seq<char>, ProjectModel)>::empty(),
{
    IndexMap::new()
}

/// `IndexMap::len`: the number of entries.
#[verifier::external_body]
pub(crate) fn projects_len(m: &IndexMap<String, Project>) -> (n: usize)
    ensures
        n == project_entries(*m).len(),
{
    m.len()
}

/// `IndexMap::get`: the project stored under `k`.
#[verifier::external_body]
pub(crate) fn projects_get<'a>(m: &'a IndexMap<String, Project>, k: &str) -> (r: Option<&'a Project>)
    ensures
        match r {
            Some(v) => lookup(project_entries(*m), k@) == Some(v@),
            None => lookup(project_entries(*m), k@) is None,
        },
{
    m.get(k)
}

/// `IndexMap::get_mut`: the project stored under `k`, to be changed in place.
#[verifier::external_body]
pub(crate) fn projects_get_mut<'a>(m: &'a mut IndexMap<String, Project>, k: &str) -> (r: Option<&'a mut Project>)
    ensures
        match r {
            Some(v) => lookup(project_entries(*old(m)), k@) == Some((*v)@) && project_entries(*final(m))
                == insert_entry(project_entries(*old(m)), k@, (*final(v))@),
            None => lookup(project_entries(*old(m)), k@) is None && project_entries(*final(m))
                == project_entries(*old(m)),
        },
{
    m.get_mut(k)
}

/// `IndexMap::insert`: replace the project of an existing key in place, or
/// append a new entry; returns the project that was replaced.
#[verifier::external_body]
pub(crate) fn projects_insert(m: &mut IndexMap<String, Project>, k: String, v: Project) -> (r: Option<Project>)
    ensures
        project_entries(*final(m)) == insert_entry(project_entries(*old(m)), k@, v@),
        match r {
            Some(o) => lookup(project_entries(*old(m)), k@) == Some(o@),
            None => lookup(project_entries(*old(m)), k@) is None,
        },
{
    m.insert(k, v)
}

/// `IndexMap::shift_remove`: remove `k`, keeping the order of the rest.
#[verifier::external_body]
pub(crate) fn projects_remove(m: &mut IndexMap<String, Project>, k: &str) -> (r: Option<Project>)
    ensures
        project_entries(*final(m)) == remove_key(project_entries(*old(m)), k@),
        match r {
            Some(o) => lookup(project_entries(*old(m)), k@) == Some(o@),
            None => lookup(project_entries(*old(m)), k@) is None,
        },
{
    m.shift_remove(k)
}

/// `IndexMap::get_index`: the entry at position `i`.
#[verifier::external_body]
pub(crate) fn projects_get_index<'a>(m: &'a IndexMap<String, Project>, i: usize) -> (r: Option<(&'a String, &'a Project)>)
    ensures
        match r {
            Some(e) => i < project_entries(*m).len() && e.0@ == project_entries(*m)[i as int].0
                && e.1@ == project_entries(*m)[i as int].1,
            None => i >= project_entries(*m).len(),
        },
{
    m.get_index(i)
}

} // verus!
