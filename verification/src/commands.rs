//! The store commands: what each non-interactive subcommand does to the
//! secret store, and what it answers.
//!
//! Each command takes the loaded store and the plain values it needs, and
//! either changes the store as described or leaves it unchanged and reports
//! why it could not.

use vstd::prelude::*;
use crate::entries::{SecretsModel, ProjectModel, StoreModel, lookup, has_key, insert_entry, remove_key, lemma_find_key, lemma_insert_same, lemma_remove_key, lemma_insert_twice};
use crate::collections::{secret_entries, secrets_get, secrets_insert, secrets_remove, secrets_clone, envs_get, envs_get_mut, envs_insert, envs_remove, envs_len, envs_get_index, projects_get, projects_insert, projects_remove};
use crate::model::{Store, Project, Environment, store_value};
use crate::errors::{CmdError, CmdErr};
use crate::meta::Assignment;
use crate::model::chosen_env;
use crate::resolve::{resolve_at, resolved_at, RefError};
use crate::collections::{secrets_new, secrets_len, secrets_get_index};
use indexmap::IndexMap;
use crate::cli::Format;
use crate::paths::{extension, path_extension};
use crate::envfile::{serialized, quote};
use crate::text::push_str;
use crate::kinds::{SecretKind, fits, misfit, set_typed};

verus! {

/// A project with no default, no folder and no environments.
pub open spec fn empty_project() -> ProjectModel {
    (None, None, Seq::empty())
}

/// What a store command did: the new store, or the error it answered with
/// while the store stayed as it was.
pub open spec fn outcome(r: Result<(), CmdError>, before: StoreModel, after: StoreModel, expected: Result<StoreModel, CmdErr>) -> bool {
    match expected {
        Ok(s) => r is Ok && after == s,
        Err(e) => r matches Err(x) && x@ == e && after == before,
    }
}

/// Creating project `name`.
pub open spec fn create_project_spec(s: StoreModel, name: Seq<char>) -> Result<StoreModel, CmdErr> {
    if has_key(s, name) {
        Err(CmdErr::ProjectExists(name))
    } else {
        Ok(s.push((name, empty_project())))
    }
}

/// Deleting project `name` and all of its environments.
pub open spec fn delete_project_spec(s: StoreModel, name: Seq<char>) -> Result<StoreModel, CmdErr> {
    if has_key(s, name) {
        Ok(remove_key(s, name))
    } else {
        Err(CmdErr::ProjectNotFound(name))
    }
}

/// Creating environment `name` in `project`; the first environment of a
/// project becomes its default.
pub open spec fn create_env_spec(s: StoreModel, project: Seq<char>, name: Seq<char>) -> Result<StoreModel, CmdErr> {
    match lookup(s, project) {
        None => Err(CmdErr::ProjectNotFound(project)),
        Some(p) => if has_key(p.2, name) {
            Err(CmdErr::EnvExists(name, project))
        } else {
            Ok(insert_entry(s, project, (if p.0 is None { Some(name) } else { p.0 }, p.1, p.2.push((name, Seq::empty())))))
        },
    }
}

/// Deleting environment `name` of `project`; when it was the default, the
/// first remaining environment (if any) becomes the default.
pub open spec fn delete_env_spec(s: StoreModel, project: Seq<char>, name: Seq<char>) -> Result<StoreModel, CmdErr> {
    match lookup(s, project) {
        None => Err(CmdErr::ProjectNotFound(project)),
        Some(p) => if !has_key(p.2, name) {
            Err(CmdErr::EnvNotFound(name, project))
        } else {
            let envs = remove_key(p.2, name);
            let def = if p.0 == Some(name) {
                if envs.len() > 0 {
                    Some(envs[0].0)
                } else {
                    None
                }
            } else {
                p.0
            };
            Ok(insert_entry(s, project, (def, p.1, envs)))
        },
    }
}

/// Making `name` the default environment of `project`.
pub open spec fn set_default_env_spec(s: StoreModel, project: Seq<char>, name: Seq<char>) -> Result<StoreModel, CmdErr> {
    match lookup(s, project) {
        None => Err(CmdErr::ProjectNotFound(project)),
        Some(p) => if !has_key(p.2, name) {
            Err(CmdErr::EnvNotFound(name, project))
        } else {
            Ok(insert_entry(s, project, (Some(name), p.1, p.2)))
        },
    }
}

/// Setting secret `key` of `project/env` to `value`.
pub open spec fn set_secret_spec(s: StoreModel, project: Seq<char>, env: Seq<char>, key: Seq<char>, value: Seq<char>) -> Result<StoreModel, CmdErr> {
    match lookup(s, project) {
        None => Err(CmdErr::ProjectNotFound(project)),
        Some(p) => match lookup(p.2, env) {
            None => Err(CmdErr::EnvNotFound(env, project)),
            Some(e) => Ok(insert_entry(s, project, (p.0, p.1, insert_entry(p.2, env, insert_entry(e, key, value))))),
        },
    }
}

/// Deleting secret `key` of `project/env`.
pub open spec fn delete_secret_spec(s: StoreModel, project: Seq<char>, env: Seq<char>, key: Seq<char>) -> Result<StoreModel, CmdErr> {
    match lookup(s, project) {
        None => Err(CmdErr::ProjectNotFound(project)),
        Some(p) => match lookup(p.2, env) {
            None => Err(CmdErr::EnvNotFound(env, project)),
            Some(e) => if !has_key(e, key) {
                Err(CmdErr::SecretNotFound(key, project, env))
            } else {
                Ok(insert_entry(s, project, (p.0, p.1, insert_entry(p.2, env, remove_key(e, key)))))
            },
        },
    }
}

/// Copying environment `from` of `project` to a new environment `to`.
pub open spec fn duplicate_env_spec(s: StoreModel, project: Seq<char>, from: Seq<char>, to: Seq<char>) -> Result<StoreModel, CmdErr> {
    match lookup(s, project) {
        None => Err(CmdErr::ProjectNotFound(project)),
        Some(p) => match lookup(p.2, from) {
            None => Err(CmdErr::EnvNotFound(from, project)),
            Some(e) => if has_key(p.2, to) {
                Err(CmdErr::EnvExists(to, project))
            } else {
                Ok(insert_entry(s, project, (p.0, p.1, p.2.push((to, e)))))
            },
        },
    }
}

/// Create project `name`.
pub fn create_project(store: &mut Store, name: String) -> (r: Result<(), CmdError>)
    ensures
        outcome(r, old(store)@, final(store)@, create_project_spec(old(store)@, name@)),
{
    proof {
        lemma_find_key(store@, name@);
    }
    if projects_get(&store.projects, name.as_str()).is_some() {
        return Err(CmdError::ProjectExists(name));
    }
    projects_insert(&mut store.projects, name, Project::default());
    Ok(())
}

/// Delete project `name` and all of its environments.
pub fn delete_project(store: &mut Store, name: &str) -> (r: Result<(), CmdError>)
    ensures
        outcome(r, old(store)@, final(store)@, delete_project_spec(old(store)@, name@)),
{
    proof {
        lemma_find_key(store@, name@);
    }
    match projects_remove(&mut store.projects, name) {
        Some(_) => Ok(()),
        None => {
            proof {
                lemma_remove_key(old(store)@, name@);
            }
            Err(CmdError::ProjectNotFound(name.to_owned()))
        }
    }
}

/// Create environment `name` in `project`.
pub fn create_env(store: &mut Store, project: &str, name: String) -> (r: Result<(), CmdError>)
    ensures
        outcome(r, old(store)@, final(store)@, create_env_spec(old(store)@, project@, name@)),
{
    let ghost s0 = store@;
    let proj = match store.project_mut(project) {
        Some(p) => p,
        None => {
            return Err(CmdError::ProjectNotFound(project.to_owned()));
        }
    };
    proof {
        lemma_find_key(proj@.2, name@);
        lemma_insert_same(s0, project@, proj@);
    }
    if envs_get(&proj.environments, name.as_str()).is_some() {
        return Err(CmdError::EnvExists(name, project.to_owned()));
    }
    let no_default = proj.default_env.is_none();
    if no_default {
        proj.default_env = Some(name.clone());
    }
    envs_insert(&mut proj.environments, name, Environment::default());
    Ok(())
}

/// Delete environment `name` of `project`.
pub fn delete_env(store: &mut Store, project: &str, name: &str) -> (r: Result<(), CmdError>)
    ensures
        outcome(r, old(store)@, final(store)@, delete_env_spec(old(store)@, project@, name@)),
{
    let proj = match store.project_mut(project) {
        Some(p) => p,
        None => {
            return Err(CmdError::ProjectNotFound(project.to_owned()));
        }
    };
    let ghost p0 = proj@;
    proof {
        lemma_find_key(p0.2, name@);
        lemma_insert_same(old(store)@, project@, p0);
    }
    if envs_remove(&mut proj.environments, name).is_none() {
        proof {
            lemma_remove_key(p0.2, name@);
            assert(proj@ == p0);
        }
        return Err(CmdError::EnvNotFound(name.to_owned(), project.to_owned()));
    }
    let was_default = match &proj.default_env {
        Some(d) => crate::text::string_eq(d.as_str(), name),
        None => false,
    };
    if was_default {
        if envs_len(&proj.environments) > 0 {
            let (k, _) = envs_get_index(&proj.environments, 0).unwrap();
            proj.default_env = Some(k.clone());
        } else {
            proj.default_env = None;
        }
    }
    Ok(())
}

/// Make `name` the default environment of `project`.
pub fn set_default_env(store: &mut Store, project: &str, name: &str) -> (r: Result<(), CmdError>)
    ensures
        outcome(r, old(store)@, final(store)@, set_default_env_spec(old(store)@, project@, name@)),
{
    let proj = match store.project_mut(project) {
        Some(p) => p,
        None => {
            return Err(CmdError::ProjectNotFound(project.to_owned()));
        }
    };
    proof {
        lemma_find_key(proj@.2, name@);
        lemma_insert_same(old(store)@, project@, proj@);
    }
    if envs_get(&proj.environments, name).is_none() {
        return Err(CmdError::EnvNotFound(name.to_owned(), project.to_owned()));
    }
    proj.default_env = Some(name.to_owned());
    Ok(())
}

/// Set secret `key` of `project/env` to `value`.
pub fn set_secret(store: &mut Store, project: &str, env: &str, key: String, value: String) -> (r: Result<(), CmdError>)
    ensures
        outcome(r, old(store)@, final(store)@, set_secret_spec(old(store)@, project@, env@, key@, value@)),
{
    let proj = match store.project_mut(project) {
        Some(p) => p,
        None => {
            return Err(CmdError::ProjectNotFound(project.to_owned()));
        }
    };
    let ghost p0 = proj@;
    proof {
        lemma_insert_same(old(store)@, project@, p0);
    }
    let e = match envs_get_mut(&mut proj.environments, env) {
        Some(e) => e,
        None => {
            assert(proj@ == p0);
            return Err(CmdError::EnvNotFound(env.to_owned(), project.to_owned()));
        }
    };
    secrets_insert(&mut e.values, key, value);
    Ok(())
}

/// The type a typed `set` uses where the environment is missing: the one
/// given, else text.
pub open spec fn kind_or_text(kind: Option<SecretKind>) -> SecretKind {
    match kind {
        Some(k) => k,
        None => SecretKind::Text,
    }
}

/// Setting secret `key` of `project/env` to `value` as a secret of type
/// `used`: a value that does not fit is refused first, then the target must
/// exist.
pub open spec fn set_typed_spec(s: StoreModel, project: Seq<char>, env: Seq<char>, key: Seq<char>, value: Seq<char>, used: SecretKind) -> Result<StoreModel, CmdErr> {
    if !fits(used, value) {
        Err(misfit(used, value))
    } else {
        set_secret_spec(s, project, env, key, value)
    }
}

/// Set secret `key` of `project/env` to `value`, checking it against the type
/// given, or else the type recorded for the key (text where the environment
/// does not exist), and record that type. Returns the type used and the
/// outcome; see [`set_typed`] for the environment itself.
pub fn set_secret_typed(store: &mut Store, project: &str, env: &str, key: String, value: String, kind: Option<SecretKind>) -> (r: (SecretKind, Result<(), CmdError>))
    ensures
        kind matches Some(k) ==> r.0 == k,
        set_secret_spec(old(store)@, project@, env@, key@, value@) is Err ==> r.0 == kind_or_text(kind),
        outcome(r.1, old(store)@, final(store)@, set_typed_spec(old(store)@, project@, env@, key@, value@, r.0)),
{
    let fallback = match kind {
        Some(k) => k,
        None => SecretKind::Text,
    };
    let proj = match store.project_mut(project) {
        Some(p) => p,
        None => {
            return match fallback.validate(value.as_str()) {
                Err(e) => (fallback, Err(e)),
                Ok(()) => (fallback, Err(CmdError::ProjectNotFound(project.to_owned()))),
            };
        }
    };
    let ghost p0 = proj@;
    proof {
        lemma_insert_same(old(store)@, project@, p0);
    }
    let e = match envs_get_mut(&mut proj.environments, env) {
        Some(e) => e,
        None => {
            assert(proj@ == p0);
            return match fallback.validate(value.as_str()) {
                Err(e) => (fallback, Err(e)),
                Ok(()) => (fallback, Err(CmdError::EnvNotFound(env.to_owned(), project.to_owned()))),
            };
        }
    };
    let ghost e0 = e@;
    proof {
        lemma_insert_same(p0.2, env@, e0);
    }
    set_typed(e, key, value, kind)
}

/// Delete secret `key` of `project/env`; its type record goes with it (see
/// [`Environment::remove_secret`]).
pub fn delete_secret(store: &mut Store, project: &str, env: &str, key: &str) -> (r: Result<(), CmdError>)
    ensures
        outcome(r, old(store)@, final(store)@, delete_secret_spec(old(store)@, project@, env@, key@)),
{
    let proj = match store.project_mut(project) {
        Some(p) => p,
        None => {
            return Err(CmdError::ProjectNotFound(project.to_owned()));
        }
    };
    let ghost p0 = proj@;
    proof {
        lemma_insert_same(old(store)@, project@, p0);
    }
    let e = match envs_get_mut(&mut proj.environments, env) {
        Some(e) => e,
        None => {
            assert(proj@ == p0);
            return Err(CmdError::EnvNotFound(env.to_owned(), project.to_owned()));
        }
    };
    let ghost e0 = e@;
    proof {
        lemma_find_key(e0, key@);
    }
    proof {
        lemma_insert_same(p0.2, env@, e0);
    }
    if !e.remove_secret(key) {
        return Err(CmdError::SecretNotFound(key.to_owned(), project.to_owned(), env.to_owned()));
    }
    Ok(())
}

/// Copy environment `from` of `project` to a new environment `to`.
pub fn duplicate_env(store: &mut Store, project: &str, from: &str, to: String) -> (r: Result<(), CmdError>)
    ensures
        outcome(r, old(store)@, final(store)@, duplicate_env_spec(old(store)@, project@, from@, to@)),
{
    let proj = match store.project_mut(project) {
        Some(p) => p,
        None => {
            return Err(CmdError::ProjectNotFound(project.to_owned()));
        }
    };
    proof {
        lemma_insert_same(old(store)@, project@, proj@);
    }
    let source = match envs_get(&proj.environments, from) {
        Some(e) => Environment { values: secrets_clone(&e.values), kinds: secrets_clone(&e.kinds) },
        None => {
            return Err(CmdError::EnvNotFound(from.to_owned(), project.to_owned()));
        }
    };
    proof {
        lemma_find_key(proj@.2, to@);
    }
    if envs_get(&proj.environments, to.as_str()).is_some() {
        return Err(CmdError::EnvExists(to, project.to_owned()));
    }
    envs_insert(&mut proj.environments, to, source);
    Ok(())
}


// --- reading --------------------------------------------------------------

/// Reading secret `key` of `project/env`: the raw value, or its resolution.
pub open spec fn get_secret_spec(s: StoreModel, project: Seq<char>, env: Seq<char>, key: Seq<char>, raw: bool) -> Result<Seq<char>, CmdErr> {
    match store_value(s, project, env, key) {
        None => Err(CmdErr::SecretNotFound(key, project, env)),
        Some(v) => if raw {
            Ok(v)
        } else {
            match resolved_at(s, project, env, key) {
                Ok(t) => Ok(t),
                Err(e) => Err(CmdErr::Resolve(e)),
            }
        },
    }
}

/// The model of a text result.
pub open spec fn text_result(r: Result<String, CmdError>) -> Result<Seq<char>, CmdErr> {
    match r {
        Ok(t) => Ok(t@),
        Err(e) => Err(e@),
    }
}

/// Read secret `key` of `project/env`, resolved unless `raw`.
pub fn get_secret(store: &Store, project: &str, env: &str, key: &str, raw: bool) -> (r: Result<String, CmdError>)
    ensures
        text_result(r) == get_secret_spec(store@, project@, env@, key@, raw),
{
    let v = match store.value(project, env, key) {
        Some(v) => v,
        None => {
            return Err(CmdError::SecretNotFound(key.to_owned(), project.to_owned(), env.to_owned()));
        }
    };
    if raw {
        return Ok(v.clone());
    }
    match resolve_at(store, project, env, key) {
        Ok(t) => Ok(t),
        Err(e) => Err(CmdError::Resolve(e)),
    }
}

/// The model of an optional assignment.
pub open spec fn assignment_view(a: Option<&Assignment>) -> Option<(Seq<char>, Seq<char>)> {
    match a {
        Some(x) => Some(x@),
        None => None,
    }
}

/// The project a command works on: the one given, else the folder's.
pub open spec fn target_project(project: Option<Seq<char>>, assignment: Option<(Seq<char>, Seq<char>)>) -> Result<Seq<char>, CmdErr> {
    match project {
        Some(p) => Ok(p),
        None => match assignment {
            Some(a) => Ok(a.0),
            None => Err(CmdErr::NoProject),
        },
    }
}

/// The environment asked for: the one given, else the folder's when the
/// folder is assigned to the same project.
pub open spec fn requested_env(env: Option<Seq<char>>, project: Seq<char>, assignment: Option<(Seq<char>, Seq<char>)>) -> Option<Seq<char>> {
    match env {
        Some(e) => Some(e),
        None => match assignment {
            Some(a) => if a.0 == project {
                Some(a.1)
            } else {
                None
            },
            None => None,
        },
    }
}

/// The project and environment a command works on.
pub open spec fn target_spec(project: Option<Seq<char>>, env: Option<Seq<char>>, assignment: Option<(Seq<char>, Seq<char>)>) -> Result<(Seq<char>, Seq<char>), CmdErr> {
    match target_project(project, assignment) {
        Err(e) => Err(e),
        Ok(p) => match requested_env(env, p, assignment) {
            Some(e) => Ok((p, e)),
            None => Err(CmdErr::NoEnv),
        },
    }
}

/// The model of an optional string.
pub open spec fn opt_string(o: Option<String>) -> Option<Seq<char>> {
    match o {
        Some(s) => Some(s@),
        None => None,
    }
}

/// The project to work on, from the argument or the folder's assignment.
pub fn resolve_project(project: Option<String>, assignment: Option<&Assignment>) -> (r: Result<String, CmdError>)
    ensures
        text_result(r) == target_project(opt_string(project), assignment_view(assignment)),
{
    match project {
        Some(p) => Ok(p),
        None => match assignment {
            Some(a) => Ok(a.project.clone()),
            None => Err(CmdError::NoProject),
        },
    }
}

/// The project and environment to work on, from the arguments or the
/// folder's assignment.
pub fn resolve_target(project: Option<String>, env: Option<String>, assignment: Option<&Assignment>) -> (r: Result<(String, String), CmdError>)
    ensures
        match r {
            Ok(t) => target_spec(opt_string(project), opt_string(env), assignment_view(assignment)) == Ok::<(Seq<char>, Seq<char>), CmdErr>((t.0@, t.1@)),
            Err(e) => target_spec(opt_string(project), opt_string(env), assignment_view(assignment)) == Err::<(Seq<char>, Seq<char>), CmdErr>(e@),
        },
{
    let p = resolve_project(project, assignment)?;
    let e = match env {
        Some(e) => e,
        None => match assignment {
            Some(a) => {
                if crate::text::string_eq(a.project.as_str(), p.as_str()) {
                    a.env.clone()
                } else {
                    return Err(CmdError::NoEnv);
                }
            }
            None => {
                return Err(CmdError::NoEnv);
            }
        },
    };
    Ok((p, e))
}

// --- export ---------------------------------------------------------------

/// The values of an environment for export: raw, or each resolved in key
/// order; the first key that fails to resolve decides the error.
pub open spec fn export_entries(s: StoreModel, project: Seq<char>, env: Seq<char>, vals: SecretsModel, raw: bool) -> Result<SecretsModel, RefError>
    decreases vals.len(),
{
    if vals.len() == 0 {
        Ok(Seq::empty())
    } else {
        match export_entries(s, project, env, vals.drop_last(), raw) {
            Err(e) => Err(e),
            Ok(acc) => {
                let k = vals.last().0;
                if raw {
                    Ok(insert_entry(acc, k, vals.last().1))
                } else {
                    match resolved_at(s, project, env, k) {
                        Ok(v) => Ok(insert_entry(acc, k, v)),
                        Err(e) => Err(e),
                    }
                }
            },
        }
    }
}

/// What `export` writes: the project and environment it chose and the
/// entries, resolved unless `raw`.
pub open spec fn export_spec(s: StoreModel, project: Option<Seq<char>>, env: Option<Seq<char>>, assignment: Option<(Seq<char>, Seq<char>)>, raw: bool) -> Result<(Seq<char>, Seq<char>, SecretsModel), CmdErr> {
    match target_project(project, assignment) {
        Err(e) => Err(e),
        Ok(pn) => match lookup(s, pn) {
            None => Err(CmdErr::ProjectNotFound(pn)),
            Some(p) => match chosen_env(p, requested_env(env, pn, assignment)) {
                None => Err(CmdErr::NoDefaultEnv(pn)),
                Some(en) => match export_entries(s, pn, en, lookup(p.2, en).unwrap(), raw) {
                    Ok(vals) => Ok((pn, en, vals)),
                    Err(e) => Err(CmdErr::Resolve(e)),
                },
            },
        },
    }
}

/// The project, environment and values to export.
#[verifier::loop_isolation(false)]
pub fn export_values(store: &Store, project: Option<String>, env: Option<String>, assignment: Option<&Assignment>, raw: bool) -> (r: Result<(String, String, IndexMap<String, String>), CmdError>)
    ensures
        match r {
            Ok(t) => export_spec(store@, opt_string(project), opt_string(env), assignment_view(assignment), raw)
                == Ok::<(Seq<char>, Seq<char>, SecretsModel), CmdErr>((t.0@, t.1@, secret_entries(t.2))),
            Err(e) => export_spec(store@, opt_string(project), opt_string(env), assignment_view(assignment), raw)
                == Err::<(Seq<char>, Seq<char>, SecretsModel), CmdErr>(e@),
        },
{
    let pn = resolve_project(project, assignment)?;
    let proj = match store.project(pn.as_str()) {
        Some(p) => p,
        None => {
            return Err(CmdError::ProjectNotFound(pn));
        }
    };
    let requested: Option<String> = match env {
        Some(e) => Some(e),
        None => match assignment {
            Some(a) => if crate::text::string_eq(a.project.as_str(), pn.as_str()) {
                Some(a.env.clone())
            } else {
                None
            },
            None => None,
        },
    };
    assert(opt_string(requested) == requested_env(opt_string(env), pn@, assignment_view(assignment)));
    let en: String = match &requested {
        Some(r) => match proj.resolve_env(Some(r.as_str())) {
            Some(x) => x.to_owned(),
            None => {
                return Err(CmdError::NoDefaultEnv(pn));
            }
        },
        None => match proj.resolve_env(None) {
            Some(x) => x.to_owned(),
            None => {
                return Err(CmdError::NoDefaultEnv(pn));
            }
        },
    };
    assert(chosen_env(proj@, opt_string(requested)) == Some(en@));
    assert(lookup(store@, pn@) == Some(proj@));
    assert(target_project(opt_string(project), assignment_view(assignment)) == Ok::<Seq<char>, CmdErr>(pn@));
    proof {
        lemma_chosen_env_present(proj@, opt_string(requested));
        lemma_find_key(proj@.2, en@);
    }
    let environment = envs_get(&proj.environments, en.as_str()).unwrap();
    let ghost vals = environment@;
    let n = secrets_len(&environment.values);
    let mut out = secrets_new();
    let mut i: usize = 0;
    while i < n
        invariant
            i <= n == vals.len(),
            vals == secret_entries(environment.values),
            export_entries(store@, pn@, en@, vals.take(i as int), raw) == Ok::<SecretsModel, RefError>(secret_entries(out)),
        decreases n - i,
    {
        let (k, v) = secrets_get_index(&environment.values, i).unwrap();
        assert(vals.take(i + 1).drop_last() =~= vals.take(i as int));
        assert(vals.take(i + 1).last() == vals[i as int]);
        let value = if raw {
            v.clone()
        } else {
            match resolve_at(store, pn.as_str(), en.as_str(), k.as_str()) {
                Ok(t) => t,
                Err(e) => {
                    proof {
                        assert(k@ == vals[i as int].0);
                        assert(resolved_at(store@, pn@, en@, k@) == Err::<Seq<char>, RefError>(e@));
                        assert(export_entries(store@, pn@, en@, vals.take(i + 1), raw) == Err::<SecretsModel, RefError>(e@));
                        lemma_export_entries_err(store@, pn@, en@, vals, raw, i as int + 1);
                    }
                    return Err(CmdError::Resolve(e));
                }
            }
        };
        secrets_insert(&mut out, k.clone(), value);
        i = i + 1;
    }
    assert(vals.take(n as int) =~= vals);
    Ok((pn, en, out))
}

/// The environment a project uses is one of its environments.
pub proof fn lemma_chosen_env_present(p: ProjectModel, requested: Option<Seq<char>>)
    ensures
        chosen_env(p, requested) matches Some(n) ==> has_key(p.2, n),
{
    if requested is None && !(p.0 is Some && has_key(p.2, p.0.unwrap())) && p.2.len() == 1 {
        assert(p.2[0].0 == p.2[0].0);
    }
}

/// Once a prefix of the entries fails to export, so do all of them.
proof fn lemma_export_entries_err(s: StoreModel, p: Seq<char>, e: Seq<char>, vals: SecretsModel, raw: bool, i: int)
    requires
        0 <= i <= vals.len(),
        export_entries(s, p, e, vals.take(i), raw) is Err,
    ensures
        export_entries(s, p, e, vals, raw) == export_entries(s, p, e, vals.take(i), raw),
    decreases vals.len() - i,
{
    if i < vals.len() {
        assert(vals.take(i + 1).drop_last() =~= vals.take(i));
        lemma_export_entries_err(s, p, e, vals, raw, i + 1);
    } else {
        assert(vals.take(i) =~= vals);
    }
}


// --- import ---------------------------------------------------------------

/// The store with `project` and its environment `env` present: missing ones
/// are created, and `env` becomes the default of a project without one.
pub open spec fn prepared(s: StoreModel, project: Seq<char>, env: Seq<char>) -> StoreModel {
    let p = match lookup(s, project) {
        Some(p) => p,
        None => empty_project(),
    };
    insert_entry(
        s,
        project,
        (
            if p.0 is None { Some(env) } else { p.0 },
            p.1,
            if has_key(p.2, env) { p.2 } else { p.2.push((env, Seq::empty())) },
        ),
    )
}

/// The secrets of `project/env`.
pub open spec fn env_values(s: StoreModel, project: Seq<char>, env: Seq<char>) -> SecretsModel {
    lookup(lookup(s, project).unwrap().2, env).unwrap()
}

/// The store with the secrets of `project/env` replaced by `vals`.
pub open spec fn with_values(s: StoreModel, project: Seq<char>, env: Seq<char>, vals: SecretsModel) -> StoreModel {
    let p = lookup(s, project).unwrap();
    insert_entry(s, project, (p.0, p.1, insert_entry(p.2, env, vals)))
}

/// Merging imported entries into existing ones: new keys are added (and
/// counted), keys whose value differs are set aside as conflicts, equal ones
/// are left alone.
pub open spec fn merged(existing: SecretsModel, parsed: SecretsModel) -> (SecretsModel, nat, Seq<(Seq<char>, Seq<char>)>)
    decreases parsed.len(),
{
    if parsed.len() == 0 {
        (existing, 0, Seq::empty())
    } else {
        let r = merged(existing, parsed.drop_last());
        let k = parsed.last().0;
        let v = parsed.last().1;
        match lookup(r.0, k) {
            None => (insert_entry(r.0, k, v), r.1 + 1, r.2),
            Some(o) => if o != v {
                (r.0, r.1, r.2.push((k, v)))
            } else {
                r
            },
        }
    }
}

proof fn lemma_prepared(s: StoreModel, project: Seq<char>, env: Seq<char>)
    ensures
        lookup(prepared(s, project, env), project) is Some,
        lookup(lookup(prepared(s, project, env), project).unwrap().2, env) is Some,
{
    let p = match lookup(s, project) {
        Some(p) => p,
        None => empty_project(),
    };
    let envs = if has_key(p.2, env) { p.2 } else { p.2.push((env, Seq::empty())) };
    crate::entries::lemma_insert_entry(s, project, (if p.0 is None { Some(env) } else { p.0 }, p.1, envs));
    lemma_find_key(p.2, env);
    lemma_find_key(envs, env);
    if !has_key(p.2, env) {
        assert(envs[p.2.len() as int].0 == env);
    }
}

/// Make sure `project/env` exists, as an import does before loading values.
pub fn prepare_target(store: &mut Store, project: &str, env: &str)
    ensures
        final(store)@ == prepared(old(store)@, project@, env@),
        lookup(final(store)@, project@) is Some,
        lookup(lookup(final(store)@, project@).unwrap().2, env@) is Some,
{
    let ghost s0 = store@;
    proof {
        lemma_find_key(s0, project@);
        lemma_prepared(s0, project@, env@);
    }
    if projects_get(&store.projects, project).is_none() {
        projects_insert(&mut store.projects, project.to_owned(), Project::default());
    }
    proof {
        crate::entries::lemma_insert_entry(s0, project@, empty_project());
    }
    let p = store.project_mut(project).unwrap();
    let ghost p1 = p@;
    if p.default_env.is_none() {
        p.default_env = Some(env.to_owned());
    }
    proof {
        lemma_find_key(p1.2, env@);
    }
    if envs_get(&p.environments, env).is_none() {
        envs_insert(&mut p.environments, env.to_owned(), Environment::default());
    }
    proof {
        if lookup(s0, project@) is None {
            lemma_insert_twice(s0, project@, empty_project(), p@);
        } else {
            lemma_insert_same(s0, project@, p1);
        }
    }
}

/// Replace the secrets of `project/env` (created when missing) by `parsed`;
/// returns how many were loaded.
pub fn import_replace(store: &mut Store, project: &str, env: &str, parsed: &IndexMap<String, String>) -> (n: usize)
    ensures
        final(store)@ == with_values(prepared(old(store)@, project@, env@), project@, env@, secret_entries(*parsed)),
        n == secret_entries(*parsed).len(),
{
    prepare_target(store, project, env);
    let p = store.project_mut(project).unwrap();
    let e = envs_get_mut(&mut p.environments, env).unwrap();
    e.values = secrets_clone(parsed);
    secrets_len(parsed)
}

/// Merge `parsed` into `project/env` (created when missing): new keys are
/// added, keys with a different value are returned as conflicts for the
/// caller to settle. Returns the number added and the conflicts in order.
pub fn import_merge(store: &mut Store, project: &str, env: &str, parsed: &IndexMap<String, String>) -> (r: (usize, Vec<(String, String)>))
    ensures
        ({
            let m = merged(env_values(prepared(old(store)@, project@, env@), project@, env@), secret_entries(*parsed));
            &&& final(store)@ == with_values(prepared(old(store)@, project@, env@), project@, env@, m.0)
            &&& r.0 == m.1
            &&& r.1@.map_values(|c: (String, String)| (c.0@, c.1@)) == m.2
        }),
{
    prepare_target(store, project, env);
    let p = store.project_mut(project).unwrap();
    let e = envs_get_mut(&mut p.environments, env).unwrap();
    let ghost existing = e@;
    let ghost ps = secret_entries(*parsed);
    let n = secrets_len(parsed);
    let mut added: usize = 0;
    let mut conflicts: Vec<(String, String)> = Vec::new();
    let mut i: usize = 0;
    while i < n
        invariant
            i <= n == ps.len(),
            ps == secret_entries(*parsed),
            ({
                let m = merged(existing, ps.take(i as int));
                &&& e@ == m.0
                &&& added == m.1
                &&& conflicts@.map_values(|c: (String, String)| (c.0@, c.1@)) == m.2
            }),
            added <= i,
        decreases n - i,
    {
        let (k, v) = secrets_get_index(parsed, i).unwrap();
        assert(ps.take(i + 1).drop_last() =~= ps.take(i as int));
        assert(ps.take(i + 1).last() == ps[i as int]);
        let ghost before = conflicts@;
        match secrets_get(&e.values, k.as_str()) {
            None => {
                secrets_insert(&mut e.values, k.clone(), v.clone());
                added = added + 1;
            }
            Some(old) => {
                if !crate::text::string_eq(old.as_str(), v.as_str()) {
                    conflicts.push((k.clone(), v.clone()));
                    assert(conflicts@.map_values(|c: (String, String)| (c.0@, c.1@)) =~= before.map_values(
                        |c: (String, String)| (c.0@, c.1@),
                    ).push((k@, v@)));
                }
            }
        }
        i = i + 1;
    }
    assert(ps.take(n as int) =~= ps);
    (added, conflicts)
}

/// What the user may answer about one conflicting key.
pub enum ConflictChoice {
    Keep,
    Overwrite,
    OverwriteAll,
    Stop,
}

/// What to do with one conflicting key.
pub enum ConflictAction {
    /// Overwrite this key.
    Update,
    /// Keep the existing value.
    Skip,
    /// Overwrite this key and every later one without asking.
    UpdateAll,
    /// Leave this and every later key as they are.
    Stop,
}

/// Whether the user must be asked about a conflict: only when input is
/// interactive and overwriting was not already chosen for all.
pub fn needs_prompt(overwrite_rest: bool, interactive: bool) -> (b: bool)
    ensures
        b == (!overwrite_rest && interactive),
{
    !overwrite_rest && interactive
}

/// The decision about one conflicting key (see [`conflict_action`]).
pub open spec fn action_spec(overwrite_rest: bool, interactive: bool, choice: Option<ConflictChoice>) -> ConflictAction {
    if overwrite_rest {
        ConflictAction::Update
    } else if !interactive {
        ConflictAction::Skip
    } else {
        match choice {
            Some(ConflictChoice::Overwrite) => ConflictAction::Update,
            Some(ConflictChoice::OverwriteAll) => ConflictAction::UpdateAll,
            Some(ConflictChoice::Stop) => ConflictAction::Stop,
            _ => ConflictAction::Skip,
        }
    }
}

/// The decision about one conflicting key: overwrite when all are to be
/// overwritten; keep when input is not interactive; otherwise follow the
/// user's answer (no answer keeps).
pub fn conflict_action(overwrite_rest: bool, interactive: bool, choice: Option<ConflictChoice>) -> (a: ConflictAction)
    ensures
        a == action_spec(overwrite_rest, interactive, choice),
        overwrite_rest ==> a is Update,
        !overwrite_rest && !interactive ==> a is Skip,
        !overwrite_rest && interactive ==> match choice {
            Some(ConflictChoice::Overwrite) => a is Update,
            Some(ConflictChoice::OverwriteAll) => a is UpdateAll,
            Some(ConflictChoice::Stop) => a is Stop,
            _ => a is Skip,
        },
{
    if overwrite_rest {
        ConflictAction::Update
    } else if !interactive {
        ConflictAction::Skip
    } else {
        match choice {
            Some(ConflictChoice::Overwrite) => ConflictAction::Update,
            Some(ConflictChoice::OverwriteAll) => ConflictAction::UpdateAll,
            Some(ConflictChoice::Stop) => ConflictAction::Stop,
            _ => ConflictAction::Skip,
        }
    }
}


/// How far the handling of an import's conflicting keys has come.
pub struct ImportProgress {
    /// Every later conflict is overwritten without asking.
    pub overwrite_rest: bool,
    /// Keys overwritten so far.
    pub updated: usize,
    /// Keys kept so far.
    pub skipped: usize,
    /// The user chose to stop: later conflicts are left alone.
    pub stopped: bool,
}

/// The progress before the first conflict: overwrite all when `overwrite`.
pub fn import_progress(overwrite: bool) -> (p: ImportProgress)
    ensures
        p == (ImportProgress { overwrite_rest: overwrite, updated: 0, skipped: 0, stopped: false }),
{
    ImportProgress { overwrite_rest: overwrite, updated: 0, skipped: 0, stopped: false }
}

/// Whether an action writes the new value.
pub open spec fn action_writes(a: ConflictAction) -> bool {
    a is Update || a is UpdateAll
}

/// The progress after acting on one conflict.
pub open spec fn progressed(p: ImportProgress, a: ConflictAction) -> ImportProgress {
    match a {
        ConflictAction::Update => ImportProgress { updated: (p.updated + 1) as usize, ..p },
        ConflictAction::UpdateAll => ImportProgress { overwrite_rest: true, updated: (p.updated + 1) as usize, ..p },
        ConflictAction::Skip => ImportProgress { skipped: (p.skipped + 1) as usize, ..p },
        ConflictAction::Stop => ImportProgress { stopped: true, ..p },
    }
}

/// Handle one conflicting key of an import: decide (from the progress, whether
/// input is interactive, and the user's answer if one was asked for), write
/// the new value when the decision says so, and count.
pub fn resolve_conflict(
    store: &mut Store,
    project: &str,
    env: &str,
    progress: &mut ImportProgress,
    key: String,
    value: String,
    interactive: bool,
    choice: Option<ConflictChoice>,
) -> (r: Result<(), CmdError>)
    requires
        old(progress).updated < usize::MAX,
        old(progress).skipped < usize::MAX,
    ensures
        action_writes(action_spec(old(progress).overwrite_rest, interactive, choice)) ==> outcome(
            r,
            old(store)@,
            final(store)@,
            set_secret_spec(old(store)@, project@, env@, key@, value@),
        ),
        !action_writes(action_spec(old(progress).overwrite_rest, interactive, choice)) ==> r is Ok && final(store)@ == old(store)@,
        r is Ok ==> *final(progress) == progressed(*old(progress), action_spec(old(progress).overwrite_rest, interactive, choice)),
        r is Err ==> *final(progress) == *old(progress),
{
    let a = conflict_action(progress.overwrite_rest, interactive, choice);
    match a {
        ConflictAction::Update => {
            set_secret(store, project, env, key, value)?;
            progress.updated = progress.updated + 1;
        },
        ConflictAction::UpdateAll => {
            set_secret(store, project, env, key, value)?;
            progress.overwrite_rest = true;
            progress.updated = progress.updated + 1;
        },
        ConflictAction::Skip => {
            progress.skipped = progress.skipped + 1;
        },
        ConflictAction::Stop => {
            progress.stopped = true;
        },
    }
    Ok(())
}

/// The secrets after each conflicting key, in order, is overwritten with its
/// imported value.
pub open spec fn overwritten(vals: SecretsModel, conflicts: Seq<(Seq<char>, Seq<char>)>) -> SecretsModel
    decreases conflicts.len(),
{
    if conflicts.len() == 0 {
        vals
    } else {
        insert_entry(overwritten(vals, conflicts.drop_last()), conflicts.last().0, conflicts.last().1)
    }
}

/// What an import that asks nothing leaves in the store: the target is
/// created when missing; with `replace` its secrets become the imported ones;
/// otherwise new keys are added after the existing ones, and keys whose value
/// differs take the imported value only with `overwrite`.
pub open spec fn unattended_import(
    s: StoreModel,
    project: Seq<char>,
    env: Seq<char>,
    parsed: SecretsModel,
    replace: bool,
    overwrite: bool,
) -> StoreModel {
    let t = prepared(s, project, env);
    if replace {
        with_values(t, project, env, parsed)
    } else {
        let m = merged(env_values(t, project, env), parsed);
        with_values(t, project, env, if overwrite { overwritten(m.0, m.2) } else { m.0 })
    }
}

/// How many keys an import added, overwrote and kept.
pub struct ImportCounts {
    pub added: usize,
    pub updated: usize,
    pub skipped: usize,
}

proof fn lemma_set_in_values(t: StoreModel, project: Seq<char>, env: Seq<char>, vals: SecretsModel, k: Seq<char>, v: Seq<char>)
    requires
        lookup(t, project) is Some,
        lookup(lookup(t, project).unwrap().2, env) is Some,
    ensures
        set_secret_spec(with_values(t, project, env, vals), project, env, k, v) == Ok::<StoreModel, CmdErr>(
            with_values(t, project, env, insert_entry(vals, k, v)),
        ),
{
    let p = lookup(t, project).unwrap();
    let w = with_values(t, project, env, vals);
    let pe = (p.0, p.1, insert_entry(p.2, env, vals));
    crate::entries::lemma_insert_entry(t, project, pe);
    crate::entries::lemma_insert_entry(p.2, env, vals);
    assert(lookup(w, project) == Some(pe));
    lemma_insert_twice(t, project, pe, (p.0, p.1, insert_entry(insert_entry(p.2, env, vals), env, insert_entry(vals, k, v))));
    lemma_insert_twice(p.2, env, vals, insert_entry(vals, k, v));
}

/// Import `parsed` into `project/env` without asking anything, as when input
/// is not interactive: see [`unattended_import`]. Returns the counts.
pub fn import_unattended(
    store: &mut Store,
    project: &str,
    env: &str,
    parsed: &IndexMap<String, String>,
    replace: bool,
    overwrite: bool,
) -> (c: ImportCounts)
    ensures
        final(store)@ == unattended_import(old(store)@, project@, env@, secret_entries(*parsed), replace, overwrite),
        replace ==> c.added == secret_entries(*parsed).len() && c.updated == 0 && c.skipped == 0,
        !replace ==> ({
            let m = merged(env_values(prepared(old(store)@, project@, env@), project@, env@), secret_entries(*parsed));
            &&& c.added == m.1
            &&& c.updated == (if overwrite { m.2.len() } else { 0 })
            &&& c.skipped == (if overwrite { 0 } else { m.2.len() })
        }),
{
    let ghost s0 = store@;
    let ghost t = prepared(s0, project@, env@);
    proof {
        lemma_prepared(s0, project@, env@);
    }
    if replace {
        let n = import_replace(store, project, env, parsed);
        return ImportCounts { added: n, updated: 0, skipped: 0 };
    }
    let (added, conflicts) = import_merge(store, project, env, parsed);
    let ghost m = merged(env_values(t, project@, env@), secret_entries(*parsed));
    let ghost cs = conflicts@.map_values(|c: (String, String)| (c.0@, c.1@));
    let mut progress = import_progress(overwrite);
    let mut i: usize = 0;
    assert(cs.take(0) =~= Seq::<(Seq<char>, Seq<char>)>::empty());
    while i < conflicts.len()
        invariant
            i <= conflicts.len(),
            cs == conflicts@.map_values(|c: (String, String)| (c.0@, c.1@)),
            cs == m.2,
            lookup(t, project@) is Some,
            lookup(lookup(t, project@).unwrap().2, env@) is Some,
            store@ == with_values(t, project@, env@, if overwrite { overwritten(m.0, cs.take(i as int)) } else { m.0 }),
            progress.overwrite_rest == overwrite,
            !progress.stopped,
            progress.updated == (if overwrite { i } else { 0 }),
            progress.skipped == (if overwrite { 0 } else { i }),
        decreases conflicts.len() - i,
    {
        let k = conflicts[i].0.clone();
        let v = conflicts[i].1.clone();
        assert(cs[i as int] == (k@, v@));
        assert(cs.take(i + 1).drop_last() =~= cs.take(i as int));
        assert(cs.take(i + 1).last() == cs[i as int]);
        proof {
            if overwrite {
                lemma_set_in_values(t, project@, env@, overwritten(m.0, cs.take(i as int)), k@, v@);
            }
        }
        let _r = resolve_conflict(store, project, env, &mut progress, k, v, false, None);
        i = i + 1;
    }
    assert(cs.take(conflicts.len() as int) =~= cs);
    ImportCounts { added, updated: progress.updated, skipped: progress.skipped }
}

// --- output formats -------------------------------------------------------

/// The format a file name asks for, by its extension.
pub open spec fn format_for(path: Seq<char>) -> Option<Format> {
    match extension(path) {
        Some(e) => if e == "json"@ {
            Some(Format::Json)
        } else if e == "toml"@ {
            Some(Format::Toml)
        } else if e == "sh"@ || e == "bash"@ || e == "zsh"@ {
            Some(Format::Shell)
        } else if e == "env"@ {
            Some(Format::Env)
        } else {
            None
        },
        None => None,
    }
}

/// Guess an output format from a file extension.
pub fn format_from_path(path: &str) -> (r: Option<Format>)
    ensures
        r == format_for(path@),
{
    let e = match path_extension(path) {
        Some(e) => e,
        None => {
            return None;
        }
    };
    let e = e.as_str();
    if crate::text::string_eq(e, "json") {
        Some(Format::Json)
    } else if crate::text::string_eq(e, "toml") {
        Some(Format::Toml)
    } else if crate::text::string_eq(e, "sh") || crate::text::string_eq(e, "bash") || crate::text::string_eq(e, "zsh") {
        Some(Format::Shell)
    } else if crate::text::string_eq(e, "env") {
        Some(Format::Env)
    } else {
        None
    }
}

/// A `KEY=VALUE` assignment, the value quoted as in a `.env` file.
pub open spec fn kv_line_spec(k: Seq<char>, v: Seq<char>) -> Seq<char> {
    k + seq!['='] + quote(v)
}

/// Shell text: one `export KEY=VALUE` line per entry.
pub open spec fn shell_text(es: SecretsModel) -> Seq<char>
    decreases es.len(),
{
    if es.len() == 0 {
        Seq::empty()
    } else {
        shell_text(es.drop_last()) + "export "@ + kv_line_spec(es.last().0, es.last().1) + seq!['\n']
    }
}

#[verifier::external_type_specification]
#[verifier::external_body]
pub struct ExJsonError(serde_json::Error);

#[verifier::external_type_specification]
#[verifier::external_body]
pub struct ExTomlError(toml::ser::Error);

/// The text `serde_json::to_string_pretty` gives for an ordered string map.
pub uninterp spec fn json_pretty(entries: SecretsModel) -> Seq<char>;

/// The text `toml::to_string_pretty` gives for an ordered string map.
pub uninterp spec fn toml_pretty(entries: SecretsModel) -> Seq<char>;

/// `serde_json::to_string_pretty` on the map: it succeeds (a map with string
/// keys and string values writes into a `Vec` buffer, which cannot fail), and
/// its text is a function of the entries, in order.
#[verifier::external_body]
fn to_json_pretty(values: &IndexMap<String, String>) -> (r: Result<String, serde_json::Error>)
    ensures
        r is Ok,
        r matches Ok(t) ==> t@ == json_pretty(secret_entries(*values)),
{
    serde_json::to_string_pretty(values)
}

/// `toml::to_string_pretty` on the map: it succeeds (a map with string keys
/// and string values becomes a top-level table of strings, which the
/// serializer always accepts), and its text is a function of the entries, in
/// order.
#[verifier::external_body]
fn to_toml_pretty(values: &IndexMap<String, String>) -> (r: Result<String, toml::ser::Error>)
    ensures
        r is Ok,
        r matches Ok(t) ==> t@ == toml_pretty(secret_entries(*values)),
{
    toml::to_string_pretty(values)
}

/// A `KEY=VALUE` assignment with the value quoted as needed.
pub fn kv_line(key: &str, value: &str) -> (r: String)
    ensures
        r@ == kv_line_spec(key@, value@),
{
    let mut r = String::new();
    push_str(&mut r, key);
    r.push('=');
    let q = crate::envfile::quote_str(value);
    push_str(&mut r, q.as_str());
    r
}

/// Render key/value pairs in the requested format: `.env` text, shell
/// `export` lines, pretty JSON with a final newline, or pretty TOML.
pub fn render(values: &IndexMap<String, String>, fmt: Format) -> (r: Result<String, CmdError>)
    ensures
        fmt == Format::Env ==> (r matches Ok(t) && t@ == serialized(secret_entries(*values))),
        fmt == Format::Shell ==> (r matches Ok(t) && t@ == shell_text(secret_entries(*values))),
        fmt == Format::Json ==> (r matches Ok(t) && t@ == json_pretty(secret_entries(*values)) + seq!['\n']),
        fmt == Format::Toml ==> (r matches Ok(t) && t@ == toml_pretty(secret_entries(*values))),
{
    match fmt {
        Format::Env => Ok(crate::envfile::serialize(values)),
        Format::Shell => {
            let ghost es = secret_entries(*values);
            let n = secrets_len(values);
            let mut out = String::new();
            let mut i: usize = 0;
            while i < n
                invariant
                    i <= n == es.len(),
                    es == secret_entries(*values),
                    out@ == shell_text(es.take(i as int)),
                decreases n - i,
            {
                let (k, v) = secrets_get_index(values, i).unwrap();
                let ghost o = out@;
                push_str(&mut out, "export ");
                let line = kv_line(k.as_str(), v.as_str());
                push_str(&mut out, line.as_str());
                out.push('\n');
                assert(es.take(i + 1).drop_last() =~= es.take(i as int));
                assert(es.take(i + 1).last() == es[i as int]);
                assert(out@ =~= o + "export "@ + kv_line_spec(es[i as int].0, es[i as int].1) + seq!['\n']);
                i = i + 1;
            }
            assert(es.take(n as int) =~= es);
            Ok(out)
        },
        Format::Json => match to_json_pretty(values) {
            Ok(s) => {
                let mut s = s;
                s.push('\n');
                Ok(s)
            },
            Err(_) => Err(CmdError::RenderJson),
        },
        Format::Toml => match to_toml_pretty(values) {
            Ok(s) => Ok(s),
            Err(_) => Err(CmdError::RenderToml),
        },
    }
}

/// The text of entries in a format.
pub open spec fn rendered(es: SecretsModel, fmt: Format) -> Seq<char> {
    match fmt {
        Format::Env => serialized(es),
        Format::Shell => shell_text(es),
        Format::Json => json_pretty(es) + seq!['\n'],
        Format::Toml => toml_pretty(es),
    }
}

/// The format of an export: the one asked for, else the one the file name
/// asks for, else `.env`.
pub open spec fn export_format(format: Option<Format>, file: Option<Seq<char>>) -> Format {
    match format {
        Some(f) => f,
        None => match file {
            Some(p) => match format_for(p) {
                Some(f) => f,
                None => Format::Env,
            },
            None => Format::Env,
        },
    }
}

/// The export of a project's environment as a document: the target and the
/// values as [`export_values`] gives them, then their text in the format of
/// [`export_format`]. Returns the project, the environment, the number of
/// entries and the text.
pub fn export_text(
    store: &Store,
    project: Option<String>,
    env: Option<String>,
    assignment: Option<&Assignment>,
    raw: bool,
    format: Option<Format>,
    file: Option<&str>,
) -> (r: Result<(String, String, usize, String), CmdError>)
    ensures
        match export_spec(store@, opt_string(project), opt_string(env), assignment_view(assignment), raw) {
            Ok(t) => r matches Ok(d) && d.0@ == t.0 && d.1@ == t.1 && d.2 == t.2.len() && d.3@ == rendered(
                t.2,
                export_format(format, crate::text::opt_str_view(file)),
            ),
            Err(e) => r matches Err(x) && x@ == e,
        },
{
    let (p, e, values) = export_values(store, project, env, assignment, raw)?;
    let fmt = match format {
        Some(f) => f,
        None => match file {
            Some(path) => match format_from_path(path) {
                Some(f) => f,
                None => Format::Env,
            },
            None => Format::Env,
        },
    };
    let n = secrets_len(&values);
    let text = render(&values, fmt)?;
    Ok((p, e, n, text))
}

// --- masking ----------------------------------------------------------------

/// Whether `char::is_alphanumeric` holds of `c` (Unicode `Alphabetic` or
/// `Numeric`).
pub uninterp spec fn alphanumeric(c: char) -> bool;

/// `char::is_alphanumeric`.
#[verifier::external_body]
pub(crate) fn is_alphanumeric(c: char) -> (b: bool)
    ensures
        b == alphanumeric(c),
{
    c.is_alphanumeric()
}

/// `n` bullets.
pub open spec fn bullets(n: nat) -> Seq<char>
    decreases n,
{
    if n == 0 {
        Seq::empty()
    } else {
        bullets((n - 1) as nat).push('\u{2022}')
    }
}

/// Text of `n` bullets.
pub fn bullet_text(n: usize) -> (r: String)
    ensures
        r@ == bullets(n as nat),
{
    let mut r = String::new();
    let mut i: usize = 0;
    while i < n
        invariant
            i <= n,
            r@ == bullets(i as nat),
        decreases n - i,
    {
        r.push('\u{2022}');
        i = i + 1;
    }
    r
}

/// A masked value for listings: short values become as many bullets as they
/// have characters (at least one); longer ones show at most their first two
/// characters, while those are alphanumeric, and six bullets.
pub open spec fn masked(v: Seq<char>) -> Seq<char> {
    if v.len() <= 4 {
        bullets(if v.len() == 0 { 1 } else { v.len() })
    } else {
        let visible = if !alphanumeric(v[0]) {
            Seq::empty()
        } else if !alphanumeric(v[1]) {
            seq![v[0]]
        } else {
            seq![v[0], v[1]]
        };
        visible + bullets(6)
    }
}

/// Mask a value for listing.
pub fn mask(value: &str) -> (r: String)
    ensures
        r@ == masked(value@),
{
    let cs = crate::text::to_chars(value);
    let len = cs.len();
    if len <= 4 {
        return bullet_text(if len == 0 { 1 } else { len });
    }
    let mut r = String::new();
    if is_alphanumeric(cs[0]) {
        r.push(cs[0]);
        if is_alphanumeric(cs[1]) {
            r.push(cs[1]);
        }
    }
    let b = bullet_text(6);
    push_str(&mut r, b.as_str());
    r
}


// --- the setup wizard -----------------------------------------------------

/// The store after the wizard picked or created project `name`.
pub open spec fn adopt_project_spec(s: StoreModel, name: Seq<char>) -> Result<StoreModel, CmdErr> {
    if name.len() == 0 {
        Err(CmdErr::EmptyName("project"@))
    } else if has_key(s, name) {
        Ok(s)
    } else {
        Ok(s.push((name, empty_project())))
    }
}

/// The store after the wizard picked or created environment `name` of
/// `project`; a project without a default takes it as its default.
pub open spec fn adopt_env_spec(s: StoreModel, project: Seq<char>, name: Seq<char>) -> Result<StoreModel, CmdErr> {
    if name.len() == 0 {
        Err(CmdErr::EmptyName("environment"@))
    } else {
        match lookup(s, project) {
            None => Err(CmdErr::ProjectNotFound(project)),
            Some(p) => Ok(
                insert_entry(
                    s,
                    project,
                    (
                        if p.0 is None { Some(name) } else { p.0 },
                        p.1,
                        if has_key(p.2, name) { p.2 } else { p.2.push((name, Seq::empty())) },
                    ),
                ),
            ),
        }
    }
}

/// The wizard's project step: use project `name`, creating it when missing.
pub fn adopt_project(store: &mut Store, name: &str) -> (r: Result<(), CmdError>)
    ensures
        outcome(r, old(store)@, final(store)@, adopt_project_spec(old(store)@, name@)),
{
    if name.is_empty() {
        return Err(CmdError::EmptyName("project".to_owned()));
    }
    proof {
        lemma_find_key(store@, name@);
    }
    if projects_get(&store.projects, name).is_none() {
        projects_insert(&mut store.projects, name.to_owned(), Project::default());
    }
    Ok(())
}

/// The wizard's environment step: use environment `name` of `project`,
/// creating it when missing; it becomes the default of a project without one.
pub fn adopt_env(store: &mut Store, project: &str, name: &str) -> (r: Result<(), CmdError>)
    ensures
        outcome(r, old(store)@, final(store)@, adopt_env_spec(old(store)@, project@, name@)),
{
    if name.is_empty() {
        return Err(CmdError::EmptyName("environment".to_owned()));
    }
    let proj = match store.project_mut(project) {
        Some(p) => p,
        None => {
            return Err(CmdError::ProjectNotFound(project.to_owned()));
        }
    };
    proof {
        lemma_find_key(proj@.2, name@);
    }
    if envs_get(&proj.environments, name).is_none() {
        envs_insert(&mut proj.environments, name.to_owned(), Environment::default());
    }
    if proj.default_env.is_none() {
        proj.default_env = Some(name.to_owned());
    }
    Ok(())
}

// --- listings -------------------------------------------------------------

/// One environment in the overview: its name, ` *` on the default, and how
/// many secrets it holds.
pub open spec fn overview_env_line(p: ProjectModel, e: (Seq<char>, SecretsModel)) -> Seq<char> {
    "  "@ + e.0 + crate::tui::default_mark(p, e.0) + " \u{2014} "@ + crate::editor::decimal(e.1.len()) + " secrets"@
}

/// The overview lines of one project: its name, then its environments.
pub open spec fn overview_block(e: (Seq<char>, ProjectModel)) -> Seq<Seq<char>> {
    seq![e.0] + e.1.2.map_values(|x: (Seq<char>, SecretsModel)| overview_env_line(e.1, x))
}

/// The overview lines of a list of projects.
pub open spec fn overview_rows(s: StoreModel) -> Seq<Seq<char>>
    decreases s.len(),
{
    if s.len() == 0 {
        Seq::empty()
    } else {
        overview_rows(s.drop_last()) + overview_block(s.last())
    }
}

/// The overview of the whole store: every project and its environments, or
/// a hint when there are no projects.
pub open spec fn overview(s: StoreModel) -> Seq<Seq<char>> {
    if s.len() == 0 {
        seq!["No projects yet. Create one with `devsecrets project create <name>`."@]
    } else {
        overview_rows(s)
    }
}

/// The lines that list the whole store.
pub fn list_all(store: &Store) -> (lines: Vec<String>)
    ensures
        lines@.map_values(|l: String| l@) == overview(store@),
{
    let mut lines: Vec<String> = Vec::new();
    let n = crate::collections::projects_len(&store.projects);
    if n == 0 {
        lines.push("No projects yet. Create one with `devsecrets project create <name>`.".to_owned());
        assert(lines@.map_values(|l: String| l@) =~= overview(store@));
        return lines;
    }
    let mut i: usize = 0;
    while i < n
        invariant
            i <= n == store@.len(),
            lines@.map_values(|l: String| l@) == overview_rows(store@.take(i as int)),
        decreases n - i,
    {
        let (name, p) = crate::collections::projects_get_index(&store.projects, i).unwrap();
        let ghost before = lines@.map_values(|l: String| l@);
        lines.push(name.clone());
        let m = envs_len(&p.environments);
        let mut j: usize = 0;
        while j < m
            invariant
                j <= m == p@.2.len(),
                lines@.map_values(|l: String| l@) == before + seq![name@] + p@.2.take(j as int).map_values(
                    |x: (Seq<char>, SecretsModel)| overview_env_line(p@, x),
                ),
            decreases m - j,
        {
            let (en, e) = envs_get_index(&p.environments, j).unwrap();
            let mut line = "  ".to_owned();
            push_str(&mut line, en.as_str());
            let is_default = match &p.default_env {
                Some(d) => crate::text::string_eq(d.as_str(), en.as_str()),
                None => false,
            };
            if is_default {
                push_str(&mut line, " *");
            }
            push_str(&mut line, " \u{2014} ");
            let count = crate::editor::decimal_text(secrets_len(&e.values) as u64);
            push_str(&mut line, count.as_str());
            push_str(&mut line, " secrets");
            proof {
                if !is_default {
                    assert(crate::tui::default_mark(p@, en@) =~= Seq::<char>::empty());
                }
            }
            assert(line@ =~= overview_env_line(p@, p@.2[j as int]));
            let ghost mid = lines@.map_values(|l: String| l@);
            lines.push(line);
            assert(lines@.map_values(|l: String| l@) =~= mid.push(overview_env_line(p@, p@.2[j as int])));
            assert(p@.2.take(j + 1).map_values(|x: (Seq<char>, SecretsModel)| overview_env_line(p@, x))
                =~= p@.2.take(j as int).map_values(|x: (Seq<char>, SecretsModel)| overview_env_line(p@, x)).push(
                overview_env_line(p@, p@.2[j as int]),
            ));
            j = j + 1;
        }
        assert(p@.2.take(m as int) =~= p@.2);
        assert(store@.take(i + 1).drop_last() =~= store@.take(i as int));
        assert(store@.take(i + 1).last() == store@[i as int]);
        assert(lines@.map_values(|l: String| l@) =~= overview_rows(store@.take(i as int)) + overview_block(store@[i as int]));
        i = i + 1;
    }
    assert(store@.take(n as int) =~= store@);
    lines
}

/// One environment in a project's listing: its name, ` (default)` on the
/// default, and how many secrets it holds.
pub open spec fn env_listing_line(p: ProjectModel, e: (Seq<char>, SecretsModel)) -> Seq<char> {
    e.0 + (if p.0 == Some(e.0) {
        " (default)"@
    } else {
        Seq::empty()
    }) + " \u{2014} "@ + crate::editor::decimal(e.1.len()) + " secrets"@
}

/// The lines that list the environments of a project.
pub fn env_listing(project: &Project) -> (lines: Vec<String>)
    ensures
        lines@.map_values(|l: String| l@) == project@.2.map_values(
            |x: (Seq<char>, SecretsModel)| env_listing_line(project@, x),
        ),
{
    let mut lines: Vec<String> = Vec::new();
    let m = envs_len(&project.environments);
    let mut j: usize = 0;
    while j < m
        invariant
            j <= m == project@.2.len(),
            lines@.map_values(|l: String| l@) == project@.2.take(j as int).map_values(
                |x: (Seq<char>, SecretsModel)| env_listing_line(project@, x),
            ),
        decreases m - j,
    {
        let (en, e) = envs_get_index(&project.environments, j).unwrap();
        let mut line = en.clone();
        let is_default = match &project.default_env {
            Some(d) => crate::text::string_eq(d.as_str(), en.as_str()),
            None => false,
        };
        if is_default {
            push_str(&mut line, " (default)");
        }
        push_str(&mut line, " \u{2014} ");
        let count = crate::editor::decimal_text(secrets_len(&e.values) as u64);
        push_str(&mut line, count.as_str());
        push_str(&mut line, " secrets");
        assert(line@ =~= env_listing_line(project@, project@.2[j as int]));
        let ghost mid = lines@.map_values(|l: String| l@);
        lines.push(line);
        assert(lines@.map_values(|l: String| l@) =~= mid.push(env_listing_line(project@, project@.2[j as int])));
        assert(project@.2.take(j + 1).map_values(|x: (Seq<char>, SecretsModel)| env_listing_line(project@, x))
            =~= project@.2.take(j as int).map_values(|x: (Seq<char>, SecretsModel)| env_listing_line(project@, x)).push(
            env_listing_line(project@, project@.2[j as int]),
        ));
        j = j + 1;
    }
    assert(project@.2.take(m as int) =~= project@.2);
    lines
}

/// One secret in a listing: `KEY=value`, the value masked when asked.
pub open spec fn secret_listing_line(masking: bool, e: (Seq<char>, Seq<char>)) -> Seq<char> {
    e.0 + seq!['='] + (if masking {
        masked(e.1)
    } else {
        e.1
    })
}

/// The lines that list the secrets of an environment.
pub fn secret_listing(env: &Environment, masking: bool) -> (lines: Vec<String>)
    ensures
        lines@.map_values(|l: String| l@) == env@.map_values(|x: (Seq<char>, Seq<char>)| secret_listing_line(masking, x)),
{
    let mut lines: Vec<String> = Vec::new();
    let m = secrets_len(&env.values);
    let mut j: usize = 0;
    while j < m
        invariant
            j <= m == env@.len(),
            lines@.map_values(|l: String| l@) == env@.take(j as int).map_values(
                |x: (Seq<char>, Seq<char>)| secret_listing_line(masking, x),
            ),
        decreases m - j,
    {
        let (k, v) = secrets_get_index(&env.values, j).unwrap();
        let mut line = k.clone();
        line.push('=');
        if masking {
            let mv = mask(v.as_str());
            push_str(&mut line, mv.as_str());
        } else {
            push_str(&mut line, v.as_str());
        }
        assert(line@ =~= secret_listing_line(masking, env@[j as int]));
        let ghost mid = lines@.map_values(|l: String| l@);
        lines.push(line);
        assert(lines@.map_values(|l: String| l@) =~= mid.push(secret_listing_line(masking, env@[j as int])));
        assert(env@.take(j + 1).map_values(|x: (Seq<char>, Seq<char>)| secret_listing_line(masking, x))
            =~= env@.take(j as int).map_values(|x: (Seq<char>, Seq<char>)| secret_listing_line(masking, x)).push(
            secret_listing_line(masking, env@[j as int]),
        ));
        j = j + 1;
    }
    assert(env@.take(m as int) =~= env@);
    lines
}

/// The lines of `secret list` for `project/env`: every secret as `KEY=value`,
/// in order, the value shown as stored unless `mask` asks for it masked.
pub open spec fn secret_list_spec(s: StoreModel, project: Seq<char>, env: Seq<char>, mask: bool) -> Result<Seq<Seq<char>>, CmdErr> {
    match lookup(s, project) {
        None => Err(CmdErr::ProjectNotFound(project)),
        Some(p) => match lookup(p.2, env) {
            None => Err(CmdErr::EnvNotFound(env, project)),
            Some(e) => Ok(e.map_values(|x: (Seq<char>, Seq<char>)| secret_listing_line(mask, x))),
        },
    }
}

/// List the secrets of `project/env`, values shown as stored unless `mask`.
pub fn list_secrets(store: &Store, project: &str, env: &str, mask: bool) -> (r: Result<Vec<String>, CmdError>)
    ensures
        match secret_list_spec(store@, project@, env@, mask) {
            Ok(ls) => r matches Ok(lines) && lines@.map_values(|l: String| l@) == ls,
            Err(e) => r matches Err(x) && x@ == e,
        },
{
    let proj = match store.project(project) {
        Some(p) => p,
        None => {
            return Err(CmdError::ProjectNotFound(project.to_owned()));
        },
    };
    match envs_get(&proj.environments, env) {
        Some(e) => Ok(secret_listing(e, mask)),
        None => Err(CmdError::EnvNotFound(env.to_owned(), project.to_owned())),
    }
}


// --- laws of the store commands ---------------------------------------------

/// Law: after setting secret `key` of `project/env` to `value`, reading it
/// gives `value` back, raw and unresolved.
pub proof fn law_set_then_get(s: StoreModel, project: Seq<char>, env: Seq<char>, key: Seq<char>, value: Seq<char>)
    requires
        set_secret_spec(s, project, env, key, value) is Ok,
    ensures
        store_value(set_secret_spec(s, project, env, key, value)->Ok_0, project, env, key) == Some(value),
        get_secret_spec(set_secret_spec(s, project, env, key, value)->Ok_0, project, env, key, true) == Ok::<
            Seq<char>,
            CmdErr,
        >(value),
{
    let p = lookup(s, project).unwrap();
    let e = lookup(p.2, env).unwrap();
    let e2 = insert_entry(e, key, value);
    let envs2 = insert_entry(p.2, env, e2);
    crate::entries::lemma_insert_entry(s, project, (p.0, p.1, envs2));
    crate::entries::lemma_insert_entry(p.2, env, e2);
    crate::entries::lemma_insert_entry(e, key, value);
}

/// Law: setting one secret leaves every other secret of the store as it was.
pub proof fn law_set_keeps_others(
    s: StoreModel,
    project: Seq<char>,
    env: Seq<char>,
    key: Seq<char>,
    value: Seq<char>,
    p2: Seq<char>,
    e2: Seq<char>,
    k2: Seq<char>,
)
    requires
        set_secret_spec(s, project, env, key, value) is Ok,
        (p2, e2, k2) != (project, env, key),
    ensures
        store_value(set_secret_spec(s, project, env, key, value)->Ok_0, p2, e2, k2) == store_value(s, p2, e2, k2),
{
    let p = lookup(s, project).unwrap();
    let e = lookup(p.2, env).unwrap();
    let ex = insert_entry(e, key, value);
    let envs2 = insert_entry(p.2, env, ex);
    crate::entries::lemma_insert_entry(s, project, (p.0, p.1, envs2));
    crate::entries::lemma_insert_entry(p.2, env, ex);
    crate::entries::lemma_insert_entry(e, key, value);
}

/// Law: after deleting secret `key` of `project/env`, it is gone.
pub proof fn law_delete_then_missing(s: StoreModel, project: Seq<char>, env: Seq<char>, key: Seq<char>)
    requires
        delete_secret_spec(s, project, env, key) is Ok,
    ensures
        store_value(delete_secret_spec(s, project, env, key)->Ok_0, project, env, key) is None,
        get_secret_spec(delete_secret_spec(s, project, env, key)->Ok_0, project, env, key, true) == Err::<
            Seq<char>,
            CmdErr,
        >(CmdErr::SecretNotFound(key, project, env)),
{
    let p = lookup(s, project).unwrap();
    let e = lookup(p.2, env).unwrap();
    let ex = remove_key(e, key);
    let envs2 = insert_entry(p.2, env, ex);
    crate::entries::lemma_insert_entry(s, project, (p.0, p.1, envs2));
    crate::entries::lemma_insert_entry(p.2, env, ex);
    lemma_remove_key(e, key);
}

/// Law: deleting a secret leaves every other secret of the store as it was.
pub proof fn law_delete_keeps_others(
    s: StoreModel,
    project: Seq<char>,
    env: Seq<char>,
    key: Seq<char>,
    p2: Seq<char>,
    e2: Seq<char>,
    k2: Seq<char>,
)
    requires
        delete_secret_spec(s, project, env, key) is Ok,
        (p2, e2, k2) != (project, env, key),
    ensures
        store_value(delete_secret_spec(s, project, env, key)->Ok_0, p2, e2, k2) == store_value(s, p2, e2, k2),
{
    let p = lookup(s, project).unwrap();
    let e = lookup(p.2, env).unwrap();
    let ex = remove_key(e, key);
    let envs2 = insert_entry(p.2, env, ex);
    crate::entries::lemma_insert_entry(s, project, (p.0, p.1, envs2));
    crate::entries::lemma_insert_entry(p.2, env, ex);
    lemma_remove_key(e, key);
}

/// Law: after setting a project's default environment, the default is that
/// environment, which exists; the project's environments and folder, and
/// every other project, are as they were.
pub proof fn law_set_default_names_it(s: StoreModel, project: Seq<char>, name: Seq<char>, other: Seq<char>)
    requires
        set_default_env_spec(s, project, name) is Ok,
    ensures
        ({
            let after = set_default_env_spec(s, project, name)->Ok_0;
            &&& lookup(after, project) is Some
            &&& lookup(after, project).unwrap().0 == Some(name)
            &&& has_key(lookup(after, project).unwrap().2, name)
            &&& lookup(after, project).unwrap().1 == lookup(s, project).unwrap().1
            &&& lookup(after, project).unwrap().2 == lookup(s, project).unwrap().2
            &&& other != project ==> lookup(after, other) == lookup(s, other)
        }),
{
    let p = lookup(s, project).unwrap();
    crate::entries::lemma_insert_entry(s, project, (Some(name), p.1, p.2));
}

/// Law: an export of an environment that is asked for by name exports that
/// very environment, and fails when the project does not have it (no other
/// environment is exported in its place).
pub proof fn law_export_requested_env(
    s: StoreModel,
    project: Seq<char>,
    env: Seq<char>,
    assignment: Option<(Seq<char>, Seq<char>)>,
    raw: bool,
)
    requires
        lookup(s, project) is Some,
    ensures
        export_spec(s, Some(project), Some(env), assignment, raw) matches Ok(t) ==> t.0 == project && t.1 == env,
        !has_key(lookup(s, project).unwrap().2, env) ==> export_spec(s, Some(project), Some(env), assignment, raw)
            == Err::<(Seq<char>, Seq<char>, SecretsModel), CmdErr>(CmdErr::NoDefaultEnv(project)),
{
    crate::model::law_requested_env_is_exact(lookup(s, project).unwrap(), env);
}

/// Law: a duplicated environment holds the same secrets as its source.
pub proof fn law_duplicate_copies(s: StoreModel, project: Seq<char>, from: Seq<char>, to: Seq<char>, key: Seq<char>)
    requires
        duplicate_env_spec(s, project, from, to) is Ok,
    ensures
        store_value(duplicate_env_spec(s, project, from, to)->Ok_0, project, to, key) == store_value(
            s,
            project,
            from,
            key,
        ),
        store_value(duplicate_env_spec(s, project, from, to)->Ok_0, project, from, key) == store_value(
            s,
            project,
            from,
            key,
        ),
{
    let p = lookup(s, project).unwrap();
    let e = lookup(p.2, from).unwrap();
    let envs2 = p.2.push((to, e));
    crate::entries::lemma_insert_entry(s, project, (p.0, p.1, envs2));
    crate::entries::lemma_lookup_push(p.2, to, (to, e));
    crate::entries::lemma_lookup_push(p.2, from, (to, e));
    lemma_find_key(p.2, to);
    lemma_find_key(p.2, from);
}

/// Law: a project cannot be created twice.
pub proof fn law_create_project_twice(s: StoreModel, name: Seq<char>)
    requires
        create_project_spec(s, name) is Ok,
    ensures
        create_project_spec(create_project_spec(s, name)->Ok_0, name) == Err::<StoreModel, CmdErr>(
            CmdErr::ProjectExists(name),
        ),
{
    let s2 = s.push((name, empty_project()));
    assert(s2[s.len() as int].0 == name);
}


/// Law: exporting raw values gives the environment's entries back as they
/// are, in their order.
pub proof fn law_raw_export_is_verbatim(s: StoreModel, project: Seq<char>, env: Seq<char>, vals: SecretsModel)
    requires
        crate::entries::unique_keys(vals),
    ensures
        export_entries(s, project, env, vals, true) == Ok::<SecretsModel, RefError>(vals),
    decreases vals.len(),
{
    if vals.len() > 0 {
        let d = vals.drop_last();
        assert forall|i: int, j: int| 0 <= i < j < d.len() implies (#[trigger] d[i]).0 != (#[trigger] d[j]).0 by {
            assert(d[i] == vals[i] && d[j] == vals[j]);
        }
        law_raw_export_is_verbatim(s, project, env, d);
        let last = vals.last();
        lemma_find_key(d, last.0);
        if let Some(i) = crate::entries::find_key(d, last.0) {
            assert(d[i] == vals[i]);
            assert(vals[vals.len() - 1] == last);
        }
        assert(d.push(last) =~= vals);
    } else {
        assert(vals =~= Seq::<(Seq<char>, Seq<char>)>::empty());
    }
}

} // verus!
