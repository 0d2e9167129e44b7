//! Core data model for the secret store.
//!
//! The store is a tree: projects, each holding environments, each holding
//! key/value secrets. Every level keeps insertion order, so exported `.env`
//! files stay stable and readable.

use vstd::prelude::*;
use indexmap::IndexMap;
use crate::entries::{SecretsModel, ProjectModel, StoreModel, lookup, insert_entry, has_key, lemma_find_key};
use crate::collections::{secret_entries, env_entries, project_entries, secrets_new, secrets_get, envs_new, envs_get, envs_len, envs_get_index, projects_new, projects_get, projects_get_mut, projects_len, projects_get_index};
use crate::text::{string_eq, opt_view, opt_str_view};

verus! {

/// The root of the data store.
pub struct Store {
    pub projects: IndexMap<String, Project>,
}

/// A project groups together one or more environments (instances).
pub struct Project {
    /// Name of the environment used when none is given on export.
    pub default_env: Option<String>,
    /// Working directory associated with this project.
    pub folder: Option<String>,
    pub environments: IndexMap<String, Environment>,
}

/// A single environment: an ordered set of key/value secrets.
pub struct Environment {
    pub values: IndexMap<String, String>,
    /// The declared type of each key that is not plain text.
    pub kinds: IndexMap<String, String>,
}

impl View for Environment {
    type V = SecretsModel;

    open spec fn view(&self) -> SecretsModel {
        secret_entries(self.values)
    }
}

impl View for Project {
    type V = ProjectModel;

    open spec fn view(&self) -> ProjectModel {
        (opt_view(self.default_env), opt_view(self.folder), env_entries(self.environments))
    }
}

impl View for Store {
    type V = StoreModel;

    open spec fn view(&self) -> StoreModel {
        project_entries(self.projects)
    }
}

/// The value stored at `project/env/key`.
pub open spec fn store_value(s: StoreModel, project: Seq<char>, env: Seq<char>, key: Seq<char>) -> Option<Seq<char>> {
    match lookup(s, project) {
        Some(p) => match lookup(p.2, env) {
            Some(e) => lookup(e, key),
            None => None,
        },
        None => None,
    }
}

/// Position of the first project whose folder is `dir`.
pub open spec fn find_folder(s: StoreModel, dir: Seq<char>) -> Option<int>
    decreases s.len(),
{
    if s.len() == 0 {
        None
    } else {
        match find_folder(s.drop_last(), dir) {
            Some(i) => Some(i),
            None => if s.last().1.1 == Some(dir) {
                Some(s.len() - 1)
            } else {
                None
            },
        }
    }
}

/// Which environment a project uses: the requested one when it exists, else
/// the default when it exists, else the only environment when there is
/// exactly one.
pub open spec fn chosen_env(p: ProjectModel, requested: Option<Seq<char>>) -> Option<Seq<char>> {
    match requested {
        Some(r) => if has_key(p.2, r) {
            Some(r)
        } else {
            None
        },
        None => if p.0 is Some && has_key(p.2, p.0.unwrap()) {
            p.0
        } else if p.2.len() == 1 {
            Some(p.2[0].0)
        } else {
            None
        },
    }
}

/// Law: an environment asked for by name is chosen exactly when the project
/// has it, and nothing else is chosen in its place; whatever is chosen is an
/// environment of the project.
pub proof fn law_requested_env_is_exact(p: ProjectModel, r: Seq<char>)
    ensures
        chosen_env(p, Some(r)) == (if has_key(p.2, r) { Some(r) } else { None::<Seq<char>> }),
        forall|req: Option<Seq<char>>| #[trigger] chosen_env(p, req) is Some ==> has_key(p.2, chosen_env(p, req).unwrap()),
{
    assert forall|req: Option<Seq<char>>| #[trigger] chosen_env(p, req) is Some implies has_key(p.2, chosen_env(p, req).unwrap()) by {
        if req is None && !(p.0 is Some && has_key(p.2, p.0.unwrap())) && p.2.len() == 1 {
            assert(p.2[0].0 == p.2[0].0);
        }
    }
}

pub proof fn lemma_find_folder(s: StoreModel, dir: Seq<char>)
    ensures
        match find_folder(s, dir) {
            Some(i) => 0 <= i < s.len() && s[i].1.1 == Some(dir) && forall|j: int|
                0 <= j < i ==> (#[trigger] s[j]).1.1 != Some(dir),
            None => forall|j: int| 0 <= j < s.len() ==> (#[trigger] s[j]).1.1 != Some(dir),
        },
    decreases s.len(),
{
    if s.len() > 0 {
        let p = s.drop_last();
        lemma_find_folder(p, dir);
        assert forall|j: int| 0 <= j < s.len() - 1 implies s[j] == (#[trigger] p[j]) by {}
        match find_folder(p, dir) {
            Some(i) => {
                assert(s[i] == p[i]);
                assert forall|j: int| 0 <= j < i implies (#[trigger] s[j]).1.1 != Some(dir) by {
                    assert(s[j] == p[j]);
                }
            }
            None => {
                assert(s[s.len() - 1] == s.last());
                assert forall|j: int| 0 <= j < s.len() - 1 implies (#[trigger] s[j]).1.1 != Some(dir) by {
                    assert(s[j] == p[j]);
                }
            }
        }
    }
}

impl Default for Environment {
    fn default() -> (e: Self)
        ensures
            e@ == Seq::<(Seq<char>, Seq<char>)>::empty(),
            secret_entries(e.kinds) == Seq::<(Seq<char>, Seq<char>)>::empty(),
    {
        Environment { values: secrets_new(), kinds: secrets_new() }
    }
}

impl Default for Project {
    fn default() -> (p: Self)
        ensures
            p@ == (None::<Seq<char>>, None::<Seq<char>>, Seq::<(Seq<char>, SecretsModel)>::empty()),
    {
        Project { default_env: None, folder: None, environments: envs_new() }
    }
}

impl Default for Store {
    fn default() -> (s: Self)
        ensures
            s@ == Seq::<(Seq<char>, ProjectModel)>::empty(),
    {
        Store { projects: projects_new() }
    }
}

impl Store {
    /// The project called `name`.
    pub fn project(&self, name: &str) -> (r: Option<&Project>)
        ensures
            match r {
                Some(p) => lookup(self@, name@) == Some(p@),
                None => lookup(self@, name@) is None,
            },
    {
        projects_get(&self.projects, name)
    }

    /// The project called `name`, to be changed in place.
    pub fn project_mut(&mut self, name: &str) -> (r: Option<&mut Project>)
        ensures
            match r {
                Some(p) => lookup(old(self)@, name@) == Some((*p)@) && final(self)@ == insert_entry(
                    old(self)@,
                    name@,
                    (*final(p))@,
                ),
                None => lookup(old(self)@, name@) is None && final(self)@ == old(self)@,
            },
    {
        projects_get_mut(&mut self.projects, name)
    }

    /// The raw value stored at `project/env/key`.
    pub fn value(&self, project: &str, env: &str, key: &str) -> (r: Option<&String>)
        ensures
            match r {
                Some(v) => store_value(self@, project@, env@, key@) == Some(v@),
                None => store_value(self@, project@, env@, key@) is None,
            },
    {
        let p = projects_get(&self.projects, project)?;
        let e = envs_get(&p.environments, env)?;
        secrets_get(&e.values, key)
    }

    /// The first project whose associated folder is `dir`.
    pub fn project_for_folder(&self, dir: &str) -> (r: Option<&str>)
        ensures
            match r {
                Some(n) => find_folder(self@, dir@) is Some && n@ == self@[find_folder(self@, dir@).unwrap()].0,
                None => find_folder(self@, dir@) is None,
            },
    {
        let n = projects_len(&self.projects);
        let mut i: usize = 0;
        proof {
            lemma_find_folder(self@, dir@);
        }
        while i < n
            invariant
                n == self@.len(),
                i <= n,
                forall|j: int| 0 <= j < i ==> (#[trigger] self@[j]).1.1 != Some(dir@),
                match find_folder(self@, dir@) {
                    Some(f) => 0 <= f < self@.len() && self@[f].1.1 == Some(dir@) && forall|j: int|
                        0 <= j < f ==> (#[trigger] self@[j]).1.1 != Some(dir@),
                    None => forall|j: int| 0 <= j < self@.len() ==> (#[trigger] self@[j]).1.1 != Some(dir@),
                },
            decreases n - i,
        {
            let (name, p) = projects_get_index(&self.projects, i).unwrap();
            let hit = match &p.folder {
                Some(f) => string_eq(f.as_str(), dir),
                None => false,
            };
            if hit {
                proof {
                    let f = find_folder(self@, dir@);
                    if f is None {
                        assert(self@[i as int].1.1 == Some(dir@));
                    } else {
                        assert(self@[f.unwrap()].1.1 == Some(dir@));
                    }
                }
                return Some(name.as_str());
            }
            i = i + 1;
        }
        None
    }
}

impl Project {
    /// Which environment to use: the requested one, else the default, else
    /// the only environment when there is exactly one.
    pub fn resolve_env<'a>(&'a self, requested: Option<&'a str>) -> (r: Option<&'a str>)
        ensures
            match r {
                Some(n) => chosen_env(self@, opt_str_view(requested)) == Some(n@),
                None => chosen_env(self@, opt_str_view(requested)) is None,
            },
            r matches Some(n) ==> has_key(self@.2, n@),
            requested matches Some(q) ==> (r is Some <==> has_key(self@.2, q@)),
            requested matches Some(q) ==> (r matches Some(n) ==> n@ == q@),
    {
        proof {
            law_requested_env_is_exact(self@, match requested { Some(q) => q@, None => Seq::empty() });
        }
        proof {
            if requested is Some {
                lemma_find_key(self@.2, requested.unwrap()@);
            }
            if self.default_env is Some {
                lemma_find_key(self@.2, self.default_env.unwrap()@);
            }
        }
        if let Some(req) = requested {
            if envs_get(&self.environments, req).is_some() {
                return Some(req);
            } else {
                return None;
            }
        }
        if let Some(def) = &self.default_env {
            if envs_get(&self.environments, def.as_str()).is_some() {
                return Some(def.as_str());
            }
        }
        if envs_len(&self.environments) == 1 {
            let (k, _) = envs_get_index(&self.environments, 0).unwrap();
            return Some(k.as_str());
        }
        None
    }
}

} // verus!
