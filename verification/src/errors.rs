//! Errors of the store commands.

use vstd::prelude::*;
use crate::resolve::{ResolveError, RefError};
use crate::text::push_str;

verus! {

/// Why a command could not be carried out.
pub enum CmdError {
    /// A project of that name exists already.
    ProjectExists(String),
    /// No project of that name.
    ProjectNotFound(String),
    /// An environment of that name (first) exists already in the project (second).
    EnvExists(String, String),
    /// No environment of that name (first) in the project (second).
    EnvNotFound(String, String),
    /// No secret of that key in the project and environment.
    SecretNotFound(String, String, String),
    /// No project was given and the folder is not assigned.
    NoProject,
    /// No environment was given and the folder is not assigned.
    NoEnv,
    /// No environment was given and the project has no usable default.
    NoDefaultEnv(String),
    /// A name was empty; what it names (`project`, `environment`).
    EmptyName(String),
    /// A reference could not be resolved.
    Resolve(ResolveError),
    /// The JSON rendering failed.
    RenderJson,
    /// The TOML rendering failed.
    RenderToml,
    /// A value declared a number is not one.
    NotANumber(String),
    /// A value declared JSON is not valid JSON.
    NotJson(String),
}

/// The model of a [`CmdError`].
pub enum CmdErr {
    ProjectExists(Seq<char>),
    ProjectNotFound(Seq<char>),
    EnvExists(Seq<char>, Seq<char>),
    EnvNotFound(Seq<char>, Seq<char>),
    SecretNotFound(Seq<char>, Seq<char>, Seq<char>),
    NoProject,
    NoEnv,
    NoDefaultEnv(Seq<char>),
    EmptyName(Seq<char>),
    Resolve(RefError),
    RenderJson,
    RenderToml,
    NotANumber(Seq<char>),
    NotJson(Seq<char>),
}

impl View for CmdError {
    type V = CmdErr;

    open spec fn view(&self) -> CmdErr {
        match self {
            CmdError::ProjectExists(p) => CmdErr::ProjectExists(p@),
            CmdError::ProjectNotFound(p) => CmdErr::ProjectNotFound(p@),
            CmdError::EnvExists(e, p) => CmdErr::EnvExists(e@, p@),
            CmdError::EnvNotFound(e, p) => CmdErr::EnvNotFound(e@, p@),
            CmdError::SecretNotFound(k, p, e) => CmdErr::SecretNotFound(k@, p@, e@),
            CmdError::NoProject => CmdErr::NoProject,
            CmdError::NoEnv => CmdErr::NoEnv,
            CmdError::NoDefaultEnv(p) => CmdErr::NoDefaultEnv(p@),
            CmdError::EmptyName(what) => CmdErr::EmptyName(what@),
            CmdError::Resolve(r) => CmdErr::Resolve(r@),
            CmdError::RenderJson => CmdErr::RenderJson,
            CmdError::RenderToml => CmdErr::RenderToml,
            CmdError::NotANumber(v) => CmdErr::NotANumber(v@),
            CmdError::NotJson(v) => CmdErr::NotJson(v@),
        }
    }
}

/// The text of a resolution error.
pub open spec fn resolve_message(e: RefError) -> Seq<char> {
    match e {
        RefError::Invalid(i) => "invalid reference `${"@ + i
            + "}` (expected `${secret}`, `${env.secret}` or `${project.env.secret}`)"@,
        RefError::Circular(r) => "circular reference detected at `${"@ + r.0 + "."@ + r.1 + "."@ + r.2 + "}`"@,
        RefError::Missing(i, r) => "reference `${"@ + i + "}` points to a missing secret `"@ + r.0 + "."@ + r.1
            + "."@ + r.2 + "`"@,
    }
}

impl ResolveError {
    /// The text that describes this error.
    pub fn message(&self) -> (m: String)
        ensures
            m@ == resolve_message(self@),
    {
        let mut m = String::new();
        match self {
            ResolveError::Invalid(i) => {
                push_str(&mut m, "invalid reference `${");
                push_str(&mut m, i.as_str());
                push_str(&mut m, "}` (expected `${secret}`, `${env.secret}` or `${project.env.secret}`)");
            }
            ResolveError::Circular(p, e, k) => {
                push_str(&mut m, "circular reference detected at `${");
                push_str(&mut m, p.as_str());
                push_str(&mut m, ".");
                push_str(&mut m, e.as_str());
                push_str(&mut m, ".");
                push_str(&mut m, k.as_str());
                push_str(&mut m, "}`");
            }
            ResolveError::Missing(i, p, e, k) => {
                push_str(&mut m, "reference `${");
                push_str(&mut m, i.as_str());
                push_str(&mut m, "}` points to a missing secret `");
                push_str(&mut m, p.as_str());
                push_str(&mut m, ".");
                push_str(&mut m, e.as_str());
                push_str(&mut m, ".");
                push_str(&mut m, k.as_str());
                push_str(&mut m, "`");
            }
        }
        m
    }
}

/// The text of a command error.
pub open spec fn cmd_message(e: CmdErr) -> Seq<char> {
    match e {
        CmdErr::ProjectExists(p) => "project `"@ + p + "` already exists"@,
        CmdErr::ProjectNotFound(p) => "project `"@ + p + "` not found"@,
        CmdErr::EnvExists(e, p) => "environment `"@ + e + "` already exists in `"@ + p + "`"@,
        CmdErr::EnvNotFound(e, p) => "environment `"@ + e + "` not found in `"@ + p + "`"@,
        CmdErr::SecretNotFound(k, p, e) => "secret `"@ + k + "` not found in `"@ + p + "/"@ + e + "`"@,
        CmdErr::NoProject => "no project given and this folder isn't assigned (run `devsecrets setup` here, or pass --project)"@,
        CmdErr::NoEnv => "no environment given and this folder isn't assigned (run `devsecrets setup` here, or pass --env)"@,
        CmdErr::NoDefaultEnv(p) => "could not determine environment for `"@ + p + "` (set a default or pass --env)"@,
        CmdErr::EmptyName(what) => what + " name cannot be empty"@,
        CmdErr::Resolve(r) => resolve_message(r),
        CmdErr::RenderJson => "could not render JSON"@,
        CmdErr::RenderToml => "could not render TOML"@,
        CmdErr::NotANumber(v) => "`"@ + v + "` is not a number"@,
        CmdErr::NotJson(v) => "`"@ + v + "` is not valid JSON"@,
    }
}

impl CmdError {
    /// The text that describes this error.
    pub fn message(&self) -> (m: String)
        ensures
            m@ == cmd_message(self@),
    {
        let mut m = String::new();
        match self {
            CmdError::ProjectExists(p) => {
                push_str(&mut m, "project `");
                push_str(&mut m, p.as_str());
                push_str(&mut m, "` already exists");
            }
            CmdError::ProjectNotFound(p) => {
                push_str(&mut m, "project `");
                push_str(&mut m, p.as_str());
                push_str(&mut m, "` not found");
            }
            CmdError::EnvExists(e, p) => {
                push_str(&mut m, "environment `");
                push_str(&mut m, e.as_str());
                push_str(&mut m, "` already exists in `");
                push_str(&mut m, p.as_str());
                push_str(&mut m, "`");
            }
            CmdError::EnvNotFound(e, p) => {
                push_str(&mut m, "environment `");
                push_str(&mut m, e.as_str());
                push_str(&mut m, "` not found in `");
                push_str(&mut m, p.as_str());
                push_str(&mut m, "`");
            }
            CmdError::SecretNotFound(k, p, e) => {
                push_str(&mut m, "secret `");
                push_str(&mut m, k.as_str());
                push_str(&mut m, "` not found in `");
                push_str(&mut m, p.as_str());
                push_str(&mut m, "/");
                push_str(&mut m, e.as_str());
                push_str(&mut m, "`");
            }
            CmdError::NoProject => {
                push_str(
                    &mut m,
                    "no project given and this folder isn't assigned (run `devsecrets setup` here, or pass --project)",
                );
            }
            CmdError::NoEnv => {
                push_str(
                    &mut m,
                    "no environment given and this folder isn't assigned (run `devsecrets setup` here, or pass --env)",
                );
            }
            CmdError::NoDefaultEnv(p) => {
                push_str(&mut m, "could not determine environment for `");
                push_str(&mut m, p.as_str());
                push_str(&mut m, "` (set a default or pass --env)");
            }
            CmdError::EmptyName(what) => {
                push_str(&mut m, what.as_str());
                push_str(&mut m, " name cannot be empty");
            }
            CmdError::Resolve(r) => {
                m = r.message();
            }
            CmdError::RenderJson => {
                push_str(&mut m, "could not render JSON");
            }
            CmdError::RenderToml => {
                push_str(&mut m, "could not render TOML");
            }
            CmdError::NotANumber(v) => {
                push_str(&mut m, "`");
                push_str(&mut m, v.as_str());
                push_str(&mut m, "` is not a number");
            }
            CmdError::NotJson(v) => {
                push_str(&mut m, "`");
                push_str(&mut m, v.as_str());
                push_str(&mut m, "` is not valid JSON");
            }
        }
        m
    }
}

} // verus!
