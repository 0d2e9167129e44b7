//! The commands of the command-line interface, as plain data.
//!
//! Running without a subcommand launches the interactive interface; every
//! action there is also available as a subcommand.

use vstd::prelude::*;
use crate::kinds::SecretKind;

verus! {

/// The parsed command line.
pub struct Cli {
    pub command: Option<Command>,
}

/// A subcommand.
pub enum Command {
    /// Assign a folder (default: the current one) to a project + environment.
    Setup { folder: Option<String> },
    /// Show or change where the secrets store lives.
    Settings { action: Option<SettingsAction> },
    /// Show the version, the configuration locations and the folder
    /// assignments.
    Version,
    /// Manage projects.
    Project { action: ProjectAction },
    /// Manage environments within a project.
    Env { action: EnvAction },
    /// Get, set, list and delete secrets within an environment.
    Secret { action: SecretAction },
    /// Import a `.env` file into an environment (creating it if needed).
    Import {
        file: String,
        project: Option<String>,
        env: Option<String>,
        overwrite: bool,
        replace: bool,
    },
    /// Export an environment to a file (or standard output).
    Export {
        file: Option<String>,
        project: Option<String>,
        env: Option<String>,
        format: Option<Format>,
        raw: bool,
    },
    /// Duplicate an environment within a project.
    Duplicate { project: String, from: String, to: String },
    /// Run a command with an environment's secrets (resolved unless `raw`)
    /// in its environment variables.
    Run { project: Option<String>, env: Option<String>, raw: bool, command: Vec<String> },
    /// List everything in the store.
    List,
}

/// Project subcommands.
pub enum ProjectAction {
    Create { name: String },
    List,
    Delete { name: String },
}

/// Settings subcommands.
pub enum SettingsAction {
    Show,
    /// Move the store to a directory or `.json` file.
    Store { path: String },
}

/// Environment subcommands.
pub enum EnvAction {
    Create { project: String, name: String },
    List { project: Option<String> },
    Delete { project: String, name: String },
    SetDefault { project: String, name: String },
}

/// Secret subcommands.
pub enum SecretAction {
    /// Set a secret, checked against the type given (else the type recorded
    /// for the key).
    Put { project: String, env: String, key: String, value: String, kind: Option<SecretKind> },
    Get { project: String, env: String, key: String, raw: bool },
    /// List secrets, values shown as stored unless `mask`.
    List { project: Option<String>, env: Option<String>, mask: bool },
    Delete { project: String, env: String, key: String },
}

/// An output format for export.
#[derive(PartialEq, Eq, Structural, Clone, Copy, Debug)]
pub enum Format {
    Env,
    Shell,
    Json,
    Toml,
}

} // verus!
