//! The decisions of the interactive interface.
//!
//! Three master/detail panes (Projects, Environments, Secrets) are shown side
//! by side; focus moves rightward as the user drills in. [`App`] holds the
//! store and the interface state, and each key press moves it to its next
//! state. Work that only the surrounding program can do (saving the store,
//! reading and writing files, running an external editor) is asked for
//! through fields of the state, and its outcome is handed back through
//! methods.

use vstd::prelude::*;
use indexmap::IndexMap;
use crate::entries::{SecretsModel, ProjectModel, StoreModel, lookup, has_key, insert_entry, remove_key, lemma_find_key, lemma_insert_same};
use crate::collections::{secret_entries, secrets_get, secrets_insert, secrets_remove, secrets_get_index, secrets_len, secrets_clone, envs_get, envs_get_mut, envs_remove, envs_len, envs_get_index, projects_remove, projects_len, projects_get_index};
use crate::model::{Store, Project, Environment};
use crate::editor::{EnvEditor, opening_rows};
use crate::envfile::serialized;
use crate::text::{push_str, string_eq, opt_view, to_chars, trim, trim_chars, string_of, first_index_of, lemma_first_index_of, from_chars};
use crate::commands::{create_project, create_env, create_env_spec, set_secret, set_secret_spec, duplicate_env, duplicate_env_spec, empty_project};
use crate::errors::CmdError;
use crate::editor::{joined, decimal, decimal_text};
use crate::envfile::{parse, parsed, serialize};
use crate::commands::{export_entries, bullets, bullet_text};
use crate::resolve::{resolve_at, RefError, ResolveError};
use crate::collections::secrets_new;

verus! {

/// Which pane has the keyboard focus.
#[derive(PartialEq, Eq, Structural, Clone, Copy, Debug)]
pub enum Focus {
    Projects,
    Envs,
    Secrets,
}

/// A key and whether Control was held: `ctrl` when it was among the
/// modifiers, `only_ctrl` when it was the only one.
#[derive(PartialEq, Eq, Structural, Clone, Copy, Debug)]
pub struct KeyPress {
    pub key: Key,
    pub ctrl: bool,
    pub only_ctrl: bool,
}

/// What a key does in the panes.
#[derive(PartialEq, Eq, Structural, Clone, Copy, Debug)]
pub enum NavCommand {
    Quit,
    Help,
    ToggleReveal,
    CycleFocus,
    Down,
    Up,
    Deeper,
    Shallower,
    Enter,
    New,
    Edit,
    EditInline,
    EditExternal,
    Delete,
    Duplicate,
    Import,
    Export,
    SetDefault,
    SetFolder,
    Nothing,
}

/// A key, as far as the interface tells keys apart.
#[derive(PartialEq, Eq, Structural, Clone, Copy, Debug)]
pub enum Key {
    Char(char),
    Enter,
    Backspace,
    Delete,
    Left,
    Right,
    Up,
    Down,
    Home,
    End,
    Tab,
    Esc,
    Other,
}

/// What a submitted text prompt does.
pub enum InputAction {
    NewProject,
    NewEnv,
    NewSecret,
    EditSecret { key: String },
    DuplicateEnv { from: String },
    Import,
    Export,
    SetFolder,
}

/// An open text prompt.
pub struct InputState {
    pub title: String,
    pub prompt: String,
    pub buffer: String,
    pub action: InputAction,
}

/// What an accepted confirmation does.
pub enum ConfirmAction {
    DeleteProject(String),
    DeleteEnv { project: String, env: String },
    DeleteSecret { project: String, env: String, key: String },
}

/// An open confirmation prompt.
pub struct ConfirmState {
    pub message: String,
    pub action: ConfirmAction,
}

/// File work that a submitted prompt asks the surrounding program to do.
pub enum Request {
    /// Read the `.env` file at this path and hand its text to
    /// [`App::import_text`].
    Import(String),
    /// Write [`App::export_document`] to this path and report through
    /// [`App::export_written`].
    Export(String),
    /// Work out the folder for this text (blank: the current directory) and
    /// hand it to [`App::set_folder`].
    SetFolder(String),
}

/// The interface state.
pub struct App {
    pub store: Store,
    pub focus: Focus,
    pub proj_idx: usize,
    pub env_idx: usize,
    pub secret_idx: usize,
    pub reveal: bool,
    pub show_help: bool,
    pub status: String,
    pub input: Option<InputState>,
    pub confirm: Option<ConfirmState>,
    /// The in-app editor over a whole environment, when open.
    pub editor: Option<EnvEditor>,
    /// The user asked to edit the current environment in an external editor.
    pub pending_editor: bool,
    pub should_quit: bool,
    /// File work asked for by the last submitted prompt.
    pub request: Option<Request>,
    /// The store changed and should be written out.
    pub save_due: bool,
    /// A failure to write the store is to be shown (otherwise the status set
    /// after the change stands).
    pub report_save_failure: bool,
}

/// `i` kept inside a list of `n` entries: the last entry when it is past the
/// end, 0 for an empty list.
pub open spec fn clamp(i: usize, n: nat) -> usize {
    if i >= n {
        if n == 0 {
            0
        } else {
            (n - 1) as usize
        }
    } else {
        i
    }
}

/// `i` points into a list of `n` entries, or is 0 when the list is empty.
pub open spec fn fits(i: usize, n: nat) -> bool {
    i < n || (n == 0 && i == 0)
}

/// The entry at `i`, if any.
pub open spec fn entry_at<V>(es: Seq<(Seq<char>, V)>, i: int) -> Option<(Seq<char>, V)> {
    if 0 <= i < es.len() {
        Some(es[i])
    } else {
        None
    }
}

/// The prompts, the open editor and the pending work are the same.
pub open spec fn same_modes(a: &App, b: &App) -> bool {
    &&& a.input == b.input
    &&& a.confirm == b.confirm
    &&& a.editor == b.editor
    &&& a.show_help == b.show_help
    &&& a.pending_editor == b.pending_editor
    &&& a.should_quit == b.should_quit
    &&& a.request == b.request
}

/// The focus and the selected entries are the same.
pub open spec fn same_selection(a: &App, b: &App) -> bool {
    &&& a.focus == b.focus
    &&& a.proj_idx == b.proj_idx
    &&& a.env_idx == b.env_idx
    &&& a.secret_idx == b.secret_idx
}

/// The store and what is owed of saving it are the same.
pub open spec fn same_data(a: &App, b: &App) -> bool {
    &&& a.store@ == b.store@
    &&& a.save_due == b.save_due
    &&& a.report_save_failure == b.report_save_failure
}

/// Only the status line may differ.
pub open spec fn same_but_status(a: &App, b: &App) -> bool {
    &&& same_modes(a, b)
    &&& same_selection(a, b)
    &&& same_data(a, b)
    &&& a.reveal == b.reveal
}

/// Everything but the prompts, the editor and the status line is the same.
pub open spec fn same_core(a: &App, b: &App) -> bool {
    &&& same_selection(a, b)
    &&& same_data(a, b)
    &&& a.reveal == b.reveal
    &&& a.show_help == b.show_help
    &&& a.should_quit == b.should_quit
    &&& a.request == b.request
}

/// An open prompt with this title, text, starting buffer and action kind.
pub open spec fn prompt_is(i: Option<InputState>, title: Seq<char>, prompt: Seq<char>, buffer: Seq<char>) -> bool {
    &&& i is Some
    &&& i.unwrap().title@ == title
    &&& i.unwrap().prompt@ == prompt
    &&& i.unwrap().buffer@ == buffer
}

/// The value stored under `k`, or nothing.
pub open spec fn value_or_empty(es: SecretsModel, k: Seq<char>) -> Seq<char> {
    match lookup(es, k) {
        Some(v) => v,
        None => Seq::empty(),
    }
}

/// `a`, `b` and `c` as one text.
pub fn concat3(a: &str, b: &str, c: &str) -> (r: String)
    ensures
        r@ == a@ + b@ + c@,
{
    let mut r = String::new();
    push_str(&mut r, a);
    push_str(&mut r, b);
    push_str(&mut r, c);
    r
}

/// `a` to `e` as one text.
pub fn concat5(a: &str, b: &str, c: &str, d: &str, e: &str) -> (r: String)
    ensures
        r@ == a@ + b@ + c@ + d@ + e@,
{
    let mut r = String::new();
    push_str(&mut r, a);
    push_str(&mut r, b);
    push_str(&mut r, c);
    push_str(&mut r, d);
    push_str(&mut r, e);
    r
}

impl App {
    /// The selected project, if the selection points at one.
    pub open spec fn sel_project(&self) -> Option<(Seq<char>, ProjectModel)> {
        entry_at(self.store@, self.proj_idx as int)
    }

    /// The number of environments in the selected project.
    pub open spec fn env_count(&self) -> nat {
        match self.sel_project() {
            Some(p) => p.1.2.len(),
            None => 0,
        }
    }

    /// The selected environment, if the selection points at one.
    pub open spec fn sel_env(&self) -> Option<(Seq<char>, SecretsModel)> {
        match self.sel_project() {
            Some(p) => entry_at(p.1.2, self.env_idx as int),
            None => None,
        }
    }

    /// The number of secrets in the selected environment.
    pub open spec fn secret_count(&self) -> nat {
        match self.sel_env() {
            Some(e) => e.1.len(),
            None => 0,
        }
    }

    /// The selected secret, if the selection points at one.
    pub open spec fn sel_secret(&self) -> Option<(Seq<char>, Seq<char>)> {
        match self.sel_env() {
            Some(e) => entry_at(e.1, self.secret_idx as int),
            None => None,
        }
    }

    /// The number of entries in a pane.
    pub open spec fn pane_count(&self, f: Focus) -> nat {
        match f {
            Focus::Projects => self.store@.len(),
            Focus::Envs => self.env_count(),
            Focus::Secrets => self.secret_count(),
        }
    }

    /// Each selection points into its pane (or is 0 for an empty pane).
    pub open spec fn in_range(&self) -> bool {
        &&& fits(self.proj_idx, self.store@.len())
        &&& fits(self.env_idx, self.env_count())
        &&& fits(self.secret_idx, self.secret_count())
    }

    /// A fresh interface over `store`, focused on the first project.
    pub fn new(store: Store) -> (app: App)
        ensures
            app.store == store,
            app.focus == Focus::Projects,
            app.proj_idx == 0 && app.env_idx == 0 && app.secret_idx == 0,
            !app.reveal && !app.show_help && !app.pending_editor && !app.should_quit,
            app.status@ == "Welcome to dev-secrets. Press ? for help."@,
            app.input is None && app.confirm is None && app.editor is None && app.request is None,
            !app.save_due && !app.report_save_failure,
            app.in_range(),
    {
        App {
            store,
            focus: Focus::Projects,
            proj_idx: 0,
            env_idx: 0,
            secret_idx: 0,
            reveal: false,
            show_help: false,
            status: "Welcome to dev-secrets. Press ? for help.".to_owned(),
            input: None,
            confirm: None,
            editor: None,
            pending_editor: false,
            should_quit: false,
            request: None,
            save_due: false,
            report_save_failure: false,
        }
    }

    /// The name of the selected project.
    pub fn current_project_name(&self) -> (r: Option<String>)
        ensures
            opt_view(r) == (match self.sel_project() {
                Some(p) => Some(p.0),
                None => None::<Seq<char>>,
            }),
    {
        match projects_get_index(&self.store.projects, self.proj_idx) {
            Some((k, _)) => Some(k.clone()),
            None => None,
        }
    }

    /// The selected project.
    pub fn current_project(&self) -> (r: Option<&Project>)
        ensures
            match r {
                Some(p) => self.sel_project() is Some && self.sel_project().unwrap().1 == p@,
                None => self.sel_project() is None,
            },
    {
        match projects_get_index(&self.store.projects, self.proj_idx) {
            Some((_, p)) => Some(p),
            None => None,
        }
    }

    /// The name of the selected environment.
    pub fn current_env_name(&self) -> (r: Option<String>)
        ensures
            opt_view(r) == (match self.sel_env() {
                Some(e) => Some(e.0),
                None => None::<Seq<char>>,
            }),
    {
        let p = self.current_project()?;
        match envs_get_index(&p.environments, self.env_idx) {
            Some((k, _)) => Some(k.clone()),
            None => None,
        }
    }

    /// The selected environment.
    pub fn current_env(&self) -> (r: Option<&Environment>)
        ensures
            match r {
                Some(e) => self.sel_env() is Some && self.sel_env().unwrap().1 == e@,
                None => self.sel_env() is None,
            },
    {
        let p = self.current_project()?;
        match envs_get_index(&p.environments, self.env_idx) {
            Some((_, e)) => Some(e),
            None => None,
        }
    }

    /// The key of the selected secret.
    pub fn current_secret_key(&self) -> (r: Option<String>)
        ensures
            opt_view(r) == (match self.sel_secret() {
                Some(s) => Some(s.0),
                None => None::<Seq<char>>,
            }),
    {
        let e = self.current_env()?;
        match secrets_get_index(&e.values, self.secret_idx) {
            Some((k, _)) => Some(k.clone()),
            None => None,
        }
    }

    fn project_count(&self) -> (n: usize)
        ensures
            n == self.store@.len(),
    {
        projects_len(&self.store.projects)
    }

    fn current_env_count(&self) -> (n: usize)
        ensures
            n == self.env_count(),
    {
        match self.current_project() {
            Some(p) => envs_len(&p.environments),
            None => 0,
        }
    }

    fn current_secret_count(&self) -> (n: usize)
        ensures
            n == self.secret_count(),
    {
        match self.current_env() {
            Some(e) => secrets_len(&e.values),
            None => 0,
        }
    }

    /// Pull each selection back inside its pane, outermost first.
    pub fn clamp_indices(&mut self)
        ensures
            final(self).store == old(self).store,
            final(self).focus == old(self).focus,
            final(self).proj_idx == clamp(old(self).proj_idx, old(self).store@.len()),
            final(self).env_idx == clamp(old(self).env_idx, final(self).env_count()),
            final(self).secret_idx == clamp(old(self).secret_idx, final(self).secret_count()),
            same_modes(old(self), final(self)),
            final(self).save_due == old(self).save_due,
            final(self).report_save_failure == old(self).report_save_failure,
            final(self).reveal == old(self).reveal,
            final(self).status == old(self).status,
            final(self).in_range(),
    {
        let n = self.project_count();
        if self.proj_idx >= n {
            self.proj_idx = if n == 0 { 0 } else { n - 1 };
        }
        let n = self.current_env_count();
        if self.env_idx >= n {
            self.env_idx = if n == 0 { 0 } else { n - 1 };
        }
        let n = self.current_secret_count();
        if self.secret_idx >= n {
            self.secret_idx = if n == 0 { 0 } else { n - 1 };
        }
    }

    /// Record the outcome of writing the store: `None` when it was written,
    /// else the error text.
    pub fn saved(&mut self, failure: Option<String>)
        ensures
            !final(self).save_due,
            !final(self).report_save_failure,
            same_modes(old(self), final(self)),
            same_selection(old(self), final(self)),
            final(self).store == old(self).store,
            final(self).reveal == old(self).reveal,
            match failure {
                Some(e) => if old(self).report_save_failure {
                    final(self).status@ == "Save failed: "@ + e@
                } else {
                    final(self).status == old(self).status
                },
                None => final(self).status == old(self).status,
            },
    {
        if let Some(e) = failure {
            if self.report_save_failure {
                let mut m = "Save failed: ".to_owned();
                push_str(&mut m, e.as_str());
                self.status = m;
            }
        }
        self.save_due = false;
        self.report_save_failure = false;
    }

    /// Note that the store changed; a failure to write it is shown only when
    /// `report` holds.
    fn mark_changed(&mut self, report: bool)
        ensures
            final(self).save_due,
            final(self).report_save_failure == report,
            final(self).store == old(self).store,
            same_modes(old(self), final(self)),
            same_selection(old(self), final(self)),
            final(self).reveal == old(self).reveal,
            final(self).status == old(self).status,
    {
        self.save_due = true;
        self.report_save_failure = report;
    }

    // --- navigation ---------------------------------------------------------

    /// Move focus to the next pane, wrapping around.
    pub fn cycle_focus(&mut self)
        ensures
            cycled(old(self), final(self)),
    {
        self.focus = match self.focus {
            Focus::Projects => Focus::Envs,
            Focus::Envs => Focus::Secrets,
            Focus::Secrets => Focus::Projects,
        };
    }

    /// Move focus one pane right when there is something selected to drill
    /// into.
    pub fn focus_deeper(&mut self)
        ensures
            went_deeper(old(self), final(self)),
    {
        match self.focus {
            Focus::Projects => {
                if self.current_project().is_some() {
                    self.focus = Focus::Envs;
                }
            },
            Focus::Envs => {
                if self.current_env().is_some() {
                    self.focus = Focus::Secrets;
                }
            },
            Focus::Secrets => {},
        }
    }

    /// Move focus one pane left.
    pub fn focus_shallower(&mut self)
        ensures
            went_shallower(old(self), final(self)),
    {
        self.focus = match self.focus {
            Focus::Secrets => Focus::Envs,
            Focus::Envs => Focus::Projects,
            Focus::Projects => Focus::Projects,
        };
    }

    /// Move the selection of the focused pane by `delta`, wrapping around;
    /// moving in a parent pane resets the selections to its right.
    pub fn move_selection(&mut self, delta: i32)
        ensures
            selection_moved(old(self), final(self), delta),
    {
        let count = match self.focus {
            Focus::Projects => self.project_count(),
            Focus::Envs => self.current_env_count(),
            Focus::Secrets => self.current_secret_count(),
        };
        if count == 0 {
            return;
        }
        match self.focus {
            Focus::Projects => {
                self.proj_idx = wrap_index(self.proj_idx, delta, count);
                self.env_idx = 0;
                self.secret_idx = 0;
            },
            Focus::Envs => {
                self.env_idx = wrap_index(self.env_idx, delta, count);
                self.secret_idx = 0;
            },
            Focus::Secrets => {
                self.secret_idx = wrap_index(self.secret_idx, delta, count);
            },
        }
    }
}

impl App {
    // --- starting actions ---------------------------------------------------

    /// Open the prompt for a new project, environment or secret, depending
    /// on the focused pane.
    pub fn start_new(&mut self)
        ensures
            new_started(old(self), final(self)),
    {
        match self.focus {
            Focus::Projects => {
                self.input = Some(
                    InputState {
                        title: "New project".to_owned(),
                        prompt: "Project name:".to_owned(),
                        buffer: String::new(),
                        action: InputAction::NewProject,
                    },
                );
            },
            Focus::Envs => {
                if self.current_project().is_none() {
                    self.status = "Create a project first.".to_owned();
                    return;
                }
                self.input = Some(
                    InputState {
                        title: "New environment".to_owned(),
                        prompt: "Environment name:".to_owned(),
                        buffer: String::new(),
                        action: InputAction::NewEnv,
                    },
                );
            },
            Focus::Secrets => {
                if self.current_env().is_none() {
                    self.status = "Create an environment first.".to_owned();
                    return;
                }
                self.input = Some(
                    InputState {
                        title: "New secret".to_owned(),
                        prompt: "KEY=VALUE:".to_owned(),
                        buffer: String::new(),
                        action: InputAction::NewSecret,
                    },
                );
            },
        }
    }

    /// Open the in-app editor over the selected environment.
    pub fn open_inline_editor(&mut self)
        ensures
            inline_editor_opened(old(self), final(self)),
    {
        let project = match self.current_project_name() {
            Some(p) => p,
            None => {
                self.status = "Select an environment to edit.".to_owned();
                return;
            },
        };
        let env = match self.current_env_name() {
            Some(e) => e,
            None => {
                self.status = "Select an environment to edit.".to_owned();
                return;
            },
        };
        let values = match self.current_env() {
            Some(e) => secrets_clone(&e.values),
            None => crate::collections::secrets_new(),
        };
        self.editor = Some(EnvEditor::open(project, env, &values));
    }

    /// Open the prompt to edit the selected secret's value, when the Secrets
    /// pane has the focus.
    pub fn start_edit_secret(&mut self)
        ensures
            secret_edit_started(old(self), final(self)),
    {
        if self.focus != Focus::Secrets {
            return;
        }
        let key = match self.current_secret_key() {
            Some(k) => k,
            None => {
                return;
            },
        };
        let current = match self.current_env() {
            Some(e) => match secrets_get(&e.values, key.as_str()) {
                Some(v) => v.clone(),
                None => String::new(),
            },
            None => String::new(),
        };
        let mut title = "Edit ".to_owned();
        push_str(&mut title, key.as_str());
        self.input = Some(
            InputState { title, prompt: "Value:".to_owned(), buffer: current, action: InputAction::EditSecret { key } },
        );
    }

    /// Edit the selected secret when the Secrets pane has the focus and a
    /// secret is selected, otherwise the whole environment in the in-app
    /// editor.
    pub fn start_edit(&mut self)
        ensures
            edit_started(old(self), final(self)),
    {
        if self.focus == Focus::Secrets && self.current_secret_key().is_some() {
            self.start_edit_secret();
        } else {
            self.open_inline_editor();
        }
    }

    /// Ask for the selected environment to be edited in an external editor.
    pub fn request_edit_env(&mut self)
        ensures
            external_edit_requested(old(self), final(self)),
    {
        if self.current_env().is_none() {
            self.status = "Select an environment to edit.".to_owned();
            return;
        }
        self.pending_editor = true;
    }

    /// Ask to confirm deleting the focused project, environment or secret.
    pub fn start_delete(&mut self)
        ensures
            delete_started(old(self), final(self)),
    {
        match self.focus {
            Focus::Projects => {
                if let Some(name) = self.current_project_name() {
                    let message = concat3("Delete project `", name.as_str(), "` and all its environments?");
                    self.confirm = Some(ConfirmState { message, action: ConfirmAction::DeleteProject(name) });
                }
            },
            Focus::Envs => {
                let project = self.current_project_name();
                let env = self.current_env_name();
                if let (Some(project), Some(env)) = (project, env) {
                    let message = concat5("Delete environment `", project.as_str(), "/", env.as_str(), "`?");
                    self.confirm = Some(ConfirmState { message, action: ConfirmAction::DeleteEnv { project, env } });
                }
            },
            Focus::Secrets => {
                let project = self.current_project_name();
                let env = self.current_env_name();
                let key = self.current_secret_key();
                if let (Some(project), Some(env), Some(key)) = (project, env, key) {
                    let mut message = concat3("Delete secret `", key.as_str(), "` from `");
                    push_str(&mut message, project.as_str());
                    push_str(&mut message, "/");
                    push_str(&mut message, env.as_str());
                    push_str(&mut message, "`?");
                    self.confirm = Some(
                        ConfirmState { message, action: ConfirmAction::DeleteSecret { project, env, key } },
                    );
                }
            },
        }
    }

    /// Open the prompt to duplicate the selected environment.
    pub fn start_duplicate(&mut self)
        ensures
            duplicate_started(old(self), final(self)),
    {
        if self.focus != Focus::Envs {
            self.status = "Duplicate works on environments (focus the Envs pane).".to_owned();
            return;
        }
        let from = match self.current_env_name() {
            Some(f) => f,
            None => {
                return;
            },
        };
        let mut title = "Duplicate ".to_owned();
        push_str(&mut title, from.as_str());
        self.input = Some(
            InputState {
                title,
                prompt: "New environment name:".to_owned(),
                buffer: String::new(),
                action: InputAction::DuplicateEnv { from },
            },
        );
    }

    /// Open the prompt for a `.env` file to import into the selected
    /// environment.
    pub fn start_import(&mut self)
        ensures
            import_started(old(self), final(self)),
    {
        if self.current_env().is_none() {
            self.status = "Select an environment to import into.".to_owned();
            return;
        }
        self.input = Some(
            InputState {
                title: "Import .env".to_owned(),
                prompt: "Path to .env file:".to_owned(),
                buffer: String::new(),
                action: InputAction::Import,
            },
        );
    }

    /// Open the prompt for the file to export the selected environment to.
    pub fn start_export(&mut self)
        ensures
            export_started(old(self), final(self)),
    {
        if self.current_env().is_none() {
            self.status = "Select an environment to export.".to_owned();
            return;
        }
        self.input = Some(
            InputState {
                title: "Export .env".to_owned(),
                prompt: "Output path:".to_owned(),
                buffer: ".env".to_owned(),
                action: InputAction::Export,
            },
        );
    }

    /// Open the prompt for the folder of the selected project, starting from
    /// its current folder.
    pub fn start_set_folder(&mut self)
        ensures
            folder_prompt_started(old(self), final(self)),
    {
        if self.focus != Focus::Projects || self.current_project().is_none() {
            self.status = "Focus a project to assign its folder.".to_owned();
            return;
        }
        let current = match self.current_project() {
            Some(p) => match &p.folder {
                Some(f) => f.clone(),
                None => String::new(),
            },
            None => String::new(),
        };
        self.input = Some(
            InputState {
                title: "Assign folder".to_owned(),
                prompt: "Folder path (blank = current dir):".to_owned(),
                buffer: current,
                action: InputAction::SetFolder,
            },
        );
    }
}

// --- what the store-changing actions do ------------------------------------

/// The store after making `env` the default of `project` (unchanged when
/// there is no such project).
pub open spec fn default_set(s: StoreModel, project: Seq<char>, env: Seq<char>) -> StoreModel {
    match lookup(s, project) {
        Some(p) => insert_entry(s, project, (Some(env), p.1, p.2)),
        None => s,
    }
}

/// The store after deleting `env` of `project`; when it was the default, the
/// first remaining environment (if any) becomes the default.
pub open spec fn without_env(s: StoreModel, project: Seq<char>, env: Seq<char>) -> StoreModel {
    match lookup(s, project) {
        Some(p) => {
            let envs = remove_key(p.2, env);
            let def = if p.0 == Some(env) {
                if envs.len() > 0 {
                    Some(envs[0].0)
                } else {
                    None
                }
            } else {
                p.0
            };
            insert_entry(s, project, (def, p.1, envs))
        },
        None => s,
    }
}

/// The store after deleting secret `key` of `project/env`.
pub open spec fn without_secret(s: StoreModel, project: Seq<char>, env: Seq<char>, key: Seq<char>) -> StoreModel {
    match lookup(s, project) {
        Some(p) => match lookup(p.2, env) {
            Some(e) => insert_entry(s, project, (p.0, p.1, insert_entry(p.2, env, remove_key(e, key)))),
            None => s,
        },
        None => s,
    }
}

/// The store with the secrets of `project/env` replaced by `vals` (unchanged
/// when there is no such environment).
pub open spec fn env_replaced(s: StoreModel, project: Seq<char>, env: Seq<char>, vals: SecretsModel) -> StoreModel {
    match lookup(s, project) {
        Some(p) => match lookup(p.2, env) {
            Some(_) => insert_entry(s, project, (p.0, p.1, insert_entry(p.2, env, vals))),
            None => s,
        },
        None => s,
    }
}

/// `base` with each entry of `add` inserted in turn.
pub open spec fn inserted_all(base: SecretsModel, add: SecretsModel) -> SecretsModel
    decreases add.len(),
{
    if add.len() == 0 {
        base
    } else {
        let r = inserted_all(base, add.drop_last());
        insert_entry(r, add.last().0, add.last().1)
    }
}

/// The store changed to `s`, and a failure to write it is shown only when
/// `report` holds.
pub open spec fn changed_to(b: &App, s: StoreModel, report: bool) -> bool {
    &&& b.store@ == s
    &&& b.save_due
    &&& b.report_save_failure == report
}

/// The selections of `a` pulled back inside the panes of `b`.
pub open spec fn clamped_from(a: &App, b: &App) -> bool {
    &&& b.focus == a.focus
    &&& b.proj_idx == clamp(a.proj_idx, b.store@.len())
    &&& b.env_idx == clamp(a.env_idx, b.env_count())
    &&& b.secret_idx == clamp(a.secret_idx, b.secret_count())
}

/// The key and value of `KEY=VALUE` text, each trimmed, if it holds a `=`.
pub open spec fn key_value(v: Seq<char>) -> Option<(Seq<char>, Seq<char>)> {
    match first_index_of(v, '=') {
        Some(i) => Some((trim(v.take(i)), trim(v.skip(i + 1)))),
        None => None,
    }
}

/// Creating project `v` from the prompt: the store and status line of `b`.
pub open spec fn new_project_effect(a: &App, v: Seq<char>, b: &App) -> bool {
    if v.len() == 0 {
        same_data(a, b) && b.status@ == "Project name cannot be empty."@
    } else if has_key(a.store@, v) {
        same_data(a, b) && b.status@ == "Project `"@ + v + "` already exists."@
    } else {
        changed_to(b, a.store@.push((v, empty_project())), false) && b.status@ == "Created project `"@ + v + "`."@
    }
}

/// Creating environment `v` in the selected project from the prompt.
pub open spec fn new_env_effect(a: &App, v: Seq<char>, b: &App) -> bool {
    match a.sel_project() {
        None => same_data(a, b) && b.status == a.status,
        Some(p) => if v.len() == 0 {
            same_data(a, b) && b.status@ == "Environment name cannot be empty."@
        } else {
            match create_env_spec(a.store@, p.0, v) {
                Ok(s) => changed_to(b, s, false) && b.status@ == "Created environment `"@ + v + "`."@,
                Err(crate::errors::CmdErr::EnvExists(_, _)) => same_data(a, b) && b.status@ == "Environment `"@ + v
                    + "` already exists."@,
                Err(_) => same_data(a, b) && b.status == a.status,
            }
        },
    }
}

/// Setting secret `key` of the selected environment to `value`, with `done`
/// as the status on success.
pub open spec fn set_value_effect(a: &App, key: Seq<char>, value: Seq<char>, done: Seq<char>, b: &App) -> bool {
    match (a.sel_project(), a.sel_env()) {
        (Some(p), Some(e)) => match set_secret_spec(a.store@, p.0, e.0, key, value) {
            Ok(s) => changed_to(b, s, false) && b.status@ == done,
            Err(_) => same_data(a, b) && b.status == a.status,
        },
        _ => same_data(a, b) && b.status == a.status,
    }
}

/// Duplicating environment `from` of the selected project as `v`.
pub open spec fn duplicate_effect(a: &App, from: Seq<char>, v: Seq<char>, b: &App) -> bool {
    match a.sel_project() {
        None => same_data(a, b) && b.status == a.status,
        Some(p) => if v.len() == 0 {
            same_data(a, b) && b.status@ == "Name cannot be empty."@
        } else {
            match lookup(a.store@, p.0) {
                None => same_data(a, b) && b.status == a.status,
                Some(pm) => if has_key(pm.2, v) {
                    same_data(a, b) && b.status@ == "Environment `"@ + v + "` already exists."@
                } else {
                    match duplicate_env_spec(a.store@, p.0, from, v) {
                        Ok(s) => changed_to(b, s, false) && b.status@ == "Duplicated `"@ + from + "` to `"@ + v
                            + "`."@,
                        Err(_) => same_data(a, b) && b.status == a.status,
                    }
                },
            }
        },
    }
}

/// The state after a prompt's own work and before the selections are
/// pulled back into their panes.
pub open spec fn same_but_store_status_request(a: &App, b: &App) -> bool {
    &&& same_selection(a, b)
    &&& b.input == a.input
    &&& b.confirm == a.confirm
    &&& b.editor == a.editor
    &&& b.show_help == a.show_help
    &&& b.pending_editor == a.pending_editor
    &&& b.should_quit == a.should_quit
    &&& b.reveal == a.reveal
}

/// What submitting prompt `st` does to state `a`, giving `b`.
pub open spec fn submit_post(a: &App, st: &InputState, b: &App) -> bool {
    let v = trim(st.buffer@);
    &&& b.confirm == a.confirm
    &&& b.editor == a.editor
    &&& b.show_help == a.show_help
    &&& b.pending_editor == a.pending_editor
    &&& b.should_quit == a.should_quit
    &&& b.reveal == a.reveal
    &&& match st.action {
        InputAction::NewProject => b.request == a.request && clamped_from(a, b) && new_project_effect(a, v, b),
        InputAction::NewEnv => b.request == a.request && clamped_from(a, b) && new_env_effect(a, v, b),
        InputAction::NewSecret => {
            &&& b.request == a.request
            &&& match key_value(v) {
                None => same_data(a, b) && same_selection(a, b) && b.status@ == "Use KEY=VALUE format."@,
                Some(kv) => if kv.0.len() == 0 {
                    same_data(a, b) && same_selection(a, b) && b.status@ == "Key cannot be empty."@
                } else {
                    clamped_from(a, b) && set_value_effect(a, kv.0, kv.1, "Set `"@ + kv.0 + "`."@, b)
                },
            }
        },
        InputAction::EditSecret { key } => b.request == a.request && clamped_from(a, b) && set_value_effect(
            a,
            key@,
            st.buffer@,
            "Updated `"@ + key@ + "`."@,
            b,
        ),
        InputAction::DuplicateEnv { from } => b.request == a.request && clamped_from(a, b) && duplicate_effect(
            a,
            from@,
            v,
            b,
        ),
        InputAction::Import => {
            &&& same_data(a, b)
            &&& clamped_from(a, b)
            &&& b.status == a.status
            &&& (b.request matches Some(Request::Import(path)) && path@ == v)
        },
        InputAction::Export => {
            &&& same_data(a, b)
            &&& clamped_from(a, b)
            &&& b.status == a.status
            &&& (b.request matches Some(Request::Export(path)) && path@ == v)
        },
        InputAction::SetFolder => {
            &&& same_data(a, b)
            &&& clamped_from(a, b)
            &&& b.status == a.status
            &&& (b.request matches Some(Request::SetFolder(raw)) && raw@ == v)
        },
    }
}

/// What accepting confirmation `action` does to state `a`, giving `b`.
pub open spec fn confirm_post(a: &App, action: &ConfirmAction, b: &App) -> bool {
    &&& b.input == a.input
    &&& b.confirm is None
    &&& b.editor == a.editor
    &&& b.show_help == a.show_help
    &&& b.pending_editor == a.pending_editor
    &&& b.should_quit == a.should_quit
    &&& b.reveal == a.reveal
    &&& b.request == a.request
    &&& clamped_from(a, b)
    &&& match action {
        ConfirmAction::DeleteProject(name) => changed_to(b, remove_key(a.store@, name@), true) && b.status@
            == "Deleted project `"@ + name@ + "`."@,
        ConfirmAction::DeleteEnv { project, env } => changed_to(b, without_env(a.store@, project@, env@), true)
            && b.status@ == "Deleted environment `"@ + project@ + "/"@ + env@ + "`."@,
        ConfirmAction::DeleteSecret { project, env, key } => changed_to(
            b,
            without_secret(a.store@, project@, env@, key@),
            true,
        ) && b.status@ == "Deleted secret `"@ + key@ + "`."@,
    }
}

/// What saving editor `ed` does to state `a`, giving `b`.
pub open spec fn editor_applied(a: &App, ed: &EnvEditor, b: &App) -> bool {
    let vals = parsed(joined(ed.rows()));
    &&& b.input == a.input
    &&& b.confirm == a.confirm
    &&& b.editor is None
    &&& b.show_help == a.show_help
    &&& b.pending_editor == a.pending_editor
    &&& b.should_quit == a.should_quit
    &&& b.reveal == a.reveal
    &&& b.request == a.request
    &&& clamped_from(a, b)
    &&& changed_to(b, env_replaced(a.store@, ed.project@, ed.env@, vals), false)
    &&& b.status@ == "Updated `"@ + ed.project@ + "/"@ + ed.env@ + "` ("@ + decimal(vals.len()) + " secrets)."@
}

/// A string holding the trimmed characters of `s`.
fn trimmed(s: &str) -> (t: String)
    ensures
        t@ == trim(s@),
{
    let cs = to_chars(s);
    let t = trim_chars(&cs);
    string_of(&t)
}

/// The trimmed key and value of `KEY=VALUE` text.
fn split_key_value(v: &str) -> (r: Option<(String, String)>)
    ensures
        match r {
            Some(kv) => key_value(v@) == Some((kv.0@, kv.1@)),
            None => key_value(v@) is None,
        },
{
    let cs = to_chars(v);
    proof {
        lemma_first_index_of(cs@, '=');
    }
    let mut i: usize = 0;
    while i < cs.len()
        invariant
            i <= cs.len(),
            cs@ == v@,
            forall|j: int| 0 <= j < i ==> cs@[j] != '=',
        decreases cs.len() - i,
    {
        if cs[i] == '=' {
            proof {
                lemma_first_index_of(cs@, '=');
                let f = first_index_of(cs@, '=');
                assert(f == Some(i as int)) by {
                    if f is Some && f.unwrap() != i {
                        assert(cs@[f.unwrap()] == '=');
                    }
                }
            }
            let k = trimmed(from_chars(&cs, 0, i).as_str());
            let val = trimmed(from_chars(&cs, i + 1, cs.len()).as_str());
            return Some((k, val));
        }
        i = i + 1;
    }
    proof {
        lemma_first_index_of(cs@, '=');
    }
    None
}

impl App {
    // --- submitting prompts ------------------------------------------------

    /// Create project `value` from the prompt.
    fn submit_new_project(&mut self, value: String)
        ensures
            new_project_effect(old(self), value@, final(self)),
            same_but_store_status_request(old(self), final(self)),
            final(self).request == old(self).request,
    {
        if value.as_str().is_empty() {
            self.status = "Project name cannot be empty.".to_owned();
        } else {
            match create_project(&mut self.store, value.clone()) {
                Ok(()) => {
                    self.mark_changed(false);
                    self.status = concat3("Created project `", value.as_str(), "`.");
                },
                Err(_) => {
                    self.status = concat3("Project `", value.as_str(), "` already exists.");
                },
            }
        }
    }

    /// Create environment `value` in the selected project from the prompt.
    fn submit_new_env(&mut self, value: String)
        ensures
            new_env_effect(old(self), value@, final(self)),
            same_but_store_status_request(old(self), final(self)),
            final(self).request == old(self).request,
    {
        if let Some(project) = self.current_project_name() {
            if value.as_str().is_empty() {
                self.status = "Environment name cannot be empty.".to_owned();
            } else {
                match create_env(&mut self.store, project.as_str(), value.clone()) {
                    Ok(()) => {
                        self.mark_changed(false);
                        self.status = concat3("Created environment `", value.as_str(), "`.");
                    },
                    Err(CmdError::EnvExists(_, _)) => {
                        self.status = concat3("Environment `", value.as_str(), "` already exists.");
                    },
                    Err(_) => {},
                }
            }
        }
    }

    /// Set secret `key` of the selected environment to `value`, reporting
    /// `done` on success.
    fn set_current_value(&mut self, key: String, value: String, done: String)
        ensures
            set_value_effect(old(self), key@, value@, done@, final(self)),
            same_but_store_status_request(old(self), final(self)),
            final(self).request == old(self).request,
    {
        let project = self.current_project_name();
        let env = self.current_env_name();
        if let (Some(project), Some(env)) = (project, env) {
            match set_secret(&mut self.store, project.as_str(), env.as_str(), key, value) {
                Ok(()) => {
                    self.mark_changed(false);
                    self.status = done;
                },
                Err(_) => {},
            }
        }
    }

    /// Duplicate environment `from` of the selected project as `value`.
    fn submit_duplicate(&mut self, from: String, value: String)
        ensures
            duplicate_effect(old(self), from@, value@, final(self)),
            same_but_store_status_request(old(self), final(self)),
            final(self).request == old(self).request,
    {
        if let Some(project) = self.current_project_name() {
            if value.as_str().is_empty() {
                self.status = "Name cannot be empty.".to_owned();
            } else {
                let taken = match self.store.project(project.as_str()) {
                    Some(p) => {
                        proof {
                            lemma_find_key(p@.2, value@);
                        }
                        Some(envs_get(&p.environments, value.as_str()).is_some())
                    },
                    None => None,
                };
                match taken {
                    None => {},
                    Some(true) => {
                        self.status = concat3("Environment `", value.as_str(), "` already exists.");
                    },
                    Some(false) => {
                        match duplicate_env(&mut self.store, project.as_str(), from.as_str(), value.clone()) {
                            Ok(()) => {
                                self.mark_changed(false);
                                self.status = concat5("Duplicated `", from.as_str(), "` to `", value.as_str(), "`.");
                            },
                            Err(_) => {},
                        }
                    },
                }
            }
        }
    }

    /// Carry out a submitted text prompt.
    pub fn submit_input(&mut self, state: InputState)
        ensures
            submit_post(old(self), &state, final(self)),
            final(self).input == old(self).input,
    {
        let InputState { title: _, prompt: _, buffer, action } = state;
        let value = trimmed(buffer.as_str());
        match action {
            InputAction::NewProject => {
                self.submit_new_project(value);
            },
            InputAction::NewEnv => {
                self.submit_new_env(value);
            },
            InputAction::NewSecret => {
                let (key, val) = match split_key_value(value.as_str()) {
                    Some(kv) => kv,
                    None => {
                        self.status = "Use KEY=VALUE format.".to_owned();
                        return;
                    },
                };
                if key.as_str().is_empty() {
                    self.status = "Key cannot be empty.".to_owned();
                    return;
                }
                let done = concat3("Set `", key.as_str(), "`.");
                self.set_current_value(key, val, done);
            },
            InputAction::EditSecret { key } => {
                let done = concat3("Updated `", key.as_str(), "`.");
                self.set_current_value(key, buffer, done);
            },
            InputAction::DuplicateEnv { from } => {
                self.submit_duplicate(from, value);
            },
            InputAction::Import => {
                self.request = Some(Request::Import(value));
            },
            InputAction::Export => {
                self.request = Some(Request::Export(value));
            },
            InputAction::SetFolder => {
                self.request = Some(Request::SetFolder(value));
            },
        }
        self.clamp_indices();
    }

    // --- confirmations -----------------------------------------------------

    /// Carry out an accepted confirmation.
    pub fn apply_confirm(&mut self, action: ConfirmAction)
        ensures
            confirm_post(old(self), &action, final(self)),
    {
        self.confirm = None;
        match action {
            ConfirmAction::DeleteProject(name) => {
                projects_remove(&mut self.store.projects, name.as_str());
                self.status = concat3("Deleted project `", name.as_str(), "`.");
            },
            ConfirmAction::DeleteEnv { project, env } => {
                match self.store.project_mut(project.as_str()) {
                    Some(p) => {
                        envs_remove(&mut p.environments, env.as_str());
                        let is_default = match &p.default_env {
                            Some(d) => string_eq(d.as_str(), env.as_str()),
                            None => false,
                        };
                        if is_default {
                            p.default_env = match envs_get_index(&p.environments, 0) {
                                Some((k, _)) => Some(k.clone()),
                                None => None,
                            };
                        }
                    },
                    None => {},
                }
                self.status = concat5("Deleted environment `", project.as_str(), "/", env.as_str(), "`.");
            },
            ConfirmAction::DeleteSecret { project, env, key } => {
                let ghost s0 = self.store@;
                match self.store.project_mut(project.as_str()) {
                    Some(p) => {
                        let ghost p0 = p@;
                        proof {
                            lemma_insert_same(s0, project@, p0);
                        }
                        match envs_get_mut(&mut p.environments, env.as_str()) {
                            Some(e) => {
                                secrets_remove(&mut e.values, key.as_str());
                            },
                            None => {},
                        }
                    },
                    None => {},
                }
                self.status = concat3("Deleted secret `", key.as_str(), "`.");
            },
        }
        self.mark_changed(true);
        self.clamp_indices();
    }

    // --- the in-app editor -------------------------------------------------

    /// Save the in-app editor: its text, parsed as `.env`, replaces the
    /// environment it was opened on.
    pub fn apply_editor(&mut self, ed: EnvEditor)
        ensures
            editor_applied(old(self), &ed, final(self)),
    {
        self.editor = None;
        let text = ed.text();
        let values = parse(text.as_str());
        let count = secrets_len(&values);
        let ghost s0 = self.store@;
        match self.store.project_mut(ed.project.as_str()) {
            Some(p) => {
                let ghost p0 = p@;
                proof {
                    lemma_insert_same(s0, ed.project@, p0);
                }
                match envs_get_mut(&mut p.environments, ed.env.as_str()) {
                    Some(e) => {
                        e.values = values;
                    },
                    None => {},
                }
            },
            None => {},
        }
        self.mark_changed(false);
        self.clamp_indices();
        let mut m = concat5("Updated `", ed.project.as_str(), "/", ed.env.as_str(), "` (");
        let n = decimal_text(count as u64);
        push_str(&mut m, n.as_str());
        push_str(&mut m, " secrets).");
        self.status = m;
    }
}

/// `(i + delta)` taken modulo `n` into `0..n`, as `i32::rem_euclid` gives it.
pub fn wrap_index(i: usize, delta: i32, n: usize) -> (r: usize)
    requires
        n > 0,
    ensures
        r == (i + delta) % (n as int),
        r < n,
{
    let m = n as u128;
    let a = (i as u128) % m;
    proof {
        vstd::arithmetic::div_mod::lemma_mod_bound(i as int, n as int);
    }
    let r: u128 = if delta >= 0 {
        let d = (delta as u128) % m;
        proof {
            vstd::arithmetic::div_mod::lemma_mod_bound(delta as int, n as int);
            vstd::arithmetic::div_mod::lemma_add_mod_noop(i as int, delta as int, n as int);
        }
        (a + d) % m
    } else {
        let e: i64 = -(delta as i64);
        let d = (e as u128) % m;
        proof {
            vstd::arithmetic::div_mod::lemma_mod_bound(e as int, n as int);
            vstd::arithmetic::div_mod::lemma_sub_mod_noop(i as int, e as int, n as int);
            vstd::arithmetic::div_mod::lemma_mod_add_multiples_vanish(a - d, n as int);
        }
        (a + m - d) % m
    };
    proof {
        vstd::arithmetic::div_mod::lemma_mod_bound((i + delta) as int, n as int);
    }
    r as usize
}

// --- transitions ----------------------------------------------------------------

/// Focus moved to the next pane.
pub open spec fn cycled(a: &App, b: &App) -> bool {
    &&& b.focus == (match a.focus {
        Focus::Projects => Focus::Envs,
        Focus::Envs => Focus::Secrets,
        Focus::Secrets => Focus::Projects,
    })
    &&& b.proj_idx == a.proj_idx && b.env_idx == a.env_idx
        && b.secret_idx == a.secret_idx
    &&& same_modes(a, b)
    &&& same_data(a, b)
    &&& b.reveal == a.reveal
    &&& b.status == a.status
}

/// Focus moved right into the selected entry, when there is one.
pub open spec fn went_deeper(a: &App, b: &App) -> bool {
    &&& b.focus == (match a.focus {
        Focus::Projects => if a.sel_project() is Some {
            Focus::Envs
        } else {
            Focus::Projects
        },
        Focus::Envs => if a.sel_env() is Some {
            Focus::Secrets
        } else {
            Focus::Envs
        },
        Focus::Secrets => Focus::Secrets,
    })
    &&& b.proj_idx == a.proj_idx && b.env_idx == a.env_idx
        && b.secret_idx == a.secret_idx
    &&& same_modes(a, b)
    &&& same_data(a, b)
    &&& b.reveal == a.reveal
    &&& b.status == a.status
}

/// Focus moved one pane left.
pub open spec fn went_shallower(a: &App, b: &App) -> bool {
    &&& b.focus == (match a.focus {
        Focus::Secrets => Focus::Envs,
        Focus::Envs => Focus::Projects,
        Focus::Projects => Focus::Projects,
    })
    &&& b.proj_idx == a.proj_idx && b.env_idx == a.env_idx
        && b.secret_idx == a.secret_idx
    &&& same_modes(a, b)
    &&& same_data(a, b)
    &&& b.reveal == a.reveal
    &&& b.status == a.status
}

/// The focused pane's selection moved by `delta`, wrapping around.
pub open spec fn selection_moved(a: &App, b: &App, delta: i32) -> bool {
    &&& ({
        let n = a.pane_count(a.focus);
        if n == 0 {
            *b == *a
        } else {
            &&& same_modes(a, b)
            &&& same_data(a, b)
            &&& b.focus == a.focus
            &&& b.reveal == a.reveal
            &&& b.status == a.status
            &&& match a.focus {
                Focus::Projects => {
                    &&& b.proj_idx == (a.proj_idx + delta) % (n as int)
                    &&& b.env_idx == 0
                    &&& b.secret_idx == 0
                },
                Focus::Envs => {
                    &&& b.proj_idx == a.proj_idx
                    &&& b.env_idx == (a.env_idx + delta) % (n as int)
                    &&& b.secret_idx == 0
                },
                Focus::Secrets => {
                    &&& b.proj_idx == a.proj_idx
                    &&& b.env_idx == a.env_idx
                    &&& b.secret_idx == (a.secret_idx + delta) % (n as int)
                },
            }
        }
    })
    &&& a.in_range() ==> b.in_range()
}

/// The prompt for a new entry of the focused pane opened.
pub open spec fn new_started(a: &App, b: &App) -> bool {
    &&& same_core(a, b)
    &&& b.confirm == a.confirm
    &&& b.editor == a.editor
    &&& b.pending_editor == a.pending_editor
    &&& match a.focus {
        Focus::Projects => prompt_is(b.input, "New project"@, "Project name:"@, Seq::empty())
        && b.input.unwrap().action is NewProject && b.status == a.status,
        Focus::Envs => if a.sel_project() is None {
            b.input == a.input && b.status@ == "Create a project first."@
        } else {
            prompt_is(b.input, "New environment"@, "Environment name:"@, Seq::empty())
            && b.input.unwrap().action is NewEnv && b.status == a.status
        },
        Focus::Secrets => if a.sel_env() is None {
            b.input == a.input && b.status@ == "Create an environment first."@
        } else {
            prompt_is(b.input, "New secret"@, "KEY=VALUE:"@, Seq::empty())
            && b.input.unwrap().action is NewSecret && b.status == a.status
        },
    }
}

/// The in-app editor opened over the selected environment.
pub open spec fn inline_editor_opened(a: &App, b: &App) -> bool {
    &&& same_core(a, b)
    &&& b.input == a.input
    &&& b.confirm == a.confirm
    &&& b.pending_editor == a.pending_editor
    &&& match a.sel_env() {
        None => b.editor == a.editor && b.status@
        == "Select an environment to edit."@,
        Some(e) => {
            &&& b.status == a.status
            &&& b.editor is Some
            &&& b.editor.unwrap().wf()
            &&& b.editor.unwrap().project@ == a.sel_project().unwrap().0
            &&& b.editor.unwrap().env@ == e.0
            &&& b.editor.unwrap().rows() == opening_rows(serialized(e.1))
            &&& b.editor.unwrap().cx == 0 && b.editor.unwrap().cy == 0
        },
    }
}

/// The prompt to edit the selected secret opened.
pub open spec fn secret_edit_started(a: &App, b: &App) -> bool {
    &&& same_core(a, b)
    &&& b.confirm == a.confirm
    &&& b.editor == a.editor
    &&& b.pending_editor == a.pending_editor
    &&& b.status == a.status
    &&& if a.focus == Focus::Secrets && a.sel_secret() is Some {
        let k = a.sel_secret().unwrap().0;
        &&& prompt_is(
            b.input,
            "Edit "@ + k,
            "Value:"@,
            value_or_empty(a.sel_env().unwrap().1, k),
        )
        &&& (b.input.unwrap().action matches InputAction::EditSecret { key } && key@ == k)
    } else {
        b.input == a.input
    }
}

/// An edit of the selected secret (on the Secrets pane) or of the whole
/// selected environment started.
pub open spec fn edit_started(a: &App, b: &App) -> bool {
    if a.focus == Focus::Secrets && a.sel_secret() is Some {
        secret_edit_started(a, b)
    } else {
        inline_editor_opened(a, b)
    }
}

/// An external edit of the selected environment was asked for.
pub open spec fn external_edit_requested(a: &App, b: &App) -> bool {
    &&& same_core(a, b)
    &&& b.input == a.input
    &&& b.confirm == a.confirm
    &&& b.editor == a.editor
    &&& a.sel_env() is None ==> b.pending_editor == a.pending_editor
        && b.status@ == "Select an environment to edit."@
    &&& a.sel_env() is Some ==> b.pending_editor && b.status == a.status
}

/// A deletion of the focused entry waits for confirmation.
pub open spec fn delete_started(a: &App, b: &App) -> bool {
    &&& same_core(a, b)
    &&& b.input == a.input
    &&& b.editor == a.editor
    &&& b.pending_editor == a.pending_editor
    &&& b.status == a.status
    &&& match a.focus {
        Focus::Projects => match a.sel_project() {
            Some(p) => {
                &&& b.confirm is Some
                &&& b.confirm.unwrap().message@ == "Delete project `"@ + p.0
                + "` and all its environments?"@
                &&& (b.confirm.unwrap().action matches ConfirmAction::DeleteProject(n) && n@ == p.0)
            },
            None => b.confirm == a.confirm,
        },
        Focus::Envs => match a.sel_env() {
            Some(e) => {
                let pn = a.sel_project().unwrap().0;
                &&& b.confirm is Some
                &&& b.confirm.unwrap().message@ == "Delete environment `"@ + pn + "/"@ + e.0 + "`?"@
                &&& (b.confirm.unwrap().action matches ConfirmAction::DeleteEnv { project, env }
                    && project@ == pn && env@ == e.0)
            },
            None => b.confirm == a.confirm,
        },
        Focus::Secrets => match a.sel_secret() {
            Some(k) => {
                let pn = a.sel_project().unwrap().0;
                let en = a.sel_env().unwrap().0;
                &&& b.confirm is Some
                &&& b.confirm.unwrap().message@ == "Delete secret `"@ + k.0 + "` from `"@ + pn + "/"@
                + en + "`?"@
                &&& (b.confirm.unwrap().action matches ConfirmAction::DeleteSecret { project, env, key }
                    && project@ == pn && env@ == en && key@ == k.0)
            },
            None => b.confirm == a.confirm,
        },
    }
}

/// The prompt to duplicate the selected environment opened.
pub open spec fn duplicate_started(a: &App, b: &App) -> bool {
    &&& same_core(a, b)
    &&& b.confirm == a.confirm
    &&& b.editor == a.editor
    &&& b.pending_editor == a.pending_editor
    &&& a.focus != Focus::Envs ==> b.input == a.input && b.status@
        == "Duplicate works on environments (focus the Envs pane)."@
    &&& a.focus == Focus::Envs ==> b.status == a.status && match a.sel_env() {
        Some(e) => prompt_is(b.input, "Duplicate "@ + e.0, "New environment name:"@, Seq::empty())
        && (b.input.unwrap().action matches InputAction::DuplicateEnv { from } && from@ == e.0),
        None => b.input == a.input,
    }
}

/// The prompt for a file to import opened.
pub open spec fn import_started(a: &App, b: &App) -> bool {
    &&& same_core(a, b)
    &&& b.confirm == a.confirm
    &&& b.editor == a.editor
    &&& b.pending_editor == a.pending_editor
    &&& a.sel_env() is None ==> b.input == a.input && b.status@
        == "Select an environment to import into."@
    &&& a.sel_env() is Some ==> prompt_is(b.input, "Import .env"@, "Path to .env file:"@, Seq::empty())
        && b.input.unwrap().action is Import && b.status == a.status
}

/// The prompt for a file to export to opened.
pub open spec fn export_started(a: &App, b: &App) -> bool {
    &&& same_core(a, b)
    &&& b.confirm == a.confirm
    &&& b.editor == a.editor
    &&& b.pending_editor == a.pending_editor
    &&& a.sel_env() is None ==> b.input == a.input && b.status@
        == "Select an environment to export."@
    &&& a.sel_env() is Some ==> prompt_is(b.input, "Export .env"@, "Output path:"@, ".env"@)
        && b.input.unwrap().action is Export && b.status == a.status
}

/// The prompt for the selected project's folder opened.
pub open spec fn folder_prompt_started(a: &App, b: &App) -> bool {
    &&& same_core(a, b)
    &&& b.confirm == a.confirm
    &&& b.editor == a.editor
    &&& b.pending_editor == a.pending_editor
    &&& a.focus != Focus::Projects || a.sel_project() is None ==> b.input == a.input && b.status@ == "Focus a project to assign its folder."@
    &&& a.focus == Focus::Projects && a.sel_project() is Some ==> prompt_is(
        b.input,
        "Assign folder"@,
        "Folder path (blank = current dir):"@,
        match a.sel_project().unwrap().1.1 {
            Some(f) => f,
            None => Seq::empty(),
        },
    ) && b.input.unwrap().action is SetFolder && b.status == a.status
}


/// The command a key stands for in the panes.
pub open spec fn nav_command(k: KeyPress) -> NavCommand {
    match k.key {
        Key::Char(c) => if (c == 'c' && k.only_ctrl) || c == 'q' {
            NavCommand::Quit
        } else if c == '?' {
            NavCommand::Help
        } else if c == 's' {
            NavCommand::ToggleReveal
        } else if c == 'j' {
            NavCommand::Down
        } else if c == 'k' {
            NavCommand::Up
        } else if c == 'l' {
            NavCommand::Deeper
        } else if c == 'h' {
            NavCommand::Shallower
        } else if c == 'n' {
            NavCommand::New
        } else if c == 'e' {
            NavCommand::Edit
        } else if c == 'a' {
            NavCommand::EditInline
        } else if c == 'E' {
            NavCommand::EditExternal
        } else if c == 'd' {
            NavCommand::Delete
        } else if c == 'y' {
            NavCommand::Duplicate
        } else if c == 'i' {
            NavCommand::Import
        } else if c == 'x' {
            NavCommand::Export
        } else if c == 'D' {
            NavCommand::SetDefault
        } else if c == 'f' {
            NavCommand::SetFolder
        } else {
            NavCommand::Nothing
        },
        Key::Tab => NavCommand::CycleFocus,
        Key::Down => NavCommand::Down,
        Key::Up => NavCommand::Up,
        Key::Right => NavCommand::Deeper,
        Key::Left => NavCommand::Shallower,
        Key::Enter => NavCommand::Enter,
        _ => NavCommand::Nothing,
    }
}

/// Everything but the help overlay, the reveal switch and quitting is the
/// same.
pub open spec fn same_but_switches(a: &App, b: &App) -> bool {
    &&& same_selection(a, b)
    &&& same_data(a, b)
    &&& b.input == a.input
    &&& b.confirm == a.confirm
    &&& b.editor == a.editor
    &&& b.pending_editor == a.pending_editor
    &&& b.request == a.request
    &&& b.status == a.status
}

/// The selected environment became its project's default.
pub open spec fn default_env_set(a: &App, b: &App) -> bool {
    &&& same_modes(a, b)
    &&& same_selection(a, b)
    &&& b.reveal == a.reveal
    &&& if a.focus != Focus::Envs {
        same_data(a, b) && b.status@ == "Set default works on environments."@
    } else {
        match a.sel_env() {
            Some(e) => {
                let pn = a.sel_project().unwrap().0;
                &&& changed_to(b, default_set(a.store@, pn, e.0), false)
                &&& b.status@ == "Default env for `"@ + pn + "` is now `"@ + e.0 + "`."@
            },
            None => same_data(a, b) && b.status == a.status,
        }
    }
}

/// Enter in the panes: drill in, or edit the selected secret.
pub open spec fn entered(a: &App, b: &App) -> bool {
    match a.focus {
        Focus::Projects | Focus::Envs => went_deeper(a, b),
        Focus::Secrets => secret_edit_started(a, b),
    }
}

/// What command `c` does to state `a` in the panes, giving `b`.
pub open spec fn nav_post(c: NavCommand, a: &App, b: &App) -> bool {
    match c {
        NavCommand::Quit => same_but_switches(a, b) && b.should_quit && b.show_help == a.show_help && b.reveal == a.reveal,
        NavCommand::Help => same_but_switches(a, b) && b.show_help && b.should_quit == a.should_quit && b.reveal == a.reveal,
        NavCommand::ToggleReveal => same_but_switches(a, b) && b.reveal == !a.reveal && b.show_help == a.show_help
            && b.should_quit == a.should_quit,
        NavCommand::CycleFocus => cycled(a, b),
        NavCommand::Down => selection_moved(a, b, 1i32),
        NavCommand::Up => selection_moved(a, b, -1i32),
        NavCommand::Deeper => went_deeper(a, b),
        NavCommand::Shallower => went_shallower(a, b),
        NavCommand::Enter => entered(a, b),
        NavCommand::New => new_started(a, b),
        NavCommand::Edit => edit_started(a, b),
        NavCommand::EditInline => inline_editor_opened(a, b),
        NavCommand::EditExternal => external_edit_requested(a, b),
        NavCommand::Delete => delete_started(a, b),
        NavCommand::Duplicate => duplicate_started(a, b),
        NavCommand::Import => import_started(a, b),
        NavCommand::Export => export_started(a, b),
        NavCommand::SetDefault => default_env_set(a, b),
        NavCommand::SetFolder => folder_prompt_started(a, b),
        NavCommand::Nothing => *b == *a,
    }
}

/// Everything but the open prompt is the same.
pub open spec fn same_but_input(a: &App, b: &App) -> bool {
    &&& same_selection(a, b)
    &&& same_data(a, b)
    &&& b.confirm == a.confirm
    &&& b.editor == a.editor
    &&& b.show_help == a.show_help
    &&& b.pending_editor == a.pending_editor
    &&& b.should_quit == a.should_quit
    &&& b.request == a.request
    &&& b.reveal == a.reveal
    &&& b.status == a.status
}

/// The open prompt's text changed to `buffer`, nothing else.
pub open spec fn buffer_now(a: &App, b: &App, buffer: Seq<char>) -> bool {
    &&& same_but_input(a, b)
    &&& b.input is Some
    &&& b.input.unwrap().title == a.input.unwrap().title
    &&& b.input.unwrap().prompt == a.input.unwrap().prompt
    &&& b.input.unwrap().action == a.input.unwrap().action
    &&& b.input.unwrap().buffer@ == buffer
}

/// What key `k` does to an open prompt.
pub open spec fn input_key_post(a: &App, k: KeyPress, b: &App) -> bool {
    match k.key {
        Key::Esc => same_but_input(a, b) && b.input is None,
        Key::Enter => submit_post(a, &a.input.unwrap(), b) && b.input is None,
        Key::Backspace => buffer_now(
            a,
            b,
            if a.input.unwrap().buffer@.len() > 0 {
                a.input.unwrap().buffer@.drop_last()
            } else {
                a.input.unwrap().buffer@
            },
        ),
        Key::Char(c) => buffer_now(a, b, a.input.unwrap().buffer@.push(c)),
        _ => *b == *a,
    }
}

/// Whether a key accepts a confirmation.
pub open spec fn accepts(k: KeyPress) -> bool {
    k.key == Key::Char('y') || k.key == Key::Char('Y') || k.key == Key::Enter
}

/// Everything but the open confirmation is the same.
pub open spec fn same_but_confirm(a: &App, b: &App) -> bool {
    &&& same_selection(a, b)
    &&& same_data(a, b)
    &&& b.input == a.input
    &&& b.editor == a.editor
    &&& b.show_help == a.show_help
    &&& b.pending_editor == a.pending_editor
    &&& b.should_quit == a.should_quit
    &&& b.request == a.request
    &&& b.reveal == a.reveal
    &&& b.status == a.status
}

/// What key `k` does to an open confirmation.
pub open spec fn confirm_key_post(a: &App, k: KeyPress, b: &App) -> bool {
    if accepts(k) {
        confirm_post(a, &a.confirm.unwrap().action, b)
    } else {
        same_but_confirm(a, b) && b.confirm is None
    }
}

/// Everything but the open editor and the status line is the same.
pub open spec fn same_but_editor(a: &App, b: &App) -> bool {
    &&& same_selection(a, b)
    &&& same_data(a, b)
    &&& b.input == a.input
    &&& b.confirm == a.confirm
    &&& b.show_help == a.show_help
    &&& b.pending_editor == a.pending_editor
    &&& b.should_quit == a.should_quit
    &&& b.request == a.request
    &&& b.reveal == a.reveal
}

/// What key `k` does to the open editor `x`, giving `y`.
pub open spec fn editor_step(x: &EnvEditor, k: KeyPress, y: &EnvEditor) -> bool {
    match k.key {
        Key::Enter => crate::editor::line_split(x, y),
        Key::Backspace => crate::editor::backspaced(x, y),
        Key::Delete => crate::editor::deleted_forward(x, y),
        Key::Left => crate::editor::moved_left(x, y),
        Key::Right => crate::editor::moved_right(x, y),
        Key::Up => crate::editor::moved_up(x, y),
        Key::Down => crate::editor::moved_down(x, y),
        Key::Home => x.moved_to(y, x.rows(), 0, x.cy as int),
        Key::End => x.moved_to(y, x.rows(), x.rows()[x.cy as int].len() as int, x.cy as int),
        Key::Tab => if x.cx < usize::MAX - 1 {
            x.moved_to(
                y,
                x.rows().update(
                    x.cy as int,
                    crate::editor::insert_at(
                        crate::editor::insert_at(x.rows()[x.cy as int], x.cx as int, ' '),
                        x.cx + 1,
                        ' ',
                    ),
                ),
                x.cx + 2,
                x.cy as int,
            )
        } else {
            *y == *x
        },
        Key::Char(c) => if !k.ctrl && x.cx < usize::MAX {
            crate::editor::char_inserted(x, y, c)
        } else {
            *y == *x
        },
        _ => *y == *x,
    }
}

/// What key `k` does while the editor is open.
pub open spec fn editor_key_post(a: &App, k: KeyPress, b: &App) -> bool {
    if k.key == Key::Char('s') && k.only_ctrl {
        editor_applied(a, &a.editor.unwrap(), b)
    } else if k.key == Key::Esc || (k.key == Key::Char('c') && k.only_ctrl) {
        same_but_editor(a, b) && b.editor is None && b.status@ == "Edit cancelled \u{2014} no changes made."@
    } else {
        &&& same_but_editor(a, b)
        &&& b.status == a.status
        &&& b.editor is Some
        &&& editor_step(&a.editor.unwrap(), k, &b.editor.unwrap())
    }
}

/// What key `k` does to state `a`: the open editor, prompt or confirmation
/// takes it first, then the help overlay, then the panes.
pub open spec fn key_post(a: &App, k: KeyPress, b: &App) -> bool {
    if a.editor is Some {
        editor_key_post(a, k, b)
    } else if a.input is Some {
        input_key_post(a, k, b)
    } else if a.confirm is Some {
        confirm_key_post(a, k, b)
    } else if a.show_help {
        same_but_switches(a, b) && !b.show_help && b.should_quit == a.should_quit && b.reveal == a.reveal
    } else {
        nav_post(nav_command(k), a, b)
    }
}

impl App {
    /// An open editor has its cursor on a line.
    pub open spec fn editor_ok(&self) -> bool {
        self.editor matches Some(ed) ==> ed.wf()
    }

    /// Whether an open in-app editor has its cursor in place, as the key
    /// handlers need.
    pub fn editor_ready(&self) -> (b: bool)
        ensures
            b == self.editor_ok(),
    {
        match &self.editor {
            Some(ed) => ed.is_wf(),
            None => true,
        }
    }

    /// Make the selected environment its project's default.
    pub fn set_default_env(&mut self)
        ensures
            default_env_set(old(self), final(self)),
    {
        if self.focus != Focus::Envs {
            self.status = "Set default works on environments.".to_owned();
            return;
        }
        let project = self.current_project_name();
        let env = self.current_env_name();
        if let (Some(project), Some(env)) = (project, env) {
            match self.store.project_mut(project.as_str()) {
                Some(p) => {
                    p.default_env = Some(env.clone());
                },
                None => {},
            }
            self.mark_changed(false);
            self.status = concat5("Default env for `", project.as_str(), "` is now `", env.as_str(), "`.");
        }
    }

    /// Enter in the panes: drill into the selected project or environment,
    /// or edit the selected secret.
    pub fn on_enter(&mut self)
        ensures
            entered(old(self), final(self)),
    {
        match self.focus {
            Focus::Projects | Focus::Envs => self.focus_deeper(),
            Focus::Secrets => self.start_edit_secret(),
        }
    }

    /// Handle a key in the panes.
    pub fn on_nav_key(&mut self, k: KeyPress)
        ensures
            nav_post(nav_command(k), old(self), final(self)),
    {
        match nav_command_of(k) {
            NavCommand::Quit => self.should_quit = true,
            NavCommand::Help => self.show_help = true,
            NavCommand::ToggleReveal => self.reveal = !self.reveal,
            NavCommand::CycleFocus => self.cycle_focus(),
            NavCommand::Down => self.move_selection(1),
            NavCommand::Up => self.move_selection(-1),
            NavCommand::Deeper => self.focus_deeper(),
            NavCommand::Shallower => self.focus_shallower(),
            NavCommand::Enter => self.on_enter(),
            NavCommand::New => self.start_new(),
            NavCommand::Edit => self.start_edit(),
            NavCommand::EditInline => self.open_inline_editor(),
            NavCommand::EditExternal => self.request_edit_env(),
            NavCommand::Delete => self.start_delete(),
            NavCommand::Duplicate => self.start_duplicate(),
            NavCommand::Import => self.start_import(),
            NavCommand::Export => self.start_export(),
            NavCommand::SetDefault => self.set_default_env(),
            NavCommand::SetFolder => self.start_set_folder(),
            NavCommand::Nothing => {},
        }
    }

    /// Handle a key while a prompt is open.
    pub fn on_input_key(&mut self, k: KeyPress)
        requires
            old(self).input is Some,
        ensures
            input_key_post(old(self), k, final(self)),
    {
        match k.key {
            Key::Esc => {
                self.input = None;
            },
            Key::Enter => {
                let state = self.input.take().unwrap();
                self.submit_input(state);
            },
            Key::Backspace => {
                let mut st = self.input.take().unwrap();
                let cs = to_chars(st.buffer.as_str());
                if cs.len() > 0 {
                    st.buffer = from_chars(&cs, 0, cs.len() - 1);
                }
                self.input = Some(st);
            },
            Key::Char(c) => {
                let mut st = self.input.take().unwrap();
                st.buffer.push(c);
                self.input = Some(st);
            },
            _ => {},
        }
    }

    /// Handle a key while a confirmation is open: `y`, `Y` or Enter accept
    /// it, any other key dismisses it.
    pub fn on_confirm_key(&mut self, k: KeyPress)
        requires
            old(self).confirm is Some,
        ensures
            confirm_key_post(old(self), k, final(self)),
    {
        let accepted = match k.key {
            Key::Char(c) => c == 'y' || c == 'Y',
            Key::Enter => true,
            _ => false,
        };
        if accepted {
            let state = self.confirm.take().unwrap();
            self.apply_confirm(state.action);
        } else {
            self.confirm = None;
        }
    }

    /// Handle a key while the in-app editor is open: Ctrl-S saves, Esc or
    /// Ctrl-C cancels, other keys edit.
    pub fn on_editor_key(&mut self, k: KeyPress)
        requires
            old(self).editor is Some,
            old(self).editor_ok(),
        ensures
            editor_key_post(old(self), k, final(self)),
            final(self).editor_ok(),
    {
        let is_char = |c: char| -> (b: bool)
            ensures
                b == (k.key == Key::Char(c)),
            {
                match k.key {
                    Key::Char(x) => x == c,
                    _ => false,
                }
            };
        if is_char('s') && k.only_ctrl {
            let ed = self.editor.take().unwrap();
            self.apply_editor(ed);
            return;
        }
        if k.key == Key::Esc || (is_char('c') && k.only_ctrl) {
            self.editor = None;
            self.status = "Edit cancelled \u{2014} no changes made.".to_owned();
            return;
        }
        let mut ed = self.editor.take().unwrap();
        match k.key {
            Key::Enter => ed.insert_newline(),
            Key::Backspace => ed.backspace(),
            Key::Delete => ed.delete_forward(),
            Key::Left => ed.move_left(),
            Key::Right => ed.move_right(),
            Key::Up => ed.move_up(),
            Key::Down => ed.move_down(),
            Key::Home => {
                ed.cx = 0;
            },
            Key::End => {
                ed.cx = ed.cur_len();
            },
            Key::Tab => {
                if ed.cx < usize::MAX - 1 {
                    let ghost e0 = ed;
                    ed.insert_char(' ');
                    ed.insert_char(' ');
                    assert(ed.rows() =~= e0.rows().update(
                        e0.cy as int,
                        crate::editor::insert_at(
                            crate::editor::insert_at(e0.rows()[e0.cy as int], e0.cx as int, ' '),
                            e0.cx + 1,
                            ' ',
                        ),
                    ));
                }
            },
            Key::Char(c) => {
                if !k.ctrl && ed.cx < usize::MAX {
                    ed.insert_char(c);
                }
            },
            _ => {},
        }
        self.editor = Some(ed);
    }

    /// Handle a key press.
    pub fn on_key(&mut self, k: KeyPress)
        requires
            old(self).editor_ok(),
        ensures
            key_post(old(self), k, final(self)),
            final(self).editor_ok(),
            old(self).in_range() ==> final(self).in_range(),
    {
        let ghost a = *self;
        if self.editor.is_some() {
            self.on_editor_key(k);
        } else if self.input.is_some() {
            self.on_input_key(k);
        } else if self.confirm.is_some() {
            self.on_confirm_key(k);
        } else if self.show_help {
            self.show_help = false;
        } else {
            self.on_nav_key(k);
        }
        proof {
            if a.in_range() {
                law_keys_keep_selection_in_range(a, k, *self);
            }
        }
    }
}

/// The command a key stands for in the panes.
pub fn nav_command_of(k: KeyPress) -> (c: NavCommand)
    ensures
        c == nav_command(k),
{
    match k.key {
        Key::Char(c) => if (c == 'c' && k.only_ctrl) || c == 'q' {
            NavCommand::Quit
        } else if c == '?' {
            NavCommand::Help
        } else if c == 's' {
            NavCommand::ToggleReveal
        } else if c == 'j' {
            NavCommand::Down
        } else if c == 'k' {
            NavCommand::Up
        } else if c == 'l' {
            NavCommand::Deeper
        } else if c == 'h' {
            NavCommand::Shallower
        } else if c == 'n' {
            NavCommand::New
        } else if c == 'e' {
            NavCommand::Edit
        } else if c == 'a' {
            NavCommand::EditInline
        } else if c == 'E' {
            NavCommand::EditExternal
        } else if c == 'd' {
            NavCommand::Delete
        } else if c == 'y' {
            NavCommand::Duplicate
        } else if c == 'i' {
            NavCommand::Import
        } else if c == 'x' {
            NavCommand::Export
        } else if c == 'D' {
            NavCommand::SetDefault
        } else if c == 'f' {
            NavCommand::SetFolder
        } else {
            NavCommand::Nothing
        },
        Key::Tab => NavCommand::CycleFocus,
        Key::Down => NavCommand::Down,
        Key::Up => NavCommand::Up,
        Key::Right => NavCommand::Deeper,
        Key::Left => NavCommand::Shallower,
        Key::Enter => NavCommand::Enter,
        _ => NavCommand::Nothing,
    }
}


// --- the outcomes of outside work ----------------------------------------

/// Why an edit in an external editor came to nothing, with the error text.
pub enum EditFailure {
    /// The temporary file could not be written.
    CreateFile(String),
    /// The editor exited without success.
    NotSaved,
    /// The editor could not be started.
    Launch(String),
    /// The edited file could not be read back.
    ReadBack(String),
}

/// The status line for a failed external edit.
pub open spec fn edit_failure_message(f: EditFailure) -> Seq<char> {
    match f {
        EditFailure::CreateFile(e) => "Could not create temp file: "@ + e@,
        EditFailure::NotSaved => "Editor exited without saving; no changes made."@,
        EditFailure::Launch(e) => "Could not launch editor: "@ + e@,
        EditFailure::ReadBack(e) => "Could not read edited file: "@ + e@,
    }
}

/// The store with the secrets of the selected environment (found by the
/// names of the selection) replaced by `vals`.
pub open spec fn selected_replaced(a: &App, vals: SecretsModel) -> StoreModel {
    match (a.sel_project(), a.sel_env()) {
        (Some(p), Some(e)) => env_replaced(a.store@, p.0, e.0, vals),
        _ => a.store@,
    }
}

/// Everything but the store, what is owed of saving it and the status line
/// is the same.
pub open spec fn same_but_data(a: &App, b: &App) -> bool {
    &&& same_modes(a, b)
    &&& same_selection(a, b)
    &&& b.reveal == a.reveal
}

/// What importing `text` (or failing to read it) read from `path` does.
pub open spec fn import_done(a: &App, path: Seq<char>, text: Result<Seq<char>, Seq<char>>, b: &App) -> bool {
    &&& same_but_data(a, b)
    &&& match text {
        Err(e) => same_data(a, b) && b.status@ == "Import failed: "@ + e,
        Ok(t) => match (a.sel_project(), a.sel_env()) {
            (Some(p), Some(e)) => {
                let vals = inserted_all(lookup(lookup(a.store@, p.0).unwrap().2, e.0).unwrap(), parsed(t));
                &&& lookup(a.store@, p.0) is Some && lookup(lookup(a.store@, p.0).unwrap().2, e.0) is Some ==> changed_to(
                    b,
                    env_replaced(a.store@, p.0, e.0, vals),
                    false,
                ) && b.status@ == "Imported "@ + decimal(parsed(t).len()) + " secrets from "@ + path + "."@
                &&& !(lookup(a.store@, p.0) is Some && lookup(lookup(a.store@, p.0).unwrap().2, e.0) is Some)
                    ==> same_data(a, b) && b.status == a.status
            },
            _ => same_data(a, b) && b.status == a.status,
        },
    }
}

/// The `.env` text of the selected environment with every reference
/// resolved, and how many entries it holds; `None` when no environment is
/// selected.
pub open spec fn export_doc(a: &App) -> Option<Result<(Seq<char>, nat), RefError>> {
    match (a.sel_project(), a.sel_env()) {
        (Some(p), Some(e)) => Some(
            match export_entries(a.store@, p.0, e.0, e.1, false) {
                Ok(vals) => Ok((serialized(vals), vals.len())),
                Err(x) => Err(x),
            },
        ),
        _ => None,
    }
}

/// The folder of the selected project was set to `folder` (or cleared).
pub open spec fn folder_set(a: &App, folder: Option<Seq<char>>, b: &App) -> bool {
    &&& same_but_data(a, b)
    &&& match a.sel_project() {
        None => same_data(a, b) && b.status == a.status,
        Some(p) => {
            &&& changed_to(
                b,
                match lookup(a.store@, p.0) {
                    Some(pm) => insert_entry(a.store@, p.0, (pm.0, folder, pm.2)),
                    None => a.store@,
                },
                false,
            )
            &&& b.status@ == match folder {
                Some(f) => "Linked `"@ + p.0 + "` to "@ + f + "."@,
                None => "Cleared folder for `"@ + p.0 + "`."@,
            }
        },
    }
}

/// What applying the text `edited` from an external editor does.
pub open spec fn external_edit_applied(a: &App, edited: Seq<char>, b: &App) -> bool {
    &&& same_modes(a, b)
    &&& b.reveal == a.reveal
    &&& match (a.sel_project(), a.sel_env()) {
        (Some(p), Some(e)) => {
            &&& clamped_from(a, b)
            &&& changed_to(b, selected_replaced(a, parsed(edited)), false)
            &&& b.status@ == "Updated `"@ + p.0 + "/"@ + e.0 + "` ("@ + decimal(parsed(edited).len())
                + " secrets) from editor."@
        },
        _ => *b == *a,
    }
}

impl App {
    /// Replace the secrets of `project/env` by `values`.
    fn replace_values(&mut self, project: &str, env: &str, values: IndexMap<String, String>)
        ensures
            final(self).store@ == env_replaced(old(self).store@, project@, env@, secret_entries(values)),
            same_modes(old(self), final(self)),
            same_selection(old(self), final(self)),
            final(self).reveal == old(self).reveal,
            final(self).status == old(self).status,
            final(self).save_due == old(self).save_due,
            final(self).report_save_failure == old(self).report_save_failure,
    {
        let ghost s0 = self.store@;
        match self.store.project_mut(project) {
            Some(p) => {
                let ghost p0 = p@;
                proof {
                    lemma_insert_same(s0, project@, p0);
                }
                match envs_get_mut(&mut p.environments, env) {
                    Some(e) => {
                        e.values = values;
                    },
                    None => {},
                }
            },
            None => {},
        }
    }

    /// Import the `.env` text read from `path` into the selected
    /// environment, or report that it could not be read.
    pub fn import_text(&mut self, path: &str, text: Result<String, String>)
        ensures
            import_done(
                old(self),
                path@,
                match text {
                    Ok(t) => Ok(t@),
                    Err(e) => Err(e@),
                },
                final(self),
            ),
    {
        let t = match text {
            Ok(t) => t,
            Err(e) => {
                let mut m = "Import failed: ".to_owned();
                push_str(&mut m, e.as_str());
                self.status = m;
                return;
            },
        };
        let parsed_values = parse(t.as_str());
        let count = secrets_len(&parsed_values);
        let project = self.current_project_name();
        let env = self.current_env_name();
        let (project, env) = match (project, env) {
            (Some(p), Some(e)) => (p, e),
            _ => {
                return;
            },
        };
        let mut values = match self.store.project(project.as_str()) {
            Some(p) => match envs_get(&p.environments, env.as_str()) {
                Some(e) => secrets_clone(&e.values),
                None => {
                    return;
                },
            },
            None => {
                return;
            },
        };
        let ghost base = secret_entries(values);
        let ghost add = secret_entries(parsed_values);
        let mut i: usize = 0;
        while i < count
            invariant
                i <= count == add.len(),
                add == secret_entries(parsed_values),
                secret_entries(values) == inserted_all(base, add.take(i as int)),
            decreases count - i,
        {
            let (k, v) = secrets_get_index(&parsed_values, i).unwrap();
            assert(add.take(i + 1).drop_last() =~= add.take(i as int));
            assert(add.take(i + 1).last() == add[i as int]);
            secrets_insert(&mut values, k.clone(), v.clone());
            i = i + 1;
        }
        assert(add.take(count as int) =~= add);
        self.replace_values(project.as_str(), env.as_str(), values);
        self.mark_changed(false);
        let mut m = "Imported ".to_owned();
        let n = decimal_text(count as u64);
        push_str(&mut m, n.as_str());
        push_str(&mut m, " secrets from ");
        push_str(&mut m, path);
        push_str(&mut m, ".");
        self.status = m;
    }

    /// The `.env` text to export for the selected environment, every
    /// reference resolved, and how many entries it holds; `None` when no
    /// environment is selected.
    pub fn export_document(&self) -> (r: Option<Result<(String, usize), ResolveError>>)
        ensures
            match r {
                None => export_doc(self) is None,
                Some(Ok(d)) => export_doc(self) == Some(Ok::<(Seq<char>, nat), RefError>((d.0@, d.1 as nat))),
                Some(Err(e)) => export_doc(self) == Some(Err::<(Seq<char>, nat), RefError>(e@)),
            },
    {
        let project = match self.current_project_name() {
            Some(p) => p,
            None => {
                return None;
            },
        };
        let env = match self.current_env_name() {
            Some(e) => e,
            None => {
                return None;
            },
        };
        let environment = match self.current_env() {
            Some(e) => e,
            None => {
                return None;
            },
        };
        let ghost vals = environment@;
        let n = secrets_len(&environment.values);
        let mut out = secrets_new();
        let mut i: usize = 0;
        while i < n
            invariant
                i <= n == vals.len(),
                vals == secret_entries(environment.values),
                self.sel_project() is Some,
                self.sel_env() is Some,
                vals == self.sel_env().unwrap().1,
                self.sel_env().unwrap().0 == env@,
                self.sel_project().unwrap().0 == project@,
                export_entries(self.store@, project@, env@, vals.take(i as int), false) == Ok::<SecretsModel, RefError>(
                    secret_entries(out),
                ),
            decreases n - i,
        {
            let (k, _) = secrets_get_index(&environment.values, i).unwrap();
            assert(vals.take(i + 1).drop_last() =~= vals.take(i as int));
            assert(vals.take(i + 1).last() == vals[i as int]);
            match resolve_at(&self.store, project.as_str(), env.as_str(), k.as_str()) {
                Ok(t) => {
                    secrets_insert(&mut out, k.clone(), t);
                },
                Err(e) => {
                    proof {
                        assert(export_entries(self.store@, project@, env@, vals.take(i + 1), false) == Err::<
                            SecretsModel,
                            RefError,
                        >(e@));
                        lemma_export_prefix_err(self.store@, project@, env@, vals, i as int + 1);
                    }
                    return Some(Err(e));
                },
            }
            i = i + 1;
        }
        assert(vals.take(n as int) =~= vals);
        let count = secrets_len(&out);
        Some(Ok((serialize(&out), count)))
    }

    /// Report an export to `path`: the number of entries written, or why it
    /// failed.
    pub fn export_finished(&mut self, path: &str, outcome: Result<usize, String>)
        ensures
            same_but_status(old(self), final(self)),
            match outcome {
                Ok(n) => final(self).status@ == "Exported "@ + decimal(n as nat) + " secrets to "@ + path@ + "."@,
                Err(e) => final(self).status@ == "Export failed: "@ + e@,
            },
    {
        match outcome {
            Ok(n) => {
                let mut m = "Exported ".to_owned();
                let d = decimal_text(n as u64);
                push_str(&mut m, d.as_str());
                push_str(&mut m, " secrets to ");
                push_str(&mut m, path);
                push_str(&mut m, ".");
                self.status = m;
            },
            Err(e) => {
                let mut m = "Export failed: ".to_owned();
                push_str(&mut m, e.as_str());
                self.status = m;
            },
        }
    }

    /// Set the folder of the selected project (`None` clears it).
    pub fn set_folder(&mut self, folder: Option<String>)
        ensures
            folder_set(old(self), opt_view(folder), final(self)),
    {
        let project = match self.current_project_name() {
            Some(p) => p,
            None => {
                return;
            },
        };
        let status = match &folder {
            Some(f) => {
                let mut m = concat3("Linked `", project.as_str(), "` to ");
                push_str(&mut m, f.as_str());
                push_str(&mut m, ".");
                m
            },
            None => concat3("Cleared folder for `", project.as_str(), "`."),
        };
        match self.store.project_mut(project.as_str()) {
            Some(p) => {
                p.folder = folder;
            },
            None => {},
        }
        self.mark_changed(false);
        self.status = status;
    }

    /// The name of the temporary file and the document to hand an external
    /// editor for the selected environment, from process `pid`; `None` when
    /// no environment is selected.
    pub fn external_edit_start(&self, pid: u32) -> (r: Option<(String, String)>)
        ensures
            match (self.sel_project(), self.sel_env()) {
                (Some(p), Some(e)) => r is Some && r.unwrap().0@ == crate::editor::edit_file_name(p.0, e.0, pid as nat)
                    && r.unwrap().1@ == crate::editor::template_header(p.0, e.0) + serialized(e.1),
                _ => r is None,
            },
    {
        let project = self.current_project_name();
        let env = self.current_env_name();
        match (project, env) {
            (Some(p), Some(e)) => {
                let environment = self.current_env().unwrap();
                let name = crate::editor::edit_file(p.as_str(), e.as_str(), pid);
                let doc = crate::editor::editor_template(p.as_str(), e.as_str(), &environment.values);
                Some((name, doc))
            },
            _ => None,
        }
    }

    /// Report an external edit that came to nothing.
    pub fn external_edit_failed(&mut self, failure: EditFailure)
        ensures
            same_but_status(old(self), final(self)),
            final(self).status@ == edit_failure_message(failure),
    {
        let m = match &failure {
            EditFailure::CreateFile(e) => {
                let mut m = "Could not create temp file: ".to_owned();
                push_str(&mut m, e.as_str());
                m
            },
            EditFailure::NotSaved => "Editor exited without saving; no changes made.".to_owned(),
            EditFailure::Launch(e) => {
                let mut m = "Could not launch editor: ".to_owned();
                push_str(&mut m, e.as_str());
                m
            },
            EditFailure::ReadBack(e) => {
                let mut m = "Could not read edited file: ".to_owned();
                push_str(&mut m, e.as_str());
                m
            },
        };
        self.status = m;
    }

    /// Replace the selected environment by the `.env` text that came back
    /// from an external editor.
    pub fn external_edit_done(&mut self, edited: &str)
        ensures
            external_edit_applied(old(self), edited@, final(self)),
    {
        let project = self.current_project_name();
        let env = self.current_env_name();
        let (project, env) = match (project, env) {
            (Some(p), Some(e)) => (p, e),
            _ => {
                return;
            },
        };
        let values = parse(edited);
        let count = secrets_len(&values);
        self.replace_values(project.as_str(), env.as_str(), values);
        self.mark_changed(false);
        self.clamp_indices();
        let mut m = concat5("Updated `", project.as_str(), "/", env.as_str(), "` (");
        let n = decimal_text(count as u64);
        push_str(&mut m, n.as_str());
        push_str(&mut m, " secrets) from editor.");
        self.status = m;
    }
}

/// Once a prefix of the entries fails to resolve, the whole export fails
/// the same way.
proof fn lemma_export_prefix_err(s: StoreModel, p: Seq<char>, e: Seq<char>, vals: SecretsModel, i: int)
    requires
        0 <= i <= vals.len(),
        export_entries(s, p, e, vals.take(i), false) is Err,
    ensures
        export_entries(s, p, e, vals, false) == export_entries(s, p, e, vals.take(i), false),
    decreases vals.len() - i,
{
    if i < vals.len() {
        assert(vals.take(i + 1).drop_last() =~= vals.take(i));
        lemma_export_prefix_err(s, p, e, vals, i + 1);
    } else {
        assert(vals.take(i) =~= vals);
    }
}


// --- what the panes show ---------------------------------------------------

/// How the Secrets pane shows a hidden value: `(empty)` for an empty value,
/// one bullet per character up to four, else the first two characters and
/// six bullets.
pub open spec fn pane_masked(v: Seq<char>) -> Seq<char> {
    if v.len() == 0 {
        "(empty)"@
    } else if v.len() <= 4 {
        bullets(v.len())
    } else {
        v.take(2) + bullets(6)
    }
}

/// Mask a value for the Secrets pane.
pub fn mask(value: &str) -> (r: String)
    ensures
        r@ == pane_masked(value@),
{
    let cs = to_chars(value);
    let len = cs.len();
    if len == 0 {
        "(empty)".to_owned()
    } else if len <= 4 {
        bullet_text(len)
    } else {
        let mut r = from_chars(&cs, 0, 2);
        let b = bullet_text(6);
        push_str(&mut r, b.as_str());
        r
    }
}

/// A line of the Projects pane: the name and how many environments.
pub open spec fn project_line(e: (Seq<char>, ProjectModel)) -> Seq<char> {
    e.0 + " ("@ + decimal(e.1.2.len()) + ")"@
}

/// The mark of the default environment.
pub open spec fn default_mark(p: ProjectModel, name: Seq<char>) -> Seq<char> {
    if p.0 == Some(name) {
        " *"@
    } else {
        Seq::empty()
    }
}

/// A line of the Environments pane: the name, a mark on the default, and
/// how many secrets.
pub open spec fn env_line(p: ProjectModel, e: (Seq<char>, SecretsModel)) -> Seq<char> {
    e.0 + default_mark(p, e.0) + " ("@ + decimal(e.1.len()) + ")"@
}

/// What the three panes list.
pub struct PaneView {
    pub projects: Vec<String>,
    pub envs: Vec<String>,
    /// Each secret's key and the value as shown (masked unless revealed).
    pub secrets: Vec<(String, String)>,
    pub secret_title: String,
}

/// How a secret is listed: its key, and its value unless hidden.
pub open spec fn shown(reveal: bool, e: (Seq<char>, Seq<char>)) -> (Seq<char>, Seq<char>) {
    (e.0, if reveal {
        e.1
    } else {
        pane_masked(e.1)
    })
}

/// The texts of a list of strings.
pub open spec fn texts(v: Seq<String>) -> Seq<Seq<char>> {
    v.map_values(|s: String| s@)
}

/// The texts of a list of string pairs.
pub open spec fn text_pairs(v: Seq<(String, String)>) -> Seq<(Seq<char>, Seq<char>)> {
    v.map_values(|p: (String, String)| (p.0@, p.1@))
}

/// Whether `v` lists what the panes of `a` show.
pub open spec fn panes_of(a: &App, v: &PaneView) -> bool {
    &&& texts(v.projects@) == a.store@.map_values(|e: (Seq<char>, ProjectModel)| project_line(e))
    &&& texts(v.envs@) == match a.sel_project() {
        Some(p) => p.1.2.map_values(|e: (Seq<char>, SecretsModel)| env_line(p.1, e)),
        None => Seq::empty(),
    }
    &&& text_pairs(v.secrets@) == match a.sel_env() {
        Some(e) => e.1.map_values(|x: (Seq<char>, Seq<char>)| shown(a.reveal, x)),
        None => Seq::empty(),
    }
    &&& v.secret_title@ == (if a.reveal {
        "Secrets [shown]"@
    } else {
        "Secrets [hidden]"@
    })
}

impl App {
    /// What the three panes list.
    pub fn pane_view(&self) -> (v: PaneView)
        ensures
            panes_of(self, &v),
    {
        let mut projects: Vec<String> = Vec::new();
        let n = projects_len(&self.store.projects);
        let mut i: usize = 0;
        while i < n
            invariant
                i <= n == self.store@.len(),
                texts(projects@) == self.store@.take(i as int).map_values(
                    |e: (Seq<char>, ProjectModel)| project_line(e),
                ),
            decreases n - i,
        {
            let (name, p) = projects_get_index(&self.store.projects, i).unwrap();
            let count = decimal_text(envs_len(&p.environments) as u64);
            let mut line = concat3(name.as_str(), " (", count.as_str());
            push_str(&mut line, ")");
            let ghost before = texts(projects@);
            projects.push(line);
            assert(texts(projects@) =~= before.push(project_line(self.store@[i as int])));
            assert(self.store@.take(i + 1).map_values(|e: (Seq<char>, ProjectModel)| project_line(e))
                =~= self.store@.take(i as int).map_values(|e: (Seq<char>, ProjectModel)| project_line(e)).push(
                project_line(self.store@[i as int]),
            ));
            i = i + 1;
        }
        assert(self.store@.take(n as int) =~= self.store@);
        let mut envs: Vec<String> = Vec::new();
        if let Some(p) = self.current_project() {
            let m = envs_len(&p.environments);
            let mut j: usize = 0;
            while j < m
                invariant
                    j <= m == p@.2.len(),
                    texts(envs@) == p@.2.take(j as int).map_values(|e: (Seq<char>, SecretsModel)| env_line(p@, e)),
                decreases m - j,
            {
                let (name, e) = envs_get_index(&p.environments, j).unwrap();
                let mut line = name.clone();
                let is_default = match &p.default_env {
                    Some(d) => string_eq(d.as_str(), name.as_str()),
                    None => false,
                };
                if is_default {
                    push_str(&mut line, " *");
                }
                push_str(&mut line, " (");
                let count = decimal_text(secrets_len(&e.values) as u64);
                push_str(&mut line, count.as_str());
                push_str(&mut line, ")");
                proof {
                    if !is_default {
                        assert(default_mark(p@, name@) =~= Seq::<char>::empty());
                    }
                }
                assert(line@ =~= env_line(p@, p@.2[j as int]));
                let ghost before = texts(envs@);
                envs.push(line);
                assert(texts(envs@) =~= before.push(env_line(p@, p@.2[j as int])));
                assert(p@.2.take(j + 1).map_values(|e: (Seq<char>, SecretsModel)| env_line(p@, e))
                    =~= p@.2.take(j as int).map_values(|e: (Seq<char>, SecretsModel)| env_line(p@, e)).push(
                    env_line(p@, p@.2[j as int]),
                ));
                j = j + 1;
            }
            assert(p@.2.take(m as int) =~= p@.2);
        }
        let mut secrets: Vec<(String, String)> = Vec::new();
        if let Some(e) = self.current_env() {
            let m = secrets_len(&e.values);
            let mut j: usize = 0;
            while j < m
                invariant
                    j <= m == e@.len(),
                    text_pairs(secrets@) == e@.take(j as int).map_values(
                        |x: (Seq<char>, Seq<char>)| shown(self.reveal, x),
                    ),
                decreases m - j,
            {
                let (k, v) = secrets_get_index(&e.values, j).unwrap();
                let display = if self.reveal {
                    v.clone()
                } else {
                    mask(v.as_str())
                };
                let ghost before = text_pairs(secrets@);
                secrets.push((k.clone(), display));
                assert(text_pairs(secrets@) =~= before.push(shown(self.reveal, e@[j as int])));
                assert(e@.take(j + 1).map_values(|x: (Seq<char>, Seq<char>)| shown(self.reveal, x))
                    =~= e@.take(j as int).map_values(|x: (Seq<char>, Seq<char>)| shown(self.reveal, x)).push(
                    shown(self.reveal, e@[j as int]),
                ));
                j = j + 1;
            }
            assert(e@.take(m as int) =~= e@);
        }
        proof {
            if self.sel_project() is None {
                assert(texts(envs@) =~= Seq::<Seq<char>>::empty());
            }
            if self.sel_env() is None {
                assert(text_pairs(secrets@) =~= Seq::<(Seq<char>, Seq<char>)>::empty());
            }
        }
        let secret_title = if self.reveal {
            "Secrets [shown]".to_owned()
        } else {
            "Secrets [hidden]".to_owned()
        };
        PaneView { projects, envs, secrets, secret_title }
    }
}


// --- the selection stays in its panes ----------------------------------------

/// Pulling the selections back into their panes puts each inside.
proof fn lemma_clamped_in_range(a: &App, b: &App)
    requires
        clamped_from(a, b),
    ensures
        b.in_range(),
{
}

/// Making an environment the default changes no pane's length.
proof fn lemma_default_set_shape(s: StoreModel, project: Seq<char>, env: Seq<char>)
    ensures
        default_set(s, project, env).len() == s.len(),
        forall|i: int| 0 <= i < s.len() ==> (#[trigger] default_set(s, project, env)[i]).1.2 == s[i].1.2,
{
    lemma_find_key(s, project);
}

/// The selection of the focused pane.
pub open spec fn selected(a: &App) -> int {
    match a.focus {
        Focus::Projects => a.proj_idx as int,
        Focus::Envs => a.env_idx as int,
        Focus::Secrets => a.secret_idx as int,
    }
}

proof fn lemma_wrap_step(i: int, n: int)
    requires
        0 <= i < n,
    ensures
        (i - 1) % n == (if i == 0 { n - 1 } else { i - 1 }),
        (i + 1) % n == (if i + 1 == n { 0 } else { i + 1 }),
{
    if i == 0 {
        assert((0int - 1) % n == n - 1) by (nonlinear_arith)
            requires
                n > 0,
        ;
    } else {
        assert((i - 1) % n == i - 1) by (nonlinear_arith)
            requires
                0 <= i - 1 < n,
        ;
    }
    if i + 1 == n {
        assert((i + 1) % n == 0) by (nonlinear_arith)
            requires
                i + 1 == n,
                n > 0,
        ;
    } else {
        assert((i + 1) % n == i + 1) by (nonlinear_arith)
            requires
                0 <= i + 1 < n,
        ;
    }
}

/// Law: in the panes, `k` and the Up arrow move the selection of the focused
/// pane one place up, from the first entry to the last; `j` and the Down
/// arrow move it one place down, from the last entry to the first. The focus
/// stays where it is.
pub proof fn law_vertical_keys(a: App, k: KeyPress, b: App)
    requires
        a.editor is None,
        a.input is None,
        a.confirm is None,
        !a.show_help,
        a.in_range(),
        a.pane_count(a.focus) > 0,
        key_post(&a, k, &b),
    ensures
        (k.key == Key::Up || k.key == Key::Char('k')) ==> b.focus == a.focus && selected(&b) == (if selected(&a) == 0 {
            a.pane_count(a.focus) - 1
        } else {
            selected(&a) - 1
        }),
        (k.key == Key::Down || k.key == Key::Char('j')) ==> b.focus == a.focus && selected(&b) == (if selected(&a) + 1
            == a.pane_count(a.focus) {
            0
        } else {
            selected(&a) + 1
        }),
{
    let n = a.pane_count(a.focus) as int;
    assert(0 <= selected(&a) < n);
    lemma_wrap_step(selected(&a), n);
}

/// Law: every key press keeps each selection inside its pane (or at 0 when
/// the pane is empty).
pub proof fn law_keys_keep_selection_in_range(a: App, k: KeyPress, b: App)
    requires
        a.in_range(),
        key_post(&a, k, &b),
    ensures
        b.in_range(),
{
    if a.editor is Some {
        if k.key == Key::Char('s') && k.only_ctrl {
            lemma_clamped_in_range(&a, &b);
        }
    } else if a.input is Some {
        if k.key == Key::Enter {
            let st = a.input.unwrap();
            match st.action {
                InputAction::NewSecret => {
                    match key_value(trim(st.buffer@)) {
                        Some(kv) => {
                            if kv.0.len() != 0 {
                                lemma_clamped_in_range(&a, &b);
                            }
                        },
                        None => {},
                    }
                },
                _ => {
                    lemma_clamped_in_range(&a, &b);
                },
            }
        }
    } else if a.confirm is Some {
        if accepts(k) {
            lemma_clamped_in_range(&a, &b);
        }
    } else if !a.show_help {
        match nav_command(k) {
            NavCommand::SetDefault => {
                if a.focus == Focus::Envs && a.sel_env() is Some {
                    let pn = a.sel_project().unwrap().0;
                    lemma_default_set_shape(a.store@, pn, a.sel_env().unwrap().0);
                    assert(b.store@[a.proj_idx as int].1.2 == a.store@[a.proj_idx as int].1.2);
                }
            },
            _ => {},
        }
    }
}

} // verus!
