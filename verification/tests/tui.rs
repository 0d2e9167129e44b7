use devsecrets::model::Store;
use devsecrets::tui::{mask, wrap_index, App, EditFailure, Focus, Key, KeyPress, Request};

fn press(app: &mut App, key: Key) {
    app.on_key(KeyPress { key, ctrl: false, only_ctrl: false });
}

fn ctrl(app: &mut App, c: char) {
    app.on_key(KeyPress { key: Key::Char(c), ctrl: true, only_ctrl: true });
}

fn type_text(app: &mut App, text: &str) {
    for c in text.chars() {
        press(app, Key::Char(c));
    }
}

fn value(app: &App, p: &str, e: &str, k: &str) -> Option<String> {
    app.store.value(p, e, k).cloned()
}

/// An interface with project `api`, environment `dev` and secret `A=1`,
/// built through the keys.
fn populated() -> App {
    let mut app = App::new(Store::default());
    press(&mut app, Key::Char('n'));
    type_text(&mut app, "api");
    press(&mut app, Key::Enter);
    press(&mut app, Key::Char('l'));
    press(&mut app, Key::Char('n'));
    type_text(&mut app, "dev");
    press(&mut app, Key::Enter);
    press(&mut app, Key::Char('l'));
    press(&mut app, Key::Char('n'));
    type_text(&mut app, " A = 1 ");
    press(&mut app, Key::Enter);
    app
}

#[test]
fn welcome_and_quit() {
    let mut app = App::new(Store::default());
    assert_eq!(app.status, "Welcome to dev-secrets. Press ? for help.");
    press(&mut app, Key::Char('?'));
    assert!(app.show_help);
    press(&mut app, Key::Char('q'));
    assert!(!app.show_help);
    assert!(!app.should_quit);
    press(&mut app, Key::Char('c'));
    assert!(!app.should_quit);
    ctrl(&mut app, 'c');
    assert!(app.should_quit);
}

#[test]
fn creating_through_prompts() {
    let app = populated();
    assert_eq!(value(&app, "api", "dev", "A"), Some("1".to_string()));
    assert_eq!(app.status, "Set `A`.");
    assert_eq!(app.focus, Focus::Secrets);
    assert!(app.save_due);
    assert_eq!(app.store.project("api").unwrap().default_env, Some("dev".to_string()));
}

#[test]
fn prompt_errors_are_reported() {
    let mut app = populated();
    press(&mut app, Key::Char('n'));
    type_text(&mut app, "novalue");
    press(&mut app, Key::Enter);
    assert_eq!(app.status, "Use KEY=VALUE format.");
    press(&mut app, Key::Char('n'));
    type_text(&mut app, "=x");
    press(&mut app, Key::Enter);
    assert_eq!(app.status, "Key cannot be empty.");
    press(&mut app, Key::Tab);
    assert_eq!(app.focus, Focus::Projects);
    press(&mut app, Key::Char('n'));
    type_text(&mut app, "api");
    press(&mut app, Key::Enter);
    assert_eq!(app.status, "Project `api` already exists.");
    press(&mut app, Key::Char('n'));
    type_text(&mut app, "   ");
    press(&mut app, Key::Enter);
    assert_eq!(app.status, "Project name cannot be empty.");
}

#[test]
fn prompt_editing_keys() {
    let mut app = populated();
    press(&mut app, Key::Char('n'));
    type_text(&mut app, "AB");
    press(&mut app, Key::Backspace);
    assert_eq!(app.input.as_ref().unwrap().buffer, "A");
    press(&mut app, Key::Esc);
    assert!(app.input.is_none());
}

#[test]
fn editing_a_secret_keeps_the_raw_buffer() {
    let mut app = populated();
    press(&mut app, Key::Enter);
    assert_eq!(app.input.as_ref().unwrap().title, "Edit A");
    assert_eq!(app.input.as_ref().unwrap().buffer, "1");
    press(&mut app, Key::Backspace);
    type_text(&mut app, " two ");
    press(&mut app, Key::Enter);
    assert_eq!(value(&app, "api", "dev", "A"), Some(" two ".to_string()));
    assert_eq!(app.status, "Updated `A`.");
}

#[test]
fn deleting_asks_first() {
    let mut app = populated();
    press(&mut app, Key::Char('d'));
    assert_eq!(
        app.confirm.as_ref().unwrap().message,
        "Delete secret `A` from `api/dev`?"
    );
    press(&mut app, Key::Char('n'));
    assert!(app.confirm.is_none());
    assert!(value(&app, "api", "dev", "A").is_some());
    press(&mut app, Key::Char('d'));
    press(&mut app, Key::Char('y'));
    assert!(value(&app, "api", "dev", "A").is_none());
    assert_eq!(app.status, "Deleted secret `A`.");
    assert!(app.report_save_failure);
    assert_eq!(app.secret_idx, 0);
}

#[test]
fn deleting_the_default_env_moves_the_default() {
    let mut app = populated();
    press(&mut app, Key::Char('h'));
    press(&mut app, Key::Char('n'));
    type_text(&mut app, "prod");
    press(&mut app, Key::Enter);
    press(&mut app, Key::Char('d'));
    assert_eq!(app.confirm.as_ref().unwrap().message, "Delete environment `api/dev`?");
    press(&mut app, Key::Enter);
    assert_eq!(app.store.project("api").unwrap().default_env, Some("prod".to_string()));
    assert_eq!(app.status, "Deleted environment `api/dev`.");
}

#[test]
fn duplicating_and_setting_the_default() {
    let mut app = populated();
    press(&mut app, Key::Char('y'));
    assert_eq!(app.status, "Duplicate works on environments (focus the Envs pane).");
    press(&mut app, Key::Left);
    press(&mut app, Key::Char('y'));
    assert_eq!(app.input.as_ref().unwrap().title, "Duplicate dev");
    type_text(&mut app, "staging");
    press(&mut app, Key::Enter);
    assert_eq!(app.status, "Duplicated `dev` to `staging`.");
    assert_eq!(value(&app, "api", "staging", "A"), Some("1".to_string()));
    press(&mut app, Key::Down);
    assert_eq!(app.env_idx, 1);
    press(&mut app, Key::Char('D'));
    assert_eq!(app.status, "Default env for `api` is now `staging`.");
    press(&mut app, Key::Char('y'));
    type_text(&mut app, "dev");
    press(&mut app, Key::Enter);
    assert_eq!(app.status, "Environment `dev` already exists.");
}

#[test]
fn selection_wraps_and_resets_deeper_panes() {
    let mut app = populated();
    press(&mut app, Key::Tab);
    press(&mut app, Key::Char('n'));
    type_text(&mut app, "web");
    press(&mut app, Key::Enter);
    assert_eq!(app.proj_idx, 0);
    press(&mut app, Key::Up);
    assert_eq!(app.proj_idx, 1);
    press(&mut app, Key::Char('j'));
    assert_eq!(app.proj_idx, 0);
    assert_eq!((app.env_idx, app.secret_idx), (0, 0));
    assert_eq!(wrap_index(0, -1, 3), 2);
    assert_eq!(wrap_index(2, 7, 3), 0);
}

#[test]
fn inline_editor_saves_and_cancels() {
    let mut app = populated();
    press(&mut app, Key::Char('a'));
    assert_eq!(app.editor.as_ref().unwrap().lines, vec!["A=1".to_string()]);
    press(&mut app, Key::End);
    press(&mut app, Key::Enter);
    type_text(&mut app, "B=2");
    press(&mut app, Key::Tab);
    ctrl(&mut app, 's');
    assert!(app.editor.is_none());
    assert_eq!(value(&app, "api", "dev", "B"), Some("2".to_string()));
    assert_eq!(app.status, "Updated `api/dev` (2 secrets).");
    press(&mut app, Key::Char('e'));
    assert!(app.input.is_some());
    press(&mut app, Key::Esc);
    press(&mut app, Key::Char('a'));
    press(&mut app, Key::Esc);
    assert!(app.editor.is_none());
    assert_eq!(app.status, "Edit cancelled \u{2014} no changes made.");
}

#[test]
fn file_work_is_requested_and_reported() {
    let mut app = populated();
    press(&mut app, Key::Char('i'));
    type_text(&mut app, "in.env");
    press(&mut app, Key::Enter);
    assert!(matches!(app.request, Some(Request::Import(ref p)) if p == "in.env"));
    app.request = None;
    app.import_text("in.env", Ok("A=9\nC=3\n".to_string()));
    assert_eq!(value(&app, "api", "dev", "A"), Some("9".to_string()));
    assert_eq!(value(&app, "api", "dev", "C"), Some("3".to_string()));
    assert_eq!(app.status, "Imported 2 secrets from in.env.");
    app.import_text("x.env", Err("no such file".to_string()));
    assert_eq!(app.status, "Import failed: no such file");

    press(&mut app, Key::Char('x'));
    assert_eq!(app.input.as_ref().unwrap().buffer, ".env");
    press(&mut app, Key::Enter);
    assert!(matches!(app.request, Some(Request::Export(ref p)) if p == ".env"));
    let (text, count) = app.export_document().unwrap().ok().unwrap();
    assert_eq!(text, "A=9\nC=3\n");
    assert_eq!(count, 2);
    app.export_finished(".env", Ok(count));
    assert_eq!(app.status, "Exported 2 secrets to .env.");
    app.export_finished(".env", Err("denied".to_string()));
    assert_eq!(app.status, "Export failed: denied");
}

#[test]
fn folders_and_external_edits() {
    let mut app = populated();
    press(&mut app, Key::Char('f'));
    assert_eq!(app.status, "Focus a project to assign its folder.");
    press(&mut app, Key::Tab);
    press(&mut app, Key::Char('f'));
    press(&mut app, Key::Enter);
    assert!(matches!(app.request, Some(Request::SetFolder(ref r)) if r.is_empty()));
    app.set_folder(Some("/work/api".to_string()));
    assert_eq!(app.status, "Linked `api` to /work/api.");
    assert_eq!(app.store.project_for_folder("/work/api"), Some("api"));
    app.set_folder(None);
    assert_eq!(app.status, "Cleared folder for `api`.");

    press(&mut app, Key::Char('E'));
    assert!(app.pending_editor);
    let (name, doc) = app.external_edit_start(7).unwrap();
    assert_eq!(name, "devsecrets-api-dev-7.env");
    assert!(doc.ends_with("A=1\n"));
    app.external_edit_failed(EditFailure::NotSaved);
    assert_eq!(app.status, "Editor exited without saving; no changes made.");
    app.external_edit_done(&doc.replace("A=1", "Z=26"));
    assert_eq!(value(&app, "api", "dev", "A"), None);
    assert_eq!(value(&app, "api", "dev", "Z"), Some("26".to_string()));
    assert_eq!(app.status, "Updated `api/dev` (1 secrets) from editor.");
}

#[test]
fn save_failures_show_only_where_the_status_would_not_hide_them() {
    let mut app = populated();
    app.saved(Some("disk full".to_string()));
    assert_eq!(app.status, "Set `A`.");
    assert!(!app.save_due);
    press(&mut app, Key::Char('d'));
    press(&mut app, Key::Char('Y'));
    app.saved(Some("disk full".to_string()));
    assert_eq!(app.status, "Save failed: disk full");
}

#[test]
fn panes_list_counts_defaults_and_masked_values() {
    let mut app = populated();
    app.import_text("in.env", Ok("LONG=abcdefgh\nE=''\n".to_string()));
    let view = app.pane_view();
    assert_eq!(view.projects, vec!["api (1)".to_string()]);
    assert_eq!(view.envs, vec!["dev * (3)".to_string()]);
    assert_eq!(view.secret_title, "Secrets [hidden]");
    assert_eq!(view.secrets[0], ("A".to_string(), "\u{2022}".to_string()));
    assert_eq!(view.secrets[1].1, "ab\u{2022}\u{2022}\u{2022}\u{2022}\u{2022}\u{2022}");
    assert_eq!(view.secrets[2].1, "(empty)");
    press(&mut app, Key::Char('s'));
    let shown = app.pane_view();
    assert_eq!(shown.secret_title, "Secrets [shown]");
    assert_eq!(shown.secrets[1].1, "abcdefgh");
    assert_eq!(mask("abcd"), "\u{2022}\u{2022}\u{2022}\u{2022}");
}

#[test]
fn selections_stay_inside_their_panes() {
    let mut app = populated();
    let keys = [
        Key::Tab, Key::Down, Key::Char('n'), Key::Char('x'), Key::Enter, Key::Up, Key::Right, Key::Char('n'),
        Key::Char('q'), Key::Enter, Key::Down, Key::Down, Key::Right, Key::Char('d'), Key::Char('y'), Key::Left,
        Key::Left, Key::Char('d'), Key::Enter, Key::Down, Key::Right, Key::Right, Key::Up,
    ];
    for k in keys {
        press(&mut app, k);
        let view = app.pane_view();
        let fits = |i: usize, n: usize| i < n || (n == 0 && i == 0);
        assert!(fits(app.proj_idx, view.projects.len()));
        assert!(fits(app.env_idx, view.envs.len()));
        assert!(fits(app.secret_idx, view.secrets.len()));
    }
    assert!(!app.should_quit);
}
