use devsecrets::editor::{char_byte_idx, edit_file, editor_template, lines_of, sanitize, EnvEditor};
use devsecrets::envfile::parse;
use indexmap::IndexMap;

fn editor(lines: &[&str], cx: usize, cy: usize) -> EnvEditor {
    EnvEditor {
        project: "p".to_string(),
        env: "e".to_string(),
        lines: lines.iter().map(|l| l.to_string()).collect(),
        cx,
        cy,
    }
}

#[test]
fn editor_template_roundtrips() {
    let mut values = IndexMap::new();
    values.insert("DB_HOST".to_string(), "localhost".to_string());
    values.insert("TOKEN".to_string(), "with space".to_string());
    values.insert("API_URL".to_string(), "http://${api.dev.DB_HOST}:5432".to_string());

    let doc = editor_template("api", "dev", &values);
    // Header lines are comments and must be ignored on parse.
    let parsed = parse(&doc);
    assert_eq!(parsed, values);
}

#[test]
fn sanitize_replaces_specials() {
    assert_eq!(sanitize("my project/1"), "my_project_1");
}

#[test]
fn template_starts_with_the_header() {
    let values = IndexMap::new();
    let doc = editor_template("api", "dev", &values);
    assert!(doc.starts_with("# dev-secrets \u{2014} editing api/dev\n"));
    assert!(doc.ends_with("cancel.\n\n"));
    assert_eq!(doc.lines().count(), 6);
}

#[test]
fn temp_file_name_is_sanitised() {
    assert_eq!(edit_file("my app", "dev/1", 42), "devsecrets-my_app-dev_1-42.env");
}

#[test]
fn byte_offsets_of_characters() {
    assert_eq!(char_byte_idx("héllo", 0), 0);
    assert_eq!(char_byte_idx("héllo", 2), 3);
    assert_eq!(char_byte_idx("héllo", 5), 6);
    assert_eq!(char_byte_idx("héllo", 99), 6);
}

#[test]
fn lines_drop_the_final_newline_and_carriage_returns() {
    assert_eq!(lines_of("a\r\nb\n"), vec!["a".to_string(), "b".to_string()]);
    assert_eq!(lines_of(""), Vec::<String>::new());
    assert_eq!(lines_of("x\n\ny"), vec!["x".to_string(), String::new(), "y".to_string()]);
}

#[test]
fn opening_over_values_shows_env_lines() {
    let mut values = IndexMap::new();
    values.insert("A".to_string(), "1".to_string());
    let ed = EnvEditor::open("p".to_string(), "e".to_string(), &values);
    assert_eq!(ed.lines, vec!["A=1".to_string()]);
    let empty = EnvEditor::open("p".to_string(), "e".to_string(), &IndexMap::new());
    assert_eq!(empty.lines, vec![String::new()]);
    assert_eq!((empty.cx, empty.cy), (0, 0));
}

#[test]
fn typing_and_backspace_undo_each_other() {
    let mut ed = editor(&["héllo"], 2, 0);
    ed.insert_char('X');
    assert_eq!(ed.lines[0], "héXllo");
    assert_eq!(ed.cx, 3);
    ed.backspace();
    assert_eq!(ed.lines[0], "héllo");
    assert_eq!(ed.cx, 2);
}

#[test]
fn newline_splits_and_backspace_joins() {
    let mut ed = editor(&["abcd", "z"], 2, 0);
    ed.insert_newline();
    assert_eq!(ed.lines, vec!["ab".to_string(), "cd".to_string(), "z".to_string()]);
    assert_eq!((ed.cx, ed.cy), (0, 1));
    ed.backspace();
    assert_eq!(ed.lines, vec!["abcd".to_string(), "z".to_string()]);
    assert_eq!((ed.cx, ed.cy), (2, 0));
    assert_eq!(ed.text(), "abcd\nz");
}

#[test]
fn delete_forward_joins_the_next_line_at_the_end() {
    let mut ed = editor(&["ab", "cd"], 2, 0);
    ed.delete_forward();
    assert_eq!(ed.lines, vec!["abcd".to_string()]);
    assert_eq!((ed.cx, ed.cy), (2, 0));
    ed.delete_forward();
    assert_eq!(ed.lines, vec!["abd".to_string()]);
    ed.cx = 3;
    ed.delete_forward();
    assert_eq!(ed.lines, vec!["abd".to_string()]);
}

#[test]
fn cursor_moves_across_lines_and_keeps_columns_inside() {
    let mut ed = editor(&["long line", "ab"], 7, 0);
    ed.move_down();
    assert_eq!((ed.cx, ed.cy), (2, 1));
    ed.move_right();
    assert_eq!((ed.cx, ed.cy), (2, 1));
    ed.move_up();
    assert_eq!((ed.cx, ed.cy), (2, 0));
    ed.cx = 0;
    ed.move_left();
    assert_eq!((ed.cx, ed.cy), (0, 0));
    ed.cy = 1;
    ed.move_left();
    assert_eq!((ed.cx, ed.cy), (9, 0));
    ed.move_right();
    assert_eq!((ed.cx, ed.cy), (0, 1));
    assert_eq!(ed.cur_len(), 2);
}

#[test]
fn delete_forward_removes_one_character_of_the_joined_text() {
    let mut ed = editor(&["x=1", "é=2", "z"], 1, 1);
    ed.delete_forward();
    assert_eq!(ed.lines.join("\n"), "x=1\né2\nz");
    assert_eq!((ed.cx, ed.cy), (1, 1));
    let mut last = editor(&["x=1", "z"], 1, 1);
    last.delete_forward();
    assert_eq!(last.lines.join("\n"), "x=1\nz");
}
