use devsecrets::envfile::{parse, quote_str, serialize};
use indexmap::IndexMap;

#[test]
fn parses_basic() {
    let text = "# comment\nFOO=bar\nexport BAZ=\"hello world\"\n\nEMPTY=\n";
    let map = parse(text);
    assert_eq!(map.get("FOO").unwrap(), "bar");
    assert_eq!(map.get("BAZ").unwrap(), "hello world");
    assert_eq!(map.get("EMPTY").unwrap(), "");
    assert_eq!(map.len(), 3);
}

#[test]
fn roundtrip_quotes_when_needed() {
    let mut map = IndexMap::new();
    map.insert("A".to_string(), "simple".to_string());
    map.insert("B".to_string(), "with space".to_string());
    let text = serialize(&map);
    assert!(text.contains("A=simple\n"));
    assert!(text.contains("B=\"with space\"\n"));
    let reparsed = parse(&text);
    assert_eq!(reparsed, map);
}

#[test]
fn quoting_escapes_and_marks_empty_values() {
    assert_eq!(quote_str(""), "\"\"");
    assert_eq!(quote_str("plain"), "plain");
    assert_eq!(quote_str("a#b"), "\"a#b\"");
    assert_eq!(quote_str("say \"hi\""), "\"say \\\"hi\\\"\"");
    assert_eq!(quote_str("two\nlines"), "\"two\\nlines\"");
}

#[test]
fn later_lines_replace_earlier_values_in_place() {
    let map = parse("A=1\nB=2\nA=3\n");
    let pairs: Vec<(&str, &str)> = map.iter().map(|(k, v)| (k.as_str(), v.as_str())).collect();
    assert_eq!(pairs, vec![("A", "3"), ("B", "2")]);
}

#[test]
fn single_quotes_are_literal_and_lines_without_equals_are_skipped() {
    let map = parse("A='x\\ny'\nnot an assignment\n  =novalue\nB = \"q\\\"r\" \r\n");
    assert_eq!(map.get("A").unwrap(), "x\\ny");
    assert_eq!(map.get("B").unwrap(), "q\"r");
    assert_eq!(map.len(), 2);
}

#[test]
fn serialized_text_parses_back_for_many_values() {
    let mut map = IndexMap::new();
    map.insert("URL".to_string(), "http://${api.dev.HOST}:5432".to_string());
    map.insert("EMPTY".to_string(), String::new());
    map.insert("QUOTED".to_string(), "it's \"fine\"".to_string());
    map.insert("MULTI".to_string(), "one\ntwo".to_string());
    let text = serialize(&map);
    assert_eq!(parse(&text), map);
}

#[test]
fn backslashes_survive_the_round_trip() {
    let mut map = IndexMap::new();
    map.insert("WIN".to_string(), "C:\\Program Files\\app".to_string());
    map.insert("SPACED".to_string(), "a b\\c".to_string());
    map.insert("JSON".to_string(), "{\"msg\": \"line\\nbreak\", \"a\": 1}".to_string());
    map.insert("TAIL".to_string(), "ends with \\".to_string());
    map.insert("MY KEY".to_string(), "x".to_string());
    let text = serialize(&map);
    assert!(text.contains("SPACED=\"a b\\\\c\"\n"));
    assert_eq!(parse(&text), map);
}

#[test]
fn double_quoted_escapes_are_undone_once() {
    let map = parse("A=\"x\\\\ny\"\nB=\"back\\\\slash\"\nC=\"odd\\tescape\"\n");
    assert_eq!(map.get("A").unwrap(), "x\\ny");
    assert_eq!(map.get("B").unwrap(), "back\\slash");
    assert_eq!(map.get("C").unwrap(), "odd\\tescape");
}
