use devsecrets::meta::{less_than, Meta};

#[test]
fn set_then_get_returns_the_assignment() {
    let mut m = Meta::new();
    assert!(m.get("/work/api").is_none());
    m.set("/work/api".to_string(), "api".to_string(), "dev".to_string());
    m.set("/work/web".to_string(), "web".to_string(), "prod".to_string());
    m.set("/work/api".to_string(), "api".to_string(), "staging".to_string());
    let a = m.get("/work/api").unwrap();
    assert_eq!((a.project.as_str(), a.env.as_str()), ("api", "staging"));
    assert_eq!(m.get("/work/web").unwrap().env, "prod");
    assert_eq!(m.len(), 2);
}

#[test]
fn assignments_are_kept_in_folder_order() {
    let mut m = Meta::new();
    m.set("/b".to_string(), "p".to_string(), "e".to_string());
    m.set("/a".to_string(), "q".to_string(), "e".to_string());
    m.set("/c".to_string(), "p".to_string(), "f".to_string());
    let folders: Vec<&str> = (0..m.len()).map(|i| m.entry(i).0).collect();
    assert_eq!(folders, vec!["/a", "/b", "/c"]);
    assert_eq!(m.folders_for_project("p"), vec!["/b", "/c"]);
    assert!(m.folders_for_project("zzz").is_empty());
}

#[test]
fn string_order_is_by_characters() {
    assert!(less_than("a", "b"));
    assert!(less_than("a", "ab"));
    assert!(!less_than("b", "ab"));
    assert!(!less_than("x", "x"));
}
