use devsecrets::paths::{
    absolute_path, config_dir, config_dir_for, default_store_path, join_path, legacy_settings_file, meta_file,
    path_extension, settings_file, store_path_for, Settings,
};

#[test]
fn files_inside_the_config_dir() {
    assert_eq!(settings_file("/home/u/.config/devsecrets"), "/home/u/.config/devsecrets/settings.toml");
    assert_eq!(legacy_settings_file("/c/"), "/c/settings.json");
    assert_eq!(default_store_path("/c"), "/c/store.json");
    assert_eq!(meta_file("/c"), "/c/meta.json");
    assert_eq!(join_path("", "x"), "x");
    assert_eq!(Settings::default_in("/c").store_path, "/c/store.json");
}

#[test]
fn store_location_is_a_json_file_or_a_directory() {
    assert_eq!(store_path_for("/sync/secrets.json"), "/sync/secrets.json");
    assert_eq!(store_path_for("/sync/dropbox"), "/sync/dropbox/store.json");
    assert_eq!(store_path_for("/sync/dir/"), "/sync/dir/store.json");
    assert_eq!(store_path_for("/sync/.json"), "/sync/.json/store.json");
}

#[test]
fn extensions_follow_the_file_name() {
    assert_eq!(path_extension("a/b.tar.gz"), Some("gz".to_string()));
    assert_eq!(path_extension("a/.hidden"), None);
    assert_eq!(path_extension("a.d/file"), None);
    assert_eq!(path_extension("x.json/"), Some("json".to_string()));
    assert_eq!(path_extension("trailing."), Some(String::new()));
}

#[test]
fn config_dir_prefers_xdg_then_home() {
    assert_eq!(config_dir_for(Some("/xdg"), Some("/home/u")), "/xdg/devsecrets");
    assert_eq!(config_dir_for(Some(""), Some("/home/u")), "/home/u/.config/devsecrets");
    assert_eq!(config_dir_for(None, None), ".devsecrets");
    assert_eq!(config_dir(Some("/xdg".to_string())), "/xdg/devsecrets");
    assert!(config_dir(None).ends_with("devsecrets"));
}

#[test]
fn relative_paths_are_made_absolute() {
    assert_eq!(absolute_path("/abs/dir", "/cwd"), "/abs/dir");
    assert_eq!(absolute_path("rel", "/cwd"), "/cwd/rel");
}

#[test]
fn store_paths_are_json_and_stable() {
    for loc in ["dir", "dir/", "", "/a/b.json", "/a/b.txt", "/x/.json"] {
        let p = devsecrets::paths::store_path_for(loc);
        assert_eq!(devsecrets::paths::path_extension(&p).as_deref(), Some("json"), "{loc}");
        assert_eq!(devsecrets::paths::store_path_for(&p), p, "{loc}");
    }
    assert_eq!(devsecrets::paths::store_path_for("dir"), "dir/store.json");
}
