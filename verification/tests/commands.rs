use devsecrets::commands::export_text;
use devsecrets::cli::Format;
use devsecrets::commands::{
    adopt_env, adopt_project, conflict_action, create_env, create_project, delete_env, delete_project, delete_secret,
    duplicate_env, env_listing, export_values, format_from_path, get_secret, import_merge, import_replace, kv_line,
    list_all, list_secrets, mask, needs_prompt, render, resolve_project, resolve_target, secret_listing, set_default_env, set_secret,
    ConflictAction, ConflictChoice,
};
use devsecrets::envfile::parse;
use devsecrets::errors::CmdError;
use devsecrets::meta::Assignment;
use devsecrets::model::Store;

fn api_dev() -> Store {
    let mut store = Store::default();
    assert!(create_project(&mut store, "api".to_string()).is_ok());
    assert!(create_env(&mut store, "api", "dev".to_string()).is_ok());
    store
}

fn set(store: &mut Store, p: &str, e: &str, k: &str, v: &str) {
    assert!(set_secret(store, p, e, k.to_string(), v.to_string()).is_ok());
}

fn message(r: Result<(), CmdError>) -> String {
    r.err().unwrap().message()
}

#[test]
fn project_env_secret_roundtrip() {
    let mut store = api_dev();
    set(&mut store, "api", "dev", "DB_HOST", "localhost");
    assert_eq!(get_secret(&store, "api", "dev", "DB_HOST", false).ok().unwrap(), "localhost");
    let list = list_secrets(&store, "api", "dev", false).ok().unwrap();
    assert!(list.contains(&"DB_HOST=localhost".to_string()), "list was: {list:?}");
}

#[test]
fn references_resolve_in_all_forms() {
    let mut store = api_dev();
    assert!(create_env(&mut store, "api", "shared".to_string()).is_ok());
    set(&mut store, "api", "dev", "HOST", "localhost");
    set(&mut store, "api", "shared", "TOKEN", "abc");
    set(&mut store, "api", "dev", "URL", "http://${HOST}:5432");
    set(&mut store, "api", "dev", "AUTH", "Bearer ${shared.TOKEN}");
    assert_eq!(get_secret(&store, "api", "dev", "URL", false).ok().unwrap(), "http://localhost:5432");
    assert_eq!(get_secret(&store, "api", "dev", "AUTH", false).ok().unwrap(), "Bearer abc");
    assert_eq!(get_secret(&store, "api", "dev", "URL", true).ok().unwrap(), "http://${HOST}:5432");
}

#[test]
fn export_formats() {
    let mut store = api_dev();
    set(&mut store, "api", "dev", "A", "1");
    set(&mut store, "api", "dev", "B", "two");
    let (p, e, values) = export_values(&store, Some("api".to_string()), None, None, false).ok().unwrap();
    assert_eq!((p.as_str(), e.as_str()), ("api", "dev"));
    let env_text = render(&values, Format::Env).ok().unwrap();
    assert!(env_text.contains("A=1") && env_text.contains("B=two"));
    let shell = render(&values, Format::Shell).ok().unwrap();
    assert_eq!(shell, "export A=1\nexport B=two\n");
    let json = render(&values, Format::Json).ok().unwrap();
    assert!(json.contains("\"A\": \"1\""));
    assert!(json.contains("\"B\": \"two\""));
    assert!(json.ends_with("}\n"));
    let toml = render(&values, Format::Toml).ok().unwrap();
    assert!(toml.contains("A = \"1\""));
}

#[test]
fn import_then_export_roundtrip() {
    let mut store = api_dev();
    let parsed = parse("FOO=bar\nBAZ=\"with space\"\n");
    let (added, conflicts) = import_merge(&mut store, "api", "dev", &parsed);
    assert_eq!(added, 2);
    assert!(conflicts.is_empty());
    let env = store.project("api").unwrap().environments.get("dev").unwrap();
    let list = secret_listing(env, false);
    assert!(list.contains(&"FOO=bar".to_string()), "list was: {list:?}");
    let (_, _, values) = export_values(&store, Some("api".to_string()), Some("dev".to_string()), None, false)
        .ok()
        .unwrap();
    let out = render(&values, Format::Env).ok().unwrap();
    assert!(out.contains("BAZ=\"with space\""));
}

#[test]
fn list_falls_back_to_folder_assignment() {
    let assignment = Assignment { project: "api".to_string(), env: "dev".to_string() };
    let (p, e) = resolve_target(None, None, Some(&assignment)).ok().unwrap();
    assert_eq!((p.as_str(), e.as_str()), ("api", "dev"));
    assert_eq!(resolve_project(None, Some(&assignment)).ok().unwrap(), "api");
    let (p, e) = resolve_target(Some("web".to_string()), Some("prod".to_string()), Some(&assignment)).ok().unwrap();
    assert_eq!((p.as_str(), e.as_str()), ("web", "prod"));
    let other = resolve_target(Some("web".to_string()), None, Some(&assignment));
    assert_eq!(
        other.err().unwrap().message(),
        "no environment given and this folder isn't assigned (run `devsecrets setup` here, or pass --env)"
    );
    assert!(resolve_target(None, None, None).is_err());
    assert!(resolve_project(None, None).is_err());
}

#[test]
fn duplicate_environment_copies_secrets() {
    let mut store = api_dev();
    set(&mut store, "api", "dev", "A", "1");
    assert!(duplicate_env(&mut store, "api", "dev", "staging".to_string()).is_ok());
    assert_eq!(get_secret(&store, "api", "staging", "A", true).ok().unwrap(), "1");
    assert_eq!(
        message(duplicate_env(&mut store, "api", "dev", "staging".to_string())),
        "environment `staging` already exists in `api`"
    );
}

#[test]
fn every_error_has_its_message() {
    let mut store = api_dev();
    assert_eq!(message(create_project(&mut store, "api".to_string())), "project `api` already exists");
    assert_eq!(message(delete_project(&mut store, "nope")), "project `nope` not found");
    assert_eq!(message(create_env(&mut store, "api", "dev".to_string())), "environment `dev` already exists in `api`");
    assert_eq!(message(delete_env(&mut store, "api", "prod")), "environment `prod` not found in `api`");
    assert_eq!(message(delete_secret(&mut store, "api", "dev", "K")), "secret `K` not found in `api/dev`");
    assert_eq!(message(set_default_env(&mut store, "api", "prod")), "environment `prod` not found in `api`");
    assert_eq!(message(adopt_project(&mut store, "")), "project name cannot be empty");
    assert_eq!(message(adopt_env(&mut store, "api", "")), "environment name cannot be empty");
    let none = export_values(&store, None, None, None, false);
    assert!(none.is_err());
    assert!(create_project(&mut store, "web".to_string()).is_ok());
    let no_env = export_values(&store, Some("web".to_string()), None, None, false);
    assert_eq!(
        no_env.err().unwrap().message(),
        "could not determine environment for `web` (set a default or pass --env)"
    );
    set(&mut store, "api", "dev", "X", "${missing}");
    let bad = get_secret(&store, "api", "dev", "X", false);
    assert_eq!(bad.err().unwrap().message(), "reference `${missing}` points to a missing secret `api.dev.missing`");
}

#[test]
fn deleting_env_and_project() {
    let mut store = api_dev();
    assert!(create_env(&mut store, "api", "prod".to_string()).is_ok());
    assert!(delete_env(&mut store, "api", "dev").is_ok());
    assert_eq!(store.project("api").unwrap().default_env, Some("prod".to_string()));
    assert!(set_default_env(&mut store, "api", "prod").is_ok());
    set(&mut store, "api", "prod", "K", "v");
    assert!(delete_secret(&mut store, "api", "prod", "K").is_ok());
    assert!(get_secret(&store, "api", "prod", "K", true).is_err());
    assert!(delete_project(&mut store, "api").is_ok());
    assert!(store.project("api").is_none());
}

#[test]
fn import_replace_and_conflicts() {
    let mut store = api_dev();
    set(&mut store, "api", "dev", "A", "1");
    set(&mut store, "api", "dev", "B", "2");
    let (added, conflicts) = import_merge(&mut store, "api", "dev", &parse("A=1\nB=3\nC=4\n"));
    assert_eq!(added, 1);
    assert_eq!(conflicts, vec![("B".to_string(), "3".to_string())]);
    assert_eq!(get_secret(&store, "api", "dev", "B", true).ok().unwrap(), "2");
    let n = import_replace(&mut store, "new", "env", &parse("Z=26\n"));
    assert_eq!(n, 1);
    assert_eq!(get_secret(&store, "new", "env", "Z", true).ok().unwrap(), "26");
    assert_eq!(store.project("new").unwrap().default_env, Some("env".to_string()));
    assert!(needs_prompt(false, true));
    assert!(!needs_prompt(true, true));
    assert!(matches!(conflict_action(true, false, None), ConflictAction::Update));
    assert!(matches!(conflict_action(false, false, Some(ConflictChoice::Overwrite)), ConflictAction::Skip));
    assert!(matches!(conflict_action(false, true, Some(ConflictChoice::OverwriteAll)), ConflictAction::UpdateAll));
    assert!(matches!(conflict_action(false, true, Some(ConflictChoice::Stop)), ConflictAction::Stop));
    assert!(matches!(conflict_action(false, true, Some(ConflictChoice::Keep)), ConflictAction::Skip));
}

#[test]
fn formats_from_file_names() {
    assert_eq!(format_from_path("out.json"), Some(Format::Json));
    assert_eq!(format_from_path("dir/x.toml"), Some(Format::Toml));
    assert_eq!(format_from_path("env.zsh"), Some(Format::Shell));
    assert_eq!(format_from_path(".env"), None);
    assert_eq!(format_from_path("prod.env"), Some(Format::Env));
    assert_eq!(format_from_path("README"), None);
}

#[test]
fn listings_and_masks() {
    let mut store = api_dev();
    assert!(create_env(&mut store, "api", "prod".to_string()).is_ok());
    set(&mut store, "api", "dev", "TOKEN", "sk-12345");
    set(&mut store, "api", "dev", "PIN", "12");
    assert_eq!(
        list_all(&store),
        vec![
            "api".to_string(),
            "  dev * \u{2014} 2 secrets".to_string(),
            "  prod \u{2014} 0 secrets".to_string(),
        ]
    );
    assert_eq!(
        list_all(&Store::default()),
        vec!["No projects yet. Create one with `devsecrets project create <name>`.".to_string()]
    );
    let project = store.project("api").unwrap();
    assert_eq!(
        env_listing(project),
        vec!["dev (default) \u{2014} 2 secrets".to_string(), "prod \u{2014} 0 secrets".to_string()]
    );
    let env = project.environments.get("dev").unwrap();
    assert_eq!(
        secret_listing(env, true),
        vec!["TOKEN=sk\u{2022}\u{2022}\u{2022}\u{2022}\u{2022}\u{2022}".to_string(), "PIN=\u{2022}\u{2022}".to_string()]
    );
    assert_eq!(mask(""), "\u{2022}");
    assert_eq!(mask("-x-yz"), "\u{2022}\u{2022}\u{2022}\u{2022}\u{2022}\u{2022}");
    assert_eq!(mask("a-bcd"), "a\u{2022}\u{2022}\u{2022}\u{2022}\u{2022}\u{2022}");
    assert_eq!(kv_line("K", "a b"), "K=\"a b\"");
}

#[test]
fn wizard_steps_create_what_is_missing() {
    let mut store = Store::default();
    assert!(adopt_project(&mut store, "api").is_ok());
    assert!(adopt_project(&mut store, "api").is_ok());
    assert!(adopt_env(&mut store, "api", "dev").is_ok());
    assert!(adopt_env(&mut store, "api", "prod").is_ok());
    assert_eq!(store.project("api").unwrap().default_env, Some("dev".to_string()));
    assert_eq!(store.project("api").unwrap().environments.len(), 2);
    assert_eq!(message(adopt_env(&mut store, "web", "dev")), "project `web` not found");
}

#[test]
fn setting_one_secret_leaves_the_others() {
    let mut store = api_dev();
    assert!(create_env(&mut store, "api", "prod".to_string()).is_ok());
    set(&mut store, "api", "dev", "A", "1");
    set(&mut store, "api", "prod", "A", "p");
    set(&mut store, "api", "dev", "B", "2");
    set(&mut store, "api", "dev", "A", "3");
    assert_eq!(get_secret(&store, "api", "dev", "B", true).ok().unwrap(), "2");
    assert_eq!(get_secret(&store, "api", "prod", "A", true).ok().unwrap(), "p");
    assert_eq!(get_secret(&store, "api", "dev", "A", true).ok().unwrap(), "3");
}

#[test]
fn raw_export_keeps_values_verbatim() {
    let mut store = api_dev();
    set(&mut store, "api", "dev", "HOST", "db");
    set(&mut store, "api", "dev", "URL", "http://${HOST}");
    let (_, _, raw) = export_values(&store, Some("api".to_string()), Some("dev".to_string()), None, true).ok().unwrap();
    let pairs: Vec<(String, String)> = raw.iter().map(|(k, v)| (k.clone(), v.clone())).collect();
    assert_eq!(
        pairs,
        vec![("HOST".to_string(), "db".to_string()), ("URL".to_string(), "http://${HOST}".to_string())]
    );
    let (_, _, resolved) = export_values(&store, Some("api".to_string()), None, None, false).ok().unwrap();
    assert_eq!(resolved.get("URL").unwrap(), "http://db");
}

#[test]
fn export_text_picks_the_format_from_flag_then_file_name() {
    let mut store = api_dev();
    set(&mut store, "api", "dev", "A", "1");
    let (_, _, n, t) = export_text(&store, Some("api".to_string()), None, None, false, None, Some("out.sh")).ok().unwrap();
    assert_eq!((n, t.as_str()), (1, "export A=1\n"));
    let (_, _, _, t) = export_text(&store, Some("api".to_string()), None, None, false, Some(Format::Env), Some("out.sh"))
        .ok()
        .unwrap();
    assert_eq!(t, "A=1\n");
    let (_, _, _, t) = export_text(&store, Some("api".to_string()), None, None, false, None, None).ok().unwrap();
    assert_eq!(t, "A=1\n");
    assert!(export_text(&store, Some("web".to_string()), None, None, false, None, None).is_err());
}
