use devsecrets::commands::import_unattended;
use devsecrets::cli::Format;
use devsecrets::commands::{
    create_env, create_project, import_merge, import_progress, list_secrets, render, resolve_conflict,
    set_secret_typed, ConflictChoice,
};
use devsecrets::envfile::parse;
use devsecrets::errors::CmdError;
use devsecrets::kinds::{parses_as_number, SecretKind};
use devsecrets::model::Store;
use indexmap::IndexMap;

fn api_dev() -> Store {
    let mut store = Store::default();
    assert!(create_project(&mut store, "api".to_string()).is_ok());
    assert!(create_env(&mut store, "api", "dev".to_string()).is_ok());
    store
}

fn set_typed(store: &mut Store, key: &str, value: &str, kind: Option<SecretKind>) -> (SecretKind, Result<(), CmdError>) {
    set_secret_typed(store, "api", "dev", key.to_string(), value.to_string(), kind)
}

#[test]
fn type_validation_rejects_bad_values() {
    let mut store = api_dev();
    assert!(set_typed(&mut store, "PORT", "5432", Some(SecretKind::Number)).1.is_ok());
    assert!(set_typed(&mut store, "NOPE", "abc", Some(SecretKind::Number)).1.is_err());
    assert!(set_typed(&mut store, "CFG", "notjson", Some(SecretKind::Json)).1.is_err());
    assert!(set_typed(&mut store, "CFG", "{\"a\":1}", Some(SecretKind::Json)).1.is_ok());
}

#[test]
fn refused_values_leave_the_store_alone_and_say_why() {
    let mut store = api_dev();
    let (used, r) = set_typed(&mut store, "NOPE", "abc", Some(SecretKind::Number));
    assert_eq!(used, SecretKind::Number);
    assert_eq!(r.err().unwrap().message(), "`abc` is not a number");
    let (_, r) = set_typed(&mut store, "CFG", "{oops", Some(SecretKind::Json));
    assert_eq!(r.err().unwrap().message(), "`{oops` is not valid JSON");
    assert!(store.value("api", "dev", "NOPE").is_none());
    assert!(store.value("api", "dev", "CFG").is_none());
}

#[test]
fn the_recorded_type_applies_when_none_is_given() {
    let mut store = api_dev();
    assert!(set_typed(&mut store, "PORT", "5432", Some(SecretKind::Number)).1.is_ok());
    let (used, r) = set_typed(&mut store, "PORT", "many", None);
    assert_eq!(used, SecretKind::Number);
    assert!(r.is_err());
    assert_eq!(store.value("api", "dev", "PORT").unwrap(), "5432");
    let (used, r) = set_typed(&mut store, "PORT", "many", Some(SecretKind::Text));
    assert_eq!(used, SecretKind::Text);
    assert!(r.is_ok());
    let (used, r) = set_typed(&mut store, "PORT", "still text", None);
    assert_eq!(used, SecretKind::Text);
    assert!(r.is_ok());
    let env = store.project("api").unwrap().environments.get("dev").unwrap();
    assert_eq!(env.kind("PORT"), SecretKind::Text);
}

#[test]
fn a_missing_target_is_reported_after_validation() {
    let mut store = api_dev();
    let (used, r) = set_secret_typed(&mut store, "nope", "dev", "K".to_string(), "x".to_string(), Some(SecretKind::Number));
    assert_eq!(used, SecretKind::Number);
    assert_eq!(r.err().unwrap().message(), "`x` is not a number");
    let (used, r) = set_secret_typed(&mut store, "nope", "dev", "K".to_string(), "x".to_string(), None);
    assert_eq!(used, SecretKind::Text);
    assert_eq!(r.err().unwrap().message(), "project `nope` not found");
    let (_, r) = set_secret_typed(&mut store, "api", "prod", "K".to_string(), "1".to_string(), None);
    assert_eq!(r.err().unwrap().message(), "environment `prod` not found in `api`");
}

#[test]
fn numbers_are_decimal_with_optional_sign_fraction_and_exponent() {
    for ok in ["0", "5432", "-7", "+3", "1.5", "12.", ".5", "6e10", "6.02E+23", "1e-3"] {
        assert!(parses_as_number(ok), "{ok}");
    }
    for bad in ["", "abc", "-", ".", "1e", "1e+", "1.2.3", " 1", "1 ", "0x10", "--1", "e5"] {
        assert!(!parses_as_number(bad), "{bad}");
    }
}

#[test]
fn labels_name_the_types() {
    assert_eq!(SecretKind::Text.label(), "text");
    assert_eq!(SecretKind::Number.label(), "number");
    assert_eq!(SecretKind::Json.label(), "json");
}

#[test]
fn listing_shows_values_unless_masked() {
    let mut store = api_dev();
    assert!(set_typed(&mut store, "DB_HOST", "localhost", None).1.is_ok());
    assert_eq!(list_secrets(&store, "api", "dev", false).ok().unwrap(), vec!["DB_HOST=localhost".to_string()]);
    assert_eq!(list_secrets(&store, "api", "dev", true).ok().unwrap(), vec!["DB_HOST=lo••••••".to_string()]);
    assert_eq!(
        list_secrets(&store, "api", "qa", false).err().unwrap().message(),
        "environment `qa` not found in `api`"
    );
}

#[test]
fn json_and_toml_rendering_always_succeed() {
    let mut values = IndexMap::new();
    values.insert("A".to_string(), "1".to_string());
    values.insert("WEIRD KEY".to_string(), "quote \" and \\ and\nnewline".to_string());
    let json = render(&values, Format::Json).ok().unwrap();
    assert_eq!(json, "{\n  \"A\": \"1\",\n  \"WEIRD KEY\": \"quote \\\" and \\\\ and\\nnewline\"\n}\n");
    assert!(render(&values, Format::Toml).is_ok());
    assert!(render(&IndexMap::new(), Format::Toml).is_ok());
}

#[test]
fn conflicts_are_counted_and_stop_ends_the_import() {
    let mut store = api_dev();
    let first = parse("A=1\nB=2\nC=3\n");
    import_merge(&mut store, "api", "dev", &first);
    let second = parse("A=10\nB=20\nC=30\n");
    let (added, conflicts) = import_merge(&mut store, "api", "dev", &second);
    assert_eq!(added, 0);
    assert_eq!(conflicts.len(), 3);
    let mut progress = import_progress(false);
    let answers = [Some(ConflictChoice::Keep), Some(ConflictChoice::Overwrite), Some(ConflictChoice::Stop)];
    for ((k, v), choice) in conflicts.into_iter().zip(answers) {
        if progress.stopped {
            break;
        }
        assert!(resolve_conflict(&mut store, "api", "dev", &mut progress, k, v, true, choice).is_ok());
    }
    assert_eq!((progress.updated, progress.skipped, progress.stopped), (1, 1, true));
    assert_eq!(store.value("api", "dev", "A").unwrap(), "1");
    assert_eq!(store.value("api", "dev", "B").unwrap(), "20");
    assert_eq!(store.value("api", "dev", "C").unwrap(), "3");
}

#[test]
fn overwrite_all_applies_to_the_rest_without_asking() {
    let mut store = api_dev();
    import_merge(&mut store, "api", "dev", &parse("A=1\nB=2\n"));
    let (_, conflicts) = import_merge(&mut store, "api", "dev", &parse("A=10\nB=20\n"));
    let mut progress = import_progress(false);
    let mut it = conflicts.into_iter();
    let (k, v) = it.next().unwrap();
    assert!(resolve_conflict(&mut store, "api", "dev", &mut progress, k, v, true, Some(ConflictChoice::OverwriteAll)).is_ok());
    assert!(progress.overwrite_rest);
    let (k, v) = it.next().unwrap();
    assert!(resolve_conflict(&mut store, "api", "dev", &mut progress, k, v, true, None).is_ok());
    assert_eq!(progress.updated, 2);
    assert_eq!(store.value("api", "dev", "B").unwrap(), "20");
    let mut quiet = import_progress(false);
    assert!(resolve_conflict(&mut store, "api", "dev", &mut quiet, "A".to_string(), "99".to_string(), false, None).is_ok());
    assert_eq!((quiet.updated, quiet.skipped), (0, 1));
    assert_eq!(store.value("api", "dev", "A").unwrap(), "10");
}

#[test]
fn deleting_a_secret_drops_its_type() {
    let mut store = api_dev();
    assert!(set_typed(&mut store, "PORT", "5432", Some(SecretKind::Number)).1.is_ok());
    assert!(devsecrets::commands::delete_secret(&mut store, "api", "dev", "PORT").is_ok());
    let env = store.project("api").unwrap().environments.get("dev").unwrap();
    assert_eq!(env.kind("PORT"), SecretKind::Text);
    let (used, r) = set_typed(&mut store, "PORT", "many", None);
    assert_eq!(used, SecretKind::Text);
    assert!(r.is_ok());
}

#[test]
fn an_unattended_import_keeps_or_overwrites_changed_keys() {
    let mut store = api_dev();
    import_unattended(&mut store, "api", "dev", &parse("A=1\nB=2\n"), false, false);
    let kept = import_unattended(&mut store, "api", "dev", &parse("B=20\nC=3\nA=1\n"), false, false);
    assert_eq!((kept.added, kept.updated, kept.skipped), (1, 0, 1));
    assert_eq!(list_secrets(&store, "api", "dev", false).ok().unwrap(), vec!["A=1", "B=2", "C=3"]);
    let over = import_unattended(&mut store, "api", "dev", &parse("B=20\nD=4\n"), false, true);
    assert_eq!((over.added, over.updated, over.skipped), (1, 1, 0));
    assert_eq!(list_secrets(&store, "api", "dev", false).ok().unwrap(), vec!["A=1", "B=20", "C=3", "D=4"]);
    let rep = import_unattended(&mut store, "web", "prod", &parse("X=1\n"), true, false);
    assert_eq!(rep.added, 1);
    assert_eq!(list_secrets(&store, "web", "prod", false).ok().unwrap(), vec!["X=1"]);
    assert_eq!(store.project("web").unwrap().default_env.as_deref(), Some("prod"));
}
