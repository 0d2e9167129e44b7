use devsecrets::model::{Environment, Project, Store};
use devsecrets::resolve::{resolve, resolve_at, utf8_char_len, Ref, ResolveError};
use indexmap::IndexMap;

fn store_with(values: &[(&str, &str, &str, &str)]) -> Store {
    let mut store = Store::default();
    for (proj, env, key, val) in values {
        let p = store
            .projects
            .entry(proj.to_string())
            .or_insert_with(Project::default);
        let e = p
            .environments
            .entry(env.to_string())
            .or_insert_with(Environment::default);
        e.values.insert(key.to_string(), val.to_string());
    }
    store
}

fn origin(p: &str, e: &str, k: &str) -> Ref {
    (p.to_string(), e.to_string(), k.to_string())
}

#[test]
fn plain_value_unchanged() {
    let store = Store::default();
    let origin = origin("p", "e", "k");
    assert_eq!(resolve(&store, &origin, "hello").ok().unwrap(), "hello");
}

#[test]
fn resolves_single_reference() {
    let store = store_with(&[("shared", "common", "DB", "postgres://x")]);
    let origin = origin("app", "dev", "DATABASE_URL");
    let out = resolve(&store, &origin, "${shared.common.DB}").ok().unwrap();
    assert_eq!(out, "postgres://x");
}

#[test]
fn resolves_embedded_reference() {
    let store = store_with(&[("shared", "common", "HOST", "db.local")]);
    let origin = origin("app", "dev", "URL");
    let out = resolve(&store, &origin, "http://${shared.common.HOST}:5432").ok().unwrap();
    assert_eq!(out, "http://db.local:5432");
}

#[test]
fn nested_reference_resolved() {
    let store = store_with(&[
        ("base", "e", "A", "value-a"),
        ("base", "e", "B", "${base.e.A}-b"),
    ]);
    let origin = origin("x", "y", "z");
    let out = resolve(&store, &origin, "${base.e.B}").ok().unwrap();
    assert_eq!(out, "value-a-b");
}

#[test]
fn detects_cycle() {
    let mut store = Store::default();
    let mut env = Environment::default();
    env.values.insert("A".into(), "${p.e.B}".into());
    env.values.insert("B".into(), "${p.e.A}".into());
    let mut envs = IndexMap::new();
    envs.insert("e".to_string(), env);
    store.projects.insert(
        "p".to_string(),
        Project {
            default_env: None,
            folder: None,
            environments: envs,
        },
    );
    let err = resolve_at(&store, "p", "e", "A").err().unwrap();
    assert!(err.message().contains("circular"));
}

#[test]
fn missing_reference_errors() {
    let store = Store::default();
    let origin = origin("p", "e", "k");
    let err = resolve(&store, &origin, "${a.b.c}").err().unwrap();
    assert!(err.message().contains("missing"));
}

#[test]
fn same_env_reference() {
    // ${secret} → same project + env
    let store = store_with(&[
        ("api", "dev", "HOST", "db.local"),
        ("api", "dev", "URL", "http://${HOST}:5432"),
    ]);
    assert_eq!(
        resolve_at(&store, "api", "dev", "URL").ok().unwrap(),
        "http://db.local:5432"
    );
}

#[test]
fn same_project_other_env_reference() {
    // ${env.secret} → same project, different env
    let store = store_with(&[
        ("api", "shared", "TOKEN", "abc123"),
        ("api", "dev", "AUTH", "Bearer ${shared.TOKEN}"),
    ]);
    assert_eq!(
        resolve_at(&store, "api", "dev", "AUTH").ok().unwrap(),
        "Bearer abc123"
    );
}

#[test]
fn relative_reference_uses_target_context() {
    // A (api/dev) → ${web.KEY} resolves to api/web/KEY, whose value uses a
    // bare ${BASE} that must resolve within api/web (not api/dev).
    let store = store_with(&[
        ("api", "web", "BASE", "from-web"),
        ("api", "web", "KEY", "[${BASE}]"),
        ("api", "dev", "A", "${web.KEY}"),
    ]);
    assert_eq!(resolve_at(&store, "api", "dev", "A").ok().unwrap(), "[from-web]");
}

#[test]
fn self_reference_is_a_cycle() {
    let store = store_with(&[("p", "e", "A", "${A}")]);
    let err = resolve_at(&store, "p", "e", "A").err().unwrap();
    assert!(err.message().contains("circular"));
}

#[test]
fn empty_reference_errors() {
    let store = Store::default();
    let origin = origin("p", "e", "k");
    assert!(resolve(&store, &origin, "${}").is_err());
    assert!(resolve(&store, &origin, "${a.}").is_err());
}

#[test]
fn error_texts_name_the_reference() {
    let store = store_with(&[("p", "e", "A", "${A}")]);
    let err = resolve_at(&store, "p", "e", "A").err().unwrap();
    assert_eq!(err.message(), "circular reference detected at `${p.e.A}`");
    let missing = resolve(&store, &origin("p", "e", "k"), "${x.y}").err().unwrap();
    assert_eq!(
        missing.message(),
        "reference `${x.y}` points to a missing secret `p.x.y`"
    );
    let invalid = resolve(&store, &origin("p", "e", "k"), "${a.b.c.d}").err().unwrap();
    assert!(matches!(invalid, ResolveError::Invalid(_)));
    assert_eq!(
        invalid.message(),
        "invalid reference `${a.b.c.d}` (expected `${secret}`, `${env.secret}` or `${project.env.secret}`)"
    );
}

#[test]
fn unclosed_and_lone_dollars_are_kept() {
    let store = Store::default();
    let origin = origin("p", "e", "k");
    assert_eq!(resolve(&store, &origin, "cost: $5 ${open").ok().unwrap(), "cost: $5 ${open");
}

#[test]
fn first_failing_reference_decides_the_error() {
    let store = store_with(&[("p", "e", "A", "${A}")]);
    let err = resolve(&store, &origin("p", "e", "k"), "${nope}${A}").err().unwrap();
    assert!(err.message().contains("missing"));
}

#[test]
fn utf8_lengths_from_the_first_byte() {
    for c in ['a', 'é', '€', '😀'] {
        let mut buf = [0u8; 4];
        let bytes = c.encode_utf8(&mut buf).as_bytes();
        assert_eq!(utf8_char_len(bytes[0]), bytes.len());
    }
}

#[test]
fn text_without_a_closed_reference_is_copied() {
    let store = Store::default();
    let origin = origin("p", "e", "k");
    assert_eq!(resolve(&store, &origin, "héllo ${x").ok().unwrap(), "héllo ${x");
    assert_eq!(resolve(&store, &origin, "} then $ {y} and ${ more").ok().unwrap(), "} then $ {y} and ${ more");
}
