use surrealkit::config::EnvVar;
use surrealkit::error::ErrorKind;
use surrealkit::json::{json_eq, JsonMember, JsonValue};
use surrealkit::schema_state::{EntityKey, SchemaFile, SchemaSnapshotEntry};
use surrealkit::sync::{
    applied, compared, detect_shared_db, file_changed, load_sync_hashes, meta_written, parse_bool, pruned,
    recorded, run_sync_once, shared_known, sync_meta, watch_banner, watch_interval_ms, watch_stops_on_error, Note,
    Stream, SyncAction, SyncInput, SyncOpts, SyncPhase, SyncStep,
};

fn env(vars: &[(&str, &str)]) -> Vec<EnvVar> {
    vars.iter().map(|(n, v)| EnvVar { name: n.to_string(), value: v.to_string() }).collect()
}

fn object(members: Vec<(&str, JsonValue)>) -> JsonValue {
    JsonValue::Object(
        members.into_iter().map(|(k, v)| JsonMember { key: k.to_string(), value: v }).collect(),
    )
}

fn text(s: &str) -> JsonValue {
    JsonValue::Text(s.to_string())
}

fn file(path: &str, hash: &str) -> SchemaFile {
    SchemaFile { path: path.to_string(), sql: format!("-- {}", path), hash: hash.to_string() }
}

fn entry(path: &str, hash: &str) -> SchemaSnapshotEntry {
    SchemaSnapshotEntry { path: path.to_string(), hash: hash.to_string() }
}

fn entity(kind: &str, scope: Option<&str>, name: &str) -> EntityKey {
    EntityKey { kind: kind.to_string(), scope: scope.map(|s| s.to_string()), name: name.to_string() }
}

fn opts() -> SyncOpts {
    SyncOpts {
        watch: false,
        debounce_ms: 1000,
        dry_run: false,
        fail_fast: false,
        prune: true,
        allow_shared_prune: false,
    }
}

fn said(notes: &[Note]) -> Vec<String> {
    notes
        .iter()
        .map(|n| match n.stream {
            Stream::Stdout => format!("out: {}", n.text),
            Stream::Stderr => format!("err: {}", n.text),
        })
        .collect()
}

fn action(step: &SyncStep) -> String {
    match &step.action {
        SyncAction::Apply { index } => format!("apply {}", index),
        SyncAction::Record { index } => format!("record {}", index),
        SyncAction::CompareCatalog => "compare".to_string(),
        SyncAction::DetectShared => "detect".to_string(),
        SyncAction::Prune { sql } => format!("prune {}", sql),
        SyncAction::WriteMeta => "meta".to_string(),
        SyncAction::Finish { result: Ok(()) } => "done".to_string(),
        SyncAction::Finish { result: Err(e) } => format!("failed {}", e.to_text()),
    }
}

#[test]
fn truth_values_are_read_from_a_few_words() {
    for word in ["1", "true", " YES ", "y", "On"] {
        assert_eq!(parse_bool(word), Some(true));
    }
    for word in ["0", "FALSE", "no", " n", "off\n"] {
        assert_eq!(parse_bool(word), Some(false));
    }
    for word in ["", "2", "yes please", "t"] {
        assert_eq!(parse_bool(word), None);
    }
}

#[test]
fn a_watch_waits_a_quarter_second_at_least() {
    let mut o = opts();
    assert_eq!(watch_interval_ms(&o), 1000);
    o.debounce_ms = 10;
    assert_eq!(watch_interval_ms(&o), 250);
    assert_eq!(
        watch_banner(&o),
        "Watch mode active (250ms interval). Waiting for schema changes... (Ctrl+C to stop)"
    );
    o.debounce_ms = 250;
    assert_eq!(watch_interval_ms(&o), 250);
    assert!(!watch_stops_on_error(&o));
    o.fail_fast = true;
    assert!(watch_stops_on_error(&o));
}

#[test]
fn tracked_hashes_come_from_rows_with_path_and_hash() {
    let rows = vec![
        object(vec![("path", text("a")), ("hash", text("1"))]),
        object(vec![("path", text("b"))]),
        object(vec![("path", JsonValue::Number("1".to_string())), ("hash", text("1"))]),
        text("not a row"),
        object(vec![("hash", text("2")), ("path", text("c")), ("extra", JsonValue::Null)]),
    ];
    assert_eq!(load_sync_hashes(&rows), vec![entry("a", "1"), entry("c", "2")]);
    let known = vec![entry("a", "1"), entry("b", "2"), entry("a", "3")];
    assert!(!file_changed(&file("a", "3"), &known));
    assert!(file_changed(&file("a", "1"), &known));
    assert!(!file_changed(&file("b", "2"), &known));
    assert!(file_changed(&file("c", "2"), &known));
}

#[test]
fn the_environment_decides_about_sharing_before_the_server() {
    let yes = Some(object(vec![("value", JsonValue::Bool(true))]));
    let no = Some(object(vec![("value", JsonValue::Bool(false))]));
    let odd = Some(object(vec![("value", text("true"))]));
    assert!(detect_shared_db(&env(&[]), &yes));
    assert!(!detect_shared_db(&env(&[]), &no));
    assert!(!detect_shared_db(&env(&[]), &odd));
    assert!(!detect_shared_db(&env(&[]), &None));
    assert!(!detect_shared_db(&env(&[("SURREALKIT_SHARED_DB", "off")]), &yes));
    assert!(detect_shared_db(&env(&[("SURREALKIT_SHARED_DB", "1")]), &no));
    assert!(detect_shared_db(&env(&[("SURREALKIT_SHARED_DB", "maybe")]), &yes));
}

#[test]
fn metadata_holds_what_the_environment_says_and_the_time() {
    let meta = sync_meta(&env(&[("SURREALKIT_SHARED_DB", "yes"), ("SURREALKIT_OWNER", "team")]), "2024-01-01T00:00:00Z");
    let keys: Vec<&str> = meta.iter().map(|m| m.key.as_str()).collect();
    assert_eq!(keys, vec!["shared", "owner", "last_sync"]);
    assert!(json_eq(&meta[0].value, &JsonValue::Bool(true)));
    assert!(json_eq(&meta[1].value, &text("team")));
    assert!(json_eq(&meta[2].value, &text("2024-01-01T00:00:00Z")));
    let meta = sync_meta(&env(&[("SURREALKIT_SHARED_DB", "?"), ("SURREALKIT_OWNER", "  ")]), "now");
    let keys: Vec<&str> = meta.iter().map(|m| m.key.as_str()).collect();
    assert_eq!(keys, vec!["last_sync"]);
}

#[test]
fn a_pass_applies_what_changed_and_prunes_what_is_stale() {
    let files = vec![file("a", "1"), file("b", "2"), file("c", "3")];
    let known = vec![entry("a", "1"), entry("b", "old")];
    let stale = vec![entity("table", None, "gone"), entity("field", Some("t"), "f")];
    let input = SyncInput {
        files: &files,
        known: &known,
        stale: &stale,
        opts: opts(),
        watch_mode: false,
        shared_override: None,
    };
    let step = run_sync_once(&input);
    assert_eq!((action(&step).as_str(), step.pass.phase, step.pass.changed), ("apply 1", SyncPhase::Applying, 1));
    assert!(step.notes.is_empty());
    let step = applied(&input, step.pass, Ok(()));
    assert_eq!(action(&step), "record 1");
    assert_eq!(said(&step.notes), vec!["out: applied b"]);
    let step = recorded(&input, step.pass, Ok(()));
    assert_eq!((action(&step).as_str(), step.pass.changed), ("apply 2", 2));
    let step = applied(&input, step.pass, Err("syntax".to_string()));
    assert_eq!(action(&step), "compare");
    assert_eq!(said(&step.notes), vec!["err: error applying c: syntax"]);
    assert_eq!(step.pass.errors, 1);
    let step = compared(&input, step.pass, Ok(()));
    assert_eq!(action(&step), "detect");
    let step = shared_known(&input, step.pass, Ok(false));
    assert_eq!(action(&step), "prune REMOVE TABLE gone;\nREMOVE FIELD f ON t;");
    let step = pruned(&input, step.pass, Ok(()));
    assert_eq!(action(&step), "meta");
    assert_eq!(said(&step.notes), vec!["out: pruned 2 stale entities"]);
    assert_eq!(step.pass.pruned, 2);
    let step = meta_written(&input, step.pass, Ok(()));
    assert_eq!(action(&step), "done");
    assert_eq!(step.pass.phase, SyncPhase::Finished);
    assert_eq!(said(&step.notes), vec!["err: sync completed with 1 apply error(s)"]);
    let step = meta_written(&input, step.pass, Ok(()));
    assert_eq!(action(&step), "failed the pass does not wait for this result");
}

#[test]
fn a_pass_that_fails_fast_ends_with_the_first_error() {
    let files = vec![file("a", "1"), file("b", "2")];
    let mut o = opts();
    o.fail_fast = true;
    let input = SyncInput {
        files: &files,
        known: &vec![],
        stale: &vec![],
        opts: o,
        watch_mode: false,
        shared_override: None,
    };
    let step = run_sync_once(&input);
    assert_eq!(action(&step), "apply 0");
    let step = applied(&input, step.pass, Err("boom".to_string()));
    assert_eq!(action(&step), "failed boom");
    assert_eq!(said(&step.notes), vec!["err: error applying a: boom"]);
    let step = run_sync_once(&input);
    let step = applied(&input, step.pass, Ok(()));
    let step = recorded(&input, step.pass, Err("table locked".to_string()));
    assert_eq!(action(&step), "failed table locked");
}

#[test]
fn a_dry_run_says_what_it_would_do() {
    let files = vec![file("a", "1"), file("b", "2")];
    let known = vec![entry("a", "1")];
    let stale = vec![entity("table", None, "gone")];
    let mut o = opts();
    o.dry_run = true;
    let input = SyncInput {
        files: &files,
        known: &known,
        stale: &stale,
        opts: o,
        watch_mode: false,
        shared_override: Some(false),
    };
    let step = run_sync_once(&input);
    assert_eq!(action(&step), "compare");
    assert_eq!(said(&step.notes), vec!["out: DRY RUN: would apply b"]);
    let step = compared(&input, step.pass, Ok(()));
    assert_eq!(action(&step), "done");
    assert_eq!(
        said(&step.notes),
        vec!["out: DRY RUN: would prune 1 stale entities", "out:   REMOVE TABLE gone;"]
    );
    let step = run_sync_once(&input);
    let step = compared(&input, step.pass, Err("snapshot unreadable".to_string()));
    assert_eq!(action(&step), "failed snapshot unreadable");
    let watching = SyncInput {
        files: &files,
        known: &known,
        stale: &stale,
        opts: o,
        watch_mode: true,
        shared_override: Some(false),
    };
    let step = run_sync_once(&watching);
    let step = compared(&watching, step.pass, Ok(()));
    assert_eq!(
        said(&step.notes),
        vec!["out: Change detected (dry-run): 1 schema file(s), 1 stale entity(ies) would be pushed."]
    );
}

#[test]
fn a_shared_database_is_pruned_only_when_that_is_allowed() {
    let stale = vec![entity("api", None, "v1")];
    let mut o = opts();
    let refused = SyncInput {
        files: &vec![],
        known: &vec![],
        stale: &stale,
        opts: o,
        watch_mode: false,
        shared_override: Some(true),
    };
    let step = run_sync_once(&refused);
    assert_eq!(action(&step), "compare");
    assert_eq!(said(&step.notes), vec!["out: No schema files found in database/schema"]);
    let step = compared(&refused, step.pass, Ok(()));
    assert_eq!(
        action(&step),
        "failed database is marked shared; refusing stale prune without --allow-shared-prune"
    );
    match &step.action {
        SyncAction::Finish { result: Err(e) } => assert_eq!(e.kind, ErrorKind::Configuration),
        other => panic!("expected an error, got {:?}", other),
    }
    o.allow_shared_prune = true;
    let allowed = SyncInput {
        files: &vec![],
        known: &vec![],
        stale: &stale,
        opts: o,
        watch_mode: false,
        shared_override: Some(true),
    };
    let step = run_sync_once(&allowed);
    assert_eq!(action(&compared(&allowed, step.pass, Ok(()))), "prune REMOVE API v1;");
    let asked = SyncInput {
        files: &vec![],
        known: &vec![],
        stale: &stale,
        opts: o,
        watch_mode: true,
        shared_override: None,
    };
    let step = run_sync_once(&asked);
    assert!(step.notes.is_empty());
    let step = compared(&asked, step.pass, Ok(()));
    assert_eq!(action(&step), "detect");
    assert!(step.notes.is_empty());
    let step = shared_known(&asked, step.pass, Err("down".to_string()));
    assert_eq!(action(&step), "failed down");
    let missing = vec![entity("field", None, "f")];
    let broken = SyncInput {
        files: &vec![],
        known: &vec![],
        stale: &missing,
        opts: o,
        watch_mode: true,
        shared_override: Some(false),
    };
    let step = run_sync_once(&broken);
    assert_eq!(
        action(&compared(&broken, step.pass, Ok(()))),
        "failed cannot render REMOVE FIELD for 'f' because scope is missing"
    );
}

#[test]
fn a_pass_says_when_nothing_changed_and_when_stale_entities_stay() {
    let files = vec![file("a", "1")];
    let known = vec![entry("a", "1")];
    let stale = vec![entity("table", None, "gone")];
    let mut o = opts();
    o.prune = false;
    let input = SyncInput {
        files: &files,
        known: &known,
        stale: &stale,
        opts: o,
        watch_mode: false,
        shared_override: None,
    };
    let step = run_sync_once(&input);
    assert_eq!(action(&step), "compare");
    let step = compared(&input, step.pass, Ok(()));
    assert_eq!(action(&step), "meta");
    let step = meta_written(&input, step.pass, Ok(()));
    assert_eq!(
        said(&step.notes),
        vec![
            "out: schema already in sync",
            "out: detected 1 stale entities; rerun without --no-prune to remove",
        ]
    );
    let watching = SyncInput {
        files: &files,
        known: &vec![],
        stale: &vec![],
        opts: o,
        watch_mode: true,
        shared_override: None,
    };
    let step = run_sync_once(&watching);
    let step = applied(&watching, step.pass, Ok(()));
    assert!(step.notes.is_empty());
    let step = recorded(&watching, step.pass, Ok(()));
    let step = compared(&watching, step.pass, Ok(()));
    let step = meta_written(&watching, step.pass, Ok(()));
    assert_eq!(
        said(&step.notes),
        vec!["out: Change detected and pushed: 1 schema file(s) synced, 0 stale entity(ies) pruned."]
    );
    let quiet = SyncInput {
        files: &files,
        known: &known,
        stale: &vec![],
        opts: o,
        watch_mode: true,
        shared_override: None,
    };
    let step = run_sync_once(&quiet);
    let step = compared(&quiet, step.pass, Ok(()));
    let step = meta_written(&quiet, step.pass, Ok(()));
    assert!(step.notes.is_empty());
}

