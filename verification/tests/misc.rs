use surrealkit::config::{env_lookup, DbCfg, EnvVar};
use surrealkit::db_capabilities::{supports_remove_api, REMOVE_API_PROBE};
use surrealkit::error::{ErrorKind, KitError};
use surrealkit::migration::Migration;
use surrealkit::paths::{display, parent_dir, resolve_fixture_path};
use surrealkit::scaffold::{run_setup, scaffold, seed, DEFAULT_SETUP};
use surrealkit::schema_state::{
    CATALOG_SNAPSHOT_PATH, MIGRATIONS_DIR, SCHEMA_DIR, SCHEMA_SNAPSHOT_PATH, STATE_DIR,
};
use surrealkit::status::status;
use surrealkit::tester::report::{print_human_report, report_document, write_json_report};
use surrealkit::tester::settings::{
    check_selection, normalize_base_url, resolve_base_url, resolve_timeout_ms, run_verdict,
};
use surrealkit::tester::types::{
    AssertionReport, CaseKind, CaseReport, GlobalDefaults, GlobalTestConfig, LoadedSuite,
    RunReport, SqlExpectCase, SuiteReport, SuiteSpec, TestOpts,
};

fn env(vars: &[(&str, &str)]) -> Vec<EnvVar> {
    vars.iter().map(|(n, v)| EnvVar { name: n.to_string(), value: v.to_string() }).collect()
}

fn opts() -> TestOpts {
    TestOpts {
        suite: None,
        case: None,
        tags: vec![],
        fail_fast: false,
        parallel: 1,
        json_out: None,
        no_setup: false,
        no_sync: false,
        no_seed: false,
        base_url: None,
        timeout_ms: None,
        keep_db: false,
    }
}

fn global(base_url: Option<&str>, timeout_ms: Option<u64>) -> GlobalTestConfig {
    GlobalTestConfig {
        defaults: GlobalDefaults { base_url: base_url.map(|s| s.to_string()), timeout_ms },
        actors: vec![],
        fixtures: vec![],
    }
}

fn report() -> RunReport {
    RunReport {
        started_at: "2020-01-01T00:00:00Z".into(),
        finished_at: "2020-01-01T00:00:01Z".into(),
        duration_ms: 1000,
        suites_total: 1,
        suites_failed: 0,
        cases_total: 1,
        cases_passed: 1,
        cases_failed: 0,
        suites: Vec::new(),
    }
}

#[test]
fn json_report_is_serializable() {
    let report = RunReport {
        started_at: "2020-01-01T00:00:00Z".into(),
        finished_at: "2020-01-01T00:00:01Z".into(),
        duration_ms: 1000,
        suites_total: 1,
        suites_failed: 0,
        cases_total: 1,
        cases_passed: 1,
        cases_failed: 0,
        suites: Vec::new(),
    };
    let encoded = write_json_report(&report);
    assert!(encoded.contains("\"cases_total\":1"));
}

#[test]
fn the_document_of_a_report_nests_suites_cases_and_assertions() {
    let mut r = report();
    r.suites = vec![SuiteReport {
        suite_file: "a.toml".to_string(),
        suite_name: "a".to_string(),
        namespace: "n".to_string(),
        database: "d".to_string(),
        duration_ms: 5,
        cases_total: 1,
        cases_passed: 0,
        cases_failed: 1,
        cases: vec![CaseReport {
            name: "c".to_string(),
            kind: "sql_expect".to_string(),
            duration_ms: 3,
            passed: false,
            message: None,
            assertions: vec![AssertionReport {
                name: "outcome".to_string(),
                passed: false,
                message: "said \"no\"".to_string(),
            }],
        }],
    }];
    assert_eq!(
        write_json_report(&r),
        "{\"started_at\":\"2020-01-01T00:00:00Z\",\"finished_at\":\"2020-01-01T00:00:01Z\",\"duration_ms\":1000,\"suites_total\":1,\"suites_failed\":0,\"cases_total\":1,\"cases_passed\":1,\"cases_failed\":0,\"suites\":[{\"suite_file\":\"a.toml\",\"suite_name\":\"a\",\"namespace\":\"n\",\"database\":\"d\",\"duration_ms\":5,\"cases_total\":1,\"cases_passed\":0,\"cases_failed\":1,\"cases\":[{\"name\":\"c\",\"kind\":\"sql_expect\",\"duration_ms\":3,\"passed\":false,\"message\":null,\"assertions\":[{\"name\":\"outcome\",\"passed\":false,\"message\":\"said \\\"no\\\"\"}]}]}]}"
    );
    let parsed: serde_json::Value =
        serde_json::from_str(&report_document(&r).to_text()).expect("valid JSON");
    assert_eq!(parsed["suites"][0]["cases"][0]["assertions"][0]["message"], "said \"no\"");
}

#[test]
fn the_report_for_the_operator_lists_what_failed() {
    let mut r = report();
    r.suites_failed = 1;
    r.cases_total = 3;
    r.cases_failed = 2;
    r.suites = vec![
        SuiteReport {
            suite_file: "a.toml".to_string(),
            suite_name: "alpha".to_string(),
            namespace: "ns_a".to_string(),
            database: "db_a".to_string(),
            duration_ms: 5,
            cases_total: 3,
            cases_passed: 1,
            cases_failed: 2,
            cases: vec![
                CaseReport {
                    name: "good".to_string(),
                    kind: "sql_expect".to_string(),
                    duration_ms: 1,
                    passed: true,
                    message: None,
                    assertions: vec![],
                },
                CaseReport {
                    name: "bad".to_string(),
                    kind: "api_request".to_string(),
                    duration_ms: 1,
                    passed: false,
                    message: Some("api assertions failed (status=500)".to_string()),
                    assertions: vec![
                        AssertionReport { name: "status".to_string(), passed: false, message: "expected status 200, got 500".to_string() },
                        AssertionReport { name: "header_assertion_1".to_string(), passed: true, message: "fine".to_string() },
                    ],
                },
                CaseReport {
                    name: "worse".to_string(),
                    kind: "sql_expect".to_string(),
                    duration_ms: 1,
                    passed: false,
                    message: None,
                    assertions: vec![],
                },
            ],
        },
        SuiteReport {
            suite_file: "b.toml".to_string(),
            suite_name: "beta".to_string(),
            namespace: "ns_b".to_string(),
            database: "db_b".to_string(),
            duration_ms: 5,
            cases_total: 0,
            cases_passed: 0,
            cases_failed: 0,
            cases: vec![],
        },
    ];
    assert_eq!(
        print_human_report(&r),
        vec![
            "Test run summary:",
            "  suites: 1 total, 1 failed",
            "  cases: 3 total, 1 passed, 2 failed",
            "  duration_ms: 1000",
            "suite alpha [ns_a / db_a]: 1 passed, 2 failed",
            "  FAIL bad (api_request) api assertions failed (status=500)",
            "    - status: expected status 200, got 500",
            "  FAIL worse (sql_expect) unknown failure",
            "suite beta [ns_b / db_b]: 0 passed, 0 failed",
        ]
    );
    assert_eq!(print_human_report(&report()).len(), 4);
}

#[test]
fn a_run_fails_when_cases_failed_or_nothing_was_chosen() {
    assert!(run_verdict(&report()).is_ok());
    let mut r = report();
    r.cases_failed = 12;
    let e = run_verdict(&r).unwrap_err();
    assert_eq!(e.to_text(), "12 test cases failed");
    let e = check_selection(&vec![]).unwrap_err();
    assert_eq!((e.kind, e.to_text().as_str()), (ErrorKind::Configuration, "No suites matched the selected filters"));
    let suite = LoadedSuite {
        path: "a".to_string(),
        spec: SuiteSpec { name: None, tags: vec![], actors: vec![], fixtures: vec![], cases: vec![] },
    };
    assert!(check_selection(&vec![suite]).is_ok());
    let k = CaseKind::SqlExpect(SqlExpectCase {
        actor: None,
        sql: String::new(),
        allow: true,
        error_contains: None,
        error_code: None,
        assertions: vec![],
    });
    assert_eq!(k.label(), "sql_expect");
    let e = KitError::new(ErrorKind::Execution, "inner".to_string()).context("outer");
    assert_eq!((e.kind, e.to_text().as_str()), (ErrorKind::Execution, "outer: inner"));
}

#[test]
fn the_base_url_comes_from_the_first_place_that_gives_one() {
    let e = env(&[("SURREALKIT_TEST_BASE_URL", "wss://env"), ("PUBLIC_DATABASE_HOST", "ws://host:8000")]);
    let mut o = opts();
    o.base_url = Some("http://opts".to_string());
    assert_eq!(resolve_base_url(&o, &global(Some("http://global"), None), &e).as_deref(), Some("http://opts"));
    o.base_url = None;
    assert_eq!(resolve_base_url(&o, &global(Some("ws://global"), None), &e).as_deref(), Some("http://global"));
    assert_eq!(resolve_base_url(&o, &global(None, None), &e).as_deref(), Some("https://env"));
    assert_eq!(
        resolve_base_url(&o, &global(None, None), &env(&[("PUBLIC_DATABASE_HOST", "ws://host:8000")])).as_deref(),
        Some("http://host:8000")
    );
    assert_eq!(resolve_base_url(&o, &global(None, None), &env(&[])), None);
    assert_eq!(normalize_base_url("ws://a".to_string()), "http://a");
    assert_eq!(normalize_base_url("wss://a".to_string()), "https://a");
    assert_eq!(normalize_base_url("http://a".to_string()), "http://a");
    assert_eq!(normalize_base_url("ws:/a".to_string()), "ws:/a");
    assert_eq!(normalize_base_url("ws://".to_string()), "http://");
}

#[test]
fn the_time_limit_comes_from_the_first_place_that_gives_one() {
    let e = env(&[("SURREALKIT_TEST_TIMEOUT_MS", "2500")]);
    let mut o = opts();
    o.timeout_ms = Some(1);
    assert_eq!(resolve_timeout_ms(&o, &global(None, Some(2)), &e), 1);
    o.timeout_ms = None;
    assert_eq!(resolve_timeout_ms(&o, &global(None, Some(2)), &e), 2);
    assert_eq!(resolve_timeout_ms(&o, &global(None, None), &e), 2500);
    assert_eq!(resolve_timeout_ms(&o, &global(None, None), &env(&[("SURREALKIT_TEST_TIMEOUT_MS", "soon")])), 10_000);
    assert_eq!(resolve_timeout_ms(&o, &global(None, None), &env(&[])), 10_000);
}

#[test]
fn paths_are_resolved_as_texts() {
    assert_eq!(display("a/b.surql"), "a/b.surql");
    assert_eq!(resolve_fixture_path("base", "f.surql"), "base/f.surql");
    assert_eq!(resolve_fixture_path("base/", "f.surql"), "base/f.surql");
    assert_eq!(resolve_fixture_path("base", "/f.surql"), "/f.surql");
    assert_eq!(resolve_fixture_path("", "f.surql"), "f.surql");
    assert_eq!(parent_dir("a/b/c.toml").as_deref(), Some("a/b"));
    assert_eq!(parent_dir("a//b/").as_deref(), Some("a"));
    assert_eq!(parent_dir("c.toml").as_deref(), Some(""));
    assert_eq!(parent_dir("/c.toml").as_deref(), Some("/"));
    assert_eq!(parent_dir("/"), None);
    assert_eq!(parent_dir(""), None);
    assert_eq!(SCHEMA_DIR, "database/schema");
    assert_eq!(MIGRATIONS_DIR, "database/migrations");
    assert!(SCHEMA_SNAPSHOT_PATH.starts_with(STATE_DIR));
    assert!(CATALOG_SNAPSHOT_PATH.starts_with(STATE_DIR));
}

#[test]
fn the_settings_of_the_connection_have_defaults() {
    let cfg = DbCfg::from_env(&env(&[]));
    assert_eq!(
        (cfg.host(), cfg.ns(), cfg.db(), cfg.user(), cfg.pass()),
        ("http://localhost:8000", "db", "test", "root", "root")
    );
    let cfg = DbCfg::from_env(&env(&[
        ("PUBLIC_DATABASE_HOST", "ws://x"),
        ("PUBLIC_DATABASE_NAME", "d"),
        ("PUBLIC_DATABASE_NAMESPACE", "n"),
        ("DATABASE_USER", "u"),
        ("DATABASE_PASSWORD", "p"),
        ("DATABASE_USER", "later"),
    ]));
    assert_eq!((cfg.host(), cfg.ns(), cfg.db(), cfg.user(), cfg.pass()), ("ws://x", "n", "d", "u", "p"));
    let e = env(&[("a", "1")]);
    assert_eq!(env_lookup(&e, "a").map(|s| s.as_str()), Some("1"));
    assert_eq!(env_lookup(&e, "A"), None);
}

#[test]
fn the_server_knows_remove_api_unless_it_did_not_understand() {
    assert!(supports_remove_api(&Ok(())));
    assert!(supports_remove_api(&Err("The API '__surrealkit_capability_probe__' does not exist".to_string())));
    assert!(!supports_remove_api(&Err("Parse error: Unexpected token".to_string())));
    assert!(!supports_remove_api(&Err("NOT IMPLEMENTED".to_string())));
    assert!(!supports_remove_api(&Err("Invalid statement".to_string())));
    assert!(!supports_remove_api(&Err("failed to parse query".to_string())));
    assert!(REMOVE_API_PROBE.starts_with("REMOVE API "));
}

#[test]
fn the_ledger_is_shown_row_by_row() {
    assert_eq!(status(&vec![]), vec!["No migrations recorded"]);
    let rows = vec![
        Migration { id: "h1".to_string(), file: "001.surql".to_string(), applied_at: "t1".to_string() },
        Migration { id: "h2".to_string(), file: "002.surql".to_string(), applied_at: "t2".to_string() },
    ];
    assert_eq!(status(&rows), vec!["Applied migrations:", "t1 h1 001.surql", "t2 h2 002.surql"]);
}

#[test]
fn scaffolding_writes_what_is_missing() {
    let written = scaffold(false, false);
    let names: Vec<&str> = written.iter().map(|f| f.path.as_str()).collect();
    assert_eq!(names, vec!["database/seed.surql", "database/setup.surql"]);
    assert_eq!(written[0].content, "--- SEED\n");
    assert_eq!(written[1].content, DEFAULT_SETUP);
    assert_eq!(scaffold(true, false).len(), 1);
    assert_eq!(scaffold(false, true)[0].path, "database/seed.surql");
    assert!(scaffold(true, true).is_empty());
    assert!(DEFAULT_SETUP.contains("DEFINE TABLE OVERWRITE _migrations SCHEMAFULL"));
    assert_eq!(run_setup(None), DEFAULT_SETUP);
    assert_eq!(run_setup(Some("mine".to_string())), "mine");
    assert_eq!(seed(Some("INSERT;".to_string())).expect("a script"), "INSERT;");
    let e = seed(None).unwrap_err();
    assert_eq!(e.to_text(), "seed file not found: database/seed.surql");
}
