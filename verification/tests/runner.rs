use surrealkit::config::DbCfg;
use surrealkit::error::{ErrorKind, KitError};
use surrealkit::json::{JsonMember, JsonValue};
use surrealkit::tester::actors::ActorSession;
use surrealkit::tester::cases::{ApiResponse, CaseAction, CasePhase, CaseRun};
use surrealkit::tester::runner::{
    build_filter_input, cleanup_suite_db, cleanup_warning, collect_reports, evaluate_outcome,
    report_sql_expect, run_report, stamp_case, stops_after, suite_names, suite_report,
    unique_run_id, RunProgress, RunnerContext, SuiteNames, SuiteProgress,
};
use surrealkit::tester::types::{
    ApiRequestCase, CaseKind, CaseReport, CaseSpec, GlobalDefaults,
    GlobalTestConfig, Header, HeaderAssertionSpec, JsonAssertionSpec, LoadedSuite,
    PermissionAction, PermissionRuleSpec, PermissionsMatrixCase, SchemaBehaviorCase,
    SchemaMetadataCase, SqlExpectCase, SuiteReport, SuiteSpec, TestOpts,
};

fn number(n: &str) -> JsonValue {
    JsonValue::Number(n.to_string())
}

fn text(s: &str) -> JsonValue {
    JsonValue::Text(s.to_string())
}

fn object(members: Vec<(&str, JsonValue)>) -> JsonValue {
    JsonValue::Object(
        members.into_iter().map(|(k, v)| JsonMember { key: k.to_string(), value: v }).collect(),
    )
}

fn some(s: &str) -> Option<String> {
    Some(s.to_string())
}

fn ok(v: JsonValue) -> Result<JsonValue, String> {
    Ok(v)
}

fn failed(e: &str) -> Result<JsonValue, String> {
    Err(e.to_string())
}

fn json_assertion(path: &str, equals: Option<JsonValue>) -> JsonAssertionSpec {
    JsonAssertionSpec { path: path.to_string(), exists: None, equals, contains: None, regex: None }
}

fn sessions(names: &[&str]) -> Vec<ActorSession> {
    names
        .iter()
        .map(|n| ActorSession {
            name: n.to_string(),
            headers: vec![Header { name: "x-actor".to_string(), value: n.to_string() }],
        })
        .collect()
}

fn opts() -> TestOpts {
    TestOpts {
        suite: None,
        case: None,
        tags: vec![],
        fail_fast: false,
        parallel: 1,
        json_out: None,
        no_setup: false,
        no_sync: false,
        no_seed: false,
        base_url: None,
        timeout_ms: None,
        keep_db: false,
    }
}

fn case_report(name: &str, passed: bool) -> CaseReport {
    CaseReport {
        name: name.to_string(),
        kind: "sql_expect".to_string(),
        duration_ms: 0,
        passed,
        message: None,
        assertions: vec![],
    }
}

fn suite_rep(file: &str, failed: usize, passed: usize) -> SuiteReport {
    SuiteReport {
        suite_file: file.to_string(),
        suite_name: file.to_string(),
        namespace: "ns".to_string(),
        database: "db".to_string(),
        duration_ms: 1,
        cases_total: failed + passed,
        cases_passed: passed,
        cases_failed: failed,
        cases: vec![],
    }
}

fn files(v: &[SuiteReport]) -> Vec<String> {
    v.iter().map(|s| s.suite_file.clone()).collect()
}

fn sql_case(allow: bool, contains: Option<&str>, assertions: Vec<JsonAssertionSpec>) -> CaseSpec {
    CaseSpec {
        name: "c".to_string(),
        tags: vec![],
        kind: CaseKind::SqlExpect(SqlExpectCase {
            actor: Some("alice".to_string()),
            sql: "SELECT * FROM t;".to_string(),
            allow,
            error_contains: contains.map(|s| s.to_string()),
            error_code: None,
            assertions,
        }),
    }
}

fn execute(action: &CaseAction) -> (String, String) {
    match action {
        CaseAction::Execute { actor, sql } => (actor.clone(), sql.clone()),
        other => panic!("expected a statement, got {:?}", other),
    }
}

fn finish(action: CaseAction) -> Result<CaseReport, KitError> {
    match action {
        CaseAction::Finish { result } => result,
        other => panic!("expected the end, got {:?}", other),
    }
}

fn verdicts(report: &CaseReport) -> Vec<(String, bool)> {
    report.assertions.iter().map(|a| (a.name.clone(), a.passed)).collect()
}

#[test]
fn outcomes_are_judged_against_what_was_expected() {
    let none: Option<String> = None;
    let r = evaluate_outcome("o".to_string(), &ok(JsonValue::Null), true, &none, &none);
    assert_eq!((r.name.as_str(), r.passed, r.message.as_str()), ("o", true, "query succeeded as expected"));
    let r = evaluate_outcome("o".to_string(), &failed("boom"), true, &none, &none);
    assert_eq!((r.passed, r.message.as_str()), (false, "expected success, got error: boom"));
    let r = evaluate_outcome("o".to_string(), &ok(JsonValue::Null), false, &none, &none);
    assert_eq!((r.passed, r.message.as_str()), (false, "expected failure, query succeeded"));
    let r = evaluate_outcome("o".to_string(), &failed("boom"), false, &none, &none);
    assert_eq!((r.passed, r.message.as_str()), (true, "query failed as expected"));
    let r = evaluate_outcome("o".to_string(), &failed("boom E42"), false, &some("boom"), &some("E42"));
    assert!(r.passed);
    let r = evaluate_outcome("o".to_string(), &failed("boom E42"), false, &some("boom"), &some("E43"));
    assert_eq!((r.passed, r.message.as_str()), (false, "error mismatch, got 'boom E42'"));
}

#[test]
fn a_denied_statement_passes_only_when_it_fails_with_the_expected_error() {
    let none: Option<String> = None;
    let want = some("permission");
    let report = |outcome: Result<JsonValue, String>| {
        report_sql_expect("c".to_string(), "sql_expect".to_string(), &outcome, false, &want, &none, &vec![])
            .expect("a report")
    };
    let denied = report(failed("no permission to select"));
    assert!(denied.passed);
    assert_eq!(denied.message, None);
    assert_eq!(verdicts(&denied), vec![("outcome".to_string(), true)]);
    assert_eq!(denied.assertions[0].message, "query failed as expected");

    let ran = report(ok(JsonValue::Null));
    assert!(!ran.passed);
    assert_eq!(ran.message.as_deref(), Some("expected failure, query succeeded"));
    assert_eq!(ran.assertions[0].message, "expected failure, query succeeded");

    let other = report(failed("table not found"));
    assert!(!other.passed);
    assert_eq!(other.message.as_deref(), Some("error mismatch, got 'table not found'"));
    assert_eq!(verdicts(&other), vec![("outcome".to_string(), false)]);
}

#[test]
fn an_allowed_statement_is_judged_by_its_assertions() {
    let none: Option<String> = None;
    let value = object(vec![("n", number("1"))]);
    let specs = vec![json_assertion("n", Some(number("1"))), json_assertion("n", Some(number("2")))];
    let r = report_sql_expect("c".to_string(), "k".to_string(), &ok(value), true, &none, &none, &specs)
        .expect("a report");
    assert_eq!((r.name.as_str(), r.kind.as_str(), r.duration_ms), ("c", "k", 0));
    assert!(!r.passed);
    assert_eq!(r.message.as_deref(), Some("one or more assertions failed"));
    assert_eq!(
        verdicts(&r),
        vec![
            ("outcome".to_string(), true),
            ("json_assertion_1".to_string(), true),
            ("json_assertion_2".to_string(), false)
        ]
    );
    let r = report_sql_expect("c".to_string(), "k".to_string(), &failed("x"), true, &none, &none, &specs)
        .expect("a report");
    assert!(!r.passed);
    assert_eq!(r.message.as_deref(), Some("expected success, got error: x"));
    assert_eq!(r.assertions.len(), 1);
    let mut bad = json_assertion("n", None);
    bad.regex = Some("(".to_string());
    let e = report_sql_expect(
        "c".to_string(),
        "k".to_string(),
        &ok(object(vec![("n", number("1"))])),
        true,
        &none,
        &none,
        &vec![bad],
    )
    .unwrap_err();
    assert_eq!(e.kind, ErrorKind::Configuration);
}

#[test]
fn an_sql_case_runs_one_statement_as_its_actor() {
    let case = sql_case(false, Some("permission"), vec![]);
    let (run, action) = CaseRun::start(&case, &sessions(&["root", "alice"]), &None, 1000);
    assert_eq!(run.phase, CasePhase::Statement);
    assert_eq!(execute(&action), ("alice".to_string(), "SELECT * FROM t;".to_string()));
    let (run, action) = run.executed(&case, failed("permission denied"));
    assert_eq!(run.phase, CasePhase::Finished);
    let report = finish(action).expect("a report");
    assert!(report.passed);
    assert_eq!(report.kind, "sql_expect");

    let (_, action) = CaseRun::start(&case, &sessions(&["root"]), &None, 1000);
    let e = finish(action).unwrap_err();
    assert_eq!(e.kind, ErrorKind::Configuration);
    assert_eq!(e.to_text(), "actor 'alice' not configured");
}

#[test]
fn a_result_out_of_turn_ends_the_case() {
    let case = sql_case(true, None, vec![]);
    let (run, _) = CaseRun::start(&case, &sessions(&["alice"]), &None, 1000);
    let (run, action) = run.executed(&case, ok(JsonValue::Null));
    assert!(finish(action).is_ok());
    let (run, action) = run.executed(&case, ok(JsonValue::Null));
    assert_eq!(finish(action).unwrap_err().kind, ErrorKind::Case);
    let (_, action) = run.responded(&case, Err("x".to_string()));
    assert_eq!(finish(action).unwrap_err().kind, ErrorKind::Case);
}

#[test]
fn a_permissions_case_seeds_and_tries_each_rule() {
    let rule = |action, allow, sql: Option<&str>| PermissionRuleSpec {
        action,
        allow,
        sql: sql.map(|s| s.to_string()),
        error_contains: None,
    };
    let case = CaseSpec {
        name: "perm".to_string(),
        tags: vec![],
        kind: CaseKind::PermissionsMatrix(PermissionsMatrixCase {
            actor: Some("alice".to_string()),
            table: "doc".to_string(),
            record_id: None,
            rules: vec![
                rule(PermissionAction::Create, true, None),
                rule(PermissionAction::Select, true, None),
                rule(PermissionAction::Update, false, None),
                rule(PermissionAction::Delete, false, None),
                rule(PermissionAction::Query, true, Some("RETURN 1;")),
            ],
        }),
    };
    let seed = "UPSERT doc:perm_record MERGE { __surrealkit_perm_seed: true };";
    let expected = [
        "CREATE doc:perm_record_create_0 CONTENT { marker: 'perm' };",
        "SELECT * FROM doc:perm_record;",
        "UPDATE doc:perm_record SET marker = 'updated_2';",
        "DELETE doc:perm_record;",
        "RETURN 1;",
    ];
    let outcomes = [ok(JsonValue::Null), failed("nope"), failed("denied"), ok(JsonValue::Null), ok(JsonValue::Null)];
    let (mut run, mut action) = CaseRun::start(&case, &sessions(&["root", "alice"]), &None, 1000);
    for (i, outcome) in outcomes.into_iter().enumerate() {
        assert_eq!(run.phase, CasePhase::Seed { rule: i });
        assert_eq!(execute(&action), ("root".to_string(), seed.to_string()));
        let next = run.executed(&case, failed("seeding may fail"));
        run = next.0;
        action = next.1;
        assert_eq!(run.phase, CasePhase::Attempt { rule: i });
        assert_eq!(execute(&action), ("alice".to_string(), expected[i].to_string()));
        let next = run.executed(&case, outcome);
        run = next.0;
        action = next.1;
    }
    let report = finish(action).expect("a report");
    assert!(!report.passed);
    assert_eq!(report.kind, "permissions_matrix");
    assert_eq!(report.message.as_deref(), Some("one or more permission rules failed"));
    assert_eq!(
        verdicts(&report),
        vec![
            ("rule_1".to_string(), true),
            ("rule_2".to_string(), false),
            ("rule_3".to_string(), true),
            ("rule_4".to_string(), false),
            ("rule_5".to_string(), true),
        ]
    );
    assert_eq!(
        report.assertions[1].message,
        "expected success, got error: nope; sql=SELECT * FROM doc:perm_record;"
    );
    assert_eq!(
        report.assertions[3].message,
        "expected failure, query succeeded; sql=DELETE doc:perm_record;"
    );
}

#[test]
fn a_permissions_case_needs_rules_root_and_statements() {
    let matrix = |rules: Vec<PermissionRuleSpec>| CaseSpec {
        name: "perm".to_string(),
        tags: vec![],
        kind: CaseKind::PermissionsMatrix(PermissionsMatrixCase {
            actor: None,
            table: "doc".to_string(),
            record_id: Some("r1".to_string()),
            rules,
        }),
    };
    let (_, action) = CaseRun::start(&matrix(vec![]), &sessions(&["root"]), &None, 1000);
    assert_eq!(finish(action).unwrap_err().to_text(), "permissions_matrix case 'perm' has no rules");
    let query = PermissionRuleSpec {
        action: PermissionAction::Query,
        allow: true,
        sql: None,
        error_contains: None,
    };
    let case = matrix(vec![query]);
    let (_, action) = CaseRun::start(&case, &sessions(&["alice"]), &None, 1000);
    assert_eq!(finish(action).unwrap_err().to_text(), "actor 'root' not configured");
    let (run, action) = CaseRun::start(&case, &sessions(&["root"]), &None, 1000);
    assert_eq!(execute(&action).1, "UPSERT doc:r1 MERGE { __surrealkit_perm_seed: true };");
    let (_, action) = run.executed(&case, ok(JsonValue::Null));
    let e = finish(action).unwrap_err();
    assert_eq!(e.kind, ErrorKind::Configuration);
    assert_eq!(e.to_text(), "permissions_matrix action=query in 'perm' requires sql");
}

#[test]
fn a_metadata_case_reads_the_text_of_the_value() {
    let meta = |table: Option<&str>, sql: Option<&str>| CaseSpec {
        name: "meta".to_string(),
        tags: vec![],
        kind: CaseKind::SchemaMetadata(SchemaMetadataCase {
            actor: None,
            table: table.map(|s| s.to_string()),
            sql: sql.map(|s| s.to_string()),
            contains: vec!["\"name\"".to_string(), "missing".to_string()],
            assertions: vec![json_assertion("fields.name", Some(text("string")))],
        }),
    };
    let case = meta(Some("person"), None);
    let (run, action) = CaseRun::start(&case, &sessions(&["root"]), &None, 1000);
    assert_eq!(run.phase, CasePhase::Metadata);
    assert_eq!(execute(&action), ("root".to_string(), "INFO FOR TABLE person;".to_string()));
    let value = object(vec![("fields", object(vec![("name", text("string"))]))]);
    let (_, action) = run.executed(&case, ok(value));
    let report = finish(action).expect("a report");
    assert!(!report.passed);
    assert_eq!(report.message.as_deref(), Some("schema metadata assertions failed"));
    assert_eq!(
        verdicts(&report),
        vec![
            ("contains_1".to_string(), true),
            ("contains_2".to_string(), false),
            ("json_assertion_1".to_string(), true)
        ]
    );
    assert_eq!(report.assertions[1].message, "expected metadata to contain 'missing'");

    let (run, action) = CaseRun::start(&meta(Some("t"), Some("INFO FOR DB;")), &sessions(&["root"]), &None, 1);
    assert_eq!(execute(&action).1, "INFO FOR DB;");
    let (_, action) = run.executed(&meta(Some("t"), Some("INFO FOR DB;")), failed("down"));
    let e = finish(action).unwrap_err();
    assert_eq!((e.kind, e.to_text().as_str()), (ErrorKind::Execution, "down"));
    let (_, action) = CaseRun::start(&meta(None, None), &sessions(&["root"]), &None, 1);
    assert_eq!(finish(action).unwrap_err().to_text(), "schema_metadata requires either table or sql");
}

#[test]
fn a_behaviour_case_sets_up_acts_and_verifies() {
    let behaviour = |verify: Option<&str>, assertions: Vec<JsonAssertionSpec>| CaseSpec {
        name: "beh".to_string(),
        tags: vec![],
        kind: CaseKind::SchemaBehavior(SchemaBehaviorCase {
            actor: None,
            setup_sql: vec!["S1;".to_string(), "S2;".to_string()],
            action_sql: "ACT;".to_string(),
            expect_success: true,
            expect_error_contains: None,
            verify_sql: verify.map(|s| s.to_string()),
            assertions,
        }),
    };
    let case = behaviour(Some("CHECK;"), vec![json_assertion("n", Some(number("1")))]);
    let (run, action) = CaseRun::start(&case, &sessions(&["root"]), &None, 1000);
    assert_eq!(run.phase, CasePhase::Setup { index: 0 });
    assert_eq!(execute(&action).1, "S1;");
    let (run, action) = run.executed(&case, ok(JsonValue::Null));
    assert_eq!(run.phase, CasePhase::Setup { index: 1 });
    assert_eq!(execute(&action).1, "S2;");
    let (run, action) = run.executed(&case, ok(JsonValue::Null));
    assert_eq!(run.phase, CasePhase::Action);
    assert_eq!(execute(&action).1, "ACT;");
    let (run, action) = run.executed(&case, ok(JsonValue::Null));
    assert_eq!(run.phase, CasePhase::Verify);
    assert_eq!(execute(&action).1, "CHECK;");
    let (_, action) = run.executed(&case, ok(object(vec![("n", number("2"))])));
    let report = finish(action).expect("a report");
    assert!(!report.passed);
    assert_eq!(report.message.as_deref(), Some("schema behavior assertions failed"));
    assert_eq!(
        verdicts(&report),
        vec![("outcome".to_string(), true), ("json_assertion_1".to_string(), false)]
    );

    let plain = behaviour(None, vec![]);
    let (run, _) = CaseRun::start(&plain, &sessions(&["root"]), &None, 1000);
    let (_, action) = run.executed(&plain, failed("broken"));
    let e = finish(action).unwrap_err();
    assert_eq!(e.kind, ErrorKind::Execution);
    assert_eq!(e.to_text(), "schema_behavior setup failed in case 'beh': broken");

    let again = behaviour(None, vec![json_assertion("n", None)]);
    let (run, _) = CaseRun::start(&again, &sessions(&["root"]), &None, 1000);
    let (run, _) = run.executed(&again, ok(JsonValue::Null));
    let (run, _) = run.executed(&again, ok(JsonValue::Null));
    let (run, action) = run.executed(&again, ok(JsonValue::Null));
    assert_eq!(execute(&action).1, "ACT;");
    let (_, action) = run.executed(&again, failed("gone"));
    assert_eq!(finish(action).unwrap_err().to_text(), "gone");

    let (run, _) = CaseRun::start(&plain, &sessions(&["root"]), &None, 1000);
    let (run, _) = run.executed(&plain, ok(JsonValue::Null));
    let (run, _) = run.executed(&plain, ok(JsonValue::Null));
    let (_, action) = run.executed(&plain, failed("failed"));
    let report = finish(action).expect("a report");
    assert!(!report.passed);
    assert_eq!(report.message.as_deref(), Some("expected success, got error: failed"));
}

#[test]
fn an_api_case_sends_one_request_and_judges_the_response() {
    let case = CaseSpec {
        name: "api".to_string(),
        tags: vec![],
        kind: CaseKind::ApiRequest(ApiRequestCase {
            actor: Some("alice".to_string()),
            method: "post".to_string(),
            path: " items ".to_string(),
            expected_status: 201,
            headers: vec![Header { name: "x-case".to_string(), value: "1".to_string() }],
            body: Some(object(vec![("a", number("1"))])),
            timeout_ms: None,
            body_assertions: vec![json_assertion("id", Some(number("7")))],
            header_assertions: vec![HeaderAssertionSpec {
                name: "Location".to_string(),
                exists: Some(true),
                equals: None,
                contains: None,
                regex: None,
            }],
        }),
    };
    let (_, action) = CaseRun::start(&case, &sessions(&["alice"]), &None, 500);
    assert_eq!(
        finish(action).unwrap_err().to_text(),
        "api_request case 'api' requires base URL (--base-url, config default, or env)"
    );
    let (run, action) = CaseRun::start(&case, &sessions(&["alice"]), &some("http://h//"), 500);
    assert_eq!(run.phase, CasePhase::Response);
    match &action {
        CaseAction::Request { request } => {
            assert_eq!(request.method, "POST");
            assert_eq!(request.url, "http://h/items");
            assert_eq!(request.timeout_ms, 500);
            let names: Vec<&str> = request.headers.iter().map(|h| h.name.as_str()).collect();
            assert_eq!(names, vec!["x-actor", "x-case"]);
            assert!(request.body.is_some());
        }
        other => panic!("expected a request, got {:?}", other),
    }
    let response = ApiResponse {
        status: 200,
        headers: vec![Header { name: "location".to_string(), value: "/items/7".to_string() }],
        body_text: "{\"id\":7}".to_string(),
        parsed: Some(object(vec![("id", number("7"))])),
    };
    let (_, action) = run.responded(&case, Ok(response));
    let report = finish(action).expect("a report");
    assert!(!report.passed);
    assert_eq!(report.message.as_deref(), Some("api assertions failed (status=200)"));
    assert_eq!(
        verdicts(&report),
        vec![
            ("status".to_string(), false),
            ("header_assertion_1".to_string(), true),
            ("json_assertion_1".to_string(), true)
        ]
    );
    assert_eq!(report.assertions[0].message, "expected status 201, got 200");

    let (run, _) = CaseRun::start(&case, &sessions(&["alice"]), &some("http://h"), 500);
    let (_, action) = run.responded(&case, Err("request to http://h/items failed: timeout".to_string()));
    let e = finish(action).unwrap_err();
    assert_eq!(e.kind, ErrorKind::Execution);

    let (run, _) = CaseRun::start(&case, &sessions(&["alice"]), &some("http://h"), 500);
    let empty = ApiResponse { status: 201, headers: vec![], body_text: "  ".to_string(), parsed: None };
    let (_, action) = run.responded(&case, Ok(empty));
    let e = finish(action).unwrap_err();
    assert_eq!(e.kind, ErrorKind::Case);
    assert_eq!(e.to_text(), "body assertions requested but response body is not valid JSON");
}

#[test]
fn the_report_of_a_case_gets_its_time_or_its_error() {
    let case = sql_case(true, None, vec![]);
    let r = stamp_case(&case, Ok(case_report("c", true)), 12);
    assert_eq!((r.duration_ms, r.passed), (12, true));
    let e = KitError::new(ErrorKind::Execution, "down".to_string());
    let r = stamp_case(&case, Err(e), 5);
    assert_eq!((r.name.as_str(), r.kind.as_str(), r.duration_ms, r.passed), ("c", "sql_expect", 5, false));
    assert_eq!(r.message.as_deref(), Some("down"));
    assert!(r.assertions.is_empty());
    assert!(stops_after(&r, true));
    assert!(!stops_after(&r, false));
    assert!(!stops_after(&case_report("c", true), true));
}

#[test]
fn totals_are_counted_from_the_children() {
    let suite = LoadedSuite {
        path: "database\\tests\\suites\\a.toml".to_string(),
        spec: SuiteSpec { name: None, tags: vec![], actors: vec![], fixtures: vec![], cases: vec![] },
    };
    let names = SuiteNames {
        suite_name: "a".to_string(),
        namespace: "n".to_string(),
        database: "d".to_string(),
    };
    let cases = vec![case_report("1", true), case_report("2", false), case_report("3", false)];
    let s = suite_report(&suite, names, 9, cases);
    assert_eq!(s.suite_file, "database/tests/suites/a.toml");
    assert_eq!((s.cases_total, s.cases_passed, s.cases_failed, s.duration_ms), (3, 1, 2, 9));
    let other = suite_rep("b", 0, 4);
    let r = run_report("t0".to_string(), "t1".to_string(), 77, vec![s, other, suite_rep("c", 1, 0)]);
    assert_eq!((r.suites_total, r.suites_failed), (3, 2));
    assert_eq!((r.cases_total, r.cases_passed, r.cases_failed), (8, 5, 3));
    assert_eq!((r.started_at.as_str(), r.finished_at.as_str(), r.duration_ms), ("t0", "t1", 77));
    let huge = run_report(String::new(), String::new(), 0, vec![suite_rep("x", usize::MAX, 0), suite_rep("y", 3, 0)]);
    assert_eq!(huge.cases_failed, usize::MAX);
}

#[test]
fn a_run_that_fails_fast_keeps_what_settled_and_nothing_else() {
    let settled = || vec![suite_rep("c", 0, 1), suite_rep("a", 1, 0), suite_rep("b", 0, 1)];
    let (reports, stopped) = collect_reports(settled(), true, true);
    assert_eq!(files(&reports), vec!["a", "b", "c"]);
    assert!(stopped);
    let (reports, stopped) = collect_reports(settled(), true, false);
    assert_eq!(files(&reports), vec!["c", "a", "b"]);
    assert!(stopped);
    let (reports, stopped) = collect_reports(settled(), false, true);
    assert_eq!(files(&reports), vec!["a", "b", "c"]);
    assert!(!stopped);
    let (reports, stopped) = collect_reports(vec![suite_rep("x", 0, 1)], true, true);
    assert_eq!(files(&reports), vec!["x"]);
    assert!(!stopped);
    assert!(collect_reports(vec![], true, true).0.is_empty());

    let mut progress = RunProgress::new();
    assert!(progress.settle(suite_rep("c", 0, 1), true));
    assert!(!progress.settle(suite_rep("a", 2, 0), true));
    assert!(progress.stopped);
    assert!(!progress.settle(suite_rep("b", 0, 1), true));
    assert!(progress.stopped);
    assert_eq!(files(&progress.clone().finish(false)), vec!["c", "a", "b"]);
    assert_eq!(files(&progress.finish(true)), vec!["a", "b", "c"]);
}

#[test]
fn a_suite_that_fails_fast_stops_with_its_first_failed_case() {
    let mut progress = SuiteProgress::new();
    assert!(progress.record(case_report("1", true), true));
    assert!(progress.record(case_report("2", true), true));
    assert!(!progress.record(case_report("3", false), true));
    assert!(progress.stopped);
    let passed: Vec<bool> = progress.cases.iter().map(|c| c.passed).collect();
    assert_eq!(passed, vec![true, true, false]);

    let mut patient = SuiteProgress::new();
    assert!(patient.record(case_report("1", false), false));
    assert!(patient.record(case_report("2", true), false));
    assert!(!patient.stopped);
    assert_eq!(patient.cases.len(), 2);
}

#[test]
fn the_context_of_a_run_decides_how_suites_run() {
    let cfg = DbCfg::new("h".to_string(), "ns".to_string(), "db".to_string(), "u".to_string(), "p".to_string());
    let global = GlobalTestConfig {
        defaults: GlobalDefaults { base_url: None, timeout_ms: None },
        actors: vec![],
        fixtures: vec![],
    };
    let mut o = opts();
    o.parallel = 0;
    let ctx = RunnerContext::new(cfg.clone(), o.clone(), global.clone(), None, 10, 1700000000000000000);
    assert_eq!(ctx.run_id, "1700000000000000000");
    assert!(!ctx.is_parallel());
    assert_eq!(ctx.limit(), 1);
    o.parallel = 4;
    o.fail_fast = true;
    let ctx = RunnerContext::new(cfg.clone(), o, global, None, 10, 5);
    assert!(ctx.is_parallel());
    assert_eq!(ctx.limit(), 4);
    let report = ctx.run(
        vec![suite_rep("z", 0, 2), suite_rep("m", 1, 1), suite_rep("a", 0, 1)],
        "s".to_string(),
        "f".to_string(),
        3,
    );
    assert_eq!(files(&report.suites), vec!["a", "m", "z"]);
    assert_eq!((report.suites_total, report.suites_failed, report.cases_total, report.cases_failed), (3, 1, 5, 1));

    let suite = LoadedSuite {
        path: "database/tests/suites/Auth Flow.toml".to_string(),
        spec: SuiteSpec { name: Some("Auth".to_string()), tags: vec![], actors: vec![], fixtures: vec![], cases: vec![] },
    };
    let names = suite_names(&cfg, "42", &suite);
    assert_eq!(names.suite_name, "Auth");
    assert_eq!(names.namespace, "ns_sk_test_42_auth_database_tests_suites_auth_flow_toml");
    assert_eq!(names.database, "db_sk_test_42_auth_database_tests_suites_auth_flow_toml");
    assert_eq!(unique_run_id(0), "0");
}

#[test]
fn the_database_of_a_suite_is_dropped_unless_it_is_kept() {
    let mut o = opts();
    assert_eq!(cleanup_suite_db(&o, "db_x").as_deref(), Some("REMOVE DATABASE db_x;"));
    o.keep_db = true;
    assert_eq!(cleanup_suite_db(&o, "db_x"), None);
    assert_eq!(cleanup_warning("n", "d", "gone"), "warning: failed to clean up test db n/d: gone");
    o.suite = Some("a*".to_string());
    o.tags = vec!["t".to_string()];
    let f = build_filter_input(&o);
    assert_eq!((f.suite_pattern.as_deref(), f.case_pattern, f.tags), (Some("a*"), None, vec!["t".to_string()]));
}
