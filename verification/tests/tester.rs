use surrealkit::error::ErrorKind;
use surrealkit::json::{json_eq, JsonMember, JsonValue};
use surrealkit::tester::assertions::{
    assert_header_value, assert_json_value, judge_json_value, lookup_path, value_to_text,
};
use surrealkit::tester::filters::{apply_filters, glob_match, match_case, match_suite};
use surrealkit::tester::loader::{
    load_global_config, load_specs, load_suites, relative, TEST_CONFIG_PATH, TEST_SUITES_DIR,
};
use surrealkit::tester::runner::slugify;
use surrealkit::tester::types::{
    default_true, CaseKind, CaseSpec, FilterInput, Header, HeaderAssertionSpec,
    JsonAssertionSpec, LoadedSuite, SqlExpectCase, SuiteSpec,
};

fn number(n: &str) -> JsonValue {
    JsonValue::Number(n.to_string())
}

fn text(s: &str) -> JsonValue {
    JsonValue::Text(s.to_string())
}

fn object(members: Vec<(&str, JsonValue)>) -> JsonValue {
    JsonValue::Object(
        members.into_iter().map(|(k, v)| JsonMember { key: k.to_string(), value: v }).collect(),
    )
}

fn sample() -> JsonValue {
    object(vec![(
        "a",
        JsonValue::Array(vec![object(vec![("c", number("1"))]), object(vec![("c", number("2"))])]),
    )])
}

fn json_assertion(path: &str) -> JsonAssertionSpec {
    JsonAssertionSpec { path: path.to_string(), exists: None, equals: None, contains: None, regex: None }
}

fn header_assertion(name: &str) -> HeaderAssertionSpec {
    HeaderAssertionSpec { name: name.to_string(), exists: None, equals: None, contains: None, regex: None }
}

fn case(name: &str, tags: &[&str]) -> CaseSpec {
    CaseSpec {
        name: name.to_string(),
        tags: tags.iter().map(|t| t.to_string()).collect(),
        kind: CaseKind::SqlExpect(SqlExpectCase {
            actor: None,
            sql: "SELECT 1;".to_string(),
            allow: default_true(),
            error_contains: None,
            error_code: None,
            assertions: vec![],
        }),
    }
}

fn suite(path: &str, name: Option<&str>, tags: &[&str], cases: Vec<CaseSpec>) -> LoadedSuite {
    LoadedSuite {
        path: path.to_string(),
        spec: SuiteSpec {
            name: name.map(|n| n.to_string()),
            tags: tags.iter().map(|t| t.to_string()).collect(),
            actors: vec![],
            fixtures: vec![],
            cases,
        },
    }
}

fn filter(suite: Option<&str>, case: Option<&str>, tags: &[&str]) -> FilterInput {
    FilterInput {
        suite_pattern: suite.map(|s| s.to_string()),
        case_pattern: case.map(|s| s.to_string()),
        tags: tags.iter().map(|t| t.to_string()).collect(),
    }
}

fn case_names(s: &LoadedSuite) -> Vec<String> {
    s.spec.cases.iter().map(|c| c.name.clone()).collect()
}

#[test]
fn loader_constants_are_in_database_tests() {
    assert!(TEST_CONFIG_PATH.starts_with("database/tests"));
    assert!(TEST_SUITES_DIR.starts_with("database/tests"));
}

#[test]
fn slugify_is_safe() {
    assert_eq!(slugify("Hello World"), "hello_world");
    assert_eq!(slugify("***"), "suite");
}

#[test]
fn glob_match_handles_wildcards() {
    assert!(glob_match("*", "abc"));
    assert!(glob_match("a*", "abc"));
    assert!(glob_match("a?c", "abc"));
    assert!(!glob_match("a?d", "abc"));
}

#[test]
fn lookup_path_supports_objects_and_arrays() {
    let value = object(vec![(
        "a",
        object(vec![(
            "b",
            JsonValue::Array(vec![
                object(vec![("c", number("1"))]),
                object(vec![("c", number("2"))]),
            ]),
        )]),
    )]);
    let got = lookup_path(&value, "a.b.1.c").expect("path should exist");
    assert!(json_eq(got, &number("2")));
}

#[test]
fn star_matches_everything_and_question_mark_one_character() {
    assert!(glob_match("*", ""));
    assert!(glob_match("*", "anything at all"));
    assert!(glob_match("a?c", "abc"));
    assert!(!glob_match("a?c", "abd"));
    assert!(!glob_match("a?c", "ac"));
    assert!(glob_match("", ""));
    assert!(!glob_match("", "a"));
    assert!(glob_match("**", "x"));
    assert!(glob_match("*b*", "abc"));
    assert!(!glob_match("*b*", "acd"));
    assert!(glob_match("a*c*e", "abcde"));
    assert!(!glob_match("a*c*e", "abcd"));
    assert!(glob_match("?", "é"));
    assert!(!glob_match("?", ""));
    assert!(glob_match("a?", "a?"));
    assert!(match_case("login_ok", "login*"));
    assert!(!match_case("login_ok", "logout*"));
}

#[test]
fn a_path_that_leads_nowhere_is_not_found() {
    let value = sample();
    assert!(json_eq(lookup_path(&value, "a.0.c").expect("path should exist"), &number("1")));
    assert!(lookup_path(&value, "a.5.c").is_none());
    assert!(lookup_path(&value, "a.x").is_none());
    assert!(lookup_path(&value, "b").is_none());
    assert!(lookup_path(&value, "a.0.c.d").is_none());
    assert!(lookup_path(&value, "0").is_none());
}

#[test]
fn blank_paths_and_empty_segments_stay_where_they_are() {
    let value = sample();
    assert!(json_eq(lookup_path(&value, "").expect("the value itself"), &value));
    assert!(json_eq(lookup_path(&value, "  ").expect("the value itself"), &value));
    assert!(json_eq(lookup_path(&value, "a..1.c").expect("path should exist"), &number("2")));
    assert!(json_eq(lookup_path(&value, ".a.1.c.").expect("path should exist"), &number("2")));
}

#[test]
fn a_numeral_too_large_for_an_index_is_a_key() {
    let value = object(vec![("99999999999999999999999999", number("1")), ("7", number("2"))]);
    assert!(json_eq(
        lookup_path(&value, "99999999999999999999999999").expect("a key"),
        &number("1")
    ));
    assert!(lookup_path(&value, "7").is_none());
    assert!(lookup_path(&JsonValue::Array(vec![number("0"), number("1")]), "01").is_some());
}

#[test]
fn the_first_member_of_a_key_is_found() {
    let value = object(vec![("k", number("1")), ("k", number("2"))]);
    assert!(json_eq(value.member("k").expect("a member"), &number("1")));
    assert!(value.member("K").is_none());
    assert!(number("1").member("k").is_none());
    assert!(number("1").item(0).is_none());
}

#[test]
fn documents_are_written_as_compact_json() {
    let value = object(vec![
        ("a", JsonValue::Array(vec![number("1"), JsonValue::Bool(true), JsonValue::Null])),
        ("b \"q\"", text("line\nbreak \\ \u{1} é")),
        ("c", object(vec![])),
        ("d", JsonValue::Array(vec![])),
        ("e", number("-1.5e3")),
    ]);
    let written = value.to_text();
    assert_eq!(
        written,
        "{\"a\":[1,true,null],\"b \\\"q\\\"\":\"line\\nbreak \\\\ \\u0001 é\",\"c\":{},\"d\":[],\"e\":-1.5e3}"
    );
    let parsed: serde_json::Value = serde_json::from_str(&written).expect("valid JSON");
    assert_eq!(parsed["b \"q\""], "line\nbreak \\ \u{1} é");
    assert_eq!(parsed["a"][0], 1);
}

#[test]
fn the_text_of_a_string_is_its_bare_content() {
    assert_eq!(value_to_text(&text("a \"b\"")), "a \"b\"");
    assert_eq!(value_to_text(&number("12")), "12");
    assert_eq!(value_to_text(&JsonValue::Bool(false)), "false");
    assert_eq!(value_to_text(&JsonValue::Null), "null");
    assert_eq!(value_to_text(&JsonValue::Array(vec![text("x")])), "[\"x\"]");
}

#[test]
fn equality_is_structural() {
    assert!(json_eq(&sample(), &sample()));
    assert!(json_eq(&sample().clone(), &sample()));
    assert!(!json_eq(&number("1"), &text("1")));
    assert!(!json_eq(&number("1"), &number("1.0")));
    assert!(!json_eq(&JsonValue::Array(vec![number("1")]), &JsonValue::Array(vec![])));
    assert!(!json_eq(&object(vec![("a", number("1"))]), &object(vec![("b", number("1"))])));
    assert!(json_eq(&JsonValue::Null, &JsonValue::Null));
}

#[test]
fn json_assertions_check_existence_first() {
    let value = sample();
    let mut a = json_assertion("a.0.c");
    a.exists = Some(false);
    let r = assert_json_value(&value, &a, 0).expect("a verdict");
    assert_eq!(r.name, "json_assertion_1");
    assert!(!r.passed);
    assert_eq!(r.message, "path 'a.0.c' existence mismatch: expected false got true");

    let mut b = json_assertion("a.9");
    b.exists = Some(true);
    let r = assert_json_value(&value, &b, 4).expect("a verdict");
    assert_eq!(r.name, "json_assertion_5");
    assert!(!r.passed);
    assert_eq!(r.message, "path 'a.9' existence mismatch: expected true got false");

    b.exists = Some(false);
    let r = assert_json_value(&value, &b, 0).expect("a verdict");
    assert!(r.passed);
    assert_eq!(r.message, "path 'a.9' not found");

    b.exists = None;
    let r = assert_json_value(&value, &b, 0).expect("a verdict");
    assert!(r.passed);
    assert_eq!(r.message, "path 'a.9' not found");
}

#[test]
fn a_check_on_a_value_that_is_not_there_does_not_pass() {
    let value = sample();
    let mut a = json_assertion("a.9");
    a.equals = Some(number("1"));
    let r = assert_json_value(&value, &a, 0).expect("a verdict");
    assert_eq!(r.name, "json_assertion_1");
    assert!(!r.passed);
    assert_eq!(r.message, "path 'a.9' not found");
    a.exists = Some(false);
    assert!(!assert_json_value(&value, &a, 0).expect("a verdict").passed);
    let mut b = json_assertion("b");
    b.contains = Some("x".to_string());
    assert!(!assert_json_value(&value, &b, 0).expect("a verdict").passed);
    let mut c = json_assertion("b");
    c.regex = Some("(".to_string());
    assert!(!assert_json_value(&value, &c, 0).expect("the pattern is not read").passed);

    let headers = vec![Header { name: "x".to_string(), value: "1".to_string() }];
    let mut h = header_assertion("y");
    h.equals = Some("1".to_string());
    let r = assert_header_value(&headers, &h, 0).expect("a verdict");
    assert!(!r.passed);
    assert_eq!(r.message, "header 'y' not found");
    h.equals = None;
    h.contains = Some("1".to_string());
    assert!(!assert_header_value(&headers, &h, 0).expect("a verdict").passed);
    h.contains = None;
    h.regex = Some("1".to_string());
    assert!(!assert_header_value(&headers, &h, 0).expect("a verdict").passed);
    h.regex = None;
    assert!(assert_header_value(&headers, &h, 0).expect("a verdict").passed);
}

#[test]
fn json_assertions_check_equality_substring_and_pattern() {
    let value = object(vec![("name", text("Ada Lovelace")), ("age", number("36"))]);
    let mut a = json_assertion("age");
    a.equals = Some(number("36"));
    let r = assert_json_value(&value, &a, 0).expect("a verdict");
    assert!(r.passed);
    assert_eq!(r.message, "path 'age' assertion passed");

    a.equals = Some(number("37"));
    let r = assert_json_value(&value, &a, 0).expect("a verdict");
    assert!(!r.passed);
    assert_eq!(r.message, "path 'age' expected 37, got 36");

    let mut b = json_assertion("name");
    b.contains = Some("Love".to_string());
    b.regex = Some("^Ada\\s".to_string());
    assert!(assert_json_value(&value, &b, 0).expect("a verdict").passed);

    b.contains = Some("love".to_string());
    let r = assert_json_value(&value, &b, 0).expect("a verdict");
    assert!(!r.passed);
    assert_eq!(r.message, "path 'name' missing substring 'love' in 'Ada Lovelace'");

    b.contains = None;
    b.regex = Some("^Lovelace".to_string());
    let r = assert_json_value(&value, &b, 0).expect("a verdict");
    assert!(!r.passed);
    assert_eq!(r.message, "path 'name' regex '^Lovelace' did not match 'Ada Lovelace'");

    let mut c = json_assertion("");
    c.contains = Some("\"age\":36".to_string());
    assert!(assert_json_value(&value, &c, 0).expect("a verdict").passed);
}

#[test]
fn a_malformed_pattern_is_a_configuration_error() {
    let value = object(vec![("name", text("Ada"))]);
    let mut a = json_assertion("name");
    a.regex = Some("(".to_string());
    let e = assert_json_value(&value, &a, 0).unwrap_err();
    assert_eq!(e.kind, ErrorKind::Configuration);
    assert!(e.to_text().starts_with("invalid regex '(' for path 'name': "));

    a.equals = Some(text("Bob"));
    let r = assert_json_value(&value, &a, 0).expect("equality decides first");
    assert!(!r.passed);

    let h = vec![Header { name: "X".to_string(), value: "1".to_string() }];
    let mut b = header_assertion("x");
    b.regex = Some("[".to_string());
    let e = assert_header_value(&h, &b, 0).unwrap_err();
    assert_eq!(e.kind, ErrorKind::Configuration);
    assert!(e.to_text().starts_with("invalid header regex '[' for 'x': "));
}

#[test]
fn the_judge_reads_the_search_only_where_it_matters() {
    let value = object(vec![("name", text("Ada"))]);
    let mut a = json_assertion("name");
    a.regex = Some("A".to_string());
    assert!(judge_json_value(&value, &a, 0, Ok(true)).expect("a verdict").passed);
    assert!(!judge_json_value(&value, &a, 0, Ok(false)).expect("a verdict").passed);
    let e = judge_json_value(&value, &a, 0, Err("why".to_string())).unwrap_err();
    assert_eq!(e.to_text(), "invalid regex 'A' for path 'name': why");
    a.regex = None;
    assert!(judge_json_value(&value, &a, 0, Err("unused".to_string())).expect("a verdict").passed);
}

#[test]
fn header_assertions_find_headers_whatever_their_case() {
    let headers = vec![
        Header { name: "Content-Type".to_string(), value: "application/json".to_string() },
        Header { name: "content-type".to_string(), value: "second".to_string() },
    ];
    let mut a = header_assertion("CONTENT-TYPE");
    a.equals = Some("application/json".to_string());
    a.contains = Some("json".to_string());
    a.regex = Some("^application/".to_string());
    let r = assert_header_value(&headers, &a, 1).expect("a verdict");
    assert_eq!(r.name, "header_assertion_2");
    assert!(r.passed);
    assert_eq!(r.message, "header 'CONTENT-TYPE' assertion passed");

    a.equals = Some("text/html".to_string());
    let r = assert_header_value(&headers, &a, 0).expect("a verdict");
    assert!(!r.passed);
    assert_eq!(r.message, "header 'CONTENT-TYPE' expected 'text/html' got 'application/json'");

    let mut b = header_assertion("x-missing");
    let r = assert_header_value(&headers, &b, 0).expect("a verdict");
    assert!(r.passed);
    assert_eq!(r.message, "header 'x-missing' not found");
    b.exists = Some(true);
    let r = assert_header_value(&headers, &b, 0).expect("a verdict");
    assert!(!r.passed);
    assert_eq!(r.message, "header 'x-missing' existence mismatch expected true got false");

    let mut c = header_assertion("content-type");
    c.contains = Some("xml".to_string());
    let r = assert_header_value(&headers, &c, 0).expect("a verdict");
    assert_eq!(r.message, "header 'content-type' missing substring 'xml' in 'application/json'");
    c.contains = None;
    c.regex = Some("xml$".to_string());
    let r = assert_header_value(&headers, &c, 0).expect("a verdict");
    assert_eq!(r.message, "header 'content-type' regex 'xml$' did not match 'application/json'");
}

#[test]
fn a_suite_without_cases_left_is_left_out() {
    let suites = vec![
        suite("suites/a.toml", Some("alpha"), &[], vec![case("one", &["fast"]), case("two", &[])]),
        suite("suites/b.toml", None, &["fast"], vec![case("three", &[])]),
        suite("suites/c.toml", Some("gamma"), &[], vec![case("four", &["slow"])]),
    ];
    let out = apply_filters(suites, &filter(None, None, &["fast"]));
    assert_eq!(out.len(), 2);
    assert_eq!(out[0].path, "suites/a.toml");
    assert_eq!(case_names(&out[0]), vec!["one"]);
    assert_eq!(out[1].path, "suites/b.toml");
    assert_eq!(case_names(&out[1]), vec!["three"]);
}

#[test]
fn filters_choose_suites_by_name_or_path_and_cases_by_name() {
    let suites = || {
        vec![
            suite("suites/a.toml", Some("alpha"), &["x"], vec![case("login", &["y"]), case("logout", &[])]),
            suite("suites/b.toml", None, &[], vec![case("login", &[])]),
        ]
    };
    let out = apply_filters(suites(), &filter(Some("alp*"), None, &[]));
    assert_eq!(out.len(), 1);
    assert_eq!(case_names(&out[0]), vec!["login", "logout"]);
    let out = apply_filters(suites(), &filter(Some("suites/?.toml"), Some("log?n"), &[]));
    assert_eq!(out.len(), 2);
    assert_eq!(case_names(&out[0]), vec!["login"]);
    let out = apply_filters(suites(), &filter(None, None, &["x", "y"]));
    assert_eq!(out.len(), 1);
    assert_eq!(case_names(&out[0]), vec!["login"]);
    assert_eq!(out[0].spec.name.as_deref(), Some("alpha"));
    assert_eq!(out[0].spec.tags, vec!["x"]);
    assert!(apply_filters(suites(), &filter(Some("nothing"), None, &[])).is_empty());
    assert!(apply_filters(suites(), &filter(None, Some("nothing"), &[])).is_empty());
    assert_eq!(apply_filters(suites(), &filter(None, None, &[])).len(), 2);
    assert!(match_suite(&suites()[1], "suites/b*"));
    assert!(!match_suite(&suites()[0], "beta"));
}

#[test]
fn specs_need_suites_and_come_in_the_order_of_their_paths() {
    let e = load_specs(None, vec![]).unwrap_err();
    assert_eq!(e.kind, ErrorKind::Configuration);
    assert_eq!(e.to_text(), "No suite files found in database/tests/suites");
    let specs = load_specs(
        None,
        vec![suite("z.toml", None, &[], vec![]), suite("a.toml", None, &[], vec![])],
    )
    .expect("there are suites");
    assert_eq!(specs.suites[0].path, "a.toml");
    assert_eq!(specs.suites[1].path, "z.toml");
    assert!(specs.global.actors.is_empty());
    assert!(specs.global.defaults.base_url.is_none());
    assert!(load_global_config(None).fixtures.is_empty());
    assert_eq!(load_suites(vec![suite("b", None, &[], vec![]), suite("a", None, &[], vec![])])[0].path, "a");
    assert_eq!(relative("/work/database/tests/a.toml", "/work"), "database/tests/a.toml");
    assert_eq!(relative("/other/a.toml", "/work"), "/other/a.toml");
    assert_eq!(relative("/workshop/a.toml", "/work"), "/workshop/a.toml");
}

#[test]
fn slugs_hold_letters_digits_and_single_underscores() {
    assert_eq!(slugify("  A--B  "), "a_b");
    assert_eq!(slugify("suites/auth.toml"), "suites_auth_toml");
    assert_eq!(slugify(""), "suite");
    assert_eq!(slugify("Éa"), "a");
    assert_eq!(slugify("x1_Y2"), "x1_y2");
    assert_eq!(slugify("a__b"), "a_b");
}
