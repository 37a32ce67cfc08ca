use surrealkit::error::ErrorKind;
use surrealkit::json::{json_eq, JsonMember, JsonValue};
use surrealkit::tester::api::{build_api_request, evaluate_api_response, join_url};
use surrealkit::tester::types::{
    default_get, ApiRequestCase, Header, HeaderAssertionSpec, JsonAssertionSpec,
};

fn header(name: &str, value: &str) -> Header {
    Header { name: name.to_string(), value: value.to_string() }
}

fn case(method: &str, path: &str) -> ApiRequestCase {
    ApiRequestCase {
        actor: None,
        method: method.to_string(),
        path: path.to_string(),
        expected_status: 200,
        headers: vec![],
        body: None,
        timeout_ms: None,
        body_assertions: vec![],
        header_assertions: vec![],
    }
}

fn json_assertion(path: &str, equals: JsonValue) -> JsonAssertionSpec {
    JsonAssertionSpec { path: path.to_string(), exists: None, equals: Some(equals), contains: None, regex: None }
}

fn header_assertion(name: &str, contains: &str) -> HeaderAssertionSpec {
    HeaderAssertionSpec {
        name: name.to_string(),
        exists: None,
        equals: None,
        contains: Some(contains.to_string()),
        regex: None,
    }
}

#[test]
fn urls_are_joined_by_one_slash() {
    assert_eq!(join_url("http://h", "x"), "http://h/x");
    assert_eq!(join_url("http://h/", "x"), "http://h/x");
    assert_eq!(join_url("http://h///", "/x"), "http://h/x");
    assert_eq!(join_url("http://h", "/x/"), "http://h/x/");
    assert_eq!(join_url("", "x"), "/x");
    assert_eq!(join_url("///", "/x"), "/x");
}

#[test]
fn a_request_is_built_from_the_case_and_the_session() {
    let mut c = case("patch", "  /items/1 ");
    c.headers = vec![header("x-b", "case"), header("x-a", "case")];
    c.body = Some(JsonValue::Object(vec![JsonMember {
        key: "n".to_string(),
        value: JsonValue::Number("1".to_string()),
    }]));
    let session = vec![header("authorization", "Bearer t"), header("x-a", "session")];
    let r = build_api_request("https://api.test/base/", &c, &session, 1500).expect("a request");
    assert_eq!(r.method, "PATCH");
    assert_eq!(r.url, "https://api.test/base/items/1");
    assert_eq!(r.timeout_ms, 1500);
    let pairs: Vec<(&str, &str)> = r.headers.iter().map(|h| (h.name.as_str(), h.value.as_str())).collect();
    assert_eq!(
        pairs,
        vec![("authorization", "Bearer t"), ("x-a", "session"), ("x-b", "case"), ("x-a", "case")]
    );
    assert!(json_eq(r.body.as_ref().expect("a body"), c.body.as_ref().expect("a body")));
    c.timeout_ms = Some(20);
    assert_eq!(build_api_request("h", &c, &session, 1500).expect("a request").timeout_ms, 20);
    assert_eq!(default_get(), "GET");
    assert_eq!(build_api_request("h", &case("ﬁx", "p"), &vec![], 1).expect("a request").method, "FIX");
}

#[test]
fn a_request_needs_a_path() {
    for path in ["", "   ", "\n\t"] {
        let e = build_api_request("http://h", &case("GET", path), &vec![], 1).unwrap_err();
        assert_eq!(e.kind, ErrorKind::Configuration);
        assert_eq!(e.to_text(), "api_request case path cannot be empty");
    }
}

#[test]
fn a_response_is_judged_by_status_headers_and_body() {
    let mut c = case("GET", "/x");
    c.header_assertions = vec![header_assertion("content-type", "json")];
    c.body_assertions = vec![json_assertion("ok", JsonValue::Bool(true))];
    let headers = vec![header("Content-Type", "application/json")];
    let body = JsonValue::Object(vec![JsonMember { key: "ok".to_string(), value: JsonValue::Bool(true) }]);
    let r = evaluate_api_response(&c, 200, &headers, "{\"ok\":true}", &Some(body.clone())).expect("a judgement");
    assert_eq!(r.status, 200);
    let names: Vec<(&str, bool)> = r.assertions.iter().map(|a| (a.name.as_str(), a.passed)).collect();
    assert_eq!(names, vec![("status", true), ("header_assertion_1", true), ("json_assertion_1", true)]);
    assert_eq!(r.assertions[0].message, "expected status 200, got 200");
    let r = evaluate_api_response(&c, 404, &vec![], "{\"ok\":true}", &Some(body.clone())).expect("a judgement");
    let names: Vec<(&str, bool)> = r.assertions.iter().map(|a| (a.name.as_str(), a.passed)).collect();
    assert_eq!(names, vec![("status", false), ("header_assertion_1", false), ("json_assertion_1", true)]);
    assert_eq!(r.assertions[0].message, "expected status 200, got 404");
    assert_eq!(r.assertions[1].message, "header 'content-type' not found");
}

#[test]
fn body_assertions_need_a_json_body() {
    let mut c = case("GET", "/x");
    c.body_assertions = vec![json_assertion("ok", JsonValue::Bool(true))];
    for (text, parsed) in [("", None), ("  ", Some(JsonValue::Null)), ("<html>", None)] {
        let e = evaluate_api_response(&c, 200, &vec![], text, &parsed).unwrap_err();
        assert_eq!(e.kind, ErrorKind::Case);
        assert_eq!(e.to_text(), "body assertions requested but response body is not valid JSON");
    }
    c.body_assertions = vec![];
    let r = evaluate_api_response(&c, 200, &vec![], "<html>", &None).expect("a judgement");
    assert_eq!(r.assertions.len(), 1);
    let mut bad = case("GET", "/x");
    bad.header_assertions = vec![HeaderAssertionSpec {
        name: "x".to_string(),
        exists: None,
        equals: None,
        contains: None,
        regex: Some("(".to_string()),
    }];
    bad.body_assertions = vec![json_assertion("ok", JsonValue::Null)];
    let e = evaluate_api_response(&bad, 200, &vec![header("x", "1")], "", &None).unwrap_err();
    assert_eq!(e.kind, ErrorKind::Configuration);
}
