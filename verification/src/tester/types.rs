//! The declarative test format and the reports that a run produces.

use vstd::prelude::*;
use vstd::string::*;

use crate::json::{Json, JsonValue};
use crate::text::owned;

verus! {

/// What the operator asked of a test run.
#[derive(Debug, Clone)]
pub struct TestOpts {
    pub suite: Option<String>,
    pub case: Option<String>,
    pub tags: Vec<String>,
    pub fail_fast: bool,
    pub parallel: usize,
    pub json_out: Option<String>,
    pub no_setup: bool,
    pub no_sync: bool,
    pub no_seed: bool,
    pub base_url: Option<String>,
    pub timeout_ms: Option<u64>,
    pub keep_db: bool,
}

/// A header: a name and a value.
#[derive(Debug, Clone)]
pub struct Header {
    pub name: String,
    pub value: String,
}

/// An actor under the name by which suites and cases refer to it.
#[derive(Debug, Clone)]
pub struct NamedActor {
    pub name: String,
    pub spec: ActorSpec,
}

#[derive(Debug, Clone)]
pub struct GlobalTestConfig {
    pub defaults: GlobalDefaults,
    pub actors: Vec<NamedActor>,
    pub fixtures: Vec<FixtureSpec>,
}

#[derive(Debug, Clone)]
pub struct GlobalDefaults {
    pub base_url: Option<String>,
    pub timeout_ms: Option<u64>,
}

#[derive(Debug, Clone)]
pub struct SuiteSpec {
    pub name: Option<String>,
    pub tags: Vec<String>,
    pub actors: Vec<NamedActor>,
    pub fixtures: Vec<FixtureSpec>,
    pub cases: Vec<CaseSpec>,
}

#[derive(Debug, Clone)]
pub struct FixtureSpec {
    pub name: Option<String>,
    pub actor: Option<String>,
    pub sql: Option<String>,
    pub file: Option<String>,
}

#[derive(Debug, Clone)]
pub struct ActorSpec {
    pub kind: ActorKind,
    pub username: Option<String>,
    pub username_env: Option<String>,
    pub password: Option<String>,
    pub password_env: Option<String>,
    pub namespace: Option<String>,
    pub namespace_env: Option<String>,
    pub database: Option<String>,
    pub database_env: Option<String>,
    pub access: Option<String>,
    pub access_env: Option<String>,
    pub params: Option<JsonValue>,
    pub token: Option<String>,
    pub token_env: Option<String>,
    pub headers: Vec<Header>,
}

#[derive(Debug, Clone, Copy, PartialEq, Eq, Structural)]
pub enum ActorKind {
    Root,
    Namespace,
    Database,
    Record,
    Token,
    Headers,
}

#[derive(Debug, Clone)]
pub struct CaseSpec {
    pub name: String,
    pub tags: Vec<String>,
    pub kind: CaseKind,
}

#[derive(Debug, Clone)]
pub enum CaseKind {
    SqlExpect(SqlExpectCase),
    PermissionsMatrix(PermissionsMatrixCase),
    SchemaMetadata(SchemaMetadataCase),
    SchemaBehavior(SchemaBehaviorCase),
    ApiRequest(ApiRequestCase),
}

pub open spec fn label_of(kind: CaseKind) -> Seq<char> {
    match kind {
        CaseKind::SqlExpect(_) => "sql_expect"@,
        CaseKind::PermissionsMatrix(_) => "permissions_matrix"@,
        CaseKind::SchemaMetadata(_) => "schema_metadata"@,
        CaseKind::SchemaBehavior(_) => "schema_behavior"@,
        CaseKind::ApiRequest(_) => "api_request"@,
    }
}

impl CaseKind {
    /// The name of the kind, as the test format spells it.
    pub fn label(&self) -> (s: &'static str)
        ensures
            s@ == label_of(*self),
    {
        match self {
            CaseKind::SqlExpect(_) => "sql_expect",
            CaseKind::PermissionsMatrix(_) => "permissions_matrix",
            CaseKind::SchemaMetadata(_) => "schema_metadata",
            CaseKind::SchemaBehavior(_) => "schema_behavior",
            CaseKind::ApiRequest(_) => "api_request",
        }
    }
}

#[derive(Debug, Clone)]
pub struct SqlExpectCase {
    pub actor: Option<String>,
    pub sql: String,
    pub allow: bool,
    pub error_contains: Option<String>,
    pub error_code: Option<String>,
    pub assertions: Vec<JsonAssertionSpec>,
}

#[derive(Debug, Clone)]
pub struct PermissionsMatrixCase {
    pub actor: Option<String>,
    pub table: String,
    pub record_id: Option<String>,
    pub rules: Vec<PermissionRuleSpec>,
}

#[derive(Debug, Clone)]
pub struct PermissionRuleSpec {
    pub action: PermissionAction,
    pub allow: bool,
    pub sql: Option<String>,
    pub error_contains: Option<String>,
}

#[derive(Debug, Clone, Copy, PartialEq, Eq, Structural)]
pub enum PermissionAction {
    Create,
    Select,
    Update,
    Delete,
    Query,
}

#[derive(Debug, Clone)]
pub struct SchemaMetadataCase {
    pub actor: Option<String>,
    pub table: Option<String>,
    pub sql: Option<String>,
    pub contains: Vec<String>,
    pub assertions: Vec<JsonAssertionSpec>,
}

#[derive(Debug, Clone)]
pub struct SchemaBehaviorCase {
    pub actor: Option<String>,
    pub setup_sql: Vec<String>,
    pub action_sql: String,
    pub expect_success: bool,
    pub expect_error_contains: Option<String>,
    pub verify_sql: Option<String>,
    pub assertions: Vec<JsonAssertionSpec>,
}

#[derive(Debug, Clone)]
pub struct ApiRequestCase {
    pub actor: Option<String>,
    pub method: String,
    pub path: String,
    pub expected_status: u16,
    pub headers: Vec<Header>,
    pub body: Option<JsonValue>,
    pub timeout_ms: Option<u64>,
    pub body_assertions: Vec<JsonAssertionSpec>,
    pub header_assertions: Vec<HeaderAssertionSpec>,
}

#[derive(Debug, Clone)]
pub struct JsonAssertionSpec {
    pub path: String,
    pub exists: Option<bool>,
    pub equals: Option<JsonValue>,
    pub contains: Option<String>,
    pub regex: Option<String>,
}

#[derive(Debug, Clone)]
pub struct HeaderAssertionSpec {
    pub name: String,
    pub exists: Option<bool>,
    pub equals: Option<String>,
    pub contains: Option<String>,
    pub regex: Option<String>,
}

#[derive(Debug, Clone)]
pub struct LoadedSpecs {
    pub global: GlobalTestConfig,
    pub suites: Vec<LoadedSuite>,
}

#[derive(Debug, Clone)]
pub struct LoadedSuite {
    pub path: String,
    pub spec: SuiteSpec,
}

#[derive(Debug, Clone)]
pub struct RunReport {
    pub started_at: String,
    pub finished_at: String,
    pub duration_ms: u128,
    pub suites_total: usize,
    pub suites_failed: usize,
    pub cases_total: usize,
    pub cases_passed: usize,
    pub cases_failed: usize,
    pub suites: Vec<SuiteReport>,
}

#[derive(Debug, Clone)]
pub struct SuiteReport {
    pub suite_file: String,
    pub suite_name: String,
    pub namespace: String,
    pub database: String,
    pub duration_ms: u128,
    pub cases_total: usize,
    pub cases_passed: usize,
    pub cases_failed: usize,
    pub cases: Vec<CaseReport>,
}

#[derive(Debug, Clone)]
pub struct CaseReport {
    pub name: String,
    pub kind: String,
    pub duration_ms: u128,
    pub passed: bool,
    pub message: Option<String>,
    pub assertions: Vec<AssertionReport>,
}

#[derive(Debug, Clone)]
pub struct AssertionReport {
    pub name: String,
    pub passed: bool,
    pub message: String,
}

#[derive(Debug, Clone)]
pub struct FilterInput {
    pub suite_pattern: Option<String>,
    pub case_pattern: Option<String>,
    pub tags: Vec<String>,
}

/// An `AssertionReport` as contracts see it.
pub struct AssertionView {
    pub name: Seq<char>,
    pub passed: bool,
    pub message: Seq<char>,
}

impl View for AssertionReport {
    type V = AssertionView;

    open spec fn view(&self) -> AssertionView {
        AssertionView { name: self.name@, passed: self.passed, message: self.message@ }
    }
}

/// The views of a list of assertion reports.
pub open spec fn assertion_views(v: Seq<AssertionReport>) -> Seq<AssertionView> {
    Seq::new(v.len(), |i: int| v[i]@)
}

/// Whether every report of the list passed.
pub open spec fn all_passed(v: Seq<AssertionView>) -> bool {
    forall|i: int| 0 <= i < v.len() ==> (#[trigger] v[i]).passed
}

pub open spec fn text_view(o: Option<String>) -> Option<Seq<char>> {
    match o {
        Some(s) => Some(s@),
        None => None,
    }
}

pub open spec fn json_opt_view(o: Option<JsonValue>) -> Option<Json> {
    match o {
        Some(v) => Some(v@),
        None => None,
    }
}

/// A `CaseReport` as contracts see it.
pub struct CaseView {
    pub name: Seq<char>,
    pub kind: Seq<char>,
    pub duration_ms: u128,
    pub passed: bool,
    pub message: Option<Seq<char>>,
    pub assertions: Seq<AssertionView>,
}

impl View for CaseReport {
    type V = CaseView;

    open spec fn view(&self) -> CaseView {
        CaseView {
            name: self.name@,
            kind: self.kind@,
            duration_ms: self.duration_ms,
            passed: self.passed,
            message: text_view(self.message),
            assertions: assertion_views(self.assertions@),
        }
    }
}

/// The value that a flag of the test format has when the document leaves it out.
pub fn default_true() -> (b: bool)
    ensures
        b,
{
    true
}

/// The method of an API request that names none.
pub fn default_get() -> (s: String)
    ensures
        s@ == "GET"@,
{
    owned("GET")
}

} // verus!
