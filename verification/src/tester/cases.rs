//! One case from start to report. A case asks for statements to be run or
//! a request to be sent, one at a time, and decides on each result what
//! comes next; running and sending are left to the caller.

use vstd::prelude::*;
use vstd::string::*;

use crate::error::{error_of, ErrorKind, KitError, KitErrorView};
use crate::json::{json_text, Json, JsonValue};
use crate::tester::actors::{
    actor_name_or_default, not_configured, require_actor, session_index, ActorSession,
};
use crate::tester::api::{
    api_judgement, build_api_request, evaluate_api_response, planned_request, ApiRequest,
    ApiRequestView, ApiResult, ApiResultView,
};
use crate::tester::assertions::report_of;
use crate::tester::runner::{
    all_pass, case_of, case_result_view, check_json_assertions, evaluate_outcome, json_verdicts,
    outcome_verdict, outcome_view, report_sql_expect, sql_expect_report,
};
use crate::tester::types::{
    all_passed, assertion_views, json_opt_view, label_of, text_view, AssertionReport,
    AssertionView, CaseKind, CaseReport, CaseSpec, CaseView, Header, JsonAssertionSpec,
    PermissionAction, PermissionRuleSpec, PermissionsMatrixCase, SchemaBehaviorCase,
    SchemaMetadataCase,
};
use crate::text::{
    concat2, concat3, concat4, concat5, concat7, decimal, decimal_string, has_sub, owned,
    str_contains,
};

verus! {

pub open spec fn record_of(spec: PermissionsMatrixCase) -> Seq<char> {
    match spec.record_id {
        Some(id) => id@,
        None => "perm_record"@,
    }
}

/// The statement that puts the record in place, as `root`, before a rule is tried.
pub open spec fn seed_text(spec: PermissionsMatrixCase) -> Seq<char> {
    "UPSERT "@ + spec.table@ + ":"@ + record_of(spec) + " MERGE { __surrealkit_perm_seed: true };"@
}

/// The statement that tries what rule `index` is about. A `query` rule
/// brings its own and is malformed without one.
pub open spec fn rule_text(
    case_name: Seq<char>,
    spec: PermissionsMatrixCase,
    index: nat,
    rule: PermissionRuleSpec,
) -> Result<Seq<char>, KitErrorView> {
    let table = spec.table@;
    let record = record_of(spec);
    let number = decimal(index);
    match rule.action {
        PermissionAction::Create => Ok(
            "CREATE "@ + table + ":"@ + record + "_create_"@ + number
                + " CONTENT { marker: 'perm' };"@,
        ),
        PermissionAction::Select => Ok("SELECT * FROM "@ + table + ":"@ + record + ";"@),
        PermissionAction::Update => Ok(
            "UPDATE "@ + table + ":"@ + record + " SET marker = 'updated_"@ + number + "';"@,
        ),
        PermissionAction::Delete => Ok("DELETE "@ + table + ":"@ + record + ";"@),
        PermissionAction::Query => match rule.sql {
            Some(sql) => Ok(sql@),
            None => Err(
                error_of(
                    ErrorKind::Configuration,
                    "permissions_matrix action=query in '"@ + case_name + "' requires sql"@,
                ),
            ),
        },
    }
}

fn record_id(spec: &PermissionsMatrixCase) -> (out: &str)
    ensures
        out@ == record_of(*spec),
{
    match &spec.record_id {
        Some(id) => id.as_str(),
        None => "perm_record",
    }
}

pub fn seed_statement(spec: &PermissionsMatrixCase) -> (out: String)
    ensures
        out@ == seed_text(*spec),
{
    concat5(
        "UPSERT ",
        spec.table.as_str(),
        ":",
        record_id(spec),
        " MERGE { __surrealkit_perm_seed: true };",
    )
}

pub open spec fn statement_view(r: Result<String, KitError>) -> Result<Seq<char>, KitErrorView> {
    match r {
        Ok(s) => Ok(s@),
        Err(e) => Err(e@),
    }
}

pub fn rule_statement(
    case_name: &str,
    spec: &PermissionsMatrixCase,
    index: usize,
    rule: &PermissionRuleSpec,
) -> (r: Result<String, KitError>)
    ensures
        statement_view(r) == rule_text(case_name@, *spec, index as nat, *rule),
{
    let table = spec.table.as_str();
    let record = record_id(spec);
    let number = decimal_string(index as u128);
    match rule.action {
        PermissionAction::Create => Ok(
            concat7(
                "CREATE ",
                table,
                ":",
                record,
                "_create_",
                number.as_str(),
                " CONTENT { marker: 'perm' };",
            ),
        ),
        PermissionAction::Select => Ok(concat5("SELECT * FROM ", table, ":", record, ";")),
        PermissionAction::Update => Ok(
            concat7(
                "UPDATE ",
                table,
                ":",
                record,
                " SET marker = 'updated_",
                number.as_str(),
                "';",
            ),
        ),
        PermissionAction::Delete => Ok(concat5("DELETE ", table, ":", record, ";")),
        PermissionAction::Query => match &rule.sql {
            Some(sql) => Ok(sql.clone()),
            None => Err(
                KitError::new(
                    ErrorKind::Configuration,
                    concat3("permissions_matrix action=query in '", case_name, "' requires sql"),
                ),
            ),
        },
    }
}

/// The verdict on one rule: that of the outcome, with the statement added
/// to the message where the rule failed.
pub open spec fn rule_verdict(
    index: nat,
    outcome: Result<Json, Seq<char>>,
    rule: PermissionRuleSpec,
    sql: Seq<char>,
) -> AssertionView {
    let v = outcome_verdict(
        "rule_"@ + decimal(index + 1),
        outcome,
        rule.allow,
        text_view(rule.error_contains),
        None,
    );
    if v.passed {
        v
    } else {
        report_of(v.name, false, v.message + "; sql="@ + sql)
    }
}

pub fn judge_rule(
    index: usize,
    outcome: &Result<JsonValue, String>,
    rule: &PermissionRuleSpec,
    sql: &str,
) -> (r: AssertionReport)
    ensures
        r@ == rule_verdict(index as nat, outcome_view(*outcome), *rule, sql@),
{
    let number = decimal_string(index as u128 + 1);
    let label = concat2("rule_", number.as_str());
    let none: Option<String> = None;
    let report = evaluate_outcome(label, outcome, rule.allow, &rule.error_contains, &none);
    if report.passed {
        report
    } else {
        let message = concat3(report.message.as_str(), "; sql=", sql);
        AssertionReport { name: report.name, passed: false, message }
    }
}

/// The report of a case that passes when all of its assertions do, and
/// says `failure` when they do not.
pub open spec fn summed_report(
    name: Seq<char>,
    kind: Seq<char>,
    assertions: Seq<AssertionView>,
    failure: Seq<char>,
) -> CaseView {
    case_of(
        name,
        kind,
        all_passed(assertions),
        if all_passed(assertions) {
            None
        } else {
            Some(failure)
        },
        assertions,
    )
}

pub fn sum_report(name: String, kind: String, assertions: Vec<AssertionReport>, failure: String)
    -> (r: CaseReport)
    ensures
        r@ == summed_report(name@, kind@, assertion_views(assertions@), failure@),
{
    let passed = all_pass(&assertions);
    let message = if passed {
        None
    } else {
        Some(failure)
    };
    CaseReport { name, kind, duration_ms: 0, passed, message, assertions }
}

/// The statement that inspects the schema: the one that the case gives,
/// else `INFO FOR TABLE` on its table; a case that gives neither is malformed.
pub open spec fn metadata_text(spec: SchemaMetadataCase) -> Result<Seq<char>, KitErrorView> {
    match spec.sql {
        Some(sql) => Ok(sql@),
        None => match spec.table {
            Some(table) => Ok("INFO FOR TABLE "@ + table@ + ";"@),
            None => Err(
                error_of(
                    ErrorKind::Configuration,
                    "schema_metadata requires either table or sql"@,
                ),
            ),
        },
    }
}

pub fn metadata_statement(spec: &SchemaMetadataCase) -> (r: Result<String, KitError>)
    ensures
        statement_view(r) == metadata_text(*spec),
{
    match &spec.sql {
        Some(sql) => Ok(sql.clone()),
        None => match &spec.table {
            Some(table) => Ok(concat3("INFO FOR TABLE ", table.as_str(), ";")),
            None => Err(
                KitError::new(
                    ErrorKind::Configuration,
                    owned("schema_metadata requires either table or sql"),
                ),
            ),
        },
    }
}

/// One verdict for each text that the metadata is to contain: it passes
/// when the compact text of the value holds it.
pub open spec fn contains_verdicts(text: Seq<char>, needles: Seq<String>) -> Seq<AssertionView> {
    Seq::new(
        needles.len(),
        |i: int|
            report_of(
                "contains_"@ + decimal((i + 1) as nat),
                has_sub(text, needles[i]@),
                "expected metadata to contain '"@ + needles[i]@ + "'"@,
            ),
    )
}

/// The report of a metadata case: the verdicts on the texts to contain,
/// then those on the JSON assertions.
pub open spec fn metadata_report(
    name: Seq<char>,
    kind: Seq<char>,
    value: Json,
    spec: SchemaMetadataCase,
) -> Result<CaseView, KitErrorView> {
    match json_verdicts(value, spec.assertions@) {
        Err(e) => Err(e),
        Ok(rest) => Ok(
            summed_report(
                name,
                kind,
                contains_verdicts(json_text(value), spec.contains@) + rest,
                "schema metadata assertions failed"@,
            ),
        ),
    }
}

pub fn report_metadata(name: String, kind: String, value: &JsonValue, spec: &SchemaMetadataCase)
    -> (r: Result<CaseReport, KitError>)
    ensures
        case_result_view(r) == metadata_report(name@, kind@, value@, *spec),
{
    let text = value.to_text();
    let mut assertions: Vec<AssertionReport> = Vec::new();
    let mut i: usize = 0;
    let ghost want = contains_verdicts(text@, spec.contains@);
    while i < spec.contains.len()
        invariant
            i <= spec.contains.len(),
            want == contains_verdicts(text@, spec.contains@),
            assertion_views(assertions@) == want.take(i as int),
        decreases spec.contains.len() - i,
    {
        let ghost before = assertion_views(assertions@);
        let needle = spec.contains[i].as_str();
        let number = decimal_string(i as u128 + 1);
        assertions.push(
            AssertionReport {
                name: concat2("contains_", number.as_str()),
                passed: str_contains(text.as_str(), needle),
                message: concat3("expected metadata to contain '", needle, "'"),
            },
        );
        assert(assertion_views(assertions@) =~= before.push(want[i as int]));
        assert(before.push(want[i as int]) =~= want.take(i + 1));
        i += 1;
    }
    assert(want.take(spec.contains.len() as int) =~= want);
    match check_json_assertions(value, &spec.assertions, &mut assertions) {
        Err(e) => {
            return Err(e);
        },
        Ok(_) => {},
    }
    Ok(sum_report(name, kind, assertions, owned("schema metadata assertions failed")))
}

/// The statement whose result the assertions of a behaviour case read: the
/// one that the case gives for it, else the action itself.
pub open spec fn verify_text(spec: SchemaBehaviorCase) -> Seq<char> {
    match spec.verify_sql {
        Some(sql) => sql@,
        None => spec.action_sql@,
    }
}

/// The report of a behaviour case whose action did as expected and whose
/// assertions were then judged against `value`: the assertions so far, then
/// the verdicts.
pub open spec fn behavior_report(
    name: Seq<char>,
    kind: Seq<char>,
    so_far: Seq<AssertionView>,
    value: Json,
    spec: SchemaBehaviorCase,
) -> Result<CaseView, KitErrorView> {
    match json_verdicts(value, spec.assertions@) {
        Err(e) => Err(e),
        Ok(rest) => Ok(
            summed_report(name, kind, so_far + rest, "schema behavior assertions failed"@),
        ),
    }
}

pub fn report_behavior(
    name: String,
    kind: String,
    so_far: Vec<AssertionReport>,
    value: &JsonValue,
    spec: &SchemaBehaviorCase,
) -> (r: Result<CaseReport, KitError>)
    ensures
        case_result_view(r) == behavior_report(
            name@,
            kind@,
            assertion_views(so_far@),
            value@,
            *spec,
        ),
{
    let mut assertions = so_far;
    match check_json_assertions(value, &spec.assertions, &mut assertions) {
        Err(e) => {
            return Err(e);
        },
        Ok(_) => {},
    }
    Ok(sum_report(name, kind, assertions, owned("schema behavior assertions failed")))
}

/// The report of an API case from the judgement of the response.
pub open spec fn api_report(name: Seq<char>, kind: Seq<char>, result: ApiResultView) -> CaseView {
    summed_report(
        name,
        kind,
        result.assertions,
        "api assertions failed (status="@ + decimal(result.status as nat) + ")"@,
    )
}

pub fn report_api(name: String, kind: String, result: ApiResult) -> (r: CaseReport)
    ensures
        r@ == api_report(name@, kind@, result@),
{
    let status = decimal_string(result.status as u128);
    let failure = concat3("api assertions failed (status=", status.as_str(), ")");
    sum_report(name, kind, result.assertions, failure)
}

/// What a case waits for.
#[derive(Debug, Clone, Copy, PartialEq, Eq, Structural)]
pub enum CasePhase {
    /// The statement of an `sql_expect` case runs.
    Statement,
    /// The record is put in place for rule `rule`.
    Seed { rule: usize },
    /// The statement of rule `rule` runs.
    Attempt { rule: usize },
    /// The statement that inspects the schema runs.
    Metadata,
    /// Setup statement `index` runs.
    Setup { index: usize },
    /// The action of a behaviour case runs.
    Action,
    /// The statement that the assertions of a behaviour case read runs.
    Verify,
    /// The request of an API case is under way.
    Response,
    /// The case is over.
    Finished,
}

/// A case that is under way: what it waits for, the actor it runs as, the
/// statement that runs, and the assertions judged so far.
#[derive(Debug, Clone)]
pub struct CaseRun {
    pub phase: CasePhase,
    pub actor: String,
    pub statement: String,
    pub assertions: Vec<AssertionReport>,
}

/// What the caller is to do next.
#[derive(Debug)]
pub enum CaseAction {
    /// Run `sql` in the session of `actor` and hand the outcome to `executed`.
    Execute { actor: String, sql: String },
    /// Send `request` and hand the response to `responded`.
    Request { request: ApiRequest },
    /// Nothing: the case is over, with a report or an error.
    Finish { result: Result<CaseReport, KitError> },
}

/// The response to a request. `parsed` is what reading `body_text` as JSON
/// gave, `None` where it is no JSON document.
#[derive(Debug, Clone)]
pub struct ApiResponse {
    pub status: u16,
    pub headers: Vec<Header>,
    pub body_text: String,
    pub parsed: Option<JsonValue>,
}

pub struct CaseRunView {
    pub phase: CasePhase,
    pub actor: Seq<char>,
    pub statement: Seq<char>,
    pub assertions: Seq<AssertionView>,
}

pub enum CaseActionView {
    Execute { actor: Seq<char>, sql: Seq<char> },
    Request { request: ApiRequestView },
    Finish { result: Result<CaseView, KitErrorView> },
}

impl View for CaseRun {
    type V = CaseRunView;

    open spec fn view(&self) -> CaseRunView {
        CaseRunView {
            phase: self.phase,
            actor: self.actor@,
            statement: self.statement@,
            assertions: assertion_views(self.assertions@),
        }
    }
}

impl View for CaseAction {
    type V = CaseActionView;

    open spec fn view(&self) -> CaseActionView {
        match *self {
            CaseAction::Execute { actor, sql } => CaseActionView::Execute {
                actor: actor@,
                sql: sql@,
            },
            CaseAction::Request { request } => CaseActionView::Request { request: request@ },
            CaseAction::Finish { result } => CaseActionView::Finish {
                result: case_result_view(result),
            },
        }
    }
}

/// The name of the actor that a case runs as.
pub open spec fn actor_of(kind: CaseKind) -> Seq<char> {
    let named = match kind {
        CaseKind::SqlExpect(spec) => spec.actor,
        CaseKind::PermissionsMatrix(spec) => spec.actor,
        CaseKind::SchemaMetadata(spec) => spec.actor,
        CaseKind::SchemaBehavior(spec) => spec.actor,
        CaseKind::ApiRequest(spec) => spec.actor,
    };
    match named {
        Some(n) => n@,
        None => "root"@,
    }
}

/// The case is over.
pub open spec fn finished(run: CaseRunView, result: Result<CaseView, KitErrorView>) -> (
    CaseRunView,
    CaseActionView,
) {
    (
        CaseRunView {
            phase: CasePhase::Finished,
            actor: run.actor,
            statement: run.statement,
            assertions: run.assertions,
        },
        CaseActionView::Finish { result },
    )
}

/// The case goes on with `statement`, run as `as_actor`.
pub open spec fn running(
    run: CaseRunView,
    phase: CasePhase,
    statement: Seq<char>,
    as_actor: Seq<char>,
) -> (CaseRunView, CaseActionView) {
    (
        CaseRunView { phase, actor: run.actor, statement, assertions: run.assertions },
        CaseActionView::Execute { actor: as_actor, sql: statement },
    )
}

pub open spec fn execution_error(text: Seq<char>) -> KitErrorView {
    error_of(ErrorKind::Execution, text)
}

pub open spec fn out_of_turn() -> KitErrorView {
    error_of(ErrorKind::Case, "the case does not wait for this result"@)
}

/// How a case begins. Its actor must have a session, a permissions case
/// needs rules and the session of `root`, a metadata case a statement, an API
/// case a base URL and a path; whatever is missing ends the case at once with
/// a configuration error.
pub open spec fn case_start(
    case: CaseSpec,
    actors: Seq<ActorSession>,
    base_url: Option<Seq<char>>,
    timeout_ms: u64,
) -> (CaseRunView, CaseActionView) {
    let actor = actor_of(case.kind);
    let run = CaseRunView {
        phase: CasePhase::Finished,
        actor,
        statement: Seq::empty(),
        assertions: Seq::empty(),
    };
    let known = session_index(actors, actor);
    match case.kind {
        CaseKind::SqlExpect(spec) => if known is None {
            finished(run, Err(not_configured(actor)))
        } else {
            running(run, CasePhase::Statement, spec.sql@, actor)
        },
        CaseKind::PermissionsMatrix(spec) => if spec.rules@.len() == 0 {
            finished(
                run,
                Err(
                    error_of(
                        ErrorKind::Configuration,
                        "permissions_matrix case '"@ + case.name@ + "' has no rules"@,
                    ),
                ),
            )
        } else if known is None {
            finished(run, Err(not_configured(actor)))
        } else if session_index(actors, "root"@) is None {
            finished(run, Err(not_configured("root"@)))
        } else {
            running(run, CasePhase::Seed { rule: 0 }, seed_text(spec), "root"@)
        },
        CaseKind::SchemaMetadata(spec) => if known is None {
            finished(run, Err(not_configured(actor)))
        } else {
            match metadata_text(spec) {
                Err(e) => finished(run, Err(e)),
                Ok(sql) => running(run, CasePhase::Metadata, sql, actor),
            }
        },
        CaseKind::SchemaBehavior(spec) => if known is None {
            finished(run, Err(not_configured(actor)))
        } else if spec.setup_sql@.len() > 0 {
            running(run, CasePhase::Setup { index: 0 }, spec.setup_sql@[0]@, actor)
        } else {
            running(run, CasePhase::Action, spec.action_sql@, actor)
        },
        CaseKind::ApiRequest(spec) => if known is None {
            finished(run, Err(not_configured(actor)))
        } else if base_url is None {
            finished(
                run,
                Err(
                    error_of(
                        ErrorKind::Configuration,
                        "api_request case '"@ + case.name@
                            + "' requires base URL (--base-url, config default, or env)"@,
                    ),
                ),
            )
        } else {
            match planned_request(base_url->0, spec, actors[known->0].headers@, timeout_ms) {
                Err(e) => finished(run, Err(e)),
                Ok(request) => (
                    CaseRunView {
                        phase: CasePhase::Response,
                        actor,
                        statement: request.url,
                        assertions: Seq::empty(),
                    },
                    CaseActionView::Request { request },
                ),
            }
        },
    }
}

/// How a case goes on when the statement it waited for has run.
///
/// An `sql_expect` case ends with its report. A permissions case tries the
/// rule whose record was put in place (whether or not that worked), judges
/// the rule that was tried, and goes on to the next rule or ends. A metadata
/// case ends with its report, or with the error of its statement. A behaviour
/// case runs its setup statements in order and ends with the error of one
/// that fails; then it runs its action, and where that did as expected and
/// there are assertions, the statement that they read.
pub open spec fn case_executed(
    case: CaseSpec,
    run: CaseRunView,
    outcome: Result<Json, Seq<char>>,
) -> (CaseRunView, CaseActionView) {
    let name = case.name@;
    let kind = label_of(case.kind);
    match case.kind {
        CaseKind::SqlExpect(spec) => match run.phase {
            CasePhase::Statement => finished(
                run,
                sql_expect_report(
                    name,
                    kind,
                    outcome,
                    spec.allow,
                    text_view(spec.error_contains),
                    text_view(spec.error_code),
                    spec.assertions@,
                ),
            ),
            _ => finished(run, Err(out_of_turn())),
        },
        CaseKind::PermissionsMatrix(spec) => match run.phase {
            CasePhase::Seed { rule } => if rule < spec.rules@.len() {
                match rule_text(name, spec, rule as nat, spec.rules@[rule as int]) {
                    Err(e) => finished(run, Err(e)),
                    Ok(sql) => running(run, CasePhase::Attempt { rule }, sql, run.actor),
                }
            } else {
                finished(run, Err(out_of_turn()))
            },
            CasePhase::Attempt { rule } => if rule < spec.rules@.len() {
                let judged = CaseRunView {
                    phase: run.phase,
                    actor: run.actor,
                    statement: run.statement,
                    assertions: run.assertions.push(
                        rule_verdict(rule as nat, outcome, spec.rules@[rule as int], run.statement),
                    ),
                };
                if rule + 1 < spec.rules@.len() {
                    running(
                        judged,
                        CasePhase::Seed { rule: (rule + 1) as usize },
                        seed_text(spec),
                        "root"@,
                    )
                } else {
                    finished(
                        judged,
                        Ok(
                            summed_report(
                                name,
                                kind,
                                judged.assertions,
                                "one or more permission rules failed"@,
                            ),
                        ),
                    )
                }
            } else {
                finished(run, Err(out_of_turn()))
            },
            _ => finished(run, Err(out_of_turn())),
        },
        CaseKind::SchemaMetadata(spec) => match run.phase {
            CasePhase::Metadata => match outcome {
                Err(text) => finished(run, Err(execution_error(text))),
                Ok(value) => finished(run, metadata_report(name, kind, value, spec)),
            },
            _ => finished(run, Err(out_of_turn())),
        },
        CaseKind::SchemaBehavior(spec) => match run.phase {
            CasePhase::Setup { index } => match outcome {
                Err(text) => finished(
                    run,
                    Err(
                        execution_error(
                            "schema_behavior setup failed in case '"@ + name + "': "@ + text,
                        ),
                    ),
                ),
                Ok(_) => if index + 1 < spec.setup_sql@.len() {
                    running(
                        run,
                        CasePhase::Setup { index: (index + 1) as usize },
                        spec.setup_sql@[index + 1]@,
                        run.actor,
                    )
                } else {
                    running(run, CasePhase::Action, spec.action_sql@, run.actor)
                },
            },
            CasePhase::Action => {
                let first = outcome_verdict(
                    "outcome"@,
                    outcome,
                    spec.expect_success,
                    text_view(spec.expect_error_contains),
                    None,
                );
                let judged = CaseRunView {
                    phase: run.phase,
                    actor: run.actor,
                    statement: run.statement,
                    assertions: seq![first],
                };
                if first.passed && spec.assertions@.len() > 0 {
                    running(judged, CasePhase::Verify, verify_text(spec), run.actor)
                } else {
                    finished(
                        judged,
                        sql_expect_report(
                            name,
                            kind,
                            outcome,
                            spec.expect_success,
                            text_view(spec.expect_error_contains),
                            None,
                            Seq::empty(),
                        ),
                    )
                }
            },
            CasePhase::Verify => match outcome {
                Err(text) => finished(run, Err(execution_error(text))),
                Ok(value) => finished(
                    run,
                    behavior_report(name, kind, run.assertions, value, spec),
                ),
            },
            _ => finished(run, Err(out_of_turn())),
        },
        CaseKind::ApiRequest(_) => finished(run, Err(out_of_turn())),
    }
}

pub struct ApiResponseView {
    pub status: u16,
    pub headers: Seq<Header>,
    pub body_text: Seq<char>,
    pub parsed: Option<Json>,
}

pub open spec fn response_view(r: Result<ApiResponse, String>) -> Result<
    ApiResponseView,
    Seq<char>,
> {
    match r {
        Ok(x) => Ok(
            ApiResponseView {
                status: x.status,
                headers: x.headers@,
                body_text: x.body_text@,
                parsed: json_opt_view(x.parsed),
            },
        ),
        Err(e) => Err(e@),
    }
}

/// How an API case ends when its request was answered or failed. A request
/// that failed is an error of the case; so is a judgement that cannot be made.
pub open spec fn case_responded(
    case: CaseSpec,
    run: CaseRunView,
    response: Result<ApiResponseView, Seq<char>>,
) -> (CaseRunView, CaseActionView) {
    match case.kind {
        CaseKind::ApiRequest(spec) => match run.phase {
            CasePhase::Response => match response {
                Err(text) => finished(run, Err(execution_error(text))),
                Ok(r) => match api_judgement(spec, r.status, r.headers, r.body_text, r.parsed) {
                    Err(e) => finished(run, Err(e)),
                    Ok(result) => finished(
                        run,
                        Ok(api_report(case.name@, label_of(case.kind), result)),
                    ),
                },
            },
            _ => finished(run, Err(out_of_turn())),
        },
        _ => finished(run, Err(out_of_turn())),
    }
}

fn finish(run: CaseRun, result: Result<CaseReport, KitError>) -> (r: (CaseRun, CaseAction))
    ensures
        (r.0@, r.1@) == finished(run@, case_result_view(result)),
{
    (
        CaseRun {
            phase: CasePhase::Finished,
            actor: run.actor,
            statement: run.statement,
            assertions: run.assertions,
        },
        CaseAction::Finish { result },
    )
}

fn go_on(run: CaseRun, phase: CasePhase, statement: String, as_actor: String) -> (r: (
    CaseRun,
    CaseAction,
))
    ensures
        (r.0@, r.1@) == running(run@, phase, statement@, as_actor@),
{
    let sql = statement.clone();
    (
        CaseRun { phase, actor: run.actor, statement, assertions: run.assertions },
        CaseAction::Execute { actor: as_actor, sql },
    )
}

fn misplaced(run: CaseRun) -> (r: (CaseRun, CaseAction))
    ensures
        (r.0@, r.1@) == finished(run@, Err(out_of_turn())),
{
    finish(
        run,
        Err(KitError::new(ErrorKind::Case, owned("the case does not wait for this result"))),
    )
}

fn case_actor(kind: &CaseKind) -> (s: &str)
    ensures
        s@ == actor_of(*kind),
{
    match kind {
        CaseKind::SqlExpect(spec) => actor_name_or_default(&spec.actor),
        CaseKind::PermissionsMatrix(spec) => actor_name_or_default(&spec.actor),
        CaseKind::SchemaMetadata(spec) => actor_name_or_default(&spec.actor),
        CaseKind::SchemaBehavior(spec) => actor_name_or_default(&spec.actor),
        CaseKind::ApiRequest(spec) => actor_name_or_default(&spec.actor),
    }
}

impl CaseRun {
    /// Begins a case.
    pub fn start(
        case: &CaseSpec,
        actors: &Vec<ActorSession>,
        base_url: &Option<String>,
        timeout_ms: u64,
    ) -> (r: (CaseRun, CaseAction))
        ensures
            (r.0@, r.1@) == case_start(*case, actors@, text_view(*base_url), timeout_ms),
    {
        let actor = case_actor(&case.kind);
        let assertions: Vec<AssertionReport> = Vec::new();
        let statement = String::new();
        assert(assertion_views(assertions@) =~= Seq::<AssertionView>::empty());
        let run = CaseRun {
            phase: CasePhase::Finished,
            actor: owned(actor),
            statement,
            assertions,
        };
        match &case.kind {
            CaseKind::SqlExpect(spec) => {
                match require_actor(actors, actor) {
                    Err(e) => finish(run, Err(e)),
                    Ok(_) => go_on(run, CasePhase::Statement, spec.sql.clone(), owned(actor)),
                }
            },
            CaseKind::PermissionsMatrix(spec) => {
                if spec.rules.len() == 0 {
                    return finish(
                        run,
                        Err(
                            KitError::new(
                                ErrorKind::Configuration,
                                concat3(
                                    "permissions_matrix case '",
                                    case.name.as_str(),
                                    "' has no rules",
                                ),
                            ),
                        ),
                    );
                }
                match require_actor(actors, actor) {
                    Err(e) => {
                        return finish(run, Err(e));
                    },
                    Ok(_) => {},
                }
                match require_actor(actors, "root") {
                    Err(e) => finish(run, Err(e)),
                    Ok(_) => go_on(
                        run,
                        CasePhase::Seed { rule: 0 },
                        seed_statement(spec),
                        owned("root"),
                    ),
                }
            },
            CaseKind::SchemaMetadata(spec) => {
                match require_actor(actors, actor) {
                    Err(e) => {
                        return finish(run, Err(e));
                    },
                    Ok(_) => {},
                }
                match metadata_statement(spec) {
                    Err(e) => finish(run, Err(e)),
                    Ok(sql) => go_on(run, CasePhase::Metadata, sql, owned(actor)),
                }
            },
            CaseKind::SchemaBehavior(spec) => {
                match require_actor(actors, actor) {
                    Err(e) => {
                        return finish(run, Err(e));
                    },
                    Ok(_) => {},
                }
                if spec.setup_sql.len() > 0 {
                    go_on(
                        run,
                        CasePhase::Setup { index: 0 },
                        spec.setup_sql[0].clone(),
                        owned(actor),
                    )
                } else {
                    go_on(run, CasePhase::Action, spec.action_sql.clone(), owned(actor))
                }
            },
            CaseKind::ApiRequest(spec) => {
                let session = match require_actor(actors, actor) {
                    Err(e) => {
                        return finish(run, Err(e));
                    },
                    Ok(s) => s,
                };
                let base = match base_url {
                    None => {
                        return finish(
                            run,
                            Err(
                                KitError::new(
                                    ErrorKind::Configuration,
                                    concat3(
                                        "api_request case '",
                                        case.name.as_str(),
                                        "' requires base URL (--base-url, config default, or env)",
                                    ),
                                ),
                            ),
                        );
                    },
                    Some(b) => b,
                };
                match build_api_request(base.as_str(), spec, &session.headers, timeout_ms) {
                    Err(e) => finish(run, Err(e)),
                    Ok(request) => {
                        let url = request.url.clone();
                        (
                            CaseRun {
                                phase: CasePhase::Response,
                                actor: run.actor,
                                statement: url,
                                assertions: run.assertions,
                            },
                            CaseAction::Request { request },
                        )
                    },
                }
            },
        }
    }

    /// Goes on with a case whose statement has run.
    pub fn executed(self, case: &CaseSpec, outcome: Result<JsonValue, String>) -> (r: (
        CaseRun,
        CaseAction,
    ))
        ensures
            (r.0@, r.1@) == case_executed(*case, self@, outcome_view(outcome)),
    {
        let run = self;
        let name = case.name.clone();
        let kind = owned(case.kind.label());
        match &case.kind {
            CaseKind::SqlExpect(spec) => match run.phase {
                CasePhase::Statement => {
                    let result = report_sql_expect(
                        name,
                        kind,
                        &outcome,
                        spec.allow,
                        &spec.error_contains,
                        &spec.error_code,
                        &spec.assertions,
                    );
                    finish(run, result)
                },
                _ => misplaced(run),
            },
            CaseKind::PermissionsMatrix(spec) => match run.phase {
                CasePhase::Seed { rule } => {
                    if rule < spec.rules.len() {
                        match rule_statement(case.name.as_str(), spec, rule, &spec.rules[rule]) {
                            Err(e) => finish(run, Err(e)),
                            Ok(sql) => {
                                let actor = run.actor.clone();
                                go_on(run, CasePhase::Attempt { rule }, sql, actor)
                            },
                        }
                    } else {
                        misplaced(run)
                    }
                },
                CasePhase::Attempt { rule } => {
                    if rule < spec.rules.len() {
                        let verdict = judge_rule(
                            rule,
                            &outcome,
                            &spec.rules[rule],
                            run.statement.as_str(),
                        );
                        let ghost before = assertion_views(run.assertions@);
                        let mut assertions = run.assertions;
                        assertions.push(verdict);
                        assert(assertion_views(assertions@) =~= before.push(verdict@));
                        let judged = CaseRun {
                            phase: run.phase,
                            actor: run.actor,
                            statement: run.statement,
                            assertions,
                        };
                        if rule + 1 < spec.rules.len() {
                            go_on(
                                judged,
                                CasePhase::Seed { rule: rule + 1 },
                                seed_statement(spec),
                                owned("root"),
                            )
                        } else {
                            let report = sum_report(
                                name,
                                kind,
                                clone_reports(&judged.assertions),
                                owned("one or more permission rules failed"),
                            );
                            finish(judged, Ok(report))
                        }
                    } else {
                        misplaced(run)
                    }
                },
                _ => misplaced(run),
            },
            CaseKind::SchemaMetadata(spec) => match run.phase {
                CasePhase::Metadata => match outcome {
                    Err(text) => finish(run, Err(KitError::new(ErrorKind::Execution, text))),
                    Ok(value) => {
                        let result = report_metadata(name, kind, &value, spec);
                        finish(run, result)
                    },
                },
                _ => misplaced(run),
            },
            CaseKind::SchemaBehavior(spec) => match run.phase {
                CasePhase::Setup { index } => match outcome {
                    Err(text) => finish(
                        run,
                        Err(
                            KitError::new(
                                ErrorKind::Execution,
                                concat4(
                                    "schema_behavior setup failed in case '",
                                    case.name.as_str(),
                                    "': ",
                                    text.as_str(),
                                ),
                            ),
                        ),
                    ),
                    Ok(_) => {
                        let actor = run.actor.clone();
                        if index < spec.setup_sql.len() && index + 1 < spec.setup_sql.len() {
                            go_on(
                                run,
                                CasePhase::Setup { index: index + 1 },
                                spec.setup_sql[index + 1].clone(),
                                actor,
                            )
                        } else {
                            go_on(run, CasePhase::Action, spec.action_sql.clone(), actor)
                        }
                    },
                },
                CasePhase::Action => {
                    let none: Option<String> = None;
                    let first = evaluate_outcome(
                        owned("outcome"),
                        &outcome,
                        spec.expect_success,
                        &spec.expect_error_contains,
                        &none,
                    );
                    let passed = first.passed;
                    let mut assertions: Vec<AssertionReport> = Vec::new();
                    assertions.push(first);
                    assert(assertion_views(assertions@) =~= seq![first@]);
                    let judged = CaseRun {
                        phase: run.phase,
                        actor: run.actor,
                        statement: run.statement,
                        assertions,
                    };
                    if passed && spec.assertions.len() > 0 {
                        let sql = match &spec.verify_sql {
                            Some(sql) => sql.clone(),
                            None => spec.action_sql.clone(),
                        };
                        let actor = judged.actor.clone();
                        go_on(judged, CasePhase::Verify, sql, actor)
                    } else {
                        let nothing: Vec<JsonAssertionSpec> = Vec::new();
                        let result = report_sql_expect(
                            name,
                            kind,
                            &outcome,
                            spec.expect_success,
                            &spec.expect_error_contains,
                            &none,
                            &nothing,
                        );
                        finish(judged, result)
                    }
                },
                CasePhase::Verify => match outcome {
                    Err(text) => finish(run, Err(KitError::new(ErrorKind::Execution, text))),
                    Ok(value) => {
                        let result = report_behavior(
                            name,
                            kind,
                            clone_reports(&run.assertions),
                            &value,
                            spec,
                        );
                        finish(run, result)
                    },
                },
                _ => misplaced(run),
            },
            CaseKind::ApiRequest(_) => misplaced(run),
        }
    }

    /// Ends an API case whose request was answered or failed.
    pub fn responded(self, case: &CaseSpec, response: Result<ApiResponse, String>) -> (r: (
        CaseRun,
        CaseAction,
    ))
        ensures
            (r.0@, r.1@) == case_responded(*case, self@, response_view(response)),
    {
        let run = self;
        match &case.kind {
            CaseKind::ApiRequest(spec) => match run.phase {
                CasePhase::Response => match response {
                    Err(text) => finish(run, Err(KitError::new(ErrorKind::Execution, text))),
                    Ok(r) => match evaluate_api_response(
                        spec,
                        r.status,
                        &r.headers,
                        r.body_text.as_str(),
                        &r.parsed,
                    ) {
                        Err(e) => finish(run, Err(e)),
                        Ok(result) => {
                            let report = report_api(
                                case.name.clone(),
                                owned(case.kind.label()),
                                result,
                            );
                            finish(run, Ok(report))
                        },
                    },
                },
                _ => misplaced(run),
            },
            _ => misplaced(run),
        }
    }
}

/// A copy of a list of assertion reports.
pub fn clone_reports(from: &Vec<AssertionReport>) -> (out: Vec<AssertionReport>)
    ensures
        assertion_views(out@) == assertion_views(from@),
{
    let mut out: Vec<AssertionReport> = Vec::new();
    let mut i: usize = 0;
    while i < from.len()
        invariant
            i <= from.len(),
            out.len() == i,
            forall|j: int| 0 <= j < i ==> out@[j]@ == from@[j]@,
        decreases from.len() - i,
    {
        out.push(
            AssertionReport {
                name: from[i].name.clone(),
                passed: from[i].passed,
                message: from[i].message.clone(),
            },
        );
        i += 1;
    }
    assert(assertion_views(out@) =~= assertion_views(from@));
    out
}

} // verus!
