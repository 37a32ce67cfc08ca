//! Running cases: what each kind of case asks of the database or the API,
//! and how what came back is judged.

use vstd::prelude::*;
use vstd::string::*;

use crate::error::{KitError, KitErrorView};
use crate::json::{Json, JsonValue};
use crate::tester::assertions::{assert_json_value, json_verdict, report_of};
use crate::config::DbCfg;
use crate::order::{reversed, rows, rows_precede, sort_by_key, sorted, Keyed};
use crate::tester::filters::display_name;
use crate::tester::types::{all_passed, assertion_views, text_view, AssertionReport, AssertionView, CaseReport, CaseView, FilterInput, JsonAssertionSpec, LoadedSuite, RunReport, SuiteReport, TestOpts};
use crate::text::{char_is_ascii_alnum, char_lower, chars_of, clone_strings, concat2, concat3, concat5, decimal, decimal_string, has_sub, is_ascii_alnum, lower, owned, str_contains, string_of_range, trim_bounds, trim_by, CharClass};

verus! {

/// What running a statement gave: the value it returned, or the text of the
/// error with which it failed.
pub open spec fn outcome_view(outcome: Result<JsonValue, String>) -> Result<Json, Seq<char>> {
    match outcome {
        Ok(v) => Ok(v@),
        Err(e) => Err(e@),
    }
}

/// Whether the text of an error holds every part that was asked for.
pub open spec fn error_matches(
    text: Seq<char>,
    contains: Option<Seq<char>>,
    code: Option<Seq<char>>,
) -> bool {
    (contains is None || has_sub(text, contains->0)) && (code is None || has_sub(text, code->0))
}

/// The verdict on whether a statement was allowed: it passes when it
/// succeeded and was to succeed, or failed and was to fail with an error
/// that holds every part asked for.
pub open spec fn outcome_verdict(
    label: Seq<char>,
    outcome: Result<Json, Seq<char>>,
    allow: bool,
    contains: Option<Seq<char>>,
    code: Option<Seq<char>>,
) -> AssertionView {
    match outcome {
        Ok(_) => if allow {
            report_of(label, true, "query succeeded as expected"@)
        } else {
            report_of(label, false, "expected failure, query succeeded"@)
        },
        Err(text) => if allow {
            report_of(label, false, "expected success, got error: "@ + text)
        } else if error_matches(text, contains, code) {
            report_of(label, true, "query failed as expected"@)
        } else {
            report_of(label, false, "error mismatch, got '"@ + text + "'"@)
        },
    }
}

fn holds_part(text: &str, part: &Option<String>) -> (r: bool)
    ensures
        r == (part is None || has_sub(text@, part->0@)),
{
    match part {
        Some(p) => str_contains(text, p.as_str()),
        None => true,
    }
}

/// Judges whether a statement was allowed as the case expected.
pub fn evaluate_outcome(
    label: String,
    outcome: &Result<JsonValue, String>,
    allow: bool,
    error_contains: &Option<String>,
    error_code: &Option<String>,
) -> (r: AssertionReport)
    ensures
        r@ == outcome_verdict(
            label@,
            outcome_view(*outcome),
            allow,
            text_view(*error_contains),
            text_view(*error_code),
        ),
{
    match outcome {
        Ok(_) => {
            if allow {
                AssertionReport {
                    name: label,
                    passed: true,
                    message: owned("query succeeded as expected"),
                }
            } else {
                AssertionReport {
                    name: label,
                    passed: false,
                    message: owned("expected failure, query succeeded"),
                }
            }
        },
        Err(text) => {
            if allow {
                AssertionReport {
                    name: label,
                    passed: false,
                    message: concat2("expected success, got error: ", text.as_str()),
                }
            } else if holds_part(text.as_str(), error_contains) && holds_part(
                text.as_str(),
                error_code,
            ) {
                AssertionReport {
                    name: label,
                    passed: true,
                    message: owned("query failed as expected"),
                }
            } else {
                AssertionReport {
                    name: label,
                    passed: false,
                    message: concat3("error mismatch, got '", text.as_str(), "'"),
                }
            }
        },
    }
}

/// The verdicts on a list of JSON assertions, in order; the first assertion
/// that cannot be judged gives its error instead.
pub open spec fn json_verdicts(actual: Json, specs: Seq<JsonAssertionSpec>) -> Result<
    Seq<AssertionView>,
    KitErrorView,
>
    decreases specs.len(),
{
    if specs.len() == 0 {
        Ok(Seq::empty())
    } else {
        match json_verdicts(actual, specs.drop_last()) {
            Err(e) => Err(e),
            Ok(done) => match json_verdict(actual, specs.last(), (specs.len() - 1) as nat) {
                Ok(v) => Ok(done.push(v)),
                Err(e) => Err(e),
            },
        }
    }
}

/// Judges the assertions of `specs` against `value` and appends the verdicts to `out`.
pub fn check_json_assertions(
    value: &JsonValue,
    specs: &Vec<JsonAssertionSpec>,
    out: &mut Vec<AssertionReport>,
) -> (r: Result<(), KitError>)
    ensures
        match json_verdicts(value@, specs@) {
            Ok(verdicts) => r is Ok && assertion_views(final(out)@) == assertion_views(old(out)@)
                + verdicts,
            Err(e) => r is Err && r->Err_0@ == e,
        },
{
    let mut i: usize = 0;
    proof {
        assert(specs@.take(0) =~= Seq::<JsonAssertionSpec>::empty());
        assert(assertion_views(out@) + Seq::<AssertionView>::empty() =~= assertion_views(out@));
    }
    while i < specs.len()
        invariant
            i <= specs.len(),
            json_verdicts(value@, specs@.take(i as int)) is Ok,
            assertion_views(out@) == assertion_views(old(out)@) + json_verdicts(
                value@,
                specs@.take(i as int),
            )->Ok_0,
        decreases specs.len() - i,
    {
        let ghost next = specs@.take(i + 1);
        proof {
            assert(next.drop_last() =~= specs@.take(i as int));
            assert(next.last() == specs@[i as int]);
            lemma_verdicts_prefix_error(value@, specs@, i + 1);
        }
        let ghost before = assertion_views(out@);
        match assert_json_value(value, &specs[i], i) {
            Ok(verdict) => {
                out.push(verdict);
                assert(assertion_views(out@) =~= before.push(verdict@));
                assert(before.push(verdict@) =~= assertion_views(old(out)@) + json_verdicts(
                    value@,
                    next,
                )->Ok_0);
            },
            Err(e) => {
                return Err(e);
            },
        }
        i += 1;
    }
    assert(specs@.take(specs.len() as int) =~= specs@);
    Ok(())
}

/// An error among the first `i` assertions is the error of the whole list.
pub proof fn lemma_verdicts_prefix_error(actual: Json, specs: Seq<JsonAssertionSpec>, i: int)
    requires
        0 <= i <= specs.len(),
    ensures
        json_verdicts(actual, specs.take(i)) is Err ==> json_verdicts(actual, specs)
            == json_verdicts(actual, specs.take(i)),
    decreases specs.len() - i,
{
    if i < specs.len() {
        lemma_verdicts_prefix_error(actual, specs, i + 1);
        assert(specs.take(i + 1).drop_last() =~= specs.take(i));
    } else {
        assert(specs.take(i) =~= specs);
    }
}

/// Whether every report of the list passed.
pub fn all_pass(reports: &Vec<AssertionReport>) -> (r: bool)
    ensures
        r == all_passed(assertion_views(reports@)),
{
    let mut i: usize = 0;
    while i < reports.len()
        invariant
            i <= reports.len(),
            forall|j: int| 0 <= j < i ==> (#[trigger] assertion_views(reports@)[j]).passed,
        decreases reports.len() - i,
    {
        if !reports[i].passed {
            assert(!assertion_views(reports@)[i as int].passed);
            return false;
        }
        i += 1;
    }
    true
}

pub open spec fn case_of(
    name: Seq<char>,
    kind: Seq<char>,
    passed: bool,
    message: Option<Seq<char>>,
    assertions: Seq<AssertionView>,
) -> CaseView {
    CaseView { name, kind, duration_ms: 0, passed, message, assertions }
}

/// The report on a statement that was to succeed or to fail. Its first
/// assertion, `outcome`, says whether it did as expected; where it succeeded
/// as expected, the verdicts on the JSON assertions follow. The case passes
/// when every assertion does.
pub open spec fn sql_expect_report(
    name: Seq<char>,
    kind: Seq<char>,
    outcome: Result<Json, Seq<char>>,
    allow: bool,
    contains: Option<Seq<char>>,
    code: Option<Seq<char>>,
    specs: Seq<JsonAssertionSpec>,
) -> Result<CaseView, KitErrorView> {
    let first = outcome_verdict("outcome"@, outcome, allow, contains, code);
    if allow && outcome is Ok {
        match json_verdicts(outcome->Ok_0, specs) {
            Err(e) => Err(e),
            Ok(rest) => {
                let passed = all_passed(rest);
                Ok(
                    case_of(
                        name,
                        kind,
                        passed,
                        if passed {
                            None
                        } else {
                            Some("one or more assertions failed"@)
                        },
                        seq![first] + rest,
                    ),
                )
            },
        }
    } else {
        Ok(
            case_of(
                name,
                kind,
                first.passed,
                if first.passed {
                    None
                } else {
                    Some(first.message)
                },
                seq![first],
            ),
        )
    }
}

pub open spec fn case_result_view(r: Result<CaseReport, KitError>) -> Result<
    CaseView,
    KitErrorView,
> {
    match r {
        Ok(x) => Ok(x@),
        Err(e) => Err(e@),
    }
}

/// Reports on a statement that was to succeed or to fail.
pub fn report_sql_expect(
    name: String,
    kind: String,
    outcome: &Result<JsonValue, String>,
    allow: bool,
    error_contains: &Option<String>,
    error_code: &Option<String>,
    json_assertions: &Vec<JsonAssertionSpec>,
) -> (r: Result<CaseReport, KitError>)
    ensures
        case_result_view(r) == sql_expect_report(
            name@,
            kind@,
            outcome_view(*outcome),
            allow,
            text_view(*error_contains),
            text_view(*error_code),
            json_assertions@,
        ),
{
    let first = evaluate_outcome(owned("outcome"), outcome, allow, error_contains, error_code);
    let ghost first_view = first@;
    let mut assertions: Vec<AssertionReport> = Vec::new();
    match outcome {
        Ok(value) => {
            if allow {
                assertions.push(first);
                assert(assertion_views(assertions@) =~= seq![first_view]);
                match check_json_assertions(value, json_assertions, &mut assertions) {
                    Err(e) => {
                        return Err(e);
                    },
                    Ok(_) => {},
                }
                let passed = all_pass(&assertions);
                proof {
                    let rest = json_verdicts(value@, json_assertions@)->Ok_0;
                    let all = seq![first_view] + rest;
                    assert(all_passed(all) == all_passed(rest)) by {
                        if all_passed(all) {
                            assert forall|i: int| 0 <= i < rest.len() implies (
                            #[trigger] rest[i]).passed by {
                                assert(all[i + 1] == rest[i]);
                            }
                        } else {
                            if all_passed(rest) {
                                assert forall|i: int| 0 <= i < all.len() implies (
                                #[trigger] all[i]).passed by {
                                    if i > 0 {
                                        assert(all[i] == rest[i - 1]);
                                    }
                                }
                            }
                        }
                    }
                }
                let message = if passed {
                    None
                } else {
                    Some(owned("one or more assertions failed"))
                };
                return Ok(CaseReport { name, kind, duration_ms: 0, passed, message, assertions });
            }
        },
        Err(_) => {},
    }
    let passed = first.passed;
    let message = if passed {
        None
    } else {
        Some(first.message.clone())
    };
    assertions.push(first);
    assert(assertion_views(assertions@) =~= seq![first_view]);
    Ok(CaseReport { name, kind, duration_ms: 0, passed, message, assertions })
}

/// The text that `rest` adds to a slug: letters and digits in lower case,
/// and one underscore for each run of other characters; `in_run` says that
/// such a run is under way.
pub open spec fn slug_from(rest: Seq<char>, in_run: bool) -> Seq<char>
    decreases rest.len(),
{
    if rest.len() == 0 {
        Seq::empty()
    } else if is_ascii_alnum(lower(rest[0])) {
        seq![lower(rest[0])] + slug_from(rest.drop_first(), false)
    } else if !in_run {
        seq!['_'] + slug_from(rest.drop_first(), true)
    } else {
        slug_from(rest.drop_first(), true)
    }
}

/// The slug of a text: what `slug_from` gives without the underscores at
/// its ends, or `suite` where nothing is left.
pub open spec fn slug(input: Seq<char>) -> Seq<char> {
    let t = trim_by(slug_from(input, false), CharClass::Underscore);
    if t.len() == 0 {
        "suite"@
    } else {
        t
    }
}

/// Turns a text into a name that is safe in a namespace or database name.
pub fn slugify(input: &str) -> (out: String)
    ensures
        out@ == slug(input@),
{
    let v = chars_of(input);
    let mut buf: Vec<char> = Vec::new();
    let mut prev_dash = false;
    let mut i: usize = 0;
    proof {
        assert(v@.skip(0) =~= v@);
        assert(buf@ + slug_from(v@, false) =~= slug_from(v@, false));
    }
    while i < v.len()
        invariant
            i <= v.len(),
            slug_from(v@, false) == buf@ + slug_from(v@.skip(i as int), prev_dash),
        decreases v.len() - i,
    {
        let ghost rest = v@.skip(i as int);
        let ghost before = buf@;
        assert(rest[0] == v@[i as int]);
        assert(rest.drop_first() =~= v@.skip(i + 1));
        let c = char_lower(v[i]);
        if char_is_ascii_alnum(c) {
            buf.push(c);
            prev_dash = false;
            assert(before + (seq![c] + slug_from(v@.skip(i + 1), false)) =~= buf@ + slug_from(
                v@.skip(i + 1),
                false,
            ));
        } else if !prev_dash {
            buf.push('_');
            prev_dash = true;
            assert(before + (seq!['_'] + slug_from(v@.skip(i + 1), true)) =~= buf@ + slug_from(
                v@.skip(i + 1),
                true,
            ));
        }
        i += 1;
    }
    proof {
        assert(v@.skip(v.len() as int) =~= Seq::<char>::empty());
        assert(buf@ + Seq::<char>::empty() =~= buf@);
    }
    let (lo, hi) = trim_bounds(&buf, CharClass::Underscore);
    if lo == hi {
        owned("suite")
    } else {
        string_of_range(&buf, lo, hi)
    }
}

/// The filter that the options of a run ask for.
pub fn build_filter_input(opts: &TestOpts) -> (f: FilterInput)
    ensures
        f.suite_pattern == opts.suite,
        f.case_pattern == opts.case,
        f.tags@ == opts.tags@,
{
    FilterInput {
        suite_pattern: match &opts.suite {
            Some(s) => Some(s.clone()),
            None => None,
        },
        case_pattern: match &opts.case {
            Some(s) => Some(s.clone()),
            None => None,
        },
        tags: clone_strings(&opts.tags),
    }
}

/// The identifier of a run: the time at which it began, in nanoseconds
/// since the epoch, as a decimal numeral.
pub fn unique_run_id(nanos: u128) -> (out: String)
    ensures
        out@ == decimal(nanos as nat),
{
    decimal_string(nanos)
}

/// The names under which a suite runs.
#[derive(Debug, Clone)]
pub struct SuiteNames {
    pub suite_name: String,
    pub namespace: String,
    pub database: String,
}

/// The name of the namespace or database that a suite has to itself in a
/// run: made of the configured name, the run and the slug of the suite.
pub open spec fn isolated_name(base: Seq<char>, run_id: Seq<char>, slug: Seq<char>) -> Seq<char> {
    base + "_sk_test_"@ + run_id + "_"@ + slug
}

/// The slug of a suite: that of its name and its path with a hyphen between them.
pub open spec fn suite_slug(suite: LoadedSuite) -> Seq<char> {
    slug(display_name(suite) + "-"@ + suite.path@)
}

/// Names a suite and the namespace and database that it runs in.
pub fn suite_names(cfg: &DbCfg, run_id: &str, suite: &LoadedSuite) -> (names: SuiteNames)
    ensures
        names.suite_name@ == display_name(*suite),
        names.namespace@ == isolated_name(cfg.spec_ns(), run_id@, suite_slug(*suite)),
        names.database@ == isolated_name(cfg.spec_db(), run_id@, suite_slug(*suite)),
{
    let suite_name = match &suite.spec.name {
        Some(n) => n.clone(),
        None => suite.path.clone(),
    };
    let joined = concat3(suite_name.as_str(), "-", suite.path.as_str());
    let slug = slugify(joined.as_str());
    SuiteNames {
        namespace: concat5(cfg.ns(), "_sk_test_", run_id, "_", slug.as_str()),
        database: concat5(cfg.db(), "_sk_test_", run_id, "_", slug.as_str()),
        suite_name,
    }
}

/// The report of a case as it enters the report of its suite: the one
/// that the case gave, with the time it took, or the report of its error.
pub fn stamp_case(
    case: &crate::tester::types::CaseSpec,
    result: Result<CaseReport, KitError>,
    duration_ms: u128,
) -> (r: CaseReport)
    ensures
        r@ == match result {
            Ok(report) => CaseView {
                name: report@.name,
                kind: report@.kind,
                duration_ms,
                passed: report@.passed,
                message: report@.message,
                assertions: report@.assertions,
            },
            Err(e) => CaseView {
                name: case.name@,
                kind: crate::tester::types::label_of(case.kind),
                duration_ms,
                passed: false,
                message: Some(e@.message),
                assertions: Seq::empty(),
            },
        },
{
    match result {
        Ok(report) => CaseReport {
            name: report.name,
            kind: report.kind,
            duration_ms,
            passed: report.passed,
            message: report.message,
            assertions: report.assertions,
        },
        Err(e) => {
            let assertions: Vec<AssertionReport> = Vec::new();
            assert(assertion_views(assertions@) =~= Seq::<AssertionView>::empty());
            CaseReport {
                name: case.name.clone(),
                kind: owned(case.kind.label()),
                duration_ms,
                passed: false,
                message: Some(e.to_text()),
                assertions,
            }
        },
    }
}

/// Whether a suite stops after a case: it does where the case failed and
/// the run is to fail fast.
pub fn stops_after(report: &CaseReport, fail_fast: bool) -> (r: bool)
    ensures
        r == (fail_fast && !report.passed),
{
    fail_fast && !report.passed
}

/// Whether no case of a list but the last one has failed.
pub open spec fn only_last_may_fail(cases: Seq<CaseReport>) -> bool {
    forall|i: int| 0 <= i < cases.len() - 1 ==> (#[trigger] cases[i]).passed
}

/// The reports of a suite while its cases run: the reports of the cases
/// that ran so far, and whether no further case is to run.
#[derive(Debug, Clone)]
pub struct SuiteProgress {
    pub cases: Vec<CaseReport>,
    pub stopped: bool,
}

impl SuiteProgress {
    /// Whether the progress is that of a suite whose cases ran one after
    /// the other and none after the suite had stopped: the suite has stopped
    /// exactly when it is to fail fast and its last case failed, and where it
    /// is to fail fast, no case before the last has failed.
    pub open spec fn in_order(&self, fail_fast: bool) -> bool {
        &&& self.stopped == (fail_fast && self.cases@.len() > 0 && !self.cases@.last().passed)
        &&& fail_fast ==> only_last_may_fail(self.cases@)
    }

    pub fn new() -> (p: SuiteProgress)
        ensures
            p.cases@.len() == 0,
            !p.stopped,
            forall|fail_fast: bool| p.in_order(fail_fast),
    {
        SuiteProgress { cases: Vec::new(), stopped: false }
    }

    /// Takes the report of a case that ran and says whether the next case
    /// may run. The report is kept; a suite that is to fail fast stops with
    /// the first case that failed, and stays stopped.
    pub fn record(&mut self, report: CaseReport, fail_fast: bool) -> (go_on: bool)
        ensures
            final(self).cases@ == old(self).cases@.push(report),
            final(self).stopped == (old(self).stopped || (fail_fast && !report.passed)),
            go_on == !final(self).stopped,
            old(self).in_order(fail_fast) && !old(self).stopped ==> final(self).in_order(fail_fast),
    {
        let stop = stops_after(&report, fail_fast);
        self.cases.push(report);
        self.stopped = self.stopped || stop;
        proof {
            if old(self).in_order(fail_fast) && !old(self).stopped && fail_fast {
                assert forall|i: int| 0 <= i < self.cases@.len() - 1 implies (
                #[trigger] self.cases@[i]).passed by {
                    if i < old(self).cases@.len() - 1 {
                        assert(old(self).cases@[i].passed);
                    } else {
                        assert(self.cases@[i] == old(self).cases@.last());
                    }
                }
            }
        }
        !self.stopped
    }
}

/// How many cases of a list failed.
pub open spec fn failed_count(cases: Seq<CaseReport>) -> nat
    decreases cases.len(),
{
    if cases.len() == 0 {
        0
    } else {
        failed_count(cases.drop_last()) + if cases.last().passed {
            0nat
        } else {
            1nat
        }
    }
}

pub proof fn lemma_failed_count_bound(cases: Seq<CaseReport>)
    ensures
        failed_count(cases) <= cases.len(),
    decreases cases.len(),
{
    if cases.len() > 0 {
        lemma_failed_count_bound(cases.drop_last());
    }
}

/// A text with every backslash turned into a forward slash.
pub open spec fn forward_slashes(s: Seq<char>) -> Seq<char> {
    Seq::new(
        s.len(),
        |i: int|
            if s[i] == '\\' {
                '/'
            } else {
                s[i]
            },
    )
}

pub fn to_forward_slashes(s: &str) -> (out: String)
    ensures
        out@ == forward_slashes(s@),
{
    let v = chars_of(s);
    let mut out = String::new();
    let mut i: usize = 0;
    while i < v.len()
        invariant
            i <= v.len(),
            out@ == forward_slashes(v@).take(i as int),
        decreases v.len() - i,
    {
        let c = if v[i] == '\\' {
            '/'
        } else {
            v[i]
        };
        out.push(c);
        assert(forward_slashes(v@).take(i as int).push(c) =~= forward_slashes(v@).take(i + 1));
        i += 1;
    }
    assert(forward_slashes(v@).take(v.len() as int) =~= forward_slashes(v@));
    out
}

/// Whether the totals of a suite are those of its cases.
pub open spec fn suite_totals_hold(s: SuiteReport) -> bool {
    &&& s.cases_total == s.cases@.len()
    &&& s.cases_failed == failed_count(s.cases@)
    &&& s.cases_passed == s.cases@.len() - failed_count(s.cases@)
}

/// The report of a suite from the reports of its cases: the totals are
/// counted from the cases and from nothing else.
pub fn suite_report(
    suite: &LoadedSuite,
    names: SuiteNames,
    duration_ms: u128,
    cases: Vec<CaseReport>,
) -> (r: SuiteReport)
    ensures
        r.suite_file@ == forward_slashes(suite.path@),
        r.suite_name == names.suite_name,
        r.namespace == names.namespace,
        r.database == names.database,
        r.duration_ms == duration_ms,
        r.cases == cases,
        suite_totals_hold(r),
{
    let mut failed: usize = 0;
    let mut i: usize = 0;
    proof {
        assert(cases@.take(0) =~= Seq::<CaseReport>::empty());
    }
    while i < cases.len()
        invariant
            i <= cases.len(),
            failed == failed_count(cases@.take(i as int)),
            failed <= i,
        decreases cases.len() - i,
    {
        proof {
            let next = cases@.take(i + 1);
            assert(next.drop_last() =~= cases@.take(i as int));
            assert(next.last() == cases@[i as int]);
        }
        if !cases[i].passed {
            failed += 1;
        }
        i += 1;
    }
    assert(cases@.take(cases.len() as int) =~= cases@);
    let total = cases.len();
    SuiteReport {
        suite_file: to_forward_slashes(suite.path.as_str()),
        suite_name: names.suite_name,
        namespace: names.namespace,
        database: names.database,
        duration_ms,
        cases_total: total,
        cases_passed: total - failed,
        cases_failed: failed,
        cases,
    }
}

/// A sum that stops at the largest number a count can hold.
pub open spec fn capped(n: int) -> int {
    if n > usize::MAX {
        usize::MAX as int
    } else {
        n
    }
}

/// How many suites of a list have a failed case.
pub open spec fn failed_suites(suites: Seq<SuiteReport>) -> nat
    decreases suites.len(),
{
    if suites.len() == 0 {
        0
    } else {
        failed_suites(suites.drop_last()) + if suites.last().cases_failed > 0 {
            1nat
        } else {
            0nat
        }
    }
}

/// The sum of what `pick` takes from each suite, capped.
pub open spec fn summed(suites: Seq<SuiteReport>, pick: spec_fn(SuiteReport) -> usize) -> int
    decreases suites.len(),
{
    if suites.len() == 0 {
        0
    } else {
        capped(summed(suites.drop_last(), pick) + pick(suites.last()))
    }
}

pub open spec fn pick_total() -> spec_fn(SuiteReport) -> usize {
    |s: SuiteReport| s.cases_total
}

pub open spec fn pick_passed() -> spec_fn(SuiteReport) -> usize {
    |s: SuiteReport| s.cases_passed
}

pub open spec fn pick_failed() -> spec_fn(SuiteReport) -> usize {
    |s: SuiteReport| s.cases_failed
}

fn add_capped(a: usize, b: usize) -> (r: usize)
    ensures
        r == capped(a + b),
{
    if a > usize::MAX - b {
        usize::MAX
    } else {
        a + b
    }
}

/// Whether the totals of a run are those of its suites.
pub open spec fn run_totals_hold(r: RunReport) -> bool {
    &&& r.suites_total == r.suites@.len()
    &&& r.suites_failed == failed_suites(r.suites@)
    &&& r.cases_total == summed(r.suites@, pick_total())
    &&& r.cases_passed == summed(r.suites@, pick_passed())
    &&& r.cases_failed == summed(r.suites@, pick_failed())
}

/// The report of a run from the reports of its suites: the totals are
/// summed from the suites and from nothing else.
pub fn run_report(
    started_at: String,
    finished_at: String,
    duration_ms: u128,
    suites: Vec<SuiteReport>,
) -> (r: RunReport)
    ensures
        r.started_at == started_at,
        r.finished_at == finished_at,
        r.duration_ms == duration_ms,
        r.suites == suites,
        run_totals_hold(r),
{
    let mut suites_failed: usize = 0;
    let mut cases_total: usize = 0;
    let mut cases_passed: usize = 0;
    let mut cases_failed: usize = 0;
    let mut i: usize = 0;
    proof {
        assert(suites@.take(0) =~= Seq::<SuiteReport>::empty());
    }
    while i < suites.len()
        invariant
            i <= suites.len(),
            suites_failed == failed_suites(suites@.take(i as int)),
            suites_failed <= i,
            cases_total == summed(suites@.take(i as int), pick_total()),
            cases_passed == summed(suites@.take(i as int), pick_passed()),
            cases_failed == summed(suites@.take(i as int), pick_failed()),
        decreases suites.len() - i,
    {
        proof {
            let next = suites@.take(i + 1);
            assert(next.drop_last() =~= suites@.take(i as int));
            assert(next.last() == suites@[i as int]);
        }
        let s = &suites[i];
        if s.cases_failed > 0 {
            suites_failed += 1;
        }
        cases_total = add_capped(cases_total, s.cases_total);
        cases_passed = add_capped(cases_passed, s.cases_passed);
        cases_failed = add_capped(cases_failed, s.cases_failed);
        i += 1;
    }
    assert(suites@.take(suites.len() as int) =~= suites@);
    RunReport {
        started_at,
        finished_at,
        duration_ms,
        suites_total: suites.len(),
        suites_failed,
        cases_total,
        cases_passed,
        cases_failed,
        suites,
    }
}

impl Keyed for SuiteReport {
    open spec fn key(&self) -> Seq<Seq<char>> {
        seq![self.suite_file@]
    }

    fn precedes(&self, other: &Self) -> (r: bool) {
        let mut a: Vec<Vec<char>> = Vec::new();
        a.push(chars_of(self.suite_file.as_str()));
        let mut b: Vec<Vec<char>> = Vec::new();
        b.push(chars_of(other.suite_file.as_str()));
        assert(rows(a@) =~= self.key());
        assert(rows(b@) =~= other.key());
        rows_precede(&a, &b)
    }
}

/// Whether a run starts no further suite: it is to fail fast, and a
/// suite that settled has a failed case.
pub open spec fn run_stops(settled: Seq<SuiteReport>, fail_fast: bool) -> bool {
    fail_fast && exists|i: int| 0 <= i < settled.len() && (#[trigger] settled[i]).cases_failed > 0
}

/// The reports of a run while its suites settle: the reports of all
/// suites that settled so far, and whether no further suite is to start.
#[derive(Debug, Clone)]
pub struct RunProgress {
    pub reports: Vec<SuiteReport>,
    pub stopped: bool,
}

impl RunProgress {
    pub fn new() -> (p: RunProgress)
        ensures
            p.reports@.len() == 0,
            !p.stopped,
    {
        RunProgress { reports: Vec::new(), stopped: false }
    }

    /// Takes the report of a suite that settled and says whether further
    /// suites may start. Every report that is handed in is kept, also after
    /// the run has stopped; a run that is to fail fast stops with the first
    /// suite that has a failed case, and stays stopped.
    pub fn settle(&mut self, report: SuiteReport, fail_fast: bool) -> (go_on: bool)
        ensures
            final(self).reports@ == old(self).reports@.push(report),
            final(self).stopped == (old(self).stopped || (fail_fast && report.cases_failed > 0)),
            go_on == !final(self).stopped,
    {
        let failed = report.cases_failed > 0;
        self.reports.push(report);
        self.stopped = self.stopped || (fail_fast && failed);
        !self.stopped
    }

    /// The reports of the run: in the order in which the suites settled,
    /// or, where suites ran side by side, in the order of their files.
    pub fn finish(self, parallel: bool) -> (out: Vec<SuiteReport>)
        ensures
            !parallel ==> out@ == self.reports@,
            parallel ==> sorted(out@) && out@.to_multiset() == self.reports@.to_multiset(),
    {
        if parallel {
            sort_by_key(self.reports)
        } else {
            self.reports
        }
    }
}

/// Whether `out` holds the reports of `settled`, each as often as it
/// settled: none is lost and none is added.
pub open spec fn same_reports(out: Seq<SuiteReport>, settled: Seq<SuiteReport>) -> bool {
    out.to_multiset() == settled.to_multiset()
}

/// Lists that hold the same reports hold each other's reports.
pub proof fn lemma_same_reports(out: Seq<SuiteReport>, settled: Seq<SuiteReport>)
    requires
        same_reports(out, settled),
    ensures
        forall|i: int| 0 <= i < out.len() ==> settled.contains(#[trigger] out[i]),
        forall|i: int| 0 <= i < settled.len() ==> out.contains(#[trigger] settled[i]),
        out.len() == settled.len(),
{
    assert forall|i: int| 0 <= i < out.len() implies settled.contains(#[trigger] out[i]) by {
        assert(out.contains(out[i]));
        vstd::seq_lib::to_multiset_contains(out, out[i]);
        vstd::seq_lib::to_multiset_contains(settled, out[i]);
    }
    assert forall|i: int| 0 <= i < settled.len() implies out.contains(#[trigger] settled[i]) by {
        assert(settled.contains(settled[i]));
        vstd::seq_lib::to_multiset_contains(settled, settled[i]);
        vstd::seq_lib::to_multiset_contains(out, settled[i]);
    }
    vstd::seq_lib::to_multiset_len(out);
    vstd::seq_lib::to_multiset_len(settled);
}

/// The reports that a run gives when its suites settle in the order of
/// `settled`, and whether the run stopped. The report of every suite that
/// settled is there, also of those that settled after the run had stopped;
/// a suite that never settled has none. Where the suites ran side by side,
/// the reports come in the order of their files.
pub fn collect_reports(settled: Vec<SuiteReport>, fail_fast: bool, parallel: bool) -> (r: (
    Vec<SuiteReport>,
    bool,
))
    ensures
        !parallel ==> r.0@ == settled@,
        parallel ==> sorted(r.0@),
        same_reports(r.0@, settled@),
        r.1 == run_stops(settled@, fail_fast),
{
    let ghost all = settled@;
    let mut rest = reversed(settled);
    let mut progress = RunProgress::new();
    let ghost mut n: int = 0;
    proof {
        assert(all.take(0) =~= Seq::<SuiteReport>::empty());
        assert(progress.reports@ =~= all.take(0));
    }
    while rest.len() > 0
        invariant
            0 <= n <= all.len(),
            rest@.len() == all.len() - n,
            rest@ == all.reverse().take(all.len() - n),
            progress.reports@ == all.take(n),
            progress.stopped == run_stops(all.take(n), fail_fast),
        decreases rest.len(),
    {
        let ghost before = rest@;
        let report = rest.pop().unwrap();
        proof {
            assert(report == before[before.len() - 1]);
            assert(report == all[n]);
            assert(rest@ =~= all.reverse().take(all.len() - n - 1));
            let next = all.take(n + 1);
            assert(next =~= all.take(n).push(all[n]));
            if run_stops(all.take(n), fail_fast) {
                let i = choose|i: int|
                    0 <= i < all.take(n).len() && (#[trigger] all.take(n)[i]).cases_failed > 0;
                assert(next[i].cases_failed > 0);
            }
            if fail_fast && all[n].cases_failed > 0 {
                assert(next[n].cases_failed > 0);
            }
            if run_stops(next, fail_fast) {
                let i = choose|i: int| 0 <= i < next.len() && (#[trigger] next[i]).cases_failed > 0;
                if i < n {
                    assert(all.take(n)[i].cases_failed > 0);
                }
            }
        }
        progress.settle(report, fail_fast);
        proof {
            n = n + 1;
        }
    }
    proof {
        assert(all.take(all.len() as int) =~= all);
    }
    let stopped = progress.stopped;
    let out = progress.finish(parallel);
    (out, stopped)
}

/// The statement that drops the database of a suite when it is over.
pub open spec fn cleanup_text(database: Seq<char>) -> Seq<char> {
    "REMOVE DATABASE "@ + database + ";"@
}

/// What is done about the database of a suite when it is over: nothing
/// where it is to be kept, else the statement that drops it.
pub fn cleanup_suite_db(opts: &TestOpts, database: &str) -> (r: Option<String>)
    ensures
        match r {
            Some(sql) => !opts.keep_db && sql@ == cleanup_text(database@),
            None => opts.keep_db,
        },
{
    if opts.keep_db {
        None
    } else {
        Some(concat3("REMOVE DATABASE ", database, ";"))
    }
}

/// What is said when the database of a suite could not be dropped. The
/// suite does not fail for it.
pub fn cleanup_warning(namespace: &str, database: &str, error: &str) -> (out: String)
    ensures
        out@ == "warning: failed to clean up test db "@ + namespace@ + "/"@ + database@ + ": "@
            + error@,
{
    crate::text::concat6(
        "warning: failed to clean up test db ",
        namespace,
        "/",
        database,
        ": ",
        error,
    )
}

/// All that a run works with.
#[derive(Debug, Clone)]
pub struct RunnerContext {
    pub cfg: DbCfg,
    pub opts: TestOpts,
    pub global: crate::tester::types::GlobalTestConfig,
    pub base_url: Option<String>,
    pub timeout_ms: u64,
    pub run_id: String,
}

impl RunnerContext {
    /// The context of a run that began `started_nanos` nanoseconds after
    /// the epoch; its identifier is that number.
    pub fn new(
        cfg: DbCfg,
        opts: TestOpts,
        global: crate::tester::types::GlobalTestConfig,
        base_url: Option<String>,
        timeout_ms: u64,
        started_nanos: u128,
    ) -> (ctx: RunnerContext)
        ensures
            ctx.cfg == cfg,
            ctx.opts == opts,
            ctx.global == global,
            ctx.base_url == base_url,
            ctx.timeout_ms == timeout_ms,
            ctx.run_id@ == decimal(started_nanos as nat),
    {
        RunnerContext {
            cfg,
            opts,
            global,
            base_url,
            timeout_ms,
            run_id: unique_run_id(started_nanos),
        }
    }

    /// Whether the suites run side by side: they do where more than one
    /// may run at a time.
    pub fn is_parallel(&self) -> (r: bool)
        ensures
            r == (self.opts.parallel > 1),
    {
        self.opts.parallel > 1
    }

    /// How many suites may run at a time: what was asked for, but one at least.
    pub fn limit(&self) -> (n: usize)
        ensures
            n == if self.opts.parallel < 1 {
                1
            } else {
                self.opts.parallel
            },
    {
        if self.opts.parallel < 1 {
            1
        } else {
            self.opts.parallel
        }
    }

    /// The report of the run from the reports of the suites that settled,
    /// in the order in which they settled. Every suite that settled is in
    /// it, and no other.
    pub fn run(
        &self,
        settled: Vec<SuiteReport>,
        started_at: String,
        finished_at: String,
        duration_ms: u128,
    ) -> (r: RunReport)
        ensures
            r.started_at == started_at,
            r.finished_at == finished_at,
            r.duration_ms == duration_ms,
            !(self.opts.parallel > 1) ==> r.suites@ == settled@,
            self.opts.parallel > 1 ==> sorted(r.suites@),
            same_reports(r.suites@, settled@),
            run_totals_hold(r),
    {
        let (suites, _stopped) = collect_reports(
            settled,
            self.opts.fail_fast,
            self.is_parallel(),
        );
        run_report(started_at, finished_at, duration_ms, suites)
    }
}

/// A statement that was to fail passes exactly when it failed with an
/// error that holds every part asked for: it does not pass where it ran,
/// nor where its error lacks a part.
pub proof fn lemma_denied_passes_iff(
    label: Seq<char>,
    outcome: Result<Json, Seq<char>>,
    contains: Option<Seq<char>>,
    code: Option<Seq<char>>,
)
    ensures
        outcome_verdict(label, outcome, false, contains, code).passed <==> outcome is Err
            && error_matches(outcome->Err_0, contains, code),
{
}

/// A case about a statement that was to fail passes exactly when the
/// statement failed with an error that holds every part asked for.
pub proof fn lemma_denied_case_passes_iff(
    name: Seq<char>,
    kind: Seq<char>,
    outcome: Result<Json, Seq<char>>,
    contains: Option<Seq<char>>,
    code: Option<Seq<char>>,
    specs: Seq<JsonAssertionSpec>,
)
    ensures
        sql_expect_report(name, kind, outcome, false, contains, code, specs) is Ok,
        sql_expect_report(name, kind, outcome, false, contains, code, specs)->Ok_0.passed
            <==> outcome is Err && error_matches(outcome->Err_0, contains, code),
{
}

} // verus!
