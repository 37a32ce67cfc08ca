//! The report of a run for the operator: the totals, a line for each
//! suite, and the detail of what failed.

use vstd::prelude::*;
use vstd::string::*;

use crate::json::{
    items_view, lemma_items_view, lemma_members_view, members_view, Json, JsonMember, JsonValue,
};
use crate::tester::types::{AssertionReport, CaseReport, RunReport, SuiteReport};
use crate::text::{
    concat2, concat4, concat5, concat6, concat7, decimal, decimal_string, owned, views,
};

verus! {

/// The lines about the assertions of a case: one for each that failed.
pub open spec fn assertion_lines(assertions: Seq<AssertionReport>) -> Seq<Seq<char>>
    decreases assertions.len(),
{
    if assertions.len() == 0 {
        Seq::empty()
    } else {
        let a = assertions.last();
        let before = assertion_lines(assertions.drop_last());
        if a.passed {
            before
        } else {
            before.push("    - "@ + a.name@ + ": "@ + a.message@)
        }
    }
}

pub open spec fn failure_text(case: CaseReport) -> Seq<char> {
    match case.message {
        Some(m) => m@,
        None => "unknown failure"@,
    }
}

/// The lines about the cases of a suite: for each case that failed, one
/// that names it and says why, then those about its assertions.
pub open spec fn case_lines(cases: Seq<CaseReport>) -> Seq<Seq<char>>
    decreases cases.len(),
{
    if cases.len() == 0 {
        Seq::empty()
    } else {
        let c = cases.last();
        let before = case_lines(cases.drop_last());
        if c.passed {
            before
        } else {
            before.push("  FAIL "@ + c.name@ + " ("@ + c.kind@ + ") "@ + failure_text(c))
                + assertion_lines(c.assertions@)
        }
    }
}

pub open spec fn suite_line(s: SuiteReport) -> Seq<char> {
    "suite "@ + s.suite_name@ + " ["@ + s.namespace@ + " / "@ + s.database@ + "]: "@ + decimal(
        s.cases_passed as nat,
    ) + " passed, "@ + decimal(s.cases_failed as nat) + " failed"@
}

/// The lines about the suites of a run: for each suite its line, then
/// those about its cases.
pub open spec fn suite_lines(suites: Seq<SuiteReport>) -> Seq<Seq<char>>
    decreases suites.len(),
{
    if suites.len() == 0 {
        Seq::empty()
    } else {
        let s = suites.last();
        suite_lines(suites.drop_last()).push(suite_line(s)) + case_lines(s.cases@)
    }
}

/// The report of a run, line by line.
pub open spec fn report_lines(report: RunReport) -> Seq<Seq<char>> {
    seq![
        "Test run summary:"@,
        "  suites: "@ + decimal(report.suites_total as nat) + " total, "@ + decimal(
            report.suites_failed as nat,
        ) + " failed"@,
        "  cases: "@ + decimal(report.cases_total as nat) + " total, "@ + decimal(
            report.cases_passed as nat,
        ) + " passed, "@ + decimal(report.cases_failed as nat) + " failed"@,
        "  duration_ms: "@ + decimal(report.duration_ms as nat),
    ] + suite_lines(report.suites@)
}

fn push_line(out: &mut Vec<String>, line: String)
    ensures
        views(final(out)@) == views(old(out)@).push(line@),
{
    let ghost before = views(out@);
    out.push(line);
    assert(views(out@) =~= before.push(line@));
}

fn push_assertions(out: &mut Vec<String>, assertions: &Vec<AssertionReport>)
    ensures
        views(final(out)@) == views(old(out)@) + assertion_lines(assertions@),
{
    let mut i: usize = 0;
    proof {
        assert(assertions@.take(0) =~= Seq::<AssertionReport>::empty());
        assert(views(out@) + Seq::<Seq<char>>::empty() =~= views(out@));
    }
    while i < assertions.len()
        invariant
            i <= assertions.len(),
            views(out@) == views(old(out)@) + assertion_lines(assertions@.take(i as int)),
        decreases assertions.len() - i,
    {
        proof {
            let next = assertions@.take(i + 1);
            assert(next.drop_last() =~= assertions@.take(i as int));
            assert(next.last() == assertions@[i as int]);
        }
        let a = &assertions[i];
        if !a.passed {
            let ghost before = assertion_lines(assertions@.take(i as int));
            let line = concat4("    - ", a.name.as_str(), ": ", a.message.as_str());
            push_line(out, line);
            assert((views(old(out)@) + before).push(line@) =~= views(old(out)@) + before.push(
                line@,
            ));
        }
        i += 1;
    }
    assert(assertions@.take(assertions.len() as int) =~= assertions@);
}

fn push_cases(out: &mut Vec<String>, cases: &Vec<CaseReport>)
    ensures
        views(final(out)@) == views(old(out)@) + case_lines(cases@),
{
    let mut i: usize = 0;
    proof {
        assert(cases@.take(0) =~= Seq::<CaseReport>::empty());
        assert(views(out@) + Seq::<Seq<char>>::empty() =~= views(out@));
    }
    while i < cases.len()
        invariant
            i <= cases.len(),
            views(out@) == views(old(out)@) + case_lines(cases@.take(i as int)),
        decreases cases.len() - i,
    {
        proof {
            let next = cases@.take(i + 1);
            assert(next.drop_last() =~= cases@.take(i as int));
            assert(next.last() == cases@[i as int]);
        }
        let c = &cases[i];
        if !c.passed {
            let ghost before = case_lines(cases@.take(i as int));
            let why = match &c.message {
                Some(m) => m.as_str(),
                None => "unknown failure",
            };
            let line = concat6("  FAIL ", c.name.as_str(), " (", c.kind.as_str(), ") ", why);
            push_line(out, line);
            push_assertions(out, &c.assertions);
            assert((views(old(out)@) + before).push(line@) + assertion_lines(c.assertions@)
                =~= views(old(out)@) + (before.push(line@) + assertion_lines(c.assertions@)));
        }
        i += 1;
    }
    assert(cases@.take(cases.len() as int) =~= cases@);
}

fn line_of_suite(s: &SuiteReport) -> (out: String)
    ensures
        out@ == suite_line(*s),
{
    let passed = decimal_string(s.cases_passed as u128);
    let failed = decimal_string(s.cases_failed as u128);
    let mut out = concat7(
        "suite ",
        s.suite_name.as_str(),
        " [",
        s.namespace.as_str(),
        " / ",
        s.database.as_str(),
        "]: ",
    );
    out.append(passed.as_str());
    out.append(" passed, ");
    out.append(failed.as_str());
    out.append(" failed");
    out
}

/// Writes the report of a run for the operator. Cases that passed are
/// counted and not listed.
pub fn print_human_report(report: &RunReport) -> (out: Vec<String>)
    ensures
        views(out@) == report_lines(*report),
{
    let mut out: Vec<String> = Vec::new();
    assert(views(out@) =~= Seq::<Seq<char>>::empty());
    let suites_total = decimal_string(report.suites_total as u128);
    let suites_failed = decimal_string(report.suites_failed as u128);
    let cases_total = decimal_string(report.cases_total as u128);
    let cases_passed = decimal_string(report.cases_passed as u128);
    let cases_failed = decimal_string(report.cases_failed as u128);
    let duration = decimal_string(report.duration_ms);
    push_line(&mut out, owned("Test run summary:"));
    push_line(
        &mut out,
        concat5(
            "  suites: ",
            suites_total.as_str(),
            " total, ",
            suites_failed.as_str(),
            " failed",
        ),
    );
    push_line(
        &mut out,
        concat7(
            "  cases: ",
            cases_total.as_str(),
            " total, ",
            cases_passed.as_str(),
            " passed, ",
            cases_failed.as_str(),
            " failed",
        ),
    );
    push_line(&mut out, concat2("  duration_ms: ", duration.as_str()));
    let ghost head = views(out@);
    assert(head =~= seq![
        "Test run summary:"@,
        "  suites: "@ + decimal(report.suites_total as nat) + " total, "@ + decimal(
            report.suites_failed as nat,
        ) + " failed"@,
        "  cases: "@ + decimal(report.cases_total as nat) + " total, "@ + decimal(
            report.cases_passed as nat,
        ) + " passed, "@ + decimal(report.cases_failed as nat) + " failed"@,
        "  duration_ms: "@ + decimal(report.duration_ms as nat),
    ]);
    let mut i: usize = 0;
    proof {
        assert(report.suites@.take(0) =~= Seq::<SuiteReport>::empty());
        assert(head + Seq::<Seq<char>>::empty() =~= head);
    }
    while i < report.suites.len()
        invariant
            i <= report.suites.len(),
            views(out@) == head + suite_lines(report.suites@.take(i as int)),
        decreases report.suites.len() - i,
    {
        proof {
            let next = report.suites@.take(i + 1);
            assert(next.drop_last() =~= report.suites@.take(i as int));
            assert(next.last() == report.suites@[i as int]);
        }
        let s = &report.suites[i];
        let ghost before = suite_lines(report.suites@.take(i as int));
        let line = line_of_suite(s);
        push_line(&mut out, line);
        push_cases(&mut out, &s.cases);
        assert((head + before).push(line@) + case_lines(s.cases@) =~= head + (before.push(line@)
            + case_lines(s.cases@)));
        i += 1;
    }
    assert(report.suites@.take(report.suites.len() as int) =~= report.suites@);
    out
}

pub open spec fn text_doc(s: Seq<char>) -> Json {
    Json::Text(s)
}

pub open spec fn count_doc(n: nat) -> Json {
    Json::Number(decimal(n))
}

/// The document of the report of an assertion.
pub open spec fn assertion_doc(a: AssertionReport) -> Json {
    Json::Object(
        seq![
            ("name"@, text_doc(a.name@)),
            ("passed"@, Json::Bool(a.passed)),
            ("message"@, text_doc(a.message@)),
        ],
    )
}

/// The document of the report of a case; a case without a message has
/// `null` in its place.
pub open spec fn case_doc(c: CaseReport) -> Json {
    Json::Object(
        seq![
            ("name"@, text_doc(c.name@)),
            ("kind"@, text_doc(c.kind@)),
            ("duration_ms"@, count_doc(c.duration_ms as nat)),
            ("passed"@, Json::Bool(c.passed)),
            (
                "message"@,
                match c.message {
                    Some(m) => text_doc(m@),
                    None => Json::Null,
                },
            ),
            (
                "assertions"@,
                Json::Array(Seq::new(c.assertions@.len(), |i: int| assertion_doc(c.assertions@[i]))),
            ),
        ],
    )
}

/// The document of the report of a suite.
pub open spec fn suite_doc(s: SuiteReport) -> Json {
    Json::Object(
        seq![
            ("suite_file"@, text_doc(s.suite_file@)),
            ("suite_name"@, text_doc(s.suite_name@)),
            ("namespace"@, text_doc(s.namespace@)),
            ("database"@, text_doc(s.database@)),
            ("duration_ms"@, count_doc(s.duration_ms as nat)),
            ("cases_total"@, count_doc(s.cases_total as nat)),
            ("cases_passed"@, count_doc(s.cases_passed as nat)),
            ("cases_failed"@, count_doc(s.cases_failed as nat)),
            ("cases"@, Json::Array(Seq::new(s.cases@.len(), |i: int| case_doc(s.cases@[i])))),
        ],
    )
}

/// The document of the report of a run: every field under its name, in
/// the order of the fields, the suites with their cases and the cases with
/// their assertions nested in it.
pub open spec fn run_doc(r: RunReport) -> Json {
    Json::Object(
        seq![
            ("started_at"@, text_doc(r.started_at@)),
            ("finished_at"@, text_doc(r.finished_at@)),
            ("duration_ms"@, count_doc(r.duration_ms as nat)),
            ("suites_total"@, count_doc(r.suites_total as nat)),
            ("suites_failed"@, count_doc(r.suites_failed as nat)),
            ("cases_total"@, count_doc(r.cases_total as nat)),
            ("cases_passed"@, count_doc(r.cases_passed as nat)),
            ("cases_failed"@, count_doc(r.cases_failed as nat)),
            ("suites"@, Json::Array(Seq::new(r.suites@.len(), |i: int| suite_doc(r.suites@[i])))),
        ],
    )
}

fn text_member(key: &str, s: &str) -> (m: JsonMember)
    ensures
        m.key@ == key@,
        m.value@ == text_doc(s@),
{
    JsonMember { key: owned(key), value: JsonValue::Text(owned(s)) }
}

fn count_member(key: &str, n: u128) -> (m: JsonMember)
    ensures
        m.key@ == key@,
        m.value@ == count_doc(n as nat),
{
    JsonMember { key: owned(key), value: JsonValue::Number(decimal_string(n)) }
}

fn bool_member(key: &str, b: bool) -> (m: JsonMember)
    ensures
        m.key@ == key@,
        m.value@ == Json::Bool(b),
{
    JsonMember { key: owned(key), value: JsonValue::Bool(b) }
}

fn array_member(key: &str, items: Vec<JsonValue>) -> (m: JsonMember)
    ensures
        m.key@ == key@,
        m.value@ == Json::Array(items_view(items@)),
{
    JsonMember { key: owned(key), value: JsonValue::Array(items) }
}

fn assertion_document(a: &AssertionReport) -> (v: JsonValue)
    ensures
        v@ == assertion_doc(*a),
{
    let mut members: Vec<JsonMember> = Vec::new();
    members.push(text_member("name", a.name.as_str()));
    members.push(bool_member("passed", a.passed));
    members.push(text_member("message", a.message.as_str()));
    proof {
        lemma_members_view(members@);
        assert(members_view(members@) =~= seq![
            ("name"@, text_doc(a.name@)),
            ("passed"@, Json::Bool(a.passed)),
            ("message"@, text_doc(a.message@)),
        ]);
    }
    JsonValue::Object(members)
}

fn case_document(c: &CaseReport) -> (v: JsonValue)
    ensures
        v@ == case_doc(*c),
{
    let mut items: Vec<JsonValue> = Vec::new();
    let mut i: usize = 0;
    while i < c.assertions.len()
        invariant
            i <= c.assertions.len(),
            items@.len() == i,
            forall|j: int| 0 <= j < i ==> (#[trigger] items@[j])@ == assertion_doc(c.assertions@[j]),
        decreases c.assertions.len() - i,
    {
        items.push(assertion_document(&c.assertions[i]));
        i += 1;
    }
    proof {
        lemma_items_view(items@);
        assert(items_view(items@) =~= Seq::new(
            c.assertions@.len(),
            |i: int| assertion_doc(c.assertions@[i]),
        ));
    }
    let mut members: Vec<JsonMember> = Vec::new();
    members.push(text_member("name", c.name.as_str()));
    members.push(text_member("kind", c.kind.as_str()));
    members.push(count_member("duration_ms", c.duration_ms));
    members.push(bool_member("passed", c.passed));
    members.push(
        match &c.message {
            Some(m) => text_member("message", m.as_str()),
            None => JsonMember { key: owned("message"), value: JsonValue::Null },
        },
    );
    members.push(array_member("assertions", items));
    proof {
        lemma_members_view(members@);
        assert(members_view(members@) =~= case_doc(*c)->Object_0);
    }
    JsonValue::Object(members)
}

fn suite_document(s: &SuiteReport) -> (v: JsonValue)
    ensures
        v@ == suite_doc(*s),
{
    let mut items: Vec<JsonValue> = Vec::new();
    let mut i: usize = 0;
    while i < s.cases.len()
        invariant
            i <= s.cases.len(),
            items@.len() == i,
            forall|j: int| 0 <= j < i ==> (#[trigger] items@[j])@ == case_doc(s.cases@[j]),
        decreases s.cases.len() - i,
    {
        items.push(case_document(&s.cases[i]));
        i += 1;
    }
    proof {
        lemma_items_view(items@);
        assert(items_view(items@) =~= Seq::new(s.cases@.len(), |i: int| case_doc(s.cases@[i])));
    }
    let mut members: Vec<JsonMember> = Vec::new();
    members.push(text_member("suite_file", s.suite_file.as_str()));
    members.push(text_member("suite_name", s.suite_name.as_str()));
    members.push(text_member("namespace", s.namespace.as_str()));
    members.push(text_member("database", s.database.as_str()));
    members.push(count_member("duration_ms", s.duration_ms));
    members.push(count_member("cases_total", s.cases_total as u128));
    members.push(count_member("cases_passed", s.cases_passed as u128));
    members.push(count_member("cases_failed", s.cases_failed as u128));
    members.push(array_member("cases", items));
    proof {
        lemma_members_view(members@);
        assert(members_view(members@) =~= suite_doc(*s)->Object_0);
    }
    JsonValue::Object(members)
}

/// The document of the report of a run.
pub fn report_document(r: &RunReport) -> (v: JsonValue)
    ensures
        v@ == run_doc(*r),
{
    let mut items: Vec<JsonValue> = Vec::new();
    let mut i: usize = 0;
    while i < r.suites.len()
        invariant
            i <= r.suites.len(),
            items@.len() == i,
            forall|j: int| 0 <= j < i ==> (#[trigger] items@[j])@ == suite_doc(r.suites@[j]),
        decreases r.suites.len() - i,
    {
        items.push(suite_document(&r.suites[i]));
        i += 1;
    }
    proof {
        lemma_items_view(items@);
        assert(items_view(items@) =~= Seq::new(r.suites@.len(), |i: int| suite_doc(r.suites@[i])));
    }
    let mut members: Vec<JsonMember> = Vec::new();
    members.push(text_member("started_at", r.started_at.as_str()));
    members.push(text_member("finished_at", r.finished_at.as_str()));
    members.push(count_member("duration_ms", r.duration_ms));
    members.push(count_member("suites_total", r.suites_total as u128));
    members.push(count_member("suites_failed", r.suites_failed as u128));
    members.push(count_member("cases_total", r.cases_total as u128));
    members.push(count_member("cases_passed", r.cases_passed as u128));
    members.push(count_member("cases_failed", r.cases_failed as u128));
    members.push(array_member("suites", items));
    proof {
        lemma_members_view(members@);
        assert(members_view(members@) =~= run_doc(*r)->Object_0);
    }
    JsonValue::Object(members)
}

/// The report of a run as compact JSON.
pub fn write_json_report(r: &RunReport) -> (out: String)
    ensures
        out@ == crate::json::json_text(run_doc(*r)),
{
    report_document(r).to_text()
}

} // verus!
