//! The settings of a test run that more than one place may give, and what
//! a run comes to.

use vstd::prelude::*;
use vstd::string::*;

use crate::config::{env_lookup, env_value, EnvVar};
use crate::error::{error_of, ErrorKind, KitError};
use crate::tester::types::{GlobalTestConfig, LoadedSuite, RunReport, TestOpts};
use crate::text::{
    chars_of, chars_start_with, concat2, decimal, decimal_string, has_prefix, owned,
    parse_number, parse_u64, string_of_range,
};

verus! {

/// A base URL with the scheme of the web in place of that of the socket:
/// `ws://` becomes `http://`, `wss://` becomes `https://`.
pub open spec fn normalized_url(raw: Seq<char>) -> Seq<char> {
    if has_prefix(raw, "ws://"@) {
        "http://"@ + raw.skip("ws://"@.len() as int)
    } else if has_prefix(raw, "wss://"@) {
        "https://"@ + raw.skip("wss://"@.len() as int)
    } else {
        raw
    }
}

fn rest_after(v: &Vec<char>, prefix: &str) -> (r: Option<String>)
    ensures
        match r {
            Some(rest) => has_prefix(v@, prefix@) && rest@ == v@.skip(prefix@.len() as int),
            None => !has_prefix(v@, prefix@),
        },
{
    let p = chars_of(prefix);
    assert(v@.skip(0) =~= v@);
    if chars_start_with(v, 0, &p) {
        let rest = string_of_range(v, p.len(), v.len());
        assert(v@.subrange(p.len() as int, v.len() as int) =~= v@.skip(p.len() as int));
        Some(rest)
    } else {
        None
    }
}

pub fn normalize_base_url(raw: String) -> (out: String)
    ensures
        out@ == normalized_url(raw@),
{
    let v = chars_of(raw.as_str());
    if let Some(rest) = rest_after(&v, "ws://") {
        return concat2("http://", rest.as_str());
    }
    if let Some(rest) = rest_after(&v, "wss://") {
        return concat2("https://", rest.as_str());
    }
    raw
}

pub open spec fn first_of(a: Option<Seq<char>>, b: Option<Seq<char>>) -> Option<Seq<char>> {
    if a is Some {
        a
    } else {
        b
    }
}

pub open spec fn opt_text(o: Option<String>) -> Option<Seq<char>> {
    match o {
        Some(s) => Some(s@),
        None => None,
    }
}

/// The base URL of a run: that of the options, else that of the global
/// defaults, else that of the environment for tests, else the address of
/// the database; normalized.
pub open spec fn base_url_of(opts: TestOpts, global: GlobalTestConfig, env: Seq<EnvVar>) -> Option<
    Seq<char>,
> {
    let found = first_of(
        opt_text(opts.base_url),
        first_of(
            opt_text(global.defaults.base_url),
            first_of(
                env_value(env, "SURREALKIT_TEST_BASE_URL"@),
                env_value(env, "PUBLIC_DATABASE_HOST"@),
            ),
        ),
    );
    match found {
        Some(raw) => Some(normalized_url(raw)),
        None => None,
    }
}

pub fn resolve_base_url(opts: &TestOpts, global: &GlobalTestConfig, env: &Vec<EnvVar>) -> (r:
    Option<String>)
    ensures
        opt_text(r) == base_url_of(*opts, *global, env@),
{
    let raw = if let Some(u) = &opts.base_url {
        u.clone()
    } else if let Some(u) = &global.defaults.base_url {
        u.clone()
    } else if let Some(u) = env_lookup(env, "SURREALKIT_TEST_BASE_URL") {
        u.clone()
    } else if let Some(u) = env_lookup(env, "PUBLIC_DATABASE_HOST") {
        u.clone()
    } else {
        return None;
    };
    Some(normalize_base_url(raw))
}

/// The time limit of a request in a run, in milliseconds: that of the
/// options, else that of the global defaults, else that of the environment
/// where it spells a number, else ten seconds.
pub open spec fn timeout_of(opts: TestOpts, global: GlobalTestConfig, env: Seq<EnvVar>) -> nat {
    if opts.timeout_ms is Some {
        opts.timeout_ms->0 as nat
    } else if global.defaults.timeout_ms is Some {
        global.defaults.timeout_ms->0 as nat
    } else {
        match env_value(env, "SURREALKIT_TEST_TIMEOUT_MS"@) {
            Some(raw) => match parse_number(raw) {
                Some(n) => n,
                None => 10_000,
            },
            None => 10_000,
        }
    }
}

pub fn resolve_timeout_ms(opts: &TestOpts, global: &GlobalTestConfig, env: &Vec<EnvVar>) -> (r:
    u64)
    ensures
        r == timeout_of(*opts, *global, env@),
{
    if let Some(t) = opts.timeout_ms {
        return t;
    }
    if let Some(t) = global.defaults.timeout_ms {
        return t;
    }
    if let Some(raw) = env_lookup(env, "SURREALKIT_TEST_TIMEOUT_MS") {
        if let Some(n) = parse_u64(raw.as_str()) {
            return n;
        }
    }
    10_000
}

/// Whether anything is left to run: a filter that leaves no suite is an error.
pub fn check_selection(suites: &Vec<LoadedSuite>) -> (r: Result<(), KitError>)
    ensures
        suites@.len() > 0 ==> r is Ok,
        suites@.len() == 0 ==> r is Err && r->Err_0@ == error_of(
            ErrorKind::Configuration,
            "No suites matched the selected filters"@,
        ),
{
    if suites.len() == 0 {
        Err(
            KitError::new(
                ErrorKind::Configuration,
                owned("No suites matched the selected filters"),
            ),
        )
    } else {
        Ok(())
    }
}

/// What a run comes to: an error that counts the failed cases where
/// there are any.
pub fn run_verdict(report: &RunReport) -> (r: Result<(), KitError>)
    ensures
        report.cases_failed == 0 ==> r is Ok,
        report.cases_failed > 0 ==> r is Err && r->Err_0@ == error_of(
            ErrorKind::Execution,
            decimal(report.cases_failed as nat) + " test cases failed"@,
        ),
{
    if report.cases_failed > 0 {
        let count = decimal_string(report.cases_failed as u128);
        Err(KitError::new(ErrorKind::Execution, concat2(count.as_str(), " test cases failed")))
    } else {
        Ok(())
    }
}

} // verus!
