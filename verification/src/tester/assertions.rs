//! The assertion language: a path into a JSON document or a header by name,
//! then existence, equality, a substring and a regular expression.

use vstd::prelude::*;
use vstd::string::*;

use crate::error::{ErrorKind, KitError, KitErrorView};
use crate::json::{find_member, json_text, Json, JsonValue};
use crate::pattern::{regex_search, search, search_view};
use crate::tester::types::{
    AssertionReport, AssertionView, Header, HeaderAssertionSpec, JsonAssertionSpec,
};
use crate::text::{bool_string, bool_text, chars_of, concat2, concat3, concat6, concat7, decimal, decimal_string, has_sub, is_blank, lower_seq, parse_index, parse_usize, pieces, same_ignoring_case, split_on, str_contains, str_eq, str_eq_ignore_case, str_is_blank, str_lower, views};

verus! {

/// What one segment of a path leads to: a numeral picks an item of an array,
/// anything else a member of an object.
pub open spec fn step_into(v: Json, seg: Seq<char>) -> Option<Json> {
    match parse_index(seg) {
        Some(n) => match v {
            Json::Array(items) => if n < items.len() {
                Some(items[n as int])
            } else {
                None
            },
            _ => None,
        },
        None => match v {
            Json::Object(members) => find_member(members, seg),
            _ => None,
        },
    }
}

/// What the segments lead to, one after the other; empty segments are passed over.
pub open spec fn walk(v: Json, segs: Seq<Seq<char>>) -> Option<Json>
    decreases segs.len(),
{
    if segs.len() == 0 {
        Some(v)
    } else if segs[0].len() == 0 {
        walk(v, segs.drop_first())
    } else {
        match step_into(v, segs[0]) {
            Some(c) => walk(c, segs.drop_first()),
            None => None,
        }
    }
}

/// What a dot-separated path leads to in a document; a blank path leads to
/// the document itself.
pub open spec fn lookup(v: Json, path: Seq<char>) -> Option<Json> {
    if is_blank(path) {
        Some(v)
    } else {
        walk(v, pieces(path, '.'))
    }
}

/// The text that substring and pattern checks read: a string's bare content,
/// the compact text of anything else.
pub open spec fn value_text(v: Json) -> Seq<char> {
    match v {
        Json::Text(s) => s,
        _ => json_text(v),
    }
}

pub fn value_to_text(value: &JsonValue) -> (out: String)
    ensures
        out@ == value_text(value@),
{
    match value {
        JsonValue::Text(s) => s.clone(),
        _ => value.to_text(),
    }
}

/// Follows `path` into `value`. A path that meets a value of the wrong shape,
/// an absent key or an index out of bounds leads nowhere.
pub fn lookup_path<'a>(value: &'a JsonValue, path: &str) -> (r: Option<&'a JsonValue>)
    ensures
        match r {
            Some(x) => lookup(value@, path@) == Some(x@),
            None => lookup(value@, path@) is None,
        },
{
    if str_is_blank(path) {
        return Some(value);
    }
    let segs = split_on(path, '.');
    let ghost all = views(segs@);
    let mut cursor = value;
    let mut i: usize = 0;
    proof {
        assert(all.skip(0) =~= all);
    }
    while i < segs.len()
        invariant
            i <= segs.len(),
            all == views(segs@),
            lookup(value@, path@) == walk(cursor@, all.skip(i as int)),
        decreases segs.len() - i,
    {
        let ghost rest = all.skip(i as int);
        assert(rest[0] == segs@[i as int]@);
        assert(rest.drop_first() =~= all.skip(i + 1));
        let seg = chars_of(segs[i].as_str());
        if seg.len() > 0 {
            let next = match parse_usize(&seg) {
                Some(index) => cursor.item(index),
                None => cursor.member(segs[i].as_str()),
            };
            match next {
                Some(x) => {
                    cursor = x;
                },
                None => {
                    return None;
                },
            }
        }
        i += 1;
    }
    Some(cursor)
}

pub open spec fn report_of(name: Seq<char>, passed: bool, message: Seq<char>) -> AssertionView {
    AssertionView { name, passed, message }
}

pub open spec fn json_label(index: nat) -> Seq<char> {
    "json_assertion_"@ + decimal(index + 1)
}

pub open spec fn header_label(index: nat) -> Seq<char> {
    "header_assertion_"@ + decimal(index + 1)
}

/// The verdict on one JSON assertion, given in `matched` what the search for
/// its pattern in the text of the value gave. `matched` is read only where
/// the path leads to a value and the assertion has a pattern.
///
/// Every check that the assertion gives must hold. Where the path leads
/// nowhere, a check on the value cannot hold, so the assertion passes only if
/// it gives none.
pub open spec fn json_verdict_with(
    actual: Json,
    a: JsonAssertionSpec,
    index: nat,
    matched: Result<bool, Seq<char>>,
) -> Result<AssertionView, KitErrorView> {
    let found = lookup(actual, a.path@);
    let label = json_label(index);
    if a.exists is Some && a.exists->0 != (found is Some) {
        Ok(
            report_of(
                label,
                false,
                "path '"@ + a.path@ + "' existence mismatch: expected "@ + bool_text(a.exists->0)
                    + " got "@ + bool_text(found is Some),
            ),
        )
    } else if found is None {
        Ok(
            report_of(
                label,
                a.equals is None && a.contains is None && a.regex is None,
                "path '"@ + a.path@ + "' not found"@,
            ),
        )
    } else {
        let value = found->0;
        let text = value_text(value);
        if a.equals is Some && value != a.equals->0@ {
            Ok(
                report_of(
                    label,
                    false,
                    "path '"@ + a.path@ + "' expected "@ + json_text(a.equals->0@) + ", got "@
                        + json_text(value),
                ),
            )
        } else if a.contains is Some && !has_sub(text, a.contains->0@) {
            Ok(
                report_of(
                    label,
                    false,
                    "path '"@ + a.path@ + "' missing substring '"@ + a.contains->0@ + "' in '"@
                        + text + "'"@,
                ),
            )
        } else if a.regex is Some {
            match matched {
                Err(reason) => Err(
                    KitErrorView {
                        kind: ErrorKind::Configuration,
                        message: "invalid regex '"@ + a.regex->0@ + "' for path '"@ + a.path@
                            + "': "@ + reason,
                    },
                ),
                Ok(false) => Ok(
                    report_of(
                        label,
                        false,
                        "path '"@ + a.path@ + "' regex '"@ + a.regex->0@ + "' did not match '"@
                            + text + "'"@,
                    ),
                ),
                Ok(true) => Ok(
                    report_of(label, true, "path '"@ + a.path@ + "' assertion passed"@),
                ),
            }
        } else {
            Ok(report_of(label, true, "path '"@ + a.path@ + "' assertion passed"@))
        }
    }
}

/// What the search for the assertion's pattern gives on the value that its
/// path leads to.
pub open spec fn json_search(actual: Json, a: JsonAssertionSpec) -> Result<bool, Seq<char>> {
    let found = lookup(actual, a.path@);
    if found is Some && a.regex is Some {
        regex_search(a.regex->0@, value_text(found->0))
    } else {
        Ok(true)
    }
}

/// The verdict on one JSON assertion.
pub open spec fn json_verdict(actual: Json, a: JsonAssertionSpec, index: nat) -> Result<
    AssertionView,
    KitErrorView,
> {
    json_verdict_with(actual, a, index, json_search(actual, a))
}

pub open spec fn verdict_view(r: Result<AssertionReport, KitError>) -> Result<
    AssertionView,
    KitErrorView,
> {
    match r {
        Ok(x) => Ok(x@),
        Err(e) => Err(e@),
    }
}

fn report(name: String, passed: bool, message: String) -> (r: Result<AssertionReport, KitError>)
    ensures
        verdict_view(r) == Ok::<AssertionView, KitErrorView>(
            report_of(name@, passed, message@),
        ),
{
    Ok(AssertionReport { name, passed, message })
}

/// Judges one JSON assertion against `actual`, given the outcome of the
/// pattern search. The checks are made in the order existence, equality,
/// substring, pattern, and the first that fails decides.
pub fn judge_json_value(
    actual: &JsonValue,
    assertion: &JsonAssertionSpec,
    index: usize,
    matched: Result<bool, String>,
) -> (r: Result<AssertionReport, KitError>)
    ensures
        verdict_view(r) == json_verdict_with(
            actual@,
            *assertion,
            index as nat,
            search_view(matched),
        ),
{
    let number = decimal_string(index as u128 + 1);
    let label = concat2("json_assertion_", number.as_str());
    let path = assertion.path.as_str();
    let found = lookup_path(actual, path);
    let exists = found.is_some();
    if let Some(expected_exists) = assertion.exists {
        if expected_exists != exists {
            return report(
                label,
                false,
                concat6(
                    "path '",
                    path,
                    "' existence mismatch: expected ",
                    bool_string(expected_exists),
                    " got ",
                    bool_string(exists),
                ),
            );
        }
    }
    let value = match found {
        Some(v) => v,
        None => {
            let nothing_asked = assertion.equals.is_none() && assertion.contains.is_none()
                && assertion.regex.is_none();
            return report(label, nothing_asked, concat3("path '", path, "' not found"));
        },
    };
    if let Some(expected) = &assertion.equals {
        if !crate::json::json_eq(value, expected) {
            let want = expected.to_text();
            let got = value.to_text();
            return report(
                label,
                false,
                concat6("path '", path, "' expected ", want.as_str(), ", got ", got.as_str()),
            );
        }
    }
    let text = value_to_text(value);
    if let Some(substring) = &assertion.contains {
        if !str_contains(text.as_str(), substring.as_str()) {
            return report(
                label,
                false,
                concat7(
                    "path '",
                    path,
                    "' missing substring '",
                    substring.as_str(),
                    "' in '",
                    text.as_str(),
                    "'",
                ),
            );
        }
    }
    if let Some(pattern) = &assertion.regex {
        match matched {
            Err(reason) => {
                return Err(
                    KitError::new(
                        ErrorKind::Configuration,
                        concat6(
                            "invalid regex '",
                            pattern.as_str(),
                            "' for path '",
                            path,
                            "': ",
                            reason.as_str(),
                        ),
                    ),
                );
            },
            Ok(hit) => {
                if !hit {
                    return report(
                        label,
                        false,
                        concat7(
                            "path '",
                            path,
                            "' regex '",
                            pattern.as_str(),
                            "' did not match '",
                            text.as_str(),
                            "'",
                        ),
                    );
                }
            },
        }
    }
    report(label, true, concat3("path '", path, "' assertion passed"))
}

/// Judges one JSON assertion against `actual`.
pub fn assert_json_value(actual: &JsonValue, assertion: &JsonAssertionSpec, index: usize) -> (r:
    Result<AssertionReport, KitError>)
    ensures
        verdict_view(r) == json_verdict(actual@, *assertion, index as nat),
{
    let matched = match (lookup_path(actual, assertion.path.as_str()), &assertion.regex) {
        (Some(value), Some(pattern)) => {
            let text = value_to_text(value);
            search(pattern.as_str(), text.as_str())
        },
        _ => Ok(true),
    };
    judge_json_value(actual, assertion, index, matched)
}

/// The value of the first header whose name is `name` up to ASCII case.
pub open spec fn find_header(headers: Seq<Header>, name: Seq<char>) -> Option<Seq<char>>
    decreases headers.len(),
{
    if headers.len() == 0 {
        None
    } else if same_ignoring_case(headers[0].name@, name) {
        Some(headers[0].value@)
    } else {
        find_header(headers.drop_first(), name)
    }
}

/// Finds a header by name, whatever the case of its letters.
pub fn header_value<'a>(headers: &'a Vec<Header>, name: &str) -> (r: Option<&'a String>)
    ensures
        match r {
            Some(v) => find_header(headers@, name@) == Some(v@),
            None => find_header(headers@, name@) is None,
        },
{
    let mut i: usize = 0;
    proof {
        assert(headers@.skip(0) =~= headers@);
    }
    while i < headers.len()
        invariant
            i <= headers.len(),
            find_header(headers@, name@) == find_header(headers@.skip(i as int), name@),
        decreases headers.len() - i,
    {
        let ghost rest = headers@.skip(i as int);
        assert(rest[0] == headers@[i as int]);
        assert(rest.drop_first() =~= headers@.skip(i + 1));
        if str_eq_ignore_case(headers[i].name.as_str(), name) {
            return Some(&headers[i].value);
        }
        i += 1;
    }
    None
}

/// The verdict on one header assertion, given in `matched` what the search
/// for its pattern in the header's value gave. Every check that the assertion
/// gives must hold; where the header is absent, a check on its value cannot
/// hold, so the assertion passes only if it gives none.
pub open spec fn header_verdict_with(
    headers: Seq<Header>,
    a: HeaderAssertionSpec,
    index: nat,
    matched: Result<bool, Seq<char>>,
) -> Result<AssertionView, KitErrorView> {
    let found = find_header(headers, lower_seq(a.name@));
    let label = header_label(index);
    if a.exists is Some && a.exists->0 != (found is Some) {
        Ok(
            report_of(
                label,
                false,
                "header '"@ + a.name@ + "' existence mismatch expected "@ + bool_text(
                    a.exists->0,
                ) + " got "@ + bool_text(found is Some),
            ),
        )
    } else if found is None {
        Ok(
            report_of(
                label,
                a.equals is None && a.contains is None && a.regex is None,
                "header '"@ + a.name@ + "' not found"@,
            ),
        )
    } else {
        let value = found->0;
        if a.equals is Some && value != a.equals->0@ {
            Ok(
                report_of(
                    label,
                    false,
                    "header '"@ + a.name@ + "' expected '"@ + a.equals->0@ + "' got '"@ + value
                        + "'"@,
                ),
            )
        } else if a.contains is Some && !has_sub(value, a.contains->0@) {
            Ok(
                report_of(
                    label,
                    false,
                    "header '"@ + a.name@ + "' missing substring '"@ + a.contains->0@ + "' in '"@
                        + value + "'"@,
                ),
            )
        } else if a.regex is Some {
            match matched {
                Err(reason) => Err(
                    KitErrorView {
                        kind: ErrorKind::Configuration,
                        message: "invalid header regex '"@ + a.regex->0@ + "' for '"@ + a.name@
                            + "': "@ + reason,
                    },
                ),
                Ok(false) => Ok(
                    report_of(
                        label,
                        false,
                        "header '"@ + a.name@ + "' regex '"@ + a.regex->0@ + "' did not match '"@
                            + value + "'"@,
                    ),
                ),
                Ok(true) => Ok(
                    report_of(label, true, "header '"@ + a.name@ + "' assertion passed"@),
                ),
            }
        } else {
            Ok(report_of(label, true, "header '"@ + a.name@ + "' assertion passed"@))
        }
    }
}

pub open spec fn header_search(headers: Seq<Header>, a: HeaderAssertionSpec) -> Result<
    bool,
    Seq<char>,
> {
    let found = find_header(headers, lower_seq(a.name@));
    if found is Some && a.regex is Some {
        regex_search(a.regex->0@, found->0)
    } else {
        Ok(true)
    }
}

/// The verdict on one header assertion.
pub open spec fn header_verdict(headers: Seq<Header>, a: HeaderAssertionSpec, index: nat)
    -> Result<AssertionView, KitErrorView> {
    header_verdict_with(headers, a, index, header_search(headers, a))
}

/// Judges one header assertion against `headers`, given the outcome of the
/// pattern search. The checks are made in the order existence, equality,
/// substring, pattern, and the first that fails decides.
pub fn judge_header_value(
    headers: &Vec<Header>,
    assertion: &HeaderAssertionSpec,
    index: usize,
    matched: Result<bool, String>,
) -> (r: Result<AssertionReport, KitError>)
    ensures
        verdict_view(r) == header_verdict_with(
            headers@,
            *assertion,
            index as nat,
            search_view(matched),
        ),
{
    let number = decimal_string(index as u128 + 1);
    let label = concat2("header_assertion_", number.as_str());
    let name = assertion.name.as_str();
    let key = str_lower(name);
    let found = header_value(headers, key.as_str());
    let exists = found.is_some();
    if let Some(expected_exists) = assertion.exists {
        if expected_exists != exists {
            return report(
                label,
                false,
                concat6(
                    "header '",
                    name,
                    "' existence mismatch expected ",
                    bool_string(expected_exists),
                    " got ",
                    bool_string(exists),
                ),
            );
        }
    }
    let value = match found {
        Some(v) => v,
        None => {
            let nothing_asked = assertion.equals.is_none() && assertion.contains.is_none()
                && assertion.regex.is_none();
            return report(label, nothing_asked, concat3("header '", name, "' not found"));
        },
    };
    if let Some(expected) = &assertion.equals {
        if !str_eq(value.as_str(), expected.as_str()) {
            return report(
                label,
                false,
                concat7(
                    "header '",
                    name,
                    "' expected '",
                    expected.as_str(),
                    "' got '",
                    value.as_str(),
                    "'",
                ),
            );
        }
    }
    if let Some(part) = &assertion.contains {
        if !str_contains(value.as_str(), part.as_str()) {
            return report(
                label,
                false,
                concat7(
                    "header '",
                    name,
                    "' missing substring '",
                    part.as_str(),
                    "' in '",
                    value.as_str(),
                    "'",
                ),
            );
        }
    }
    if let Some(pattern) = &assertion.regex {
        match matched {
            Err(reason) => {
                return Err(
                    KitError::new(
                        ErrorKind::Configuration,
                        concat6(
                            "invalid header regex '",
                            pattern.as_str(),
                            "' for '",
                            name,
                            "': ",
                            reason.as_str(),
                        ),
                    ),
                );
            },
            Ok(hit) => {
                if !hit {
                    return report(
                        label,
                        false,
                        concat7(
                            "header '",
                            name,
                            "' regex '",
                            pattern.as_str(),
                            "' did not match '",
                            value.as_str(),
                            "'",
                        ),
                    );
                }
            },
        }
    }
    report(label, true, concat3("header '", name, "' assertion passed"))
}

/// Judges one header assertion against `headers`.
pub fn assert_header_value(headers: &Vec<Header>, assertion: &HeaderAssertionSpec, index: usize)
    -> (r: Result<AssertionReport, KitError>)
    ensures
        verdict_view(r) == header_verdict(headers@, *assertion, index as nat),
{
    let key = str_lower(assertion.name.as_str());
    let matched = match (header_value(headers, key.as_str()), &assertion.regex) {
        (Some(value), Some(pattern)) => search(pattern.as_str(), value.as_str()),
        _ => Ok(true),
    };
    judge_header_value(headers, assertion, index, matched)
}

/// An assertion whose path leads nowhere passes only if it asks nothing
/// of the value: with an expected value, a substring or a pattern, and no
/// word on existence, it is judged and does not pass.
pub proof fn lemma_missing_path_fails_checks(
    actual: Json,
    a: JsonAssertionSpec,
    index: nat,
    matched: Result<bool, Seq<char>>,
)
    requires
        lookup(actual, a.path@) is None,
        a.exists != Some(true),
    ensures
        json_verdict_with(actual, a, index, matched) is Ok,
        json_verdict_with(actual, a, index, matched)->Ok_0.passed <==> a.equals is None
            && a.contains is None && a.regex is None,
{
}

/// An assertion on a header that is absent passes only if it asks
/// nothing of the value.
pub proof fn lemma_missing_header_fails_checks(
    headers: Seq<Header>,
    a: HeaderAssertionSpec,
    index: nat,
    matched: Result<bool, Seq<char>>,
)
    requires
        find_header(headers, lower_seq(a.name@)) is None,
        a.exists != Some(true),
    ensures
        header_verdict_with(headers, a, index, matched) is Ok,
        header_verdict_with(headers, a, index, matched)->Ok_0.passed <==> a.equals is None
            && a.contains is None && a.regex is None,
{
}

} // verus!
