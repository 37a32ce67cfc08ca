//! API cases: the request that a case asks for, and the judgement of the
//! response. Sending the request is left to the caller.

use vstd::prelude::*;
use vstd::string::*;

use crate::error::{ErrorKind, KitError, KitErrorView};
use crate::json::{Json, JsonValue};
use crate::tester::assertions::{assert_header_value, header_verdict, report_of};
use crate::tester::runner::{check_json_assertions, json_verdicts};
use crate::tester::types::{
    assertion_views, json_opt_view, ApiRequestCase, AssertionReport, AssertionView, Header,
    HeaderAssertionSpec,
};
use crate::text::{chars_of, concat4, decimal, decimal_string, has_prefix, is_blank, owned, str_is_blank, str_starts_with, str_trim, string_of_range, trim_end_by, trimmed, CharClass};

verus! {

/// What `str::to_uppercase` returns: the upper-case form of `s` by the
/// Unicode case mappings.
pub uninterp spec fn unicode_upper(s: Seq<char>) -> Seq<char>;

/// `str::to_uppercase`, whose result depends on `s` alone.
#[verifier::external_body]
fn to_upper(s: &str) -> (out: String)
    ensures
        out@ == unicode_upper(s@),
{
    s.to_uppercase()
}

/// The judgement of a response: its status and the verdicts on it.
#[derive(Debug, Clone)]
pub struct ApiResult {
    pub status: u16,
    pub assertions: Vec<AssertionReport>,
}

/// A request, ready to be sent. The headers are set in order, so that a
/// later one replaces an earlier one of the same name.
#[derive(Debug, Clone)]
pub struct ApiRequest {
    pub method: String,
    pub url: String,
    pub headers: Vec<Header>,
    pub body: Option<JsonValue>,
    pub timeout_ms: u64,
}

/// `base` and `path` joined by exactly one slash: the slashes at the end of
/// `base` go, and `path` gets one in front unless it has one.
pub open spec fn joined_url(base: Seq<char>, path: Seq<char>) -> Seq<char> {
    trim_end_by(base, CharClass::Slash) + (if has_prefix(path, "/"@) {
        Seq::<char>::empty()
    } else {
        "/"@
    }) + path
}

pub fn join_url(base: &str, path: &str) -> (out: String)
    ensures
        out@ == joined_url(base@, path@),
{
    let b = chars_of(base);
    let mut hi: usize = b.len();
    while hi > 0 && b[hi - 1] == '/'
        invariant
            hi <= b.len(),
            forall|j: int| hi <= j < b.len() ==> b@[j] == '/',
        decreases hi,
    {
        hi -= 1;
    }
    proof {
        assert forall|j: int| hi <= j < b@.len() implies crate::text::in_class(
            CharClass::Slash,
            #[trigger] b@[j],
        ) by {}
        crate::text::lemma_suffix_run(b@, CharClass::Slash, hi as int);
        assert(b@.take(hi as int) =~= b@.subrange(0, hi as int));
    }
    let mut out = string_of_range(&b, 0, hi);
    if str_starts_with(path, "/") {
        assert(out@ + Seq::<char>::empty() =~= out@);
    } else {
        out.append("/");
    }
    out.append(path);
    out
}

pub struct ApiRequestView {
    pub method: Seq<char>,
    pub url: Seq<char>,
    pub headers: Seq<(Seq<char>, Seq<char>)>,
    pub body: Option<Json>,
    pub timeout_ms: u64,
}

pub open spec fn header_pairs(v: Seq<Header>) -> Seq<(Seq<char>, Seq<char>)> {
    Seq::new(v.len(), |i: int| (v[i].name@, v[i].value@))
}

impl View for ApiRequest {
    type V = ApiRequestView;

    open spec fn view(&self) -> ApiRequestView {
        ApiRequestView {
            method: self.method@,
            url: self.url@,
            headers: header_pairs(self.headers@),
            body: json_opt_view(self.body),
            timeout_ms: self.timeout_ms,
        }
    }
}

/// The request that a case asks for: the method in upper case, the trimmed
/// path joined onto the base URL, the headers of the actor's session followed
/// by those of the case, the body of the case, and the time limit of the
/// case or else the default. A case whose path is blank asks for none.
pub open spec fn planned_request(
    base_url: Seq<char>,
    case: ApiRequestCase,
    actor_headers: Seq<Header>,
    default_timeout_ms: u64,
) -> Result<ApiRequestView, KitErrorView> {
    if is_blank(case.path@) {
        Err(
            KitErrorView {
                kind: ErrorKind::Configuration,
                message: "api_request case path cannot be empty"@,
            },
        )
    } else {
        Ok(
            ApiRequestView {
                method: unicode_upper(case.method@),
                url: joined_url(base_url, trimmed(case.path@)),
                headers: header_pairs(actor_headers) + header_pairs(case.headers@),
                body: json_opt_view(case.body),
                timeout_ms: match case.timeout_ms {
                    Some(t) => t,
                    None => default_timeout_ms,
                },
            },
        )
    }
}

pub open spec fn request_result_view(r: Result<ApiRequest, KitError>) -> Result<
    ApiRequestView,
    KitErrorView,
> {
    match r {
        Ok(x) => Ok(x@),
        Err(e) => Err(e@),
    }
}

fn push_headers(out: &mut Vec<Header>, from: &Vec<Header>)
    ensures
        header_pairs(final(out)@) == header_pairs(old(out)@) + header_pairs(from@),
{
    let mut i: usize = 0;
    proof {
        assert(header_pairs(out@) + header_pairs(from@.take(0)) =~= header_pairs(out@));
    }
    while i < from.len()
        invariant
            i <= from.len(),
            header_pairs(out@) == header_pairs(old(out)@) + header_pairs(from@.take(i as int)),
        decreases from.len() - i,
    {
        let ghost before = header_pairs(out@);
        let h = Header { name: from[i].name.clone(), value: from[i].value.clone() };
        out.push(h);
        proof {
            assert(header_pairs(out@) =~= before.push((from@[i as int].name@, from@[i as int].value@)));
            assert(header_pairs(from@.take(i + 1)) =~= header_pairs(from@.take(i as int)).push(
                (from@[i as int].name@, from@[i as int].value@),
            ));
            assert(header_pairs(out@) =~= header_pairs(old(out)@) + header_pairs(
                from@.take(i + 1),
            ));
        }
        i += 1;
    }
    assert(from@.take(from.len() as int) =~= from@);
}

/// Builds the request that a case asks for.
pub fn build_api_request(
    base_url: &str,
    case: &ApiRequestCase,
    actor_headers: &Vec<Header>,
    default_timeout_ms: u64,
) -> (r: Result<ApiRequest, KitError>)
    ensures
        request_result_view(r) == planned_request(
            base_url@,
            *case,
            actor_headers@,
            default_timeout_ms,
        ),
{
    let timeout_ms = match case.timeout_ms {
        Some(t) => t,
        None => default_timeout_ms,
    };
    let path = str_trim(case.path.as_str());
    if str_is_blank(case.path.as_str()) {
        return Err(
            KitError::new(
                ErrorKind::Configuration,
                owned("api_request case path cannot be empty"),
            ),
        );
    }
    let url = join_url(base_url, path.as_str());
    let method = to_upper(case.method.as_str());
    let mut headers: Vec<Header> = Vec::new();
    push_headers(&mut headers, actor_headers);
    push_headers(&mut headers, &case.headers);
    proof {
        assert(header_pairs(headers@) =~= header_pairs(actor_headers@) + header_pairs(
            case.headers@,
        ));
    }
    let body = match &case.body {
        Some(b) => Some(b.clone()),
        None => None,
    };
    Ok(ApiRequest { method, url, headers, body, timeout_ms })
}

/// The verdicts on a list of header assertions, in order; the first
/// assertion that cannot be judged gives its error instead.
pub open spec fn header_verdicts(headers: Seq<Header>, specs: Seq<HeaderAssertionSpec>) -> Result<
    Seq<AssertionView>,
    KitErrorView,
>
    decreases specs.len(),
{
    if specs.len() == 0 {
        Ok(Seq::empty())
    } else {
        match header_verdicts(headers, specs.drop_last()) {
            Err(e) => Err(e),
            Ok(done) => match header_verdict(headers, specs.last(), (specs.len() - 1) as nat) {
                Ok(v) => Ok(done.push(v)),
                Err(e) => Err(e),
            },
        }
    }
}

/// Judges the assertions of `specs` against `headers` and appends the verdicts to `out`.
pub fn check_header_assertions(
    headers: &Vec<Header>,
    specs: &Vec<HeaderAssertionSpec>,
    out: &mut Vec<AssertionReport>,
) -> (r: Result<(), KitError>)
    ensures
        match header_verdicts(headers@, specs@) {
            Ok(verdicts) => r is Ok && assertion_views(final(out)@) == assertion_views(old(out)@)
                + verdicts,
            Err(e) => r is Err && r->Err_0@ == e,
        },
{
    let mut i: usize = 0;
    proof {
        assert(specs@.take(0) =~= Seq::<HeaderAssertionSpec>::empty());
        assert(assertion_views(out@) + Seq::<AssertionView>::empty() =~= assertion_views(out@));
    }
    while i < specs.len()
        invariant
            i <= specs.len(),
            header_verdicts(headers@, specs@.take(i as int)) is Ok,
            assertion_views(out@) == assertion_views(old(out)@) + header_verdicts(
                headers@,
                specs@.take(i as int),
            )->Ok_0,
        decreases specs.len() - i,
    {
        let ghost next = specs@.take(i + 1);
        proof {
            assert(next.drop_last() =~= specs@.take(i as int));
            assert(next.last() == specs@[i as int]);
            lemma_header_prefix_error(headers@, specs@, i + 1);
        }
        let ghost before = assertion_views(out@);
        match assert_header_value(headers, &specs[i], i) {
            Ok(verdict) => {
                out.push(verdict);
                assert(assertion_views(out@) =~= before.push(verdict@));
                assert(before.push(verdict@) =~= assertion_views(old(out)@) + header_verdicts(
                    headers@,
                    next,
                )->Ok_0);
            },
            Err(e) => {
                return Err(e);
            },
        }
        i += 1;
    }
    assert(specs@.take(specs.len() as int) =~= specs@);
    Ok(())
}

/// An error among the first `i` assertions is the error of the whole list.
pub proof fn lemma_header_prefix_error(headers: Seq<Header>, specs: Seq<HeaderAssertionSpec>, i: int)
    requires
        0 <= i <= specs.len(),
    ensures
        header_verdicts(headers, specs.take(i)) is Err ==> header_verdicts(headers, specs)
            == header_verdicts(headers, specs.take(i)),
    decreases specs.len() - i,
{
    if i < specs.len() {
        lemma_header_prefix_error(headers, specs, i + 1);
        assert(specs.take(i + 1).drop_last() =~= specs.take(i));
    } else {
        assert(specs.take(i) =~= specs);
    }
}

pub struct ApiResultView {
    pub status: u16,
    pub assertions: Seq<AssertionView>,
}

impl View for ApiResult {
    type V = ApiResultView;

    open spec fn view(&self) -> ApiResultView {
        ApiResultView { status: self.status, assertions: assertion_views(self.assertions@) }
    }
}

pub open spec fn status_verdict(expected: u16, status: u16) -> AssertionView {
    report_of(
        "status"@,
        status == expected,
        "expected status "@ + decimal(expected as nat) + ", got "@ + decimal(status as nat),
    )
}

/// The document that the body of a response holds: none where the body is
/// blank, else what reading it as JSON gave.
pub open spec fn body_document(body_text: Seq<char>, parsed: Option<Json>) -> Option<Json> {
    if is_blank(body_text) {
        None
    } else {
        parsed
    }
}

/// The judgement of a response: the verdict on its status, then those on its
/// headers, then those on its body. Body assertions on a response without a
/// JSON document are an error of the case, and so is an assertion that
/// cannot be judged.
pub open spec fn api_judgement(
    case: ApiRequestCase,
    status: u16,
    headers: Seq<Header>,
    body_text: Seq<char>,
    parsed: Option<Json>,
) -> Result<ApiResultView, KitErrorView> {
    let first = seq![status_verdict(case.expected_status, status)];
    match header_verdicts(headers, case.header_assertions@) {
        Err(e) => Err(e),
        Ok(on_headers) => if case.body_assertions@.len() == 0 {
            Ok(ApiResultView { status, assertions: first + on_headers })
        } else {
            match body_document(body_text, parsed) {
                None => Err(
                    KitErrorView {
                        kind: ErrorKind::Case,
                        message: "body assertions requested but response body is not valid JSON"@,
                    },
                ),
                Some(document) => match json_verdicts(document, case.body_assertions@) {
                    Err(e) => Err(e),
                    Ok(on_body) => Ok(
                        ApiResultView { status, assertions: first + on_headers + on_body },
                    ),
                },
            }
        },
    }
}

pub open spec fn api_result_view(r: Result<ApiResult, KitError>) -> Result<
    ApiResultView,
    KitErrorView,
> {
    match r {
        Ok(x) => Ok(x@),
        Err(e) => Err(e@),
    }
}

/// Judges the response to the request of an API case. `parsed` is what
/// reading `body_text` as JSON gave, `None` where it is no JSON document.
pub fn evaluate_api_response(
    case: &ApiRequestCase,
    status: u16,
    headers: &Vec<Header>,
    body_text: &str,
    parsed: &Option<JsonValue>,
) -> (r: Result<ApiResult, KitError>)
    ensures
        api_result_view(r) == api_judgement(
            *case,
            status,
            headers@,
            body_text@,
            json_opt_view(*parsed),
        ),
{
    let mut assertions: Vec<AssertionReport> = Vec::new();
    let expected = decimal_string(case.expected_status as u128);
    let got = decimal_string(status as u128);
    assertions.push(
        AssertionReport {
            name: owned("status"),
            passed: status == case.expected_status,
            message: concat4("expected status ", expected.as_str(), ", got ", got.as_str()),
        },
    );
    let ghost first = seq![status_verdict(case.expected_status, status)];
    assert(assertion_views(assertions@) =~= first);
    match check_header_assertions(headers, &case.header_assertions, &mut assertions) {
        Err(e) => {
            return Err(e);
        },
        Ok(_) => {},
    }
    if case.body_assertions.len() > 0 {
        let blank = str_is_blank(body_text);
        match parsed {
            Some(document) => {
                if blank {
                    return Err(
                        KitError::new(
                            ErrorKind::Case,
                            owned("body assertions requested but response body is not valid JSON"),
                        ),
                    );
                }
                match check_json_assertions(document, &case.body_assertions, &mut assertions) {
                    Err(e) => {
                        return Err(e);
                    },
                    Ok(_) => {},
                }
            },
            None => {
                return Err(
                    KitError::new(
                        ErrorKind::Case,
                        owned("body assertions requested but response body is not valid JSON"),
                    ),
                );
            },
        }
    }
    Ok(ApiResult { status, assertions })
}

} // verus!
