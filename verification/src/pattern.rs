//! Regular expressions, searched by the `regex` crate.

use vstd::prelude::*;

verus! {

/// What searching `text` for the regular expression `pattern` gives: whether
/// a match was found, or the reason why `pattern` is not accepted.
pub uninterp spec fn regex_search(pattern: Seq<char>, text: Seq<char>) -> Result<bool, Seq<char>>;

pub open spec fn search_view(r: Result<bool, String>) -> Result<bool, Seq<char>> {
    match r {
        Ok(b) => Ok(b),
        Err(e) => Err(e@),
    }
}

/// `regex::Regex::new` on `pattern` and, where it compiles, `Regex::is_match`
/// on `text`; where it does not, the text of the `regex::Error`. Both depend
/// on the two arguments alone, and the result is the one that `regex_search`
/// names.
#[verifier::external_body]
pub(crate) fn search(pattern: &str, text: &str) -> (r: Result<bool, String>)
    ensures
        search_view(r) == regex_search(pattern@, text@),
{
    match regex::Regex::new(pattern) {
        Ok(re) => Ok(re.is_match(text)),
        Err(e) => Err(e.to_string()),
    }
}

} // verus!
