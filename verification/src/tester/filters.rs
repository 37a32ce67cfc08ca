//! Choosing what to run: suites by name or path, cases by name and tags.

use vstd::prelude::*;
use vstd::string::*;

use crate::order::reversed;
use crate::tester::types::{CaseSpec, FilterInput, LoadedSuite, SuiteSpec};
use crate::text::{chars_of, str_eq};

verus! {

/// Whether a text matches a pattern in which `*` stands for any run of
/// characters, the empty one too, and `?` for exactly one character.
pub open spec fn glob(p: Seq<char>, t: Seq<char>) -> bool
    decreases p.len(), t.len(),
{
    if p.len() == 0 {
        t.len() == 0
    } else if p.last() == '*' {
        glob(p.drop_last(), t) || (t.len() > 0 && glob(p, t.drop_last()))
    } else {
        t.len() > 0 && (p.last() == '?' || p.last() == t.last()) && glob(
            p.drop_last(),
            t.drop_last(),
        )
    }
}

/// The pattern `*` matches every text, the empty one too.
pub proof fn lemma_star_matches_all(t: Seq<char>)
    ensures
        glob("*"@, t),
    decreases t.len(),
{
    reveal_strlit("*");
    reveal_with_fuel(glob, 3);
    let p = "*"@;
    assert(p.last() == '*');
    assert(p.drop_last() =~= Seq::<char>::empty());
    if t.len() > 0 {
        lemma_star_matches_all(t.drop_last());
    }
}

/// Whether `text` matches `pattern`.
pub fn glob_match(pattern: &str, text: &str) -> (r: bool)
    ensures
        r == glob(pattern@, text@),
{
    let p = chars_of(pattern);
    let t = chars_of(text);
    let n = t.len();
    // prev[j] says whether the first j characters of the text match the
    // part of the pattern that was read.
    let mut prev: Vec<bool> = Vec::new();
    prev.push(true);
    let mut j: usize = 0;
    proof {
        assert(p@.take(0) =~= Seq::<char>::empty());
    }
    while j < n
        invariant
            j <= n,
            n == t.len(),
            prev.len() == j + 1,
            forall|k: int| 0 <= k <= j ==> #[trigger] prev@[k] == glob(p@.take(0), t@.take(k)),
        decreases n - j,
    {
        prev.push(false);
        j += 1;
    }
    let mut i: usize = 0;
    while i < p.len()
        invariant
            i <= p.len(),
            n == t.len(),
            prev.len() == n + 1,
            forall|k: int| 0 <= k <= n ==> #[trigger] prev@[k] == glob(p@.take(i as int), t@.take(k)),
        decreases p.len() - i,
    {
        let c = p[i];
        let ghost pat = p@.take(i + 1);
        proof {
            assert(pat.last() == c);
            assert(pat.drop_last() =~= p@.take(i as int));
        }
        let mut cur: Vec<bool> = Vec::new();
        cur.push(c == '*' && prev[0]);
        proof {
            assert(t@.take(0).len() == 0);
        }
        let mut j: usize = 0;
        while j < n
            invariant
                j <= n,
                n == t.len(),
                i < p.len(),
                c == p@[i as int],
                pat == p@.take(i + 1),
                pat.last() == c,
                pat.drop_last() == p@.take(i as int),
                prev.len() == n + 1,
                cur.len() == j + 1,
                forall|k: int|
                    0 <= k <= n ==> #[trigger] prev@[k] == glob(p@.take(i as int), t@.take(k)),
                forall|k: int| 0 <= k <= j ==> #[trigger] cur@[k] == glob(pat, t@.take(k)),
            decreases n - j,
        {
            let ghost txt = t@.take(j + 1);
            proof {
                assert(txt.last() == t@[j as int]);
                assert(txt.drop_last() =~= t@.take(j as int));
            }
            let hit = if c == '*' {
                prev[j + 1] || cur[j]
            } else if c == '?' || c == t[j] {
                prev[j]
            } else {
                false
            };
            cur.push(hit);
            j += 1;
        }
        prev = cur;
        i += 1;
    }
    proof {
        assert(p@.take(p.len() as int) =~= p@);
        assert(t@.take(n as int) =~= t@);
    }
    prev[n]
}

/// Whether the name of a case matches a pattern.
pub fn match_case(name: &str, pattern: &str) -> (r: bool)
    ensures
        r == glob(pattern@, name@),
{
    glob_match(pattern, name)
}

/// The name under which a suite is shown: its own, else its path.
pub open spec fn display_name(suite: LoadedSuite) -> Seq<char> {
    match suite.spec.name {
        Some(n) => n@,
        None => suite.path@,
    }
}

/// Whether the name or the path of a suite matches a pattern.
pub open spec fn suite_matches(suite: LoadedSuite, pattern: Seq<char>) -> bool {
    glob(pattern, display_name(suite)) || glob(pattern, suite.path@)
}

pub fn match_suite(suite: &LoadedSuite, pattern: &str) -> (r: bool)
    ensures
        r == suite_matches(*suite, pattern@),
{
    let name = match &suite.spec.name {
        Some(n) => n.as_str(),
        None => suite.path.as_str(),
    };
    glob_match(pattern, name) || glob_match(pattern, suite.path.as_str())
}

/// Whether `tag` is among `tags`.
pub open spec fn has_tag(tags: Seq<String>, tag: Seq<char>) -> bool {
    exists|i: int| 0 <= i < tags.len() && (#[trigger] tags[i])@ == tag
}

/// The pattern that a filter gives, `*` where it gives none.
pub open spec fn pattern_or_all(pattern: Option<String>) -> Seq<char> {
    match pattern {
        Some(p) => p@,
        None => "*"@,
    }
}

/// Whether a case stays: its name matches the pattern for cases, and
/// every tag asked for is a tag of the suite or of the case.
pub open spec fn case_kept(suite_tags: Seq<String>, case: CaseSpec, f: FilterInput) -> bool {
    &&& glob(pattern_or_all(f.case_pattern), case.name@)
    &&& forall|k: int|
        0 <= k < f.tags@.len() ==> has_tag(suite_tags, (#[trigger] f.tags@[k])@) || has_tag(
            case.tags@,
            f.tags@[k]@,
        )
}

/// The cases that stay, in order.
pub open spec fn kept_cases(cases: Seq<CaseSpec>, suite_tags: Seq<String>, f: FilterInput) -> Seq<
    CaseSpec,
>
    decreases cases.len(),
{
    if cases.len() == 0 {
        Seq::empty()
    } else if case_kept(suite_tags, cases.last(), f) {
        kept_cases(cases.drop_last(), suite_tags, f).push(cases.last())
    } else {
        kept_cases(cases.drop_last(), suite_tags, f)
    }
}

/// A suite with other cases.
pub open spec fn with_cases(suite: LoadedSuite, cases: Vec<CaseSpec>) -> LoadedSuite {
    LoadedSuite {
        path: suite.path,
        spec: SuiteSpec {
            name: suite.spec.name,
            tags: suite.spec.tags,
            actors: suite.spec.actors,
            fixtures: suite.spec.fixtures,
            cases,
        },
    }
}

/// Whether `out` is what the filter leaves of `suites`: the suites that
/// match the pattern for suites and keep at least one case, in order, each
/// with the cases that stay.
pub open spec fn is_filtered(suites: Seq<LoadedSuite>, f: FilterInput, out: Seq<LoadedSuite>)
    -> bool
    decreases suites.len(),
{
    if suites.len() == 0 {
        out.len() == 0
    } else {
        let s = suites.last();
        let cases = kept_cases(s.spec.cases@, s.spec.tags@, f);
        if suite_matches(s, pattern_or_all(f.suite_pattern)) && cases.len() > 0 {
            &&& out.len() > 0
            &&& out.last().spec.cases@ == cases
            &&& out.last() == with_cases(s, out.last().spec.cases)
            &&& is_filtered(suites.drop_last(), f, out.drop_last())
        } else {
            is_filtered(suites.drop_last(), f, out)
        }
    }
}

/// No suite that a filter leaves is without cases.
pub proof fn lemma_filtered_suites_have_cases(
    suites: Seq<LoadedSuite>,
    f: FilterInput,
    out: Seq<LoadedSuite>,
)
    requires
        is_filtered(suites, f, out),
    ensures
        forall|i: int| 0 <= i < out.len() ==> (#[trigger] out[i]).spec.cases@.len() > 0,
    decreases suites.len(),
{
    if suites.len() > 0 {
        let s = suites.last();
        let cases = kept_cases(s.spec.cases@, s.spec.tags@, f);
        if suite_matches(s, pattern_or_all(f.suite_pattern)) && cases.len() > 0 {
            lemma_filtered_suites_have_cases(suites.drop_last(), f, out.drop_last());
            assert forall|i: int| 0 <= i < out.len() implies (#[trigger] out[i]).spec.cases@.len()
                > 0 by {
                if i < out.len() - 1 {
                    assert(out.drop_last()[i] == out[i]);
                }
            }
        } else {
            lemma_filtered_suites_have_cases(suites.drop_last(), f, out);
        }
    }
}

fn tags_hold(tags: &Vec<String>, tag: &str) -> (r: bool)
    ensures
        r == has_tag(tags@, tag@),
{
    let mut i: usize = 0;
    while i < tags.len()
        invariant
            i <= tags.len(),
            forall|j: int| 0 <= j < i ==> (#[trigger] tags@[j])@ != tag@,
        decreases tags.len() - i,
    {
        if str_eq(tags[i].as_str(), tag) {
            return true;
        }
        i += 1;
    }
    false
}

fn pattern_of(pattern: &Option<String>) -> (s: &str)
    ensures
        s@ == pattern_or_all(*pattern),
{
    match pattern {
        Some(p) => p.as_str(),
        None => "*",
    }
}

fn keeps_case(suite_tags: &Vec<String>, case: &CaseSpec, filters: &FilterInput) -> (r: bool)
    ensures
        r == case_kept(suite_tags@, *case, *filters),
{
    if !match_case(case.name.as_str(), pattern_of(&filters.case_pattern)) {
        return false;
    }
    let mut k: usize = 0;
    while k < filters.tags.len()
        invariant
            k <= filters.tags.len(),
            forall|j: int|
                0 <= j < k ==> has_tag(suite_tags@, (#[trigger] filters.tags@[j])@) || has_tag(
                    case.tags@,
                    filters.tags@[j]@,
                ),
        decreases filters.tags.len() - k,
    {
        let tag = filters.tags[k].as_str();
        if !tags_hold(suite_tags, tag) && !tags_hold(&case.tags, tag) {
            return false;
        }
        k += 1;
    }
    true
}

fn filter_cases(cases: Vec<CaseSpec>, suite_tags: &Vec<String>, filters: &FilterInput) -> (out: Vec<
    CaseSpec,
>)
    ensures
        out@ == kept_cases(cases@, suite_tags@, *filters),
{
    let ghost all = cases@;
    let mut rest = cases;
    let mut back: Vec<CaseSpec> = Vec::new();
    proof {
        assert(kept_cases(all, suite_tags@, *filters) + back@.reverse() =~= kept_cases(
            all,
            suite_tags@,
            *filters,
        ));
    }
    while rest.len() > 0
        invariant
            kept_cases(all, suite_tags@, *filters) == kept_cases(rest@, suite_tags@, *filters)
                + back@.reverse(),
        decreases rest.len(),
    {
        let ghost before = rest@;
        let ghost old_back = back@;
        let case = rest.pop().unwrap();
        assert(before.drop_last() =~= rest@);
        assert(before.last() == case);
        if keeps_case(suite_tags, &case, filters) {
            back.push(case);
            proof {
                assert(back@.reverse() =~= seq![case] + old_back.reverse());
                assert(kept_cases(rest@, suite_tags@, *filters).push(case) + old_back.reverse()
                    =~= kept_cases(rest@, suite_tags@, *filters) + back@.reverse());
            }
        }
    }
    let out = reversed(back);
    proof {
        assert(rest@ =~= Seq::<CaseSpec>::empty());
        assert(Seq::<CaseSpec>::empty() + back@.reverse() =~= back@.reverse());
    }
    out
}

/// Leaves of the suites what the filter asks for.
pub fn apply_filters(suites: Vec<LoadedSuite>, filters: &FilterInput) -> (out: Vec<LoadedSuite>)
    ensures
        is_filtered(suites@, *filters, out@),
        forall|i: int| 0 <= i < out@.len() ==> (#[trigger] out@[i]).spec.cases@.len() > 0,
{
    let ghost all = suites@;
    let mut rest = suites;
    let mut back: Vec<LoadedSuite> = Vec::new();
    // `back` holds the suites kept so far from the end of the list, last first.
    while rest.len() > 0
        invariant
            forall|done: Seq<LoadedSuite>|
                is_filtered(rest@, *filters, done) ==> #[trigger] is_filtered(
                    all,
                    *filters,
                    done + back@.reverse(),
                ),
        decreases rest.len(),
    {
        let ghost before = rest@;
        let ghost old_back = back@;
        let suite = rest.pop().unwrap();
        assert(before.drop_last() =~= rest@);
        assert(before.last() == suite);
        let matches = match_suite(&suite, pattern_of(&filters.suite_pattern));
        let LoadedSuite { path, spec } = suite;
        let SuiteSpec { name, tags, actors, fixtures, cases } = spec;
        let kept = filter_cases(cases, &tags, filters);
        if matches && kept.len() > 0 {
            let narrowed = LoadedSuite {
                path,
                spec: SuiteSpec { name, tags, actors, fixtures, cases: kept },
            };
            back.push(narrowed);
            proof {
                assert(back@.reverse() =~= seq![narrowed] + old_back.reverse());
                assert forall|done: Seq<LoadedSuite>|
                    is_filtered(rest@, *filters, done) implies #[trigger] is_filtered(
                    all,
                    *filters,
                    done + back@.reverse(),
                ) by {
                    let longer = done.push(narrowed);
                    assert(longer.drop_last() =~= done);
                    assert(longer.last() == narrowed);
                    assert(is_filtered(before, *filters, longer));
                    assert(longer + old_back.reverse() =~= done + back@.reverse());
                }
            }
        } else {
            proof {
                assert forall|done: Seq<LoadedSuite>|
                    is_filtered(rest@, *filters, done) implies #[trigger] is_filtered(
                    all,
                    *filters,
                    done + back@.reverse(),
                ) by {
                    assert(is_filtered(before, *filters, done));
                }
            }
        }
    }
    let out = reversed(back);
    proof {
        let nothing = Seq::<LoadedSuite>::empty();
        assert(rest@ =~= nothing);
        assert(is_filtered(rest@, *filters, nothing));
        assert(nothing + back@.reverse() =~= out@);
        lemma_filtered_suites_have_cases(all, *filters, out@);
    }
    out
}

/// Every suite that a filter leaves is one of the suites it was given,
/// with the cases of that suite that stay, of which there is at least one.
pub proof fn lemma_filtered_come_from(
    suites: Seq<LoadedSuite>,
    f: FilterInput,
    out: Seq<LoadedSuite>,
    k: int,
) -> (j: int)
    requires
        is_filtered(suites, f, out),
        0 <= k < out.len(),
    ensures
        0 <= j < suites.len(),
        out[k].path == suites[j].path,
        out[k].spec.cases@ == kept_cases(suites[j].spec.cases@, suites[j].spec.tags@, f),
        out[k].spec.cases@.len() > 0,
        suite_matches(suites[j], pattern_or_all(f.suite_pattern)),
    decreases suites.len(),
{
    let s = suites.last();
    let cases = kept_cases(s.spec.cases@, s.spec.tags@, f);
    if suite_matches(s, pattern_or_all(f.suite_pattern)) && cases.len() > 0 {
        if k == out.len() - 1 {
            suites.len() - 1
        } else {
            assert(out.drop_last()[k] == out[k]);
            let j = lemma_filtered_come_from(suites.drop_last(), f, out.drop_last(), k);
            assert(suites.drop_last()[j] == suites[j]);
            j
        }
    } else {
        let j = lemma_filtered_come_from(suites.drop_last(), f, out, k);
        assert(suites.drop_last()[j] == suites[j]);
        j
    }
}

/// A suite none of whose cases stays is left out: where no other suite
/// has its path, no suite that the filter leaves has that path.
pub proof fn lemma_suite_without_cases_is_left_out(
    suites: Seq<LoadedSuite>,
    f: FilterInput,
    out: Seq<LoadedSuite>,
    i: int,
)
    requires
        is_filtered(suites, f, out),
        0 <= i < suites.len(),
        kept_cases(suites[i].spec.cases@, suites[i].spec.tags@, f).len() == 0,
        forall|j: int| 0 <= j < suites.len() && j != i ==> (#[trigger] suites[j]).path@ != suites[i].path@,
    ensures
        forall|k: int| 0 <= k < out.len() ==> (#[trigger] out[k]).path@ != suites[i].path@,
{
    assert forall|k: int| 0 <= k < out.len() implies (#[trigger] out[k]).path@ != suites[i].path@ by {
        let j = lemma_filtered_come_from(suites, f, out, k);
        if j != i {
            assert(suites[j].path@ != suites[i].path@);
        }
    }
}

} // verus!
