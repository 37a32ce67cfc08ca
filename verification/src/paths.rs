//! Paths as texts, with forward slashes between their parts.

use vstd::prelude::*;
use vstd::string::*;

use crate::text::{chars_of, has_prefix, owned, str_starts_with, string_of_range, trim_end_by, CharClass};

verus! {

/// The text under which a path is shown.
pub fn display(path: &str) -> (out: String)
    ensures
        out@ == path@,
{
    owned(path)
}

/// Whether a path begins at the root.
pub open spec fn is_absolute(path: Seq<char>) -> bool {
    has_prefix(path, "/"@)
}

/// `file` as seen from `base`: itself where it begins at the root, else
/// `base` and `file` with one slash between them.
pub open spec fn resolved_path(base: Seq<char>, file: Seq<char>) -> Seq<char> {
    if is_absolute(file) || base.len() == 0 {
        file
    } else if base.last() == '/' {
        base + file
    } else {
        base + "/"@ + file
    }
}

/// Where the file of a fixture is, seen from the directory that the
/// fixture belongs to.
pub fn resolve_fixture_path(base_dir: &str, file: &str) -> (out: String)
    ensures
        out@ == resolved_path(base_dir@, file@),
{
    let base = chars_of(base_dir);
    if str_starts_with(file, "/") || base.len() == 0 {
        owned(file)
    } else if base[base.len() - 1] == '/' {
        crate::text::concat2(base_dir, file)
    } else {
        crate::text::concat3(base_dir, "/", file)
    }
}

/// The position of the last slash of `s` before `end`, if there is one.
pub open spec fn last_slash(s: Seq<char>, end: int) -> Option<int>
    decreases end,
{
    if end <= 0 || end > s.len() {
        None
    } else if s[end - 1] == '/' {
        Some(end - 1)
    } else {
        last_slash(s, end - 1)
    }
}

/// The directory that holds a path: the path up to its last slash,
/// without the slashes at the end of that; the root for what lies directly
/// in it; the empty path for a name alone; nothing for the empty path and
/// for the root itself.
pub open spec fn parent_of(path: Seq<char>) -> Option<Seq<char>> {
    let p = trim_end_by(path, CharClass::Slash);
    if p.len() == 0 {
        None
    } else {
        match last_slash(p, p.len() as int) {
            None => Some(Seq::empty()),
            Some(at) => {
                let dir = trim_end_by(p.take(at), CharClass::Slash);
                if dir.len() == 0 {
                    Some("/"@)
                } else {
                    Some(dir)
                }
            },
        }
    }
}

fn end_without_slashes(v: &Vec<char>, end: usize) -> (r: usize)
    requires
        end <= v.len(),
    ensures
        r <= end,
        v@.take(r as int) == trim_end_by(v@.take(end as int), CharClass::Slash),
{
    let mut hi = end;
    while hi > 0 && v[hi - 1] == '/'
        invariant
            hi <= end <= v.len(),
            forall|j: int| hi <= j < end ==> v@[j] == '/',
        decreases hi,
    {
        hi -= 1;
    }
    proof {
        let t = v@.take(end as int);
        assert forall|j: int| hi <= j < t.len() implies crate::text::in_class(
            CharClass::Slash,
            #[trigger] t[j],
        ) by {}
        if hi > 0 {
            assert(t[hi - 1] == v@[hi - 1]);
        }
        crate::text::lemma_suffix_run(t, CharClass::Slash, hi as int);
        assert(t.take(hi as int) =~= v@.take(hi as int));
    }
    hi
}

pub open spec fn path_opt_view(o: Option<String>) -> Option<Seq<char>> {
    match o {
        Some(s) => Some(s@),
        None => None,
    }
}

/// The directory that holds a path.
pub fn parent_dir(path: &str) -> (out: Option<String>)
    ensures
        path_opt_view(out) == parent_of(path@),
{
    let v = chars_of(path);
    proof {
        assert(v@.take(v.len() as int) =~= v@);
    }
    let end = end_without_slashes(&v, v.len());
    if end == 0 {
        return None;
    }
    let ghost p = v@.take(end as int);
    let mut at = end;
    while at > 0 && v[at - 1] != '/'
        invariant
            at <= end <= v.len(),
            p == v@.take(end as int),
            last_slash(p, end as int) == last_slash(p, at as int),
        decreases at,
    {
        assert(p[at - 1] == v@[at - 1]);
        at -= 1;
    }
    if at == 0 {
        let nothing = String::new();
        return Some(nothing);
    }
    proof {
        assert(p[at - 1] == v@[at - 1]);
        assert(p.take(at - 1) =~= v@.take(at - 1));
    }
    let dir_end = end_without_slashes(&v, at - 1);
    if dir_end == 0 {
        Some(owned("/"))
    } else {
        let dir = string_of_range(&v, 0, dir_end);
        assert(v@.subrange(0, dir_end as int) =~= v@.take(dir_end as int));
        Some(dir)
    }
}

} // verus!
