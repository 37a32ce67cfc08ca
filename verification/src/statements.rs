//! Schema text cut into statements and words. The statements are read
//! only as far as it takes to find what they define: comment lines go, the
//! text is cut at semicolons outside quotes, and a statement is cut into
//! words at white space.

use vstd::prelude::*;
use vstd::string::*;

use crate::text::{
    chars_of, chars_start_with, has_prefix, join, join_strings, lines, split_lines, split_words,
    string_of_range, trim_bounds, trim_start_by, trimmed, views, words, CharClass,
};

verus! {

/// Whether a line is a comment: its first characters after white space
/// are `--` or `//`.
pub open spec fn is_comment_line(line: Seq<char>) -> bool {
    let t = trim_start_by(line, CharClass::Space);
    has_prefix(t, "--"@) || has_prefix(t, "//"@)
}

/// The lines that are no comments, in order.
pub open spec fn code_lines(ls: Seq<Seq<char>>) -> Seq<Seq<char>>
    decreases ls.len(),
{
    if ls.len() == 0 {
        Seq::empty()
    } else if is_comment_line(ls.last()) {
        code_lines(ls.drop_last())
    } else {
        code_lines(ls.drop_last()).push(ls.last())
    }
}

/// The text without its comment lines, the remaining lines joined by line feeds.
pub open spec fn without_comments(sql: Seq<char>) -> Seq<char> {
    join(code_lines(lines(sql)), "\n"@)
}

/// Drops the lines that are comments. A comment that follows code on its
/// line stays.
pub fn strip_line_comments(sql: &str) -> (out: String)
    ensures
        out@ == without_comments(sql@),
{
    let all = split_lines(sql);
    let dashes = chars_of("--");
    let slashes = chars_of("//");
    let mut kept: Vec<String> = Vec::new();
    let mut i: usize = 0;
    proof {
        assert(views(all@).take(0) =~= Seq::<Seq<char>>::empty());
        assert(views(kept@) =~= Seq::<Seq<char>>::empty());
    }
    while i < all.len()
        invariant
            i <= all.len(),
            dashes@ == "--"@,
            slashes@ == "//"@,
            views(kept@) == code_lines(views(all@).take(i as int)),
        decreases all.len() - i,
    {
        let line = chars_of(all[i].as_str());
        let (lo, _hi) = trim_bounds(&line, CharClass::Space);
        let comment = chars_start_with(&line, lo, &dashes) || chars_start_with(
            &line,
            lo,
            &slashes,
        );
        proof {
            let next = views(all@).take(i + 1);
            assert(next.drop_last() =~= views(all@).take(i as int));
            assert(next.last() == all@[i as int]@);
        }
        if !comment {
            let ghost before = views(kept@);
            kept.push(all[i].clone());
            assert(views(kept@) =~= before.push(all@[i as int]@));
        }
        i += 1;
    }
    assert(views(all@).take(all.len() as int) =~= views(all@));
    join_strings(&kept, "\n")
}

/// Where a scan stands: inside which quotes, and whether the character
/// before was a backslash that escapes the next one.
pub struct Scan {
    pub single: bool,
    pub double: bool,
    pub backtick: bool,
    pub escaped: bool,
}

/// The scan after one more character. A quote that is not escaped opens
/// or closes its kind of quoting unless another kind is open; a backslash
/// escapes the next character unless it is escaped itself.
pub open spec fn scan_step(st: Scan, ch: char) -> Scan {
    Scan {
        single: if ch == '\'' && !st.double && !st.backtick && !st.escaped {
            !st.single
        } else {
            st.single
        },
        double: if ch == '"' && !st.single && !st.backtick && !st.escaped {
            !st.double
        } else {
            st.double
        },
        backtick: if ch == '`' && !st.single && !st.double && !st.escaped {
            !st.backtick
        } else {
            st.backtick
        },
        escaped: ch == '\\' && !st.escaped,
    }
}

/// The statement that the collected text gives: the text without white
/// space at its ends, if anything is left.
pub open spec fn emitted(buf: Seq<char>) -> Seq<Seq<char>> {
    if trimmed(buf).len() > 0 {
        seq![trimmed(buf)]
    } else {
        Seq::empty()
    }
}

/// The statements that remain of `buf` followed by `s`. A semicolon
/// outside quotes ends a statement; what follows the last one is a
/// statement too.
pub open spec fn statements_from(s: Seq<char>, st: Scan, buf: Seq<char>) -> Seq<Seq<char>>
    decreases s.len(),
{
    if s.len() == 0 {
        emitted(buf)
    } else if s[0] == ';' && !st.single && !st.double && !st.backtick {
        emitted(buf) + statements_from(
            s.drop_first(),
            Scan { single: false, double: false, backtick: false, escaped: false },
            Seq::empty(),
        )
    } else {
        statements_from(s.drop_first(), scan_step(st, s[0]), buf.push(s[0]))
    }
}

/// The statements of a text.
pub open spec fn statements(sql: Seq<char>) -> Seq<Seq<char>> {
    statements_from(
        sql,
        Scan { single: false, double: false, backtick: false, escaped: false },
        Seq::empty(),
    )
}

fn emit(buf: &Vec<char>, out: &mut Vec<String>)
    ensures
        views(final(out)@) == views(old(out)@) + emitted(buf@),
{
    let (lo, hi) = trim_bounds(buf, CharClass::Space);
    if lo < hi {
        let ghost before = views(out@);
        out.push(string_of_range(buf, lo, hi));
        assert(views(out@) =~= before + seq![trimmed(buf@)]);
    } else {
        assert(views(out@) + Seq::<Seq<char>>::empty() =~= views(out@));
    }
}

/// Cuts a text into statements at the semicolons outside quotes.
pub fn split_statements(sql: &str) -> (out: Vec<String>)
    ensures
        views(out@) == statements(sql@),
{
    let v = chars_of(sql);
    let mut out: Vec<String> = Vec::new();
    let mut buf: Vec<char> = Vec::new();
    let mut in_single = false;
    let mut in_double = false;
    let mut in_backtick = false;
    let mut prev_escape = false;
    let mut i: usize = 0;
    proof {
        assert(v@.skip(0) =~= v@);
        assert(views(out@) + statements(v@) =~= statements(v@));
    }
    while i < v.len()
        invariant
            i <= v.len(),
            statements(v@) == views(out@) + statements_from(
                v@.skip(i as int),
                Scan {
                    single: in_single,
                    double: in_double,
                    backtick: in_backtick,
                    escaped: prev_escape,
                },
                buf@,
            ),
        decreases v.len() - i,
    {
        let ch = v[i];
        let ghost rest = v@.skip(i as int);
        assert(rest[0] == ch);
        assert(rest.drop_first() =~= v@.skip(i + 1));
        if ch == ';' && !in_single && !in_double && !in_backtick {
            emit(&buf, &mut out);
            buf = Vec::new();
            prev_escape = false;
            assert(statements(v@) =~= views(out@) + statements_from(
                v@.skip(i + 1),
                Scan { single: false, double: false, backtick: false, escaped: false },
                Seq::empty(),
            ));
        } else {
            let opens_single = ch == '\'' && !in_double && !in_backtick && !prev_escape;
            let opens_double = ch == '"' && !in_single && !in_backtick && !prev_escape;
            let opens_backtick = ch == '`' && !in_single && !in_double && !prev_escape;
            if opens_single {
                in_single = !in_single;
            }
            if opens_double {
                in_double = !in_double;
            }
            if opens_backtick {
                in_backtick = !in_backtick;
            }
            prev_escape = ch == '\\' && !prev_escape;
            buf.push(ch);
        }
        i += 1;
    }
    emit(&buf, &mut out);
    out
}

/// Cuts a statement into words at white space.
pub fn tokenize(stmt: &str) -> (out: Vec<String>)
    ensures
        views(out@) == words(stmt@),
{
    split_words(stmt)
}

/// Whether no text of a list is empty.
pub open spec fn none_empty(list: Seq<Seq<char>>) -> bool {
    forall|i: int| 0 <= i < list.len() ==> (#[trigger] list[i]).len() > 0
}

/// No statement that is cut from a text is empty.
pub proof fn lemma_statements_are_not_empty(s: Seq<char>, st: Scan, buf: Seq<char>)
    ensures
        none_empty(statements_from(s, st, buf)),
    decreases s.len(),
{
    let first = emitted(buf);
    assert(none_empty(first)) by {
        assert forall|i: int| 0 <= i < first.len() implies (#[trigger] first[i]).len() > 0 by {
            assert(first[i] == trimmed(buf));
        }
    }
    if s.len() > 0 {
        if s[0] == ';' && !st.single && !st.double && !st.backtick {
            let fresh = Scan { single: false, double: false, backtick: false, escaped: false };
            let rest = statements_from(s.drop_first(), fresh, Seq::empty());
            lemma_statements_are_not_empty(s.drop_first(), fresh, Seq::empty());
            let all = first + rest;
            assert forall|i: int| 0 <= i < all.len() implies (#[trigger] all[i]).len() > 0 by {
                if i < first.len() {
                    assert(all[i] == first[i]);
                } else {
                    assert(all[i] == rest[i - first.len()]);
                }
            }
        } else {
            lemma_statements_are_not_empty(s.drop_first(), scan_step(st, s[0]), buf.push(s[0]));
        }
    }
}

} // verus!
