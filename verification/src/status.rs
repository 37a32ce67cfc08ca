//! The migrations that were applied, for the operator.

use vstd::prelude::*;
use vstd::string::*;

use crate::migration::Migration;
use crate::text::{concat5, owned, views};

verus! {

/// The statement that reads the ledger in the order of application.
pub const STATUS_QUERY: &'static str =
    "SELECT id, file, applied_at FROM _migrations ORDER BY applied_at;";

pub open spec fn row_line(m: Migration) -> Seq<char> {
    m.applied_at@ + " "@ + m.id@ + " "@ + m.file@
}

pub open spec fn row_lines(rows: Seq<Migration>) -> Seq<Seq<char>> {
    Seq::new(rows.len(), |i: int| row_line(rows[i]))
}

/// What is said about the ledger: that it is empty, or a heading and one
/// line for each row.
pub open spec fn status_lines(rows: Seq<Migration>) -> Seq<Seq<char>> {
    if rows.len() == 0 {
        seq!["No migrations recorded"@]
    } else {
        seq!["Applied migrations:"@] + row_lines(rows)
    }
}

pub fn status(rows: &Vec<Migration>) -> (out: Vec<String>)
    ensures
        views(out@) == status_lines(rows@),
{
    let mut out: Vec<String> = Vec::new();
    if rows.len() == 0 {
        out.push(owned("No migrations recorded"));
        assert(views(out@) =~= seq!["No migrations recorded"@]);
        return out;
    }
    out.push(owned("Applied migrations:"));
    let ghost head = seq!["Applied migrations:"@];
    let ghost want = row_lines(rows@);
    assert(views(out@) =~= head + want.take(0));
    let mut i: usize = 0;
    while i < rows.len()
        invariant
            i <= rows.len(),
            want == row_lines(rows@),
            views(out@) == head + want.take(i as int),
        decreases rows.len() - i,
    {
        let m = &rows[i];
        let ghost before = views(out@);
        out.push(concat5(m.applied_at.as_str(), " ", m.id.as_str(), " ", m.file.as_str()));
        assert(views(out@) =~= before.push(want[i as int]));
        assert(before.push(want[i as int]) =~= head + want.take(i + 1));
        i += 1;
    }
    assert(want.take(rows.len() as int) =~= want);
    out
}

} // verus!
