//! The files that a project starts with, and what becomes of the setup
//! and seed scripts when they are missing.

use vstd::prelude::*;
use vstd::string::*;

use crate::error::{error_of, ErrorKind, KitError};
use crate::text::owned;

verus! {

pub const SEED_PATH: &'static str = "database/seed.surql";

pub const SETUP_PATH: &'static str = "database/setup.surql";

/// The setup script of a project that has none: the table that records
/// migrations, and its index.
pub const DEFAULT_SETUP: &'static str =
    "---\n--- Migrations: Bootstrap _migrations table for tracking\n---\nDEFINE TABLE OVERWRITE _migrations SCHEMAFULL\n\tPERMISSIONS NONE;\n\nDEFINE FIELD OVERWRITE file ON _migrations\n\tTYPE string\n\tCOMMENT \"Relative path to migration file\";\n\nDEFINE FIELD OVERWRITE applied_at ON _migrations\n\tTYPE datetime\n\tDEFAULT time::now();\n\n---\n--- Indexes\n---\nDEFINE INDEX OVERWRITE by_file ON _migrations\n\tFIELDS file\n\tCOMMENT \"Lookup by file name\";\n";

/// The seed script of a project that has none.
pub const DEFAULT_SEED: &'static str = "--- SEED\n";

/// A file to write.
#[derive(Debug, Clone)]
pub struct FileToWrite {
    pub path: String,
    pub content: String,
}

pub open spec fn file_pairs(v: Seq<FileToWrite>) -> Seq<(Seq<char>, Seq<char>)> {
    Seq::new(v.len(), |i: int| (v[i].path@, v[i].content@))
}

pub open spec fn missing(exists: bool, path: Seq<char>, content: Seq<char>) -> Seq<
    (Seq<char>, Seq<char>),
> {
    if exists {
        Seq::empty()
    } else {
        seq![(path, content)]
    }
}

/// The files that scaffolding writes: the seed script and the setup
/// script, each where the project has none yet.
pub fn scaffold(seed_exists: bool, setup_exists: bool) -> (out: Vec<FileToWrite>)
    ensures
        file_pairs(out@) == missing(seed_exists, "database/seed.surql"@, "--- SEED\n"@) + missing(
            setup_exists,
            "database/setup.surql"@,
            DEFAULT_SETUP@,
        ),
{
    let mut out: Vec<FileToWrite> = Vec::new();
    assert(file_pairs(out@) =~= Seq::<(Seq<char>, Seq<char>)>::empty());
    if !seed_exists {
        out.push(FileToWrite { path: owned(SEED_PATH), content: owned(DEFAULT_SEED) });
    }
    let ghost first = file_pairs(out@);
    assert(first =~= missing(seed_exists, "database/seed.surql"@, "--- SEED\n"@));
    if !setup_exists {
        out.push(FileToWrite { path: owned(SETUP_PATH), content: owned(DEFAULT_SETUP) });
        assert(file_pairs(out@) =~= first + seq![("database/setup.surql"@, DEFAULT_SETUP@)]);
    } else {
        assert(first + Seq::<(Seq<char>, Seq<char>)>::empty() =~= first);
    }
    out
}

/// The setup script to run: the one that the project has, else the default.
pub fn run_setup(found: Option<String>) -> (sql: String)
    ensures
        sql@ == match found {
            Some(s) => s@,
            None => DEFAULT_SETUP@,
        },
{
    match found {
        Some(s) => s,
        None => owned(DEFAULT_SETUP),
    }
}

/// The seed script to run; a project without one cannot be seeded.
pub fn seed(found: Option<String>) -> (r: Result<String, KitError>)
    ensures
        match found {
            Some(s) => r is Ok && r->Ok_0@ == s@,
            None => r is Err && r->Err_0@ == error_of(
                ErrorKind::Configuration,
                "seed file not found: database/seed.surql"@,
            ),
        },
{
    match found {
        Some(s) => Ok(s),
        None => Err(
            KitError::new(
                ErrorKind::Configuration,
                owned("seed file not found: database/seed.surql"),
            ),
        ),
    }
}

} // verus!
