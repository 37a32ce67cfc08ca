//! Where the test documents are, and what is made of them once they were read.

use vstd::prelude::*;
use vstd::string::*;

use crate::error::{error_of, ErrorKind, KitError, KitErrorView};
use crate::order::{rows, rows_precede, sort_by_key, sorted, Keyed};
use crate::tester::runner::{forward_slashes, to_forward_slashes};
use crate::tester::types::{
    GlobalDefaults, GlobalTestConfig, LoadedSpecs, LoadedSuite,
};
use crate::text::{chars_of, chars_start_with, has_prefix, owned, string_of_range};

verus! {

pub const TEST_CONFIG_PATH: &'static str = "database/tests/config.toml";

pub const TEST_SUITES_DIR: &'static str = "database/tests/suites";

/// Whether a configuration is that of a project that has none: no
/// defaults, no actors, no fixtures.
pub open spec fn is_default_config(config: GlobalTestConfig) -> bool {
    &&& config.defaults.base_url is None
    &&& config.defaults.timeout_ms is None
    &&& config.actors@.len() == 0
    &&& config.fixtures@.len() == 0
}

/// The configuration of a project that has none.
pub fn default_global_config() -> (config: GlobalTestConfig)
    ensures
        is_default_config(config),
{
    GlobalTestConfig {
        defaults: GlobalDefaults { base_url: None, timeout_ms: None },
        actors: Vec::new(),
        fixtures: Vec::new(),
    }
}

/// The global configuration: the one that was found, else the default.
pub fn load_global_config(found: Option<GlobalTestConfig>) -> (config: GlobalTestConfig)
    ensures
        match found {
            Some(c) => config == c,
            None => is_default_config(config),
        },
{
    match found {
        Some(c) => c,
        None => default_global_config(),
    }
}

impl Keyed for LoadedSuite {
    open spec fn key(&self) -> Seq<Seq<char>> {
        seq![self.path@]
    }

    fn precedes(&self, other: &Self) -> (r: bool) {
        let mut a: Vec<Vec<char>> = Vec::new();
        a.push(chars_of(self.path.as_str()));
        let mut b: Vec<Vec<char>> = Vec::new();
        b.push(chars_of(other.path.as_str()));
        assert(rows(a@) =~= self.key());
        assert(rows(b@) =~= other.key());
        rows_precede(&a, &b)
    }
}

/// The suites in the order of their paths.
pub fn load_suites(found: Vec<LoadedSuite>) -> (suites: Vec<LoadedSuite>)
    ensures
        sorted(suites@),
        suites@.to_multiset() == found@.to_multiset(),
{
    sort_by_key(found)
}

pub open spec fn no_suites() -> KitErrorView {
    error_of(ErrorKind::Configuration, "No suite files found in database/tests/suites"@)
}

/// The specs of a project from what was read: the global configuration
/// or its default, and the suites in the order of their paths. A project
/// without suites is an error.
pub fn load_specs(global: Option<GlobalTestConfig>, found: Vec<LoadedSuite>) -> (r: Result<
    LoadedSpecs,
    KitError,
>)
    ensures
        found@.len() == 0 ==> r is Err && r->Err_0@ == no_suites(),
        found@.len() > 0 ==> r is Ok && sorted(r->Ok_0.suites@) && r->Ok_0.suites@.to_multiset()
            == found@.to_multiset(),
        found@.len() > 0 && global is Some ==> r->Ok_0.global == global->0,
        found@.len() > 0 && global is None ==> is_default_config(r->Ok_0.global),
{
    if found.len() == 0 {
        return Err(
            KitError::new(
                ErrorKind::Configuration,
                owned("No suite files found in database/tests/suites"),
            ),
        );
    }
    let global = load_global_config(global);
    let suites = load_suites(found);
    Ok(LoadedSpecs { global, suites })
}

/// A path as seen from a directory: what follows the directory and a
/// slash where the path lies in it, else the path itself.
pub open spec fn relative_to(path: Seq<char>, dir: Seq<char>) -> Seq<char> {
    if dir.len() > 0 && has_prefix(path, dir + "/"@) {
        path.skip((dir.len() + 1) as int)
    } else {
        path
    }
}

pub fn relative(path: &str, dir: &str) -> (out: String)
    ensures
        out@ == relative_to(path@, dir@),
{
    let p = chars_of(path);
    let d = chars_of(dir);
    let prefix = crate::text::concat2(dir, "/");
    let q = chars_of(prefix.as_str());
    assert(p@.skip(0) =~= p@);
    if d.len() > 0 && chars_start_with(&p, 0, &q) {
        proof {
            reveal_strlit("/");
            assert(q@.len() == d@.len() + 1);
        }
        let out = string_of_range(&p, d.len() + 1, p.len());
        assert(p@.subrange(d.len() + 1, p.len() as int) =~= p@.skip(d.len() + 1));
        out
    } else {
        owned(path)
    }
}

/// The text under which the path of a suite is shown: with forward slashes.
pub fn display(path: &str) -> (out: String)
    ensures
        out@ == forward_slashes(path@),
{
    to_forward_slashes(path)
}

} // verus!
