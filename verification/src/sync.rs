//! Bringing the database in line with the schema directory: one pass of
//! it, decision by decision. Running statements and reading or writing the
//! tracking tables is left to the caller, which is told what to do next and
//! reports back what came of it.

use vstd::prelude::*;
use vstd::string::*;

use crate::catalog::{entity_views, remove_statements, render_remove_sql};
use crate::config::{env_lookup, env_value, EnvVar};
use crate::error::{error_of, ErrorKind, KitError, KitErrorView};
use crate::json::{find_member, Json, JsonValue};
use crate::schema_state::{hash_of, EntityKey, SchemaFile, SchemaSnapshotEntry};
use crate::text::{
    concat2, concat3, concat5, decimal, decimal_string, is_blank, join, join_strings, lower_seq,
    owned, str_eq, str_is_blank, str_lower, str_trim, trimmed, views,
};

verus! {

/// What the operator asked of a sync.
#[derive(Debug, Clone, Copy, PartialEq, Eq, Structural)]
pub struct SyncOpts {
    pub watch: bool,
    pub debounce_ms: u64,
    pub dry_run: bool,
    pub fail_fast: bool,
    pub prune: bool,
    pub allow_shared_prune: bool,
}

/// The least time between two passes of a watch, in milliseconds.
pub const MIN_INTERVAL_MS: u64 = 250;

/// The time between two passes of a watch: what was asked for, but no
/// less than the least.
pub fn watch_interval_ms(opts: &SyncOpts) -> (ms: u64)
    ensures
        ms == if opts.debounce_ms < 250 {
            250
        } else {
            opts.debounce_ms
        },
{
    if opts.debounce_ms < MIN_INTERVAL_MS {
        MIN_INTERVAL_MS
    } else {
        opts.debounce_ms
    }
}

/// What is said when a watch begins.
pub fn watch_banner(opts: &SyncOpts) -> (out: String)
    ensures
        out@ == "Watch mode active ("@ + decimal(
            (if opts.debounce_ms < 250 {
                250
            } else {
                opts.debounce_ms
            }) as nat,
        ) + "ms interval). Waiting for schema changes... (Ctrl+C to stop)"@,
{
    let ms = decimal_string(watch_interval_ms(opts) as u128);
    concat3(
        "Watch mode active (",
        ms.as_str(),
        "ms interval). Waiting for schema changes... (Ctrl+C to stop)",
    )
}

/// What a watch does when a pass has failed: it ends with the error where
/// the sync is to fail fast, and goes on otherwise.
pub fn watch_stops_on_error(opts: &SyncOpts) -> (stop: bool)
    ensures
        stop == opts.fail_fast,
{
    opts.fail_fast
}

/// The truth value that a text spells, if it spells one.
pub open spec fn parsed_bool(raw: Seq<char>) -> Option<bool> {
    let t = lower_seq(trimmed(raw));
    if t == "1"@ || t == "true"@ || t == "yes"@ || t == "y"@ || t == "on"@ {
        Some(true)
    } else if t == "0"@ || t == "false"@ || t == "no"@ || t == "n"@ || t == "off"@ {
        Some(false)
    } else {
        None
    }
}

pub fn parse_bool(raw: &str) -> (r: Option<bool>)
    ensures
        r == parsed_bool(raw@),
{
    let trimmed = str_trim(raw);
    let lowered = str_lower(trimmed.as_str());
    let t = lowered.as_str();
    if str_eq(t, "1") || str_eq(t, "true") || str_eq(t, "yes") || str_eq(t, "y") || str_eq(
        t,
        "on",
    ) {
        Some(true)
    } else if str_eq(t, "0") || str_eq(t, "false") || str_eq(t, "no") || str_eq(t, "n") || str_eq(
        t,
        "off",
    ) {
        Some(false)
    } else {
        None
    }
}

/// The text of a member of an object that is a string.
pub open spec fn text_member(row: Json, key: Seq<char>) -> Option<Seq<char>> {
    match row {
        Json::Object(members) => match find_member(members, key) {
            Some(Json::Text(s)) => Some(s),
            _ => None,
        },
        _ => None,
    }
}

fn member_text<'a>(row: &'a JsonValue, key: &str) -> (r: Option<&'a String>)
    ensures
        match r {
            Some(s) => text_member(row@, key@) == Some(s@),
            None => text_member(row@, key@) is None,
        },
{
    match row.member(key) {
        Some(JsonValue::Text(s)) => Some(s),
        _ => None,
    }
}

/// The hashes that the rows of the tracking table record: one entry for
/// each row that has a path and a hash, in the order of the rows.
pub open spec fn rows_known(rows: Seq<JsonValue>) -> Seq<(Seq<char>, Seq<char>)>
    decreases rows.len(),
{
    if rows.len() == 0 {
        Seq::empty()
    } else {
        let before = rows_known(rows.drop_last());
        let row = rows.last()@;
        if text_member(row, "path"@) is Some && text_member(row, "hash"@) is Some {
            before.push((text_member(row, "path"@)->0, text_member(row, "hash"@)->0))
        } else {
            before
        }
    }
}

pub open spec fn entry_pairs(v: Seq<SchemaSnapshotEntry>) -> Seq<(Seq<char>, Seq<char>)> {
    Seq::new(v.len(), |i: int| (v[i].path@, v[i].hash@))
}

/// Reads the known hashes from the rows of the tracking table.
pub fn load_sync_hashes(rows: &Vec<JsonValue>) -> (out: Vec<SchemaSnapshotEntry>)
    ensures
        entry_pairs(out@) == rows_known(rows@),
{
    let mut out: Vec<SchemaSnapshotEntry> = Vec::new();
    let mut i: usize = 0;
    proof {
        assert(rows@.take(0) =~= Seq::<JsonValue>::empty());
        assert(entry_pairs(out@) =~= Seq::<(Seq<char>, Seq<char>)>::empty());
    }
    while i < rows.len()
        invariant
            i <= rows.len(),
            entry_pairs(out@) == rows_known(rows@.take(i as int)),
        decreases rows.len() - i,
    {
        proof {
            let next = rows@.take(i + 1);
            assert(next.drop_last() =~= rows@.take(i as int));
            assert(next.last() == rows@[i as int]);
        }
        let ghost before = entry_pairs(out@);
        match (member_text(&rows[i], "path"), member_text(&rows[i], "hash")) {
            (Some(path), Some(hash)) => {
                out.push(SchemaSnapshotEntry { path: path.clone(), hash: hash.clone() });
                assert(entry_pairs(out@) =~= before.push((path@, hash@)));
            },
            _ => {},
        }
        i += 1;
    }
    assert(rows@.take(rows.len() as int) =~= rows@);
    out
}

/// Whether the database counts as shared by what the environment says,
/// where it says anything.
pub open spec fn shared_by_env(env: Seq<EnvVar>) -> Option<bool> {
    match env_value(env, "SURREALKIT_SHARED_DB"@) {
        Some(v) => parsed_bool(v),
        None => None,
    }
}

pub fn shared_override(env: &Vec<EnvVar>) -> (r: Option<bool>)
    ensures
        r == shared_by_env(env@),
{
    match env_lookup(env, "SURREALKIT_SHARED_DB") {
        Some(v) => parse_bool(v.as_str()),
        None => None,
    }
}

/// Whether the database counts as shared by the row that the server
/// stores about it: it does where the row has a true `value`.
pub open spec fn shared_by_row(row: Option<Json>) -> bool {
    match row {
        Some(Json::Object(members)) => find_member(members, "value"@) == Some(Json::Bool(true)),
        _ => false,
    }
}

pub fn shared_from_row(row: &Option<JsonValue>) -> (r: bool)
    ensures
        r == shared_by_row(crate::tester::types::json_opt_view(*row)),
{
    match row {
        Some(v) => match v.member("value") {
            Some(JsonValue::Bool(b)) => *b,
            _ => false,
        },
        None => false,
    }
}

/// Whether the database counts as shared: the environment decides where
/// it says anything, else the row that the server stores.
pub fn detect_shared_db(env: &Vec<EnvVar>, row: &Option<JsonValue>) -> (r: bool)
    ensures
        r == match shared_by_env(env@) {
            Some(b) => b,
            None => shared_by_row(crate::tester::types::json_opt_view(*row)),
        },
{
    match shared_override(env) {
        Some(b) => b,
        None => shared_from_row(row),
    }
}

/// One row of the sync metadata.
#[derive(Debug)]
pub struct MetaEntry {
    pub key: String,
    pub value: JsonValue,
}

pub open spec fn meta_pairs(v: Seq<MetaEntry>) -> Seq<(Seq<char>, Json)> {
    Seq::new(v.len(), |i: int| (v[i].key@, v[i].value@))
}

/// The metadata that the environment asks to be written: whether the
/// database is shared, where it says so, and who owns it, where it names
/// someone.
pub open spec fn env_meta(env: Seq<EnvVar>) -> Seq<(Seq<char>, Json)> {
    let shared = match shared_by_env(env) {
        Some(b) => seq![("shared"@, Json::Bool(b))],
        None => Seq::empty(),
    };
    let owner = match env_value(env, "SURREALKIT_OWNER"@) {
        Some(o) => if is_blank(o) {
            Seq::empty()
        } else {
            seq![("owner"@, Json::Text(o))]
        },
        None => Seq::empty(),
    };
    shared + owner
}

/// The metadata to write after a pass: what the environment asks for, then
/// the time of the pass under `last_sync`.
pub fn sync_meta(env: &Vec<EnvVar>, now: &str) -> (out: Vec<MetaEntry>)
    ensures
        meta_pairs(out@) == env_meta(env@).push(("last_sync"@, Json::Text(now@))),
{
    let mut out: Vec<MetaEntry> = Vec::new();
    assert(meta_pairs(out@) =~= Seq::<(Seq<char>, Json)>::empty());
    if let Some(shared) = shared_override(env) {
        out.push(MetaEntry { key: owned("shared"), value: JsonValue::Bool(shared) });
    }
    let ghost first = meta_pairs(out@);
    assert(first =~= match shared_by_env(env@) {
        Some(b) => seq![("shared"@, Json::Bool(b))],
        None => Seq::empty(),
    });
    if let Some(owner) = env_lookup(env, "SURREALKIT_OWNER") {
        if !str_is_blank(owner.as_str()) {
            out.push(MetaEntry { key: owned("owner"), value: JsonValue::Text(owner.clone()) });
            assert(meta_pairs(out@) =~= first + seq![("owner"@, Json::Text(owner@))]);
        }
    }
    assert(meta_pairs(out@) =~= env_meta(env@)) by {
        assert(first + Seq::<(Seq<char>, Json)>::empty() =~= first);
    }
    let ghost before = meta_pairs(out@);
    out.push(MetaEntry { key: owned("last_sync"), value: JsonValue::Text(owned(now)) });
    assert(meta_pairs(out@) =~= before.push(("last_sync"@, Json::Text(now@))));
    out
}

/// Whether a file is to be applied: the hash known for its path is not
/// the hash of the file.
pub open spec fn is_changed(file: SchemaFile, known: Seq<SchemaSnapshotEntry>) -> bool {
    hash_of(known, file.path@) != Some(file.hash@)
}

pub fn file_changed(file: &SchemaFile, known: &Vec<SchemaSnapshotEntry>) -> (r: bool)
    ensures
        r == is_changed(*file, known@),
{
    let mut i: usize = known.len();
    proof {
        assert(known@.take(known.len() as int) =~= known@);
    }
    while i > 0
        invariant
            i <= known.len(),
            hash_of(known@, file.path@) == hash_of(known@.take(i as int), file.path@),
        decreases i,
    {
        let ghost front = known@.take(i as int);
        assert(front.last() == known@[i - 1]);
        assert(front.drop_last() =~= known@.take(i - 1));
        i -= 1;
        if str_eq(known[i].path.as_str(), file.path.as_str()) {
            return !str_eq(known[i].hash.as_str(), file.hash.as_str());
        }
    }
    true
}

/// Where a line goes.
#[derive(Debug, Clone, Copy, PartialEq, Eq, Structural)]
pub enum Stream {
    Stdout,
    Stderr,
}

/// A line for the operator.
#[derive(Debug, Clone)]
pub struct Note {
    pub stream: Stream,
    pub text: String,
}

pub open spec fn note_views(v: Seq<Note>) -> Seq<(Stream, Seq<char>)> {
    Seq::new(v.len(), |i: int| (v[i].stream, v[i].text@))
}

/// What a pass waits for.
#[derive(Debug, Clone, Copy, PartialEq, Eq, Structural)]
pub enum SyncPhase {
    /// File `index` is applied.
    Applying,
    /// The hash of file `index` is recorded.
    Recording,
    /// The catalog of the files is held against the one that was recorded.
    Comparing,
    /// The server is asked whether the database is shared.
    Detecting,
    /// The stale entities are removed.
    Pruning,
    /// The metadata is written.
    Closing,
    /// The pass is over.
    Finished,
}

/// A pass that is under way: what it waits for, the file it is at, and
/// what it has counted.
#[derive(Debug, Clone, Copy, PartialEq, Eq, Structural)]
pub struct SyncPass {
    pub phase: SyncPhase,
    pub index: usize,
    pub changed: usize,
    pub errors: usize,
    pub pruned: usize,
}

/// What the caller is to do next.
#[derive(Debug)]
pub enum SyncAction {
    /// Run the text of file `index` and hand the outcome to `applied`.
    Apply { index: usize },
    /// Record path and hash of file `index` and hand the outcome to `recorded`.
    Record { index: usize },
    /// Find the entities that the recorded catalog has and the files no
    /// longer define, and hand the outcome to `compared`, with those entities
    /// in the input from then on.
    CompareCatalog,
    /// Read the row that says whether the database is shared and hand it
    /// to `shared_known`.
    DetectShared,
    /// Run `sql` and hand the outcome to `pruned`.
    Prune { sql: String },
    /// Write the metadata of the pass and hand the outcome to `meta_written`.
    WriteMeta,
    /// Nothing: the pass is over.
    Finish { result: Result<(), KitError> },
}

pub enum SyncActionView {
    Apply { index: usize },
    Record { index: usize },
    CompareCatalog,
    DetectShared,
    Prune { sql: Seq<char> },
    WriteMeta,
    Finish { result: Result<(), KitErrorView> },
}

impl View for SyncAction {
    type V = SyncActionView;

    open spec fn view(&self) -> SyncActionView {
        match *self {
            SyncAction::Apply { index } => SyncActionView::Apply { index },
            SyncAction::Record { index } => SyncActionView::Record { index },
            SyncAction::CompareCatalog => SyncActionView::CompareCatalog,
            SyncAction::DetectShared => SyncActionView::DetectShared,
            SyncAction::Prune { sql } => SyncActionView::Prune { sql: sql@ },
            SyncAction::WriteMeta => SyncActionView::WriteMeta,
            SyncAction::Finish { result } => SyncActionView::Finish {
                result: match result {
                    Ok(_) => Ok(()),
                    Err(e) => Err(e@),
                },
            },
        }
    }
}

/// What a pass says and asks for at one step.
#[derive(Debug)]
pub struct SyncStep {
    pub pass: SyncPass,
    pub notes: Vec<Note>,
    pub action: SyncAction,
}

pub struct SyncStepView {
    pub pass: SyncPass,
    pub notes: Seq<(Stream, Seq<char>)>,
    pub action: SyncActionView,
}

impl View for SyncStep {
    type V = SyncStepView;

    open spec fn view(&self) -> SyncStepView {
        SyncStepView { pass: self.pass, notes: note_views(self.notes@), action: self.action@ }
    }
}

/// All that a pass works on: the files of the schema directory, the
/// hashes that are known, the entities that are stale, what the operator
/// asked for, whether the pass is one of a watch, and what the environment
/// says about sharing. The stale entities are read from `compared` on; until
/// then the list may be empty.
pub struct SyncInput<'a> {
    pub files: &'a Vec<SchemaFile>,
    pub known: &'a Vec<SchemaSnapshotEntry>,
    pub stale: &'a Vec<EntityKey>,
    pub opts: SyncOpts,
    pub watch_mode: bool,
    pub shared_override: Option<bool>,
}

/// One more, as far as a count can hold it.
pub open spec fn bumped(n: usize) -> usize {
    if n < usize::MAX {
        (n + 1) as usize
    } else {
        n
    }
}

fn bump(n: usize) -> (r: usize)
    ensures
        r == bumped(n),
{
    if n < usize::MAX {
        n + 1
    } else {
        n
    }
}

/// A line for the standard output.
pub open spec fn said(text: Seq<char>) -> (Stream, Seq<char>) {
    (Stream::Stdout, text)
}

/// A line for the standard error.
pub open spec fn warned(text: Seq<char>) -> (Stream, Seq<char>) {
    (Stream::Stderr, text)
}

/// What a pass says at its end.
///
/// A pass of a watch speaks only where something changed, and says how
/// much was pushed or would have been. Any other pass says so where nothing
/// changed. Errors of files are counted, and stale entities that were left
/// because pruning is off are pointed out.
pub open spec fn closing_notes(input: SyncInput, pass: SyncPass) -> Seq<(Stream, Seq<char>)> {
    let stale = input.stale@.len();
    let first = if input.watch_mode {
        if pass.changed > 0 || stale > 0 {
            if input.opts.dry_run {
                seq![
                    said(
                        "Change detected (dry-run): "@ + decimal(pass.changed as nat)
                            + " schema file(s), "@ + decimal(stale)
                            + " stale entity(ies) would be pushed."@,
                    ),
                ]
            } else {
                seq![
                    said(
                        "Change detected and pushed: "@ + decimal(pass.changed as nat)
                            + " schema file(s) synced, "@ + decimal(pass.pruned as nat)
                            + " stale entity(ies) pruned."@,
                    ),
                ]
            }
        } else {
            Seq::empty()
        }
    } else if pass.changed == 0 {
        seq![said("schema already in sync"@)]
    } else {
        Seq::empty()
    };
    let second = if pass.errors > 0 {
        seq![warned("sync completed with "@ + decimal(pass.errors as nat) + " apply error(s)"@)]
    } else {
        Seq::empty()
    };
    let third = if stale > 0 && !input.opts.prune {
        seq![
            said(
                "detected "@ + decimal(stale)
                    + " stale entities; rerun without --no-prune to remove"@,
            ),
        ]
    } else {
        Seq::empty()
    };
    first + second + third
}

pub open spec fn step_of(
    pass: SyncPass,
    phase: SyncPhase,
    notes: Seq<(Stream, Seq<char>)>,
    action: SyncActionView,
) -> SyncStepView {
    SyncStepView {
        pass: SyncPass {
            phase,
            index: pass.index,
            changed: pass.changed,
            errors: pass.errors,
            pruned: pass.pruned,
        },
        notes,
        action,
    }
}

/// The pass ends with an error.
pub open spec fn failed(pass: SyncPass, notes: Seq<(Stream, Seq<char>)>, e: KitErrorView)
    -> SyncStepView {
    step_of(pass, SyncPhase::Finished, notes, SyncActionView::Finish { result: Err(e) })
}

/// The pass ends well, with its closing notes after `notes`.
pub open spec fn completed(input: SyncInput, pass: SyncPass, notes: Seq<(Stream, Seq<char>)>)
    -> SyncStepView {
    step_of(
        pass,
        SyncPhase::Finished,
        notes + closing_notes(input, pass),
        SyncActionView::Finish { result: Ok(()) },
    )
}

/// The end of a pass after pruning: the metadata is written unless the
/// pass is a dry run.
pub open spec fn closing(input: SyncInput, pass: SyncPass, notes: Seq<(Stream, Seq<char>)>)
    -> SyncStepView {
    if input.opts.dry_run {
        completed(input, pass, notes)
    } else {
        step_of(pass, SyncPhase::Closing, notes, SyncActionView::WriteMeta)
    }
}

pub open spec fn refused_shared() -> KitErrorView {
    error_of(
        ErrorKind::Configuration,
        "database is marked shared; refusing stale prune without --allow-shared-prune"@,
    )
}

pub open spec fn statement_notes(stmts: Seq<Seq<char>>) -> Seq<(Stream, Seq<char>)> {
    Seq::new(stmts.len(), |i: int| said("  "@ + stmts[i]))
}

/// What a pass does about stale entities once it is known whether the
/// database is shared. A shared database is pruned only where the operator
/// allowed it; a dry run lists the statements instead of running them.
pub open spec fn prune_with(
    input: SyncInput,
    pass: SyncPass,
    notes: Seq<(Stream, Seq<char>)>,
    shared: bool,
) -> SyncStepView {
    if shared && !input.opts.allow_shared_prune {
        failed(pass, notes, refused_shared())
    } else {
        match remove_statements(entity_views(input.stale@), true) {
            Err(e) => failed(pass, notes, e),
            Ok(stmts) => if input.opts.dry_run {
                closing(
                    input,
                    pass,
                    if input.watch_mode {
                        notes
                    } else {
                        notes + seq![
                            said(
                                "DRY RUN: would prune "@ + decimal(stmts.len())
                                    + " stale entities"@,
                            ),
                        ] + statement_notes(stmts)
                    },
                )
            } else {
                step_of(
                    pass,
                    SyncPhase::Pruning,
                    notes,
                    SyncActionView::Prune { sql: join(stmts, "\n"@) },
                )
            },
        }
    }
}

/// What a pass does once every file was seen: it asks which entities are stale.
pub open spec fn after_files(input: SyncInput, pass: SyncPass, notes: Seq<(Stream, Seq<char>)>)
    -> SyncStepView {
    step_of(pass, SyncPhase::Comparing, notes, SyncActionView::CompareCatalog)
}

/// What a pass does once the stale entities are known: it prunes where
/// that is on and something is stale, and closes otherwise.
pub open spec fn after_compare(input: SyncInput, pass: SyncPass, notes: Seq<(Stream, Seq<char>)>)
    -> SyncStepView {
    if input.opts.prune && input.stale@.len() > 0 {
        match input.shared_override {
            Some(shared) => prune_with(input, pass, notes, shared),
            None => step_of(pass, SyncPhase::Detecting, notes, SyncActionView::DetectShared),
        }
    } else {
        closing(input, pass, notes)
    }
}

/// What a pass does from file `from` on: files that did not change are
/// passed over; a dry run counts and names each file that changed; any
/// other pass stops at the first one and asks for it to be applied.
pub open spec fn advance(
    input: SyncInput,
    pass: SyncPass,
    from: int,
    notes: Seq<(Stream, Seq<char>)>,
) -> SyncStepView
    decreases input.files@.len() - from,
{
    if from < 0 || from >= input.files@.len() {
        after_files(input, pass, notes)
    } else if !is_changed(input.files@[from], input.known@) {
        advance(input, pass, from + 1, notes)
    } else {
        let counted = SyncPass {
            phase: pass.phase,
            index: from as usize,
            changed: bumped(pass.changed),
            errors: pass.errors,
            pruned: pass.pruned,
        };
        if input.opts.dry_run {
            advance(
                input,
                counted,
                from + 1,
                if input.watch_mode {
                    notes
                } else {
                    notes.push(said("DRY RUN: would apply "@ + input.files@[from].path@))
                },
            )
        } else {
            step_of(
                counted,
                SyncPhase::Applying,
                notes,
                SyncActionView::Apply { index: from as usize },
            )
        }
    }
}

/// How a pass begins: it says so where there are no files at all, unless
/// it is one of a watch, and goes to the first file.
pub open spec fn sync_start(input: SyncInput) -> SyncStepView {
    advance(
        input,
        SyncPass { phase: SyncPhase::Applying, index: 0, changed: 0, errors: 0, pruned: 0 },
        0,
        if input.files@.len() == 0 && !input.watch_mode {
            seq![said("No schema files found in database/schema"@)]
        } else {
            Seq::empty()
        },
    )
}

pub open spec fn unit_view(r: Result<(), String>) -> Result<(), Seq<char>> {
    match r {
        Ok(_) => Ok(()),
        Err(e) => Err(e@),
    }
}

pub open spec fn out_of_turn(pass: SyncPass) -> SyncStepView {
    failed(
        pass,
        Seq::empty(),
        error_of(ErrorKind::Execution, "the pass does not wait for this result"@),
    )
}

/// How a pass goes on when a file was applied. A file that was applied
/// has its hash recorded. A file that failed is counted and named; it ends
/// the pass where the sync is to fail fast, and is passed over otherwise.
pub open spec fn sync_applied(input: SyncInput, pass: SyncPass, result: Result<(), Seq<char>>)
    -> SyncStepView {
    if pass.phase != SyncPhase::Applying || pass.index >= input.files@.len() {
        out_of_turn(pass)
    } else {
        let path = input.files@[pass.index as int].path@;
        match result {
            Ok(_) => step_of(
                pass,
                SyncPhase::Recording,
                if input.watch_mode {
                    Seq::empty()
                } else {
                    seq![said("applied "@ + path)]
                },
                SyncActionView::Record { index: pass.index },
            ),
            Err(text) => {
                let counted = SyncPass {
                    phase: pass.phase,
                    index: pass.index,
                    changed: pass.changed,
                    errors: bumped(pass.errors),
                    pruned: pass.pruned,
                };
                let notes = seq![warned("error applying "@ + path + ": "@ + text)];
                if input.opts.fail_fast {
                    failed(counted, notes, error_of(ErrorKind::Execution, text))
                } else {
                    advance(input, counted, pass.index + 1, notes)
                }
            },
        }
    }
}

/// How a pass goes on when a hash was recorded: with the next file, or
/// with the error of the recording.
pub open spec fn sync_recorded(input: SyncInput, pass: SyncPass, result: Result<(), Seq<char>>)
    -> SyncStepView {
    if pass.phase != SyncPhase::Recording || pass.index >= input.files@.len() {
        out_of_turn(pass)
    } else {
        match result {
            Ok(_) => advance(input, pass, pass.index + 1, Seq::empty()),
            Err(text) => failed(pass, Seq::empty(), error_of(ErrorKind::Execution, text)),
        }
    }
}

/// How a pass goes on when the stale entities are known, or could not be found.
pub open spec fn sync_compared(input: SyncInput, pass: SyncPass, result: Result<(), Seq<char>>)
    -> SyncStepView {
    if pass.phase != SyncPhase::Comparing {
        out_of_turn(pass)
    } else {
        match result {
            Ok(_) => after_compare(input, pass, Seq::empty()),
            Err(text) => failed(pass, Seq::empty(), error_of(ErrorKind::Execution, text)),
        }
    }
}

/// How a pass goes on when the server has said whether the database is shared.
pub open spec fn sync_shared_known(
    input: SyncInput,
    pass: SyncPass,
    result: Result<bool, Seq<char>>,
) -> SyncStepView {
    if pass.phase != SyncPhase::Detecting {
        out_of_turn(pass)
    } else {
        match result {
            Ok(shared) => prune_with(input, pass, Seq::empty(), shared),
            Err(text) => failed(pass, Seq::empty(), error_of(ErrorKind::Execution, text)),
        }
    }
}

/// How a pass goes on when the stale entities were removed: every one of
/// them counts as pruned.
pub open spec fn sync_pruned(input: SyncInput, pass: SyncPass, result: Result<(), Seq<char>>)
    -> SyncStepView {
    if pass.phase != SyncPhase::Pruning {
        out_of_turn(pass)
    } else {
        match result {
            Ok(_) => closing(
                input,
                SyncPass {
                    phase: pass.phase,
                    index: pass.index,
                    changed: pass.changed,
                    errors: pass.errors,
                    pruned: input.stale@.len() as usize,
                },
                if input.watch_mode {
                    Seq::empty()
                } else {
                    seq![
                        said("pruned "@ + decimal(input.stale@.len()) + " stale entities"@),
                    ]
                },
            ),
            Err(text) => failed(pass, Seq::empty(), error_of(ErrorKind::Execution, text)),
        }
    }
}

/// How a pass ends when the metadata was written.
pub open spec fn sync_meta_written(
    input: SyncInput,
    pass: SyncPass,
    result: Result<(), Seq<char>>,
) -> SyncStepView {
    if pass.phase != SyncPhase::Closing {
        out_of_turn(pass)
    } else {
        match result {
            Ok(_) => completed(input, pass, Seq::empty()),
            Err(text) => failed(pass, Seq::empty(), error_of(ErrorKind::Execution, text)),
        }
    }
}

fn make_step(pass: SyncPass, phase: SyncPhase, notes: Vec<Note>, action: SyncAction) -> (s:
    SyncStep)
    ensures
        s@ == step_of(pass, phase, note_views(notes@), action@),
{
    SyncStep {
        pass: SyncPass {
            phase,
            index: pass.index,
            changed: pass.changed,
            errors: pass.errors,
            pruned: pass.pruned,
        },
        notes,
        action,
    }
}

fn fail(pass: SyncPass, notes: Vec<Note>, e: KitError) -> (s: SyncStep)
    ensures
        s@ == failed(pass, note_views(notes@), e@),
{
    make_step(pass, SyncPhase::Finished, notes, SyncAction::Finish { result: Err(e) })
}

fn push_note(notes: &mut Vec<Note>, stream: Stream, text: String)
    ensures
        note_views(final(notes)@) == note_views(old(notes)@).push((stream, text@)),
{
    let ghost before = note_views(notes@);
    notes.push(Note { stream, text });
    assert(note_views(notes@) =~= before.push((stream, text@)));
}

fn complete(input: &SyncInput, pass: SyncPass, notes: Vec<Note>) -> (s: SyncStep)
    ensures
        s@ == completed(*input, pass, note_views(notes@)),
{
    let mut notes = notes;
    let ghost start = note_views(notes@);
    let stale = input.stale.len();
    let stale_text = decimal_string(stale as u128);
    if input.watch_mode {
        if pass.changed > 0 || stale > 0 {
            let changed = decimal_string(pass.changed as u128);
            if input.opts.dry_run {
                push_note(
                    &mut notes,
                    Stream::Stdout,
                    concat5(
                        "Change detected (dry-run): ",
                        changed.as_str(),
                        " schema file(s), ",
                        stale_text.as_str(),
                        " stale entity(ies) would be pushed.",
                    ),
                );
            } else {
                let pruned = decimal_string(pass.pruned as u128);
                push_note(
                    &mut notes,
                    Stream::Stdout,
                    concat5(
                        "Change detected and pushed: ",
                        changed.as_str(),
                        " schema file(s) synced, ",
                        pruned.as_str(),
                        " stale entity(ies) pruned.",
                    ),
                );
            }
        }
    } else if pass.changed == 0 {
        push_note(&mut notes, Stream::Stdout, owned("schema already in sync"));
    }
    if pass.errors > 0 {
        let errors = decimal_string(pass.errors as u128);
        push_note(
            &mut notes,
            Stream::Stderr,
            concat3("sync completed with ", errors.as_str(), " apply error(s)"),
        );
    }
    if stale > 0 && !input.opts.prune {
        push_note(
            &mut notes,
            Stream::Stdout,
            concat3(
                "detected ",
                stale_text.as_str(),
                " stale entities; rerun without --no-prune to remove",
            ),
        );
    }
    proof {
        assert(note_views(notes@) =~= start + closing_notes(*input, pass));
    }
    make_step(pass, SyncPhase::Finished, notes, SyncAction::Finish { result: Ok(()) })
}

fn close(input: &SyncInput, pass: SyncPass, notes: Vec<Note>) -> (s: SyncStep)
    ensures
        s@ == closing(*input, pass, note_views(notes@)),
{
    if input.opts.dry_run {
        complete(input, pass, notes)
    } else {
        make_step(pass, SyncPhase::Closing, notes, SyncAction::WriteMeta)
    }
}

fn prune(input: &SyncInput, pass: SyncPass, notes: Vec<Note>, shared: bool) -> (s: SyncStep)
    ensures
        s@ == prune_with(*input, pass, note_views(notes@), shared),
{
    if shared && !input.opts.allow_shared_prune {
        return fail(
            pass,
            notes,
            KitError::new(
                ErrorKind::Configuration,
                owned(
                    "database is marked shared; refusing stale prune without --allow-shared-prune",
                ),
            ),
        );
    }
    let stmts = match render_remove_sql(input.stale, true) {
        Err(e) => {
            return fail(pass, notes, e);
        },
        Ok(s) => s,
    };
    if input.opts.dry_run {
        let mut notes = notes;
        if !input.watch_mode {
            let ghost start = note_views(notes@);
            let count = decimal_string(stmts.len() as u128);
            push_note(
                &mut notes,
                Stream::Stdout,
                concat3("DRY RUN: would prune ", count.as_str(), " stale entities"),
            );
            let ghost head = note_views(notes@);
            let ghost want = statement_notes(views(stmts@));
            let mut i: usize = 0;
            proof {
                assert(head + want.take(0) =~= head);
            }
            while i < stmts.len()
                invariant
                    i <= stmts.len(),
                    want == statement_notes(views(stmts@)),
                    note_views(notes@) == head + want.take(i as int),
                decreases stmts.len() - i,
            {
                push_note(&mut notes, Stream::Stdout, concat2("  ", stmts[i].as_str()));
                assert((head + want.take(i as int)).push(want[i as int]) =~= head + want.take(
                    i + 1,
                ));
                i += 1;
            }
            proof {
                assert(want.take(stmts.len() as int) =~= want);
                assert(note_views(notes@) =~= start + seq![
                    said(
                        "DRY RUN: would prune "@ + decimal(views(stmts@).len())
                            + " stale entities"@,
                    ),
                ] + want);
            }
        }
        close(input, pass, notes)
    } else {
        let sql = join_strings(&stmts, "\n");
        make_step(pass, SyncPhase::Pruning, notes, SyncAction::Prune { sql })
    }
}

fn finish_files(input: &SyncInput, pass: SyncPass, notes: Vec<Note>) -> (s: SyncStep)
    ensures
        s@ == after_files(*input, pass, note_views(notes@)),
{
    make_step(pass, SyncPhase::Comparing, notes, SyncAction::CompareCatalog)
}

fn finish_compare(input: &SyncInput, pass: SyncPass, notes: Vec<Note>) -> (s: SyncStep)
    ensures
        s@ == after_compare(*input, pass, note_views(notes@)),
{
    if input.opts.prune && input.stale.len() > 0 {
        match input.shared_override {
            Some(shared) => prune(input, pass, notes, shared),
            None => make_step(pass, SyncPhase::Detecting, notes, SyncAction::DetectShared),
        }
    } else {
        close(input, pass, notes)
    }
}

fn go_on_from(input: &SyncInput, pass: SyncPass, from: usize, notes: Vec<Note>) -> (s: SyncStep)
    ensures
        s@ == advance(*input, pass, from as int, note_views(notes@)),
    decreases input.files@.len() - from,
{
    if from >= input.files.len() {
        return finish_files(input, pass, notes);
    }
    let file = &input.files[from];
    if !file_changed(file, input.known) {
        return go_on_from(input, pass, from + 1, notes);
    }
    let counted = SyncPass {
        phase: pass.phase,
        index: from,
        changed: bump(pass.changed),
        errors: pass.errors,
        pruned: pass.pruned,
    };
    if input.opts.dry_run {
        let mut notes = notes;
        if !input.watch_mode {
            push_note(
                &mut notes,
                Stream::Stdout,
                concat2("DRY RUN: would apply ", file.path.as_str()),
            );
        }
        go_on_from(input, counted, from + 1, notes)
    } else {
        make_step(counted, SyncPhase::Applying, notes, SyncAction::Apply { index: from })
    }
}

fn misplaced(pass: SyncPass) -> (s: SyncStep)
    ensures
        s@ == out_of_turn(pass),
{
    let notes: Vec<Note> = Vec::new();
    assert(note_views(notes@) =~= Seq::<(Stream, Seq<char>)>::empty());
    fail(
        pass,
        notes,
        KitError::new(ErrorKind::Execution, owned("the pass does not wait for this result")),
    )
}

fn no_notes() -> (notes: Vec<Note>)
    ensures
        note_views(notes@) == Seq::<(Stream, Seq<char>)>::empty(),
{
    let notes: Vec<Note> = Vec::new();
    assert(note_views(notes@) =~= Seq::<(Stream, Seq<char>)>::empty());
    notes
}

fn one_note(stream: Stream, text: String) -> (notes: Vec<Note>)
    ensures
        note_views(notes@) == seq![(stream, text@)],
{
    let mut notes: Vec<Note> = Vec::new();
    notes.push(Note { stream, text });
    assert(note_views(notes@) =~= seq![(stream, text@)]);
    notes
}

/// Begins a pass.
pub fn run_sync_once(input: &SyncInput) -> (s: SyncStep)
    ensures
        s@ == sync_start(*input),
{
    let notes = if input.files.len() == 0 && !input.watch_mode {
        one_note(Stream::Stdout, owned("No schema files found in database/schema"))
    } else {
        no_notes()
    };
    go_on_from(
        input,
        SyncPass { phase: SyncPhase::Applying, index: 0, changed: 0, errors: 0, pruned: 0 },
        0,
        notes,
    )
}

/// Goes on with a pass when a file was applied.
pub fn applied(input: &SyncInput, pass: SyncPass, result: Result<(), String>) -> (s: SyncStep)
    ensures
        s@ == sync_applied(*input, pass, unit_view(result)),
{
    if pass.phase != SyncPhase::Applying || pass.index >= input.files.len() {
        return misplaced(pass);
    }
    let path = input.files[pass.index].path.as_str();
    match result {
        Ok(_) => {
            let notes = if input.watch_mode {
                no_notes()
            } else {
                one_note(Stream::Stdout, concat2("applied ", path))
            };
            make_step(pass, SyncPhase::Recording, notes, SyncAction::Record { index: pass.index })
        },
        Err(text) => {
            let counted = SyncPass {
                phase: pass.phase,
                index: pass.index,
                changed: pass.changed,
                errors: bump(pass.errors),
                pruned: pass.pruned,
            };
            let notes = one_note(
                Stream::Stderr,
                crate::text::concat4("error applying ", path, ": ", text.as_str()),
            );
            if input.opts.fail_fast {
                fail(counted, notes, KitError::new(ErrorKind::Execution, text))
            } else {
                go_on_from(input, counted, pass.index + 1, notes)
            }
        },
    }
}

/// Goes on with a pass when a hash was recorded.
pub fn recorded(input: &SyncInput, pass: SyncPass, result: Result<(), String>) -> (s: SyncStep)
    ensures
        s@ == sync_recorded(*input, pass, unit_view(result)),
{
    if pass.phase != SyncPhase::Recording || pass.index >= input.files.len() {
        return misplaced(pass);
    }
    match result {
        Ok(_) => go_on_from(input, pass, pass.index + 1, no_notes()),
        Err(text) => fail(pass, no_notes(), KitError::new(ErrorKind::Execution, text)),
    }
}

pub open spec fn shared_view(r: Result<bool, String>) -> Result<bool, Seq<char>> {
    match r {
        Ok(b) => Ok(b),
        Err(e) => Err(e@),
    }
}

/// Goes on with a pass when the stale entities are known.
pub fn compared(input: &SyncInput, pass: SyncPass, result: Result<(), String>) -> (s: SyncStep)
    ensures
        s@ == sync_compared(*input, pass, unit_view(result)),
{
    if pass.phase != SyncPhase::Comparing {
        return misplaced(pass);
    }
    match result {
        Ok(_) => finish_compare(input, pass, no_notes()),
        Err(text) => fail(pass, no_notes(), KitError::new(ErrorKind::Execution, text)),
    }
}

/// Goes on with a pass when the server has said whether the database is shared.
pub fn shared_known(input: &SyncInput, pass: SyncPass, result: Result<bool, String>) -> (s:
    SyncStep)
    ensures
        s@ == sync_shared_known(*input, pass, shared_view(result)),
{
    if pass.phase != SyncPhase::Detecting {
        return misplaced(pass);
    }
    match result {
        Ok(shared) => prune(input, pass, no_notes(), shared),
        Err(text) => fail(pass, no_notes(), KitError::new(ErrorKind::Execution, text)),
    }
}

/// Goes on with a pass when the stale entities were removed.
pub fn pruned(input: &SyncInput, pass: SyncPass, result: Result<(), String>) -> (s: SyncStep)
    ensures
        s@ == sync_pruned(*input, pass, unit_view(result)),
{
    if pass.phase != SyncPhase::Pruning {
        return misplaced(pass);
    }
    match result {
        Ok(_) => {
            let count = decimal_string(input.stale.len() as u128);
            let notes = if input.watch_mode {
                no_notes()
            } else {
                one_note(Stream::Stdout, concat3("pruned ", count.as_str(), " stale entities"))
            };
            close(
                input,
                SyncPass {
                    phase: pass.phase,
                    index: pass.index,
                    changed: pass.changed,
                    errors: pass.errors,
                    pruned: input.stale.len(),
                },
                notes,
            )
        },
        Err(text) => fail(pass, no_notes(), KitError::new(ErrorKind::Execution, text)),
    }
}

/// Ends a pass when the metadata was written.
pub fn meta_written(input: &SyncInput, pass: SyncPass, result: Result<(), String>) -> (s:
    SyncStep)
    ensures
        s@ == sync_meta_written(*input, pass, unit_view(result)),
{
    if pass.phase != SyncPhase::Closing {
        return misplaced(pass);
    }
    match result {
        Ok(_) => complete(input, pass, no_notes()),
        Err(text) => fail(pass, no_notes(), KitError::new(ErrorKind::Execution, text)),
    }
}

} // verus!
