//! The migration ledger: each file is applied once, under the hash of its
//! content. Reading files, running them and reading or writing the ledger
//! of the server is left to the caller, which is told what to do next and
//! reports back what came of it.

use vstd::prelude::*;
use vstd::string::*;

use crate::digest::{hex_text, sha256, sha256_hex};
use crate::error::{error_of, ErrorKind, KitError, KitErrorView};
use crate::order::{rows, rows_precede, sort_by_key, sorted, Keyed};
use crate::schema_state::utf8;
use crate::sync::{note_views, said, warned, Note, Stream};
use crate::text::{chars_of, concat2, concat3, concat4, owned, str_eq};

verus! {

/// One row of the ledger: the hash of a file that was applied, its path,
/// and when it was applied.
#[derive(Debug, Clone)]
pub struct Migration {
    pub id: String,
    pub file: String,
    pub applied_at: String,
}

/// The identifier under which a migration is recorded: the hash of its text.
pub open spec fn migration_id(sql: Seq<char>) -> Seq<char> {
    hex_text(sha256(utf8(sql)))
}

pub fn migration_id_of(sql: &str) -> (id: String)
    ensures
        id@ == migration_id(sql@),
{
    sha256_hex(sql.as_bytes())
}

/// Whether the ledger has a row under `id`.
pub open spec fn ledger_has(rows: Seq<Migration>, id: Seq<char>) -> bool {
    exists|i: int| 0 <= i < rows.len() && (#[trigger] rows[i]).id@ == id
}

/// The ledger, as far as deciding takes: the rows that were written, in order.
#[derive(Debug, Clone)]
pub struct Ledger {
    pub rows: Vec<Migration>,
}

/// What applying a file does to a ledger: nothing where the ledger has
/// the hash of its text, else one more row.
pub open spec fn ledger_after(rows: Seq<Migration>, row: Migration) -> Seq<Migration> {
    if ledger_has(rows, row.id@) {
        rows
    } else {
        rows.push(row)
    }
}

impl Ledger {
    pub fn new() -> (l: Ledger)
        ensures
            l.rows@.len() == 0,
    {
        Ledger { rows: Vec::new() }
    }

    /// Whether a file with this hash was applied.
    pub fn has(&self, id: &str) -> (r: bool)
        ensures
            r == ledger_has(self.rows@, id@),
    {
        let mut i: usize = 0;
        while i < self.rows.len()
            invariant
                i <= self.rows.len(),
                forall|j: int| 0 <= j < i ==> (#[trigger] self.rows@[j]).id@ != id@,
            decreases self.rows.len() - i,
        {
            if str_eq(self.rows[i].id.as_str(), id) {
                return true;
            }
            i += 1;
        }
        false
    }

    /// Records a file whose text has run: it is written under the hash of
    /// its text unless a file with that hash was applied before. Says
    /// whether it was written.
    pub fn apply(&mut self, file: &str, sql: &str, applied_at: &str) -> (applied: bool)
        ensures
            applied == !ledger_has(old(self).rows@, migration_id(sql@)),
            applied ==> final(self).rows@.len() == old(self).rows@.len() + 1,
            applied ==> final(self).rows@.drop_last() == old(self).rows@,
            applied ==> final(self).rows@.last().id@ == migration_id(sql@),
            applied ==> final(self).rows@.last().file@ == file@,
            applied ==> final(self).rows@.last().applied_at@ == applied_at@,
            !applied ==> final(self).rows@ == old(self).rows@,
            ledger_has(final(self).rows@, migration_id(sql@)),
    {
        let id = migration_id_of(sql);
        if self.has(id.as_str()) {
            return false;
        }
        let ghost before = self.rows@;
        self.rows.push(Migration { id, file: owned(file), applied_at: owned(applied_at) });
        assert(self.rows@.drop_last() =~= before);
        assert(self.rows@[self.rows@.len() - 1].id@ == migration_id(sql@));
        true
    }
}

/// A file that was applied is not applied again: once the ledger has the
/// hash of a text, applying a file with that text changes nothing, whatever
/// the file is called.
pub proof fn lemma_applied_once(rows: Seq<Migration>, first: Migration, second: Migration)
    requires
        first.id@ == second.id@,
    ensures
        ledger_after(ledger_after(rows, first), second) == ledger_after(rows, first),
{
    let once = ledger_after(rows, first);
    if !ledger_has(rows, first.id@) {
        assert(once[once.len() - 1].id@ == second.id@);
    }
}

/// A file whose text has another hash is applied beside the first, and
/// the row of the first stays: every row of the ledger before is a row of
/// the ledger after, in its place.
pub proof fn lemma_rows_persist(rows: Seq<Migration>, row: Migration)
    ensures
        rows.len() <= ledger_after(rows, row).len(),
        forall|i: int| 0 <= i < rows.len() ==> #[trigger] ledger_after(rows, row)[i] == rows[i],
        ledger_has(ledger_after(rows, row), row.id@),
        forall|id: Seq<char>| ledger_has(rows, id) ==> ledger_has(ledger_after(rows, row), id),
{
    let after = ledger_after(rows, row);
    if !ledger_has(rows, row.id@) {
        assert(after[after.len() - 1].id@ == row.id@);
    }
    assert forall|id: Seq<char>| ledger_has(rows, id) implies ledger_has(after, id) by {
        let i = choose|i: int| 0 <= i < rows.len() && (#[trigger] rows[i]).id@ == id;
        assert(after[i].id@ == id);
    }
}

/// A path, ordered as a text.
pub struct PathKey {
    pub path: String,
}

impl Keyed for PathKey {
    open spec fn key(&self) -> Seq<Seq<char>> {
        seq![self.path@]
    }

    fn precedes(&self, other: &Self) -> (r: bool) {
        let mut a: Vec<Vec<char>> = Vec::new();
        a.push(chars_of(self.path.as_str()));
        let mut b: Vec<Vec<char>> = Vec::new();
        b.push(chars_of(other.path.as_str()));
        assert(rows(a@) =~= self.key());
        assert(rows(b@) =~= other.key());
        rows_precede(&a, &b)
    }
}

/// The files to migrate from and what to say about the choice: those of
/// the migrations directory, else those of the schema directory, with a
/// warning where that one is used.
pub fn collect_migration_files(primary: Vec<String>, legacy: Vec<String>) -> (r: (
    Vec<String>,
    Vec<Note>,
))
    ensures
        primary@.len() > 0 ==> r.0@ == primary@ && r.1@.len() == 0,
        primary@.len() == 0 ==> r.0@ == legacy@,
        primary@.len() == 0 && legacy@.len() > 0 ==> note_views(r.1@) == seq![
            warned(
                "warning: using legacy migration source database/schema because database/migrations is empty"@,
            ),
        ],
        primary@.len() == 0 && legacy@.len() == 0 ==> r.1@.len() == 0,
{
    let mut notes: Vec<Note> = Vec::new();
    if primary.len() > 0 {
        return (primary, notes);
    }
    if legacy.len() > 0 {
        notes.push(
            Note {
                stream: Stream::Stderr,
                text: owned(
                    "warning: using legacy migration source database/schema because database/migrations is empty",
                ),
            },
        );
        assert(note_views(notes@) =~= seq![
            warned(
                "warning: using legacy migration source database/schema because database/migrations is empty"@,
            ),
        ]);
    }
    (legacy, notes)
}

/// The paths in the order in which their files are applied: that of the
/// paths as texts.
pub fn order_migrations(paths: Vec<String>) -> (out: Vec<String>)
    ensures
        sorted(out@),
        out@.to_multiset() == paths@.to_multiset(),
{
    sort_by_key(paths)
}

/// What a run of migrations waits for.
#[derive(Debug, Clone, Copy, PartialEq, Eq, Structural)]
pub enum MigratePhase {
    /// File `index` is read.
    Reading,
    /// The ledger is asked for the hash of file `index`.
    Looking,
    /// The text of file `index` runs.
    Executing,
    /// File `index` is recorded in the ledger.
    Recording,
    /// The run is over.
    Finished,
}

/// A run of migrations that is under way: what it waits for, the file it
/// is at, and the text and hash of that file once it was read.
#[derive(Debug, Clone)]
pub struct MigrateRun {
    pub phase: MigratePhase,
    pub index: usize,
    pub sql: String,
    pub id: String,
}

/// What the caller is to do next.
#[derive(Debug)]
pub enum MigrateAction {
    /// Read file `index` and hand its text to `read`.
    Read { index: usize },
    /// Ask the ledger whether it has a row under `id` and hand the answer to `found`.
    Lookup { id: String },
    /// Run `sql` and hand the outcome to `executed`.
    Execute { sql: String },
    /// Write a row with `id` and `file` to the ledger and hand the outcome to `recorded`.
    Record { id: String, file: String },
    /// Nothing: the run is over.
    Finish { result: Result<(), KitError> },
}

pub enum MigrateActionView {
    Read { index: usize },
    Lookup { id: Seq<char> },
    Execute { sql: Seq<char> },
    Record { id: Seq<char>, file: Seq<char> },
    Finish { result: Result<(), KitErrorView> },
}

impl View for MigrateAction {
    type V = MigrateActionView;

    open spec fn view(&self) -> MigrateActionView {
        match *self {
            MigrateAction::Read { index } => MigrateActionView::Read { index },
            MigrateAction::Lookup { id } => MigrateActionView::Lookup { id: id@ },
            MigrateAction::Execute { sql } => MigrateActionView::Execute { sql: sql@ },
            MigrateAction::Record { id, file } => MigrateActionView::Record {
                id: id@,
                file: file@,
            },
            MigrateAction::Finish { result } => MigrateActionView::Finish {
                result: match result {
                    Ok(_) => Ok(()),
                    Err(e) => Err(e@),
                },
            },
        }
    }
}

pub struct MigrateRunView {
    pub phase: MigratePhase,
    pub index: usize,
    pub sql: Seq<char>,
    pub id: Seq<char>,
}

impl View for MigrateRun {
    type V = MigrateRunView;

    open spec fn view(&self) -> MigrateRunView {
        MigrateRunView { phase: self.phase, index: self.index, sql: self.sql@, id: self.id@ }
    }
}

/// What a run says and asks for at one step.
#[derive(Debug)]
pub struct MigrateStep {
    pub run: MigrateRun,
    pub notes: Vec<Note>,
    pub action: MigrateAction,
}

pub struct MigrateStepView {
    pub run: MigrateRunView,
    pub notes: Seq<(Stream, Seq<char>)>,
    pub action: MigrateActionView,
}

impl View for MigrateStep {
    type V = MigrateStepView;

    open spec fn view(&self) -> MigrateStepView {
        MigrateStepView { run: self.run@, notes: note_views(self.notes@), action: self.action@ }
    }
}

/// What the operator asked of a run of migrations.
#[derive(Debug, Clone, Copy, PartialEq, Eq, Structural)]
pub struct MigrateOpts {
    pub fail_fast: bool,
    pub dry_run: bool,
}

pub open spec fn at(run: MigrateRunView, phase: MigratePhase, index: usize) -> MigrateRunView {
    MigrateRunView { phase, index, sql: run.sql, id: run.id }
}

pub open spec fn ended(
    run: MigrateRunView,
    notes: Seq<(Stream, Seq<char>)>,
    result: Result<(), KitErrorView>,
) -> MigrateStepView {
    MigrateStepView {
        run: at(run, MigratePhase::Finished, run.index),
        notes,
        action: MigrateActionView::Finish { result },
    }
}

/// The run from file `from` on: a dry run names each file and ends; any
/// other run asks for the next file to be read, and ends after the last.
pub open spec fn proceed(
    files: Seq<String>,
    opts: MigrateOpts,
    run: MigrateRunView,
    from: int,
    notes: Seq<(Stream, Seq<char>)>,
) -> MigrateStepView
    decreases files.len() - from,
{
    if from < 0 || from >= files.len() {
        ended(run, notes, Ok(()))
    } else if opts.dry_run {
        proceed(
            files,
            opts,
            run,
            from + 1,
            notes.push(said("DRY RUN: would apply "@ + files[from]@)),
        )
    } else {
        MigrateStepView {
            run: at(run, MigratePhase::Reading, from as usize),
            notes,
            action: MigrateActionView::Read { index: from as usize },
        }
    }
}

/// How a run begins: it says so where there is no file, and goes to the
/// first one otherwise.
pub open spec fn migrate_start(files: Seq<String>, opts: MigrateOpts) -> MigrateStepView {
    let run = MigrateRunView {
        phase: MigratePhase::Reading,
        index: 0,
        sql: Seq::empty(),
        id: Seq::empty(),
    };
    if files.len() == 0 {
        ended(run, seq![said("No .surql files found in \"database/migrations\""@)], Ok(()))
    } else {
        proceed(files, opts, run, 0, Seq::empty())
    }
}

/// What a run does about a file that failed: it names it with the error,
/// and ends with the error where it is to fail fast, or goes to the next file.
pub open spec fn file_failed(
    files: Seq<String>,
    opts: MigrateOpts,
    run: MigrateRunView,
    text: Seq<char>,
) -> MigrateStepView {
    let notes = seq![warned("error applying "@ + files[run.index as int]@ + ": "@ + text)];
    if opts.fail_fast {
        ended(run, notes, Err(error_of(ErrorKind::Execution, text)))
    } else {
        proceed(files, opts, run, run.index + 1, notes)
    }
}

pub open spec fn migrate_out_of_turn(run: MigrateRunView) -> MigrateStepView {
    ended(
        run,
        Seq::empty(),
        Err(error_of(ErrorKind::Execution, "the run does not wait for this result"@)),
    )
}

pub open spec fn waits(files: Seq<String>, run: MigrateRunView, phase: MigratePhase) -> bool {
    run.phase == phase && run.index < files.len()
}

/// How a run goes on when a file was read: the ledger is asked for the
/// hash of its text. A file that cannot be read has failed.
pub open spec fn migrate_read(
    files: Seq<String>,
    opts: MigrateOpts,
    run: MigrateRunView,
    result: Result<Seq<char>, Seq<char>>,
) -> MigrateStepView {
    if !waits(files, run, MigratePhase::Reading) {
        migrate_out_of_turn(run)
    } else {
        match result {
            Err(text) => file_failed(
                files,
                opts,
                run,
                "reading "@ + files[run.index as int]@ + ": "@ + text,
            ),
            Ok(sql) => MigrateStepView {
                run: MigrateRunView {
                    phase: MigratePhase::Looking,
                    index: run.index,
                    sql,
                    id: migration_id(sql),
                },
                notes: Seq::empty(),
                action: MigrateActionView::Lookup { id: migration_id(sql) },
            },
        }
    }
}

/// How a run goes on when the ledger has answered: a file whose hash it
/// has is passed over, any other one runs.
pub open spec fn migrate_found(
    files: Seq<String>,
    opts: MigrateOpts,
    run: MigrateRunView,
    result: Result<bool, Seq<char>>,
) -> MigrateStepView {
    if !waits(files, run, MigratePhase::Looking) {
        migrate_out_of_turn(run)
    } else {
        match result {
            Err(text) => file_failed(files, opts, run, text),
            Ok(true) => proceed(
                files,
                opts,
                run,
                run.index + 1,
                seq![said("skipped "@ + files[run.index as int]@ + " (already applied)"@)],
            ),
            Ok(false) => MigrateStepView {
                run: at(run, MigratePhase::Executing, run.index),
                notes: Seq::empty(),
                action: MigrateActionView::Execute { sql: run.sql },
            },
        }
    }
}

/// How a run goes on when the text of a file has run: the file is
/// recorded under its hash.
pub open spec fn migrate_executed(
    files: Seq<String>,
    opts: MigrateOpts,
    run: MigrateRunView,
    result: Result<(), Seq<char>>,
) -> MigrateStepView {
    if !waits(files, run, MigratePhase::Executing) {
        migrate_out_of_turn(run)
    } else {
        match result {
            Err(text) => file_failed(files, opts, run, text),
            Ok(_) => MigrateStepView {
                run: at(run, MigratePhase::Recording, run.index),
                notes: Seq::empty(),
                action: MigrateActionView::Record { id: run.id, file: files[run.index as int]@ },
            },
        }
    }
}

/// How a run goes on when a file was recorded: it counts as applied.
pub open spec fn migrate_recorded(
    files: Seq<String>,
    opts: MigrateOpts,
    run: MigrateRunView,
    result: Result<(), Seq<char>>,
) -> MigrateStepView {
    if !waits(files, run, MigratePhase::Recording) {
        migrate_out_of_turn(run)
    } else {
        match result {
            Err(text) => file_failed(files, opts, run, text),
            Ok(_) => proceed(
                files,
                opts,
                run,
                run.index + 1,
                seq![said("applied "@ + files[run.index as int]@)],
            ),
        }
    }
}

fn end(run: MigrateRun, notes: Vec<Note>, result: Result<(), KitError>) -> (s: MigrateStep)
    ensures
        s@ == ended(
            run@,
            note_views(notes@),
            match result {
                Ok(_) => Ok(()),
                Err(e) => Err(e@),
            },
        ),
{
    MigrateStep {
        run: MigrateRun {
            phase: MigratePhase::Finished,
            index: run.index,
            sql: run.sql,
            id: run.id,
        },
        notes,
        action: MigrateAction::Finish { result },
    }
}

fn go_on(files: &Vec<String>, opts: MigrateOpts, run: MigrateRun, from: usize, notes: Vec<Note>)
    -> (s: MigrateStep)
    ensures
        s@ == proceed(files@, opts, run@, from as int, note_views(notes@)),
    decreases files@.len() - from,
{
    if from >= files.len() {
        return end(run, notes, Ok(()));
    }
    if opts.dry_run {
        let mut notes = notes;
        let ghost before = note_views(notes@);
        let text = concat2("DRY RUN: would apply ", files[from].as_str());
        notes.push(Note { stream: Stream::Stdout, text });
        assert(note_views(notes@) =~= before.push(said("DRY RUN: would apply "@ + files@[from as int]@)));
        go_on(files, opts, run, from + 1, notes)
    } else {
        MigrateStep {
            run: MigrateRun { phase: MigratePhase::Reading, index: from, sql: run.sql, id: run.id },
            notes,
            action: MigrateAction::Read { index: from },
        }
    }
}

fn one(stream: Stream, text: String) -> (notes: Vec<Note>)
    ensures
        note_views(notes@) == seq![(stream, text@)],
{
    let mut notes: Vec<Note> = Vec::new();
    notes.push(Note { stream, text });
    assert(note_views(notes@) =~= seq![(stream, text@)]);
    notes
}

fn none() -> (notes: Vec<Note>)
    ensures
        note_views(notes@) == Seq::<(Stream, Seq<char>)>::empty(),
{
    let notes: Vec<Note> = Vec::new();
    assert(note_views(notes@) =~= Seq::<(Stream, Seq<char>)>::empty());
    notes
}

fn fail_file(files: &Vec<String>, opts: MigrateOpts, run: MigrateRun, text: String) -> (s:
    MigrateStep)
    requires
        run.index < files@.len(),
    ensures
        s@ == file_failed(files@, opts, run@, text@),
{
    let notes = one(
        Stream::Stderr,
        concat4("error applying ", files[run.index].as_str(), ": ", text.as_str()),
    );
    if opts.fail_fast {
        end(run, notes, Err(KitError::new(ErrorKind::Execution, text)))
    } else {
        assert(run.index < files.len());
            let next = run.index + 1;
        go_on(files, opts, run, next, notes)
    }
}

fn misplaced(run: MigrateRun) -> (s: MigrateStep)
    ensures
        s@ == migrate_out_of_turn(run@),
{
    end(
        run,
        none(),
        Err(KitError::new(ErrorKind::Execution, owned("the run does not wait for this result"))),
    )
}

fn is_waiting(files: &Vec<String>, run: &MigrateRun, phase: MigratePhase) -> (r: bool)
    ensures
        r == waits(files@, run@, phase),
{
    run.phase == phase && run.index < files.len()
}

/// Begins a run of migrations over the files of `files`, in their order.
pub fn migrate_all(files: &Vec<String>, opts: MigrateOpts) -> (s: MigrateStep)
    ensures
        s@ == migrate_start(files@, opts),
{
    let run = MigrateRun {
        phase: MigratePhase::Reading,
        index: 0,
        sql: String::new(),
        id: String::new(),
    };
    if files.len() == 0 {
        end(
            run,
            one(Stream::Stdout, owned("No .surql files found in \"database/migrations\"")),
            Ok(()),
        )
    } else {
        go_on(files, opts, run, 0, none())
    }
}

pub open spec fn text_result_view(r: Result<String, String>) -> Result<Seq<char>, Seq<char>> {
    match r {
        Ok(s) => Ok(s@),
        Err(e) => Err(e@),
    }
}

/// Goes on with a run when a file was read.
pub fn read(files: &Vec<String>, opts: MigrateOpts, run: MigrateRun, result: Result<
    String,
    String,
>) -> (s: MigrateStep)
    ensures
        s@ == migrate_read(files@, opts, run@, text_result_view(result)),
{
    if !is_waiting(files, &run, MigratePhase::Reading) {
        return misplaced(run);
    }
    match result {
        Err(text) => {
            let why = concat4("reading ", files[run.index].as_str(), ": ", text.as_str());
            fail_file(files, opts, run, why)
        },
        Ok(sql) => {
            let id = migration_id_of(sql.as_str());
            let asked = id.clone();
            MigrateStep {
                run: MigrateRun { phase: MigratePhase::Looking, index: run.index, sql, id },
                notes: none(),
                action: MigrateAction::Lookup { id: asked },
            }
        },
    }
}

/// Goes on with a run when the ledger has answered.
pub fn found(files: &Vec<String>, opts: MigrateOpts, run: MigrateRun, result: Result<
    bool,
    String,
>) -> (s: MigrateStep)
    ensures
        s@ == migrate_found(files@, opts, run@, crate::sync::shared_view(result)),
{
    if !is_waiting(files, &run, MigratePhase::Looking) {
        return misplaced(run);
    }
    match result {
        Err(text) => fail_file(files, opts, run, text),
        Ok(true) => {
            let notes = one(
                Stream::Stdout,
                concat3("skipped ", files[run.index].as_str(), " (already applied)"),
            );
            assert(run.index < files.len());
            let next = run.index + 1;
            go_on(files, opts, run, next, notes)
        },
        Ok(false) => {
            let sql = run.sql.clone();
            MigrateStep {
                run: MigrateRun {
                    phase: MigratePhase::Executing,
                    index: run.index,
                    sql: run.sql,
                    id: run.id,
                },
                notes: none(),
                action: MigrateAction::Execute { sql },
            }
        },
    }
}

/// Goes on with a run when the text of a file has run.
pub fn executed(files: &Vec<String>, opts: MigrateOpts, run: MigrateRun, result: Result<
    (),
    String,
>) -> (s: MigrateStep)
    ensures
        s@ == migrate_executed(files@, opts, run@, crate::sync::unit_view(result)),
{
    if !is_waiting(files, &run, MigratePhase::Executing) {
        return misplaced(run);
    }
    match result {
        Err(text) => fail_file(files, opts, run, text),
        Ok(_) => {
            let id = run.id.clone();
            let file = files[run.index].clone();
            MigrateStep {
                run: MigrateRun {
                    phase: MigratePhase::Recording,
                    index: run.index,
                    sql: run.sql,
                    id: run.id,
                },
                notes: none(),
                action: MigrateAction::Record { id, file },
            }
        },
    }
}

/// Goes on with a run when a file was recorded.
pub fn recorded(files: &Vec<String>, opts: MigrateOpts, run: MigrateRun, result: Result<
    (),
    String,
>) -> (s: MigrateStep)
    ensures
        s@ == migrate_recorded(files@, opts, run@, crate::sync::unit_view(result)),
{
    if !is_waiting(files, &run, MigratePhase::Recording) {
        return misplaced(run);
    }
    match result {
        Err(text) => fail_file(files, opts, run, text),
        Ok(_) => {
            let notes = one(Stream::Stdout, concat2("applied ", files[run.index].as_str()));
            assert(run.index < files.len());
            let next = run.index + 1;
            go_on(files, opts, run, next, notes)
        },
    }
}

/// What applying one file outside a run of migrations takes: with
/// tracking, the steps of a run over that file alone, which fails fast;
/// without, nothing but running its text.
pub fn apply_one(path: String, track: bool) -> (r: Option<(Vec<String>, MigrateStep)>)
    ensures
        match r {
            Some(pair) => {
                let (files, step) = pair;
                track && files@ == seq![path] && step@ == migrate_start(
                    seq![path],
                    (MigrateOpts { fail_fast: true, dry_run: false }),
                )
            },
            None => !track,
        },
{
    if track {
        let mut files: Vec<String> = Vec::new();
        files.push(path);
        let step = migrate_all(&files, MigrateOpts { fail_fast: true, dry_run: false });
        Some((files, step))
    } else {
        None
    }
}

/// What applying one file comes to, by what the ledger holds and what
/// running the text of the file gave: a file whose hash the ledger has is
/// skipped and its text does not run; a file whose text fails gives the
/// error; any other file is applied.
pub open spec fn applied_outcome(
    rows: Seq<Migration>,
    sql: Seq<char>,
    executed: Result<(), Seq<char>>,
) -> Result<bool, KitErrorView> {
    if ledger_has(rows, migration_id(sql)) {
        Ok(false)
    } else {
        match executed {
            Ok(_) => Ok(true),
            Err(text) => Err(error_of(ErrorKind::Execution, text)),
        }
    }
}

pub open spec fn applied_view(r: Result<bool, KitError>) -> Result<bool, KitErrorView> {
    match r {
        Ok(b) => Ok(b),
        Err(e) => Err(e@),
    }
}

/// Applies one migration file to a ledger by the steps of a run over that
/// file alone, which fails fast. `outcome` is what running the text of the
/// file gives; it is read only where the ledger lacks the hash of the text.
///
/// The ledger gets a row exactly when the file is applied. A file that is
/// skipped and a file whose text fails leave the ledger as it was, so that a
/// file that failed is tried again the next time.
pub fn apply_migration_file(
    ledger: &mut Ledger,
    file: &str,
    sql: &str,
    applied_at: &str,
    outcome: Result<(), String>,
) -> (r: Result<bool, KitError>)
    ensures
        applied_view(r) == applied_outcome(
            old(ledger).rows@,
            sql@,
            crate::sync::unit_view(outcome),
        ),
        r == Ok::<bool, KitError>(true) ==> final(ledger).rows@.drop_last() == old(ledger).rows@,
        r == Ok::<bool, KitError>(true) ==> final(ledger).rows@.len() == old(ledger).rows@.len()
            + 1,
        r == Ok::<bool, KitError>(true) ==> final(ledger).rows@.last().id@ == migration_id(sql@),
        r == Ok::<bool, KitError>(true) ==> final(ledger).rows@.last().file@ == file@,
        r == Ok::<bool, KitError>(true) ==> final(ledger).rows@.last().applied_at@
            == applied_at@,
        r != Ok::<bool, KitError>(true) ==> final(ledger).rows@ == old(ledger).rows@,
{
    let mut files: Vec<String> = Vec::new();
    files.push(owned(file));
    let opts = MigrateOpts { fail_fast: true, dry_run: false };
    proof {
        reveal_with_fuel(proceed, 3);
    }
    let step = migrate_all(&files, opts);
    let step = read(&files, opts, step.run, Ok(owned(sql)));
    let known = match &step.action {
        MigrateAction::Lookup { id } => ledger.has(id.as_str()),
        _ => false,
    };
    let step = found(&files, opts, step.run, Ok(known));
    if known {
        return Ok(false);
    }
    let step = executed(&files, opts, step.run, outcome);
    match step.action {
        MigrateAction::Record { id, file } => {
            let ghost before = ledger.rows@;
            ledger.rows.push(Migration { id, file, applied_at: owned(applied_at) });
            assert(ledger.rows@.drop_last() =~= before);
            Ok(true)
        },
        MigrateAction::Finish { result: Err(e) } => Err(e),
        _ => Ok(false),
    }
}

} // verus!
