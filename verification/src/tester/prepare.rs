//! Preparing a suite: the steps that bring its namespace into the state
//! in which its cases run, in their order. Carrying them out is left to the
//! caller, which stops at the first step that fails.

use vstd::prelude::*;
use vstd::string::*;

use crate::config::{DbCfg, EnvVar};
use crate::error::{error_of, ErrorKind, KitError, KitErrorView};
use crate::paths::{parent_dir, parent_of, resolve_fixture_path, resolved_path};
use crate::sync::SyncOpts;
use crate::tester::actors::{
    build_actor_sessions, default_root_plan, lemma_same_plans, merged_actor_specs,
    merged_actors, not_configured, plan_default_root_session, plan_views, planned_sessions,
    same_actors, SessionPlan, SessionPlanView,
};
use crate::tester::types::{FixtureSpec, GlobalTestConfig, LoadedSuite, NamedActor, TestOpts};
use crate::text::{concat3, owned, str_eq};

verus! {

/// Whether a fixture runs as `root`: it names no actor, or that one.
pub open spec fn targets_root(fixture: FixtureSpec) -> bool {
    match fixture.actor {
        None => true,
        Some(a) => a@ == "root"@,
    }
}

pub fn fixture_targets_root(fixture: &FixtureSpec) -> (r: bool)
    ensures
        r == targets_root(*fixture),
{
    match &fixture.actor {
        None => true,
        Some(a) => str_eq(a.as_str(), "root"),
    }
}

/// Where the statements of a fixture come from.
#[derive(Debug, Clone)]
pub enum FixtureSource {
    /// The fixture holds them.
    Inline { sql: String },
    /// The file at `path` holds them.
    File { path: String },
}

pub enum SourceView {
    Inline { sql: Seq<char> },
    File { path: Seq<char> },
}

impl View for FixtureSource {
    type V = SourceView;

    open spec fn view(&self) -> SourceView {
        match *self {
            FixtureSource::Inline { sql } => SourceView::Inline { sql: sql@ },
            FixtureSource::File { path } => SourceView::File { path: path@ },
        }
    }
}

/// The name of a fixture in messages.
pub open spec fn fixture_name(fixture: FixtureSpec) -> Seq<char> {
    match fixture.name {
        Some(n) => n@,
        None => "unnamed"@,
    }
}

/// Where the statements of a fixture come from: the fixture itself or a
/// file, seen from `base`. A fixture that gives both or neither is malformed.
pub open spec fn source_of(fixture: FixtureSpec, base: Seq<char>) -> Result<
    SourceView,
    KitErrorView,
> {
    match (fixture.sql, fixture.file) {
        (Some(sql), None) => Ok(SourceView::Inline { sql: sql@ }),
        (None, Some(file)) => Ok(SourceView::File { path: resolved_path(base, file@) }),
        (Some(_), Some(_)) => Err(
            error_of(
                ErrorKind::Configuration,
                "fixture '"@ + fixture_name(fixture) + "' cannot define both sql and file"@,
            ),
        ),
        (None, None) => Err(
            error_of(
                ErrorKind::Configuration,
                "fixture '"@ + fixture_name(fixture) + "' requires sql or file"@,
            ),
        ),
    }
}

fn name_of(fixture: &FixtureSpec) -> (s: &str)
    ensures
        s@ == fixture_name(*fixture),
{
    match &fixture.name {
        Some(n) => n.as_str(),
        None => "unnamed",
    }
}

pub open spec fn source_result_view(r: Result<FixtureSource, KitError>) -> Result<
    SourceView,
    KitErrorView,
> {
    match r {
        Ok(s) => Ok(s@),
        Err(e) => Err(e@),
    }
}

/// Finds where the statements of a fixture come from.
pub fn fixture_sql(fixture: &FixtureSpec, base_dir: &str) -> (r: Result<FixtureSource, KitError>)
    ensures
        source_result_view(r) == source_of(*fixture, base_dir@),
{
    match (&fixture.sql, &fixture.file) {
        (Some(sql), None) => Ok(FixtureSource::Inline { sql: sql.clone() }),
        (None, Some(file)) => Ok(
            FixtureSource::File { path: resolve_fixture_path(base_dir, file.as_str()) },
        ),
        (Some(_), Some(_)) => Err(
            KitError::new(
                ErrorKind::Configuration,
                concat3("fixture '", name_of(fixture), "' cannot define both sql and file"),
            ),
        ),
        (None, None) => Err(
            KitError::new(
                ErrorKind::Configuration,
                concat3("fixture '", name_of(fixture), "' requires sql or file"),
            ),
        ),
    }
}

/// One step of preparing a suite.
#[derive(Debug)]
pub enum PrepareStep {
    /// Open a session for each plan, in order; they replace the sessions
    /// that were open.
    OpenSessions { plans: Vec<SessionPlan> },
    /// Define the tables that the tool itself keeps.
    Setup,
    /// Bring the schema in with one pass of a sync.
    Sync { opts: SyncOpts },
    /// Run the seed script.
    Seed,
    /// Run the statements of a fixture as `actor`; `context` says what
    /// failed where they fail.
    Fixture { actor: String, source: FixtureSource, context: String },
    /// Stop: the suite cannot be prepared.
    Fail { error: KitError },
}

pub enum StepView {
    OpenSessions { plans: Seq<SessionPlanView> },
    Setup,
    Sync { opts: SyncOpts },
    Seed,
    Fixture { actor: Seq<char>, source: SourceView, context: Seq<char> },
    Fail { error: KitErrorView },
}

impl View for PrepareStep {
    type V = StepView;

    open spec fn view(&self) -> StepView {
        match *self {
            PrepareStep::OpenSessions { plans } => StepView::OpenSessions {
                plans: plan_views(plans@),
            },
            PrepareStep::Setup => StepView::Setup,
            PrepareStep::Sync { opts } => StepView::Sync { opts },
            PrepareStep::Seed => StepView::Seed,
            PrepareStep::Fixture { actor, source, context } => StepView::Fixture {
                actor: actor@,
                source: source@,
                context: context@,
            },
            PrepareStep::Fail { error } => StepView::Fail { error: error@ },
        }
    }
}

pub open spec fn step_views(v: Seq<PrepareStep>) -> Seq<StepView> {
    Seq::new(v.len(), |i: int| v[i]@)
}

/// The sync that brings the schema into the namespace of a suite: one
/// pass that fails fast and prunes, shared or not.
pub open spec fn suite_sync() -> SyncOpts {
    SyncOpts {
        watch: false,
        debounce_ms: 250,
        dry_run: false,
        fail_fast: true,
        prune: true,
        allow_shared_prune: true,
    }
}

/// The actor that a fixture runs as.
pub open spec fn fixture_actor(fixture: FixtureSpec) -> Seq<char> {
    match fixture.actor {
        Some(a) => a@,
        None => "root"@,
    }
}

/// Whether a session is open under `name`: it is `root` or an actor of the list.
pub open spec fn has_session(actors: Seq<NamedActor>, name: Seq<char>) -> bool {
    name == "root"@ || crate::tester::actors::names_actor(actors, name)
}

/// The step of one fixture: it fails where its actor has no session or
/// its statements have no source.
pub open spec fn fixture_step(fixture: FixtureSpec, base: Seq<char>, actors: Seq<NamedActor>)
    -> StepView {
    let actor = fixture_actor(fixture);
    if !has_session(actors, actor) {
        StepView::Fail { error: not_configured(actor) }
    } else {
        match source_of(fixture, base) {
            Err(e) => StepView::Fail { error: e },
            Ok(source) => StepView::Fixture {
                actor,
                source,
                context: "fixture '"@ + fixture_name(fixture) + "' failed"@,
            },
        }
    }
}

/// The steps of the fixtures of a list that run as `root`, or of those
/// that do not, in order.
pub open spec fn fixture_steps(
    fixtures: Seq<FixtureSpec>,
    root: bool,
    base: Seq<char>,
    actors: Seq<NamedActor>,
) -> Seq<StepView>
    decreases fixtures.len(),
{
    if fixtures.len() == 0 {
        Seq::empty()
    } else {
        let before = fixture_steps(fixtures.drop_last(), root, base, actors);
        if targets_root(fixtures.last()) == root {
            before.push(fixture_step(fixtures.last(), base, actors))
        } else {
            before
        }
    }
}

/// The directory that the fixtures of a suite are seen from: the one
/// that holds the suite, else that of the suites.
pub open spec fn suite_base(suite: LoadedSuite) -> Seq<char> {
    match parent_of(suite.path@) {
        Some(dir) => dir,
        None => "database/tests/suites"@,
    }
}

/// The step that opens the sessions of every actor of a suite, or the
/// failure to plan them.
pub open spec fn open_step(plans: Result<Seq<SessionPlanView>, KitErrorView>) -> StepView {
    match plans {
        Ok(p) => StepView::OpenSessions { plans: p },
        Err(e) => StepView::Fail { error: e },
    }
}

pub open spec fn when(on: bool, step: StepView) -> Seq<StepView> {
    if on {
        seq![step]
    } else {
        Seq::empty()
    }
}

/// The steps that prepare a suite.
///
/// The session of `root` is opened. Setup, sync and seed follow, each
/// unless the options leave it out. Then come the fixtures that run as
/// `root`, those of the global configuration before those of the suite.
/// Then the sessions of all actors are opened, and the other fixtures
/// follow in the same order.
pub open spec fn prepare_steps(
    opts: TestOpts,
    global: GlobalTestConfig,
    suite: LoadedSuite,
    user: Seq<char>,
    pass: Seq<char>,
    host: Seq<char>,
    namespace: Seq<char>,
    database: Seq<char>,
    env: Seq<EnvVar>,
) -> Seq<StepView> {
    let actors = merged_actors(global.actors@, suite.spec.actors@);
    let nobody = Seq::<NamedActor>::empty();
    let base = suite_base(suite);
    seq![
        StepView::OpenSessions {
            plans: seq![default_root_plan(user, pass, host, namespace, database)],
        },
    ] + when(!opts.no_setup, StepView::Setup) + when(
        !opts.no_sync,
        StepView::Sync { opts: suite_sync() },
    ) + when(!opts.no_seed, StepView::Seed) + fixture_steps(
        global.fixtures@,
        true,
        "database/tests"@,
        nobody,
    ) + fixture_steps(suite.spec.fixtures@, true, base, nobody) + seq![
        open_step(planned_sessions(user, pass, host, namespace, database, actors, env)),
    ] + fixture_steps(global.fixtures@, false, "database/tests"@, actors) + fixture_steps(
        suite.spec.fixtures@,
        false,
        base,
        actors,
    )
}

fn push_step(out: &mut Vec<PrepareStep>, step: PrepareStep)
    ensures
        step_views(final(out)@) == step_views(old(out)@).push(step@),
{
    let ghost before = step_views(out@);
    out.push(step);
    assert(step_views(out@) =~= before.push(step@));
}

fn session_open(actors: &Vec<NamedActor>, name: &str) -> (r: bool)
    ensures
        r == has_session(actors@, name@),
{
    if str_eq(name, "root") {
        return true;
    }
    let mut i: usize = 0;
    while i < actors.len()
        invariant
            i <= actors.len(),
            forall|j: int| 0 <= j < i ==> (#[trigger] actors@[j]).name@ != name@,
        decreases actors.len() - i,
    {
        if str_eq(actors[i].name.as_str(), name) {
            return true;
        }
        i += 1;
    }
    false
}

fn step_of_fixture(fixture: &FixtureSpec, base: &str, actors: &Vec<NamedActor>) -> (step:
    PrepareStep)
    ensures
        step@ == fixture_step(*fixture, base@, actors@),
{
    let actor = match &fixture.actor {
        Some(a) => a.as_str(),
        None => "root",
    };
    if !session_open(actors, actor) {
        return PrepareStep::Fail {
            error: KitError::new(
                ErrorKind::Configuration,
                concat3("actor '", actor, "' not configured"),
            ),
        };
    }
    match fixture_sql(fixture, base) {
        Err(error) => PrepareStep::Fail { error },
        Ok(source) => PrepareStep::Fixture {
            actor: owned(actor),
            source,
            context: concat3("fixture '", name_of(fixture), "' failed"),
        },
    }
}

fn push_fixtures(
    out: &mut Vec<PrepareStep>,
    fixtures: &Vec<FixtureSpec>,
    root: bool,
    base: &str,
    actors: &Vec<NamedActor>,
)
    ensures
        step_views(final(out)@) == step_views(old(out)@) + fixture_steps(
            fixtures@,
            root,
            base@,
            actors@,
        ),
{
    let mut i: usize = 0;
    proof {
        assert(fixtures@.take(0) =~= Seq::<FixtureSpec>::empty());
        assert(step_views(out@) + Seq::<StepView>::empty() =~= step_views(out@));
    }
    while i < fixtures.len()
        invariant
            i <= fixtures.len(),
            step_views(out@) == step_views(old(out)@) + fixture_steps(
                fixtures@.take(i as int),
                root,
                base@,
                actors@,
            ),
        decreases fixtures.len() - i,
    {
        proof {
            let next = fixtures@.take(i + 1);
            assert(next.drop_last() =~= fixtures@.take(i as int));
            assert(next.last() == fixtures@[i as int]);
        }
        if fixture_targets_root(&fixtures[i]) == root {
            let ghost before = fixture_steps(fixtures@.take(i as int), root, base@, actors@);
            let step = step_of_fixture(&fixtures[i], base, actors);
            push_step(out, step);
            assert((step_views(old(out)@) + before).push(step@) =~= step_views(old(out)@)
                + before.push(step@));
        }
        i += 1;
    }
    assert(fixtures@.take(fixtures.len() as int) =~= fixtures@);
}

/// The same steps, for lists of actors that say the same.
proof fn lemma_same_fixture_steps(
    fixtures: Seq<FixtureSpec>,
    root: bool,
    base: Seq<char>,
    a: Seq<NamedActor>,
    b: Seq<NamedActor>,
)
    requires
        same_actors(a, b),
    ensures
        fixture_steps(fixtures, root, base, a) == fixture_steps(fixtures, root, base, b),
    decreases fixtures.len(),
{
    if fixtures.len() > 0 {
        lemma_same_fixture_steps(fixtures.drop_last(), root, base, a, b);
        let name = fixture_actor(fixtures.last());
        if crate::tester::actors::names_actor(a, name) {
            let i = choose|i: int| 0 <= i < a.len() && (#[trigger] a[i]).name@ == name;
            assert(b[i].name@ == name);
        }
        if crate::tester::actors::names_actor(b, name) {
            let i = choose|i: int| 0 <= i < b.len() && (#[trigger] b[i]).name@ == name;
            assert(a[i].name@ == name);
        }
    }
}

/// Plans the preparation of a suite.
pub fn prepare_suite(
    opts: &TestOpts,
    global: &GlobalTestConfig,
    suite: &LoadedSuite,
    cfg: &DbCfg,
    host: &str,
    namespace: &str,
    database: &str,
    env: &Vec<EnvVar>,
) -> (steps: Vec<PrepareStep>)
    ensures
        step_views(steps@) == prepare_steps(
            *opts,
            *global,
            *suite,
            cfg.spec_user(),
            cfg.spec_pass(),
            host@,
            namespace@,
            database@,
            env@,
        ),
{
    let merged = merged_actor_specs(&global.actors, &suite.spec.actors);
    let nobody: Vec<NamedActor> = Vec::new();
    let base = match parent_dir(suite.path.as_str()) {
        Some(dir) => dir,
        None => owned("database/tests/suites"),
    };
    let ghost actors = merged_actors(global.actors@, suite.spec.actors@);
    let ghost user = cfg.spec_user();
    let ghost pass = cfg.spec_pass();
    let mut steps: Vec<PrepareStep> = Vec::new();
    assert(step_views(steps@) =~= Seq::<StepView>::empty());
    let mut boot: Vec<SessionPlan> = Vec::new();
    boot.push(plan_default_root_session(cfg, host, namespace, database));
    assert(plan_views(boot@) =~= seq![
        default_root_plan(user, pass, host@, namespace@, database@),
    ]);
    push_step(&mut steps, PrepareStep::OpenSessions { plans: boot });
    if !opts.no_setup {
        push_step(&mut steps, PrepareStep::Setup);
    }
    if !opts.no_sync {
        push_step(
            &mut steps,
            PrepareStep::Sync {
                opts: SyncOpts {
                    watch: false,
                    debounce_ms: 250,
                    dry_run: false,
                    fail_fast: true,
                    prune: true,
                    allow_shared_prune: true,
                },
            },
        );
    }
    if !opts.no_seed {
        push_step(&mut steps, PrepareStep::Seed);
    }
    let ghost head = step_views(steps@);
    assert(head =~= seq![
        StepView::OpenSessions {
            plans: seq![default_root_plan(user, pass, host@, namespace@, database@)],
        },
    ] + when(!opts.no_setup, StepView::Setup) + when(
        !opts.no_sync,
        StepView::Sync { opts: suite_sync() },
    ) + when(!opts.no_seed, StepView::Seed));
    assert(nobody@ =~= Seq::<NamedActor>::empty());
    push_fixtures(&mut steps, &global.fixtures, true, "database/tests", &nobody);
    push_fixtures(&mut steps, &suite.spec.fixtures, true, base.as_str(), &nobody);
    let open = match build_actor_sessions(cfg, host, namespace, database, &merged, env) {
        Ok(plans) => PrepareStep::OpenSessions { plans },
        Err(error) => PrepareStep::Fail { error },
    };
    proof {
        lemma_same_plans(user, pass, host@, namespace@, database@, merged@, actors, env@);
        lemma_same_fixture_steps(global.fixtures@, false, "database/tests"@, merged@, actors);
        lemma_same_fixture_steps(suite.spec.fixtures@, false, base@, merged@, actors);
    }
    push_step(&mut steps, open);
    push_fixtures(&mut steps, &global.fixtures, false, "database/tests", &merged);
    push_fixtures(&mut steps, &suite.spec.fixtures, false, base.as_str(), &merged);
    proof {
        assert(step_views(steps@) =~= prepare_steps(
            *opts,
            *global,
            *suite,
            user,
            pass,
            host@,
            namespace@,
            database@,
            env@,
        ));
    }
    steps
}

} // verus!
