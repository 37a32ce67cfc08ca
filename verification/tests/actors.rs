use surrealkit::config::{DbCfg, EnvVar};
use surrealkit::error::ErrorKind;
use surrealkit::json::{json_eq, JsonMember, JsonValue};
use surrealkit::sync::SyncOpts;
use surrealkit::tester::actors::{
    actor_name_or_default, build_actor_sessions, merged_actor_specs, open_session,
    plan_default_root_session, plan_session, require_actor, required_string, resolve_string,
    some_default, ActorSession, SignIn,
};
use surrealkit::tester::prepare::{
    fixture_sql, fixture_targets_root, prepare_suite, FixtureSource, PrepareStep,
};
use surrealkit::tester::types::{
    ActorKind, ActorSpec, FixtureSpec, GlobalDefaults, GlobalTestConfig, Header, LoadedSuite,
    NamedActor, SuiteSpec, TestOpts,
};

fn some(s: &str) -> Option<String> {
    Some(s.to_string())
}

fn env(vars: &[(&str, &str)]) -> Vec<EnvVar> {
    vars.iter().map(|(n, v)| EnvVar { name: n.to_string(), value: v.to_string() }).collect()
}

fn cfg() -> DbCfg {
    DbCfg::new(
        "ws://db:8000".to_string(),
        "ns".to_string(),
        "db".to_string(),
        "operator".to_string(),
        "secret".to_string(),
    )
}

fn actor(kind: ActorKind) -> ActorSpec {
    ActorSpec {
        kind,
        username: None,
        username_env: None,
        password: None,
        password_env: None,
        namespace: None,
        namespace_env: None,
        database: None,
        database_env: None,
        access: None,
        access_env: None,
        params: None,
        token: None,
        token_env: None,
        headers: vec![],
    }
}

fn named(name: &str, spec: ActorSpec) -> NamedActor {
    NamedActor { name: name.to_string(), spec }
}

fn fixture(name: Option<&str>, actor: Option<&str>, sql: Option<&str>, file: Option<&str>) -> FixtureSpec {
    FixtureSpec {
        name: name.map(|s| s.to_string()),
        actor: actor.map(|s| s.to_string()),
        sql: sql.map(|s| s.to_string()),
        file: file.map(|s| s.to_string()),
    }
}

fn opts() -> TestOpts {
    TestOpts {
        suite: None,
        case: None,
        tags: vec![],
        fail_fast: false,
        parallel: 1,
        json_out: None,
        no_setup: false,
        no_sync: false,
        no_seed: false,
        base_url: None,
        timeout_ms: None,
        keep_db: false,
    }
}

fn pairs(headers: &[Header]) -> Vec<(String, String)> {
    headers.iter().map(|h| (h.name.clone(), h.value.clone())).collect()
}

fn describe(step: &PrepareStep) -> String {
    match step {
        PrepareStep::OpenSessions { plans } => {
            let names: Vec<&str> = plans.iter().map(|p| p.actor.as_str()).collect();
            format!("open {}", names.join(","))
        }
        PrepareStep::Setup => "setup".to_string(),
        PrepareStep::Sync { .. } => "sync".to_string(),
        PrepareStep::Seed => "seed".to_string(),
        PrepareStep::Fixture { actor, source, context } => match source {
            FixtureSource::Inline { sql } => format!("fixture {} inline {} [{}]", actor, sql, context),
            FixtureSource::File { path } => format!("fixture {} file {} [{}]", actor, path, context),
        },
        PrepareStep::Fail { error } => format!("fail {}", error.to_text()),
    }
}

#[test]
fn settings_resolve_from_literal_environment_and_default() {
    let e = env(&[("USER_VAR", "from-env"), ("BLANK", "  ")]);
    let r = |lit: Option<&str>, var: Option<&str>, def: Option<&str>| {
        resolve_string(&lit.map(|s| s.to_string()), &var.map(|s| s.to_string()), def, &e)
            .map_err(|e| (e.kind, e.to_text()))
    };
    assert_eq!(r(Some("lit"), Some("USER_VAR"), Some("def")), Ok("lit".to_string()));
    assert_eq!(r(Some("  "), Some("USER_VAR"), Some("def")), Ok("from-env".to_string()));
    assert_eq!(r(None, Some("BLANK"), Some("def")), Ok("def".to_string()));
    assert_eq!(r(None, None, Some("def")), Ok("def".to_string()));
    assert_eq!(r(None, Some("MISSING"), Some("def")), Ok("def".to_string()));
    assert_eq!(r(Some(" "), Some("MISSING"), Some("def")), Ok("def".to_string()));
    assert_eq!(
        r(None, Some("MISSING"), None),
        Err((ErrorKind::Configuration, "required value missing".to_string()))
    );
    assert_eq!(r(None, None, None), Err((ErrorKind::Configuration, "required value missing".to_string())));
    assert_eq!(r(None, Some("BLANK"), Some(" ")), Err((ErrorKind::Configuration, "required value missing".to_string())));
    let missing = required_string(&None, &None, "actor 'a' token".to_string(), &e).unwrap_err();
    assert_eq!(missing.to_text(), "missing actor 'a' token: required value missing");
    assert_eq!(required_string(&some("t"), &None, "x".to_string(), &e).expect("a value"), "t");
    assert_eq!(some_default("x"), Some("x"));
}

#[test]
fn the_default_actor_is_root() {
    assert_eq!(actor_name_or_default(&None), "root");
    assert_eq!(actor_name_or_default(&some("alice")), "alice");
}

#[test]
fn the_session_opened_last_under_a_name_is_found() {
    let sessions = vec![
        ActorSession { name: "root".to_string(), headers: vec![] },
        ActorSession {
            name: "root".to_string(),
            headers: vec![Header { name: "x".to_string(), value: "2".to_string() }],
        },
    ];
    assert_eq!(require_actor(&sessions, "root").expect("a session").headers.len(), 1);
    let e = require_actor(&sessions, "alice").unwrap_err();
    assert_eq!((e.kind, e.to_text().as_str()), (ErrorKind::Configuration, "actor 'alice' not configured"));
}

#[test]
fn the_root_session_uses_the_operators_credentials() {
    let plan = plan_default_root_session(&cfg(), "ws://db:8000", "ns_x", "db_x");
    assert_eq!(plan.actor, "root");
    assert!(matches!(&plan.signin, SignIn::Root { username, password } if username == "operator" && password == "secret"));
    assert_eq!((plan.namespace.as_str(), plan.database.as_str()), ("ns_x", "db_x"));
    assert!(plan.headers.is_empty());
    assert!(!plan.bearer);
    assert_eq!(plan.connect_context, "connecting root actor to ws://db:8000");
    assert_eq!(plan.signin_context, "root signin failed");
    assert_eq!(plan.use_context, "switching root actor to ns=ns_x db=db_x");
    let session = open_session(&plan, &some("tok"));
    assert!(session.headers.is_empty());
}

#[test]
fn each_kind_of_actor_signs_in_its_own_way() {
    let e = env(&[("PW", "from-env"), ("TOKEN", "t0k3n")]);
    let plan = |name: &str, spec: &ActorSpec| plan_session(name, spec, &cfg(), "h", "ns_x", "db_x", &e);

    let mut root = actor(ActorKind::Root);
    root.password_env = some("PW");
    let p = plan("r", &root).expect("a plan");
    assert!(matches!(&p.signin, SignIn::Root { username, password } if username == "operator" && password == "from-env"));
    assert!(p.bearer);
    assert_eq!(p.connect_context, "connecting actor 'r' to h");
    assert_eq!(p.signin_context, "actor 'r' root signin failed");
    assert_eq!(p.use_context, "actor 'r' use_ns/use_db failed for ns_x/db_x");

    let mut ns = actor(ActorKind::Namespace);
    ns.namespace = some("other");
    ns.username = some("u");
    ns.password = some("p");
    let p = plan("n", &ns).expect("a plan");
    assert!(matches!(&p.signin, SignIn::Namespace { namespace, username, password }
        if namespace == "other" && username == "u" && password == "p"));
    assert_eq!((p.namespace.as_str(), p.database.as_str()), ("other", "db_x"));
    assert_eq!(p.signin_context, "actor 'n' namespace signin failed");
    ns.password = None;
    let err = plan("n", &ns).unwrap_err();
    assert_eq!(err.kind, ErrorKind::Configuration);
    assert_eq!(err.to_text(), "missing actor 'n' namespace password: required value missing");
    ns.username = None;
    assert_eq!(plan("n", &ns).unwrap_err().to_text(), "missing actor 'n' namespace username: required value missing");

    let mut db = actor(ActorKind::Database);
    db.username = some("u");
    db.password_env = some("PW");
    db.database = some("mine");
    let p = plan("d", &db).expect("a plan");
    assert!(matches!(&p.signin, SignIn::Database { namespace, database, username, password }
        if namespace == "ns_x" && database == "mine" && username == "u" && password == "from-env"));
    assert_eq!(p.signin_context, "actor 'd' database signin failed");
    db.password_env = some("NOPE");
    assert_eq!(
        plan("d", &db).unwrap_err().to_text(),
        "missing actor 'd' database password: required value missing"
    );

    let mut rec = actor(ActorKind::Record);
    assert_eq!(plan("c", &rec).unwrap_err().to_text(), "missing actor 'c' access method: required value missing");
    rec.access = some("account");
    let p = plan("c", &rec).expect("a plan");
    match &p.signin {
        SignIn::Record { namespace, database, access, params } => {
            assert_eq!((namespace.as_str(), database.as_str(), access.as_str()), ("ns_x", "db_x", "account"));
            assert!(json_eq(params, &JsonValue::Object(vec![])));
        }
        other => panic!("expected a record sign-in, got {:?}", other),
    }
    rec.params = Some(JsonValue::Object(vec![JsonMember {
        key: "email".to_string(),
        value: JsonValue::Text("a@b".to_string()),
    }]));
    let p = plan("c", &rec).expect("a plan");
    assert!(matches!(&p.signin, SignIn::Record { params, .. } if json_eq(params, rec.params.as_ref().expect("params"))));
    assert_eq!(p.signin_context, "actor 'c' record signin failed");

    let mut tok = actor(ActorKind::Token);
    assert_eq!(plan("t", &tok).unwrap_err().to_text(), "missing actor 't' token: required value missing");
    tok.token_env = some("TOKEN");
    let p = plan("t", &tok).expect("a plan");
    assert!(matches!(&p.signin, SignIn::Token { token } if token == "t0k3n"));
    assert_eq!(p.signin_context, "actor 't' token authentication failed");

    let mut hd = actor(ActorKind::Headers);
    hd.username = some("ignored");
    hd.headers = vec![Header { name: "x-api-key".to_string(), value: "k".to_string() }];
    let p = plan("h", &hd).expect("a plan");
    assert!(matches!(&p.signin, SignIn::Root { username, password } if username == "operator" && password == "secret"));
    assert_eq!(p.signin_context, "actor 'h' default root signin failed");
    assert_eq!(pairs(&p.headers), vec![("x-api-key".to_string(), "k".to_string())]);

    let mut unset = actor(ActorKind::Root);
    unset.namespace_env = some("NOPE");
    unset.username_env = some("ALSO_NOPE");
    let p = plan("b", &unset).expect("the defaults stand in");
    assert_eq!(p.namespace, "ns_x");
    assert!(matches!(&p.signin, SignIn::Root { username, .. } if username == "operator"));
}

#[test]
fn the_token_of_a_session_becomes_a_bearer_header_unless_one_is_given() {
    let e = env(&[]);
    let mut spec = actor(ActorKind::Root);
    spec.headers = vec![Header { name: "x".to_string(), value: "1".to_string() }];
    let plan = plan_session("a", &spec, &cfg(), "h", "n", "d", &e).expect("a plan");
    let session = open_session(&plan, &some("abc"));
    assert_eq!(session.name, "a");
    assert_eq!(
        pairs(&session.headers),
        vec![("x".to_string(), "1".to_string()), ("authorization".to_string(), "Bearer abc".to_string())]
    );
    assert_eq!(pairs(&open_session(&plan, &None).headers), vec![("x".to_string(), "1".to_string())]);
    spec.headers.push(Header { name: "authorization".to_string(), value: "Basic zzz".to_string() });
    let plan = plan_session("a", &spec, &cfg(), "h", "n", "d", &e).expect("a plan");
    let session = open_session(&plan, &some("abc"));
    assert_eq!(session.headers.len(), 2);
    assert_eq!(session.headers[1].value, "Basic zzz");
    spec.headers[1].name = "Authorization".to_string();
    let plan = plan_session("a", &spec, &cfg(), "h", "n", "d", &e).expect("a plan");
    let session = open_session(&plan, &some("abc"));
    assert_eq!(
        pairs(&session.headers),
        vec![("x".to_string(), "1".to_string()), ("Authorization".to_string(), "Basic zzz".to_string())]
    );
}

#[test]
fn the_actors_of_a_suite_override_those_of_the_project() {
    let mut global_b = actor(ActorKind::Token);
    global_b.token = some("global");
    let mut suite_b = actor(ActorKind::Token);
    suite_b.token = some("suite");
    let global = vec![named("a", actor(ActorKind::Root)), named("b", global_b)];
    let suite = vec![named("b", suite_b), named("c", actor(ActorKind::Headers))];
    let merged = merged_actor_specs(&global, &suite);
    let names: Vec<&str> = merged.iter().map(|m| m.name.as_str()).collect();
    assert_eq!(names, vec!["a", "b", "c"]);
    assert_eq!(merged[1].spec.token.as_deref(), Some("suite"));
    let unordered = vec![named("z", actor(ActorKind::Root)), named("m", actor(ActorKind::Root))];
    let again = vec![named("n", actor(ActorKind::Root)), named("a", actor(ActorKind::Headers))];
    let merged_names: Vec<String> =
        merged_actor_specs(&unordered, &again).iter().map(|m| m.name.clone()).collect();
    assert_eq!(merged_names, vec!["a", "m", "n", "z"]);
    assert_eq!(merged_actor_specs(&global, &vec![]).len(), 2);
    assert_eq!(merged_actor_specs(&vec![], &suite).len(), 2);

    let plans = build_actor_sessions(&cfg(), "h", "n", "d", &merged, &env(&[])).expect("plans");
    let actors: Vec<&str> = plans.iter().map(|p| p.actor.as_str()).collect();
    assert_eq!(actors, vec!["root", "a", "b", "c"]);
    let broken = vec![named("x", actor(ActorKind::Record)), named("y", actor(ActorKind::Token))];
    assert_eq!(
        build_actor_sessions(&cfg(), "h", "n", "d", &broken, &env(&[])).unwrap_err().to_text(),
        "missing actor 'x' access method: required value missing"
    );
}

#[test]
fn fixtures_hold_their_statements_or_name_a_file() {
    assert!(fixture_targets_root(&fixture(None, None, None, None)));
    assert!(fixture_targets_root(&fixture(None, Some("root"), None, None)));
    assert!(!fixture_targets_root(&fixture(None, Some("Root"), None, None)));
    let inline = fixture_sql(&fixture(Some("f"), None, Some("CREATE x;"), None), "base").expect("a source");
    assert!(matches!(inline, FixtureSource::Inline { sql } if sql == "CREATE x;"));
    let file = fixture_sql(&fixture(None, None, None, Some("data/x.surql")), "database/tests").expect("a source");
    assert!(matches!(file, FixtureSource::File { path } if path == "database/tests/data/x.surql"));
    let absolute = fixture_sql(&fixture(None, None, None, Some("/abs/x.surql")), "database/tests").expect("a source");
    assert!(matches!(absolute, FixtureSource::File { path } if path == "/abs/x.surql"));
    let both = fixture_sql(&fixture(Some("f"), None, Some("a"), Some("b")), "base").unwrap_err();
    assert_eq!((both.kind, both.to_text().as_str()), (ErrorKind::Configuration, "fixture 'f' cannot define both sql and file"));
    let neither = fixture_sql(&fixture(None, None, None, None), "base").unwrap_err();
    assert_eq!(neither.to_text(), "fixture 'unnamed' requires sql or file");
}

#[test]
fn a_suite_is_prepared_step_by_step() {
    let global = GlobalTestConfig {
        defaults: GlobalDefaults { base_url: None, timeout_ms: None },
        actors: vec![named("alice", actor(ActorKind::Root))],
        fixtures: vec![
            fixture(Some("g-root"), None, Some("G1;"), None),
            fixture(Some("g-alice"), Some("alice"), None, Some("g.surql")),
        ],
    };
    let suite = LoadedSuite {
        path: "database/tests/suites/auth/a.toml".to_string(),
        spec: SuiteSpec {
            name: None,
            tags: vec![],
            actors: vec![named("bob", actor(ActorKind::Headers))],
            fixtures: vec![
                fixture(Some("s-bob"), Some("bob"), None, Some("s.surql")),
                fixture(Some("s-root"), Some("root"), None, Some("r.surql")),
                fixture(Some("s-carol"), Some("carol"), Some("X;"), None),
                fixture(Some("s-bad"), Some("bob"), None, None),
            ],
            cases: vec![],
        },
    };
    let steps = prepare_suite(&opts(), &global, &suite, &cfg(), "h", "n", "d", &env(&[]));
    let told: Vec<String> = steps.iter().map(describe).collect();
    assert_eq!(
        told,
        vec![
            "open root",
            "setup",
            "sync",
            "seed",
            "fixture root inline G1; [fixture 'g-root' failed]",
            "fixture root file database/tests/suites/auth/r.surql [fixture 's-root' failed]",
            "open root,alice,bob",
            "fixture alice file database/tests/g.surql [fixture 'g-alice' failed]",
            "fixture bob file database/tests/suites/auth/s.surql [fixture 's-bob' failed]",
            "fail actor 'carol' not configured",
            "fail fixture 's-bad' requires sql or file",
        ]
    );
    match &steps[2] {
        PrepareStep::Sync { opts } => assert_eq!(
            *opts,
            SyncOpts {
                watch: false,
                debounce_ms: 250,
                dry_run: false,
                fail_fast: true,
                prune: true,
                allow_shared_prune: true
            }
        ),
        other => panic!("expected the sync, got {:?}", other),
    }

    let mut bare = opts();
    bare.no_setup = true;
    bare.no_sync = true;
    bare.no_seed = true;
    let mut broken = suite.clone();
    broken.path = "a.toml".to_string();
    broken.spec.fixtures = vec![fixture(None, None, None, Some("r.surql"))];
    broken.spec.actors = vec![named("bob", actor(ActorKind::Token))];
    let steps = prepare_suite(&bare, &global, &broken, &cfg(), "h", "n", "d", &env(&[]));
    let told: Vec<String> = steps.iter().map(describe).collect();
    assert_eq!(
        told,
        vec![
            "open root",
            "fixture root inline G1; [fixture 'g-root' failed]",
            "fixture root file r.surql [fixture 'unnamed' failed]",
            "fail missing actor 'bob' token: required value missing",
            "fixture alice file database/tests/g.surql [fixture 'g-alice' failed]",
        ]
    );
}
