//! Actors: the identities under which a suite's statements run, how each one
//! signs in, and the headers that its requests carry.

use vstd::prelude::*;
use vstd::string::*;

use crate::config::{env_lookup, env_value, DbCfg, EnvVar};
use crate::error::{error_of, with_context, ErrorKind, KitError, KitErrorView};
use crate::json::{Json, JsonValue};
use crate::tester::api::header_pairs;
use crate::tester::types::{text_view, ActorKind, ActorSpec, Header, NamedActor};
use crate::text::{
    concat2, concat3, concat4, concat6, is_blank, lemma_lex_total, lemma_lex_transitive, lex_lt,
    owned, same_ignoring_case, str_eq, str_eq_ignore_case, str_is_blank, str_lt,
};

verus! {

/// A session that was opened for an actor: the name by which cases refer to
/// it and the headers that its requests carry.
#[derive(Debug, Clone)]
pub struct ActorSession {
    pub name: String,
    pub headers: Vec<Header>,
}

/// The name of the actor that a case or a fixture runs as: `root` where it names none.
pub fn actor_name_or_default<'a>(name: &'a Option<String>) -> (s: &'a str)
    ensures
        s@ == match *name {
            Some(n) => n@,
            None => "root"@,
        },
{
    match name {
        Some(n) => n.as_str(),
        None => "root",
    }
}

/// The position of the last session named `name`.
pub open spec fn session_index(actors: Seq<ActorSession>, name: Seq<char>) -> Option<int>
    decreases actors.len(),
{
    if actors.len() == 0 {
        None
    } else if actors.last().name@ == name {
        Some(actors.len() - 1)
    } else {
        session_index(actors.drop_last(), name)
    }
}

pub proof fn lemma_session_index(actors: Seq<ActorSession>, name: Seq<char>)
    ensures
        match session_index(actors, name) {
            Some(i) => 0 <= i < actors.len() && actors[i].name@ == name,
            None => forall|j: int| 0 <= j < actors.len() ==> (#[trigger] actors[j]).name@ != name,
        },
    decreases actors.len(),
{
    if actors.len() > 0 && actors.last().name@ != name {
        lemma_session_index(actors.drop_last(), name);
        if session_index(actors, name) is None {
            assert forall|j: int| 0 <= j < actors.len() implies (#[trigger] actors[j]).name@
                != name by {
                if j < actors.len() - 1 {
                    assert(actors.drop_last()[j] == actors[j]);
                }
            }
        }
    }
}

pub open spec fn not_configured(name: Seq<char>) -> KitErrorView {
    error_of(ErrorKind::Configuration, "actor '"@ + name + "' not configured"@)
}

/// The session of the actor `name`: the one opened last under that name. An
/// actor without a session is a configuration error.
pub fn require_actor<'a>(actors: &'a Vec<ActorSession>, name: &str) -> (r: Result<
    &'a ActorSession,
    KitError,
>)
    ensures
        match r {
            Ok(s) => session_index(actors@, name@) is Some && *s == actors@[session_index(
                actors@,
                name@,
            )->0],
            Err(e) => session_index(actors@, name@) is None && e@ == not_configured(name@),
        },
{
    let mut i: usize = actors.len();
    proof {
        assert(actors@.take(actors.len() as int) =~= actors@);
    }
    while i > 0
        invariant
            i <= actors.len(),
            session_index(actors@, name@) == session_index(actors@.take(i as int), name@),
        decreases i,
    {
        let ghost front = actors@.take(i as int);
        assert(front.last() == actors@[i - 1]);
        assert(front.drop_last() =~= actors@.take(i - 1));
        i -= 1;
        if str_eq(actors[i].name.as_str(), name) {
            return Ok(&actors[i]);
        }
    }
    Err(KitError::new(ErrorKind::Configuration, concat3("actor '", name, "' not configured")))
}

/// The value of the first entry named `name`, from the back: the entry that
/// was written last.
pub open spec fn actor_named(actors: Seq<NamedActor>, name: Seq<char>) -> Option<ActorSpec>
    decreases actors.len(),
{
    if actors.len() == 0 {
        None
    } else if actors.last().name@ == name {
        Some(actors.last().spec)
    } else {
        actor_named(actors.drop_last(), name)
    }
}

/// Whether a value counts as given: it is there and not blank.
pub open spec fn given(v: Option<Seq<char>>) -> bool {
    v is Some && !is_blank(v->0)
}

/// The value that the environment gives under `env_name`: that of the
/// variable it names, where the variable is set.
pub open spec fn from_env(env_name: Option<Seq<char>>, env: Seq<EnvVar>) -> Option<Seq<char>> {
    match env_name {
        Some(name) => env_value(env, name),
        None => None,
    }
}

/// The value that a setting resolves to: the literal, else the variable of
/// the environment that it names, else the default. A value that is blank
/// counts as absent, and so does a variable that is not set. A setting that
/// nothing gives a value is an error.
pub open spec fn resolved(
    literal: Option<Seq<char>>,
    env_name: Option<Seq<char>>,
    default: Option<Seq<char>>,
    env: Seq<EnvVar>,
) -> Result<Seq<char>, KitErrorView> {
    if given(literal) {
        Ok(literal->0)
    } else if given(from_env(env_name, env)) {
        Ok(from_env(env_name, env)->0)
    } else if given(default) {
        Ok(default->0)
    } else {
        Err(error_of(ErrorKind::Configuration, "required value missing"@))
    }
}

/// A setting whose literal is absent or blank and whose variable is not
/// set resolves to its default, where it has one that is not blank.
pub proof fn lemma_unset_variable_falls_back(
    literal: Option<Seq<char>>,
    env_name: Option<Seq<char>>,
    default: Seq<char>,
    env: Seq<EnvVar>,
)
    requires
        !given(literal),
        from_env(env_name, env) is None,
        !is_blank(default),
    ensures
        resolved(literal, env_name, Some(default), env) == Ok::<Seq<char>, KitErrorView>(default),
{
}

pub open spec fn resolution_view(r: Result<String, KitError>) -> Result<Seq<char>, KitErrorView> {
    match r {
        Ok(s) => Ok(s@),
        Err(e) => Err(e@),
    }
}

/// Resolves a setting from its literal, the environment and its default.
pub fn resolve_string(
    literal: &Option<String>,
    env_name: &Option<String>,
    default: Option<&str>,
    env: &Vec<EnvVar>,
) -> (r: Result<String, KitError>)
    ensures
        resolution_view(r) == resolved(
            text_view(*literal),
            text_view(*env_name),
            match default {
                Some(d) => Some(d@),
                None => None,
            },
            env@,
        ),
{
    if let Some(value) = literal {
        if !str_is_blank(value.as_str()) {
            return Ok(value.clone());
        }
    }
    if let Some(key) = env_name {
        if let Some(value) = env_lookup(env, key.as_str()) {
            if !str_is_blank(value.as_str()) {
                return Ok(value.clone());
            }
        }
    }
    if let Some(value) = default {
        if !str_is_blank(value) {
            return Ok(owned(value));
        }
    }
    Err(KitError::new(ErrorKind::Configuration, owned("required value missing")))
}

/// The value of a setting that has no default; `label` says in the error
/// which one is missing.
pub open spec fn required(
    literal: Option<Seq<char>>,
    env_name: Option<Seq<char>>,
    label: Seq<char>,
    env: Seq<EnvVar>,
) -> Result<Seq<char>, KitErrorView> {
    match resolved(literal, env_name, None, env) {
        Ok(v) => Ok(v),
        Err(e) => Err(with_context(e, "missing "@ + label)),
    }
}

pub fn required_string(
    literal: &Option<String>,
    env_name: &Option<String>,
    label: String,
    env: &Vec<EnvVar>,
) -> (r: Result<String, KitError>)
    ensures
        resolution_view(r) == required(text_view(*literal), text_view(*env_name), label@, env@),
{
    match resolve_string(literal, env_name, None, env) {
        Ok(v) => Ok(v),
        Err(e) => {
            let context = concat2("missing ", label.as_str());
            Err(e.context(context.as_str()))
        },
    }
}

pub fn some_default<'a>(value: &'a str) -> (r: Option<&'a str>)
    ensures
        r == Some(value),
{
    Some(value)
}

/// How an actor proves who it is.
#[derive(Debug, Clone)]
pub enum SignIn {
    Root { username: String, password: String },
    Namespace { namespace: String, username: String, password: String },
    Database { namespace: String, database: String, username: String, password: String },
    Record { namespace: String, database: String, access: String, params: JsonValue },
    Token { token: String },
}

pub enum SignInView {
    Root { username: Seq<char>, password: Seq<char> },
    Namespace { namespace: Seq<char>, username: Seq<char>, password: Seq<char> },
    Database { namespace: Seq<char>, database: Seq<char>, username: Seq<char>, password: Seq<char> },
    Record { namespace: Seq<char>, database: Seq<char>, access: Seq<char>, params: Json },
    Token { token: Seq<char> },
}

impl View for SignIn {
    type V = SignInView;

    open spec fn view(&self) -> SignInView {
        match *self {
            SignIn::Root { username, password } => SignInView::Root {
                username: username@,
                password: password@,
            },
            SignIn::Namespace { namespace, username, password } => SignInView::Namespace {
                namespace: namespace@,
                username: username@,
                password: password@,
            },
            SignIn::Database { namespace, database, username, password } => SignInView::Database {
                namespace: namespace@,
                database: database@,
                username: username@,
                password: password@,
            },
            SignIn::Record { namespace, database, access, params } => SignInView::Record {
                namespace: namespace@,
                database: database@,
                access: access@,
                params: params@,
            },
            SignIn::Token { token } => SignInView::Token { token: token@ },
        }
    }
}

/// All that opening the session of one actor takes: how to sign in, the
/// namespace and database to switch to, the headers that the actor's spec
/// gives, whether the token of the session becomes an `authorization` header,
/// and the words that say what failed where a step fails.
#[derive(Debug, Clone)]
pub struct SessionPlan {
    pub actor: String,
    pub signin: SignIn,
    pub namespace: String,
    pub database: String,
    pub headers: Vec<Header>,
    pub bearer: bool,
    pub connect_context: String,
    pub signin_context: String,
    pub use_context: String,
}

pub struct SessionPlanView {
    pub actor: Seq<char>,
    pub signin: SignInView,
    pub namespace: Seq<char>,
    pub database: Seq<char>,
    pub headers: Seq<(Seq<char>, Seq<char>)>,
    pub bearer: bool,
    pub connect_context: Seq<char>,
    pub signin_context: Seq<char>,
    pub use_context: Seq<char>,
}

impl View for SessionPlan {
    type V = SessionPlanView;

    open spec fn view(&self) -> SessionPlanView {
        SessionPlanView {
            actor: self.actor@,
            signin: self.signin@,
            namespace: self.namespace@,
            database: self.database@,
            headers: header_pairs(self.headers@),
            bearer: self.bearer,
            connect_context: self.connect_context@,
            signin_context: self.signin_context@,
            use_context: self.use_context@,
        }
    }
}

/// The plan of the session that every suite has under the name `root`: the
/// operator's own credentials, the suite's namespace and database, no headers.
pub open spec fn default_root_plan(
    user: Seq<char>,
    pass: Seq<char>,
    host: Seq<char>,
    namespace: Seq<char>,
    database: Seq<char>,
) -> SessionPlanView {
    SessionPlanView {
        actor: "root"@,
        signin: SignInView::Root { username: user, password: pass },
        namespace,
        database,
        headers: Seq::empty(),
        bearer: false,
        connect_context: "connecting root actor to "@ + host,
        signin_context: "root signin failed"@,
        use_context: "switching root actor to ns="@ + namespace + " db="@ + database,
    }
}

pub fn plan_default_root_session(cfg: &DbCfg, host: &str, namespace: &str, database: &str) -> (plan:
    SessionPlan)
    ensures
        plan@ == default_root_plan(
            cfg.spec_user(),
            cfg.spec_pass(),
            host@,
            namespace@,
            database@,
        ),
{
    let headers: Vec<Header> = Vec::new();
    assert(header_pairs(headers@) =~= Seq::<(Seq<char>, Seq<char>)>::empty());
    SessionPlan {
        actor: owned("root"),
        signin: SignIn::Root { username: owned(cfg.user()), password: owned(cfg.pass()) },
        namespace: owned(namespace),
        database: owned(database),
        headers,
        bearer: false,
        connect_context: concat2("connecting root actor to ", host),
        signin_context: owned("root signin failed"),
        use_context: concat4("switching root actor to ns=", namespace, " db=", database),
    }
}

pub open spec fn kind_word(kind: ActorKind) -> Seq<char> {
    match kind {
        ActorKind::Root => "root signin"@,
        ActorKind::Namespace => "namespace signin"@,
        ActorKind::Database => "database signin"@,
        ActorKind::Record => "record signin"@,
        ActorKind::Token => "token authentication"@,
        ActorKind::Headers => "default root signin"@,
    }
}

pub open spec fn actor_label(name: Seq<char>, what: Seq<char>) -> Seq<char> {
    "actor '"@ + name + "' "@ + what
}

/// How the actor signs in, by its kind. A root actor may fall back on the
/// operator's credentials; a namespace or database actor needs a user name
/// and a password of its own, a record actor an access method, a token actor
/// a token; a headers actor signs in as the operator.
pub open spec fn planned_signin(
    name: Seq<char>,
    spec: ActorSpec,
    user: Seq<char>,
    pass: Seq<char>,
    actor_ns: Seq<char>,
    actor_db: Seq<char>,
    env: Seq<EnvVar>,
) -> Result<SignInView, KitErrorView> {
    match spec.kind {
        ActorKind::Root => match resolved(
            text_view(spec.username),
            text_view(spec.username_env),
            Some(user),
            env,
        ) {
            Err(e) => Err(e),
            Ok(username) => match resolved(
                text_view(spec.password),
                text_view(spec.password_env),
                Some(pass),
                env,
            ) {
                Err(e) => Err(e),
                Ok(password) => Ok(SignInView::Root { username, password }),
            },
        },
        ActorKind::Namespace => match required(
            text_view(spec.username),
            text_view(spec.username_env),
            actor_label(name, "namespace username"@),
            env,
        ) {
            Err(e) => Err(e),
            Ok(username) => match required(
                text_view(spec.password),
                text_view(spec.password_env),
                actor_label(name, "namespace password"@),
                env,
            ) {
                Err(e) => Err(e),
                Ok(password) => Ok(
                    SignInView::Namespace { namespace: actor_ns, username, password },
                ),
            },
        },
        ActorKind::Database => match required(
            text_view(spec.username),
            text_view(spec.username_env),
            actor_label(name, "database username"@),
            env,
        ) {
            Err(e) => Err(e),
            Ok(username) => match required(
                text_view(spec.password),
                text_view(spec.password_env),
                actor_label(name, "database password"@),
                env,
            ) {
                Err(e) => Err(e),
                Ok(password) => Ok(
                    SignInView::Database {
                        namespace: actor_ns,
                        database: actor_db,
                        username,
                        password,
                    },
                ),
            },
        },
        ActorKind::Record => match required(
            text_view(spec.access),
            text_view(spec.access_env),
            actor_label(name, "access method"@),
            env,
        ) {
            Err(e) => Err(e),
            Ok(access) => Ok(
                SignInView::Record {
                    namespace: actor_ns,
                    database: actor_db,
                    access,
                    params: match spec.params {
                        Some(p) => p@,
                        None => Json::Object(Seq::empty()),
                    },
                },
            ),
        },
        ActorKind::Token => match required(
            text_view(spec.token),
            text_view(spec.token_env),
            actor_label(name, "token"@),
            env,
        ) {
            Err(e) => Err(e),
            Ok(token) => Ok(SignInView::Token { token }),
        },
        ActorKind::Headers => Ok(SignInView::Root { username: user, password: pass }),
    }
}

/// The plan of the session of a configured actor. Its namespace and
/// database are those of its spec, else those of the suite. Whatever cannot
/// be resolved is a configuration error, found before anything is sent.
pub open spec fn planned_session(
    name: Seq<char>,
    spec: ActorSpec,
    user: Seq<char>,
    pass: Seq<char>,
    host: Seq<char>,
    namespace: Seq<char>,
    database: Seq<char>,
    env: Seq<EnvVar>,
) -> Result<SessionPlanView, KitErrorView> {
    match resolved(
        text_view(spec.namespace),
        text_view(spec.namespace_env),
        Some(namespace),
        env,
    ) {
        Err(e) => Err(e),
        Ok(actor_ns) => match resolved(
            text_view(spec.database),
            text_view(spec.database_env),
            Some(database),
            env,
        ) {
            Err(e) => Err(e),
            Ok(actor_db) => match planned_signin(name, spec, user, pass, actor_ns, actor_db, env) {
                Err(e) => Err(e),
                Ok(signin) => Ok(
                    SessionPlanView {
                        actor: name,
                        signin,
                        namespace: actor_ns,
                        database: actor_db,
                        headers: header_pairs(spec.headers@),
                        bearer: true,
                        connect_context: "connecting actor '"@ + name + "' to "@ + host,
                        signin_context: actor_label(name, kind_word(spec.kind)) + " failed"@,
                        use_context: "actor '"@ + name + "' use_ns/use_db failed for "@ + actor_ns
                            + "/"@ + actor_db,
                    },
                ),
            },
        },
    }
}

pub open spec fn signin_result_view(r: Result<SignIn, KitError>) -> Result<
    SignInView,
    KitErrorView,
> {
    match r {
        Ok(x) => Ok(x@),
        Err(e) => Err(e@),
    }
}

pub open spec fn plan_result_view(r: Result<SessionPlan, KitError>) -> Result<
    SessionPlanView,
    KitErrorView,
> {
    match r {
        Ok(x) => Ok(x@),
        Err(e) => Err(e@),
    }
}

fn label_for(name: &str, what: &str) -> (out: String)
    ensures
        out@ == actor_label(name@, what@),
{
    concat4("actor '", name, "' ", what)
}

fn kind_text(kind: ActorKind) -> (out: &'static str)
    ensures
        out@ == kind_word(kind),
{
    match kind {
        ActorKind::Root => "root signin",
        ActorKind::Namespace => "namespace signin",
        ActorKind::Database => "database signin",
        ActorKind::Record => "record signin",
        ActorKind::Token => "token authentication",
        ActorKind::Headers => "default root signin",
    }
}

fn plan_signin(
    name: &str,
    spec: &ActorSpec,
    cfg: &DbCfg,
    actor_ns: &str,
    actor_db: &str,
    env: &Vec<EnvVar>,
) -> (r: Result<SignIn, KitError>)
    ensures
        signin_result_view(r) == planned_signin(
            name@,
            *spec,
            cfg.spec_user(),
            cfg.spec_pass(),
            actor_ns@,
            actor_db@,
            env@,
        ),
{
    match spec.kind {
        ActorKind::Root => {
            let username = match resolve_string(
                &spec.username,
                &spec.username_env,
                some_default(cfg.user()),
                env,
            ) {
                Ok(v) => v,
                Err(e) => {
                    return Err(e);
                },
            };
            let password = match resolve_string(
                &spec.password,
                &spec.password_env,
                some_default(cfg.pass()),
                env,
            ) {
                Ok(v) => v,
                Err(e) => {
                    return Err(e);
                },
            };
            Ok(SignIn::Root { username, password })
        },
        ActorKind::Namespace => {
            let username = match required_string(
                &spec.username,
                &spec.username_env,
                label_for(name, "namespace username"),
                env,
            ) {
                Ok(v) => v,
                Err(e) => {
                    return Err(e);
                },
            };
            let password = match required_string(
                &spec.password,
                &spec.password_env,
                label_for(name, "namespace password"),
                env,
            ) {
                Ok(v) => v,
                Err(e) => {
                    return Err(e);
                },
            };
            Ok(SignIn::Namespace { namespace: owned(actor_ns), username, password })
        },
        ActorKind::Database => {
            let username = match required_string(
                &spec.username,
                &spec.username_env,
                label_for(name, "database username"),
                env,
            ) {
                Ok(v) => v,
                Err(e) => {
                    return Err(e);
                },
            };
            let password = match required_string(
                &spec.password,
                &spec.password_env,
                label_for(name, "database password"),
                env,
            ) {
                Ok(v) => v,
                Err(e) => {
                    return Err(e);
                },
            };
            Ok(
                SignIn::Database {
                    namespace: owned(actor_ns),
                    database: owned(actor_db),
                    username,
                    password,
                },
            )
        },
        ActorKind::Record => {
            let access = match required_string(
                &spec.access,
                &spec.access_env,
                label_for(name, "access method"),
                env,
            ) {
                Ok(v) => v,
                Err(e) => {
                    return Err(e);
                },
            };
            let params = match &spec.params {
                Some(p) => p.clone(),
                None => {
                    let members: Vec<crate::json::JsonMember> = Vec::new();
                    assert(crate::json::members_view(members@) =~= Seq::empty());
                    JsonValue::Object(members)
                },
            };
            Ok(
                SignIn::Record {
                    namespace: owned(actor_ns),
                    database: owned(actor_db),
                    access,
                    params,
                },
            )
        },
        ActorKind::Token => {
            let token = match required_string(
                &spec.token,
                &spec.token_env,
                label_for(name, "token"),
                env,
            ) {
                Ok(v) => v,
                Err(e) => {
                    return Err(e);
                },
            };
            Ok(SignIn::Token { token })
        },
        ActorKind::Headers => Ok(
            SignIn::Root { username: owned(cfg.user()), password: owned(cfg.pass()) },
        ),
    }
}

/// A copy of a list of headers.
pub fn copy_headers(from: &Vec<Header>) -> (out: Vec<Header>)
    ensures
        header_pairs(out@) == header_pairs(from@),
{
    let mut out: Vec<Header> = Vec::new();
    let mut i: usize = 0;
    while i < from.len()
        invariant
            i <= from.len(),
            out.len() == i,
            forall|j: int|
                0 <= j < i ==> out@[j].name@ == from@[j].name@ && out@[j].value@
                    == from@[j].value@,
        decreases from.len() - i,
    {
        out.push(Header { name: from[i].name.clone(), value: from[i].value.clone() });
        i += 1;
    }
    assert(header_pairs(out@) =~= header_pairs(from@));
    out
}

/// Plans the session of a configured actor.
pub fn plan_session(
    name: &str,
    spec: &ActorSpec,
    cfg: &DbCfg,
    host: &str,
    namespace: &str,
    database: &str,
    env: &Vec<EnvVar>,
) -> (r: Result<SessionPlan, KitError>)
    ensures
        plan_result_view(r) == planned_session(
            name@,
            *spec,
            cfg.spec_user(),
            cfg.spec_pass(),
            host@,
            namespace@,
            database@,
            env@,
        ),
{
    let actor_ns = match resolve_string(
        &spec.namespace,
        &spec.namespace_env,
        some_default(namespace),
        env,
    ) {
        Ok(v) => v,
        Err(e) => {
            return Err(e);
        },
    };
    let actor_db = match resolve_string(
        &spec.database,
        &spec.database_env,
        some_default(database),
        env,
    ) {
        Ok(v) => v,
        Err(e) => {
            return Err(e);
        },
    };
    let signin = match plan_signin(name, spec, cfg, actor_ns.as_str(), actor_db.as_str(), env) {
        Ok(v) => v,
        Err(e) => {
            return Err(e);
        },
    };
    let label = label_for(name, kind_text(spec.kind));
    Ok(
        SessionPlan {
            actor: owned(name),
            signin,
            namespace: actor_ns.clone(),
            database: actor_db.clone(),
            headers: copy_headers(&spec.headers),
            bearer: true,
            connect_context: concat4("connecting actor '", name, "' to ", host),
            signin_context: concat2(label.as_str(), " failed"),
            use_context: concat6(
                "actor '",
                name,
                "' use_ns/use_db failed for ",
                actor_ns.as_str(),
                "/",
                actor_db.as_str(),
            ),
        },
    )
}

/// Whether a header named `name`, in whatever case of its letters, is
/// among `headers`.
pub open spec fn has_header(headers: Seq<(Seq<char>, Seq<char>)>, name: Seq<char>) -> bool {
    exists|i: int|
        0 <= i < headers.len() && same_ignoring_case((#[trigger] headers[i]).0, name)
}

/// The headers of an opened session: those of the plan and, where the plan
/// asks for it and names no `authorization` header itself, however it is
/// spelled, one that carries the token of the session as a bearer token. A
/// header that the actor gives stands.
pub open spec fn session_headers(plan: SessionPlanView, token: Option<Seq<char>>) -> Seq<
    (Seq<char>, Seq<char>),
> {
    if plan.bearer && token is Some && !has_header(plan.headers, "authorization"@) {
        plan.headers.push(("authorization"@, "Bearer "@ + token->0))
    } else {
        plan.headers
    }
}

/// The session that a plan and the token of its sign-in give.
pub fn open_session(plan: &SessionPlan, token: &Option<String>) -> (session: ActorSession)
    ensures
        session.name@ == plan@.actor,
        header_pairs(session.headers@) == session_headers(plan@, text_view(*token)),
{
    let mut headers = copy_headers(&plan.headers);
    if plan.bearer {
        if let Some(t) = token {
            let mut found = false;
            let mut i: usize = 0;
            while i < headers.len()
                invariant
                    i <= headers.len(),
                    header_pairs(headers@) == plan@.headers,
                    found == exists|j: int|
                        0 <= j < i && same_ignoring_case(
                            (#[trigger] plan@.headers[j]).0,
                            "authorization"@,
                        ),
                decreases headers.len() - i,
            {
                if str_eq_ignore_case(headers[i].name.as_str(), "authorization") {
                    assert(same_ignoring_case(plan@.headers[i as int].0, "authorization"@));
                    found = true;
                }
                i += 1;
            }
            if !found {
                let ghost before = header_pairs(headers@);
                headers.push(
                    Header { name: owned("authorization"), value: concat2("Bearer ", t.as_str()) },
                );
                assert(header_pairs(headers@) =~= before.push(
                    ("authorization"@, "Bearer "@ + t@),
                ));
            }
        }
    }
    ActorSession { name: plan.actor.clone(), headers }
}

/// The plans of the sessions of a suite: the one of `root`, then one for
/// each configured actor in order. The first actor whose plan fails gives
/// its error instead.
pub open spec fn planned_sessions(
    user: Seq<char>,
    pass: Seq<char>,
    host: Seq<char>,
    namespace: Seq<char>,
    database: Seq<char>,
    specs: Seq<NamedActor>,
    env: Seq<EnvVar>,
) -> Result<Seq<SessionPlanView>, KitErrorView>
    decreases specs.len(),
{
    if specs.len() == 0 {
        Ok(seq![default_root_plan(user, pass, host, namespace, database)])
    } else {
        match planned_sessions(user, pass, host, namespace, database, specs.drop_last(), env) {
            Err(e) => Err(e),
            Ok(done) => match planned_session(
                specs.last().name@,
                specs.last().spec,
                user,
                pass,
                host,
                namespace,
                database,
                env,
            ) {
                Ok(p) => Ok(done.push(p)),
                Err(e) => Err(e),
            },
        }
    }
}

pub open spec fn plan_views(v: Seq<SessionPlan>) -> Seq<SessionPlanView> {
    Seq::new(v.len(), |i: int| v[i]@)
}

/// Plans the sessions of a suite.
pub fn build_actor_sessions(
    cfg: &DbCfg,
    host: &str,
    namespace: &str,
    database: &str,
    specs: &Vec<NamedActor>,
    env: &Vec<EnvVar>,
) -> (r: Result<Vec<SessionPlan>, KitError>)
    ensures
        match planned_sessions(
            cfg.spec_user(),
            cfg.spec_pass(),
            host@,
            namespace@,
            database@,
            specs@,
            env@,
        ) {
            Ok(plans) => r is Ok && plan_views(r->Ok_0@) == plans,
            Err(e) => r is Err && r->Err_0@ == e,
        },
{
    let mut out: Vec<SessionPlan> = Vec::new();
    out.push(plan_default_root_session(cfg, host, namespace, database));
    let mut i: usize = 0;
    let ghost user = cfg.spec_user();
    let ghost pass = cfg.spec_pass();
    proof {
        assert(specs@.take(0) =~= Seq::<NamedActor>::empty());
        assert(plan_views(out@) =~= seq![
            default_root_plan(user, pass, host@, namespace@, database@),
        ]);
    }
    while i < specs.len()
        invariant
            i <= specs.len(),
            user == cfg.spec_user(),
            pass == cfg.spec_pass(),
            planned_sessions(user, pass, host@, namespace@, database@, specs@.take(i as int), env@)
                == Ok::<Seq<SessionPlanView>, KitErrorView>(plan_views(out@)),
        decreases specs.len() - i,
    {
        let ghost next = specs@.take(i + 1);
        proof {
            assert(next.drop_last() =~= specs@.take(i as int));
            assert(next.last() == specs@[i as int]);
            lemma_sessions_prefix_error(
                user,
                pass,
                host@,
                namespace@,
                database@,
                specs@,
                env@,
                i + 1,
            );
        }
        let ghost before = plan_views(out@);
        match plan_session(
            specs[i].name.as_str(),
            &specs[i].spec,
            cfg,
            host,
            namespace,
            database,
            env,
        ) {
            Ok(plan) => {
                out.push(plan);
                assert(plan_views(out@) =~= before.push(plan@));
            },
            Err(e) => {
                return Err(e);
            },
        }
        i += 1;
    }
    assert(specs@.take(specs.len() as int) =~= specs@);
    Ok(out)
}

/// An error among the first `i` actors is the error of the whole list.
pub proof fn lemma_sessions_prefix_error(
    user: Seq<char>,
    pass: Seq<char>,
    host: Seq<char>,
    namespace: Seq<char>,
    database: Seq<char>,
    specs: Seq<NamedActor>,
    env: Seq<EnvVar>,
    i: int,
)
    requires
        0 <= i <= specs.len(),
    ensures
        planned_sessions(user, pass, host, namespace, database, specs.take(i), env) is Err
            ==> planned_sessions(user, pass, host, namespace, database, specs, env)
            == planned_sessions(user, pass, host, namespace, database, specs.take(i), env),
    decreases specs.len() - i,
{
    if i < specs.len() {
        lemma_sessions_prefix_error(user, pass, host, namespace, database, specs, env, i + 1);
        assert(specs.take(i + 1).drop_last() =~= specs.take(i));
    } else {
        assert(specs.take(i) =~= specs);
    }
}

/// Whether an actor named `name` is among `actors`.
pub open spec fn names_actor(actors: Seq<NamedActor>, name: Seq<char>) -> bool {
    exists|i: int| 0 <= i < actors.len() && (#[trigger] actors[i]).name@ == name
}

/// Whether the names of a list of actors ascend: each comes strictly
/// before the next, so that no name is there twice.
pub open spec fn ascending_names(actors: Seq<NamedActor>) -> bool {
    forall|i: int, j: int|
        0 <= i < j < actors.len() ==> lex_lt(
            (#[trigger] actors[i]).name@,
            (#[trigger] actors[j]).name@,
        )
}

/// A list of actors in the order of their names with one more actor put
/// in: in its place among the others, or in the place of the one that had
/// its name.
pub open spec fn put_actor(list: Seq<NamedActor>, e: NamedActor) -> Seq<NamedActor>
    decreases list.len(),
{
    if list.len() == 0 {
        seq![e]
    } else if lex_lt(list.last().name@, e.name@) {
        list.push(e)
    } else if list.last().name@ == e.name@ {
        list.drop_last().push(e)
    } else {
        put_actor(list.drop_last(), e).push(list.last())
    }
}

/// A list of actors with the actors of `entries` put in, one after the other.
pub open spec fn put_actors(list: Seq<NamedActor>, entries: Seq<NamedActor>) -> Seq<NamedActor>
    decreases entries.len(),
{
    if entries.len() == 0 {
        list
    } else {
        put_actor(put_actors(list, entries.drop_last()), entries.last())
    }
}

/// The actors of a suite: those of the global configuration and those of
/// the suite, in the order of their names, each name once. Where a name is
/// defined more than once, the definition that comes last stands, so that
/// the suite's stands over the global one.
pub open spec fn merged_actors(global: Seq<NamedActor>, suite: Seq<NamedActor>) -> Seq<
    NamedActor,
> {
    put_actors(put_actors(Seq::empty(), global), suite)
}

/// Whether two lists of actors say the same, actor by actor.
pub open spec fn same_actors(a: Seq<NamedActor>, b: Seq<NamedActor>) -> bool {
    &&& a.len() == b.len()
    &&& forall|i: int|
        0 <= i < a.len() ==> (#[trigger] a[i]).name@ == b[i].name@ && actor_spec_same(
            a[i].spec,
            b[i].spec,
        )
}

/// Putting an actor into a list whose names ascend leaves them ascending.
pub proof fn lemma_put_keeps_ascending(list: Seq<NamedActor>, e: NamedActor)
    requires
        ascending_names(list),
    ensures
        ascending_names(put_actor(list, e)),
        forall|k: int|
            0 <= k < put_actor(list, e).len() ==> (#[trigger] put_actor(list, e)[k]).name@
                == e.name@ || names_actor(list, put_actor(list, e)[k].name@),
    decreases list.len(),
{
    let out = put_actor(list, e);
    if list.len() == 0 {
    } else if lex_lt(list.last().name@, e.name@) {
        assert forall|i: int, j: int| 0 <= i < j < out.len() implies lex_lt(
            (#[trigger] out[i]).name@,
            (#[trigger] out[j]).name@,
        ) by {
            if j == out.len() - 1 {
                if i < list.len() - 1 {
                    assert(lex_lt(list[i].name@, list[list.len() - 1].name@));
                    lemma_lex_transitive(list[i].name@, list.last().name@, e.name@);
                }
            } else {
                assert(lex_lt(list[i].name@, list[j].name@));
            }
        }
        assert forall|k: int| 0 <= k < out.len() implies (#[trigger] out[k]).name@ == e.name@
            || names_actor(list, out[k].name@) by {
            if k < list.len() {
                assert(list[k].name@ == out[k].name@);
            }
        }
    } else if list.last().name@ == e.name@ {
        assert forall|i: int, j: int| 0 <= i < j < out.len() implies lex_lt(
            (#[trigger] out[i]).name@,
            (#[trigger] out[j]).name@,
        ) by {
            if j == out.len() - 1 {
                assert(lex_lt(list[i].name@, list[list.len() - 1].name@));
            } else {
                assert(lex_lt(list[i].name@, list[j].name@));
            }
        }
        assert forall|k: int| 0 <= k < out.len() implies (#[trigger] out[k]).name@ == e.name@
            || names_actor(list, out[k].name@) by {
            if k < list.len() - 1 {
                assert(list[k].name@ == out[k].name@);
            }
        }
    } else {
        let front = list.drop_last();
        let last = list.last();
        assert(ascending_names(front)) by {
            assert forall|i: int, j: int| 0 <= i < j < front.len() implies lex_lt(
                (#[trigger] front[i]).name@,
                (#[trigger] front[j]).name@,
            ) by {
                assert(lex_lt(list[i].name@, list[j].name@));
            }
        }
        lemma_put_keeps_ascending(front, e);
        let inner = put_actor(front, e);
        lemma_lex_total(last.name@, e.name@);
        assert(lex_lt(e.name@, last.name@));
        assert forall|i: int, j: int| 0 <= i < j < out.len() implies lex_lt(
            (#[trigger] out[i]).name@,
            (#[trigger] out[j]).name@,
        ) by {
            if j == out.len() - 1 {
                assert(out[i] == inner[i]);
                if inner[i].name@ != e.name@ {
                    let w = choose|w: int|
                        0 <= w < front.len() && (#[trigger] front[w]).name@ == inner[i].name@;
                    assert(lex_lt(list[w].name@, list[list.len() - 1].name@));
                }
            } else {
                assert(out[i] == inner[i] && out[j] == inner[j]);
            }
        }
        assert forall|k: int| 0 <= k < out.len() implies (#[trigger] out[k]).name@ == e.name@
            || names_actor(list, out[k].name@) by {
            if k < inner.len() {
                assert(out[k] == inner[k]);
                if inner[k].name@ != e.name@ {
                    let w = choose|w: int|
                        0 <= w < front.len() && (#[trigger] front[w]).name@ == inner[k].name@;
                    assert(list[w].name@ == out[k].name@);
                }
            } else {
                assert(list[list.len() - 1].name@ == out[k].name@);
            }
        }
    }
}

/// The names of a list into which actors were put ascend, where they did before.
pub proof fn lemma_put_all_keep_ascending(list: Seq<NamedActor>, entries: Seq<NamedActor>)
    requires
        ascending_names(list),
    ensures
        ascending_names(put_actors(list, entries)),
    decreases entries.len(),
{
    if entries.len() > 0 {
        lemma_put_all_keep_ascending(list, entries.drop_last());
        lemma_put_keeps_ascending(put_actors(list, entries.drop_last()), entries.last());
    }
}

/// The actors of a suite come in the order of their names, each name once.
pub proof fn lemma_merged_ascending(global: Seq<NamedActor>, suite: Seq<NamedActor>)
    ensures
        ascending_names(merged_actors(global, suite)),
{
    lemma_put_all_keep_ascending(Seq::empty(), global);
    lemma_put_all_keep_ascending(put_actors(Seq::empty(), global), suite);
}

/// An actor that was put into a list is found under its name; every other
/// name is found as before.
pub proof fn lemma_put_lookup(list: Seq<NamedActor>, e: NamedActor, name: Seq<char>)
    ensures
        actor_named(put_actor(list, e), name) == if name == e.name@ {
            Some(e.spec)
        } else {
            actor_named(list, name)
        },
    decreases list.len(),
{
    reveal_with_fuel(actor_named, 3);
    if list.len() == 0 {
        assert(seq![e].drop_last() =~= Seq::<NamedActor>::empty());
    } else if lex_lt(list.last().name@, e.name@) {
        assert(list.push(e).drop_last() =~= list);
    } else if list.last().name@ == e.name@ {
        assert(list.drop_last().push(e).drop_last() =~= list.drop_last());
    } else {
        lemma_put_lookup(list.drop_last(), e, name);
        let inner = put_actor(list.drop_last(), e);
        assert(inner.push(list.last()).drop_last() =~= inner);
    }
}

/// Under every name, the actors of a suite hold the definition that comes
/// last among those of the global configuration and then of the suite.
pub proof fn lemma_merged_lookup(global: Seq<NamedActor>, suite: Seq<NamedActor>, name: Seq<char>)
    ensures
        actor_named(merged_actors(global, suite), name) == actor_named(global + suite, name),
{
    lemma_put_all_lookup(Seq::empty(), global, name);
    lemma_put_all_lookup(put_actors(Seq::empty(), global), suite, name);
    lemma_lookup_concat(global, suite, name);
    assert(Seq::<NamedActor>::empty() + global =~= global);
}

/// What is found under a name in two lists, one after the other: what the
/// second holds, else what the first holds.
pub proof fn lemma_lookup_concat(a: Seq<NamedActor>, b: Seq<NamedActor>, name: Seq<char>)
    ensures
        actor_named(a + b, name) == match actor_named(b, name) {
            Some(spec) => Some(spec),
            None => actor_named(a, name),
        },
    decreases b.len(),
{
    if b.len() == 0 {
        assert(a + b =~= a);
    } else {
        assert((a + b).drop_last() =~= a + b.drop_last());
        assert((a + b).last() == b.last());
        lemma_lookup_concat(a, b.drop_last(), name);
    }
}

/// What is found under a name after actors were put into a list: what the
/// last of them with that name holds, else what the list held.
pub proof fn lemma_put_all_lookup(list: Seq<NamedActor>, entries: Seq<NamedActor>, name: Seq<char>)
    ensures
        actor_named(put_actors(list, entries), name) == match actor_named(entries, name) {
            Some(spec) => Some(spec),
            None => actor_named(list, name),
        },
    decreases entries.len(),
{
    if entries.len() > 0 {
        lemma_put_all_lookup(list, entries.drop_last(), name);
        lemma_put_lookup(put_actors(list, entries.drop_last()), entries.last(), name);
    }
}

/// Putting actors that say the same into lists that say the same gives
/// lists that say the same.
pub proof fn lemma_put_same(a: Seq<NamedActor>, b: Seq<NamedActor>, x: NamedActor, y: NamedActor)
    requires
        same_actors(a, b),
        x.name@ == y.name@,
        actor_spec_same(x.spec, y.spec),
    ensures
        same_actors(put_actor(a, x), put_actor(b, y)),
    decreases a.len(),
{
    if a.len() > 0 {
        assert(a[a.len() - 1].name@ == b[b.len() - 1].name@);
        let fa = a.drop_last();
        let fb = b.drop_last();
        assert(same_actors(fa, fb)) by {
            assert forall|i: int| 0 <= i < fa.len() implies (#[trigger] fa[i]).name@ == fb[i].name@
                && actor_spec_same(fa[i].spec, fb[i].spec) by {
                assert(a[i].name@ == b[i].name@);
            }
        }
        let pa = put_actor(a, x);
        let pb = put_actor(b, y);
        if lex_lt(a.last().name@, x.name@) {
            assert forall|i: int| 0 <= i < pa.len() implies (#[trigger] pa[i]).name@ == pb[i].name@
                && actor_spec_same(pa[i].spec, pb[i].spec) by {
                if i < a.len() {
                    assert(a[i].name@ == b[i].name@);
                }
            }
        } else if a.last().name@ == x.name@ {
            assert forall|i: int| 0 <= i < pa.len() implies (#[trigger] pa[i]).name@ == pb[i].name@
                && actor_spec_same(pa[i].spec, pb[i].spec) by {
                if i < a.len() - 1 {
                    assert(a[i].name@ == b[i].name@);
                }
            }
        } else {
            lemma_put_same(fa, fb, x, y);
            let ia = put_actor(fa, x);
            let ib = put_actor(fb, y);
            assert forall|i: int| 0 <= i < pa.len() implies (#[trigger] pa[i]).name@ == pb[i].name@
                && actor_spec_same(pa[i].spec, pb[i].spec) by {
                if i < ia.len() {
                    assert(ia[i].name@ == ib[i].name@);
                }
            }
        }
    }
}

fn put(list: &mut Vec<NamedActor>, e: NamedActor)
    ensures
        final(list)@ == put_actor(old(list)@, e),
    decreases old(list)@.len(),
{
    if list.len() == 0 {
        list.push(e);
        assert(list@ =~= seq![e]);
        return ;
    }
    let ghost before = list@;
    let last = list.pop().unwrap();
    assert(list@ =~= before.drop_last());
    assert(last == before.last());
    if str_lt(last.name.as_str(), e.name.as_str()) {
        list.push(last);
        list.push(e);
        assert(list@ =~= before.push(e));
    } else if str_eq(last.name.as_str(), e.name.as_str()) {
        list.push(e);
    } else {
        put(list, e);
        list.push(last);
    }
}

/// Merges the actors of the global configuration and of a suite: where
/// both define a name, the suite's definition stands.
pub fn merged_actor_specs(global: &Vec<NamedActor>, suite: &Vec<NamedActor>) -> (merged: Vec<
    NamedActor,
>)
    ensures
        same_actors(merged@, merged_actors(global@, suite@)),
        ascending_names(merged@),
{
    let mut merged: Vec<NamedActor> = Vec::new();
    let mut i: usize = 0;
    proof {
        assert(global@.take(0) =~= Seq::<NamedActor>::empty());
    }
    while i < global.len()
        invariant
            i <= global.len(),
            same_actors(merged@, put_actors(Seq::empty(), global@.take(i as int))),
        decreases global.len() - i,
    {
        let copy = NamedActor { name: global[i].name.clone(), spec: copy_actor(&global[i].spec) };
        proof {
            let next = global@.take(i + 1);
            assert(next.drop_last() =~= global@.take(i as int));
            assert(next.last() == global@[i as int]);
            lemma_put_same(
                merged@,
                put_actors(Seq::empty(), global@.take(i as int)),
                copy,
                global@[i as int],
            );
        }
        put(&mut merged, copy);
        i += 1;
    }
    assert(global@.take(global.len() as int) =~= global@);
    let ghost base = put_actors(Seq::empty(), global@);
    let mut k: usize = 0;
    proof {
        assert(suite@.take(0) =~= Seq::<NamedActor>::empty());
    }
    while k < suite.len()
        invariant
            k <= suite.len(),
            base == put_actors(Seq::empty(), global@),
            same_actors(merged@, put_actors(base, suite@.take(k as int))),
        decreases suite.len() - k,
    {
        let copy = NamedActor { name: suite[k].name.clone(), spec: copy_actor(&suite[k].spec) };
        proof {
            let next = suite@.take(k + 1);
            assert(next.drop_last() =~= suite@.take(k as int));
            assert(next.last() == suite@[k as int]);
            lemma_put_same(merged@, put_actors(base, suite@.take(k as int)), copy, suite@[k as int]);
        }
        put(&mut merged, copy);
        k += 1;
    }
    proof {
        assert(suite@.take(suite.len() as int) =~= suite@);
        lemma_merged_ascending(global@, suite@);
        let want = merged_actors(global@, suite@);
        assert forall|a: int, b: int| 0 <= a < b < merged@.len() implies lex_lt(
            (#[trigger] merged@[a]).name@,
            (#[trigger] merged@[b]).name@,
        ) by {
            assert(merged@[a].name@ == want[a].name@);
            assert(merged@[b].name@ == want[b].name@);
            assert(lex_lt(want[a].name@, want[b].name@));
        }
    }
    merged
}

/// Lists of actors that say the same have the same plans.
pub proof fn lemma_same_plans(
    user: Seq<char>,
    pass: Seq<char>,
    host: Seq<char>,
    namespace: Seq<char>,
    database: Seq<char>,
    a: Seq<NamedActor>,
    b: Seq<NamedActor>,
    env: Seq<EnvVar>,
)
    requires
        same_actors(a, b),
    ensures
        planned_sessions(user, pass, host, namespace, database, a, env) == planned_sessions(
            user,
            pass,
            host,
            namespace,
            database,
            b,
            env,
        ),
    decreases a.len(),
{
    if a.len() > 0 {
        assert(same_actors(a.drop_last(), b.drop_last())) by {
            assert forall|i: int| 0 <= i < a.drop_last().len() implies (
            #[trigger] a.drop_last()[i]).name@ == b.drop_last()[i].name@ && actor_spec_same(
                a.drop_last()[i].spec,
                b.drop_last()[i].spec,
            ) by {
                assert(a[i].name@ == b[i].name@);
            }
        }
        lemma_same_plans(
            user,
            pass,
            host,
            namespace,
            database,
            a.drop_last(),
            b.drop_last(),
            env,
        );
        assert(a[a.len() - 1].name@ == b[b.len() - 1].name@);
    }
}

/// Whether two actor specs say the same.
pub open spec fn actor_spec_same(a: ActorSpec, b: ActorSpec) -> bool {
    &&& a.kind == b.kind
    &&& a.username == b.username
    &&& a.username_env == b.username_env
    &&& a.password == b.password
    &&& a.password_env == b.password_env
    &&& a.namespace == b.namespace
    &&& a.namespace_env == b.namespace_env
    &&& a.database == b.database
    &&& a.database_env == b.database_env
    &&& a.access == b.access
    &&& a.access_env == b.access_env
    &&& crate::tester::types::json_opt_view(a.params) == crate::tester::types::json_opt_view(
        b.params,
    )
    &&& a.token == b.token
    &&& a.token_env == b.token_env
    &&& header_pairs(a.headers@) == header_pairs(b.headers@)
}

fn copy_text(o: &Option<String>) -> (out: Option<String>)
    ensures
        out == *o,
{
    match o {
        Some(s) => Some(s.clone()),
        None => None,
    }
}

/// A copy of an actor spec.
pub fn copy_actor(a: &ActorSpec) -> (out: ActorSpec)
    ensures
        actor_spec_same(out, *a),
{
    ActorSpec {
        kind: a.kind,
        username: copy_text(&a.username),
        username_env: copy_text(&a.username_env),
        password: copy_text(&a.password),
        password_env: copy_text(&a.password_env),
        namespace: copy_text(&a.namespace),
        namespace_env: copy_text(&a.namespace_env),
        database: copy_text(&a.database),
        database_env: copy_text(&a.database_env),
        access: copy_text(&a.access),
        access_env: copy_text(&a.access_env),
        params: match &a.params {
            Some(p) => Some(p.clone()),
            None => None,
        },
        token: copy_text(&a.token),
        token_env: copy_text(&a.token_env),
        headers: copy_headers(&a.headers),
    }
}

} // verus!
