//! Where the database is and who connects to it.

use vstd::prelude::*;
use vstd::string::*;

use crate::text::{owned, str_eq};

verus! {

/// One variable of the environment, as it was read.
#[derive(Debug, Clone)]
pub struct EnvVar {
    pub name: String,
    pub value: String,
}

/// The value of the first variable named `key`.
pub open spec fn env_value(env: Seq<EnvVar>, key: Seq<char>) -> Option<Seq<char>>
    decreases env.len(),
{
    if env.len() == 0 {
        None
    } else if env[0].name@ == key {
        Some(env[0].value@)
    } else {
        env_value(env.drop_first(), key)
    }
}

/// Looks a variable up by its exact name.
pub fn env_lookup<'a>(env: &'a Vec<EnvVar>, key: &str) -> (r: Option<&'a String>)
    ensures
        match r {
            Some(v) => env_value(env@, key@) == Some(v@),
            None => env_value(env@, key@) is None,
        },
{
    let mut i: usize = 0;
    proof {
        assert(env@.skip(0) =~= env@);
    }
    while i < env.len()
        invariant
            i <= env.len(),
            env_value(env@, key@) == env_value(env@.skip(i as int), key@),
        decreases env.len() - i,
    {
        let ghost rest = env@.skip(i as int);
        assert(rest[0] == env@[i as int]);
        assert(rest.drop_first() =~= env@.skip(i + 1));
        if str_eq(env[i].name.as_str(), key) {
            return Some(&env[i].value);
        }
        i += 1;
    }
    None
}

/// The connection settings: address, namespace, database and the operator's
/// credentials.
#[derive(Debug, Clone)]
pub struct DbCfg {
    host: String,
    ns: String,
    db: String,
    user: String,
    pass: String,
}

pub open spec fn value_or(found: Option<Seq<char>>, default: Seq<char>) -> Seq<char> {
    match found {
        Some(v) => v,
        None => default,
    }
}

fn setting(env: &Vec<EnvVar>, key: &str, default: &str) -> (out: String)
    ensures
        out@ == value_or(env_value(env@, key@), default@),
{
    match env_lookup(env, key) {
        Some(v) => v.clone(),
        None => owned(default),
    }
}

impl DbCfg {
    pub closed spec fn spec_host(&self) -> Seq<char> {
        self.host@
    }

    pub closed spec fn spec_ns(&self) -> Seq<char> {
        self.ns@
    }

    pub closed spec fn spec_db(&self) -> Seq<char> {
        self.db@
    }

    pub closed spec fn spec_user(&self) -> Seq<char> {
        self.user@
    }

    pub closed spec fn spec_pass(&self) -> Seq<char> {
        self.pass@
    }

    pub fn new(host: String, ns: String, db: String, user: String, pass: String) -> (cfg: DbCfg)
        ensures
            cfg.spec_host() == host@,
            cfg.spec_ns() == ns@,
            cfg.spec_db() == db@,
            cfg.spec_user() == user@,
            cfg.spec_pass() == pass@,
    {
        DbCfg { host, ns, db, user, pass }
    }

    /// The settings that the variables give; each one that is not set has
    /// its default.
    pub fn from_env(env: &Vec<EnvVar>) -> (cfg: DbCfg)
        ensures
            cfg.spec_host() == value_or(
                env_value(env@, "PUBLIC_DATABASE_HOST"@),
                "http://localhost:8000"@,
            ),
            cfg.spec_db() == value_or(env_value(env@, "PUBLIC_DATABASE_NAME"@), "test"@),
            cfg.spec_ns() == value_or(env_value(env@, "PUBLIC_DATABASE_NAMESPACE"@), "db"@),
            cfg.spec_user() == value_or(env_value(env@, "DATABASE_USER"@), "root"@),
            cfg.spec_pass() == value_or(env_value(env@, "DATABASE_PASSWORD"@), "root"@),
    {
        let host = setting(env, "PUBLIC_DATABASE_HOST", "http://localhost:8000");
        let db = setting(env, "PUBLIC_DATABASE_NAME", "test");
        let ns = setting(env, "PUBLIC_DATABASE_NAMESPACE", "db");
        let user = setting(env, "DATABASE_USER", "root");
        let pass = setting(env, "DATABASE_PASSWORD", "root");
        DbCfg { host, ns, db, user, pass }
    }

    pub fn host(&self) -> (s: &str)
        ensures
            s@ == self.spec_host(),
    {
        self.host.as_str()
    }

    pub fn ns(&self) -> (s: &str)
        ensures
            s@ == self.spec_ns(),
    {
        self.ns.as_str()
    }

    pub fn db(&self) -> (s: &str)
        ensures
            s@ == self.spec_db(),
    {
        self.db.as_str()
    }

    pub fn user(&self) -> (s: &str)
        ensures
            s@ == self.spec_user(),
    {
        self.user.as_str()
    }

    pub fn pass(&self) -> (s: &str)
        ensures
            s@ == self.spec_pass(),
    {
        self.pass.as_str()
    }
}

} // verus!
