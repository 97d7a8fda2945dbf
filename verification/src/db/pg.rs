//! How the archive's database is reached.
use vstd::prelude::*;
use vstd::string::*;

use crate::text::{cat, opt_text, parse_u16, text_or, text_or_default, u16_of};

verus! {

/// The connection pool could not be built.
#[derive(Debug)]
pub enum PgPoolError {
    Build(String),
}

impl PgPoolError {
    /// What is logged.
    pub fn message(&self) -> (r: String)
        ensures
            r@ == "failed to build pg pool: "@ + self->Build_0@,
    {
        match self {
            PgPoolError::Build(e) => cat("failed to build pg pool: ", e.as_str()),
        }
    }
}

/// Where the database is and how to log in.
#[derive(Debug)]
pub struct PgSettings {
    pub host: String,
    pub port: u16,
    pub user: String,
    pub password: String,
    pub dbname: String,
}

/// The port that is used where none is configured.
pub const DEFAULT_PORT: u16 = 5432;

/// The settings that the environment's variables give; each one that is not
/// set, and a port that is no port number, falls back to its default.
pub fn pg_settings(
    host: Option<String>,
    port: Option<String>,
    user: Option<String>,
    password: Option<String>,
    dbname: Option<String>,
) -> (r: PgSettings)
    ensures
        r.host@ == text_or(
            opt_text(host),
            "tekton-results-postgres-service.tekton-pipelines.svc.cluster.local"@,
        ),
        r.port == (match port {
            Some(p) => match u16_of(p@) {
                Some(n) => n,
                None => DEFAULT_PORT,
            },
            None => DEFAULT_PORT,
        }),
        r.user@ == text_or(opt_text(user), "tekton"@),
        r.password@ == text_or(opt_text(password), Seq::empty()),
        r.dbname@ == text_or(opt_text(dbname), "tekton-results"@),
{
    let number: u16 = match port {
        Some(p) => match parse_u16(p.as_str()) {
            Some(n) => n,
            None => DEFAULT_PORT,
        },
        None => DEFAULT_PORT,
    };
    let secret = match password {
        Some(p) => p,
        None => String::new(),
    };
    PgSettings {
        host: text_or_default(host, "tekton-results-postgres-service.tekton-pipelines.svc.cluster.local"),
        port: number,
        user: text_or_default(user, "tekton"),
        password: secret,
        dbname: text_or_default(dbname, "tekton-results"),
    }
}

} // verus!
