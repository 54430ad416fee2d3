use vstd::prelude::*;

use crate::config::{opt_view, Config};
use crate::models::CountRow;

verus! {

/// How the server signs in to the database.
pub enum SurrealAuth {
    /// With a token.
    Token(String),
    /// As the root user.
    Root { username: String, password: String },
}

/// The database credentials: a token when one is configured, else root
/// credentials when both parts are configured; anything else is an error.
pub fn surreal_auth(config: &Config) -> (r: Result<SurrealAuth, String>)
    ensures
        match (opt_view(config.surreal_token), opt_view(config.surreal_username), opt_view(config.surreal_password)) {
            (Some(t), _, _) => r matches Ok(SurrealAuth::Token(s)) && s@ == t,
            (None, Some(u), Some(p)) => r matches Ok(SurrealAuth::Root { username, password })
                && username@ == u && password@ == p,
            _ => r matches Err(m) && m@
                == "SurrealDB auth is required: set SURREALDB_TOKEN or SURREALDB_USERNAME/SURREALDB_PASSWORD"@,
        },
{
    match &config.surreal_token {
        Some(token) => Ok(SurrealAuth::Token(token.clone())),
        None => match (&config.surreal_username, &config.surreal_password) {
            (Some(username), Some(password)) => Ok(
                SurrealAuth::Root { username: username.clone(), password: password.clone() },
            ),
            _ => Err(
                "SurrealDB auth is required: set SURREALDB_TOKEN or SURREALDB_USERNAME/SURREALDB_PASSWORD".to_string(),
            ),
        },
    }
}

/// What bootstrapping does about the admin user.
pub enum AdminBootstrap {
    /// Users exist already; nothing to do.
    AlreadyPresent,
    /// No password is configured, so no user can be made.
    NoPassword,
    /// Create the admin user with this password.
    Create(String),
}

/// The number of users a count query reports: its first row, or zero.
pub open spec fn user_count(rows: Seq<CountRow>) -> int {
    if rows.len() > 0 {
        rows[0].count as int
    } else {
        0
    }
}

/// The admin user is created only when there is no user yet and a password
/// is configured.
pub fn admin_bootstrap(counts: &Vec<CountRow>, password: &Option<String>) -> (r: AdminBootstrap)
    ensures
        user_count(counts@) > 0 ==> r is AlreadyPresent,
        user_count(counts@) <= 0 && password is None ==> r is NoPassword,
        user_count(counts@) <= 0 ==> match opt_view(*password) {
            Some(p) => r matches AdminBootstrap::Create(q) && q@ == p,
            None => r is NoPassword,
        },
{
    let count: i64 = if counts.len() > 0 {
        counts[0].count
    } else {
        0
    };
    if count > 0 {
        return AdminBootstrap::AlreadyPresent;
    }
    match password {
        Some(p) => AdminBootstrap::Create(p.clone()),
        None => AdminBootstrap::NoPassword,
    }
}

} // verus!
