//! Session storage logic: its errors, the cleanup outcome, and where the database lives.
//!
//! The database itself is reached from the application; this module decides what the
//! store is told and what its answers mean.

use vstd::prelude::*;
use vstd::string::*;

use crate::chars::concat;
use crate::mcp::{join_path, opt_view};
use crate::message::{role_from_name, Role};
use crate::session::{uuid_string, uuid_text};
use crate::text::{truncate, truncate_spec};

verus! {

/// Errors from the session store.
#[derive(Debug, Clone, PartialEq)]
pub enum StorageError {
    /// The database failed.
    Database(String),
    /// No session has this id.
    NotFound(u128),
    /// A schema migration failed.
    Migration(String),
    /// Stored data could not be read.
    InvalidData(String),
}

/// The text shown for a storage error.
pub open spec fn storage_error_text(e: StorageError) -> Seq<char> {
    match e {
        StorageError::Database(m) => "database error: "@ + m@,
        StorageError::NotFound(id) => "session not found: "@ + uuid_text(id),
        StorageError::Migration(m) => "migration error: "@ + m@,
        StorageError::InvalidData(m) => "invalid data: "@ + m@,
    }
}

impl StorageError {
    /// The human-readable description of this error.
    pub fn to_string(&self) -> (r: String)
        ensures
            r@ == storage_error_text(*self),
    {
        match self {
            StorageError::Database(m) => concat("database error: ", m.as_str()),
            StorageError::NotFound(id) => {
                let t = uuid_string(*id);
                concat("session not found: ", t.as_str())
            },
            StorageError::Migration(m) => concat("migration error: ", m.as_str()),
            StorageError::InvalidData(m) => concat("invalid data: ", m.as_str()),
        }
    }
}

/// What a cleanup removed.
#[derive(Debug, Clone, Copy, PartialEq, Eq, Structural)]
pub struct CleanupResult {
    /// Sessions removed in all.
    pub sessions_deleted: u32,
    /// Sessions removed to stay within the session limit.
    pub by_max_limit: u32,
    /// Sessions removed for being older than the retention period.
    pub by_retention: u32,
}

impl Default for CleanupResult {
    fn default() -> (r: Self)
        ensures
            r.sessions_deleted == 0,
            r.by_max_limit == 0,
            r.by_retention == 0,
    {
        CleanupResult { sessions_deleted: 0, by_max_limit: 0, by_retention: 0 }
    }
}

/// How many of the oldest sessions go after the retention pass, when the store holds
/// `session_count` and the limit is `max_sessions`: the excess over the limit, if any.
/// A limit of 0 means no limit.
pub fn cleanup_excess(session_count: i32, max_sessions: u32) -> (r: Option<i32>)
    ensures
        max_sessions == 0 ==> r is None,
        max_sessions > 0 && session_count > max_sessions ==> r == Some(
            (session_count - max_sessions) as i32,
        ),
        session_count <= max_sessions ==> r is None,
        r matches Some(x) ==> x > 0,
{
    if max_sessions == 0 {
        return None;
    }
    let limit: i64 = max_sessions as i64;
    if (session_count as i64) > limit {
        let excess: i64 = session_count as i64 - limit;
        Some(excess as i32)
    } else {
        None
    }
}

/// Microseconds in a day.
pub const MICROS_PER_DAY: i64 = 86_400_000_000;

/// The time before which sessions are past the retention period, `retention_days` days
/// before `now` (both in microseconds); `None` when the period is 0, which keeps
/// sessions forever.
pub fn retention_cutoff(now: i64, retention_days: u32) -> (r: Option<i64>)
    requires
        now - retention_days * MICROS_PER_DAY >= i64::MIN,
    ensures
        retention_days == 0 ==> r is None,
        retention_days > 0 ==> r == Some((now - retention_days * MICROS_PER_DAY) as i64),
{
    if retention_days == 0 {
        None
    } else {
        let span: i128 = retention_days as i128 * MICROS_PER_DAY as i128;
        Some((now as i128 - span) as i64)
    }
}

/// The outcome of a cleanup from what each pass removed.
pub fn cleanup_result(by_retention: u32, by_max_limit: u32) -> (r: CleanupResult)
    requires
        by_retention + by_max_limit <= u32::MAX,
    ensures
        r.by_retention == by_retention,
        r.by_max_limit == by_max_limit,
        r.sessions_deleted == by_retention + by_max_limit,
{
    CleanupResult { sessions_deleted: by_retention + by_max_limit, by_max_limit, by_retention }
}

/// The default database, relative to the home directory.
pub const DEFAULT_DATABASE: &'static str = ".config/synapse";

/// Where the session database is: `DATABASE_URL` when set, else the configured URL, else
/// `sqlite:` and `~/.config/synapse/sessions.db`; an error without a home directory.
pub open spec fn database_url_spec(
    env_url: Option<Seq<char>>,
    config_url: Option<Seq<char>>,
    home: Option<Seq<char>>,
) -> Result<Seq<char>, Seq<char>> {
    if env_url is Some {
        Ok(env_url->0)
    } else if config_url is Some {
        Ok(config_url->0)
    } else {
        match home {
            Some(h) => Ok("sqlite:"@ + join_path(join_path(h, DEFAULT_DATABASE@), "sessions.db"@)),
            None => Err("could not determine home directory"@),
        }
    }
}

fn join_exec(dir: String, rel: &str) -> (r: String)
    ensures
        r@ == join_path(dir@, rel@),
{
    let v = crate::chars::to_chars(dir.as_str());
    if v.len() == 0 {
        return String::from_str(rel);
    }
    let mut out = dir;
    if v[v.len() - 1] != '/' {
        out.append("/");
    }
    out.append(rel);
    proof {
        assert(v@.last() == v@[v@.len() - 1]);
    }
    out
}

/// Resolve the database URL from the `DATABASE_URL` value, the configured URL and the home
/// directory.
pub fn database_url(env_url: Option<String>, config_url: Option<String>, home: Option<String>) -> (r: Result<
    String,
    StorageError,
>)
    ensures
        match database_url_spec(opt_view(env_url), opt_view(config_url), opt_view(home)) {
            Ok(u) => r matches Ok(s) && s@ == u,
            Err(m) => r matches Err(StorageError::Database(t)) && t@ == m,
        },
{
    match env_url {
        Some(u) => {
            return Ok(u);
        },
        None => {},
    }
    match config_url {
        Some(u) => {
            return Ok(u);
        },
        None => {},
    }
    match home {
        Some(h) => {
            let dir = join_exec(h, DEFAULT_DATABASE);
            let file = join_exec(dir, "sessions.db");
            Ok(concat("sqlite:", file.as_str()))
        },
        None => Err(StorageError::Database(String::from_str("could not determine home directory"))),
    }
}

/// The file of a database URL: the URL without its `sqlite:` scheme.
pub open spec fn sqlite_file_spec(url: Seq<char>) -> Seq<char> {
    if url.len() >= 7 && url.take(7) == "sqlite:"@ {
        url.skip(7)
    } else {
        url
    }
}

/// The file of a database URL.
pub fn sqlite_file(url: &str) -> (r: String)
    ensures
        r@ == sqlite_file_spec(url@),
{
    let v = crate::chars::to_chars(url);
    proof {
        reveal_strlit("sqlite:");
    }
    if v.len() >= 7 && v[0] == 's' && v[1] == 'q' && v[2] == 'l' && v[3] == 'i' && v[4] == 't'
        && v[5] == 'e' && v[6] == ':' {
        assert(v@.take(7) =~= "sqlite:"@);
        let rest = crate::telegram::chunk::slice_range(v.as_slice(), 7, v.len());
        assert(rest@ =~= v@.skip(7));
        crate::chars::from_chars(rest.as_slice())
    } else {
        proof {
            if v@.len() >= 7 && v@.take(7) == "sqlite:"@ {
                assert(v@.take(7)[0] == v@[0] && v@.take(7)[1] == v@[1] && v@.take(7)[2] == v@[2]
                    && v@.take(7)[3] == v@[3] && v@.take(7)[4] == v@[4] && v@.take(7)[5] == v@[5]
                    && v@.take(7)[6] == v@[6]);
            }
        }
        String::from_str(url)
    }
}

/// Maximum characters of a listed session's preview.
pub const SESSION_PREVIEW_MAX_CHARS: usize = 50;

/// A listed session's preview: its first user message cut to 50 characters.
pub fn summary_preview(first_user_message: Option<String>) -> (r: Option<String>)
    ensures
        match first_user_message {
            Some(p) => r matches Some(t) && t@ == truncate_spec(p@, SESSION_PREVIEW_MAX_CHARS as nat),
            None => r is None,
        },
{
    match first_user_message {
        Some(p) => Some(truncate(p.as_str(), SESSION_PREVIEW_MAX_CHARS)),
        None => None,
    }
}

/// The role a stored role name stands for; an unknown name is invalid data.
pub fn parse_role(s: &str) -> (r: Result<Role, StorageError>)
    ensures
        match role_from_name(s@) {
            Some(role) => r == Ok::<Role, StorageError>(role),
            None => r matches Err(StorageError::InvalidData(m)) && m@ == "unknown role: "@ + s@,
        },
{
    match Role::parse(s) {
        Ok(role) => Ok(role),
        Err(e) => Err(StorageError::InvalidData(e)),
    }
}

} // verus!
