//! Configuration sections the engine and its host consume.
//!
//! Loading the values from a file or the environment is the host's work;
//! these are the plain settings themselves, with their defaults.

use vstd::prelude::*;

verus! {

/// The `general` section of the configuration.
pub struct General {
    /// The logger's filter configuration.
    pub log_filter: String,
}

/// The `http.tls` section of the configuration.
pub struct Tls {
    /// The path to the certificate used to host the server.
    pub certificate: String,
    /// The path to the certificate's corresponding key.
    pub key: String,
}

/// The `sqlite` section of the configuration.
pub struct Sqlite {
    /// The path to the sqlite database file.
    pub path: String,
    /// Whether to create the database file if it doesn't exist.
    pub create_if_missing: bool,
    /// The minimum number of connections to keep open to the database.
    pub min_connections: Option<u32>,
    /// The maximum number of connections to have open to the database.
    pub max_connections: Option<u32>,
}

/// Configuration pertaining to how routes are responded to.
pub struct Routes {
    /// Whether cookies are restricted to secure origins.
    pub secure_cookies: bool,
}

/// The settings the rating engine itself consumes.
pub struct Algorithm {
    /// Seconds a cached feed stays fresh before a request regenerates it.
    pub feed_refresh_period: u64,
    /// Pending-result count at which a score is folded eagerly, before its
    /// calendar period has elapsed.
    pub rating_period: usize,
}

/// The default value for the `log_filter` field in [`General`].
pub fn default_log_filter() -> (s: String)
    ensures
        s@ == "info"@,
{
    let s = String::new();
    join_str(s, "info")
}

/// The default value for the `path` field in [`Sqlite`].
pub fn default_path() -> (s: String)
    ensures
        s@ == "flock.db"@,
{
    let s = String::new();
    join_str(s, "flock.db")
}

/// The default value for the `create_if_missing` field in [`Sqlite`].
pub fn default_create_if_missing() -> (b: bool)
    ensures
        b == true,
{
    true
}

/// The default value for the `secure_cookies` field in [`Routes`].
pub fn default_secure_cookies() -> (b: bool)
    ensures
        b == false,
{
    false
}

/// Append a string slice to an owned string.
fn join_str(s: String, t: &str) -> (r: String)
    ensures
        r@ == s@ + t@,
{
    let mut s = s;
    s.append(t);
    s
}

impl Default for General {
    fn default() -> (d: Self)
        ensures
            d.log_filter@ == "info"@,
    {
        General { log_filter: default_log_filter() }
    }
}

impl Default for Sqlite {
    fn default() -> (d: Self)
        ensures
            d.path@ == "flock.db"@,
            d.create_if_missing == true,
            d.min_connections is None,
            d.max_connections is None,
    {
        Sqlite {
            path: default_path(),
            create_if_missing: default_create_if_missing(),
            min_connections: None,
            max_connections: None,
        }
    }
}

impl Default for Routes {
    fn default() -> (d: Self)
        ensures
            d.secure_cookies == false,
    {
        Routes { secure_cookies: default_secure_cookies() }
    }
}

/// Whether a cached feed generated at `refreshed` has gone stale by `now`:
/// strictly more than the refresh period has elapsed since it was built.
pub fn feed_is_stale(refreshed: u64, now: u64, feed_refresh_period: u64) -> (stale: bool)
    requires
        refreshed <= now,
    ensures
        stale <==> now - refreshed > feed_refresh_period,
{
    now - refreshed > feed_refresh_period
}

} // verus!
