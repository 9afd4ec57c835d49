//! Settings of the service, and the defaults where a setting is not given.

use vstd::prelude::*;

use crate::text::{opt_text, starts_with};

verus! {

/// The settings that the service runs with.
pub struct Config {
    /// Where the database is.
    pub database_url: String,
    /// The address to listen on.
    pub listen_addr: String,
    /// The bearer token that requests must carry, if there is one.
    pub auth_token: Option<String>,
    /// For how many days metric data is kept.
    pub metrics_retention_days: u32,
    /// For how many days log data is kept.
    pub logs_retention_days: u32,
    /// For how many days spans are kept.
    pub traces_retention_days: u32,
    /// The origin that browsers may send telemetry from.
    pub cors_allow_origin: String,
    /// Datapoints older than this many seconds are not taken.
    pub ingest_window_secs: u64,
    /// Datapoints more than this many seconds in the future are not taken.
    pub future_tolerance_secs: u64,
    /// How many seconds pass between two evaluations of the alert rules.
    pub alert_eval_interval_secs: u64,
}

/// The settings as they were given: only the database has no default.
pub struct Settings {
    pub database_url: String,
    pub listen_addr: Option<String>,
    pub auth_token: Option<String>,
    pub metrics_retention_days: Option<u32>,
    pub logs_retention_days: Option<u32>,
    pub traces_retention_days: Option<u32>,
    pub cors_allow_origin: Option<String>,
    pub ingest_window_secs: Option<u64>,
    pub future_tolerance_secs: Option<u64>,
    pub alert_eval_interval_secs: Option<u64>,
}

/// A text, or the one that stands for it where it is not given.
pub open spec fn text_default(given: Option<Seq<char>>, default: Seq<char>) -> Seq<char> {
    match given {
        Some(s) => s,
        None => default,
    }
}

/// A number, or the one that stands for it where it is not given.
pub open spec fn number_default(given: Option<int>, default: int) -> int {
    match given {
        Some(n) => n,
        None => default,
    }
}

pub open spec fn opt_u32(n: Option<u32>) -> Option<int> {
    match n {
        Some(n) => Some(n as int),
        None => None,
    }
}

pub open spec fn opt_u64(n: Option<u64>) -> Option<int> {
    match n {
        Some(n) => Some(n as int),
        None => None,
    }
}

fn string_or(given: Option<String>, default: &str) -> (s: String)
    ensures
        s@ == text_default(opt_text(given), default@),
{
    match given {
        Some(s) => s,
        None => default.to_owned(),
    }
}

fn u32_or(given: Option<u32>, default: u32) -> (n: u32)
    ensures
        n == number_default(opt_u32(given), default as int),
{
    match given {
        Some(n) => n,
        None => default,
    }
}

fn u64_or(given: Option<u64>, default: u64) -> (n: u64)
    ensures
        n == number_default(opt_u64(given), default as int),
{
    match given {
        Some(n) => n,
        None => default,
    }
}

/// An address that only this machine can reach.
pub open spec fn loopback(addr: Seq<char>) -> bool {
    "127."@.is_prefix_of(addr) || "[::1]"@.is_prefix_of(addr)
}

/// The service runs with the settings, and with the defaults where one is not given.
pub open spec fn is_set(c: Config, s: Settings) -> bool {
    &&& c.database_url == s.database_url
    &&& c.listen_addr@ == text_default(opt_text(s.listen_addr), "0.0.0.0:4318"@)
    &&& c.auth_token == s.auth_token
    &&& c.metrics_retention_days == number_default(opt_u32(s.metrics_retention_days), 90)
    &&& c.logs_retention_days == number_default(opt_u32(s.logs_retention_days), 30)
    &&& c.traces_retention_days == number_default(opt_u32(s.traces_retention_days), 7)
    &&& c.cors_allow_origin@ == text_default(opt_text(s.cors_allow_origin), "*"@)
    &&& c.ingest_window_secs == number_default(opt_u64(s.ingest_window_secs), 3600)
    &&& c.future_tolerance_secs == number_default(opt_u64(s.future_tolerance_secs), 300)
    &&& c.alert_eval_interval_secs == number_default(opt_u64(s.alert_eval_interval_secs), 30)
}

impl Config {
    /// The settings, with the defaults where one is not given.
    pub fn from_settings(s: Settings) -> (c: Config)
        ensures
            is_set(c, s),
    {
        Config {
            database_url: s.database_url,
            listen_addr: string_or(s.listen_addr, "0.0.0.0:4318"),
            auth_token: s.auth_token,
            metrics_retention_days: u32_or(s.metrics_retention_days, 90),
            logs_retention_days: u32_or(s.logs_retention_days, 30),
            traces_retention_days: u32_or(s.traces_retention_days, 7),
            cors_allow_origin: string_or(s.cors_allow_origin, "*"),
            ingest_window_secs: u64_or(s.ingest_window_secs, 3600),
            future_tolerance_secs: u64_or(s.future_tolerance_secs, 300),
            alert_eval_interval_secs: u64_or(s.alert_eval_interval_secs, 30),
        }
    }

    /// Whether anyone on the network could send and read telemetry: the service
    /// listens beyond this machine and asks for no token.
    pub fn is_exposed(&self) -> (r: bool)
        ensures
            r == (!loopback(self.listen_addr@) && self.auth_token is None),
    {
        let local: bool = starts_with(self.listen_addr.as_str(), "127.") || starts_with(
            self.listen_addr.as_str(),
            "[::1]",
        );
        !local && self.auth_token.is_none()
    }
}

/// The connections that the pool holds at most: ten, or more if more are asked
/// for.
pub open spec fn pooled(asked: u32) -> u32 {
    if asked < 10 {
        10
    } else {
        asked
    }
}

/// The connections that the pool holds at most.
pub fn pool_size(asked: u32) -> (n: u32)
    ensures
        n == pooled(asked),
{
    if asked < 10 {
        10
    } else {
        asked
    }
}

/// A pool that has a connection to spare for the lock that migrations hold.
pub open spec fn pool_suffices(max_connections: u32) -> bool {
    max_connections >= 2
}

/// Whether a pool has a connection to spare for the lock that migrations hold;
/// if not, why it is refused.
pub fn check_pool(max_connections: u32) -> (r: Result<(), &'static str>)
    ensures
        match r {
            Ok(_) => pool_suffices(max_connections),
            Err(m) => !pool_suffices(max_connections) && m@ == "soma-observe requires a pool with max_connections >= 2"@,
        },
{
    if max_connections < 2 {
        Err("soma-observe requires a pool with max_connections >= 2")
    } else {
        Ok(())
    }
}

/// A pool of the size that the service asks for is never refused.
pub proof fn law_pool_is_large_enough(asked: u32)
    ensures
        pool_suffices(pooled(asked)),
{
}

/// Each setting that is given is the one that the service runs with, and what is not
/// given has its default.
pub proof fn law_settings_are_kept(c: Config, s: Settings)
    requires
        is_set(c, s),
    ensures
        c.database_url@ == s.database_url@ && opt_text(c.auth_token) == opt_text(s.auth_token),
        s.listen_addr matches Some(a) ==> c.listen_addr@ == a@,
        s.listen_addr is None ==> c.listen_addr@ == "0.0.0.0:4318"@,
        s.cors_allow_origin matches Some(o) ==> c.cors_allow_origin@ == o@,
        s.cors_allow_origin is None ==> c.cors_allow_origin@ == "*"@,
        s.metrics_retention_days matches Some(n) ==> c.metrics_retention_days == n,
        s.metrics_retention_days is None ==> c.metrics_retention_days == 90,
        s.logs_retention_days matches Some(n) ==> c.logs_retention_days == n,
        s.logs_retention_days is None ==> c.logs_retention_days == 30,
        s.traces_retention_days matches Some(n) ==> c.traces_retention_days == n,
        s.traces_retention_days is None ==> c.traces_retention_days == 7,
        s.ingest_window_secs matches Some(n) ==> c.ingest_window_secs == n,
        s.ingest_window_secs is None ==> c.ingest_window_secs == 3_600,
        s.future_tolerance_secs matches Some(n) ==> c.future_tolerance_secs == n,
        s.future_tolerance_secs is None ==> c.future_tolerance_secs == 300,
        s.alert_eval_interval_secs matches Some(n) ==> c.alert_eval_interval_secs == n,
        s.alert_eval_interval_secs is None ==> c.alert_eval_interval_secs == 30,
{
}

/// A pool holds as many connections as are asked for, and ten where fewer are.
pub proof fn law_pool_holds_what_is_asked(asked: u32)
    ensures
        asked >= 10 ==> pooled(asked) == asked,
        asked <= 10 ==> pooled(asked) == 10,
{
}

/// An address on this machine starts with its number or its short form in brackets;
/// one that is open to all does not.
pub proof fn law_local_addresses(rest: Seq<char>)
    ensures
        loopback("127."@ + rest),
        loopback("[::1]"@ + rest),
        !loopback("0.0.0.0"@ + rest),
        !loopback("[::]"@ + rest),
{
    reveal_strlit("127.");
    reveal_strlit("[::1]");
    reveal_strlit("0.0.0.0");
    reveal_strlit("[::]");
    assert("127."@.is_prefix_of("127."@ + rest));
    assert("[::1]"@.is_prefix_of("[::1]"@ + rest));
    let (a, b) = ("0.0.0.0"@ + rest, "[::]"@ + rest);
    assert(a[0] == '0' && b[0] == '[' && b[3] == ']');
    assert("127."@[0] == '1' && "[::1]"@[0] == '[' && "[::1]"@[3] == '1');
}

} // verus!
