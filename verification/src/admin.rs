//! Health and statistics of the service.

use vstd::prelude::*;

use crate::config::Config;

verus! {

/// What the liveness probe is told.
pub struct HealthResponse {
    pub status: &'static str,
    pub db: &'static str,
    pub version: &'static str,
}

/// For how many days data is kept.
pub struct RetentionConfig {
    pub metrics_days: u32,
    pub logs_days: u32,
}

/// How much is stored.
pub struct DataCounts {
    pub series: i64,
    pub metric_points: i64,
    pub histogram_points: i64,
    pub logs: i64,
    pub spans: i64,
}

/// The statistics of the service.
pub struct StatsResponse {
    pub retention: RetentionConfig,
    pub auth_required: bool,
    pub counts: DataCounts,
    pub partitions: i64,
    pub db_size_bytes: Option<i64>,
}

/// The health of the service, given whether the database answers. The service
/// is alive either way.
pub fn health(db_ok: bool, version: &'static str) -> (r: HealthResponse)
    ensures
        r.status@ == "ok"@,
        r.db@ == if db_ok {
            "ok"@
        } else {
            "error"@
        },
        r.version == version,
{
    HealthResponse {
        status: "ok",
        db: if db_ok {
            "ok"
        } else {
            "error"
        },
        version,
    }
}

/// What the database says of its contents; none where it does not say.
pub struct Tally {
    pub series: Option<i64>,
    pub metric_points: Option<i64>,
    pub histogram_points: Option<i64>,
    pub logs: Option<i64>,
    pub spans: Option<i64>,
    pub partitions: Option<i64>,
    pub db_size_bytes: Option<i64>,
}

/// A count, which is zero where it is not known.
pub open spec fn count_of(n: Option<i64>) -> i64 {
    match n {
        Some(n) => n,
        None => 0,
    }
}

fn count(n: Option<i64>) -> (r: i64)
    ensures
        r == count_of(n),
{
    match n {
        Some(n) => n,
        None => 0,
    }
}

/// The statistics of the service, given what the database says.
pub open spec fn are_stats(r: StatsResponse, config: Config, tally: Tally) -> bool {
    &&& r.retention.metrics_days == config.metrics_retention_days
    &&& r.retention.logs_days == config.logs_retention_days
    &&& r.auth_required == (config.auth_token is Some)
    &&& r.counts.series == count_of(tally.series)
    &&& r.counts.metric_points == count_of(tally.metric_points)
    &&& r.counts.histogram_points == count_of(tally.histogram_points)
    &&& r.counts.logs == count_of(tally.logs)
    &&& r.counts.spans == count_of(tally.spans)
    &&& r.partitions == count_of(tally.partitions)
    &&& r.db_size_bytes == tally.db_size_bytes
}

/// The statistics of the service, given what the database says.
pub fn stats(config: &Config, tally: &Tally) -> (r: StatsResponse)
    ensures
        are_stats(r, *config, *tally),
{
    StatsResponse {
        retention: RetentionConfig {
            metrics_days: config.metrics_retention_days,
            logs_days: config.logs_retention_days,
        },
        auth_required: config.auth_token.is_some(),
        counts: DataCounts {
            series: count(tally.series),
            metric_points: count(tally.metric_points),
            histogram_points: count(tally.histogram_points),
            logs: count(tally.logs),
            spans: count(tally.spans),
        },
        partitions: count(tally.partitions),
        db_size_bytes: tally.db_size_bytes,
    }
}

/// A number is what the database says of it, and zero where it does not say.
pub open spec fn tells(n: i64, said: Option<i64>) -> bool {
    &&& said matches Some(s) ==> n == s
    &&& said is None ==> n == 0
}

/// The statistics show the settings of the service, and each count that the
/// database has.
pub proof fn law_stats_show_what_is_stored(r: StatsResponse, config: Config, tally: Tally)
    requires
        are_stats(r, config, tally),
    ensures
        r.retention.metrics_days == config.metrics_retention_days,
        r.retention.logs_days == config.logs_retention_days,
        r.auth_required <==> config.auth_token is Some,
        tells(r.counts.series, tally.series),
        tells(r.counts.metric_points, tally.metric_points),
        tells(r.counts.histogram_points, tally.histogram_points),
        tells(r.counts.logs, tally.logs),
        tells(r.counts.spans, tally.spans),
        tells(r.partitions, tally.partitions),
        r.db_size_bytes == tally.db_size_bytes,
{
}

} // verus!
