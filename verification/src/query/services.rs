//! The service map.

use vstd::prelude::*;

verus! {

/// The parameters of a service map query.
pub struct ServiceMapParams {
    /// The start: an hour ago where none is given.
    pub start: Option<String>,
    /// The end: the present where none is given.
    pub end: Option<String>,
}

/// A quotient of two whole numbers.
#[derive(Clone, Copy, Debug, PartialEq, Eq, Structural)]
pub struct Ratio {
    pub num: i64,
    pub den: i64,
}

/// The share of errors: none where there are no spans.
pub open spec fn error_share(errors: i64, spans: i64) -> Ratio {
    if spans > 0 {
        Ratio { num: errors, den: spans }
    } else {
        Ratio { num: 0, den: 1 }
    }
}

/// The share of errors.
pub fn error_rate(errors: i64, spans: i64) -> (r: Ratio)
    ensures
        r == error_share(errors, spans),
        r.den > 0,
{
    if spans > 0 {
        Ratio { num: errors, den: spans }
    } else {
        Ratio { num: 0, den: 1 }
    }
}

/// Nanoseconds as milliseconds.
pub fn ns_to_ms(ns: i64) -> (r: Ratio)
    ensures
        r == (Ratio { num: ns, den: 1_000_000 }),
{
    Ratio { num: ns, den: 1_000_000 }
}

/// The requests that a service answered, as the store counts them.
pub struct ServiceRow {
    pub name: String,
    pub span_count: i64,
    pub error_count: i64,
    pub p50_ns: i64,
    pub p90_ns: i64,
    pub p99_ns: i64,
}

/// Rate, errors and durations of a service.
pub struct ServiceStats {
    pub name: String,
    pub span_count: i64,
    pub error_count: i64,
    /// The share of errors.
    pub error_rate: Ratio,
    /// Spans per second.
    pub rate_per_sec: Ratio,
    pub p50_ms: Ratio,
    pub p90_ms: Ratio,
    pub p99_ms: Ratio,
}

/// Rate, errors and durations of a service over a range of seconds.
pub open spec fn are_stats(r: ServiceStats, row: ServiceRow, window_secs: i64) -> bool {
    &&& r.name == row.name
    &&& r.span_count == row.span_count
    &&& r.error_count == row.error_count
    &&& r.error_rate == error_share(row.error_count, row.span_count)
    &&& r.rate_per_sec == (Ratio { num: row.span_count, den: window_secs })
    &&& r.p50_ms == (Ratio { num: row.p50_ns, den: 1_000_000 })
    &&& r.p90_ms == (Ratio { num: row.p90_ns, den: 1_000_000 })
    &&& r.p99_ms == (Ratio { num: row.p99_ns, den: 1_000_000 })
}

/// Rate, errors and durations of a service over a range of seconds.
pub fn service_stats(row: ServiceRow, window_secs: i64) -> (r: ServiceStats)
    requires
        window_secs >= 1,
    ensures
        are_stats(r, row, window_secs),
{
    ServiceStats {
        name: row.name,
        span_count: row.span_count,
        error_count: row.error_count,
        error_rate: error_rate(row.error_count, row.span_count),
        rate_per_sec: Ratio { num: row.span_count, den: window_secs },
        p50_ms: ns_to_ms(row.p50_ns),
        p90_ms: ns_to_ms(row.p90_ns),
        p99_ms: ns_to_ms(row.p99_ns),
    }
}

/// The calls of one service by another.
pub struct ServiceEdge {
    pub from: String,
    pub to: String,
    pub call_count: i64,
    pub error_count: i64,
    pub p99_ms: Ratio,
}

/// The calls of one service by another.
pub open spec fn is_edge(r: ServiceEdge, from: String, to: String, call_count: i64, error_count: i64, p99_ns: i64) -> bool {
    &&& r.from == from
    &&& r.to == to
    &&& r.call_count == call_count
    &&& r.error_count == error_count
    &&& r.p99_ms == (Ratio { num: p99_ns, den: 1_000_000 })
}

/// The calls of one service by another.
pub fn service_edge(from: String, to: String, call_count: i64, error_count: i64, p99_ns: i64) -> (r: ServiceEdge)
    ensures
        is_edge(r, from, to, call_count, error_count, p99_ns),
{
    ServiceEdge { from, to, call_count, error_count, p99_ms: ns_to_ms(p99_ns) }
}

/// The share of errors is that of the spans that failed among all, and none where
/// there are no spans.
pub proof fn law_share_of_errors(errors: i64, spans: i64)
    ensures
        spans > 0 ==> error_share(errors, spans).num * spans == errors * error_share(errors, spans).den && error_share(
            errors,
            spans,
        ).den == spans,
        spans <= 0 ==> error_share(errors, spans).num == 0,
        error_share(errors, spans).den > 0,
{
}

/// The statistics of a service are those of its row: its counts as they are, its
/// spans by the seconds of the range, the share of its spans that failed, and each
/// of its durations a millionth of its nanoseconds.
pub proof fn law_stats_are_those_of_the_row(r: ServiceStats, row: ServiceRow, window_secs: i64)
    requires
        are_stats(r, row, window_secs),
        window_secs >= 1,
    ensures
        r.name@ == row.name@ && r.span_count == row.span_count && r.error_count == row.error_count,
        r.rate_per_sec.num == row.span_count && r.rate_per_sec.den == window_secs,
        row.span_count > 0 ==> r.error_rate.num == row.error_count && r.error_rate.den == row.span_count,
        row.span_count <= 0 ==> r.error_rate.num == 0 && r.error_rate.den > 0,
        r.p50_ms.num == row.p50_ns && r.p50_ms.den == 1_000_000,
        r.p90_ms.num == row.p90_ns && r.p90_ms.den == 1_000_000,
        r.p99_ms.num == row.p99_ns && r.p99_ms.den == 1_000_000,
{
}

/// A call leads from the service that calls to the one that is called, with the
/// numbers of calls and of failures and the duration as the store has them.
pub proof fn law_edges_lead_to_the_called(
    r: ServiceEdge,
    from: String,
    to: String,
    call_count: i64,
    error_count: i64,
    p99_ns: i64,
)
    requires
        is_edge(r, from, to, call_count, error_count, p99_ns),
    ensures
        r.from@ == from@ && r.to@ == to@,
        r.call_count == call_count && r.error_count == error_count,
        r.p99_ms.num == p99_ns && r.p99_ms.den == 1_000_000,
{
}

} // verus!
