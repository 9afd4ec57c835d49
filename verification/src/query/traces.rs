//! Trace queries.

use vstd::prelude::*;

use crate::query::logs::{clamp_limit, limit_of};
use crate::query::range::{instant, parse_range, range_of, TimeRange};
use crate::time::time_of;

verus! {

/// The parameters of a trace query.
pub struct TracesQueryParams {
    /// A service that a span of the trace belongs to.
    pub service: Option<String>,
    /// The name of the root span.
    pub name: Option<String>,
    /// The status of the trace: `ok` or `error`.
    pub status: Option<String>,
    /// The shortest duration, in milliseconds.
    pub min_duration_ms: Option<i64>,
    /// The longest duration, in milliseconds.
    pub max_duration_ms: Option<i64>,
    /// The start, as an RFC 3339 time or in seconds since 1970.
    pub start: String,
    /// The end, in the same forms.
    pub end: String,
    /// How many traces to return at most.
    pub limit: Option<i64>,
}

/// A trace query that was found in order.
#[derive(Clone, Copy, Debug, PartialEq, Eq, Structural)]
pub struct TracesQuery {
    pub range: TimeRange,
    pub limit: i64,
}

/// A query that was planned from parameters.
pub open spec fn is_plan(q: TracesQuery, params: TracesQueryParams) -> bool {
    q.limit == limit_of(params.limit, 50, 500)
}

/// The query over a range that was read from its parameters.
pub fn plan_over(range: Result<TimeRange, &'static str>, params: &TracesQueryParams) -> (r: Result<
    TracesQuery,
    &'static str,
>)
    ensures
        match r {
            Ok(q) => range == Ok::<TimeRange, &'static str>(q.range) && is_plan(q, *params),
            Err(m) => range == Err::<TimeRange, &'static str>(m),
        },
{
    match range {
        Ok(range) => Ok(TracesQuery { range, limit: clamp_limit(params.limit, 50, 500) }),
        Err(m) => Err(m),
    }
}

/// The query that the parameters ask for, or why it cannot be answered: at
/// most fifty traces unless said otherwise, and never above five hundred.
pub fn plan_query(params: &TracesQueryParams) -> (r: Result<TracesQuery, &'static str>)
    ensures
        ({
            let range = range_of(instant(time_of(params.start@)), instant(time_of(params.end@)));
            match r {
                Ok(q) => range == Ok::<TimeRange, Seq<char>>(q.range) && is_plan(q, *params),
                Err(m) => range == Err::<TimeRange, Seq<char>>(m@),
            }
        }),
{
    plan_over(parse_range(params.start.as_str(), params.end.as_str()), params)
}

/// The status of the answer for a trace: there is no trace without spans.
pub fn trace_status(span_count: usize) -> (status: u16)
    ensures
        status == (if span_count == 0 {
            404u16
        } else {
            200u16
        }),
{
    if span_count == 0 {
        404
    } else {
        200
    }
}

/// A planned trace query asks for fifty traces unless another number up to five
/// hundred is given.
pub proof fn law_plan_does_what_is_asked(q: TracesQuery, params: TracesQueryParams)
    requires
        is_plan(q, params),
    ensures
        params.limit is None ==> q.limit == 50,
        params.limit matches Some(n) ==> (1 <= n <= 500 ==> q.limit == n) && (n < 1 ==> q.limit == 1) && (n > 500
            ==> q.limit == 500),
{
}

} // verus!
