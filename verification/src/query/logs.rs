//! Log queries.

use vstd::prelude::*;

use crate::json::{opt_json, Json};
use crate::query::filter::{asks_for, can_be_written, filter_text, law_filter_can_be_looked_up, parse_filter, wanted, Pair};
use crate::query::range::{instant, parse_range, range_of, TimeRange};
use crate::time::time_of;

verus! {

/// The parameters of a log query.
pub struct LogsQueryParams {
    /// The start, as an RFC 3339 time or in seconds since 1970.
    pub start: String,
    /// The end, in the same forms.
    pub end: String,
    /// The attributes asked for.
    pub filter: Option<String>,
    /// The lowest severity asked for.
    pub severity_min: Option<i32>,
    /// A part of the body, in upper or lower case.
    pub q: Option<String>,
    /// How many records to return at most.
    pub limit: Option<i64>,
}

/// A log query that was found in order.
pub struct LogsQuery {
    pub range: TimeRange,
    pub limit: i64,
    pub filter: Option<Json>,
}

/// A limit between one and `most`, or `default` where none is given.
pub open spec fn limit_of(limit: Option<i64>, default: int, most: int) -> int {
    match limit {
        Some(n) => if n < 1 {
            1
        } else if n > most {
            most
        } else {
            n as int
        },
        None => default,
    }
}

/// A limit between one and `most`, or `default` where none is given.
pub fn clamp_limit(limit: Option<i64>, default: i64, most: i64) -> (r: i64)
    requires
        1 <= default <= most,
    ensures
        r == limit_of(limit, default as int, most as int),
        1 <= r <= most,
{
    match limit {
        Some(n) => if n < 1 {
            1
        } else if n > most {
            most
        } else {
            n
        },
        None => default,
    }
}

/// A query that was planned from parameters.
pub open spec fn is_plan(q: LogsQuery, params: LogsQueryParams) -> bool {
    &&& q.limit == limit_of(params.limit, 100, 1000)
    &&& opt_json(q.filter) == wanted(params.filter)
}

/// The query over a range that was read from its parameters.
pub fn plan_over(range: Result<TimeRange, &'static str>, params: &LogsQueryParams) -> (r: Result<
    LogsQuery,
    &'static str,
>)
    ensures
        match r {
            Ok(q) => range == Ok::<TimeRange, &'static str>(q.range) && is_plan(q, *params),
            Err(m) => range == Err::<TimeRange, &'static str>(m),
        },
{
    match range {
        Ok(range) => Ok(
            LogsQuery {
                range,
                limit: clamp_limit(params.limit, 100, 1000),
                filter: parse_filter(&params.filter),
            },
        ),
        Err(m) => Err(m),
    }
}

/// The query that the parameters ask for, or why it cannot be answered: at
/// most a hundred records unless said otherwise, and never above a thousand.
pub fn plan_query(params: &LogsQueryParams) -> (r: Result<LogsQuery, &'static str>)
    ensures
        ({
            let range = range_of(instant(time_of(params.start@)), instant(time_of(params.end@)));
            match r {
                Ok(q) => range == Ok::<TimeRange, Seq<char>>(q.range) && is_plan(q, *params),
                Err(m) => range == Err::<TimeRange, Seq<char>>(m@),
            }
        }),
{
    plan_over(parse_range(params.start.as_str(), params.end.as_str()), params)
}

/// Lines, each with a line feed behind it. What could not be written as a line
/// is left out.
pub open spec fn lines_text(lines: Seq<Option<String>>) -> Seq<char>
    decreases lines.len(),
{
    if lines.len() == 0 {
        Seq::empty()
    } else {
        match lines.last() {
            Some(l) => lines_text(lines.drop_last()) + l@ + seq!['\n'],
            None => lines_text(lines.drop_last()),
        }
    }
}

/// The body of an answer in newline-delimited JSON.
pub fn ndjson(lines: &Vec<Option<String>>) -> (s: String)
    ensures
        s@ == lines_text(lines@),
{
    let mut s = String::new();
    let mut i: usize = 0;
    assert(lines@.take(0) =~= Seq::empty());
    while i < lines.len()
        invariant
            i <= lines.len(),
            s@ == lines_text(lines@.take(i as int)),
        decreases lines.len() - i,
    {
        assert(lines@.take(i + 1).drop_last() =~= lines@.take(i as int));
        if let Some(l) = &lines[i] {
            let ghost before = s@;
            s.push_str(l.as_str());
            s.push('\n');
            assert(s@ =~= before + l@ + seq!['\n']);
        }
        i += 1;
    }
    assert(lines@.take(lines.len() as int) =~= lines@);
    s
}

/// A limit is never below one nor above the most that is allowed.
pub proof fn law_limit_is_bounded(limit: Option<i64>, default: int, most: int)
    requires
        1 <= default <= most,
    ensures
        1 <= limit_of(limit, default, most) <= most,
        limit matches Some(n) ==> (1 <= n <= most ==> limit_of(limit, default, most) == n),
{
}

/// A limit is used as it is given where it is allowed; below one it is one, above
/// the most it is the most, and where none is given it is the default.
pub proof fn law_limit_is_as_given(limit: Option<i64>, default: int, most: int)
    requires
        1 <= default <= most,
    ensures
        limit is None ==> limit_of(limit, default, most) == default,
        limit matches Some(n) ==> {
            &&& n <= 1 ==> limit_of(limit, default, most) == 1
            &&& 1 <= n <= most ==> limit_of(limit, default, most) == n
            &&& most <= n ==> limit_of(limit, default, most) == most
        },
{
}

/// A planned log query does what its parameters ask: a hundred records unless
/// another number up to a thousand is given, with the attributes of the filter.
pub proof fn law_plan_does_what_is_asked(q: LogsQuery, params: LogsQueryParams, pairs: Seq<Pair>)
    requires
        is_plan(q, params),
    ensures
        params.limit is None ==> q.limit == 100,
        params.limit matches Some(n) ==> (1 <= n <= 1000 ==> q.limit == n) && (n < 1 ==> q.limit == 1) && (n > 1000
            ==> q.limit == 1000),
        params.filter is None ==> q.filter is None,
        params.filter matches Some(f) ==> (can_be_written(pairs) && f@ == filter_text(pairs) ==> asks_for(
            opt_json(q.filter),
            pairs,
        )),
{
    if can_be_written(pairs) {
        law_filter_can_be_looked_up(pairs);
    }
}

/// Lines follow each other, each with a line feed behind it, and what could not be
/// written leaves nothing.
pub proof fn law_lines_follow_each_other(lines: Seq<Option<String>>, more: Seq<Option<String>>)
    ensures
        lines_text(lines + more) == lines_text(lines) + lines_text(more),
        more.len() == 1 ==> (more[0] matches Some(l) ==> lines_text(more) == l@ + seq!['\n']),
        more.len() == 1 && more[0] is None ==> lines_text(more).len() == 0,
        more.len() == 0 ==> lines_text(more).len() == 0,
    decreases more.len(),
{
    if more.len() == 0 {
        assert(lines + more =~= lines);
        assert(lines_text(lines) + lines_text(more) =~= lines_text(lines));
    } else {
        let front = more.drop_last();
        assert((lines + more).drop_last() =~= lines + front);
        law_lines_follow_each_other(lines, front);
        if more.len() == 1 {
            assert(front =~= Seq::empty());
            assert(more.last() == more[0]);
            if let Some(l) = more[0] {
                assert(lines_text(more) =~= l@ + seq!['\n']);
            }
        }
        if let Some(l) = more.last() {
            assert(lines_text(lines + more) =~= lines_text(lines) + lines_text(more));
        }
    }
}

} // verus!
