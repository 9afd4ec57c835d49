//! The time range of a query.

use vstd::prelude::*;

use crate::text::decimal_int;
use crate::time::{
    law_seconds_between, law_seconds_read_back, parse_time, rfc3339, secs_before, seconds_between, elapsed_seconds, time_of,
    total_nanos, Timestamp, MAX_SECS, MIN_SECS,
};

verus! {

/// A range of time, with its start before its end.
#[derive(Clone, Copy, Debug, PartialEq, Eq, Structural)]
pub struct TimeRange {
    pub start: Timestamp,
    pub end: Timestamp,
}

/// A range of two instants, or why they make none.
pub open spec fn range_of(start: Option<Timestamp>, end: Option<Timestamp>) -> Result<TimeRange, Seq<char>> {
    match (start, end) {
        (None, _) => Err("invalid start time"@),
        (_, None) => Err("invalid end time"@),
        (Some(s), Some(e)) => if e.at_most(s) {
            Err("start must be before end"@)
        } else {
            Ok(TimeRange { start: s, end: e })
        },
    }
}

/// What a result with a message stands for.
pub open spec fn with_message<T>(r: Result<T, &'static str>) -> Result<T, Seq<char>> {
    match r {
        Ok(t) => Ok(t),
        Err(m) => Err(m@),
    }
}

/// The range between two instants that were read from a query.
pub fn check_range(start: Option<Timestamp>, end: Option<Timestamp>) -> (r: Result<TimeRange, &'static str>)
    ensures
        with_message(r) == range_of(start, end),
{
    match start {
        None => Err("invalid start time"),
        Some(s) => match end {
            None => Err("invalid end time"),
            Some(e) => if e.le(&s) {
                Err("start must be before end")
            } else {
                Ok(TimeRange { start: s, end: e })
            },
        },
    }
}

/// An instant of seconds and nanoseconds.
pub open spec fn instant(t: Option<(int, int)>) -> Option<Timestamp> {
    match t {
        Some((secs, nanos)) => Some(Timestamp { secs: secs as i64, nanos: nanos as u32 }),
        None => None,
    }
}

/// The range that a query names by its start and its end.
pub fn parse_range(start: &str, end: &str) -> (r: Result<TimeRange, &'static str>)
    ensures
        with_message(r) == range_of(instant(time_of(start@)), instant(time_of(end@))),
{
    check_range(parse_time(start), parse_time(end))
}

/// The most recent hour before an instant starts within the calendar.
pub open spec fn hour_fits(t: Timestamp) -> bool {
    MIN_SECS <= secs_before(t, 3_600).0
}

/// The instant an hour before.
pub fn hour_before(t: Timestamp) -> (r: Timestamp)
    requires
        hour_fits(t),
        t.valid(),
    ensures
        (r.secs as int, r.nanos as int) == secs_before(t, 3_600),
        r.valid(),
{
    if t.nanos >= 1_000_000_000 {
        Timestamp { secs: t.secs + 1 - 3_600, nanos: t.nanos - 1_000_000_000 }
    } else {
        Timestamp { secs: t.secs - 3_600, nanos: t.nanos }
    }
}

/// What a query says of one end of its range.
#[derive(Clone, Copy, Debug, PartialEq, Eq, Structural)]
pub enum Bound {
    /// Nothing.
    Absent,
    /// Something that is no instant.
    Invalid,
    At(Timestamp),
}

/// The end of the range: that of the query, or the present.
pub open spec fn end_of(end: Bound, now: Timestamp) -> Option<Timestamp> {
    match end {
        Bound::Absent => Some(now),
        Bound::Invalid => None,
        Bound::At(t) => Some(t),
    }
}

/// The range of a query that may leave its ends open: from an hour ago, and up to
/// the present.
pub open spec fn open_range(start: Bound, end: Bound, now: Timestamp) -> Result<TimeRange, Seq<char>> {
    match end_of(end, now) {
        None => Err("invalid end time"@),
        Some(e) => {
            let s = match start {
                Bound::Absent => instant(Some(secs_before(now, 3_600))),
                Bound::Invalid => None,
                Bound::At(t) => Some(t),
            };
            range_of(s, Some(e))
        },
    }
}

/// Where the range starts an hour ago, that lies within the calendar.
pub open spec fn default_fits(start: Bound, end: Bound, now: Timestamp) -> bool {
    start is Absent && !(end is Invalid) ==> hour_fits(now)
}

/// The bounds are instants of the calendar, if any.
pub open spec fn bound_valid(b: Bound) -> bool {
    b matches Bound::At(t) ==> t.valid()
}

/// The range of a query that may leave its ends open.
pub fn check_open_range(start: Bound, end: Bound, now: Timestamp) -> (r: Result<TimeRange, &'static str>)
    requires
        bound_valid(start),
        bound_valid(end),
        now.valid(),
        default_fits(start, end, now),
    ensures
        with_message(r) == open_range(start, end, now),
        r matches Ok(range) ==> range.start.valid() && range.end.valid(),
{
    let e = match end {
        Bound::Absent => now,
        Bound::Invalid => {
            return Err("invalid end time");
        },
        Bound::At(t) => t,
    };
    let s = match start {
        Bound::Absent => hour_before(now),
        Bound::Invalid => {
            return Err("invalid start time");
        },
        Bound::At(t) => t,
    };
    check_range(Some(s), Some(e))
}

/// What a query says of one end of its range.
pub open spec fn bound_of(s: Option<String>) -> Bound {
    match s {
        None => Bound::Absent,
        Some(t) => match instant(time_of(t@)) {
            Some(at) => Bound::At(at),
            None => Bound::Invalid,
        },
    }
}

fn read_bound(s: &Option<String>) -> (r: Bound)
    ensures
        r == bound_of(*s),
        bound_valid(r),
{
    match s {
        None => Bound::Absent,
        Some(t) => match parse_time(t.as_str()) {
            Some(at) => Bound::At(at),
            None => Bound::Invalid,
        },
    }
}

/// The range of a query that may leave its ends open, or none where it starts an
/// hour ago and that lies before the calendar.
pub fn parse_open_range(start: &Option<String>, end: &Option<String>, now: Timestamp) -> (r: Option<
    Result<TimeRange, &'static str>,
>)
    requires
        now.valid(),
    ensures
        match r {
            Some(x) => default_fits(bound_of(*start), bound_of(*end), now) && with_message(x) == open_range(
                bound_of(*start),
                bound_of(*end),
                now,
            ) && (x matches Ok(range) ==> range.start.valid() && range.end.valid()),
            None => !default_fits(bound_of(*start), bound_of(*end), now),
        },
{
    let s = read_bound(start);
    let e = read_bound(end);
    let first: i64 = if now.nanos >= 1_000_000_000 {
        now.secs + 1 - 3_600
    } else {
        now.secs - 3_600
    };
    if first < MIN_SECS {
        if let Bound::Absent = s {
            match e {
                Bound::Invalid => {},
                _ => {
                    return None;
                },
            }
        }
    }
    Some(check_open_range(s, e, now))
}

/// The length of a range in whole seconds, one at least.
pub open spec fn window_of(range: TimeRange) -> int {
    if seconds_between(range.start, range.end) < 1 {
        1
    } else {
        seconds_between(range.start, range.end)
    }
}

/// The length of a range in whole seconds, one at least.
pub fn window_secs(range: &TimeRange) -> (secs: i64)
    requires
        range.start.valid(),
        range.end.valid(),
    ensures
        secs == window_of(*range),
        secs >= 1,
{
    let secs: i64 = elapsed_seconds(range.start, range.end);
    if secs < 1 {
        1
    } else {
        secs
    }
}

/// A range that is accepted starts before it ends.
pub proof fn law_range_is_forward(start: Option<Timestamp>, end: Option<Timestamp>)
    ensures
        range_of(start, end) matches Ok(r) ==> !r.end.at_most(r.start) && start == Some(r.start) && end == Some(r.end),
        range_of(start, end) is Err <==> start is None || end is None || (start is Some && end is Some
            && end->0.at_most(start->0)),
{
}

/// Left open at both ends, the range is the hour up to the present.
pub proof fn law_open_range_is_last_hour(now: Timestamp)
    requires
        now.valid(),
        now.nanos < 1_000_000_000,
        MIN_SECS + 3_600 <= now.secs,
    ensures
        open_range(Bound::Absent, Bound::Absent, now) == Ok::<TimeRange, Seq<char>>(
            TimeRange {
                start: Timestamp { secs: (now.secs - 3_600) as i64, nanos: now.nanos },
                end: now,
            },
        ),
{
}

/// A start that is left open is an hour ago, whatever the end: an end that lies
/// further back is refused.
pub proof fn law_open_start_is_an_hour_ago(end: Timestamp, now: Timestamp)
    requires
        now.valid(),
        now.nanos < 1_000_000_000,
        MIN_SECS + 3_600 <= now.secs,
    ensures
        ({
            let start = Timestamp { secs: (now.secs - 3_600) as i64, nanos: now.nanos };
            open_range(Bound::Absent, Bound::At(end), now) == if end.at_most(start) {
                Err::<TimeRange, Seq<char>>("start must be before end"@)
            } else {
                Ok::<TimeRange, Seq<char>>(TimeRange { start, end })
            }
        }),
{
}

/// Instants that are given are the ends of the range, whatever the time; an end
/// that is left open is the present.
pub proof fn law_given_ends_are_kept(start: Timestamp, end: Timestamp, now: Timestamp)
    requires
        !end.at_most(start),
        !now.at_most(start),
    ensures
        open_range(Bound::At(start), Bound::At(end), now) == Ok::<TimeRange, Seq<char>>(TimeRange { start, end }),
        open_range(Bound::At(start), Bound::Absent, now) == Ok::<TimeRange, Seq<char>>(TimeRange { start, end: now }),
{
}

/// What is no instant is refused, for an end before a start.
pub proof fn law_ends_that_are_no_instants_are_refused(start: Bound, end: Bound, now: Timestamp)
    ensures
        end is Invalid ==> open_range(start, end, now) == Err::<TimeRange, Seq<char>>("invalid end time"@),
        start is Invalid && !(end is Invalid) ==> open_range(start, end, now) == Err::<TimeRange, Seq<char>>(
            "invalid start time"@,
        ),
{
}

/// The length of a range without leap seconds is its whole seconds, and one where
/// it is shorter than two.
pub proof fn law_length_of_a_range(range: TimeRange)
    requires
        range.start.nanos < 1_000_000_000,
        range.end.nanos < 1_000_000_000,
        total_nanos(range.start) <= total_nanos(range.end),
    ensures
        ({
            let d = total_nanos(range.end) - total_nanos(range.start);
            &&& d < 2_000_000_000 ==> window_of(range) == 1
            &&& d >= 1_000_000_000 ==> window_of(range) * 1_000_000_000 <= d < (window_of(range) + 1) * 1_000_000_000
        }),
{
    law_seconds_between(range.start, range.end);
}

/// A range given in whole seconds since 1970 runs between those seconds, unless
/// either text is an RFC 3339 time too.
pub proof fn law_ranges_in_seconds(start: i64, end: i64)
    requires
        MIN_SECS <= start < end <= MAX_SECS,
    ensures
        rfc3339(decimal_int(start as int)) is None && rfc3339(decimal_int(end as int)) is None ==> range_of(
            instant(time_of(decimal_int(start as int))),
            instant(time_of(decimal_int(end as int))),
        ) == Ok::<TimeRange, Seq<char>>(
            TimeRange { start: Timestamp { secs: start, nanos: 0 }, end: Timestamp { secs: end, nanos: 0 } }),
{
    law_seconds_read_back(start);
    law_seconds_read_back(end);
}

/// An end of a range that is not given is open, one that names an instant is that
/// instant, and any other is none.
pub proof fn law_bounds_are_as_given(s: Option<String>)
    ensures
        bound_of(s) is Absent <==> s is None,
        s matches Some(t) ==> (time_of(t@) is None ==> bound_of(s) is Invalid),
        s matches Some(t) ==> (time_of(t@) matches Some((secs, nanos)) ==> (i64::MIN <= secs <= i64::MAX && 0 <= nanos
            <= u32::MAX ==> (bound_of(s) matches Bound::At(at) && at.secs == secs && at.nanos == nanos))),
{
}

/// A refusal is told by its message, and a range that is taken is handed on.
pub proof fn law_messages_are_handed_on(r: Result<TimeRange, &'static str>)
    ensures
        r matches Ok(t) ==> with_message(r) == Ok::<TimeRange, Seq<char>>(t),
        r matches Err(m) ==> with_message(r) == Err::<TimeRange, Seq<char>>(m@),
{
}

} // verus!
