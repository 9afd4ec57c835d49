//! Instants of time, months, and the clock.

use vstd::prelude::*;

use crate::text::{decimal_int, law_integers_read_back, parse_i64, parse_int_spec};

verus! {

/// An instant: seconds since 1970-01-01T00:00:00Z and nanoseconds within the
/// second. A leap second has nanoseconds of a thousand million and more.
#[derive(Clone, Copy, Debug, PartialEq, Eq, Structural)]
pub struct Timestamp {
    pub secs: i64,
    pub nanos: u32,
}

/// The first second that an instant can have.
pub const MIN_SECS: i64 = -8_334_601_228_800;

/// The last second that an instant can have.
pub const MAX_SECS: i64 = 8_210_266_876_799;

/// The longest stretch of time, in seconds, to either side.
pub const MAX_SPAN_SECS: i64 = 9_223_372_036_854_775;

pub const NANOS_PER_SEC: u32 = 1_000_000_000;

/// The nanoseconds fit the second: only the last second of a minute can be a
/// leap second.
pub open spec fn nanos_fit(secs: int, nanos: int) -> bool {
    0 <= nanos < 1_000_000_000 || (1_000_000_000 <= nanos < 2_000_000_000 && secs % 60 == 59)
}

impl Timestamp {
    /// An instant of the calendar.
    pub open spec fn valid(self) -> bool {
        MIN_SECS <= self.secs <= MAX_SECS && nanos_fit(self.secs as int, self.nanos as int)
    }

    /// No later than `other`.
    pub open spec fn at_most(self, other: Timestamp) -> bool {
        self.secs < other.secs || (self.secs == other.secs && self.nanos <= other.nanos)
    }

    /// Whether this instant is no later than `other`.
    pub fn le(&self, other: &Timestamp) -> (r: bool)
        ensures
            r == self.at_most(*other),
    {
        self.secs < other.secs || (self.secs == other.secs && self.nanos <= other.nanos)
    }
}

/// The two's complement reading of an unsigned number.
pub open spec fn wrapped(n: u64) -> int {
    if n <= i64::MAX {
        n as int
    } else {
        n - 0x1_0000_0000_0000_0000
    }
}

/// An unsigned number read as a signed one.
pub fn wrap_i64(n: u64) -> (r: i64)
    ensures
        r == wrapped(n),
{
    if n <= i64::MAX as u64 {
        n as i64
    } else {
        (n - 0x8000_0000_0000_0000) as i64 + i64::MIN
    }
}

/// `chrono::DateTime::from_timestamp`: the instant of a second and nanoseconds,
/// if the calendar of `chrono` reaches it and the nanoseconds fit.
#[verifier::external_body]
fn from_timestamp(secs: i64, nanos: u32) -> (r: Option<Timestamp>)
    ensures
        r == (if MIN_SECS <= secs <= MAX_SECS && nanos_fit(secs as int, nanos as int) {
            Some(Timestamp { secs, nanos })
        } else {
            None::<Timestamp>
        }),
{
    chrono::DateTime::from_timestamp(secs, nanos).map(
        |t| Timestamp { secs: t.timestamp(), nanos: t.timestamp_subsec_nanos() },
    )
}

/// What `chrono` reads from the text of an RFC 3339 date and time: the second
/// and the nanoseconds.
pub uninterp spec fn rfc3339(s: Seq<char>) -> Option<(int, int)>;

/// `chrono::DateTime::parse_from_rfc3339`: the instant that an RFC 3339 text
/// names, whatever its offset from UTC. It is an instant of the calendar.
#[verifier::external_body]
fn parse_rfc3339(s: &str) -> (r: Option<Timestamp>)
    ensures
        match r {
            Some(t) => rfc3339(s@) == Some((t.secs as int, t.nanos as int)) && t.valid(),
            None => rfc3339(s@) is None,
        },
{
    chrono::DateTime::parse_from_rfc3339(s).ok().map(
        |t| Timestamp { secs: t.timestamp(), nanos: t.timestamp_subsec_nanos() },
    )
}

/// `chrono::Utc::now`: the time on the machine's clock. It is not before 1970,
/// and is no leap second.
#[verifier::external_body]
pub(crate) fn utc_now() -> (now: Timestamp)
    ensures
        0 <= now.secs <= MAX_SECS,
        now.nanos < NANOS_PER_SEC,
{
    let t = chrono::Utc::now();
    Timestamp { secs: t.timestamp(), nanos: t.timestamp_subsec_nanos() }
}

// ---------------------------------------------------------------------------
// Reading times
// ---------------------------------------------------------------------------

/// The instant of nanoseconds since 1970. Zero stands for none.
pub open spec fn instant_of_nanos(nanos: u64) -> Option<Timestamp> {
    if nanos == 0 {
        None
    } else {
        Some(Timestamp { secs: (nanos / 1_000_000_000) as i64, nanos: (nanos % 1_000_000_000) as u32 })
    }
}

/// The instant of nanoseconds since 1970, if they are set.
pub fn nano_to_dt(nanos: u64) -> (r: Option<Timestamp>)
    ensures
        r == instant_of_nanos(nanos),
        r matches Some(t) ==> t.valid() && t.nanos < NANOS_PER_SEC,
{
    if nanos == 0 {
        return None;
    }
    let secs: i64 = (nanos / 1_000_000_000) as i64;
    let nsecs: u32 = (nanos % 1_000_000_000) as u32;
    from_timestamp(secs, nsecs)
}

/// The instant that a query names.
pub open spec fn time_of(s: Seq<char>) -> Option<(int, int)> {
    match rfc3339(s) {
        Some(t) => Some(t),
        None => seconds_of(s),
    }
}

/// The instant of a whole number of seconds since 1970.
pub open spec fn seconds_of(s: Seq<char>) -> Option<(int, int)> {
    match parse_int_spec(s, true, i64::MIN as int, i64::MAX as int) {
        Some(secs) => if MIN_SECS <= secs <= MAX_SECS {
            Some((secs, 0int))
        } else {
            None
        },
        None => None,
    }
}

/// The instant that a query names in whole seconds since 1970.
pub fn parse_unix_seconds(s: &str) -> (r: Option<Timestamp>)
    ensures
        match r {
            Some(t) => seconds_of(s@) == Some((t.secs as int, t.nanos as int)) && t.valid(),
            None => seconds_of(s@) is None,
        },
{
    match parse_i64(s) {
        Some(secs) => from_timestamp(secs, 0),
        None => None,
    }
}

/// The instant that a query names: an RFC 3339 date and time, or else a whole
/// number of seconds since 1970.
pub fn parse_time(s: &str) -> (r: Option<Timestamp>)
    ensures
        match r {
            Some(t) => time_of(s@) == Some((t.secs as int, t.nanos as int)) && t.valid(),
            None => time_of(s@) is None,
        },
{
    match parse_rfc3339(s) {
        Some(t) => Some(t),
        None => parse_unix_seconds(s),
    }
}

// ---------------------------------------------------------------------------
// Stretches of time
// ---------------------------------------------------------------------------

/// The whole seconds from one instant to another, toward zero. A leap second
/// that was begun counts where the other instant is at another time of day.
pub open spec fn seconds_between(from: Timestamp, to: Timestamp) -> int {
    let f = from.secs as int % 86_400;
    let t = to.secs as int % 86_400;
    let leap: int = if t > f && from.nanos >= 1_000_000_000 {
        1
    } else if t < f && to.nanos >= 1_000_000_000 {
        -1
    } else {
        0
    };
    let nanos = (to.secs - from.secs + leap) * 1_000_000_000 + (to.nanos - from.nanos);
    if nanos >= 0 {
        nanos / 1_000_000_000
    } else {
        -((-nanos) / 1_000_000_000)
    }
}

/// The difference of two `chrono::DateTime` and its `num_seconds`: the whole
/// seconds from one instant to another.
#[verifier::external_body]
pub(crate) fn elapsed_seconds(from: Timestamp, to: Timestamp) -> (secs: i64)
    requires
        from.valid(),
        to.valid(),
    ensures
        secs == seconds_between(from, to),
{
    let a = chrono::DateTime::from_timestamp(from.secs, from.nanos).expect("within the calendar");
    let b = chrono::DateTime::from_timestamp(to.secs, to.nanos).expect("within the calendar");
    (b - a).num_seconds()
}

/// An instant less a number of seconds. A leap second counts as the second
/// behind it.
pub open spec fn secs_before(t: Timestamp, secs: int) -> (int, int) {
    if t.nanos >= 1_000_000_000 {
        (t.secs + 1 - secs, t.nanos - 1_000_000_000)
    } else {
        (t.secs - secs, t.nanos as int)
    }
}

/// How `chrono` writes an instant as an RFC 3339 time.
pub uninterp spec fn rfc3339_text(secs: int, nanos: int) -> Seq<char>;

/// `chrono::DateTime::to_rfc3339`: an instant as an RFC 3339 time in UTC.
#[verifier::external_body]
pub(crate) fn to_rfc3339(t: Timestamp) -> (s: String)
    requires
        t.valid(),
    ensures
        s@ == rfc3339_text(t.secs as int, t.nanos as int),
{
    chrono::DateTime::from_timestamp(t.secs, t.nanos).expect("within the calendar").to_rfc3339()
}

// ---------------------------------------------------------------------------
// The ingest window
// ---------------------------------------------------------------------------

/// A setting in seconds stands for a stretch of time.
pub open spec fn span_fits(secs: u64) -> bool {
    -MAX_SPAN_SECS <= wrapped(secs) <= MAX_SPAN_SECS
}

/// `ts` lies between `now` less the window and `now` plus the tolerance.
pub open spec fn in_window(ts: Timestamp, now: Timestamp, window: u64, tolerance: u64) -> bool {
    let oldest = now.secs - wrapped(window);
    let newest = now.secs + wrapped(tolerance);
    (oldest < ts.secs || (oldest == ts.secs && now.nanos <= ts.nanos)) && (ts.secs < newest || (ts.secs
        == newest && ts.nanos <= now.nanos))
}

/// Whether `ts` lies in the window around `now`.
pub fn ts_in_window_at(
    ts: Timestamp,
    now: Timestamp,
    ingest_window_secs: u64,
    future_tolerance_secs: u64,
) -> (r: bool)
    requires
        span_fits(ingest_window_secs),
        span_fits(future_tolerance_secs),
        MIN_SECS <= now.secs <= MAX_SECS,
    ensures
        r == in_window(ts, now, ingest_window_secs, future_tolerance_secs),
{
    let oldest = Timestamp { secs: now.secs - wrap_i64(ingest_window_secs), nanos: now.nanos };
    let newest = Timestamp { secs: now.secs + wrap_i64(future_tolerance_secs), nanos: now.nanos };
    oldest.le(&ts) && ts.le(&newest)
}

/// Whether `ts` lies in the window around the present.
pub fn ts_in_window(ts: Timestamp, ingest_window_secs: u64, future_tolerance_secs: u64) -> (r: bool)
    requires
        span_fits(ingest_window_secs),
        span_fits(future_tolerance_secs),
    ensures
        exists|now: Timestamp|
            0 <= now.secs <= MAX_SECS && now.nanos < NANOS_PER_SEC && r == #[trigger] in_window(
                ts,
                now,
                ingest_window_secs,
                future_tolerance_secs,
            ),
{
    let now = utc_now();
    ts_in_window_at(ts, now, ingest_window_secs, future_tolerance_secs)
}

/// A window and a tolerance that are not negative hold the present, whatever
/// the clock says.
pub proof fn law_present_in_window(now: Timestamp, window: u64, tolerance: u64)
    requires
        window <= i64::MAX,
        tolerance <= i64::MAX,
    ensures
        in_window(now, now, window, tolerance),
{
}

/// A wider window or a larger tolerance shuts nothing out.
pub proof fn law_window_grows(
    ts: Timestamp,
    now: Timestamp,
    window: u64,
    tolerance: u64,
    wider: u64,
    larger: u64,
)
    requires
        window <= wider <= i64::MAX,
        tolerance <= larger <= i64::MAX,
        in_window(ts, now, window, tolerance),
    ensures
        in_window(ts, now, wider, larger),
{
}

/// The instant of nanoseconds since 1970 is that many nanoseconds after 1970;
/// only zero has none.
pub proof fn law_instant_keeps_its_nanoseconds(nanos: u64)
    ensures
        instant_of_nanos(nanos) is None <==> nanos == 0,
        instant_of_nanos(nanos) matches Some(t) ==> t.secs * 1_000_000_000 + t.nanos == nanos && t.nanos
            < 1_000_000_000,
{
}

/// An instant in nanoseconds since 1970.
pub open spec fn total_nanos(t: Timestamp) -> int {
    t.secs * 1_000_000_000 + t.nanos
}

/// The window reaches from as long ago as it says up to as far ahead as the
/// tolerance says, both ends included.
pub proof fn law_window_is_an_interval(ts: Timestamp, now: Timestamp, window: u64, tolerance: u64)
    requires
        ts.nanos < 1_000_000_000,
        now.nanos < 1_000_000_000,
        window <= i64::MAX,
        tolerance <= i64::MAX,
    ensures
        in_window(ts, now, window, tolerance) <==> total_nanos(now) - window * 1_000_000_000 <= total_nanos(ts)
            <= total_nanos(now) + tolerance * 1_000_000_000,
{
}

/// The whole seconds between two instants without leap seconds are the
/// nanoseconds between them, divided, with the rest left out.
pub proof fn law_seconds_between(from: Timestamp, to: Timestamp)
    requires
        from.nanos < 1_000_000_000,
        to.nanos < 1_000_000_000,
        total_nanos(from) <= total_nanos(to),
    ensures
        ({
            let s = seconds_between(from, to);
            s * 1_000_000_000 <= total_nanos(to) - total_nanos(from) < (s + 1) * 1_000_000_000
        }),
{
}

/// A whole number of seconds since 1970, written in decimal, names the instant of
/// that second, if the calendar reaches it.
pub proof fn law_seconds_read_back(secs: i64)
    ensures
        MIN_SECS <= secs <= MAX_SECS ==> seconds_of(decimal_int(secs as int)) == Some((secs as int, 0int)),
        !(MIN_SECS <= secs <= MAX_SECS) ==> seconds_of(decimal_int(secs as int)) is None,
{
    law_integers_read_back(secs as int, true, i64::MIN as int, i64::MAX as int);
}

/// Reading an unsigned number as a signed one changes it by a multiple of 2^64, to
/// one that fits.
pub proof fn law_wrapping_keeps_the_bits(n: u64)
    ensures
        i64::MIN <= wrapped(n) <= i64::MAX,
        wrapped(n) == n || wrapped(n) + 0x1_0000_0000_0000_0000 == n,
        n <= i64::MAX ==> wrapped(n) == n,
{
}

/// An instant less a number of seconds lies that many seconds before it.
pub proof fn law_seconds_before(t: Timestamp, secs: int)
    requires
        t.nanos < 2_000_000_000,
    ensures
        ({
            let r = secs_before(t, secs);
            r.0 * 1_000_000_000 + r.1 == total_nanos(t) - secs * 1_000_000_000 && 0 <= r.1 < 1_000_000_000
        }),
{
}

/// Of two instants one is no later than the other, and both are only where they are
/// the same.
pub proof fn law_instants_are_ordered(a: Timestamp, b: Timestamp)
    ensures
        a.at_most(b) || b.at_most(a),
        a.at_most(b) && b.at_most(a) ==> a == b,
        a.nanos < 1_000_000_000 && b.nanos < 1_000_000_000 ==> (a.at_most(b) <==> total_nanos(a) <= total_nanos(b)),
{
}

} // verus!
