//! Monthly partitions: names, ranges, and which of them have expired.
//!
//! Each partitioned table has one child per month, named
//! `<table>_y<YYYY>m<MM>`, that covers the month from its first instant up to
//! the first instant of the next.

use vstd::prelude::*;

use crate::text::{
    chars_of, decimal, find_char, first_index, is_digit, last_pair, lemma_decimal,
    lemma_first_index, lemma_last_pair, lemma_leading_zeros, padded, parse_i32, parse_int_spec,
    parse_u32, push_padded, rfind_pair, string_of, zeros,
};
use crate::time::{Timestamp, MAX_SECS, MIN_SECS};

verus! {

/// The first year of the calendar.
pub const MIN_YEAR: i32 = -262_143;

/// The last year of the calendar.
pub const MAX_YEAR: i32 = 262_142;

/// A month of the calendar.
pub open spec fn valid_month(year: int, month: int) -> bool {
    MIN_YEAR <= year <= MAX_YEAR && 1 <= month <= 12
}

pub open spec fn leap_year(year: int) -> bool {
    year % 4 == 0 && (year % 100 != 0 || year % 400 == 0)
}

/// The days from 0001-01-01 to the first day of a year.
pub open spec fn days_before_year(year: int) -> int {
    365 * (year - 1) + (year - 1) / 4 - (year - 1) / 100 + (year - 1) / 400
}

/// The days of a year before the first day of a month.
pub open spec fn days_before_month(year: int, month: int) -> int {
    let leap: int = if leap_year(year) {
        1
    } else {
        0
    };
    if month <= 1 {
        0
    } else if month == 2 {
        31
    } else if month == 3 {
        59 + leap
    } else if month == 4 {
        90 + leap
    } else if month == 5 {
        120 + leap
    } else if month == 6 {
        151 + leap
    } else if month == 7 {
        181 + leap
    } else if month == 8 {
        212 + leap
    } else if month == 9 {
        243 + leap
    } else if month == 10 {
        273 + leap
    } else if month == 11 {
        304 + leap
    } else {
        334 + leap
    }
}

/// The second at which a month starts.
pub open spec fn start_secs(year: int, month: int) -> int {
    86_400 * (days_before_year(year) + days_before_month(year, month) - 719_162)
}

/// The month behind a month.
pub open spec fn following(year: int, month: int) -> (int, int) {
    if month == 12 {
        (year + 1, 1int)
    } else {
        (year, month + 1)
    }
}

/// The second at which the month behind a month starts.
pub open spec fn end_secs(year: int, month: int) -> int {
    start_secs(following(year, month).0, following(year, month).1)
}

/// The first instant of a month.
#[derive(Clone, Copy, Debug, PartialEq, Eq, Structural)]
pub struct MonthStart {
    year: i32,
    month: u32,
    at: Timestamp,
}

impl MonthStart {
    pub closed spec fn spec_year(self) -> int {
        self.year as int
    }

    pub closed spec fn spec_month(self) -> int {
        self.month as int
    }

    pub closed spec fn spec_at(self) -> Timestamp {
        self.at
    }

    /// The instant is the start of the month.
    pub open spec fn well_formed(self) -> bool {
        &&& valid_month(self.spec_year(), self.spec_month())
        &&& self.spec_at().secs == start_secs(self.spec_year(), self.spec_month())
        &&& self.spec_at().nanos == 0
    }

    pub fn year(&self) -> (r: i32)
        ensures
            r == self.spec_year(),
    {
        self.year
    }

    pub fn month(&self) -> (r: u32)
        ensures
            r == self.spec_month(),
    {
        self.month
    }

    /// The day of the month: the first.
    pub fn day(&self) -> (r: u32)
        ensures
            r == 1,
    {
        1
    }

    pub fn at(&self) -> (r: Timestamp)
        ensures
            r == self.spec_at(),
    {
        self.at
    }
}

/// `chrono::NaiveDate::from_ymd_opt` at midnight UTC: the second at which a
/// month of the proleptic Gregorian calendar starts.
#[verifier::external_body]
fn month_start_secs(year: i32, month: u32) -> (secs: i64)
    requires
        valid_month(year as int, month as int),
    ensures
        secs == start_secs(year as int, month as int),
{
    chrono::NaiveDate::from_ymd_opt(year, month, 1).expect("valid year/month").and_hms_opt(0, 0, 0).expect(
        "midnight is valid",
    ).and_utc().timestamp()
}

/// `chrono::DateTime::year` and `month`: the month that an instant lies in.
#[verifier::external_body]
fn month_of_secs(secs: i64) -> (r: (i32, u32))
    requires
        MIN_SECS <= secs <= MAX_SECS,
    ensures
        valid_month(r.0 as int, r.1 as int),
        start_secs(r.0 as int, r.1 as int) <= secs < end_secs(r.0 as int, r.1 as int),
{
    let t = chrono::DateTime::from_timestamp(secs, 0).expect("within the calendar");
    (chrono::Datelike::year(&t), chrono::Datelike::month(&t))
}

/// How a year stands in a date: four digits from 0 to 9999, otherwise with a
/// sign.
pub open spec fn year_text(year: int) -> Seq<char> {
    if 0 <= year <= 9999 {
        padded(year, 4)
    } else if year > 9999 {
        seq!['+'] + decimal(year as nat)
    } else {
        padded(year, 5)
    }
}

/// The date of the first day of a month.
pub open spec fn first_day_text(year: int, month: int) -> Seq<char> {
    year_text(year) + seq!['-'] + padded(month, 2) + "-01"@
}

/// `chrono::NaiveDate::format` with `%Y-%m-%d`: the date of the first day of a
/// month.
#[verifier::external_body]
fn first_day(year: i32, month: u32) -> (s: String)
    requires
        valid_month(year as int, month as int),
    ensures
        s@ == first_day_text(year as int, month as int),
{
    chrono::NaiveDate::from_ymd_opt(year, month, 1).expect("valid year/month").format("%Y-%m-%d").to_string()
}

/// Whether a year and a month are a month of the calendar.
pub fn is_valid_month(year: i32, month: u32) -> (r: bool)
    ensures
        r == valid_month(year as int, month as int),
{
    MIN_YEAR <= year && year <= MAX_YEAR && 1 <= month && month <= 12
}

/// The first instant of a month.
pub fn month_start(year: i32, month: u32) -> (r: MonthStart)
    requires
        valid_month(year as int, month as int),
    ensures
        r.well_formed(),
        r.spec_year() == year,
        r.spec_month() == month,
{
    MonthStart { year, month, at: Timestamp { secs: month_start_secs(year, month), nanos: 0 } }
}

/// The first instant of the month behind a month.
pub fn advance_month(t: MonthStart) -> (r: MonthStart)
    requires
        t.well_formed(),
        valid_month(following(t.spec_year(), t.spec_month()).0, 1),
    ensures
        r.well_formed(),
        (r.spec_year(), r.spec_month()) == following(t.spec_year(), t.spec_month()),
{
    if t.month == 12 {
        month_start(t.year + 1, 1)
    } else {
        month_start(t.year, t.month + 1)
    }
}

/// The first instant of the month behind the given one.
pub fn next_month(year: i32, month: u32) -> (r: MonthStart)
    requires
        valid_month(year as int, month as int),
        valid_month(following(year as int, month as int).0, 1),
    ensures
        r.well_formed(),
        (r.spec_year(), r.spec_month()) == following(year as int, month as int),
{
    advance_month(month_start(year, month))
}

// ---------------------------------------------------------------------------
// Names
// ---------------------------------------------------------------------------

/// The name of the partition of a table for a month.
pub open spec fn name_of(table: Seq<char>, year: int, month: int) -> Seq<char> {
    table + "_y"@ + padded(year, 4) + seq!['m'] + padded(month, 2)
}

/// The name of the partition of a table for a month.
pub fn partition_name(table: &str, year: i32, month: u32) -> (s: String)
    ensures
        s@ == name_of(table@, year as int, month as int),
{
    let mut s = table.to_owned();
    s.push_str("_y");
    push_padded(&mut s, year as i64, 4);
    s.push('m');
    push_padded(&mut s, month as i64, 2);
    assert(s@ =~= name_of(table@, year as int, month as int));
    s
}

/// The year and the month in the name of a partition: what stands between the
/// last `_y` and the next `m`, and what stands behind that.
pub open spec fn month_in_name(name: Seq<char>) -> Option<(int, int)> {
    let p = last_pair(name, '_', 'y');
    let suffix = name.skip(p + 2);
    let q = first_index(suffix, 'm');
    if p < 0 || q == suffix.len() {
        None
    } else {
        match (
            parse_int_spec(suffix.take(q), true, i32::MIN as int, i32::MAX as int),
            parse_int_spec(suffix.skip(q + 1), false, 0, u32::MAX as int),
        ) {
            (Some(year), Some(month)) => Some((year, month)),
            _ => None,
        }
    }
}

/// The year and the month in the name of a partition, if it has the form of
/// one.
pub fn parse_partition_ym(name: &str) -> (r: Option<(i32, u32)>)
    ensures
        match r {
            Some((year, month)) => month_in_name(name@) == Some((year as int, month as int)),
            None => month_in_name(name@) is None,
        },
{
    let cs = chars_of(name);
    match rfind_pair(&cs, '_', 'y') {
        None => None,
        Some(p) => {
            let from: usize = p + 2;
            let at: usize = find_char(&cs, from, 'm');
            let ghost suffix = name@.skip(from as int);
            if at == cs.len() {
                return None;
            }
            let y = string_of(&cs, from, at);
            let m = string_of(&cs, at + 1, cs.len());
            assert(y@ =~= suffix.take(at - from));
            assert(m@ =~= suffix.skip(at - from + 1));
            match (parse_i32(y.as_str()), parse_u32(m.as_str())) {
                (Some(year), Some(month)) => Some((year, month)),
                _ => None,
            }
        },
    }
}

/// A padded number reads back.
proof fn lemma_padded_reads(n: int, width: int, signed: bool, lo: int, hi: int)
    requires
        lo <= n <= hi,
        n < 0 ==> signed,
    ensures
        parse_int_spec(padded(n, width), signed, lo, hi) == Some(n),
        forall|i: int|
            0 <= i < padded(n, width).len() ==> is_digit(#[trigger] padded(n, width)[i]) || padded(n, width)[i] == '-',
{
    let m: nat = if n < 0 {
        (-n) as nat
    } else {
        n as nat
    };
    let k = if n < 0 {
        width - 1 - decimal(m).len()
    } else {
        width - decimal(m).len()
    };
    let s = padded(n, width);
    let body = zeros(k) + decimal(m);
    lemma_decimal(m);
    lemma_leading_zeros(k, decimal(m));
    if n < 0 {
        assert(s =~= seq!['-'] + body);
        assert(s.skip(1) =~= body);
        assert forall|i: int| 0 <= i < s.len() implies is_digit(#[trigger] s[i]) || s[i] == '-' by {
            if i > 0 {
                assert(s[i] == body[i - 1]);
            }
        }
    } else {
        assert(s =~= body);
        assert(is_digit(s[0]));
    }
}

/// The name of a partition gives back its month, whatever the table.
pub proof fn law_name_gives_back_month(table: Seq<char>, year: i32, month: u32)
    ensures
        month_in_name(name_of(table, year as int, month as int)) == Some((year as int, month as int)),
{
    let y = padded(year as int, 4);
    let m = padded(month as int, 2);
    let name = name_of(table, year as int, month as int);
    lemma_padded_reads(year as int, 4, true, i32::MIN as int, i32::MAX as int);
    lemma_padded_reads(month as int, 2, false, 0, u32::MAX as int);
    reveal_strlit("_y");
    let p = table.len() as int;
    assert(name[p] == '_' && name[p + 1] == 'y');
    assert forall|i: int| p < i < name.len() - 1 implies !(#[trigger] name[i] == '_' && name[i + 1] == 'y') by {
        if i >= p + 2 && i < p + 2 + y.len() {
            assert(name[i] == y[i - p - 2]);
        } else if i > p + 2 + y.len() {
            assert(name[i] == m[i - p - 3 - y.len()]);
        }
    }
    lemma_last_pair(name, '_', 'y', p);
    let suffix = name.skip(p + 2);
    assert(suffix =~= y + seq!['m'] + m);
    assert forall|i: int| 0 <= i < y.len() implies suffix[i] != 'm' by {
        assert(suffix[i] == y[i]);
    }
    lemma_first_index(suffix, 'm', y.len() as int);
    assert(suffix.take(y.len() as int) =~= y);
    assert(suffix.skip(y.len() as int + 1) =~= m);
}

// ---------------------------------------------------------------------------
// Creating partitions
// ---------------------------------------------------------------------------

/// The statement that creates a partition if it does not exist.
pub open spec fn create_sql(table: Seq<char>, year: int, month: int) -> Seq<char> {
    let next = following(year, month);
    "CREATE TABLE IF NOT EXISTS soma_observe.\""@ + name_of(table, year, month)
        + "\"\n           PARTITION OF soma_observe.\""@ + table + "\"\n           FOR VALUES FROM ('"@
        + first_day_text(year, month) + "') TO ('"@ + first_day_text(next.0, next.1) + "')"@
}

/// A partition to create.
pub struct NewPartition {
    pub name: String,
    pub sql: String,
}

/// The partition of a table for the month from `from` up to `to`.
pub fn create_partition(table: &str, from: MonthStart, to: MonthStart) -> (r: NewPartition)
    requires
        from.well_formed(),
        to.well_formed(),
        (to.spec_year(), to.spec_month()) == following(from.spec_year(), from.spec_month()),
    ensures
        r.name@ == name_of(table@, from.spec_year(), from.spec_month()),
        r.sql@ == create_sql(table@, from.spec_year(), from.spec_month()),
{
    let name = partition_name(table, from.year, from.month);
    let mut sql = "CREATE TABLE IF NOT EXISTS soma_observe.\"".to_owned();
    sql.push_str(name.as_str());
    sql.push_str("\"\n           PARTITION OF soma_observe.\"");
    sql.push_str(table);
    sql.push_str("\"\n           FOR VALUES FROM ('");
    sql.push_str(first_day(from.year, from.month).as_str());
    sql.push_str("') TO ('");
    sql.push_str(first_day(to.year, to.month).as_str());
    sql.push_str("')");
    NewPartition { name, sql }
}

/// The tables that are partitioned by month.
pub open spec fn table_name(i: int) -> Seq<char> {
    if i == 0 {
        "metric_point"@
    } else if i == 1 {
        "metric_histogram_point"@
    } else if i == 2 {
        "logs"@
    } else {
        "spans"@
    }
}

/// The tables that are partitioned by month.
pub fn partitioned_tables() -> (r: Vec<&'static str>)
    ensures
        r@.len() == 4,
        forall|i: int| 0 <= i < 4 ==> (#[trigger] r@[i])@ == table_name(i),
{
    let mut r: Vec<&'static str> = Vec::new();
    r.push("metric_point");
    r.push("metric_histogram_point");
    r.push("logs");
    r.push("spans");
    r
}

/// A partition is the one of a table for a month.
pub open spec fn partition_for(p: NewPartition, table: Seq<char>, month: (int, int)) -> bool {
    p.name@ == name_of(table, month.0, month.1) && p.sql@ == create_sql(table, month.0, month.1)
}

/// The partitions, table by table, are those for the month that starts at
/// `(year, month)` and for the next.
pub open spec fn partitions_for(ps: Seq<NewPartition>, year: int, month: int) -> bool {
    ps.len() == 8 && forall|t: int|
        0 <= t < 4 ==> partition_for(ps[2 * t], #[trigger] table_name(t), (year, month)) && partition_for(
            ps[2 * t + 1],
            table_name(t),
            following(year, month),
        )
}

/// A year has 365 days, or 366.
proof fn lemma_year_step(year: int)
    ensures
        days_before_year(year + 1) - days_before_year(year) == (if leap_year(year) {
            366int
        } else {
            365int
        }),
{
}

/// Years follow each other.
proof fn lemma_years_rise(a: int, b: int)
    requires
        a <= b,
    ensures
        days_before_year(b) - days_before_year(a) >= 365 * (b - a),
    decreases b - a,
{
    if a < b {
        lemma_years_rise(a, b - 1);
        lemma_year_step(b - 1);
    }
}

/// An earlier month ends no later than a later one starts.
proof fn lemma_months_rise(y1: int, m1: int, y2: int, m2: int)
    requires
        1 <= m1 <= 12,
        1 <= m2 <= 12,
        y1 < y2 || (y1 == y2 && m1 < m2),
    ensures
        end_secs(y1, m1) <= start_secs(y2, m2),
{
    lemma_year_step(y1);
    if y1 < y2 {
        lemma_years_rise(y1 + 1, y2);
    }
}

/// A month ends after it starts.
proof fn lemma_month_has_days(year: int, month: int)
    requires
        1 <= month <= 12,
    ensures
        start_secs(year, month) < end_secs(year, month),
{
    lemma_year_step(year);
}

/// The partitions that must exist at `now`: those for the month of `now` and
/// for the next, of every partitioned table.
pub fn ensure_partitions(now: Timestamp) -> (r: Vec<NewPartition>)
    requires
        MIN_SECS <= now.secs,
        now.secs < start_secs(MAX_YEAR as int, 11),
    ensures
        exists|year: int, month: int|
            valid_month(year, month) && start_secs(year, month) <= now.secs < end_secs(year, month)
                && #[trigger] partitions_for(r@, year, month),
{
    proof {
        lemma_months_rise(MAX_YEAR as int, 11, MAX_YEAR as int, 12);
        assert(start_secs(MAX_YEAR as int, 12) <= MAX_SECS);
    }
    let (year, month) = month_of_secs(now.secs);
    proof {
        if year == MAX_YEAR && month >= 11 {
            if month == 12 {
                lemma_month_has_days(MAX_YEAR as int, 11);
                lemma_months_rise(MAX_YEAR as int, 11, year as int, month as int);
            }
            assert(false);
        }
    }
    let first = month_start(year, month);
    let second = next_month(year, month);
    let third = advance_month(second);
    let tables = partitioned_tables();
    let mut r: Vec<NewPartition> = Vec::new();
    let mut t: usize = 0;
    while t < tables.len()
        invariant
            t <= 4,
            tables@.len() == 4,
            forall|i: int| 0 <= i < 4 ==> (#[trigger] tables@[i])@ == table_name(i),
            first.well_formed(),
            second.well_formed(),
            third.well_formed(),
            first.spec_year() == year && first.spec_month() == month,
            (second.spec_year(), second.spec_month()) == following(year as int, month as int),
            (third.spec_year(), third.spec_month()) == following(second.spec_year(), second.spec_month()),
            r@.len() == 2 * t,
            forall|i: int|
                0 <= i < t ==> partition_for(
                    r@[2 * i],
                    #[trigger] table_name(i),
                    (year as int, month as int),
                ) && partition_for(r@[2 * i + 1], table_name(i), following(year as int, month as int)),
        decreases 4 - t,
    {
        assert(tables@[t as int]@ == table_name(t as int));
        let ghost before = r@;
        r.push(create_partition(tables[t], first, second));
        r.push(create_partition(tables[t], second, third));
        assert(r@[2 * t as int] == r@[before.len() as int]);
        assert(forall|i: int| 0 <= i < before.len() ==> r@[i] == before[i]);
        t += 1;
    }
    assert(partitions_for(r@, year as int, month as int));
    r
}

// ---------------------------------------------------------------------------
// Dropping partitions
// ---------------------------------------------------------------------------

/// What becomes of a partition.
#[derive(Clone, Copy, Debug, PartialEq, Eq, Structural)]
pub enum PartitionFate {
    /// The name is not that of a monthly partition.
    Unrecognized,
    /// Some of its range is within the retention.
    Kept,
    /// Its whole range is older than the retention.
    Expired,
}

/// The second before which everything has expired.
pub open spec fn cutoff_secs(now: Timestamp, retention_days: u32) -> int {
    now.secs - 86_400 * retention_days
}

/// What becomes of a partition at `now`.
pub open spec fn fate(name: Seq<char>, now: Timestamp, retention_days: u32) -> PartitionFate {
    match month_in_name(name) {
        None => PartitionFate::Unrecognized,
        Some((year, month)) => if end_secs(year, month) <= cutoff_secs(now, retention_days) {
            PartitionFate::Expired
        } else {
            PartitionFate::Kept
        },
    }
}

/// The name, if it has a month, has one of the calendar, and so is the next.
pub open spec fn name_on_calendar(name: Seq<char>) -> bool {
    match month_in_name(name) {
        None => true,
        Some((year, month)) => valid_month(year, month) && following(year, month).0 <= MAX_YEAR,
    }
}

/// Whether the name, if it has a month, has one of the calendar, and so is the
/// next.
pub fn is_on_calendar(name: &str) -> (r: bool)
    ensures
        r == name_on_calendar(name@),
{
    match parse_partition_ym(name) {
        None => true,
        Some((year, month)) => is_valid_month(year, month) && (year < MAX_YEAR || month < 12),
    }
}

/// What becomes of a partition at `now`: it has expired when its whole range,
/// up to the start of the next month, is no later than the retention allows.
pub fn partition_fate(name: &str, now: Timestamp, retention_days: u32) -> (r: PartitionFate)
    requires
        name_on_calendar(name@),
        MIN_SECS <= cutoff_secs(now, retention_days),
    ensures
        r == fate(name@, now, retention_days),
{
    match parse_partition_ym(name) {
        None => PartitionFate::Unrecognized,
        Some((year, month)) => {
            let partition_end = advance_month(month_start(year, month));
            let cutoff = Timestamp { secs: now.secs - 86_400 * (retention_days as i64), nanos: now.nanos };
            if partition_end.at.le(&cutoff) {
                PartitionFate::Expired
            } else {
                PartitionFate::Kept
            }
        },
    }
}

/// The statement that drops a partition.
pub fn drop_sql(partition: &str) -> (s: String)
    ensures
        s@ == "DROP TABLE IF EXISTS soma_observe.\""@ + partition@ + "\""@,
{
    let mut s = "DROP TABLE IF EXISTS soma_observe.\"".to_owned();
    s.push_str(partition);
    s.push_str("\"");
    s
}

/// How many days each partitioned table keeps.
pub open spec fn retention_of(table: int, metrics: u32, logs: u32, traces: u32) -> u32 {
    if table <= 1 {
        metrics
    } else if table == 2 {
        logs
    } else {
        traces
    }
}

/// The partitioned tables with the days that each keeps: both metric tables
/// those of metrics, logs and spans their own.
pub fn retention_plan(
    metrics_retention_days: u32,
    logs_retention_days: u32,
    traces_retention_days: u32,
) -> (r: Vec<(&'static str, u32)>)
    ensures
        r@.len() == 4,
        forall|i: int|
            0 <= i < 4 ==> (#[trigger] r@[i]).0@ == table_name(i) && r@[i].1 == retention_of(
                i,
                metrics_retention_days,
                logs_retention_days,
                traces_retention_days,
            ),
{
    let mut r: Vec<(&'static str, u32)> = Vec::new();
    r.push(("metric_point", metrics_retention_days));
    r.push(("metric_histogram_point", metrics_retention_days));
    r.push(("logs", logs_retention_days));
    r.push(("spans", traces_retention_days));
    r
}

/// A partition that covers an instant no older than the retention is kept: no
/// record within the retention is ever dropped.
pub proof fn law_retained_is_kept(table: Seq<char>, year: i32, month: u32, ts: int, now: Timestamp, retention_days: u32)
    requires
        valid_month(year as int, month as int),
        start_secs(year as int, month as int) <= ts < end_secs(year as int, month as int),
        cutoff_secs(now, retention_days) <= ts,
    ensures
        fate(name_of(table, year as int, month as int), now, retention_days) == PartitionFate::Kept,
{
    law_name_gives_back_month(table, year, month);
}

/// A partition whose last second is older than the retention is dropped.
pub proof fn law_expired_is_dropped(table: Seq<char>, year: i32, month: u32, now: Timestamp, retention_days: u32)
    requires
        valid_month(year as int, month as int),
        end_secs(year as int, month as int) - 1 < cutoff_secs(now, retention_days),
    ensures
        fate(name_of(table, year as int, month as int), now, retention_days) == PartitionFate::Expired,
{
    law_name_gives_back_month(table, year, month);
}

/// What has expired stays expired as time passes.
pub proof fn law_expiry_is_final(name: Seq<char>, now: Timestamp, later: Timestamp, retention_days: u32)
    requires
        now.at_most(later),
        fate(name, now, retention_days) == PartitionFate::Expired,
    ensures
        fate(name, later, retention_days) == PartitionFate::Expired,
{
}

/// Consecutive months leave no gap and do not overlap.
pub proof fn law_months_adjoin(year: int, month: int)
    requires
        1 <= month <= 12,
    ensures
        start_secs(year, month) < end_secs(year, month),
        end_secs(year, month) == start_secs(following(year, month).0, following(year, month).1),
{
    lemma_month_has_days(year, month);
}

/// An instant lies in one month only.
pub proof fn law_one_month(y1: int, m1: int, y2: int, m2: int, secs: int)
    requires
        1 <= m1 <= 12,
        1 <= m2 <= 12,
        start_secs(y1, m1) <= secs < end_secs(y1, m1),
        start_secs(y2, m2) <= secs < end_secs(y2, m2),
    ensures
        y1 == y2 && m1 == m2,
{
    if y1 < y2 || (y1 == y2 && m1 < m2) {
        lemma_months_rise(y1, m1, y2, m2);
    } else if y2 < y1 || (y1 == y2 && m2 < m1) {
        lemma_months_rise(y2, m2, y1, m1);
    }
}

/// Four tables are partitioned, each of another name: those of metrics keep what
/// is set for metrics, that of logs what is set for logs, and that of spans what is
/// set for traces.
pub proof fn law_tables_keep_what_is_set(i: int, j: int, metrics: u32, logs: u32, traces: u32)
    requires
        0 <= i < 4,
        0 <= j < 4,
    ensures
        table_name(i) == table_name(j) ==> i == j,
        table_name(i) == "metric_point"@ || table_name(i) == "metric_histogram_point"@ ==> retention_of(
            i,
            metrics,
            logs,
            traces,
        ) == metrics,
        table_name(i) == "logs"@ ==> retention_of(i, metrics, logs, traces) == logs,
        table_name(i) == "spans"@ ==> retention_of(i, metrics, logs, traces) == traces,
        ["metric_point"@, "metric_histogram_point"@, "logs"@, "spans"@]@.contains(table_name(i)),
{
    reveal_strlit("metric_point");
    reveal_strlit("metric_histogram_point");
    reveal_strlit("logs");
    reveal_strlit("spans");
    assert("metric_point"@.len() == 12 && "metric_histogram_point"@.len() == 22 && "logs"@.len() == 4 && "spans"@.len()
        == 5);
    let names = ["metric_point"@, "metric_histogram_point"@, "logs"@, "spans"@]@;
    assert(names[0] == "metric_point"@ && names[1] == "metric_histogram_point"@ && names[2] == "logs"@ && names[3]
        == "spans"@);
}

/// A partition that is created is that of its table for its month: it has the name
/// of both, and takes what lies from the first day of the month up to the first day
/// of the next.
pub proof fn law_partition_covers_its_month(table: Seq<char>, year: int, month: int)
    requires
        1 <= month <= 12,
    ensures
        ({
            let next = if month < 12 {
                (year, month + 1)
            } else {
                (year + 1, 1int)
            };
            create_sql(table, year, month) == ("CREATE TABLE IF NOT EXISTS soma_observe.\""@ + name_of(
                table,
                year,
                month,
            ) + "\"\n           PARTITION OF soma_observe.\""@ + table) + ("\"\n           FOR VALUES FROM ('"@
                + first_day_text(year, month) + "') TO ('"@ + first_day_text(next.0, next.1) + "')"@)
        }),
{
    let next = following(year, month);
    assert(create_sql(table, year, month) =~= ("CREATE TABLE IF NOT EXISTS soma_observe.\""@ + name_of(
        table,
        year,
        month,
    ) + "\"\n           PARTITION OF soma_observe.\""@ + table) + ("\"\n           FOR VALUES FROM ('"@ + first_day_text(
        year,
        month,
    ) + "') TO ('"@ + first_day_text(next.0, next.1) + "')"@));
}

/// Partitions of different tables or months have different names, and each name
/// starts with that of its table.
pub proof fn law_names_tell_partitions_apart(a: Seq<char>, y1: i32, m1: u32, b: Seq<char>, y2: i32, m2: u32)
    ensures
        name_of(a, y1 as int, m1 as int) == name_of(b, y2 as int, m2 as int) ==> y1 == y2 && m1 == m2 && a == b,
        name_of(a, y1 as int, m1 as int).take(a.len() as int) == a,
{
    let x = name_of(a, y1 as int, m1 as int);
    let y = name_of(b, y2 as int, m2 as int);
    law_name_gives_back_month(a, y1, m1);
    law_name_gives_back_month(b, y2, m2);
    assert(x.take(a.len() as int) =~= a);
    assert(y.take(b.len() as int) =~= b);
    if x == y {
        assert(a.len() == b.len());
    }
}

/// The partitions that must exist are those of every table, for the month and for
/// the next.
pub proof fn law_every_table_has_its_partitions(ps: Seq<NewPartition>, year: int, month: int, t: int)
    requires
        partitions_for(ps, year, month),
        0 <= t < 4,
    ensures
        exists|i: int|
            0 <= i < ps.len() && (#[trigger] ps[i]).name@ == name_of(table_name(t), year, month) && ps[i].sql@ == create_sql(
                table_name(t),
                year,
                month,
            ),
        exists|i: int|
            0 <= i < ps.len() && (#[trigger] ps[i]).name@ == name_of(
                table_name(t),
                following(year, month).0,
                following(year, month).1,
            ) && ps[i].sql@ == create_sql(table_name(t), following(year, month).0, following(year, month).1),
{
    assert(partition_for(ps[2 * t], table_name(t), (year, month)));
    assert(partition_for(ps[2 * t + 1], table_name(t), following(year, month)));
}

/// The month behind a month is the next of the calendar.
pub proof fn law_months_follow(year: int, month: int)
    requires
        1 <= month <= 12,
    ensures
        ({
            let next = following(year, month);
            &&& 1 <= next.1 <= 12
            &&& 12 * next.0 + next.1 == 12 * year + month + 1
        }),
{
}

/// A name that tells no month is no reason to stop, and one that tells a month is
/// followed only where that month and the next are on the calendar.
pub proof fn law_names_on_the_calendar(name: Seq<char>)
    ensures
        month_in_name(name) is None ==> name_on_calendar(name),
        month_in_name(name) matches Some((year, month)) ==> (name_on_calendar(name) ==> 1 <= month <= 12 && year
            <= MAX_YEAR),
{
}

} // verus!
