//! Metric queries: what is asked of the store, and how its rows become the
//! answer.

use vstd::prelude::*;

use crate::float::{int_double, int_double_bits, law_integers_have_bits};
use crate::ingest::batch::{counter_rise, stored_value};
use crate::ingest::metrics::{monotonicity, ItemView};
use crate::json::{lemma_array_view, opt_json, views, Json, JsonNumber, JsonView, NumberView};
use crate::query::filter::{asks_for, can_be_written, filter_text, law_filter_can_be_looked_up, parse_filter, wanted, Pair};
use crate::query::range::{instant, parse_range, range_of, with_message, TimeRange};
use crate::store::schema::PointValue;
use crate::text::{opt_text, str_eq};
use crate::time::{time_of, Timestamp, MAX_SECS, MAX_SPAN_SECS, MIN_SECS};

verus! {

/// The parameters of a metric query.
pub struct MetricsQueryParams {
    /// The name of the metric.
    pub name: String,
    /// The start, as an RFC 3339 time or in seconds since 1970.
    pub start: String,
    /// The end, in the same forms.
    pub end: String,
    /// The length of a bucket in seconds.
    pub step: Option<i64>,
    /// The attributes asked for.
    pub filter: Option<String>,
    /// How the values of a bucket are aggregated.
    pub agg: Option<String>,
}

/// The parameters of a query for the series of a metric.
pub struct SeriesParams {
    pub name: String,
}

/// The names of all metrics.
pub struct MetricNamesResponse {
    pub names: Vec<String>,
}

/// A series of a metric.
pub struct MetricSeriesItem {
    pub series_id: i64,
    pub name: String,
    pub kind: String,
    pub unit: Option<String>,
    pub resource: Json,
    pub attributes: Json,
}

// ---------------------------------------------------------------------------
// Aggregation
// ---------------------------------------------------------------------------

/// The names of the aggregations.
pub open spec fn is_agg(s: Seq<char>) -> bool {
    s == "sum"@ || s == "avg"@ || s == "min"@ || s == "max"@ || s == "count"@
}

/// The aggregation that is asked for: the average where none is named.
pub open spec fn agg_asked(agg: Option<&str>) -> Seq<char> {
    match agg {
        Some(a) => a@,
        None => "avg"@,
    }
}

/// The aggregation that is asked for, if there is one of that name.
pub fn parse_agg(agg: Option<&str>) -> (r: Result<&'static str, &'static str>)
    ensures
        match r {
            Ok(a) => a@ == agg_asked(agg) && is_agg(a@),
            Err(m) => !is_agg(agg_asked(agg)) && m@ == "agg must be one of: sum, avg, min, max, count"@,
        },
{
    let asked = match agg {
        Some(a) => a,
        None => "avg",
    };
    if str_eq(asked, "sum") {
        Ok("sum")
    } else if str_eq(asked, "avg") {
        Ok("avg")
    } else if str_eq(asked, "min") {
        Ok("min")
    } else if str_eq(asked, "max") {
        Ok("max")
    } else if str_eq(asked, "count") {
        Ok("count")
    } else {
        Err("agg must be one of: sum, avg, min, max, count")
    }
}

/// The SQL expression of an aggregation: that of the average where there is
/// none of that name.
pub open spec fn agg_expr(agg: Seq<char>) -> Seq<char> {
    if agg == "sum"@ {
        "SUM(mp.value)"@
    } else if agg == "min"@ {
        "MIN(mp.value)"@
    } else if agg == "max"@ {
        "MAX(mp.value)"@
    } else if agg == "count"@ {
        "COUNT(mp.value)"@
    } else {
        "AVG(mp.value)"@
    }
}

proof fn lemma_agg_names_differ()
    ensures
        "sum"@ != "avg"@,
        "min"@ != "avg"@,
        "max"@ != "avg"@,
        "count"@ != "avg"@,
{
    reveal_strlit("sum");
    reveal_strlit("avg");
    reveal_strlit("min");
    reveal_strlit("max");
    reveal_strlit("count");
    assert("sum"@[0] != "avg"@[0]);
    assert("min"@[0] != "avg"@[0]);
    assert("max"@[0] != "avg"@[0]);
    assert("count"@[0] != "avg"@[0]);
}

/// The SQL expression of an aggregation.
pub fn agg_sql(agg: &str) -> (r: &'static str)
    ensures
        r@ == agg_expr(agg@),
{
    proof {
        lemma_agg_names_differ();
    }
    if str_eq(agg, "sum") {
        "SUM(mp.value)"
    } else if str_eq(agg, "avg") {
        "AVG(mp.value)"
    } else if str_eq(agg, "min") {
        "MIN(mp.value)"
    } else if str_eq(agg, "max") {
        "MAX(mp.value)"
    } else if str_eq(agg, "count") {
        "COUNT(mp.value)"
    } else {
        "AVG(mp.value)"
    }
}

/// The statement that aggregates scalar points by series and bucket. The
/// aggregate is a double, for a count too.
pub open spec fn scalar_statement(agg: Seq<char>) -> Seq<char> {
    "SELECT mp.series_id, date_bin(make_interval(secs => $1::float8), mp.ts, 'epoch'::timestamptz) AS bucket, "@
        + agg_expr(agg)
        + "::float8 AS agg_value, COUNT(*) AS point_count FROM soma_observe.metric_point mp WHERE mp.series_id = ANY($2::bigint[]) AND mp.ts >= $3 AND mp.ts < $4 GROUP BY mp.series_id, bucket ORDER BY mp.series_id, bucket"@
}

/// The statement that aggregates scalar points by series and bucket.
pub fn scalar_sql(agg: &str) -> (s: String)
    ensures
        s@ == scalar_statement(agg@),
{
    let mut s =
        "SELECT mp.series_id, date_bin(make_interval(secs => $1::float8), mp.ts, 'epoch'::timestamptz) AS bucket, ".to_owned();
    s.push_str(agg_sql(agg));
    s.push_str(
        "::float8 AS agg_value, COUNT(*) AS point_count FROM soma_observe.metric_point mp WHERE mp.series_id = ANY($2::bigint[]) AND mp.ts >= $3 AND mp.ts < $4 GROUP BY mp.series_id, bucket ORDER BY mp.series_id, bucket",
    );
    s
}

// ---------------------------------------------------------------------------
// The query
// ---------------------------------------------------------------------------

/// A metric query that was found in order.
pub struct MetricsQuery {
    pub range: TimeRange,
    pub step_secs: i64,
    pub agg: &'static str,
    pub filter: Option<Json>,
}

/// The length of a bucket: a minute where none is given, and never less than a
/// second.
pub open spec fn step_of(step: Option<i64>) -> int {
    match step {
        Some(s) => if s < 1 {
            1
        } else {
            s as int
        },
        None => 60,
    }
}

/// What an optional text asks for.
pub open spec fn agg_text(agg: Option<String>) -> Seq<char> {
    match agg {
        Some(a) => a@,
        None => "avg"@,
    }
}

/// A query that was planned from parameters.
pub open spec fn is_plan(q: MetricsQuery, params: MetricsQueryParams) -> bool {
    &&& q.step_secs == step_of(params.step)
    &&& q.agg@ == agg_text(params.agg)
    &&& opt_json(q.filter) == wanted(params.filter)
}

/// Why a query over a range cannot be answered, if it cannot.
pub open spec fn refusal(range: Result<TimeRange, Seq<char>>, agg: Option<String>) -> Option<Seq<char>> {
    match range {
        Err(m) => Some(m),
        Ok(_) => if is_agg(agg_text(agg)) {
            None
        } else {
            Some("agg must be one of: sum, avg, min, max, count"@)
        },
    }
}

/// The query over a range that was read from its parameters.
pub fn plan_over(range: Result<TimeRange, &'static str>, params: &MetricsQueryParams) -> (r: Result<
    MetricsQuery,
    &'static str,
>)
    ensures
        match r {
            Ok(q) => refusal(with_message(range), params.agg) is None && range == Ok::<TimeRange, &'static str>(
                q.range,
            ) && is_plan(q, *params),
            Err(m) => refusal(with_message(range), params.agg) == Some(m@),
        },
{
    let range = match range {
        Ok(x) => x,
        Err(m) => {
            return Err(m);
        },
    };
    let step_secs: i64 = match params.step {
        Some(s) => if s < 1 {
            1
        } else {
            s
        },
        None => 60,
    };
    let asked: Option<&str> = match &params.agg {
        Some(a) => Some(a.as_str()),
        None => None,
    };
    match parse_agg(asked) {
        Ok(agg) => Ok(MetricsQuery { range, step_secs, agg, filter: parse_filter(&params.filter) }),
        Err(m) => Err(m),
    }
}

/// The query that the parameters ask for, or why it cannot be answered.
pub fn plan_query(params: &MetricsQueryParams) -> (r: Result<MetricsQuery, &'static str>)
    ensures
        ({
            let range = range_of(instant(time_of(params.start@)), instant(time_of(params.end@)));
            match r {
                Ok(q) => refusal(range, params.agg) is None && range == Ok::<TimeRange, Seq<char>>(q.range) && is_plan(
                    q,
                    *params,
                ),
                Err(m) => refusal(range, params.agg) == Some(m@),
            }
        }),
{
    plan_over(parse_range(params.start.as_str(), params.end.as_str()), params)
}

// ---------------------------------------------------------------------------
// Rows of the store
// ---------------------------------------------------------------------------

/// A series that matches the query.
pub struct SeriesRow {
    pub series_id: i64,
    pub resource: Json,
    pub attributes: Json,
    pub kind: String,
    pub unit: Option<String>,
    /// Whether a sum only ever rises, where that is known.
    pub monotonic: Option<bool>,
}

/// A bucket of scalar points: the aggregated value in the bits of a double, and
/// the number of points.
#[derive(Clone, Copy, Debug, PartialEq, Eq, Structural)]
pub struct BucketRow {
    pub series_id: i64,
    pub bucket: Timestamp,
    pub value: Option<u64>,
    pub count: i64,
}

/// A bucket of histogram points: their sum in the bits of a double, and their
/// count.
#[derive(Clone, Copy, Debug, PartialEq, Eq, Structural)]
pub struct HistoBucketRow {
    pub series_id: i64,
    pub bucket: Timestamp,
    pub sum: Option<u64>,
    pub count: Option<i64>,
}

/// The latest distribution of a histogram series.
pub struct HistoSummaryRow {
    pub series_id: i64,
    pub bounds: Json,
    pub bucket_counts: Json,
}

/// How the points of a series are read.
#[derive(Clone, Copy, Debug, PartialEq, Eq, Structural)]
pub enum SeriesKind {
    /// The aggregation that is asked for.
    Gauge,
    /// The sum of the deltas, whatever is asked for.
    Counter,
    /// Sums and counts, with the latest distribution.
    Histogram,
}

/// How the points of a series of a kind are read. A sum is a counter, stored in
/// deltas, unless it is known to fall as well as rise: such a sum is stored as it
/// is, and read like a gauge.
pub open spec fn series_kind(kind: Seq<char>, monotonic: Option<bool>) -> SeriesKind {
    if kind == "Histogram"@ {
        SeriesKind::Histogram
    } else if kind == "Sum"@ && monotonic != Some(false) {
        SeriesKind::Counter
    } else {
        SeriesKind::Gauge
    }
}

fn read_kind(row: &SeriesRow) -> (k: SeriesKind)
    ensures
        k == series_kind(row.kind@, row.monotonic),
{
    let falls: bool = match row.monotonic {
        Some(m) => !m,
        None => false,
    };
    if str_eq(row.kind.as_str(), "Histogram") {
        SeriesKind::Histogram
    } else if str_eq(row.kind.as_str(), "Sum") && !falls {
        SeriesKind::Counter
    } else {
        SeriesKind::Gauge
    }
}

/// The series of the rows that are read in a way, in order.
pub open spec fn ids_of_kind(rows: Seq<SeriesRow>, kind: SeriesKind) -> Seq<i64>
    decreases rows.len(),
{
    if rows.len() == 0 {
        Seq::empty()
    } else {
        let before = ids_of_kind(rows.drop_last(), kind);
        if series_kind(rows.last().kind@, rows.last().monotonic) == kind {
            before.push(rows.last().series_id)
        } else {
            before
        }
    }
}

/// The gauges, the counters, and the histograms of the rows.
pub fn split_ids(rows: &Vec<SeriesRow>) -> (r: (Vec<i64>, Vec<i64>, Vec<i64>))
    ensures
        r.0@ == ids_of_kind(rows@, SeriesKind::Gauge),
        r.1@ == ids_of_kind(rows@, SeriesKind::Counter),
        r.2@ == ids_of_kind(rows@, SeriesKind::Histogram),
{
    let mut gauges: Vec<i64> = Vec::new();
    let mut counters: Vec<i64> = Vec::new();
    let mut histograms: Vec<i64> = Vec::new();
    let mut i: usize = 0;
    assert(rows@.take(0) =~= Seq::empty());
    while i < rows.len()
        invariant
            i <= rows.len(),
            gauges@ == ids_of_kind(rows@.take(i as int), SeriesKind::Gauge),
            counters@ == ids_of_kind(rows@.take(i as int), SeriesKind::Counter),
            histograms@ == ids_of_kind(rows@.take(i as int), SeriesKind::Histogram),
        decreases rows.len() - i,
    {
        assert(rows@.take(i + 1).drop_last() =~= rows@.take(i as int));
        match read_kind(&rows[i]) {
            SeriesKind::Gauge => gauges.push(rows[i].series_id),
            SeriesKind::Counter => counters.push(rows[i].series_id),
            SeriesKind::Histogram => histograms.push(rows[i].series_id),
        }
        i += 1;
    }
    assert(rows@.take(rows.len() as int) =~= rows@);
    (gauges, counters, histograms)
}

/// What is read of the store: some series, by a statement.
pub struct Reading {
    pub series_ids: Vec<i64>,
    pub sql: String,
}

/// What is read of the store for a query.
pub struct Readings {
    /// The gauges, under the aggregation that is asked for.
    pub gauges: Reading,
    /// The counters, whose deltas are summed whatever is asked for.
    pub counters: Reading,
    pub histogram_ids: Vec<i64>,
}

/// What is read of the store for a query that matches these series.
pub fn plan_readings(rows: &Vec<SeriesRow>, agg: &str) -> (r: Readings)
    ensures
        r.gauges.series_ids@ == ids_of_kind(rows@, SeriesKind::Gauge),
        r.gauges.sql@ == scalar_statement(agg@),
        r.counters.series_ids@ == ids_of_kind(rows@, SeriesKind::Counter),
        r.counters.sql@ == scalar_statement("sum"@),
        r.histogram_ids@ == ids_of_kind(rows@, SeriesKind::Histogram),
{
    let (gauges, counters, histogram_ids) = split_ids(rows);
    Readings {
        gauges: Reading { series_ids: gauges, sql: scalar_sql(agg) },
        counters: Reading { series_ids: counters, sql: scalar_sql("sum") },
        histogram_ids,
    }
}

// ---------------------------------------------------------------------------
// The answer
// ---------------------------------------------------------------------------

/// A point of the answer: the value of a bucket in the bits of a double.
#[derive(Clone, Copy, Debug, PartialEq, Eq, Structural)]
pub struct Point {
    pub start: Timestamp,
    pub end: Timestamp,
    pub value: Option<u64>,
    /// The number of points, for a count and for a histogram.
    pub count: Option<i64>,
}

/// The latest distribution of a histogram series: the upper bounds of its
/// buckets, and the counts, one more for what lies above.
pub struct HistogramSummary {
    pub bounds: Vec<JsonNumber>,
    pub latest_bucket_counts: Vec<i64>,
}

/// A series of the answer.
pub struct SeriesResult {
    pub series_id: i64,
    pub resource: Json,
    pub attributes: Json,
    pub kind: String,
    pub points: Vec<Point>,
    /// Of a histogram series only.
    pub histogram: Option<HistogramSummary>,
}

/// The answer to a metric query.
pub struct MetricsQueryResponse {
    pub metric: String,
    pub unit: Option<String>,
    pub series: Vec<SeriesResult>,
}

/// What the distribution of a histogram stands for.
#[verifier::ext_equal]
pub struct SummaryView {
    pub bounds: Seq<NumberView>,
    pub counts: Seq<i64>,
}

/// What a series of the answer stands for.
#[verifier::ext_equal]
pub struct ResultView {
    pub series_id: i64,
    pub resource: JsonView,
    pub attributes: JsonView,
    pub kind: Seq<char>,
    pub points: Seq<Point>,
    pub histogram: Option<SummaryView>,
}

pub open spec fn number_views(ns: Seq<JsonNumber>) -> Seq<NumberView> {
    Seq::new(ns.len(), |i: int| ns[i]@)
}

impl HistogramSummary {
    pub open spec fn view(&self) -> SummaryView {
        SummaryView { bounds: number_views(self.bounds@), counts: self.latest_bucket_counts@ }
    }
}

pub open spec fn opt_summary(h: Option<HistogramSummary>) -> Option<SummaryView> {
    match h {
        Some(s) => Some(s@),
        None => None,
    }
}

impl SeriesResult {
    pub open spec fn view(&self) -> ResultView {
        ResultView {
            series_id: self.series_id,
            resource: self.resource@,
            attributes: self.attributes@,
            kind: self.kind@,
            points: self.points@,
            histogram: opt_summary(self.histogram),
        }
    }
}

pub open spec fn result_views(rs: Seq<SeriesResult>) -> Seq<ResultView> {
    Seq::new(rs.len(), |i: int| rs[i]@)
}

/// The end of a bucket.
pub open spec fn bucket_end(bucket: Timestamp, step: int) -> Timestamp {
    Timestamp { secs: (bucket.secs + step) as i64, nanos: bucket.nanos }
}

/// The point of a scalar bucket. A count is the number of points, as a value
/// and as such.
pub open spec fn scalar_point(row: BucketRow, step: int, counting: bool) -> Point {
    Point {
        start: row.bucket,
        end: bucket_end(row.bucket, step),
        value: if counting {
            Some(int_double(row.count as int) as u64)
        } else {
            row.value
        },
        count: if counting {
            Some(row.count)
        } else {
            None
        },
    }
}

/// The points of a scalar series, in the order of the rows.
pub open spec fn scalar_points(rows: Seq<BucketRow>, id: i64, step: int, counting: bool) -> Seq<Point>
    decreases rows.len(),
{
    if rows.len() == 0 {
        Seq::empty()
    } else {
        let before = scalar_points(rows.drop_last(), id, step, counting);
        if rows.last().series_id == id {
            before.push(scalar_point(rows.last(), step, counting))
        } else {
            before
        }
    }
}

/// The point of a histogram bucket: the sum as its value, with the count.
pub open spec fn histogram_point(row: HistoBucketRow, step: int) -> Point {
    Point { start: row.bucket, end: bucket_end(row.bucket, step), value: row.sum, count: row.count }
}

/// The points of a histogram series, in the order of the rows.
pub open spec fn histogram_points(rows: Seq<HistoBucketRow>, id: i64, step: int) -> Seq<Point>
    decreases rows.len(),
{
    if rows.len() == 0 {
        Seq::empty()
    } else {
        let before = histogram_points(rows.drop_last(), id, step);
        if rows.last().series_id == id {
            before.push(histogram_point(rows.last(), step))
        } else {
            before
        }
    }
}

/// The numbers among JSON values.
pub open spec fn numbers_in(items: Seq<JsonView>) -> Seq<NumberView>
    decreases items.len(),
{
    if items.len() == 0 {
        Seq::empty()
    } else {
        match items.last() {
            JsonView::Number(n) => numbers_in(items.drop_last()).push(n),
            _ => numbers_in(items.drop_last()),
        }
    }
}

/// The 64-bit integers among JSON values.
pub open spec fn integers_in(items: Seq<JsonView>) -> Seq<i64>
    decreases items.len(),
{
    if items.len() == 0 {
        Seq::empty()
    } else {
        match items.last() {
            JsonView::Number(NumberView::Int(n)) => if i64::MIN <= n <= i64::MAX {
                integers_in(items.drop_last()).push(n as i64)
            } else {
                integers_in(items.drop_last())
            },
            _ => integers_in(items.drop_last()),
        }
    }
}

/// The distribution that a row holds, if both of its parts are lists.
pub open spec fn summary_in(row: HistoSummaryRow) -> Option<SummaryView> {
    match (row.bounds@, row.bucket_counts@) {
        (JsonView::Array(bounds), JsonView::Array(counts)) => Some(
            SummaryView { bounds: numbers_in(bounds), counts: integers_in(counts) },
        ),
        _ => None,
    }
}

/// The distribution of a series: that of its first row.
pub open spec fn summary_of(rows: Seq<HistoSummaryRow>, id: i64) -> Option<SummaryView>
    decreases rows.len(),
{
    if rows.len() == 0 {
        None
    } else if rows[0].series_id == id {
        summary_in(rows[0])
    } else {
        summary_of(rows.skip(1), id)
    }
}

/// The rows that the store gave for a query.
pub struct QueryRows {
    pub series: Vec<SeriesRow>,
    pub scalar: Vec<BucketRow>,
    pub histogram: Vec<HistoBucketRow>,
    pub summaries: Vec<HistoSummaryRow>,
}

/// A series of the answer, before those without points are left out. A counter
/// is never counted: its value is the sum of its deltas.
pub open spec fn series_result(row: SeriesRow, rows: QueryRows, step: int, counting: bool) -> ResultView {
    let kind = series_kind(row.kind@, row.monotonic);
    ResultView {
        series_id: row.series_id,
        resource: row.resource@,
        attributes: row.attributes@,
        kind: row.kind@,
        points: if kind is Histogram {
            histogram_points(rows.histogram@, row.series_id, step)
        } else {
            scalar_points(rows.scalar@, row.series_id, step, counting && kind is Gauge)
        },
        histogram: if kind is Histogram {
            summary_of(rows.summaries@, row.series_id)
        } else {
            None
        },
    }
}

/// The series of the answer, in the order of their rows: those that have
/// points.
pub open spec fn series_results(series: Seq<SeriesRow>, rows: QueryRows, step: int, counting: bool) -> Seq<ResultView>
    decreases series.len(),
{
    if series.len() == 0 {
        Seq::empty()
    } else {
        let before = series_results(series.drop_last(), rows, step, counting);
        let r = series_result(series.last(), rows, step, counting);
        if r.points.len() > 0 {
            before.push(r)
        } else {
            before
        }
    }
}

/// The unit of the answer: that of the first series.
pub open spec fn first_unit(series: Seq<SeriesRow>) -> Option<Seq<char>> {
    if series.len() == 0 {
        None
    } else {
        opt_text(series[0].unit)
    }
}

/// A bucket ends within the calendar.
pub open spec fn bucket_fits(bucket: Timestamp, step: int) -> bool {
    1 <= step <= MAX_SPAN_SECS && MIN_SECS <= bucket.secs && bucket.secs + step <= MAX_SECS
}

/// Every bucket ends within the calendar.
pub open spec fn buckets_fit(rows: QueryRows, step: int) -> bool {
    &&& forall|i: int| 0 <= i < rows.scalar@.len() ==> bucket_fits((#[trigger] rows.scalar@[i]).bucket, step)
    &&& forall|i: int| 0 <= i < rows.histogram@.len() ==> bucket_fits((#[trigger] rows.histogram@[i]).bucket, step)
}

fn does_bucket_fit(bucket: &Timestamp, step: i64) -> (r: bool)
    ensures
        r == bucket_fits(*bucket, step as int),
{
    1 <= step && step <= MAX_SPAN_SECS && MIN_SECS <= bucket.secs && bucket.secs <= MAX_SECS && bucket.secs + step
        <= MAX_SECS
}

/// Whether every bucket ends within the calendar.
pub fn do_buckets_fit(rows: &QueryRows, step: i64) -> (r: bool)
    ensures
        r == buckets_fit(*rows, step as int),
{
    let mut i: usize = 0;
    while i < rows.scalar.len()
        invariant
            i <= rows.scalar@.len(),
            forall|j: int| 0 <= j < i ==> bucket_fits((#[trigger] rows.scalar@[j]).bucket, step as int),
        decreases rows.scalar.len() - i,
    {
        if !does_bucket_fit(&rows.scalar[i].bucket, step) {
            return false;
        }
        i += 1;
    }
    let mut k: usize = 0;
    while k < rows.histogram.len()
        invariant
            k <= rows.histogram@.len(),
            forall|j: int| 0 <= j < k ==> bucket_fits((#[trigger] rows.histogram@[j]).bucket, step as int),
        decreases rows.histogram.len() - k,
    {
        if !does_bucket_fit(&rows.histogram[k].bucket, step) {
            return false;
        }
        k += 1;
    }
    true
}

fn collect_scalar(rows: &QueryRows, id: i64, step: i64, counting: bool) -> (r: Vec<Point>)
    requires
        buckets_fit(*rows, step as int),
    ensures
        r@ == scalar_points(rows.scalar@, id, step as int, counting),
{
    let mut r: Vec<Point> = Vec::new();
    let mut i: usize = 0;
    assert(rows.scalar@.take(0) =~= Seq::empty());
    while i < rows.scalar.len()
        invariant
            i <= rows.scalar@.len(),
            buckets_fit(*rows, step as int),
            r@ == scalar_points(rows.scalar@.take(i as int), id, step as int, counting),
        decreases rows.scalar.len() - i,
    {
        assert(rows.scalar@.take(i + 1).drop_last() =~= rows.scalar@.take(i as int));
        let row = rows.scalar[i];
        if row.series_id == id {
            let end = Timestamp { secs: row.bucket.secs + step, nanos: row.bucket.nanos };
            if counting {
                r.push(
                    Point {
                        start: row.bucket,
                        end,
                        value: Some(int_double_bits(row.count)),
                        count: Some(row.count),
                    },
                );
            } else {
                r.push(Point { start: row.bucket, end, value: row.value, count: None });
            }
        }
        i += 1;
    }
    assert(rows.scalar@.take(rows.scalar@.len() as int) =~= rows.scalar@);
    r
}

fn collect_histogram(rows: &QueryRows, id: i64, step: i64) -> (r: Vec<Point>)
    requires
        buckets_fit(*rows, step as int),
    ensures
        r@ == histogram_points(rows.histogram@, id, step as int),
{
    let mut r: Vec<Point> = Vec::new();
    let mut i: usize = 0;
    assert(rows.histogram@.take(0) =~= Seq::empty());
    while i < rows.histogram.len()
        invariant
            i <= rows.histogram@.len(),
            buckets_fit(*rows, step as int),
            r@ == histogram_points(rows.histogram@.take(i as int), id, step as int),
        decreases rows.histogram.len() - i,
    {
        assert(rows.histogram@.take(i + 1).drop_last() =~= rows.histogram@.take(i as int));
        let row = rows.histogram[i];
        if row.series_id == id {
            let end = Timestamp { secs: row.bucket.secs + step, nanos: row.bucket.nanos };
            r.push(Point { start: row.bucket, end, value: row.sum, count: row.count });
        }
        i += 1;
    }
    assert(rows.histogram@.take(rows.histogram@.len() as int) =~= rows.histogram@);
    r
}

fn read_summary(row: &HistoSummaryRow) -> (r: Option<HistogramSummary>)
    ensures
        opt_summary(r) == summary_in(*row),
{
    match (&row.bounds, &row.bucket_counts) {
        (Json::Array(bs), Json::Array(cs)) => {
            proof {
                lemma_array_view(*bs);
                lemma_array_view(*cs);
            }
            let mut bounds: Vec<JsonNumber> = Vec::new();
            let mut i: usize = 0;
            assert(views(bs@).take(0) =~= Seq::empty());
            assert(number_views(bounds@) =~= numbers_in(views(bs@).take(0)));
            while i < bs.len()
                invariant
                    i <= bs.len(),
                    number_views(bounds@) == numbers_in(views(bs@).take(i as int)),
                decreases bs.len() - i,
            {
                let ghost before = number_views(bounds@);
                assert(views(bs@).take(i + 1).drop_last() =~= views(bs@).take(i as int));
                assert(views(bs@).take(i + 1).last() == bs@[i as int]@);
                if let Json::Number(n) = &bs[i] {
                    let n2 = n.copy();
                    let ghost v = n2@;
                    bounds.push(n2);
                    assert(number_views(bounds@) =~= before.push(v));
                }
                i += 1;
            }
            let mut latest_bucket_counts: Vec<i64> = Vec::new();
            let mut k: usize = 0;
            assert(views(cs@).take(0) =~= Seq::empty());
            while k < cs.len()
                invariant
                    k <= cs.len(),
                    latest_bucket_counts@ == integers_in(views(cs@).take(k as int)),
                decreases cs.len() - k,
            {
                assert(views(cs@).take(k + 1).drop_last() =~= views(cs@).take(k as int));
                assert(views(cs@).take(k + 1).last() == cs@[k as int]@);
                if let Some(n) = cs[k].as_i64() {
                    latest_bucket_counts.push(n);
                }
                k += 1;
            }
            assert(views(bs@).take(bs.len() as int) =~= views(bs@));
            assert(views(cs@).take(cs.len() as int) =~= views(cs@));
            Some(HistogramSummary { bounds, latest_bucket_counts })
        },
        _ => None,
    }
}

fn find_summary(rows: &Vec<HistoSummaryRow>, id: i64) -> (r: Option<HistogramSummary>)
    ensures
        opt_summary(r) == summary_of(rows@, id),
{
    let mut i: usize = 0;
    assert(rows@.skip(0) =~= rows@);
    while i < rows.len()
        invariant
            i <= rows.len(),
            summary_of(rows@, id) == summary_of(rows@.skip(i as int), id),
        decreases rows.len() - i,
    {
        if rows[i].series_id == id {
            return read_summary(&rows[i]);
        }
        assert(rows@.skip(i as int).skip(1) =~= rows@.skip(i + 1));
        i += 1;
    }
    None
}

/// The answer to a query: each series that has points in the range, with the
/// points of its buckets, and for a histogram its latest distribution.
pub fn assemble(metric: &str, rows: &QueryRows, step_secs: i64, agg: &str) -> (r: MetricsQueryResponse)
    requires
        buckets_fit(*rows, step_secs as int),
    ensures
        r.metric@ == metric@,
        opt_text(r.unit) == first_unit(rows.series@),
        result_views(r.series@) == series_results(rows.series@, *rows, step_secs as int, agg@ == "count"@),
{
    let counting: bool = str_eq(agg, "count");
    let mut series: Vec<SeriesResult> = Vec::new();
    let mut i: usize = 0;
    let ghost all = rows.series@;
    assert(all.take(0) =~= Seq::empty());
    assert(result_views(series@) =~= series_results(all.take(0), *rows, step_secs as int, counting));
    while i < rows.series.len()
        invariant
            i <= rows.series@.len(),
            all == rows.series@,
            buckets_fit(*rows, step_secs as int),
            result_views(series@) == series_results(all.take(i as int), *rows, step_secs as int, counting),
        decreases rows.series.len() - i,
    {
        assert(all.take(i + 1).drop_last() =~= all.take(i as int));
        let ghost before = result_views(series@);
        let row = &rows.series[i];
        let kind = read_kind(row);
        let points = match kind {
            SeriesKind::Gauge => collect_scalar(rows, row.series_id, step_secs, counting),
            SeriesKind::Counter => collect_scalar(rows, row.series_id, step_secs, false),
            SeriesKind::Histogram => collect_histogram(rows, row.series_id, step_secs),
        };
        if points.len() > 0 {
            let summary = match kind {
                SeriesKind::Histogram => find_summary(&rows.summaries, row.series_id),
                _ => None,
            };
            let result = SeriesResult {
                series_id: row.series_id,
                resource: row.resource.copy(),
                attributes: row.attributes.copy(),
                kind: row.kind.clone(),
                points,
                histogram: summary,
            };
            let ghost v = result@;
            assert(v =~= series_result(*row, *rows, step_secs as int, counting));
            series.push(result);
            assert(result_views(series@) =~= before.push(v));
        }
        i += 1;
    }
    assert(all.take(all.len() as int) =~= all);
    let unit: Option<String> = if rows.series.len() > 0 {
        match &rows.series[0].unit {
            Some(u) => Some(u.clone()),
            None => None,
        }
    } else {
        None
    };
    MetricsQueryResponse { metric: metric.to_owned(), unit, series }
}

// ---------------------------------------------------------------------------
// Laws
// ---------------------------------------------------------------------------

/// Every series of an answer has points.
pub proof fn law_no_empty_series(series: Seq<SeriesRow>, rows: QueryRows, step: int, counting: bool)
    ensures
        forall|i: int|
            0 <= i < series_results(series, rows, step, counting).len() ==> (#[trigger] series_results(
                series,
                rows,
                step,
                counting,
            )[i]).points.len() > 0,
    decreases series.len(),
{
    if series.len() > 0 {
        law_no_empty_series(series.drop_last(), rows, step, counting);
    }
}

/// Every point of a scalar series lasts one step.
pub proof fn law_points_last_a_step(rows: Seq<BucketRow>, id: i64, step: int, counting: bool)
    requires
        forall|i: int| 0 <= i < rows.len() ==> bucket_fits((#[trigger] rows[i]).bucket, step),
    ensures
        forall|k: int|
            0 <= k < scalar_points(rows, id, step, counting).len() ==> {
                let p = #[trigger] scalar_points(rows, id, step, counting)[k];
                p.end.secs == p.start.secs + step && p.end.nanos == p.start.nanos
            },
    decreases rows.len(),
{
    if rows.len() > 0 {
        assert forall|i: int| 0 <= i < rows.drop_last().len() implies bucket_fits(
            (#[trigger] rows.drop_last()[i]).bucket,
            step,
        ) by {
            assert(rows.drop_last()[i] == rows[i]);
        }
        law_points_last_a_step(rows.drop_last(), id, step, counting);
        assert(rows[rows.len() - 1] == rows.last());
    }
}

/// Every point of a histogram series lasts one step.
pub proof fn law_histogram_points_last_a_step(rows: Seq<HistoBucketRow>, id: i64, step: int)
    requires
        forall|i: int| 0 <= i < rows.len() ==> bucket_fits((#[trigger] rows[i]).bucket, step),
    ensures
        forall|k: int|
            0 <= k < histogram_points(rows, id, step).len() ==> {
                let p = #[trigger] histogram_points(rows, id, step)[k];
                p.end.secs == p.start.secs + step && p.end.nanos == p.start.nanos
            },
    decreases rows.len(),
{
    if rows.len() > 0 {
        assert forall|i: int| 0 <= i < rows.drop_last().len() implies bucket_fits(
            (#[trigger] rows.drop_last()[i]).bucket,
            step,
        ) by {
            assert(rows.drop_last()[i] == rows[i]);
        }
        law_histogram_points_last_a_step(rows.drop_last(), id, step);
        assert(rows[rows.len() - 1] == rows.last());
    }
}

/// Each series is a gauge, a counter or a histogram.
pub proof fn law_kinds_part_the_series(rows: Seq<SeriesRow>)
    ensures
        ids_of_kind(rows, SeriesKind::Gauge).len() + ids_of_kind(rows, SeriesKind::Counter).len() + ids_of_kind(
            rows,
            SeriesKind::Histogram,
        ).len() == rows.len(),
    decreases rows.len(),
{
    if rows.len() > 0 {
        law_kinds_part_the_series(rows.drop_last());
    }
}

/// Whatever aggregation is asked for, the points of a counter are the sums that
/// the store gave for its buckets.
pub proof fn law_counters_are_sums(row: SeriesRow, rows: QueryRows, step: int, counting: bool)
    requires
        row.kind@ == "Sum"@,
        row.monotonic != Some(false),
    ensures
        series_result(row, rows, step, counting).points == scalar_points(rows.scalar@, row.series_id, step, false),
        forall|k: int|
            0 <= k < scalar_points(rows.scalar@, row.series_id, step, false).len() ==> {
                let p = #[trigger] scalar_points(rows.scalar@, row.series_id, step, false)[k];
                p.count is None && exists|i: int|
                    0 <= i < rows.scalar@.len() && (#[trigger] rows.scalar@[i]).series_id == row.series_id && p
                        == scalar_point(rows.scalar@[i], step, false)
            },
{
    reveal_strlit("Sum");
    reveal_strlit("Histogram");
    assert("Sum"@.len() == 3 && "Histogram"@.len() == 9);
    lemma_points_come_from_rows(rows.scalar@, row.series_id, step);
}

/// A sum is read as it was stored: the deltas of a counter are summed, and the
/// values of a sum that falls as well as rises, which are stored as they are, are
/// aggregated as asked.
pub proof fn law_sums_are_read_as_stored(item: ItemView, v: u64, last: Option<u64>)
    requires
        item matches ItemView::Number { series, value, .. } && series.kind == "Sum"@ && value == Some(v),
    ensures
        series_kind("Sum"@, monotonicity(item)) is Counter <==> item->monotonic,
        series_kind("Sum"@, monotonicity(item)) is Counter ==> stored_value(item, last) == counter_rise(last, v),
        series_kind("Sum"@, monotonicity(item)) is Gauge ==> stored_value(item, last) == PointValue::Given(v),
        !(series_kind("Sum"@, monotonicity(item)) is Histogram),
{
    reveal_strlit("Sum");
    reveal_strlit("Histogram");
    assert("Sum"@.len() == 3 && "Histogram"@.len() == 9);
}

proof fn lemma_points_come_from_rows(rows: Seq<BucketRow>, id: i64, step: int)
    ensures
        forall|k: int|
            0 <= k < scalar_points(rows, id, step, false).len() ==> {
                let p = #[trigger] scalar_points(rows, id, step, false)[k];
                p.count is None && exists|i: int|
                    0 <= i < rows.len() && (#[trigger] rows[i]).series_id == id && p == scalar_point(
                        rows[i],
                        step,
                        false,
                    )
            },
    decreases rows.len(),
{
    if rows.len() > 0 {
        let before = rows.drop_last();
        lemma_points_come_from_rows(before, id, step);
        let all = scalar_points(rows, id, step, false);
        assert forall|k: int| 0 <= k < all.len() implies {
            let p = #[trigger] all[k];
            p.count is None && exists|i: int|
                0 <= i < rows.len() && (#[trigger] rows[i]).series_id == id && p == scalar_point(rows[i], step, false)
        } by {
            let earlier = scalar_points(before, id, step, false);
            if k < earlier.len() {
                assert(all[k] == earlier[k]);
                let i = choose|i: int|
                    0 <= i < before.len() && (#[trigger] before[i]).series_id == id && earlier[k] == scalar_point(
                        before[i],
                        step,
                        false,
                    );
                assert(rows[i] == before[i]);
            } else {
                assert(rows[rows.len() - 1] == rows.last());
            }
        }
    }
}

/// A planned query does what its parameters ask: every step of a second and more
/// is used as it was given, and a minute where none was; the aggregation is the
/// one that was named; and the attributes asked for are the pairs of the filter.
pub proof fn law_plan_does_what_is_asked(q: MetricsQuery, params: MetricsQueryParams, pairs: Seq<Pair>)
    requires
        is_plan(q, params),
    ensures
        params.step matches Some(s) ==> (s >= 1 ==> q.step_secs == s) && (s < 1 ==> q.step_secs == 1),
        params.step is None ==> q.step_secs == 60,
        params.agg matches Some(a) ==> q.agg@ == a@,
        params.agg is None ==> q.agg@ == "avg"@,
        params.filter is None ==> q.filter is None,
        params.filter matches Some(f) ==> (can_be_written(pairs) && f@ == filter_text(pairs) ==> asks_for(
            opt_json(q.filter),
            pairs,
        )),
{
    if can_be_written(pairs) {
        law_filter_can_be_looked_up(pairs);
    }
}

/// A query over a range is refused exactly where it asks for an aggregation that
/// there is not; where there is no range, it is refused for the same reason as
/// the range.
pub proof fn law_only_unknown_aggregations_are_refused(range: Result<TimeRange, Seq<char>>, agg: Option<String>)
    ensures
        range matches Err(m) ==> refusal(range, agg) == Some(m),
        range is Ok && agg is None ==> refusal(range, agg) is None,
        range is Ok ==> (agg matches Some(a) ==> (refusal(range, agg) is None <==> [
            "sum"@,
            "avg"@,
            "min"@,
            "max"@,
            "count"@,
        ]@.contains(a@))),
{
    let names = ["sum"@, "avg"@, "min"@, "max"@, "count"@]@;
    assert(names[0] == "sum"@ && names[1] == "avg"@ && names[2] == "min"@ && names[3] == "max"@ && names[4]
        == "count"@);
    if let Some(a) = agg {
        if names.contains(a@) {
            let i = choose|i: int| 0 <= i < names.len() && names[i] == a@;
        }
    }
}

/// The letter in upper case.
pub open spec fn upper(c: char) -> char {
    if 'a' <= c <= 'z' {
        (c as int - 32) as char
    } else {
        c
    }
}

/// A name in upper case.
pub open spec fn upper_name(s: Seq<char>) -> Seq<char> {
    Seq::new(s.len(), |i: int| upper(s[i]))
}

/// The points of a bucket are aggregated by the function of the store that has
/// the name of the aggregation.
pub proof fn law_aggregations_are_those_of_the_store(agg: Seq<char>)
    requires
        is_agg(agg),
    ensures
        agg_expr(agg) == upper_name(agg) + "(mp.value)"@,
{
    reveal_strlit("sum");
    reveal_strlit("avg");
    reveal_strlit("min");
    reveal_strlit("max");
    reveal_strlit("count");
    reveal_strlit("SUM(mp.value)");
    reveal_strlit("AVG(mp.value)");
    reveal_strlit("MIN(mp.value)");
    reveal_strlit("MAX(mp.value)");
    reveal_strlit("COUNT(mp.value)");
    reveal_strlit("(mp.value)");
    lemma_agg_names_differ();
    assert("sum"@[0] != "min"@[0] && "sum"@[0] != "max"@[0] && "sum"@[0] != "count"@[0]);
    assert("min"@[1] != "max"@[1] && "min"@[0] != "count"@[0] && "max"@[0] != "count"@[0]);
    if agg == "sum"@ {
        assert(agg_expr(agg) =~= upper_name(agg) + "(mp.value)"@);
    } else if agg == "min"@ {
        assert(agg_expr(agg) =~= upper_name(agg) + "(mp.value)"@);
    } else if agg == "max"@ {
        assert(agg_expr(agg) =~= upper_name(agg) + "(mp.value)"@);
    } else if agg == "count"@ {
        assert(agg_expr(agg) =~= upper_name(agg) + "(mp.value)"@);
    } else {
        assert(agg_expr(agg) =~= upper_name(agg) + "(mp.value)"@);
    }
}

/// The statement of a query holds the expression of its aggregation, so that
/// different aggregations have different statements.
pub proof fn law_statement_aggregates_as_asked(agg: Seq<char>, other: Seq<char>)
    ensures
        scalar_statement(agg) == scalar_statement(other) ==> agg_expr(agg) == agg_expr(other),
{
    let front =
        "SELECT mp.series_id, date_bin(make_interval(secs => $1::float8), mp.ts, 'epoch'::timestamptz) AS bucket, "@;
    let behind =
        "::float8 AS agg_value, COUNT(*) AS point_count FROM soma_observe.metric_point mp WHERE mp.series_id = ANY($2::bigint[]) AND mp.ts >= $3 AND mp.ts < $4 GROUP BY mp.series_id, bucket ORDER BY mp.series_id, bucket"@;
    let (a, b) = (agg_expr(agg), agg_expr(other));
    if scalar_statement(agg) == scalar_statement(other) {
        let (x, y) = (scalar_statement(agg), scalar_statement(other));
        assert(x == front + a + behind);
        assert(y == front + b + behind);
        assert(x.len() == front.len() + a.len() + behind.len());
        assert(y.len() == front.len() + b.len() + behind.len());
        assert forall|i: int| 0 <= i < a.len() implies a[i] == b[i] by {
            assert(x[front.len() + i] == a[i]);
            assert(y[front.len() + i] == b[i]);
        }
        assert(a =~= b);
    }
}

/// A bucket that the store gave became a point.
pub open spec fn is_bucket_point(p: Point, row: BucketRow, step: int, counting: bool) -> bool {
    &&& p.start == row.bucket
    &&& p.end.secs == row.bucket.secs + step && p.end.nanos == row.bucket.nanos
    &&& counting ==> p.count == Some(row.count) && p.value is Some && p.value->0 == int_double(row.count as int)
    &&& !counting ==> p.count is None && p.value == row.value
}

/// The points of a series are the buckets that the store gave for it, all of them
/// and in order: the aggregated values, or the numbers of points where they are
/// counted.
pub proof fn law_points_are_the_buckets(rows: Seq<BucketRow>, id: i64, step: int, counting: bool)
    requires
        forall|i: int| 0 <= i < rows.len() ==> bucket_fits((#[trigger] rows[i]).bucket, step),
    ensures
        ({
            let mine = rows.filter(|r: BucketRow| r.series_id == id);
            let points = scalar_points(rows, id, step, counting);
            points.len() == mine.len() && forall|k: int|
                0 <= k < points.len() ==> is_bucket_point(#[trigger] points[k], mine[k], step, counting)
        }),
    decreases rows.len(),
{
    reveal(Seq::filter);
    if rows.len() > 0 {
        let front = rows.drop_last();
        assert forall|i: int| 0 <= i < front.len() implies bucket_fits((#[trigger] front[i]).bucket, step) by {
            assert(front[i] == rows[i]);
        }
        law_points_are_the_buckets(front, id, step, counting);
        assert(rows[rows.len() - 1] == rows.last());
        law_integers_have_bits(rows.last().count as int);
    }
}

/// A bucket of a histogram that the store gave became a point.
pub open spec fn is_histogram_bucket_point(p: Point, row: HistoBucketRow, step: int) -> bool {
    &&& p.start == row.bucket
    &&& p.end.secs == row.bucket.secs + step && p.end.nanos == row.bucket.nanos
    &&& p.value == row.sum
    &&& p.count == row.count
}

/// The points of a histogram series are the buckets that the store gave for it,
/// all of them and in order, with their sums and counts.
pub proof fn law_histogram_points_are_the_buckets(rows: Seq<HistoBucketRow>, id: i64, step: int)
    requires
        forall|i: int| 0 <= i < rows.len() ==> bucket_fits((#[trigger] rows[i]).bucket, step),
    ensures
        ({
            let mine = rows.filter(|r: HistoBucketRow| r.series_id == id);
            let points = histogram_points(rows, id, step);
            points.len() == mine.len() && forall|k: int|
                0 <= k < points.len() ==> is_histogram_bucket_point(#[trigger] points[k], mine[k], step)
        }),
    decreases rows.len(),
{
    reveal(Seq::filter);
    if rows.len() > 0 {
        let front = rows.drop_last();
        assert forall|i: int| 0 <= i < front.len() implies bucket_fits((#[trigger] front[i]).bucket, step) by {
            assert(front[i] == rows[i]);
        }
        law_histogram_points_are_the_buckets(front, id, step);
        assert(rows[rows.len() - 1] == rows.last());
    }
}

/// The store gave a bucket for a series.
pub open spec fn has_bucket(s: SeriesRow, rows: QueryRows) -> bool {
    if s.kind@ == "Histogram"@ {
        exists|i: int| 0 <= i < rows.histogram@.len() && (#[trigger] rows.histogram@[i]).series_id == s.series_id
    } else {
        exists|i: int| 0 <= i < rows.scalar@.len() && (#[trigger] rows.scalar@[i]).series_id == s.series_id
    }
}

proof fn lemma_some_scalar_point(rows: Seq<BucketRow>, id: i64, step: int, counting: bool)
    ensures
        scalar_points(rows, id, step, counting).len() > 0 <==> exists|i: int|
            0 <= i < rows.len() && (#[trigger] rows[i]).series_id == id,
    decreases rows.len(),
{
    if rows.len() > 0 {
        let front = rows.drop_last();
        lemma_some_scalar_point(front, id, step, counting);
        assert(rows[rows.len() - 1] == rows.last());
        if exists|i: int| 0 <= i < front.len() && (#[trigger] front[i]).series_id == id {
            let i = choose|i: int| 0 <= i < front.len() && (#[trigger] front[i]).series_id == id;
            assert(rows[i] == front[i]);
        }
        if exists|i: int| 0 <= i < rows.len() && (#[trigger] rows[i]).series_id == id {
            let i = choose|i: int| 0 <= i < rows.len() && (#[trigger] rows[i]).series_id == id;
            if i < front.len() {
                assert(rows[i] == front[i]);
            }
        }
    }
}

proof fn lemma_some_histogram_point(rows: Seq<HistoBucketRow>, id: i64, step: int)
    ensures
        histogram_points(rows, id, step).len() > 0 <==> exists|i: int|
            0 <= i < rows.len() && (#[trigger] rows[i]).series_id == id,
    decreases rows.len(),
{
    if rows.len() > 0 {
        let front = rows.drop_last();
        lemma_some_histogram_point(front, id, step);
        assert(rows[rows.len() - 1] == rows.last());
        if exists|i: int| 0 <= i < front.len() && (#[trigger] front[i]).series_id == id {
            let i = choose|i: int| 0 <= i < front.len() && (#[trigger] front[i]).series_id == id;
            assert(rows[i] == front[i]);
        }
        if exists|i: int| 0 <= i < rows.len() && (#[trigger] rows[i]).series_id == id {
            let i = choose|i: int| 0 <= i < rows.len() && (#[trigger] rows[i]).series_id == id;
            if i < front.len() {
                assert(rows[i] == front[i]);
            }
        }
    }
}

/// A series of the answer is that of a row of the store: it has the identifier,
/// the attributes and the kind of the row, and the points that stand for its
/// buckets. Only gauges, and sums that fall as well as rise, are counted.
pub open spec fn answers_row(r: ResultView, s: SeriesRow, rows: QueryRows, step: int, counting: bool) -> bool {
    &&& r.series_id == s.series_id
    &&& r.resource == s.resource@
    &&& r.attributes == s.attributes@
    &&& r.kind == s.kind@
    &&& if s.kind@ == "Histogram"@ {
        r.points == histogram_points(rows.histogram@, s.series_id, step)
    } else if s.kind@ == "Sum"@ && s.monotonic != Some(false) {
        r.points == scalar_points(rows.scalar@, s.series_id, step, false) && r.histogram is None
    } else {
        r.points == scalar_points(rows.scalar@, s.series_id, step, counting) && r.histogram is None
    }
}

/// The series of an answer are those for which the store gave buckets, all of
/// them and in order.
pub proof fn law_answer_has_every_series(series: Seq<SeriesRow>, rows: QueryRows, step: int, counting: bool)
    ensures
        ({
            let kept = series.filter(|s: SeriesRow| has_bucket(s, rows));
            let results = series_results(series, rows, step, counting);
            results.len() == kept.len() && forall|k: int|
                0 <= k < results.len() ==> answers_row(#[trigger] results[k], kept[k], rows, step, counting)
        }),
    decreases series.len(),
{
    reveal(Seq::filter);
    reveal_strlit("Sum");
    reveal_strlit("Histogram");
    assert("Sum"@.len() == 3 && "Histogram"@.len() == 9);
    if series.len() > 0 {
        let s = series.last();
        law_answer_has_every_series(series.drop_last(), rows, step, counting);
        lemma_some_scalar_point(rows.scalar@, s.series_id, step, counting);
        lemma_some_scalar_point(rows.scalar@, s.series_id, step, false);
        lemma_some_histogram_point(rows.histogram@, s.series_id, step);
    }
}

/// The series of a metric are read by their kinds: histograms as such, sums as
/// counters unless they are known to fall, and all others as gauges, each once
/// and in order.
pub proof fn law_series_are_read_by_their_kinds(rows: Seq<SeriesRow>)
    ensures
        ids_of_kind(rows, SeriesKind::Histogram) == rows.filter(|r: SeriesRow| r.kind@ == "Histogram"@).map_values(
            |r: SeriesRow| r.series_id,
        ),
        ids_of_kind(rows, SeriesKind::Counter) == rows.filter(
            |r: SeriesRow| r.kind@ == "Sum"@ && r.monotonic != Some(false),
        ).map_values(|r: SeriesRow| r.series_id),
        ids_of_kind(rows, SeriesKind::Gauge) == rows.filter(
            |r: SeriesRow| r.kind@ != "Histogram"@ && !(r.kind@ == "Sum"@ && r.monotonic != Some(false)),
        ).map_values(|r: SeriesRow| r.series_id),
    decreases rows.len(),
{
    reveal(Seq::filter);
    reveal_strlit("Sum");
    reveal_strlit("Histogram");
    assert("Sum"@.len() == 3 && "Histogram"@.len() == 9);
    let h = rows.filter(|r: SeriesRow| r.kind@ == "Histogram"@);
    let c = rows.filter(|r: SeriesRow| r.kind@ == "Sum"@ && r.monotonic != Some(false));
    let g = rows.filter(
        |r: SeriesRow| r.kind@ != "Histogram"@ && !(r.kind@ == "Sum"@ && r.monotonic != Some(false)),
    );
    if rows.len() > 0 {
        law_series_are_read_by_their_kinds(rows.drop_last());
    }
    assert(ids_of_kind(rows, SeriesKind::Histogram) =~= h.map_values(|r: SeriesRow| r.series_id));
    assert(ids_of_kind(rows, SeriesKind::Counter) =~= c.map_values(|r: SeriesRow| r.series_id));
    assert(ids_of_kind(rows, SeriesKind::Gauge) =~= g.map_values(|r: SeriesRow| r.series_id));
}

/// The whole numbers of a list, each within 64 bits.
pub open spec fn are_integers(items: Seq<JsonView>) -> bool {
    forall|i: int|
        0 <= i < items.len() ==> ((#[trigger] items[i]) matches JsonView::Number(NumberView::Int(n)) && i64::MIN <= n
            <= i64::MAX)
}

proof fn lemma_numbers_in(items: Seq<JsonView>)
    requires
        forall|i: int| 0 <= i < items.len() ==> (#[trigger] items[i]) is Number,
    ensures
        numbers_in(items).len() == items.len(),
        forall|i: int| 0 <= i < items.len() ==> JsonView::Number(numbers_in(items)[i]) == #[trigger] items[i],
    decreases items.len(),
{
    if items.len() > 0 {
        let front = items.drop_last();
        assert forall|i: int| 0 <= i < front.len() implies (#[trigger] front[i]) is Number by {
            assert(front[i] == items[i]);
        }
        lemma_numbers_in(front);
        assert(items[items.len() - 1] == items.last());
        assert forall|i: int| 0 <= i < items.len() implies JsonView::Number(numbers_in(items)[i]) == #[trigger] items[i] by {
            if i < front.len() {
                assert(front[i] == items[i]);
            }
        }
    }
}

proof fn lemma_integers_in(items: Seq<JsonView>)
    requires
        are_integers(items),
    ensures
        integers_in(items).len() == items.len(),
        forall|i: int|
            0 <= i < items.len() ==> JsonView::Number(NumberView::Int(integers_in(items)[i] as int)) == #[trigger] items[i],
    decreases items.len(),
{
    if items.len() > 0 {
        let front = items.drop_last();
        assert forall|i: int| 0 <= i < front.len() implies ((#[trigger] front[i]) matches JsonView::Number(
            NumberView::Int(n),
        ) && i64::MIN <= n <= i64::MAX) by {
            assert(front[i] == items[i]);
        }
        lemma_integers_in(front);
        assert(items[items.len() - 1] == items.last());
        assert forall|i: int| 0 <= i < items.len() implies JsonView::Number(
            NumberView::Int(integers_in(items)[i] as int),
        ) == #[trigger] items[i] by {
            if i < front.len() {
                assert(front[i] == items[i]);
            }
        }
    }
}

proof fn lemma_summary_at(rows: Seq<HistoSummaryRow>, id: i64, i: int)
    requires
        0 <= i <= rows.len(),
        forall|j: int| 0 <= j < i ==> (#[trigger] rows[j]).series_id != id,
    ensures
        summary_of(rows, id) == summary_of(rows.skip(i), id),
    decreases i,
{
    if i == 0 {
        assert(rows.skip(0) =~= rows);
    } else {
        lemma_summary_at(rows, id, i - 1);
        let rest = rows.skip(i - 1);
        assert(rest[0] == rows[i - 1]);
        assert(rest.skip(1) =~= rows.skip(i));
    }
}

/// The distribution of a histogram series is that of the first row that the store
/// gave for it: its bounds and its counts, number for number. Where there is no
/// row there is none.
pub proof fn law_distribution_is_kept(rows: Seq<HistoSummaryRow>, id: i64, i: int)
    ensures
        (forall|j: int| 0 <= j < rows.len() ==> (#[trigger] rows[j]).series_id != id) ==> summary_of(rows, id) is None,
        0 <= i < rows.len() && rows[i].series_id == id && (forall|j: int|
            0 <= j < i ==> (#[trigger] rows[j]).series_id != id) && rows[i].bounds@ is Array && rows[i].bucket_counts@ is Array
            && are_integers(rows[i].bucket_counts@->Array_0) && (forall|k: int|
            0 <= k < rows[i].bounds@->Array_0.len() ==> (#[trigger] rows[i].bounds@->Array_0[k]) is Number) ==> {
            let s = summary_of(rows, id);
            let bounds = rows[i].bounds@->Array_0;
            let counts = rows[i].bucket_counts@->Array_0;
            &&& s is Some
            &&& s->0.bounds.len() == bounds.len() && s->0.counts.len() == counts.len()
            &&& forall|k: int| 0 <= k < bounds.len() ==> JsonView::Number(s->0.bounds[k]) == #[trigger] bounds[k]
            &&& forall|k: int|
                0 <= k < counts.len() ==> JsonView::Number(NumberView::Int(s->0.counts[k] as int)) == #[trigger] counts[k]
        },
{
    if forall|j: int| 0 <= j < rows.len() ==> (#[trigger] rows[j]).series_id != id {
        lemma_summary_at(rows, id, rows.len() as int);
    }
    if 0 <= i < rows.len() && rows[i].series_id == id && (forall|j: int|
        0 <= j < i ==> (#[trigger] rows[j]).series_id != id) && rows[i].bounds@ is Array && rows[i].bucket_counts@ is Array
        && are_integers(rows[i].bucket_counts@->Array_0) && (forall|k: int|
        0 <= k < rows[i].bounds@->Array_0.len() ==> (#[trigger] rows[i].bounds@->Array_0[k]) is Number) {
        lemma_summary_at(rows, id, i);
        assert(rows.skip(i)[0] == rows[i]);
        lemma_numbers_in(rows[i].bounds@->Array_0);
        lemma_integers_in(rows[i].bucket_counts@->Array_0);
    }
}

/// The unit of an answer is that of the first series, if there is one.
pub proof fn law_unit_is_that_of_the_first_series(series: Seq<SeriesRow>)
    ensures
        series.len() == 0 ==> first_unit(series) is None,
        series.len() > 0 && series[0].unit is None ==> first_unit(series) is None,
        series.len() > 0 ==> (series[0].unit matches Some(u) ==> first_unit(series) == Some(u@)),
{
}

/// The aggregation that is asked for is the one that is named, and the average where
/// none is.
pub proof fn law_aggregation_is_the_one_named(agg: Option<&str>)
    ensures
        agg matches Some(a) ==> agg_asked(agg) == a@,
        agg is None ==> agg_asked(agg) == "avg"@,
{
}

/// A series of the answer stands for its fields.
pub proof fn law_result_stands_for_its_fields(r: SeriesResult)
    ensures
        r@.series_id == r.series_id && r@.kind == r.kind@,
        r@.resource == r.resource@ && r@.attributes == r.attributes@,
        r@.points == r.points@,
        r@.histogram is Some <==> r.histogram is Some,
        r.histogram matches Some(h) ==> r@.histogram->0.counts == h.latest_bucket_counts@ && r@.histogram->0.bounds.len()
            == h.bounds@.len(),
{
}

} // verus!
