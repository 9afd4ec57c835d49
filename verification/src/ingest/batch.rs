//! Taking the items of a metrics request one after another.
//!
//! An item is admitted or rejected. The series of an admitted item is resolved,
//! and the item is stored under the identifier of its series.

use vstd::prelude::*;

use opentelemetry_proto::tonic::metrics::v1::{Metric, ResourceMetrics, ScopeMetrics};

use crate::float::{double_le, le};
use crate::http::Reply;
use crate::ingest::decode::{answers, metrics_response};
use crate::ingest::metrics::{
    metric_items, points_of, request_items, resource_items, resource_json, scope_items, ExemplarView, ItemView, MetricItem,
};
use crate::json::{opt_json, JsonView};
use crate::store::schema::{key_of, HistogramPoint, KeyView, MetricPoint, PointValue};
use crate::store::series::{last_cumulative, with_cumulative, Entries, SeriesCache};
use crate::text::{join_spec, opt_text, str_eq};
use crate::time::{
    in_window, instant_of_nanos, law_instant_keeps_its_nanoseconds, nano_to_dt, span_fits, ts_in_window_at, utc_now, Timestamp, MAX_SECS, MIN_SECS,
    NANOS_PER_SEC,
};

verus! {

/// The value of a counter that counts from the start of the process that sent
/// it: its rise since the last value seen. The first value seen, and one that
/// is below the last, stand for themselves.
pub open spec fn counter_rise(last: Option<u64>, value: u64) -> PointValue {
    match last {
        Some(p) => if double_le(p, value) {
            PointValue::Rise { from: p, to: value }
        } else {
            PointValue::Given(value)
        },
        None => PointValue::Given(value),
    }
}

/// The value to store for a counter whose last value was `last`.
pub fn counter_delta(last: Option<u64>, value: u64) -> (r: PointValue)
    ensures
        r == counter_rise(last, value),
{
    match last {
        Some(p) => if le(p, value) {
            PointValue::Rise { from: p, to: value }
        } else {
            PointValue::Given(value)
        },
        None => PointValue::Given(value),
    }
}

/// What a stored number stands for.
#[verifier::ext_equal]
pub struct PointView {
    pub series_id: i64,
    pub ts: Timestamp,
    pub value: PointValue,
    pub exemplar: ExemplarView,
}

impl MetricPoint {
    pub open spec fn view(&self) -> PointView {
        PointView {
            series_id: self.series_id,
            ts: self.ts,
            value: self.value,
            exemplar: (opt_text(self.exemplar_trace_id), opt_text(self.exemplar_span_id)),
        }
    }
}

/// What a stored histogram stands for.
#[verifier::ext_equal]
pub struct HistogramView {
    pub series_id: i64,
    pub ts: Timestamp,
    pub sum: Option<u64>,
    pub count: Option<i64>,
    pub bucket_counts: Option<JsonView>,
    pub bounds: Option<JsonView>,
}

impl HistogramPoint {
    pub open spec fn view(&self) -> HistogramView {
        HistogramView {
            series_id: self.series_id,
            ts: self.ts,
            sum: self.sum,
            count: self.count,
            bucket_counts: opt_json(self.bucket_counts),
            bounds: opt_json(self.bounds),
        }
    }
}

/// What came of the items that were taken.
pub struct MetricsBatch {
    pub metric_points: Vec<MetricPoint>,
    pub histogram_points: Vec<HistogramPoint>,
    /// How many data points were rejected.
    pub rejected: i64,
    /// Why whole metrics were rejected, each reason once.
    pub reasons: Vec<&'static str>,
}

/// What a batch stands for.
#[verifier::ext_equal]
pub struct BatchView {
    pub metric_points: Seq<PointView>,
    pub histogram_points: Seq<HistogramView>,
    pub rejected: int,
    pub reasons: Seq<Seq<char>>,
}

/// The reasons with one more, if it is new.
pub open spec fn with_reason(reasons: Seq<Seq<char>>, reason: Seq<char>) -> Seq<Seq<char>> {
    if reasons.contains(reason) {
        reasons
    } else {
        reasons.push(reason)
    }
}

impl BatchView {
    pub open spec fn empty() -> BatchView {
        BatchView {
            metric_points: Seq::empty(),
            histogram_points: Seq::empty(),
            rejected: 0,
            reasons: Seq::empty(),
        }
    }

    pub open spec fn rejecting(self, count: int) -> BatchView {
        BatchView { rejected: self.rejected + count, ..self }
    }

    /// How many data points were taken, stored or rejected.
    pub open spec fn taken(self) -> int {
        self.metric_points.len() + self.histogram_points.len() + self.rejected
    }
}

/// When the data point of an item was measured, in nanoseconds since 1970.
pub open spec fn item_nanos(item: ItemView) -> u64 {
    match item {
        ItemView::Unsupported { .. } => 0,
        ItemView::Number { time_unix_nano, .. } => time_unix_nano,
        ItemView::Histogram { time_unix_nano, .. } => time_unix_nano,
    }
}

/// A data point that has a time.
pub open spec fn has_time(item: ItemView) -> bool {
    !(item is Unsupported) && instant_of_nanos(item_nanos(item)) is Some
}

/// The instant under which an item is stored: it has a time, and the time lies
/// in the ingest window.
pub open spec fn admission(item: ItemView, now: Timestamp, window: u64, tolerance: u64) -> Option<Timestamp> {
    match instant_of_nanos(item_nanos(item)) {
        Some(ts) => if !(item is Unsupported) && in_window(ts, now, window, tolerance) {
            Some(ts)
        } else {
            None
        },
        None => None,
    }
}

/// How many data points an item stands for.
pub open spec fn item_count(item: ItemView) -> int {
    match item {
        ItemView::Unsupported { points, .. } => points,
        _ => 1,
    }
}

/// The batch after an item was looked at: one that is not admitted is counted
/// as rejected, with the reason if its whole metric is not supported.
pub open spec fn after_admission(
    batch: BatchView,
    item: ItemView,
    now: Timestamp,
    window: u64,
    tolerance: u64,
) -> BatchView {
    match item {
        ItemView::Unsupported { points, reason } => BatchView {
            reasons: with_reason(batch.reasons, reason),
            ..batch.rejecting(points)
        },
        _ => if admission(item, now, window, tolerance) is Some {
            batch
        } else {
            batch.rejecting(1)
        },
    }
}

/// The key of the series of an item.
pub open spec fn item_key(item: ItemView) -> KeyView {
    match item {
        ItemView::Number { series, .. } => key_of(series.name, series.kind, series.resource, series.attributes),
        ItemView::Histogram { series, .. } => key_of(series.name, series.kind, series.resource, series.attributes),
        ItemView::Unsupported { .. } => key_of(Seq::empty(), Seq::empty(), JsonView::Null, JsonView::Null),
    }
}

/// The value to store for a number, given the last value of its series.
pub open spec fn stored_value(item: ItemView, last: Option<u64>) -> PointValue {
    match item {
        ItemView::Number { monotonic, value: Some(v), .. } => if monotonic {
            counter_rise(last, v)
        } else {
            PointValue::Given(v)
        },
        _ => PointValue::Given(0),
    }
}

/// The batch after an admitted item was stored. A number without a value is
/// rejected.
pub open spec fn after_store(
    batch: BatchView,
    item: ItemView,
    ts: Timestamp,
    series_id: i64,
    last: Option<u64>,
) -> BatchView {
    match item {
        ItemView::Number { value: Some(_), exemplar, .. } => BatchView {
            metric_points: batch.metric_points.push(
                PointView { series_id, ts, value: stored_value(item, last), exemplar },
            ),
            ..batch
        },
        ItemView::Number { value: None, .. } => batch.rejecting(1),
        ItemView::Histogram { sum, count, bucket_counts, bounds, .. } => BatchView {
            histogram_points: batch.histogram_points.push(
                HistogramView { series_id, ts, sum, count, bucket_counts, bounds },
            ),
            ..batch
        },
        ItemView::Unsupported { .. } => batch,
    }
}

/// The cache after an admitted item was stored: it keeps the value of a
/// counter.
pub open spec fn cache_after_store(es: Entries, item: ItemView) -> Entries {
    match item {
        ItemView::Number { monotonic: true, value: Some(v), .. } => with_cumulative(es, item_key(item), v),
        _ => es,
    }
}

impl MetricsBatch {
    pub open spec fn view(&self) -> BatchView {
        BatchView {
            metric_points: Seq::new(self.metric_points@.len(), |i: int| self.metric_points@[i]@),
            histogram_points: Seq::new(self.histogram_points@.len(), |i: int| self.histogram_points@[i]@),
            rejected: self.rejected as int,
            reasons: Seq::new(self.reasons@.len(), |i: int| self.reasons@[i]@),
        }
    }

    /// Nothing taken yet.
    pub fn new() -> (r: MetricsBatch)
        ensures
            r@ == BatchView::empty(),
    {
        let r = MetricsBatch {
            metric_points: Vec::new(),
            histogram_points: Vec::new(),
            rejected: 0,
            reasons: Vec::new(),
        };
        assert(r@ =~= BatchView::empty());
        r
    }

    fn add_reason(&mut self, reason: &'static str)
        ensures
            final(self)@ == (BatchView { reasons: with_reason(old(self)@.reasons, reason@), ..old(self)@ }),
    {
        let mut i: usize = 0;
        while i < self.reasons.len()
            invariant
                *self == *old(self),
                i <= self.reasons@.len(),
                forall|j: int| 0 <= j < i ==> self@.reasons[j] != reason@,
            decreases self.reasons.len() - i,
        {
            if str_eq(self.reasons[i], reason) {
                assert(self@.reasons[i as int] == reason@);
                assert(self@.reasons.contains(reason@));
                assert(self@ =~= (BatchView { reasons: with_reason(old(self)@.reasons, reason@), ..old(self)@ }));
                return;
            }
            i += 1;
        }
        assert(!self@.reasons.contains(reason@));
        self.reasons.push(reason);
        assert(self@ =~= (BatchView { reasons: with_reason(old(self)@.reasons, reason@), ..old(self)@ }));
    }

    fn reject(&mut self, count: usize)
        requires
            0 <= old(self)@.rejected,
            old(self)@.rejected + count <= i64::MAX,
        ensures
            final(self)@ == old(self)@.rejecting(count as int),
    {
        self.rejected = self.rejected + count as i64;
        assert(self@ =~= old(self)@.rejecting(count as int));
    }

    /// Looks at an item: the instant under which it is to be stored, once its
    /// series is resolved, or none where it is rejected.
    pub fn consider_at(
        &mut self,
        item: &MetricItem,
        now: Timestamp,
        ingest_window_secs: u64,
        future_tolerance_secs: u64,
    ) -> (r: Option<Timestamp>)
        requires
            has_time(item@) ==> span_fits(ingest_window_secs) && span_fits(future_tolerance_secs),
            MIN_SECS <= now.secs <= MAX_SECS,
            0 <= old(self)@.rejected,
            old(self)@.rejected + item_count(item@) <= i64::MAX,
        ensures
            r == admission(item@, now, ingest_window_secs, future_tolerance_secs),
            final(self)@ == after_admission(
                old(self)@,
                item@,
                now,
                ingest_window_secs,
                future_tolerance_secs,
            ),
    {
        let nanos: u64 = match item {
            MetricItem::Unsupported { points, reason } => {
                self.reject(*points);
                self.add_reason(reason);
                return None;
            },
            MetricItem::Number { time_unix_nano, .. } => *time_unix_nano,
            MetricItem::Histogram { time_unix_nano, .. } => *time_unix_nano,
        };
        match nano_to_dt(nanos) {
            Some(ts) => if ts_in_window_at(ts, now, ingest_window_secs, future_tolerance_secs) {
                Some(ts)
            } else {
                self.reject(1);
                None
            },
            None => {
                self.reject(1);
                None
            },
        }
    }

    /// Looks at an item at the present.
    pub fn consider(&mut self, item: &MetricItem, ingest_window_secs: u64, future_tolerance_secs: u64) -> (r: Option<
        Timestamp,
    >)
        requires
            has_time(item@) ==> span_fits(ingest_window_secs) && span_fits(future_tolerance_secs),
            0 <= old(self)@.rejected,
            old(self)@.rejected + item_count(item@) <= i64::MAX,
        ensures
            exists|now: Timestamp|
                0 <= now.secs <= MAX_SECS && now.nanos < NANOS_PER_SEC && r == #[trigger] admission(
                    item@,
                    now,
                    ingest_window_secs,
                    future_tolerance_secs,
                ) && final(self)@ == after_admission(
                    old(self)@,
                    item@,
                    now,
                    ingest_window_secs,
                    future_tolerance_secs,
                ),
    {
        let now = utc_now();
        self.consider_at(item, now, ingest_window_secs, future_tolerance_secs)
    }

    /// Stores an admitted item under the identifier of its series. The value of
    /// a monotonic counter is its rise since the last value that the cache has
    /// for the series, which it replaces.
    pub fn store(&mut self, item: MetricItem, ts: Timestamp, series_id: i64, cache: &mut SeriesCache)
        requires
            old(cache).well_formed(),
            0 <= old(self)@.rejected < i64::MAX,
        ensures
            final(cache).well_formed(),
            final(cache).capacity() == old(cache).capacity(),
            final(cache)@ == cache_after_store(old(cache)@, item@),
            final(self)@ == after_store(
                old(self)@,
                item@,
                ts,
                series_id,
                last_cumulative(old(cache)@, item_key(item@)),
            ),
    {
        let ghost before = self@;
        let ghost view = item@;
        let ghost last = last_cumulative(cache@, item_key(item@));
        match item {
            MetricItem::Number { series, monotonic, value, exemplar_trace_id, exemplar_span_id, .. } => {
                match value {
                    Some(v) => {
                        let stored: PointValue = if monotonic {
                            let key = series.key();
                            counter_delta(cache.swap_cumulative(&key, v), v)
                        } else {
                            PointValue::Given(v)
                        };
                        self.metric_points.push(
                            MetricPoint { series_id, ts, value: stored, exemplar_trace_id, exemplar_span_id },
                        );
                        assert(self@ =~= after_store(before, view, ts, series_id, last));
                    },
                    None => {
                        self.reject(1);
                    },
                }
            },
            MetricItem::Histogram { sum, count, bucket_counts, bounds, .. } => {
                self.histogram_points.push(
                    HistogramPoint { series_id, ts, sum, count, bucket_counts, bounds },
                );
                assert(self@ =~= after_store(before, view, ts, series_id, last));
            },
            MetricItem::Unsupported { .. } => {},
        }
    }

    /// The answer for what was taken: how much was rejected, and the reasons.
    pub fn answer(&self) -> (r: Reply)
        ensures
            answers(r, "rejectedDataPoints"@, self.rejected, join_spec(self@.reasons, "; "@)),
    {
        let mut message = String::new();
        let mut i: usize = 0;
        let ghost all = self@.reasons;
        while i < self.reasons.len()
            invariant
                i <= self.reasons@.len(),
                all == self@.reasons,
                message@ == join_spec(all.take(i as int), "; "@),
            decreases self.reasons.len() - i,
        {
            let ghost so_far = message@;
            if i > 0 {
                message.push_str("; ");
            }
            message.push_str(self.reasons[i]);
            proof {
                assert(all.take(i + 1).drop_last() =~= all.take(i as int));
                assert(all.take(i + 1).last() == self.reasons@[i as int]@);
                if i == 0 {
                    assert(message@ =~= self.reasons@[0]@);
                } else {
                    assert(message@ =~= so_far + "; "@ + self.reasons@[i as int]@);
                }
            }
            i += 1;
        }
        assert(all.take(all.len() as int) =~= all);
        metrics_response(self.rejected, message.as_str())
    }
}

// ---------------------------------------------------------------------------
// Laws
// ---------------------------------------------------------------------------

/// Every data point is accounted for: taking an item, rejected or stored,
/// raises the number of data points taken by those the item stands for.
pub proof fn law_every_point_counts(
    batch: BatchView,
    item: ItemView,
    now: Timestamp,
    window: u64,
    tolerance: u64,
    ts: Timestamp,
    series_id: i64,
    last: Option<u64>,
)
    ensures
        admission(item, now, window, tolerance) is None ==> after_admission(
            batch,
            item,
            now,
            window,
            tolerance,
        ).taken() == batch.taken() + item_count(item),
        admission(item, now, window, tolerance) is Some ==> after_store(
            after_admission(batch, item, now, window, tolerance),
            item,
            ts,
            series_id,
            last,
        ).taken() == batch.taken() + item_count(item),
{
}

/// How many data points the items stand for.
pub open spec fn total_count(items: Seq<ItemView>) -> int
    decreases items.len(),
{
    if items.len() == 0 {
        0
    } else {
        total_count(items.drop_last()) + item_count(items.last())
    }
}

/// What the outside world had to say about one item: the time, the identifier
/// of the series, and the last value of the series.
pub struct Outcome {
    pub now: Timestamp,
    pub series_id: i64,
    pub last: Option<u64>,
}

/// The batch after all items were taken.
pub open spec fn after_all(items: Seq<ItemView>, outcomes: Seq<Outcome>, window: u64, tolerance: u64) -> BatchView
    decreases items.len(),
{
    if items.len() == 0 {
        BatchView::empty()
    } else {
        let before = after_all(items.drop_last(), outcomes, window, tolerance);
        let item = items.last();
        let o = outcomes[items.len() - 1];
        let looked_at = after_admission(before, item, o.now, window, tolerance);
        match admission(item, o.now, window, tolerance) {
            Some(ts) => after_store(looked_at, item, ts, o.series_id, o.last),
            None => looked_at,
        }
    }
}

/// However the clock and the store behave, each data point of a request is
/// either stored or counted as rejected.
pub proof fn law_request_is_accounted_for(
    items: Seq<ItemView>,
    outcomes: Seq<Outcome>,
    window: u64,
    tolerance: u64,
)
    ensures
        after_all(items, outcomes, window, tolerance).taken() == total_count(items),
    decreases items.len(),
{
    if items.len() > 0 {
        let n = items.len() - 1;
        let o = outcomes[n];
        law_request_is_accounted_for(items.drop_last(), outcomes, window, tolerance);
        let before = after_all(items.drop_last(), outcomes, window, tolerance);
        let ts = admission(items.last(), o.now, window, tolerance)->0;
        law_every_point_counts(before, items.last(), o.now, window, tolerance, ts, o.series_id, o.last);
    }
}

/// Each reason is given once.
pub proof fn law_reasons_once(reasons: Seq<Seq<char>>, reason: Seq<char>)
    requires
        reasons.no_duplicates(),
    ensures
        with_reason(reasons, reason).no_duplicates(),
        with_reason(reasons, reason).contains(reason),
{
    let r = with_reason(reasons, reason);
    if !reasons.contains(reason) {
        assert(r[reasons.len() as int] == reason);
        assert forall|i: int, j: int| 0 <= i < r.len() && 0 <= j < r.len() && i != j implies r[i] != r[j] by {
            if i < reasons.len() && j < reasons.len() {
                assert(reasons[i] != reasons[j]);
            } else if i < reasons.len() {
                assert(reasons.contains(reasons[i]));
            } else {
                assert(reasons.contains(reasons[j]));
            }
        }
    }
}

/// Nothing that has no time, or a time outside the window, is stored.
pub proof fn law_stored_lies_in_window(item: ItemView, now: Timestamp, window: u64, tolerance: u64)
    ensures
        admission(item, now, window, tolerance) matches Some(ts) ==> in_window(ts, now, window, tolerance)
            && item_nanos(item) != 0,
{
}

/// A counter that does not fall gives the rise between two of its values; one
/// that was reset gives its new value.
pub proof fn law_counter_reset(last: u64, value: u64)
    ensures
        double_le(last, value) ==> counter_rise(Some(last), value) == (PointValue::Rise { from: last, to: value }),
        !double_le(last, value) ==> counter_rise(Some(last), value) == PointValue::Given(value),
        counter_rise(None, value) == PointValue::Given(value),
{
}

/// The value that a counter stores is the one that its next value is measured
/// against.
pub proof fn law_counter_chain(es: Entries, item: ItemView, value: u64)
    requires
        crate::store::series::distinct(es),
        item matches ItemView::Number { monotonic: true, value: Some(v), .. } && v == value,
        crate::store::series::cached(es, item_key(item)) is Some,
    ensures
        last_cumulative(cache_after_store(es, item), item_key(item)) == Some(value),
{
    crate::store::series::law_swapped_value_comes_back(es, item_key(item), value, item_key(item));
}

/// How many data points metrics have.
pub open spec fn points_in_scope(metrics: Seq<Metric>) -> int
    decreases metrics.len(),
{
    if metrics.len() == 0 {
        0
    } else {
        points_in_scope(metrics.drop_last()) + points_of(metrics.last())
    }
}

/// How many data points scopes have.
pub open spec fn points_in_scopes(scopes: Seq<ScopeMetrics>) -> int
    decreases scopes.len(),
{
    if scopes.len() == 0 {
        0
    } else {
        points_in_scopes(scopes.drop_last()) + points_in_scope(scopes.last().metrics@)
    }
}

/// How many data points a request has.
pub open spec fn points_sent(resources: Seq<ResourceMetrics>) -> int
    decreases resources.len(),
{
    if resources.len() == 0 {
        0
    } else {
        points_sent(resources.drop_last()) + points_in_scopes(resources.last().scope_metrics@)
    }
}

proof fn lemma_total_adds(a: Seq<ItemView>, b: Seq<ItemView>)
    ensures
        total_count(a + b) == total_count(a) + total_count(b),
    decreases b.len(),
{
    if b.len() == 0 {
        assert(a + b =~= a);
    } else {
        assert((a + b).drop_last() =~= a + b.drop_last());
        lemma_total_adds(a, b.drop_last());
    }
}

proof fn lemma_total_of_points(items: Seq<ItemView>)
    requires
        forall|i: int| 0 <= i < items.len() ==> !((#[trigger] items[i]) is Unsupported),
    ensures
        total_count(items) == items.len(),
    decreases items.len(),
{
    if items.len() > 0 {
        assert forall|i: int| 0 <= i < items.drop_last().len() implies !((#[trigger] items.drop_last()[i]) is Unsupported) by {
            assert(items.drop_last()[i] == items[i]);
        }
        lemma_total_of_points(items.drop_last());
        assert(items[items.len() - 1] == items.last());
    }
}

proof fn lemma_total_of_metric(resource: JsonView, m: Metric)
    ensures
        total_count(metric_items(resource, m)) == points_of(m),
{
    let items = metric_items(resource, m);
    if items.len() == 1 && items[0] is Unsupported {
        assert(items.drop_last() =~= Seq::empty());
        assert(total_count(items.drop_last()) == 0);
    } else {
        lemma_total_of_points(items);
    }
}

proof fn lemma_total_of_scope(resource: JsonView, metrics: Seq<Metric>)
    ensures
        total_count(scope_items(resource, metrics)) == points_in_scope(metrics),
    decreases metrics.len(),
{
    if metrics.len() > 0 {
        lemma_total_of_scope(resource, metrics.drop_last());
        lemma_total_of_metric(resource, metrics.last());
        lemma_total_adds(scope_items(resource, metrics.drop_last()), metric_items(resource, metrics.last()));
    }
}

proof fn lemma_total_of_scopes(resource: JsonView, scopes: Seq<ScopeMetrics>)
    ensures
        total_count(resource_items(resource, scopes)) == points_in_scopes(scopes),
    decreases scopes.len(),
{
    if scopes.len() > 0 {
        lemma_total_of_scopes(resource, scopes.drop_last());
        lemma_total_of_scope(resource, scopes.last().metrics@);
        lemma_total_adds(
            resource_items(resource, scopes.drop_last()),
            scope_items(resource, scopes.last().metrics@),
        );
    }
}

/// The items of a request stand for the data points that it has: none is lost,
/// and none is made up.
pub proof fn law_no_point_lost_or_made_up(resources: Seq<ResourceMetrics>)
    ensures
        total_count(request_items(resources)) == points_sent(resources),
    decreases resources.len(),
{
    if resources.len() > 0 {
        let last = resources.last();
        law_no_point_lost_or_made_up(resources.drop_last());
        lemma_total_of_scopes(resource_json(last.resource), last.scope_metrics@);
        lemma_total_adds(
            request_items(resources.drop_last()),
            resource_items(resource_json(last.resource), last.scope_metrics@),
        );
    }
}

/// What is admitted is admitted under the time at which it was measured, to the
/// nanosecond; every data point in the window is admitted.
pub proof fn law_points_keep_their_time(item: ItemView, now: Timestamp, window: u64, tolerance: u64)
    ensures
        admission(item, now, window, tolerance) matches Some(ts) ==> match item {
            ItemView::Number { time_unix_nano, .. } => ts.secs * 1_000_000_000 + ts.nanos == time_unix_nano && ts.nanos
                < 1_000_000_000,
            ItemView::Histogram { time_unix_nano, .. } => ts.secs * 1_000_000_000 + ts.nanos == time_unix_nano && ts.nanos
                < 1_000_000_000,
            ItemView::Unsupported { .. } => false,
        },
        admission(item, now, window, tolerance) is None && !(item is Unsupported) ==> item_nanos(item) == 0
            || !in_window(instant_of_nanos(item_nanos(item))->0, now, window, tolerance),
{
    law_instant_keeps_its_nanoseconds(item_nanos(item));
}

/// Storing a number adds a point with the time, the series and the exemplar of
/// the item behind those that are there, and with its value unless it counts up;
/// storing a histogram adds one with its sum, its count and its buckets. A number
/// without a value adds nothing and is counted as rejected.
pub proof fn law_stored_is_what_was_sent(batch: BatchView, item: ItemView, ts: Timestamp, series_id: i64, last: Option<u64>)
    ensures
        ({
            let after = after_store(batch, item, ts, series_id, last);
            let n = batch.metric_points.len();
            let h = batch.histogram_points.len();
            &&& after.reasons == batch.reasons
            &&& after.metric_points.len() >= n && after.histogram_points.len() >= h
            &&& forall|i: int| 0 <= i < n ==> #[trigger] after.metric_points[i] == batch.metric_points[i]
            &&& forall|i: int| 0 <= i < h ==> #[trigger] after.histogram_points[i] == batch.histogram_points[i]
            &&& match item {
                ItemView::Number { monotonic, value: Some(v), exemplar, .. } => {
                    let p = after.metric_points[n as int];
                    &&& after.metric_points.len() == n + 1 && after.histogram_points.len() == h
                    &&& after.rejected == batch.rejected
                    &&& p.series_id == series_id && p.ts == ts && p.exemplar == exemplar
                    &&& !monotonic || last is None ==> p.value == PointValue::Given(v)
                    &&& monotonic && last is Some && double_le(last->0, v) ==> p.value == (PointValue::Rise {
                        from: last->0,
                        to: v,
                    })
                    &&& monotonic && last is Some && !double_le(last->0, v) ==> p.value == PointValue::Given(v)
                },
                ItemView::Histogram { sum, count, bucket_counts, bounds, .. } => {
                    let p = after.histogram_points[h as int];
                    &&& after.histogram_points.len() == h + 1 && after.metric_points.len() == n
                    &&& after.rejected == batch.rejected
                    &&& p.series_id == series_id && p.ts == ts && p.sum == sum && p.count == count
                    &&& p.bucket_counts == bucket_counts && p.bounds == bounds
                },
                ItemView::Number { value: None, .. } => after.metric_points.len() == n && after.histogram_points.len()
                    == h && after.rejected == batch.rejected + 1,
                ItemView::Unsupported { .. } => after == batch,
            }
        }),
{
}

/// Looking at an item stores nothing; what is rejected is counted with all of its
/// data points, and the reason of a metric that is turned down is kept.
pub proof fn law_rejections_are_counted(batch: BatchView, item: ItemView, now: Timestamp, window: u64, tolerance: u64)
    ensures
        ({
            let after = after_admission(batch, item, now, window, tolerance);
            &&& after.metric_points == batch.metric_points && after.histogram_points == batch.histogram_points
            &&& match item {
                ItemView::Unsupported { points, reason } => after.rejected == batch.rejected + points
                    && after.reasons.contains(reason) && forall|r: Seq<char>|
                    batch.reasons.contains(r) ==> #[trigger] after.reasons.contains(r),
                _ => after.reasons == batch.reasons && after.rejected == batch.rejected + if admission(
                    item,
                    now,
                    window,
                    tolerance,
                ) is Some {
                    0int
                } else {
                    1int
                },
            }
        }),
{
    if let ItemView::Unsupported { points, reason } = item {
        let after = with_reason(batch.reasons, reason);
        if !batch.reasons.contains(reason) {
            assert(after[batch.reasons.len() as int] == reason);
            assert forall|r: Seq<char>| batch.reasons.contains(r) implies #[trigger] after.contains(r) by {
                let i = choose|i: int| 0 <= i < batch.reasons.len() && batch.reasons[i] == r;
                assert(after[i] == r);
            }
        }
    }
}

/// Stored points and batches stand for their fields.
pub proof fn law_batch_stands_for_its_fields(p: MetricPoint, h: HistogramPoint, b: MetricsBatch)
    ensures
        p@.series_id == p.series_id && p@.ts == p.ts && p@.value == p.value,
        p@.exemplar.0 == opt_text(p.exemplar_trace_id) && p@.exemplar.1 == opt_text(p.exemplar_span_id),
        h@.series_id == h.series_id && h@.ts == h.ts && h@.sum == h.sum && h@.count == h.count,
        h@.bucket_counts == opt_json(h.bucket_counts) && h@.bounds == opt_json(h.bounds),
        b@.metric_points.len() == b.metric_points@.len() && b@.histogram_points.len() == b.histogram_points@.len(),
        forall|i: int| 0 <= i < b.metric_points@.len() ==> (#[trigger] b.metric_points@[i])@ == b@.metric_points[i],
        forall|i: int|
            0 <= i < b.histogram_points@.len() ==> (#[trigger] b.histogram_points@[i])@ == b@.histogram_points[i],
        b@.rejected == b.rejected && b@.reasons.len() == b.reasons@.len(),
{
}

} // verus!
