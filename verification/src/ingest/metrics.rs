//! Metrics: from a request to the data points that are stored.
//!
//! A request is first laid out as a list of items, one for each data point and
//! one for each metric of a form that is not supported. The items are then
//! taken one after another. Between admitting an item and storing it, the
//! series that it belongs to is resolved.

use vstd::float::FloatBitsProperties;
use vstd::prelude::*;

use opentelemetry_proto::tonic::collector::metrics::v1::ExportMetricsServiceRequest;
use opentelemetry_proto::tonic::common::v1::any_value::Value as AnyKind;
use opentelemetry_proto::tonic::common::v1::KeyValue;
use opentelemetry_proto::tonic::metrics::v1::metric::Data;
use opentelemetry_proto::tonic::metrics::v1::number_data_point::Value as NumberKind;
use opentelemetry_proto::tonic::metrics::v1::{
    Exemplar, HistogramDataPoint, Metric, NumberDataPoint, ResourceMetrics, ScopeMetrics,
};
use opentelemetry_proto::tonic::resource::v1::Resource;

use crate::double::{double_bits, double_json, double_to_json};
use crate::float::{int_double, int_double_bits, law_integers_have_bits};
use crate::ingest::attributes::{
    attributes_json, bytes_are_zero, bytes_to_hex, hex, hex_id, id_text, kv_to_json,
    law_attributes_can_be_looked_up, law_different_attributes_differ_in_text, law_hex_gives_back_bytes,
    law_identifier_is_named, names, no_doubles, shows, unset,
};
use crate::json::{
    lemma_array_view, lemma_object_view, member, member_views, opt_json, views, Json, JsonNumber, JsonView, NumberView,
};
use crate::store::schema::{key_of, Series};
use crate::text::{opt_text, str_eq};
use crate::time::{wrap_i64, wrapped};

verus! {

// ---------------------------------------------------------------------------
// Parts of a data point
// ---------------------------------------------------------------------------

/// The attributes of a resource in JSON: an empty object where there is none.
pub open spec fn resource_json(r: Option<Resource>) -> JsonView {
    match r {
        Some(r) => attributes_json(r.attributes@),
        None => JsonView::Object(Seq::empty()),
    }
}

/// The attributes of a resource in JSON.
pub(crate) fn resource_to_json(r: &Option<Resource>) -> (j: Json)
    ensures
        j@ == resource_json(*r),
{
    match r {
        Some(r) => kv_to_json(&r.attributes),
        None => {
            let members: Vec<(String, Json)> = Vec::new();
            proof {
                lemma_object_view(members);
                assert(member_views(members@) =~= Seq::empty());
            }
            Json::Object(members)
        },
    }
}

/// The text, if it is not empty.
pub open spec fn nonempty(s: Seq<char>) -> Option<Seq<char>> {
    if s.len() == 0 {
        None
    } else {
        Some(s)
    }
}

/// The text, if it is not empty.
pub(crate) fn nonempty_text(s: &String) -> (r: Option<String>)
    ensures
        opt_text(r) == nonempty(s@),
{
    if s.as_str().is_empty() {
        None
    } else {
        Some(s.clone())
    }
}

/// The bits of the number of a data point. An integer counts as the nearest
/// double.
pub open spec fn number_bits(v: Option<NumberKind>) -> Option<u64> {
    match v {
        Some(NumberKind::AsDouble(d)) => Some(d.to_bits_spec()),
        Some(NumberKind::AsInt(i)) => Some(int_double(i as int) as u64),
        None => None,
    }
}

/// The bits of the number of a data point.
pub fn number_value(dp: &NumberDataPoint) -> (r: Option<u64>)
    ensures
        r == number_bits(dp.value),
{
    match &dp.value {
        Some(NumberKind::AsDouble(d)) => Some(double_bits(&AnyKind::DoubleValue(*d))),
        Some(NumberKind::AsInt(i)) => Some(int_double_bits(*i)),
        None => None,
    }
}

/// The trace and the span of an exemplar, in hexadecimal.
pub type ExemplarView = (Option<Seq<char>>, Option<Seq<char>>);

/// The trace and the span of the first exemplar whose trace is set.
pub open spec fn exemplar_of(exemplars: Seq<Exemplar>) -> ExemplarView
    decreases exemplars.len(),
{
    if exemplars.len() == 0 {
        (None, None)
    } else if !unset(exemplars[0].trace_id@) {
        (Some(hex(exemplars[0].trace_id@)), id_text(exemplars[0].span_id@))
    } else {
        exemplar_of(exemplars.skip(1))
    }
}

/// The trace and the span of the first exemplar whose trace is set.
pub fn extract_exemplar(exemplars: &Vec<Exemplar>) -> (r: (Option<String>, Option<String>))
    ensures
        (opt_text(r.0), opt_text(r.1)) == exemplar_of(exemplars@),
{
    let mut i: usize = 0;
    assert(exemplars@.skip(0) =~= exemplars@);
    while i < exemplars.len()
        invariant
            i <= exemplars.len(),
            exemplar_of(exemplars@) == exemplar_of(exemplars@.skip(i as int)),
        decreases exemplars.len() - i,
    {
        if !bytes_are_zero(exemplars[i].trace_id.as_slice()) {
            return (
                Some(bytes_to_hex(exemplars[i].trace_id.as_slice())),
                hex_id(exemplars[i].span_id.as_slice()),
            );
        }
        assert(exemplars@.skip(i as int).skip(1) =~= exemplars@.skip(i + 1));
        i += 1;
    }
    (None, None)
}

/// Whole numbers as a JSON array, if there are any.
pub open spec fn counts_json(counts: Seq<u64>) -> Option<JsonView> {
    if counts.len() == 0 {
        None
    } else {
        Some(
            JsonView::Array(
                Seq::new(counts.len(), |i: int| JsonView::Number(NumberView::Int(counts[i] as int))),
            ),
        )
    }
}

fn counts_to_json(counts: &Vec<u64>) -> (r: Option<Json>)
    ensures
        opt_json(r) == counts_json(counts@),
{
    if counts.len() == 0 {
        return None;
    }
    let mut items: Vec<Json> = Vec::new();
    let mut i: usize = 0;
    while i < counts.len()
        invariant
            i <= counts.len(),
            items@.len() == i,
            forall|j: int|
                0 <= j < i ==> (#[trigger] items@[j])@ == JsonView::Number(NumberView::Int(counts@[j] as int)),
        decreases counts.len() - i,
    {
        items.push(Json::Number(JsonNumber::PosInt(counts[i])));
        i += 1;
    }
    proof {
        lemma_array_view(items);
        assert(views(items@) =~= Seq::new(
            counts@.len(),
            |i: int| JsonView::Number(NumberView::Int(counts@[i] as int)),
        ));
    }
    Some(Json::Array(items))
}

/// The bounds of the buckets of a histogram data point as a JSON array, if it
/// has any.
pub open spec fn bounds_json(dp: HistogramDataPoint) -> Option<JsonView> {
    if dp.explicit_bounds@.len() == 0 {
        None
    } else {
        Some(
            JsonView::Array(
                Seq::new(dp.explicit_bounds@.len(), |i: int| double_json(dp.explicit_bounds@[i].to_bits_spec())),
            ),
        )
    }
}

fn bounds_to_json(dp: &HistogramDataPoint) -> (r: Option<Json>)
    ensures
        opt_json(r) == bounds_json(*dp),
{
    if dp.explicit_bounds.len() == 0 {
        return None;
    }
    let mut items: Vec<Json> = Vec::new();
    let mut i: usize = 0;
    while i < dp.explicit_bounds.len()
        invariant
            i <= dp.explicit_bounds@.len(),
            items@.len() == i,
            forall|j: int|
                0 <= j < i ==> (#[trigger] items@[j])@ == double_json(dp.explicit_bounds@[j].to_bits_spec()),
        decreases dp.explicit_bounds.len() - i,
    {
        items.push(double_to_json(&AnyKind::DoubleValue(dp.explicit_bounds[i])));
        i += 1;
    }
    proof {
        lemma_array_view(items);
        assert(views(items@) =~= Seq::new(
            dp.explicit_bounds@.len(),
            |i: int| double_json(dp.explicit_bounds@[i].to_bits_spec()),
        ));
    }
    Some(Json::Array(items))
}

/// The bits of the sum of a histogram data point.
pub open spec fn sum_bits(dp: HistogramDataPoint) -> Option<u64> {
    match dp.sum {
        Some(d) => Some(d.to_bits_spec()),
        None => None,
    }
}

fn sum_of(dp: &HistogramDataPoint) -> (r: Option<u64>)
    ensures
        r == sum_bits(*dp),
{
    match dp.sum {
        Some(d) => Some(double_bits(&AnyKind::DoubleValue(d))),
        None => None,
    }
}

// ---------------------------------------------------------------------------
// Items
// ---------------------------------------------------------------------------

/// What a request asks to store.
pub enum MetricItem {
    /// A metric of a form that is not supported, with its data points.
    Unsupported { points: usize, reason: &'static str },
    /// A number. That of a monotonic counter counts from the start of the
    /// process that sent it.
    Number {
        series: Series,
        monotonic: bool,
        time_unix_nano: u64,
        value: Option<u64>,
        exemplar_trace_id: Option<String>,
        exemplar_span_id: Option<String>,
    },
    /// A histogram.
    Histogram {
        series: Series,
        time_unix_nano: u64,
        sum: Option<u64>,
        count: Option<i64>,
        bucket_counts: Option<Json>,
        bounds: Option<Json>,
    },
}

/// What a series stands for.
#[verifier::ext_equal]
pub struct SeriesView {
    pub name: Seq<char>,
    pub resource: JsonView,
    pub attributes: JsonView,
    pub kind: Seq<char>,
    pub unit: Option<Seq<char>>,
}

impl Series {
    pub open spec fn view(&self) -> SeriesView {
        SeriesView {
            name: self.name@,
            resource: self.resource@,
            attributes: self.attributes@,
            kind: self.kind@,
            unit: opt_text(self.unit),
        }
    }
}

/// What an item stands for.
#[verifier::ext_equal]
pub enum ItemView {
    Unsupported { points: int, reason: Seq<char> },
    Number {
        series: SeriesView,
        monotonic: bool,
        time_unix_nano: u64,
        value: Option<u64>,
        exemplar: ExemplarView,
    },
    Histogram {
        series: SeriesView,
        time_unix_nano: u64,
        sum: Option<u64>,
        count: Option<i64>,
        bucket_counts: Option<JsonView>,
        bounds: Option<JsonView>,
    },
}

/// Whether a sum only ever rises.
pub open spec fn monotonicity(item: ItemView) -> Option<bool> {
    match item {
        ItemView::Number { series, monotonic, .. } => if series.kind == "Sum"@ {
            Some(monotonic)
        } else {
            None
        },
        _ => None,
    }
}

impl MetricItem {
    /// Whether a sum only ever rises: nothing for what is no sum.
    pub fn is_monotonic(&self) -> (r: Option<bool>)
        ensures
            r == monotonicity(self@),
    {
        match self {
            MetricItem::Number { series, monotonic, .. } => if str_eq(series.kind.as_str(), "Sum") {
                Some(*monotonic)
            } else {
                None
            },
            _ => None,
        }
    }

    pub open spec fn view(&self) -> ItemView {
        match self {
            MetricItem::Unsupported { points, reason } => ItemView::Unsupported {
                points: *points as int,
                reason: reason@,
            },
            MetricItem::Number {
                series,
                monotonic,
                time_unix_nano,
                value,
                exemplar_trace_id,
                exemplar_span_id,
            } => ItemView::Number {
                series: series@,
                monotonic: *monotonic,
                time_unix_nano: *time_unix_nano,
                value: *value,
                exemplar: (opt_text(*exemplar_trace_id), opt_text(*exemplar_span_id)),
            },
            MetricItem::Histogram { series, time_unix_nano, sum, count, bucket_counts, bounds } => ItemView::Histogram {
                series: series@,
                time_unix_nano: *time_unix_nano,
                sum: *sum,
                count: *count,
                bucket_counts: opt_json(*bucket_counts),
                bounds: opt_json(*bounds),
            },
        }
    }
}

/// What the items of a list stand for.
pub open spec fn item_views(items: Seq<MetricItem>) -> Seq<ItemView> {
    Seq::new(items.len(), |i: int| items[i]@)
}

/// The number by which OTLP marks delta temporality.
pub const DELTA: i32 = 1;

/// The series of a data point.
pub open spec fn series_view(resource: JsonView, m: Metric, kind: Seq<char>, attributes: JsonView) -> SeriesView {
    SeriesView { name: m.name@, resource, attributes, kind, unit: nonempty(m.unit@) }
}

/// The item of a number data point.
pub open spec fn number_item(
    resource: JsonView,
    m: Metric,
    kind: Seq<char>,
    monotonic: bool,
    dp: NumberDataPoint,
) -> ItemView {
    ItemView::Number {
        series: series_view(resource, m, kind, attributes_json(dp.attributes@)),
        monotonic,
        time_unix_nano: dp.time_unix_nano,
        value: number_bits(dp.value),
        exemplar: exemplar_of(dp.exemplars@),
    }
}

/// The item of a histogram data point. A count of zero stands for none.
pub open spec fn histogram_item(resource: JsonView, m: Metric, dp: HistogramDataPoint) -> ItemView {
    ItemView::Histogram {
        series: series_view(resource, m, "Histogram"@, attributes_json(dp.attributes@)),
        time_unix_nano: dp.time_unix_nano,
        sum: sum_bits(dp),
        count: if dp.count == 0 {
            None
        } else {
            Some(wrapped(dp.count) as i64)
        },
        bucket_counts: counts_json(dp.bucket_counts@),
        bounds: bounds_json(dp),
    }
}

pub open spec fn number_items(
    resource: JsonView,
    m: Metric,
    kind: Seq<char>,
    monotonic: bool,
    points: Seq<NumberDataPoint>,
) -> Seq<ItemView> {
    Seq::new(points.len(), |i: int| number_item(resource, m, kind, monotonic, points[i]))
}

pub open spec fn histogram_items(resource: JsonView, m: Metric, points: Seq<HistogramDataPoint>) -> Seq<ItemView> {
    Seq::new(points.len(), |i: int| histogram_item(resource, m, points[i]))
}

pub open spec fn unsupported(points: int, reason: &str) -> Seq<ItemView> {
    seq![ItemView::Unsupported { points, reason: reason@ }]
}

/// The items of a metric: one for each data point of a gauge, of a cumulative
/// sum and of a cumulative histogram; one in all for any other form.
pub open spec fn metric_items(resource: JsonView, m: Metric) -> Seq<ItemView> {
    match m.data {
        Some(Data::Gauge(g)) => number_items(resource, m, "Gauge"@, false, g.data_points@),
        Some(Data::Sum(s)) => if s.aggregation_temporality == DELTA {
            unsupported(s.data_points@.len() as int, "delta temporality Sum not supported")
        } else {
            number_items(resource, m, "Sum"@, s.is_monotonic, s.data_points@)
        },
        Some(Data::Histogram(h)) => if h.aggregation_temporality == DELTA {
            unsupported(h.data_points@.len() as int, "delta temporality Histogram not supported")
        } else {
            histogram_items(resource, m, h.data_points@)
        },
        Some(Data::ExponentialHistogram(e)) => unsupported(
            e.data_points@.len() as int,
            "ExponentialHistogram not supported",
        ),
        Some(Data::Summary(s)) => unsupported(s.data_points@.len() as int, "Summary not supported"),
        None => unsupported(1, "unrecognized or empty metric data"),
    }
}

pub open spec fn scope_items(resource: JsonView, metrics: Seq<Metric>) -> Seq<ItemView>
    decreases metrics.len(),
{
    if metrics.len() == 0 {
        Seq::empty()
    } else {
        scope_items(resource, metrics.drop_last()) + metric_items(resource, metrics.last())
    }
}

pub open spec fn resource_items(resource: JsonView, scopes: Seq<ScopeMetrics>) -> Seq<ItemView>
    decreases scopes.len(),
{
    if scopes.len() == 0 {
        Seq::empty()
    } else {
        resource_items(resource, scopes.drop_last()) + scope_items(resource, scopes.last().metrics@)
    }
}

/// The items of a request, in the order in which it holds them.
pub open spec fn request_items(resources: Seq<ResourceMetrics>) -> Seq<ItemView>
    decreases resources.len(),
{
    if resources.len() == 0 {
        Seq::empty()
    } else {
        request_items(resources.drop_last()) + resource_items(
            resource_json(resources.last().resource),
            resources.last().scope_metrics@,
        )
    }
}

fn series_of(resource: &Json, m: &Metric, kind: &str, attributes: Json) -> (r: Series)
    ensures
        r@ == series_view(resource@, *m, kind@, attributes@),
{
    Series {
        name: m.name.clone(),
        resource: resource.copy(),
        attributes,
        kind: kind.to_owned(),
        unit: nonempty_text(&m.unit),
    }
}

fn push_numbers(
    items: &mut Vec<MetricItem>,
    resource: &Json,
    m: &Metric,
    kind: &str,
    monotonic: bool,
    points: &Vec<NumberDataPoint>,
)
    ensures
        item_views(final(items)@) == item_views(old(items)@) + number_items(
            resource@,
            *m,
            kind@,
            monotonic,
            points@,
        ),
{
    let ghost before = item_views(items@);
    let mut i: usize = 0;
    while i < points.len()
        invariant
            i <= points.len(),
            items@.len() == before.len() + i,
            forall|j: int| 0 <= j < before.len() ==> (#[trigger] items@[j])@ == before[j],
            forall|j: int|
                before.len() <= j < items@.len() ==> (#[trigger] items@[j])@ == number_item(
                    resource@,
                    *m,
                    kind@,
                    monotonic,
                    points@[j - before.len()],
                ),
        decreases points.len() - i,
    {
        let dp = &points[i];
        let attributes = kv_to_json(&dp.attributes);
        let (exemplar_trace_id, exemplar_span_id) = extract_exemplar(&dp.exemplars);
        items.push(
            MetricItem::Number {
                series: series_of(resource, m, kind, attributes),
                monotonic,
                time_unix_nano: dp.time_unix_nano,
                value: number_value(dp),
                exemplar_trace_id,
                exemplar_span_id,
            },
        );
        i += 1;
    }
    assert(item_views(items@) =~= before + number_items(resource@, *m, kind@, monotonic, points@));
}

fn push_histograms(items: &mut Vec<MetricItem>, resource: &Json, m: &Metric, points: &Vec<HistogramDataPoint>)
    ensures
        item_views(final(items)@) == item_views(old(items)@) + histogram_items(resource@, *m, points@),
{
    let ghost before = item_views(items@);
    let mut i: usize = 0;
    while i < points.len()
        invariant
            i <= points.len(),
            items@.len() == before.len() + i,
            forall|j: int| 0 <= j < before.len() ==> (#[trigger] items@[j])@ == before[j],
            forall|j: int|
                before.len() <= j < items@.len() ==> (#[trigger] items@[j])@ == histogram_item(
                    resource@,
                    *m,
                    points@[j - before.len()],
                ),
        decreases points.len() - i,
    {
        let dp = &points[i];
        let attributes = kv_to_json(&dp.attributes);
        let count: Option<i64> = if dp.count == 0 {
            None
        } else {
            Some(wrap_i64(dp.count))
        };
        items.push(
            MetricItem::Histogram {
                series: series_of(resource, m, "Histogram", attributes),
                time_unix_nano: dp.time_unix_nano,
                sum: sum_of(dp),
                count,
                bucket_counts: counts_to_json(&dp.bucket_counts),
                bounds: bounds_to_json(dp),
            },
        );
        i += 1;
    }
    assert(item_views(items@) =~= before + histogram_items(resource@, *m, points@));
}

fn push_unsupported(items: &mut Vec<MetricItem>, points: usize, reason: &'static str)
    ensures
        item_views(final(items)@) == item_views(old(items)@) + unsupported(points as int, reason),
{
    let ghost before = item_views(items@);
    items.push(MetricItem::Unsupported { points, reason });
    assert(item_views(items@) =~= before + unsupported(points as int, reason));
}

fn push_metric(items: &mut Vec<MetricItem>, resource: &Json, m: &Metric)
    ensures
        item_views(final(items)@) == item_views(old(items)@) + metric_items(resource@, *m),
{
    match &m.data {
        Some(Data::Gauge(g)) => push_numbers(items, resource, m, "Gauge", false, &g.data_points),
        Some(Data::Sum(s)) => if s.aggregation_temporality == DELTA {
            push_unsupported(items, s.data_points.len(), "delta temporality Sum not supported")
        } else {
            push_numbers(items, resource, m, "Sum", s.is_monotonic, &s.data_points)
        },
        Some(Data::Histogram(h)) => if h.aggregation_temporality == DELTA {
            push_unsupported(items, h.data_points.len(), "delta temporality Histogram not supported")
        } else {
            push_histograms(items, resource, m, &h.data_points)
        },
        Some(Data::ExponentialHistogram(e)) => push_unsupported(
            items,
            e.data_points.len(),
            "ExponentialHistogram not supported",
        ),
        Some(Data::Summary(s)) => push_unsupported(items, s.data_points.len(), "Summary not supported"),
        None => push_unsupported(items, 1, "unrecognized or empty metric data"),
    }
}

fn push_scope(items: &mut Vec<MetricItem>, resource: &Json, metrics: &Vec<Metric>)
    ensures
        item_views(final(items)@) == item_views(old(items)@) + scope_items(resource@, metrics@),
{
    let ghost before = item_views(items@);
    let mut i: usize = 0;
    assert(before + scope_items(resource@, metrics@.take(0)) =~= before);
    while i < metrics.len()
        invariant
            i <= metrics.len(),
            item_views(items@) == before + scope_items(resource@, metrics@.take(i as int)),
        decreases metrics.len() - i,
    {
        assert(metrics@.take(i + 1).drop_last() =~= metrics@.take(i as int));
        push_metric(items, resource, &metrics[i]);
        i += 1;
        assert(item_views(items@) =~= before + scope_items(resource@, metrics@.take(i as int)));
    }
    assert(metrics@.take(metrics.len() as int) =~= metrics@);
}

fn push_resource(items: &mut Vec<MetricItem>, resource: &Json, scopes: &Vec<ScopeMetrics>)
    ensures
        item_views(final(items)@) == item_views(old(items)@) + resource_items(resource@, scopes@),
{
    let ghost before = item_views(items@);
    let mut i: usize = 0;
    assert(before + resource_items(resource@, scopes@.take(0)) =~= before);
    while i < scopes.len()
        invariant
            i <= scopes.len(),
            item_views(items@) == before + resource_items(resource@, scopes@.take(i as int)),
        decreases scopes.len() - i,
    {
        assert(scopes@.take(i + 1).drop_last() =~= scopes@.take(i as int));
        push_scope(items, resource, &scopes[i].metrics);
        i += 1;
        assert(item_views(items@) =~= before + resource_items(resource@, scopes@.take(i as int)));
    }
    assert(scopes@.take(scopes.len() as int) =~= scopes@);
}

/// The items of a request, in the order in which it holds them.
pub fn lay_out(req: &ExportMetricsServiceRequest) -> (items: Vec<MetricItem>)
    ensures
        item_views(items@) == request_items(req.resource_metrics@),
{
    let resources = &req.resource_metrics;
    let mut items: Vec<MetricItem> = Vec::new();
    let mut i: usize = 0;
    assert(item_views(items@) =~= request_items(resources@.take(0)));
    while i < resources.len()
        invariant
            i <= resources.len(),
            item_views(items@) == request_items(resources@.take(i as int)),
        decreases resources.len() - i,
    {
        assert(resources@.take(i + 1).drop_last() =~= resources@.take(i as int));
        let resource = resource_to_json(&resources[i].resource);
        push_resource(&mut items, &resource, &resources[i].scope_metrics);
        i += 1;
    }
    assert(resources@.take(resources.len() as int) =~= resources@);
    items
}

// ---------------------------------------------------------------------------
// Laws
// ---------------------------------------------------------------------------

/// A JSON object shows the attributes of a resource, or none where there is no
/// resource.
pub open spec fn shows_resource(v: JsonView, r: Option<Resource>) -> bool {
    match r {
        Some(r) => shows(v, r.attributes@),
        None => v is Object && forall|key: Seq<char>| #[trigger] member(v, key) is None,
    }
}

/// The attributes of a resource can be looked up by their keys.
pub proof fn law_resource_can_be_looked_up(r: Option<Resource>)
    ensures
        shows_resource(resource_json(r), r),
{
    if let Some(r) = r {
        law_attributes_can_be_looked_up(r.attributes@);
    }
}

/// The first exemplar whose trace has a byte other than zero stands at a place.
pub open spec fn is_first_traced(exemplars: Seq<Exemplar>, i: int) -> bool {
    &&& 0 <= i < exemplars.len()
    &&& exists|k: int| 0 <= k < exemplars[i].trace_id@.len() && #[trigger] exemplars[i].trace_id@[k] != 0
    &&& forall|j: int, k: int|
        0 <= j < i && 0 <= k < exemplars[j].trace_id@.len() ==> #[trigger] exemplars[j].trace_id@[k] == 0
}

/// The texts are those of the trace and the span of the first exemplar that has
/// a trace; where none has one there are none.
pub open spec fn names_exemplar(e: ExemplarView, exemplars: Seq<Exemplar>) -> bool {
    &&& forall|i: int| #[trigger]
        is_first_traced(exemplars, i) ==> names(e.0, exemplars[i].trace_id@) && names(e.1, exemplars[i].span_id@)
    &&& (forall|i: int| !#[trigger] is_first_traced(exemplars, i)) ==> e.0 is None && e.1 is None
}

/// A data point leads to the trace and the span of its first exemplar that has a
/// trace.
pub proof fn law_first_traced_exemplar_is_named(exemplars: Seq<Exemplar>)
    ensures
        names_exemplar(exemplar_of(exemplars), exemplars),
    decreases exemplars.len(),
{
    if exemplars.len() > 0 {
        let first = exemplars[0];
        let rest = exemplars.skip(1);
        law_identifier_is_named(first.trace_id@);
        law_identifier_is_named(first.span_id@);
        law_hex_gives_back_bytes(first.trace_id@);
        law_first_traced_exemplar_is_named(rest);
        if unset(first.trace_id@) {
            assert forall|i: int| #[trigger] is_first_traced(exemplars, i) implies is_first_traced(rest, i - 1) by {
                assert(i > 0);
                assert(rest[i - 1] == exemplars[i]);
                assert forall|j: int, k: int| 0 <= j < i - 1 && 0 <= k < rest[j].trace_id@.len() implies #[trigger]
                    rest[j].trace_id@[k] == 0 by {
                    assert(rest[j] == exemplars[j + 1]);
                    assert(exemplars[j + 1].trace_id@[k] == 0);
                }
            }
            assert forall|i: int| #[trigger] is_first_traced(rest, i) implies is_first_traced(exemplars, i + 1) by {
                assert(rest[i] == exemplars[i + 1]);
                let k = choose|k: int| 0 <= k < rest[i].trace_id@.len() && #[trigger] rest[i].trace_id@[k] != 0;
                assert(exemplars[i + 1].trace_id@[k] != 0);
                assert forall|j: int, k: int| 0 <= j < i + 1 && 0 <= k < exemplars[j].trace_id@.len() implies #[trigger]
                    exemplars[j].trace_id@[k] == 0 by {
                    if j > 0 {
                        assert(rest[j - 1] == exemplars[j]);
                        assert(rest[j - 1].trace_id@[k] == 0);
                    }
                }
            }
            if forall|i: int| !#[trigger] is_first_traced(exemplars, i) {
                assert forall|i: int| !#[trigger] is_first_traced(rest, i) by {
                    assert(!is_first_traced(exemplars, i + 1));
                }
            }
        } else {
            let k = choose|k: int| 0 <= k < first.trace_id@.len() && #[trigger] first.trace_id@[k] != 0;
            assert(exemplars[0].trace_id@[k] != 0);
            assert(is_first_traced(exemplars, 0));
            assert forall|i: int| #[trigger] is_first_traced(exemplars, i) implies i == 0 by {
                if i > 0 {
                    assert(exemplars[0].trace_id@[k] == 0);
                }
            }
        }
    }
}

/// A series is that of a data point: it has the name and the unit of the metric,
/// and shows the attributes of the resource and those of the data point.
pub open spec fn is_series_of(
    s: SeriesView,
    r: Option<Resource>,
    m: Metric,
    kind: Seq<char>,
    attrs: Seq<KeyValue>,
) -> bool {
    &&& s.name == m.name@
    &&& s.kind == kind
    &&& s.unit is None <==> m.unit@.len() == 0
    &&& s.unit matches Some(u) ==> u == m.unit@
    &&& shows_resource(s.resource, r)
    &&& shows(s.attributes, attrs)
}

/// An item keeps a number that was sent: its series, its time, its value, and
/// its exemplar.
pub open spec fn keeps_number(
    item: ItemView,
    r: Option<Resource>,
    m: Metric,
    kind: Seq<char>,
    rises: bool,
    dp: NumberDataPoint,
) -> bool {
    match item {
        ItemView::Number { series, monotonic, time_unix_nano, value, exemplar } => {
            &&& is_series_of(series, r, m, kind, dp.attributes@)
            &&& monotonic == rises
            &&& time_unix_nano == dp.time_unix_nano
            &&& match dp.value {
                Some(NumberKind::AsDouble(d)) => value == Some(d.to_bits_spec()),
                Some(NumberKind::AsInt(i)) => value is Some && value->0 == int_double(i as int),
                None => value is None,
            }
            &&& names_exemplar(exemplar, dp.exemplars@)
        },
        _ => false,
    }
}

/// An item keeps a histogram that was sent: its series, its time, its sum, its
/// count unless that is zero, and its buckets.
pub open spec fn keeps_histogram(item: ItemView, r: Option<Resource>, m: Metric, dp: HistogramDataPoint) -> bool {
    match item {
        ItemView::Histogram { series, time_unix_nano, sum, count, bucket_counts, bounds } => {
            &&& is_series_of(series, r, m, "Histogram"@, dp.attributes@)
            &&& time_unix_nano == dp.time_unix_nano
            &&& sum is Some <==> dp.sum is Some
            &&& dp.sum matches Some(d) ==> sum->0 == d.to_bits_spec()
            &&& count is None <==> dp.count == 0
            &&& 0 < dp.count <= i64::MAX ==> count->0 == dp.count
            &&& bucket_counts is None <==> dp.bucket_counts@.len() == 0
            &&& bucket_counts matches Some(v) ==> v matches JsonView::Array(items) && items.len()
                == dp.bucket_counts@.len() && forall|k: int|
                0 <= k < items.len() ==> #[trigger] items[k] == JsonView::Number(
                    NumberView::Int(dp.bucket_counts@[k] as int),
                )
            &&& bounds is None <==> dp.explicit_bounds@.len() == 0
            &&& bounds matches Some(v) ==> v matches JsonView::Array(items) && items.len()
                == dp.explicit_bounds@.len() && forall|k: int|
                0 <= k < items.len() ==> #[trigger] items[k] == double_json(dp.explicit_bounds@[k].to_bits_spec())
        },
        _ => false,
    }
}

/// An item turns down a metric with all of its data points.
pub open spec fn turns_down(items: Seq<ItemView>, points: int) -> bool {
    items.len() == 1 && (items[0] matches ItemView::Unsupported { points: p, reason } && p == points && reason.len() > 0)
}

proof fn lemma_keeps_number(
    r: Option<Resource>,
    m: Metric,
    kind: Seq<char>,
    rises: bool,
    dp: NumberDataPoint,
)
    ensures
        keeps_number(number_item(resource_json(r), m, kind, rises, dp), r, m, kind, rises, dp),
{
    law_resource_can_be_looked_up(r);
    law_attributes_can_be_looked_up(dp.attributes@);
    law_first_traced_exemplar_is_named(dp.exemplars@);
    if let Some(NumberKind::AsInt(i)) = dp.value {
        law_integers_have_bits(i as int);
    }
}

proof fn lemma_keeps_histogram(r: Option<Resource>, m: Metric, dp: HistogramDataPoint)
    ensures
        keeps_histogram(histogram_item(resource_json(r), m, dp), r, m, dp),
{
    law_resource_can_be_looked_up(r);
    law_attributes_can_be_looked_up(dp.attributes@);
}

/// Every data point of a gauge, of a sum and of a histogram becomes an item that
/// keeps what was sent of it, in order; a metric of any other form, and one of
/// delta temporality, is turned down whole.
pub proof fn law_data_points_are_kept(r: Option<Resource>, m: Metric)
    ensures
        ({
            let items = metric_items(resource_json(r), m);
            match m.data {
                Some(Data::Gauge(g)) => items.len() == g.data_points@.len() && forall|i: int|
                    0 <= i < items.len() ==> keeps_number(
                        #[trigger] items[i],
                        r,
                        m,
                        "Gauge"@,
                        false,
                        g.data_points@[i],
                    ),
                Some(Data::Sum(s)) => if s.aggregation_temporality == 1 {
                    turns_down(items, s.data_points@.len() as int)
                } else {
                    items.len() == s.data_points@.len() && forall|i: int|
                        0 <= i < items.len() ==> keeps_number(
                            #[trigger] items[i],
                            r,
                            m,
                            "Sum"@,
                            s.is_monotonic,
                            s.data_points@[i],
                        )
                },
                Some(Data::Histogram(h)) => if h.aggregation_temporality == 1 {
                    turns_down(items, h.data_points@.len() as int)
                } else {
                    items.len() == h.data_points@.len() && forall|i: int|
                        0 <= i < items.len() ==> keeps_histogram(#[trigger] items[i], r, m, h.data_points@[i])
                },
                Some(Data::ExponentialHistogram(e)) => turns_down(items, e.data_points@.len() as int),
                Some(Data::Summary(s)) => turns_down(items, s.data_points@.len() as int),
                None => turns_down(items, 1),
            }
        }),
{
    reveal_strlit("delta temporality Sum not supported");
    reveal_strlit("delta temporality Histogram not supported");
    reveal_strlit("ExponentialHistogram not supported");
    reveal_strlit("Summary not supported");
    reveal_strlit("unrecognized or empty metric data");
    let items = metric_items(resource_json(r), m);
    match m.data {
        Some(Data::Gauge(g)) => {
            assert forall|i: int| 0 <= i < items.len() implies keeps_number(
                #[trigger] items[i],
                r,
                m,
                "Gauge"@,
                false,
                g.data_points@[i],
            ) by {
                lemma_keeps_number(r, m, "Gauge"@, false, g.data_points@[i]);
            }
        },
        Some(Data::Sum(s)) => {
            if s.aggregation_temporality != 1 {
                assert forall|i: int| 0 <= i < items.len() implies keeps_number(
                    #[trigger] items[i],
                    r,
                    m,
                    "Sum"@,
                    s.is_monotonic,
                    s.data_points@[i],
                ) by {
                    lemma_keeps_number(r, m, "Sum"@, s.is_monotonic, s.data_points@[i]);
                }
            }
        },
        Some(Data::Histogram(h)) => {
            if h.aggregation_temporality != 1 {
                assert forall|i: int| 0 <= i < items.len() implies keeps_histogram(
                    #[trigger] items[i],
                    r,
                    m,
                    h.data_points@[i],
                ) by {
                    lemma_keeps_histogram(r, m, h.data_points@[i]);
                }
            }
        },
        _ => {},
    }
}

/// Data points of one metric and one resource whose attributes differ under some
/// key belong to series with different keys.
pub proof fn law_different_points_have_different_series(
    r: Option<Resource>,
    m: Metric,
    kind: Seq<char>,
    rises: bool,
    a: NumberDataPoint,
    b: NumberDataPoint,
    key: Seq<char>,
)
    requires
        no_doubles(a.attributes@),
        no_doubles(b.attributes@),
        member(attributes_json(a.attributes@), key) != member(attributes_json(b.attributes@), key),
    ensures
        ({
            let s = number_item(resource_json(r), m, kind, rises, a)->Number_series;
            let t = number_item(resource_json(r), m, kind, rises, b)->Number_series;
            key_of(s.name, s.kind, s.resource, s.attributes) != key_of(t.name, t.kind, t.resource, t.attributes)
        }),
{
    law_different_attributes_differ_in_text(a.attributes@, b.attributes@, key);
}

/// How many data points a metric has. One without data counts as one.
pub open spec fn points_of(m: Metric) -> int {
    match m.data {
        Some(Data::Gauge(g)) => g.data_points@.len() as int,
        Some(Data::Sum(s)) => s.data_points@.len() as int,
        Some(Data::Histogram(h)) => h.data_points@.len() as int,
        Some(Data::ExponentialHistogram(e)) => e.data_points@.len() as int,
        Some(Data::Summary(s)) => s.data_points@.len() as int,
        None => 1,
    }
}

/// Where the items of a metric start among those of its request.
pub open spec fn items_before(resources: Seq<ResourceMetrics>, a: int, b: int, c: int) -> int {
    let r = resource_json(resources[a].resource);
    (request_items(resources.take(a)).len() + resource_items(r, resources[a].scope_metrics@.take(b)).len()
        + scope_items(r, resources[a].scope_metrics@[b].metrics@.take(c)).len()) as int
}

/// One list stands in another from a place on.
pub open spec fn stands_at<T>(all: Seq<T>, at: int, part: Seq<T>) -> bool {
    &&& 0 <= at <= at + part.len() <= all.len()
    &&& forall|i: int| 0 <= i < part.len() ==> #[trigger] part[i] == all[at + i]
}

proof fn lemma_scope_holds(resource: JsonView, metrics: Seq<Metric>, c: int)
    requires
        0 <= c < metrics.len(),
    ensures
        stands_at(
            scope_items(resource, metrics),
            scope_items(resource, metrics.take(c)).len() as int,
            metric_items(resource, metrics[c]),
        ),
    decreases metrics.len(),
{
    let front = metrics.drop_last();
    if c < front.len() {
        lemma_scope_holds(resource, front, c);
        assert(front.take(c) =~= metrics.take(c));
    } else {
        assert(front =~= metrics.take(c));
    }
}

proof fn lemma_resource_holds(resource: JsonView, scopes: Seq<ScopeMetrics>, b: int)
    requires
        0 <= b < scopes.len(),
    ensures
        stands_at(
            resource_items(resource, scopes),
            resource_items(resource, scopes.take(b)).len() as int,
            scope_items(resource, scopes[b].metrics@),
        ),
    decreases scopes.len(),
{
    let front = scopes.drop_last();
    if b < front.len() {
        lemma_resource_holds(resource, front, b);
        assert(front.take(b) =~= scopes.take(b));
    } else {
        assert(front =~= scopes.take(b));
    }
}

proof fn lemma_request_holds(resources: Seq<ResourceMetrics>, a: int)
    requires
        0 <= a < resources.len(),
    ensures
        stands_at(
            request_items(resources),
            request_items(resources.take(a)).len() as int,
            resource_items(resource_json(resources[a].resource), resources[a].scope_metrics@),
        ),
    decreases resources.len(),
{
    let front = resources.drop_last();
    if a < front.len() {
        lemma_request_holds(front, a);
        assert(front.take(a) =~= resources.take(a));
    } else {
        assert(front =~= resources.take(a));
    }
}

proof fn lemma_stands_in<T>(all: Seq<T>, at: int, part: Seq<T>, inside: int, piece: Seq<T>)
    requires
        stands_at(all, at, part),
        stands_at(part, inside, piece),
    ensures
        stands_at(all, at + inside, piece),
{
    assert forall|i: int| 0 <= i < piece.len() implies #[trigger] piece[i] == all[at + inside + i] by {
        assert(part[inside + i] == all[at + (inside + i)]);
    }
}

/// The items of every metric stand in those of its request, under the resource
/// that the metric was sent with, behind the items of all that was sent before.
pub proof fn law_every_metric_is_laid_out(resources: Seq<ResourceMetrics>, a: int, b: int, c: int)
    requires
        0 <= a < resources.len(),
        0 <= b < resources[a].scope_metrics@.len(),
        0 <= c < resources[a].scope_metrics@[b].metrics@.len(),
    ensures
        stands_at(
            request_items(resources),
            items_before(resources, a, b, c),
            metric_items(resource_json(resources[a].resource), resources[a].scope_metrics@[b].metrics@[c]),
        ),
{
    let r = resource_json(resources[a].resource);
    let scopes = resources[a].scope_metrics@;
    let metrics = scopes[b].metrics@;
    lemma_request_holds(resources, a);
    lemma_resource_holds(r, scopes, b);
    lemma_scope_holds(r, metrics, c);
    let at = request_items(resources.take(a)).len() as int;
    let inside = resource_items(r, scopes.take(b)).len() as int;
    lemma_stands_in(
        request_items(resources),
        at,
        resource_items(r, scopes),
        inside,
        scope_items(r, metrics),
    );
    lemma_stands_in(
        request_items(resources),
        at + inside,
        scope_items(r, metrics),
        scope_items(r, metrics.take(c)).len() as int,
        metric_items(r, metrics[c]),
    );
}

/// A series stands for its fields.
pub proof fn law_series_stands_for_its_fields(s: Series)
    ensures
        s@.name == s.name@ && s@.kind == s.kind@,
        s@.resource == s.resource@ && s@.attributes == s.attributes@,
        s.unit matches Some(u) ==> s@.unit == Some(u@),
        s.unit is None ==> s@.unit is None,
{
}

/// An item stands for its fields.
pub proof fn law_item_stands_for_its_fields(item: MetricItem)
    ensures
        match item {
            MetricItem::Unsupported { points, reason } => item@ matches ItemView::Unsupported { points: p, reason: r }
                && p == points && r == reason@,
            MetricItem::Number {
                series,
                monotonic,
                time_unix_nano,
                value,
                exemplar_trace_id,
                exemplar_span_id,
            } => item@ matches ItemView::Number { series: s, monotonic: m, time_unix_nano: t, value: v, exemplar } && s
                == series@ && m == monotonic && t == time_unix_nano && v == value && exemplar.0 == opt_text(
                exemplar_trace_id,
            ) && exemplar.1 == opt_text(exemplar_span_id),
            MetricItem::Histogram { series, time_unix_nano, sum, count, bucket_counts, bounds } => item@ matches ItemView::Histogram {
                series: s,
                time_unix_nano: t,
                sum: u,
                count: c,
                bucket_counts: k,
                bounds: b,
            } && s == series@ && t == time_unix_nano && u == sum && c == count && k == opt_json(bucket_counts) && b
                == opt_json(bounds),
        },
{
}

} // verus!
