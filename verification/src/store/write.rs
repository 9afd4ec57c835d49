//! Batches of records as columns.
//!
//! A batch goes to the store in one statement that takes one array per column.
//! Each array has an element for every record of the batch, in order.

use vstd::prelude::*;

use crate::json::Json;
use crate::store::schema::{HistogramPoint, LogRecord, MetricPoint, PointValue, SpanRecord};
use crate::text::{opt_str, opt_text};
use crate::time::Timestamp;

verus! {

fn as_opt_str<'a>(s: &'a Option<String>) -> (r: Option<&'a str>)
    ensures
        opt_str(r) == opt_text(*s),
{
    match s {
        Some(t) => Some(t.as_str()),
        None => None,
    }
}

/// The columns of scalar points.
pub struct MetricPointColumns<'a> {
    pub series_ids: Vec<i64>,
    pub timestamps: Vec<Timestamp>,
    pub values: Vec<PointValue>,
    pub exemplar_trace_ids: Vec<Option<&'a str>>,
    pub exemplar_span_ids: Vec<Option<&'a str>>,
}

impl<'a> MetricPointColumns<'a> {
    /// Every column has the field of every point, in order.
    pub open spec fn hold(&self, points: Seq<MetricPoint>) -> bool {
        &&& self.series_ids@.len() == points.len()
        &&& self.timestamps@.len() == points.len()
        &&& self.values@.len() == points.len()
        &&& self.exemplar_trace_ids@.len() == points.len()
        &&& self.exemplar_span_ids@.len() == points.len()
        &&& forall|i: int| 0 <= i < points.len() ==> self.series_ids@[i] == (#[trigger] points[i]).series_id
        &&& forall|i: int| 0 <= i < points.len() ==> self.timestamps@[i] == (#[trigger] points[i]).ts
        &&& forall|i: int| 0 <= i < points.len() ==> self.values@[i] == (#[trigger] points[i]).value
        &&& forall|i: int|
            0 <= i < points.len() ==> opt_str(self.exemplar_trace_ids@[i]) == opt_text(
                (#[trigger] points[i]).exemplar_trace_id,
            )
        &&& forall|i: int|
            0 <= i < points.len() ==> opt_str(self.exemplar_span_ids@[i]) == opt_text(
                (#[trigger] points[i]).exemplar_span_id,
            )
    }
}

/// The columns of scalar points. An empty batch is not written.
pub fn write_metric_points<'a>(points: &'a Vec<MetricPoint>) -> (r: Option<MetricPointColumns<'a>>)
    ensures
        match r {
            Some(c) => points@.len() > 0 && c.hold(points@),
            None => points@.len() == 0,
        },
{
    if points.len() == 0 {
        return None;
    }
    let mut c = MetricPointColumns {
        series_ids: Vec::new(),
        timestamps: Vec::new(),
        values: Vec::new(),
        exemplar_trace_ids: Vec::new(),
        exemplar_span_ids: Vec::new(),
    };
    let mut i: usize = 0;
    while i < points.len()
        invariant
            i <= points.len(),
            c.hold(points@.take(i as int)),
        decreases points.len() - i,
    {
        let p = &points[i];
        c.series_ids.push(p.series_id);
        c.timestamps.push(p.ts);
        c.values.push(p.value);
        c.exemplar_trace_ids.push(as_opt_str(&p.exemplar_trace_id));
        c.exemplar_span_ids.push(as_opt_str(&p.exemplar_span_id));
        i += 1;
        proof {
            let more = points@.take(i as int);
            let less = points@.take(i - 1);
            assert forall|j: int| 0 <= j < i - 1 implies #[trigger] more[j] == less[j] by {}
        }
    }
    assert(points@.take(points.len() as int) =~= points@);
    Some(c)
}

/// The columns of histogram points.
pub struct HistogramPointColumns<'a> {
    pub series_ids: Vec<i64>,
    pub timestamps: Vec<Timestamp>,
    pub sums: Vec<Option<u64>>,
    pub counts: Vec<Option<i64>>,
    pub bucket_counts: Vec<&'a Option<Json>>,
    pub bounds: Vec<&'a Option<Json>>,
}

impl<'a> HistogramPointColumns<'a> {
    /// Every column has the field of every point, in order.
    pub open spec fn hold(&self, points: Seq<HistogramPoint>) -> bool {
        &&& self.series_ids@.len() == points.len()
        &&& self.timestamps@.len() == points.len()
        &&& self.sums@.len() == points.len()
        &&& self.counts@.len() == points.len()
        &&& self.bucket_counts@.len() == points.len()
        &&& self.bounds@.len() == points.len()
        &&& forall|i: int| 0 <= i < points.len() ==> self.series_ids@[i] == (#[trigger] points[i]).series_id
        &&& forall|i: int| 0 <= i < points.len() ==> self.timestamps@[i] == (#[trigger] points[i]).ts
        &&& forall|i: int| 0 <= i < points.len() ==> self.sums@[i] == (#[trigger] points[i]).sum
        &&& forall|i: int| 0 <= i < points.len() ==> self.counts@[i] == (#[trigger] points[i]).count
        &&& forall|i: int| 0 <= i < points.len() ==> *self.bucket_counts@[i] == (#[trigger] points[i]).bucket_counts
        &&& forall|i: int| 0 <= i < points.len() ==> *self.bounds@[i] == (#[trigger] points[i]).bounds
    }
}

/// The columns of histogram points. An empty batch is not written.
pub fn write_histogram_points<'a>(points: &'a Vec<HistogramPoint>) -> (r: Option<HistogramPointColumns<'a>>)
    ensures
        match r {
            Some(c) => points@.len() > 0 && c.hold(points@),
            None => points@.len() == 0,
        },
{
    if points.len() == 0 {
        return None;
    }
    let mut c = HistogramPointColumns {
        series_ids: Vec::new(),
        timestamps: Vec::new(),
        sums: Vec::new(),
        counts: Vec::new(),
        bucket_counts: Vec::new(),
        bounds: Vec::new(),
    };
    let mut i: usize = 0;
    while i < points.len()
        invariant
            i <= points.len(),
            c.hold(points@.take(i as int)),
        decreases points.len() - i,
    {
        let p = &points[i];
        c.series_ids.push(p.series_id);
        c.timestamps.push(p.ts);
        c.sums.push(p.sum);
        c.counts.push(p.count);
        c.bucket_counts.push(&p.bucket_counts);
        c.bounds.push(&p.bounds);
        i += 1;
        proof {
            let more = points@.take(i as int);
            let less = points@.take(i - 1);
            assert forall|j: int| 0 <= j < i - 1 implies #[trigger] more[j] == less[j] by {}
        }
    }
    assert(points@.take(points.len() as int) =~= points@);
    Some(c)
}

/// The columns of log records.
pub struct LogColumns<'a> {
    pub timestamps: Vec<Timestamp>,
    pub severity_numbers: Vec<Option<i32>>,
    pub severity_texts: Vec<Option<&'a str>>,
    pub bodies: Vec<Option<&'a str>>,
    pub trace_ids: Vec<Option<&'a str>>,
    pub span_ids: Vec<Option<&'a str>>,
    pub resources: Vec<&'a Json>,
    pub attributes: Vec<&'a Json>,
}

impl<'a> LogColumns<'a> {
    /// Every column has the field of every record, in order.
    pub open spec fn hold(&self, records: Seq<LogRecord>) -> bool {
        &&& self.timestamps@.len() == records.len()
        &&& self.severity_numbers@.len() == records.len()
        &&& self.severity_texts@.len() == records.len()
        &&& self.bodies@.len() == records.len()
        &&& self.trace_ids@.len() == records.len()
        &&& self.span_ids@.len() == records.len()
        &&& self.resources@.len() == records.len()
        &&& self.attributes@.len() == records.len()
        &&& forall|i: int| 0 <= i < records.len() ==> self.timestamps@[i] == (#[trigger] records[i]).ts
        &&& forall|i: int|
            0 <= i < records.len() ==> self.severity_numbers@[i] == (#[trigger] records[i]).severity_number
        &&& forall|i: int|
            0 <= i < records.len() ==> opt_str(self.severity_texts@[i]) == opt_text(
                (#[trigger] records[i]).severity_text,
            )
        &&& forall|i: int| 0 <= i < records.len() ==> opt_str(self.bodies@[i]) == opt_text((#[trigger] records[i]).body)
        &&& forall|i: int|
            0 <= i < records.len() ==> opt_str(self.trace_ids@[i]) == opt_text((#[trigger] records[i]).trace_id)
        &&& forall|i: int|
            0 <= i < records.len() ==> opt_str(self.span_ids@[i]) == opt_text((#[trigger] records[i]).span_id)
        &&& forall|i: int| 0 <= i < records.len() ==> *self.resources@[i] == (#[trigger] records[i]).resource
        &&& forall|i: int| 0 <= i < records.len() ==> *self.attributes@[i] == (#[trigger] records[i]).attributes
    }
}

/// The columns of log records. An empty batch is not written.
pub fn write_log_records<'a>(records: &'a Vec<LogRecord>) -> (r: Option<LogColumns<'a>>)
    ensures
        match r {
            Some(c) => records@.len() > 0 && c.hold(records@),
            None => records@.len() == 0,
        },
{
    if records.len() == 0 {
        return None;
    }
    let mut c = LogColumns {
        timestamps: Vec::new(),
        severity_numbers: Vec::new(),
        severity_texts: Vec::new(),
        bodies: Vec::new(),
        trace_ids: Vec::new(),
        span_ids: Vec::new(),
        resources: Vec::new(),
        attributes: Vec::new(),
    };
    let mut i: usize = 0;
    while i < records.len()
        invariant
            i <= records.len(),
            c.hold(records@.take(i as int)),
        decreases records.len() - i,
    {
        let r = &records[i];
        c.timestamps.push(r.ts);
        c.severity_numbers.push(r.severity_number);
        c.severity_texts.push(as_opt_str(&r.severity_text));
        c.bodies.push(as_opt_str(&r.body));
        c.trace_ids.push(as_opt_str(&r.trace_id));
        c.span_ids.push(as_opt_str(&r.span_id));
        c.resources.push(&r.resource);
        c.attributes.push(&r.attributes);
        i += 1;
        proof {
            let more = records@.take(i as int);
            let less = records@.take(i - 1);
            assert forall|j: int| 0 <= j < i - 1 implies #[trigger] more[j] == less[j] by {}
        }
    }
    assert(records@.take(records.len() as int) =~= records@);
    Some(c)
}

/// The columns of spans.
pub struct SpanColumns<'a> {
    pub trace_ids: Vec<&'a str>,
    pub span_ids: Vec<&'a str>,
    pub parent_span_ids: Vec<Option<&'a str>>,
    pub names: Vec<&'a str>,
    pub kinds: Vec<Option<&'a str>>,
    pub service_names: Vec<Option<&'a str>>,
    pub scope_names: Vec<Option<&'a str>>,
    pub start_times: Vec<Timestamp>,
    pub end_times: Vec<Timestamp>,
    pub duration_ns: Vec<i64>,
    pub status_codes: Vec<Option<&'a str>>,
    pub status_messages: Vec<Option<&'a str>>,
    pub resources: Vec<&'a Json>,
    pub attributes: Vec<&'a Json>,
    pub events: Vec<&'a Json>,
    pub links: Vec<&'a Json>,
}

impl<'a> SpanColumns<'a> {
    /// Every column has as many elements as there are spans.
    pub open spec fn even(&self, n: nat) -> bool {
        &&& self.trace_ids@.len() == n
        &&& self.span_ids@.len() == n
        &&& self.parent_span_ids@.len() == n
        &&& self.names@.len() == n
        &&& self.kinds@.len() == n
        &&& self.service_names@.len() == n
        &&& self.scope_names@.len() == n
        &&& self.start_times@.len() == n
        &&& self.end_times@.len() == n
        &&& self.duration_ns@.len() == n
        &&& self.status_codes@.len() == n
        &&& self.status_messages@.len() == n
        &&& self.resources@.len() == n
        &&& self.attributes@.len() == n
        &&& self.events@.len() == n
        &&& self.links@.len() == n
    }

    /// The elements at `i` are the fields of the span.
    pub open spec fn row(&self, i: int, s: SpanRecord) -> bool {
        &&& self.trace_ids@[i]@ == s.trace_id@
        &&& self.span_ids@[i]@ == s.span_id@
        &&& opt_str(self.parent_span_ids@[i]) == opt_text(s.parent_span_id)
        &&& self.names@[i]@ == s.name@
        &&& opt_str(self.kinds@[i]) == opt_text(s.kind)
        &&& opt_str(self.service_names@[i]) == opt_text(s.service_name)
        &&& opt_str(self.scope_names@[i]) == opt_text(s.scope_name)
        &&& self.start_times@[i] == s.start_time
        &&& self.end_times@[i] == s.end_time
        &&& self.duration_ns@[i] == s.duration_ns
        &&& opt_str(self.status_codes@[i]) == opt_text(s.status_code)
        &&& opt_str(self.status_messages@[i]) == opt_text(s.status_message)
        &&& *self.resources@[i] == s.resource
        &&& *self.attributes@[i] == s.attributes
        &&& *self.events@[i] == s.events
        &&& *self.links@[i] == s.links
    }

    /// Every column has the field of every span, in order.
    pub open spec fn hold(&self, spans: Seq<SpanRecord>) -> bool {
        self.even(spans.len()) && forall|i: int| 0 <= i < spans.len() ==> self.row(i, #[trigger] spans[i])
    }
}

/// The columns of spans. An empty batch is not written.
pub fn write_spans<'a>(spans: &'a Vec<SpanRecord>) -> (r: Option<SpanColumns<'a>>)
    ensures
        match r {
            Some(c) => spans@.len() > 0 && c.hold(spans@),
            None => spans@.len() == 0,
        },
{
    if spans.len() == 0 {
        return None;
    }
    let mut c = SpanColumns {
        trace_ids: Vec::new(),
        span_ids: Vec::new(),
        parent_span_ids: Vec::new(),
        names: Vec::new(),
        kinds: Vec::new(),
        service_names: Vec::new(),
        scope_names: Vec::new(),
        start_times: Vec::new(),
        end_times: Vec::new(),
        duration_ns: Vec::new(),
        status_codes: Vec::new(),
        status_messages: Vec::new(),
        resources: Vec::new(),
        attributes: Vec::new(),
        events: Vec::new(),
        links: Vec::new(),
    };
    let mut i: usize = 0;
    while i < spans.len()
        invariant
            i <= spans.len(),
            c.even(i as nat),
            forall|j: int| 0 <= j < i ==> c.row(j, #[trigger] spans@[j]),
        decreases spans.len() - i,
    {
        let s = &spans[i];
        let ghost before = c;
        c.trace_ids.push(s.trace_id.as_str());
        c.span_ids.push(s.span_id.as_str());
        c.parent_span_ids.push(as_opt_str(&s.parent_span_id));
        c.names.push(s.name.as_str());
        c.kinds.push(as_opt_str(&s.kind));
        c.service_names.push(as_opt_str(&s.service_name));
        c.scope_names.push(as_opt_str(&s.scope_name));
        c.start_times.push(s.start_time);
        c.end_times.push(s.end_time);
        c.duration_ns.push(s.duration_ns);
        c.status_codes.push(as_opt_str(&s.status_code));
        c.status_messages.push(as_opt_str(&s.status_message));
        c.resources.push(&s.resource);
        c.attributes.push(&s.attributes);
        c.events.push(&s.events);
        c.links.push(&s.links);
        proof {
            assert forall|j: int| 0 <= j < i implies c.row(j, #[trigger] spans@[j]) by {
                assert(before.row(j, spans@[j]));
            }
        }
        i += 1;
    }
    Some(c)
}

// ---------------------------------------------------------------------------
// Laws
// ---------------------------------------------------------------------------

/// A row of the columns of scalar points is the point at that place.
pub proof fn law_metric_rows_are_the_points(c: MetricPointColumns, points: Seq<MetricPoint>, i: int)
    requires
        c.hold(points),
        0 <= i < points.len(),
    ensures
        c.series_ids@.len() == points.len() && c.timestamps@.len() == points.len() && c.values@.len() == points.len(),
        c.exemplar_trace_ids@.len() == points.len() && c.exemplar_span_ids@.len() == points.len(),
        c.series_ids@[i] == points[i].series_id,
        c.timestamps@[i] == points[i].ts,
        c.values@[i] == points[i].value,
        opt_str(c.exemplar_trace_ids@[i]) == opt_text(points[i].exemplar_trace_id),
        opt_str(c.exemplar_span_ids@[i]) == opt_text(points[i].exemplar_span_id),
{
}

/// A row of the columns of histogram points is the point at that place.
pub proof fn law_histogram_rows_are_the_points(c: HistogramPointColumns, points: Seq<HistogramPoint>, i: int)
    requires
        c.hold(points),
        0 <= i < points.len(),
    ensures
        c.series_ids@.len() == points.len() && c.timestamps@.len() == points.len() && c.sums@.len() == points.len(),
        c.counts@.len() == points.len() && c.bucket_counts@.len() == points.len() && c.bounds@.len() == points.len(),
        c.series_ids@[i] == points[i].series_id,
        c.timestamps@[i] == points[i].ts,
        c.sums@[i] == points[i].sum,
        c.counts@[i] == points[i].count,
        *c.bucket_counts@[i] == points[i].bucket_counts,
        *c.bounds@[i] == points[i].bounds,
{
}

/// A row of the columns of log records is the record at that place.
pub proof fn law_log_rows_are_the_records(c: LogColumns, records: Seq<LogRecord>, i: int)
    requires
        c.hold(records),
        0 <= i < records.len(),
    ensures
        c.timestamps@.len() == records.len() && c.severity_numbers@.len() == records.len(),
        c.severity_texts@.len() == records.len() && c.bodies@.len() == records.len(),
        c.trace_ids@.len() == records.len() && c.span_ids@.len() == records.len(),
        c.resources@.len() == records.len() && c.attributes@.len() == records.len(),
        c.timestamps@[i] == records[i].ts,
        c.severity_numbers@[i] == records[i].severity_number,
        opt_str(c.severity_texts@[i]) == opt_text(records[i].severity_text),
        opt_str(c.bodies@[i]) == opt_text(records[i].body),
        opt_str(c.trace_ids@[i]) == opt_text(records[i].trace_id),
        opt_str(c.span_ids@[i]) == opt_text(records[i].span_id),
        *c.resources@[i] == records[i].resource,
        *c.attributes@[i] == records[i].attributes,
{
}

/// A row of the columns of spans is the span at that place.
pub proof fn law_span_rows_are_the_spans(c: SpanColumns, spans: Seq<SpanRecord>, i: int)
    requires
        c.hold(spans),
        0 <= i < spans.len(),
    ensures
        c.trace_ids@.len() == spans.len() && c.span_ids@.len() == spans.len() && c.parent_span_ids@.len() == spans.len(),
        c.names@.len() == spans.len() && c.kinds@.len() == spans.len() && c.service_names@.len() == spans.len(),
        c.scope_names@.len() == spans.len() && c.start_times@.len() == spans.len() && c.end_times@.len() == spans.len(),
        c.duration_ns@.len() == spans.len() && c.status_codes@.len() == spans.len(),
        c.status_messages@.len() == spans.len() && c.resources@.len() == spans.len(),
        c.attributes@.len() == spans.len() && c.events@.len() == spans.len() && c.links@.len() == spans.len(),
        c.trace_ids@[i]@ == spans[i].trace_id@,
        c.span_ids@[i]@ == spans[i].span_id@,
        opt_str(c.parent_span_ids@[i]) == opt_text(spans[i].parent_span_id),
        c.names@[i]@ == spans[i].name@,
        opt_str(c.kinds@[i]) == opt_text(spans[i].kind),
        opt_str(c.service_names@[i]) == opt_text(spans[i].service_name),
        opt_str(c.scope_names@[i]) == opt_text(spans[i].scope_name),
        c.start_times@[i] == spans[i].start_time,
        c.end_times@[i] == spans[i].end_time,
        c.duration_ns@[i] == spans[i].duration_ns,
        opt_str(c.status_codes@[i]) == opt_text(spans[i].status_code),
        opt_str(c.status_messages@[i]) == opt_text(spans[i].status_message),
        *c.resources@[i] == spans[i].resource,
        *c.attributes@[i] == spans[i].attributes,
        *c.events@[i] == spans[i].events,
        *c.links@[i] == spans[i].links,
{
    assert(c.row(i, spans[i]));
}

} // verus!
