//! Traces: from a request to the spans that are stored.

use vstd::prelude::*;

use opentelemetry_proto::tonic::collector::trace::v1::ExportTraceServiceRequest;
use opentelemetry_proto::tonic::common::v1::any_value::Value as AnyKind;
use opentelemetry_proto::tonic::common::v1::{AnyValue, InstrumentationScope, KeyValue};
use opentelemetry_proto::tonic::resource::v1::Resource;
use opentelemetry_proto::tonic::trace::v1::span::{Event, Link};
use opentelemetry_proto::tonic::trace::v1::{ResourceSpans, ScopeSpans, Span, Status};

use crate::ingest::attributes::{
    attributes_json, bytes_are_zero, bytes_to_hex, hex, hex_id, id_text, kv_to_json, law_attributes_can_be_looked_up,
    law_hex_gives_back_bytes, law_identifier_is_named, names, shows, unhex, unset,
};
use crate::ingest::metrics::{
    law_resource_can_be_looked_up, nonempty, nonempty_text, resource_json, resource_to_json, shows_resource,
};
use crate::json::{
    lemma_array_view, lemma_lookup_at, lemma_object_view, member, member_views, views, Json, JsonNumber, JsonView, NumberView,
};
use crate::store::schema::SpanRecord;
use crate::text::{opt_text, str_eq};
use crate::time::{
    in_window, instant_of_nanos, law_instant_keeps_its_nanoseconds, nano_to_dt, span_fits, total_nanos, ts_in_window_at, utc_now, wrap_i64, wrapped, Timestamp,
    MAX_SECS, MIN_SECS, NANOS_PER_SEC,
};

verus! {

// ---------------------------------------------------------------------------
// Parts of a span
// ---------------------------------------------------------------------------

/// The name of a span kind. The unspecified kind, and a number that stands for
/// none, have no name.
pub open spec fn kind_name(kind: int) -> Option<Seq<char>> {
    if kind == 1 {
        Some("Internal"@)
    } else if kind == 2 {
        Some("Server"@)
    } else if kind == 3 {
        Some("Client"@)
    } else if kind == 4 {
        Some("Producer"@)
    } else if kind == 5 {
        Some("Consumer"@)
    } else {
        None
    }
}

/// The name of a span kind.
pub fn span_kind_text(kind: i32) -> (r: Option<String>)
    ensures
        opt_text(r) == kind_name(kind as int),
{
    if kind == 1 {
        Some("Internal".to_owned())
    } else if kind == 2 {
        Some("Server".to_owned())
    } else if kind == 3 {
        Some("Client".to_owned())
    } else if kind == 4 {
        Some("Producer".to_owned())
    } else if kind == 5 {
        Some("Consumer".to_owned())
    } else {
        None
    }
}

/// The name of a status code. The unset code, and a number that stands for
/// none, have no name.
pub open spec fn status_name(code: int) -> Option<Seq<char>> {
    if code == 1 {
        Some("Ok"@)
    } else if code == 2 {
        Some("Error"@)
    } else {
        None
    }
}

/// The name of a status code.
pub fn status_code_text(code: i32) -> (r: Option<String>)
    ensures
        opt_text(r) == status_name(code as int),
{
    if code == 1 {
        Some("Ok".to_owned())
    } else if code == 2 {
        Some("Error".to_owned())
    } else {
        None
    }
}

/// The value of the first attribute that names the service, if it is a string.
pub open spec fn service_in(attrs: Seq<KeyValue>) -> Option<Seq<char>>
    decreases attrs.len(),
{
    if attrs.len() == 0 {
        None
    } else if attrs[0].key@ == "service.name"@ {
        match attrs[0].value {
            Some(AnyValue { value: Some(AnyKind::StringValue(s)) }) => Some(s@),
            _ => None,
        }
    } else {
        service_in(attrs.skip(1))
    }
}

/// The service that a resource belongs to.
pub open spec fn service_of(r: Option<Resource>) -> Option<Seq<char>> {
    match r {
        Some(r) => service_in(r.attributes@),
        None => None,
    }
}

fn find_service(attrs: &Vec<KeyValue>) -> (r: Option<String>)
    ensures
        opt_text(r) == service_in(attrs@),
{
    let mut i: usize = 0;
    assert(attrs@.skip(0) =~= attrs@);
    while i < attrs.len()
        invariant
            i <= attrs.len(),
            service_in(attrs@) == service_in(attrs@.skip(i as int)),
        decreases attrs.len() - i,
    {
        if str_eq(attrs[i].key.as_str(), "service.name") {
            return match &attrs[i].value {
                Some(any) => match &any.value {
                    Some(AnyKind::StringValue(s)) => Some(s.clone()),
                    _ => None,
                },
                None => None,
            };
        }
        assert(attrs@.skip(i as int).skip(1) =~= attrs@.skip(i + 1));
        i += 1;
    }
    None
}

/// The service that a resource belongs to: the value of its first attribute
/// `service.name`, if that is a string.
pub fn service_name(r: &Option<Resource>) -> (s: Option<String>)
    ensures
        opt_text(s) == service_of(*r),
{
    match r {
        Some(r) => find_service(&r.attributes),
        None => None,
    }
}

/// The name of a scope, if it has one.
pub open spec fn scope_of(scope: Option<InstrumentationScope>) -> Option<Seq<char>> {
    match scope {
        Some(s) => nonempty(s.name@),
        None => None,
    }
}

fn scope_name(scope: &Option<InstrumentationScope>) -> (r: Option<String>)
    ensures
        opt_text(r) == scope_of(*scope),
{
    match scope {
        Some(s) => nonempty_text(&s.name),
        None => None,
    }
}

/// How long a span took, in nanoseconds: not below zero, nor above what fits.
pub open spec fn duration(start: u64, end: u64) -> int {
    let d = wrapped(end) - wrapped(start);
    if d < 0 {
        0
    } else if d > i64::MAX {
        i64::MAX as int
    } else {
        d
    }
}

/// How long a span took, in nanoseconds.
pub fn duration_ns(start: u64, end: u64) -> (r: i64)
    ensures
        r == duration(start, end),
{
    let s: i64 = wrap_i64(start);
    let e: i64 = wrap_i64(end);
    if e < s {
        0
    } else if s < 0 && e > i64::MAX + s {
        i64::MAX
    } else {
        e - s
    }
}

/// An event of a span in JSON.
pub open spec fn event_json(e: Event) -> JsonView {
    JsonView::Object(
        seq![
            ("name"@, JsonView::Str(e.name@)),
            ("time_unix_nano"@, JsonView::Number(NumberView::Int(e.time_unix_nano as int))),
            ("attributes"@, attributes_json(e.attributes@)),
        ],
    )
}

/// A link of a span in JSON.
pub open spec fn link_json(l: Link) -> JsonView {
    JsonView::Object(
        seq![
            ("trace_id"@, JsonView::Str(hex(l.trace_id@))),
            ("span_id"@, JsonView::Str(hex(l.span_id@))),
            ("attributes"@, attributes_json(l.attributes@)),
        ],
    )
}

fn object3(k1: &str, v1: Json, k2: &str, v2: Json, k3: &str, v3: Json) -> (r: Json)
    ensures
        r@ == JsonView::Object(seq![(k1@, v1@), (k2@, v2@), (k3@, v3@)]),
{
    let ghost want = seq![(k1@, v1@), (k2@, v2@), (k3@, v3@)];
    let mut members: Vec<(String, Json)> = Vec::new();
    members.push((k1.to_owned(), v1));
    members.push((k2.to_owned(), v2));
    members.push((k3.to_owned(), v3));
    proof {
        lemma_object_view(members);
        assert(member_views(members@) =~= want);
    }
    Json::Object(members)
}

/// The events of a span in JSON.
pub open spec fn events_json(events: Seq<Event>) -> JsonView {
    JsonView::Array(Seq::new(events.len(), |i: int| event_json(events[i])))
}

/// The links of a span in JSON.
pub open spec fn links_json(links: Seq<Link>) -> JsonView {
    JsonView::Array(Seq::new(links.len(), |i: int| link_json(links[i])))
}

fn events_to_json(events: &Vec<Event>) -> (r: Json)
    ensures
        r@ == events_json(events@),
{
    let mut items: Vec<Json> = Vec::new();
    let mut i: usize = 0;
    while i < events.len()
        invariant
            i <= events.len(),
            items@.len() == i,
            forall|j: int| 0 <= j < i ==> (#[trigger] items@[j])@ == event_json(events@[j]),
        decreases events.len() - i,
    {
        let e = &events[i];
        items.push(
            object3(
                "name",
                Json::Str(e.name.clone()),
                "time_unix_nano",
                Json::Number(JsonNumber::PosInt(e.time_unix_nano)),
                "attributes",
                kv_to_json(&e.attributes),
            ),
        );
        i += 1;
    }
    proof {
        lemma_array_view(items);
        assert(views(items@) =~= Seq::new(events@.len(), |i: int| event_json(events@[i])));
    }
    Json::Array(items)
}

fn links_to_json(links: &Vec<Link>) -> (r: Json)
    ensures
        r@ == links_json(links@),
{
    let mut items: Vec<Json> = Vec::new();
    let mut i: usize = 0;
    while i < links.len()
        invariant
            i <= links.len(),
            items@.len() == i,
            forall|j: int| 0 <= j < i ==> (#[trigger] items@[j])@ == link_json(links@[j]),
        decreases links.len() - i,
    {
        let l = &links[i];
        items.push(
            object3(
                "trace_id",
                Json::Str(bytes_to_hex(l.trace_id.as_slice())),
                "span_id",
                Json::Str(bytes_to_hex(l.span_id.as_slice())),
                "attributes",
                kv_to_json(&l.attributes),
            ),
        );
        i += 1;
    }
    proof {
        lemma_array_view(items);
        assert(views(items@) =~= Seq::new(links@.len(), |i: int| link_json(links@[i])));
    }
    Json::Array(items)
}

/// The name of the status of a span.
pub open spec fn status_of(s: Option<Status>) -> Option<Seq<char>> {
    match s {
        Some(s) => status_name(s.code as int),
        None => None,
    }
}

/// The message of the status of a span, if it has one.
pub open spec fn status_message_of(s: Option<Status>) -> Option<Seq<char>> {
    match s {
        Some(s) => nonempty(s.message@),
        None => None,
    }
}

// ---------------------------------------------------------------------------
// One span
// ---------------------------------------------------------------------------

/// What a span record stands for.
#[verifier::ext_equal]
pub struct SpanView {
    pub trace_id: Seq<char>,
    pub span_id: Seq<char>,
    pub parent_span_id: Option<Seq<char>>,
    pub name: Seq<char>,
    pub kind: Option<Seq<char>>,
    pub service_name: Option<Seq<char>>,
    pub scope_name: Option<Seq<char>>,
    pub start_time: Timestamp,
    pub end_time: Timestamp,
    pub duration_ns: int,
    pub status_code: Option<Seq<char>>,
    pub status_message: Option<Seq<char>>,
    pub resource: JsonView,
    pub attributes: JsonView,
    pub events: JsonView,
    pub links: JsonView,
}

impl SpanRecord {
    pub open spec fn view(&self) -> SpanView {
        SpanView {
            trace_id: self.trace_id@,
            span_id: self.span_id@,
            parent_span_id: opt_text(self.parent_span_id),
            name: self.name@,
            kind: opt_text(self.kind),
            service_name: opt_text(self.service_name),
            scope_name: opt_text(self.scope_name),
            start_time: self.start_time,
            end_time: self.end_time,
            duration_ns: self.duration_ns as int,
            status_code: opt_text(self.status_code),
            status_message: opt_text(self.status_message),
            resource: self.resource@,
            attributes: self.attributes@,
            events: self.events@,
            links: self.links@,
        }
    }
}

/// Where a span comes from: its resource, its service, and its scope.
#[verifier::ext_equal]
pub struct OriginView {
    pub resource: JsonView,
    pub service: Option<Seq<char>>,
    pub scope: Option<Seq<char>>,
}

/// The span to store: it has a start in the ingest window, a trace, and an
/// identifier. Its end counts as its start where it has none.
pub open spec fn stored_span(o: OriginView, s: Span, now: Timestamp, window: u64, tolerance: u64) -> Option<SpanView> {
    match instant_of_nanos(s.start_time_unix_nano) {
        None => None,
        Some(start) => if !in_window(start, now, window, tolerance) || unset(s.trace_id@) || unset(s.span_id@) {
            None
        } else {
            Some(
                SpanView {
                    trace_id: hex(s.trace_id@),
                    span_id: hex(s.span_id@),
                    parent_span_id: id_text(s.parent_span_id@),
                    name: s.name@,
                    kind: kind_name(s.kind as int),
                    service_name: o.service,
                    scope_name: o.scope,
                    start_time: start,
                    end_time: match instant_of_nanos(s.end_time_unix_nano) {
                        Some(end) => end,
                        None => start,
                    },
                    duration_ns: duration(s.start_time_unix_nano, s.end_time_unix_nano),
                    status_code: status_of(s.status),
                    status_message: status_message_of(s.status),
                    resource: o.resource,
                    attributes: attributes_json(s.attributes@),
                    events: events_json(s.events@),
                    links: links_json(s.links@),
                },
            )
        },
    }
}

/// Where a span comes from.
pub struct Origin {
    pub resource: Json,
    pub service: Option<String>,
    pub scope: Option<String>,
}

impl Origin {
    pub open spec fn view(&self) -> OriginView {
        OriginView { resource: self.resource@, service: opt_text(self.service), scope: opt_text(self.scope) }
    }
}

fn copy_opt(s: &Option<String>) -> (r: Option<String>)
    ensures
        opt_text(r) == opt_text(*s),
{
    match s {
        Some(t) => Some(t.clone()),
        None => None,
    }
}

/// The span to store, checked at `now`.
pub fn span_record_at(
    origin: &Origin,
    span: &Span,
    now: Timestamp,
    ingest_window_secs: u64,
    future_tolerance_secs: u64,
) -> (r: Option<SpanRecord>)
    requires
        instant_of_nanos(span.start_time_unix_nano) is Some ==> span_fits(ingest_window_secs) && span_fits(
            future_tolerance_secs,
        ),
        MIN_SECS <= now.secs <= MAX_SECS,
    ensures
        match r {
            Some(s) => stored_span(origin@, *span, now, ingest_window_secs, future_tolerance_secs) == Some(s@),
            None => stored_span(origin@, *span, now, ingest_window_secs, future_tolerance_secs) is None,
        },
{
    let start_time = match nano_to_dt(span.start_time_unix_nano) {
        Some(t) => t,
        None => {
            return None;
        },
    };
    if !ts_in_window_at(start_time, now, ingest_window_secs, future_tolerance_secs) {
        return None;
    }
    let end_time = match nano_to_dt(span.end_time_unix_nano) {
        Some(t) => t,
        None => start_time,
    };
    if bytes_are_zero(span.trace_id.as_slice()) || bytes_are_zero(span.span_id.as_slice()) {
        return None;
    }
    let (status_code, status_message) = match &span.status {
        Some(s) => (status_code_text(s.code), nonempty_text(&s.message)),
        None => (None, None),
    };
    Some(
        SpanRecord {
            trace_id: bytes_to_hex(span.trace_id.as_slice()),
            span_id: bytes_to_hex(span.span_id.as_slice()),
            parent_span_id: hex_id(span.parent_span_id.as_slice()),
            name: span.name.clone(),
            kind: span_kind_text(span.kind),
            service_name: copy_opt(&origin.service),
            scope_name: copy_opt(&origin.scope),
            start_time,
            end_time,
            duration_ns: duration_ns(span.start_time_unix_nano, span.end_time_unix_nano),
            status_code,
            status_message,
            resource: origin.resource.copy(),
            attributes: kv_to_json(&span.attributes),
            events: events_to_json(&span.events),
            links: links_to_json(&span.links),
        },
    )
}

// ---------------------------------------------------------------------------
// Whole requests
// ---------------------------------------------------------------------------

/// A span with its origin.
pub type SpanEntry = (OriginView, Span);

pub open spec fn scope_entries(r: Option<Resource>, scope: ScopeSpans) -> Seq<SpanEntry> {
    let o = OriginView { resource: resource_json(r), service: service_of(r), scope: scope_of(scope.scope) };
    Seq::new(scope.spans@.len(), |i: int| (o, scope.spans@[i]))
}

pub open spec fn resource_entries(r: Option<Resource>, scopes: Seq<ScopeSpans>) -> Seq<SpanEntry>
    decreases scopes.len(),
{
    if scopes.len() == 0 {
        Seq::empty()
    } else {
        resource_entries(r, scopes.drop_last()) + scope_entries(r, scopes.last())
    }
}

/// The spans of a request, in the order in which it holds them.
pub open spec fn request_entries(resources: Seq<ResourceSpans>) -> Seq<SpanEntry>
    decreases resources.len(),
{
    if resources.len() == 0 {
        Seq::empty()
    } else {
        request_entries(resources.drop_last()) + resource_entries(
            resources.last().resource,
            resources.last().scope_spans@,
        )
    }
}

/// The spans to store, in order, given the readings of the clock.
pub open spec fn stored_spans(entries: Seq<SpanEntry>, clock: Seq<Timestamp>, window: u64, tolerance: u64) -> Seq<
    SpanView,
>
    decreases entries.len(),
{
    if entries.len() == 0 {
        Seq::empty()
    } else {
        let before = stored_spans(entries.drop_last(), clock, window, tolerance);
        match stored_span(entries.last().0, entries.last().1, clock[entries.len() - 1], window, tolerance) {
            Some(s) => before.push(s),
            None => before,
        }
    }
}

/// The readings are of the clock.
pub open spec fn clock_readings(clock: Seq<Timestamp>) -> bool {
    forall|i: int|
        0 <= i < clock.len() ==> 0 <= (#[trigger] clock[i]).secs <= MAX_SECS && clock[i].nanos < NANOS_PER_SEC
}

/// What came of a traces request.
pub struct SpansBatch {
    pub records: Vec<SpanRecord>,
    /// How many spans were rejected.
    pub rejected: i64,
}

/// What the records of a list stand for.
pub open spec fn span_views(records: Seq<SpanRecord>) -> Seq<SpanView> {
    Seq::new(records.len(), |i: int| records[i]@)
}

/// The spans of a request that are stored, and how many are not.
pub open spec fn collected(
    batch: SpansBatch,
    entries: Seq<SpanEntry>,
    clock: Seq<Timestamp>,
    window: u64,
    tolerance: u64,
) -> bool {
    &&& span_views(batch.records@) == stored_spans(entries, clock, window, tolerance)
    &&& batch.rejected + batch.records@.len() == entries.len()
}

/// Readings beyond the entries do not matter.
proof fn lemma_more_readings(
    entries: Seq<SpanEntry>,
    clock: Seq<Timestamp>,
    next: Timestamp,
    window: u64,
    tolerance: u64,
)
    requires
        entries.len() <= clock.len(),
    ensures
        stored_spans(entries, clock.push(next), window, tolerance) == stored_spans(
            entries,
            clock,
            window,
            tolerance,
        ),
    decreases entries.len(),
{
    if entries.len() > 0 {
        lemma_more_readings(entries.drop_last(), clock, next, window, tolerance);
    }
}

/// The spans of the first resources are no more than those of all.
proof fn lemma_prefix_entries(resources: Seq<ResourceSpans>, n: int)
    requires
        0 <= n <= resources.len(),
    ensures
        request_entries(resources.take(n)).len() <= request_entries(resources).len(),
    decreases resources.len() - n,
{
    if n < resources.len() {
        lemma_prefix_entries(resources, n + 1);
        assert(resources.take(n + 1).drop_last() =~= resources.take(n));
    } else {
        assert(resources.take(n) =~= resources);
    }
}

/// The spans of the first scopes are no more than those of all.
proof fn lemma_prefix_scopes(r: Option<Resource>, scopes: Seq<ScopeSpans>, n: int)
    requires
        0 <= n <= scopes.len(),
    ensures
        resource_entries(r, scopes.take(n)).len() <= resource_entries(r, scopes).len(),
    decreases scopes.len() - n,
{
    if n < scopes.len() {
        lemma_prefix_scopes(r, scopes, n + 1);
        assert(scopes.take(n + 1).drop_last() =~= scopes.take(n));
    } else {
        assert(scopes.take(n) =~= scopes);
    }
}

/// Takes the spans of a request one after another. A span without a start, a
/// trace or an identifier, or with a start outside the ingest window, is
/// counted as rejected.
pub fn collect_spans(req: &ExportTraceServiceRequest, ingest_window_secs: u64, future_tolerance_secs: u64) -> (r:
    SpansBatch)
    requires
        request_entries(req.resource_spans@).len() > 0 ==> span_fits(ingest_window_secs) && span_fits(
            future_tolerance_secs,
        ),
        request_entries(req.resource_spans@).len() <= i64::MAX,
    ensures
        exists|clock: Seq<Timestamp>|
            clock.len() == request_entries(req.resource_spans@).len() && clock_readings(clock) && #[trigger] collected(
                r,
                request_entries(req.resource_spans@),
                clock,
                ingest_window_secs,
                future_tolerance_secs,
            ),
{
    let ghost (w, f) = (ingest_window_secs, future_tolerance_secs);
    let resources = &req.resource_spans;
    let mut batch = SpansBatch { records: Vec::new(), rejected: 0 };
    let ghost mut clock: Seq<Timestamp> = Seq::empty();
    let ghost mut done: Seq<SpanEntry> = Seq::empty();
    let ghost all = request_entries(resources@);
    let mut i: usize = 0;
    assert(span_views(batch.records@) =~= stored_spans(done, clock, w, f));
    assert(done =~= request_entries(resources@.take(0)));
    while i < resources.len()
        invariant
            i <= resources.len(),
            all.len() > 0 ==> span_fits(ingest_window_secs) && span_fits(future_tolerance_secs),
            all.len() <= i64::MAX,
            w == ingest_window_secs,
            f == future_tolerance_secs,
            all == request_entries(resources@),
            done == request_entries(resources@.take(i as int)),
            clock.len() == done.len(),
            clock_readings(clock),
            collected(batch, done, clock, w, f),
            0 <= batch.rejected,
        decreases resources.len() - i,
    {
        let rs = &resources[i];
        let scopes = &rs.scope_spans;
        let ghost before = done;
        let mut j: usize = 0;
        proof {
            assert(resources@.take(i + 1).drop_last() =~= resources@.take(i as int));
            lemma_prefix_entries(resources@, i + 1);
            assert(done =~= before + resource_entries(rs.resource, scopes@.take(0)));
        }
        while j < scopes.len()
            invariant
                i < resources.len(),
                j <= scopes.len(),
                *rs == resources@[i as int],
                *scopes == rs.scope_spans,
                all.len() > 0 ==> span_fits(ingest_window_secs) && span_fits(future_tolerance_secs),
                all.len() <= i64::MAX,
                w == ingest_window_secs,
                f == future_tolerance_secs,
                before.len() + resource_entries(rs.resource, scopes@).len() <= all.len(),
                done == before + resource_entries(rs.resource, scopes@.take(j as int)),
                clock.len() == done.len(),
                clock_readings(clock),
                collected(batch, done, clock, w, f),
                0 <= batch.rejected,
            decreases scopes.len() - j,
        {
            let origin = Origin {
                resource: resource_to_json(&rs.resource),
                service: service_name(&rs.resource),
                scope: scope_name(&scopes[j].scope),
            };
            let spans = &scopes[j].spans;
            let ghost start = done;
            let ghost here = scope_entries(rs.resource, scopes@[j as int]);
            let mut k: usize = 0;
            proof {
                assert(scopes@.take(j + 1).drop_last() =~= scopes@.take(j as int));
                lemma_prefix_scopes(rs.resource, scopes@, j + 1);
                assert(done =~= start + here.take(0));
            }
            while k < spans.len()
                invariant
                    k <= spans.len(),
                    here.len() == spans@.len(),
                    forall|q: int| 0 <= q < here.len() ==> #[trigger] here[q] == (origin@, spans@[q]),
                    all.len() > 0 ==> span_fits(ingest_window_secs) && span_fits(future_tolerance_secs),
                    all.len() <= i64::MAX,
                    w == ingest_window_secs,
                    f == future_tolerance_secs,
                    start.len() + spans@.len() <= all.len(),
                    done == start + here.take(k as int),
                    clock.len() == done.len(),
                    clock_readings(clock),
                    collected(batch, done, clock, w, f),
                    0 <= batch.rejected,
                decreases spans.len() - k,
            {
                let now = utc_now();
                let ghost earlier = batch;
                let ghost entry = here[k as int];
                let stored = span_record_at(
                    &origin,
                    &spans[k],
                    now,
                    ingest_window_secs,
                    future_tolerance_secs,
                );
                proof {
                    lemma_more_readings(done, clock, now, w, f);
                    clock = clock.push(now);
                    assert(done.push(entry).drop_last() =~= done);
                    done = done.push(entry);
                    assert(done =~= start + here.take(k + 1));
                }
                match stored {
                    Some(s) => {
                        batch.records.push(s);
                        assert(span_views(batch.records@) =~= span_views(earlier.records@).push(s@));
                    },
                    None => {
                        batch.rejected = batch.rejected + 1;
                    },
                }
                k += 1;
            }
            proof {
                assert(here.take(spans.len() as int) =~= here);
                assert(done =~= before + resource_entries(rs.resource, scopes@.take(j + 1)));
            }
            j += 1;
        }
        proof {
            assert(scopes@.take(scopes.len() as int) =~= scopes@);
        }
        i += 1;
    }
    proof {
        assert(resources@.take(resources.len() as int) =~= resources@);
        assert(collected(batch, all, clock, w, f));
    }
    batch
}

/// A span that ends no earlier than it starts, both within the range of signed
/// nanoseconds, took the time between.
pub proof fn law_duration_is_the_difference(start: u64, end: u64)
    requires
        start <= end <= i64::MAX,
    ensures
        duration(start, end) == end - start,
{
}

/// No span takes less than no time.
pub proof fn law_duration_not_negative(start: u64, end: u64)
    ensures
        0 <= duration(start, end) <= i64::MAX,
{
}

/// A span that is stored has a trace and an identifier, and starts in the
/// window.
pub proof fn law_stored_spans_are_whole(o: OriginView, s: Span, now: Timestamp, window: u64, tolerance: u64)
    ensures
        stored_span(o, s, now, window, tolerance) matches Some(v) ==> in_window(v.start_time, now, window, tolerance)
            && !unset(s.trace_id@) && !unset(s.span_id@) && v.trace_id == hex(s.trace_id@) && v.span_id == hex(
            s.span_id@,
        ),
{
}

/// An instant is the one of nanoseconds since 1970.
pub open spec fn is_at(t: Timestamp, nanos: u64) -> bool {
    total_nanos(t) == nanos && t.nanos < NANOS_PER_SEC
}

/// A service is the one that a resource names: the text of its first attribute
/// `service.name`, if that has a text.
pub open spec fn is_service_of(service: Option<Seq<char>>, r: Option<Resource>) -> bool {
    match r {
        Some(r) => {
            let attrs = r.attributes@;
            &&& forall|i: int|
                0 <= i < attrs.len() && (#[trigger] attrs[i]).key@ == "service.name"@ && (forall|j: int|
                    0 <= j < i ==> (#[trigger] attrs[j]).key@ != "service.name"@) ==> match attrs[i].value {
                    Some(AnyValue { value: Some(AnyKind::StringValue(s)) }) => service == Some(s@),
                    _ => service is None,
                }
            &&& (forall|j: int| 0 <= j < attrs.len() ==> (#[trigger] attrs[j]).key@ != "service.name"@)
                ==> service is None
        },
        None => service is None,
    }
}

proof fn lemma_service_in(attrs: Seq<KeyValue>, i: int)
    requires
        0 <= i <= attrs.len(),
        forall|j: int| 0 <= j < i ==> (#[trigger] attrs[j]).key@ != "service.name"@,
    ensures
        service_in(attrs) == service_in(attrs.skip(i)),
    decreases i,
{
    if i == 0 {
        assert(attrs.skip(0) =~= attrs);
    } else {
        lemma_service_in(attrs, i - 1);
        let rest = attrs.skip(i - 1);
        assert(rest[0] == attrs[i - 1]);
        assert(rest.skip(1) =~= attrs.skip(i));
    }
}

/// A span belongs to the service that its resource names first.
pub proof fn law_service_is_named_by_the_resource(r: Option<Resource>)
    ensures
        is_service_of(service_of(r), r),
{
    if let Some(r) = r {
        let attrs = r.attributes@;
        assert forall|i: int|
            0 <= i < attrs.len() && (#[trigger] attrs[i]).key@ == "service.name"@ && (forall|j: int|
                0 <= j < i ==> (#[trigger] attrs[j]).key@ != "service.name"@) implies match attrs[i].value {
            Some(AnyValue { value: Some(AnyKind::StringValue(s)) }) => service_of(Some(r)) == Some(s@),
            _ => service_of(Some(r)) is None,
        } by {
            lemma_service_in(attrs, i);
            assert(attrs.skip(i)[0] == attrs[i]);
        }
        if forall|j: int| 0 <= j < attrs.len() ==> (#[trigger] attrs[j]).key@ != "service.name"@ {
            lemma_service_in(attrs, attrs.len() as int);
        }
    }
}

/// A JSON object tells of an event: its name, its time, and its attributes.
pub open spec fn tells_event(v: JsonView, e: Event) -> bool {
    &&& member(v, "name"@) == Some(JsonView::Str(e.name@))
    &&& member(v, "time_unix_nano"@) == Some(JsonView::Number(NumberView::Int(e.time_unix_nano as int)))
    &&& member(v, "attributes"@) matches Some(attrs) && shows(attrs, e.attributes@)
}

/// A JSON object tells of a link: the trace and the span that it leads to, and
/// its attributes.
pub open spec fn tells_link(v: JsonView, l: Link) -> bool {
    &&& member(v, "trace_id"@) matches Some(JsonView::Str(t)) && t.len() == 2 * l.trace_id@.len() && unhex(t)
        == l.trace_id@
    &&& member(v, "span_id"@) matches Some(JsonView::Str(t)) && t.len() == 2 * l.span_id@.len() && unhex(t)
        == l.span_id@
    &&& member(v, "attributes"@) matches Some(attrs) && shows(attrs, l.attributes@)
}

/// The events and the links of a span stand in JSON in order, each with what was
/// sent of it.
pub proof fn law_events_and_links_are_kept(events: Seq<Event>, links: Seq<Link>)
    ensures
        events_json(events) matches JsonView::Array(items) && items.len() == events.len() && forall|i: int|
            0 <= i < items.len() ==> tells_event(#[trigger] items[i], events[i]),
        links_json(links) matches JsonView::Array(items) && items.len() == links.len() && forall|i: int|
            0 <= i < items.len() ==> tells_link(#[trigger] items[i], links[i]),
{
    reveal_strlit("name");
    reveal_strlit("time_unix_nano");
    reveal_strlit("attributes");
    reveal_strlit("trace_id");
    reveal_strlit("span_id");
    assert("name"@.len() == 4 && "time_unix_nano"@.len() == 14 && "attributes"@.len() == 10);
    assert("trace_id"@.len() == 8 && "span_id"@.len() == 7);
    assert forall|i: int| 0 <= i < events.len() implies tells_event(#[trigger] event_json(events[i]), events[i]) by {
        let e = events[i];
        let members = event_json(e)->Object_0;
        lemma_lookup_at(members, "name"@, 0);
        lemma_lookup_at(members, "time_unix_nano"@, 1);
        lemma_lookup_at(members, "attributes"@, 2);
        law_attributes_can_be_looked_up(e.attributes@);
    }
    assert forall|i: int| 0 <= i < links.len() implies tells_link(#[trigger] link_json(links[i]), links[i]) by {
        let l = links[i];
        let members = link_json(l)->Object_0;
        lemma_lookup_at(members, "trace_id"@, 0);
        lemma_lookup_at(members, "span_id"@, 1);
        lemma_lookup_at(members, "attributes"@, 2);
        law_attributes_can_be_looked_up(l.attributes@);
        law_hex_gives_back_bytes(l.trace_id@);
        law_hex_gives_back_bytes(l.span_id@);
    }
}

/// The kinds of a span and the codes of its status have names of their own; what
/// stands for none has no name.
pub proof fn law_kinds_and_codes_have_names(a: int, b: int)
    ensures
        kind_name(a) is Some <==> 1 <= a <= 5,
        kind_name(a) is Some && kind_name(a) == kind_name(b) ==> a == b,
        kind_name(1) == Some("Internal"@) && kind_name(2) == Some("Server"@) && kind_name(3) == Some("Client"@),
        kind_name(4) == Some("Producer"@) && kind_name(5) == Some("Consumer"@),
        status_name(a) is Some <==> 1 <= a <= 2,
        status_name(a) == Some("Error"@) <==> a == 2,
        status_name(a) == Some("Ok"@) <==> a == 1,
{
    reveal_strlit("Internal");
    reveal_strlit("Server");
    reveal_strlit("Client");
    reveal_strlit("Producer");
    reveal_strlit("Consumer");
    reveal_strlit("Ok");
    reveal_strlit("Error");
    assert("Internal"@.len() == 8 && "Server"@.len() == 6 && "Client"@.len() == 6 && "Producer"@.len() == 8
        && "Consumer"@.len() == 8 && "Ok"@.len() == 2 && "Error"@.len() == 5);
    assert("Internal"@[0] == 'I' && "Producer"@[0] == 'P' && "Consumer"@[0] == 'C');
    assert("Server"@[0] == 'S' && "Client"@[0] == 'C');
}

/// A record keeps what was sent of a span: its trace, its identifier and its
/// parent, its name and kind, when it started and ended, its status, its
/// attributes, events and links, and the resource, service and scope that it was
/// sent under.
pub open spec fn keeps_span(v: SpanView, r: Option<Resource>, scope: Option<InstrumentationScope>, s: Span) -> bool {
    &&& names(Some(v.trace_id), s.trace_id@)
    &&& names(Some(v.span_id), s.span_id@)
    &&& names(v.parent_span_id, s.parent_span_id@)
    &&& v.name == s.name@
    &&& v.kind == kind_name(s.kind as int)
    &&& is_service_of(v.service_name, r)
    &&& v.scope_name matches Some(n) ==> scope is Some && n == scope->0.name@
    &&& v.scope_name is None <==> scope is None || scope->0.name@.len() == 0
    &&& is_at(v.start_time, s.start_time_unix_nano)
    &&& s.end_time_unix_nano != 0 ==> is_at(v.end_time, s.end_time_unix_nano)
    &&& s.end_time_unix_nano == 0 ==> v.end_time == v.start_time
    &&& s.start_time_unix_nano <= s.end_time_unix_nano <= i64::MAX ==> v.duration_ns == s.end_time_unix_nano
        - s.start_time_unix_nano
    &&& s.end_time_unix_nano <= s.start_time_unix_nano <= i64::MAX ==> v.duration_ns == 0
    &&& v.status_code == (match s.status {
        Some(st) => status_name(st.code as int),
        None => None,
    })
    &&& v.status_message matches Some(m) ==> s.status is Some && m == s.status->0.message@
    &&& v.status_message is None <==> s.status is None || s.status->0.message@.len() == 0
    &&& shows_resource(v.resource, r)
    &&& shows(v.attributes, s.attributes@)
    &&& v.events matches JsonView::Array(items) && items.len() == s.events@.len() && forall|i: int|
        0 <= i < items.len() ==> tells_event(#[trigger] items[i], s.events@[i])
    &&& v.links matches JsonView::Array(items) && items.len() == s.links@.len() && forall|i: int|
        0 <= i < items.len() ==> tells_link(#[trigger] items[i], s.links@[i])
}

/// Where a span was sent from.
pub open spec fn origin_of(r: Option<Resource>, scope: Option<InstrumentationScope>) -> OriginView {
    OriginView { resource: resource_json(r), service: service_of(r), scope: scope_of(scope) }
}

/// A span that is stored keeps what was sent of it.
pub proof fn law_stored_spans_keep_what_was_sent(
    r: Option<Resource>,
    scope: Option<InstrumentationScope>,
    s: Span,
    now: Timestamp,
    window: u64,
    tolerance: u64,
)
    ensures
        stored_span(origin_of(r, scope), s, now, window, tolerance) matches Some(v) ==> keeps_span(v, r, scope, s),
{
    law_identifier_is_named(s.trace_id@);
    law_identifier_is_named(s.span_id@);
    law_identifier_is_named(s.parent_span_id@);
    law_service_is_named_by_the_resource(r);
    law_instant_keeps_its_nanoseconds(s.start_time_unix_nano);
    law_instant_keeps_its_nanoseconds(s.end_time_unix_nano);
    law_resource_can_be_looked_up(r);
    law_attributes_can_be_looked_up(s.attributes@);
    law_events_and_links_are_kept(s.events@, s.links@);
}

/// A span is stored exactly where it has a start in the window, and both its
/// trace and its identifier have a byte other than zero.
pub proof fn law_whole_spans_are_stored(o: OriginView, s: Span, now: Timestamp, window: u64, tolerance: u64)
    ensures
        stored_span(o, s, now, window, tolerance) is Some <==> {
            &&& exists|t: Timestamp| #[trigger] is_at(t, s.start_time_unix_nano) && s.start_time_unix_nano != 0
                && in_window(t, now, window, tolerance)
            &&& exists|k: int| 0 <= k < s.trace_id@.len() && #[trigger] s.trace_id@[k] != 0
            &&& exists|k: int| 0 <= k < s.span_id@.len() && #[trigger] s.span_id@[k] != 0
        },
{
    law_instant_keeps_its_nanoseconds(s.start_time_unix_nano);
    law_identifier_is_named(s.trace_id@);
    law_identifier_is_named(s.span_id@);
    if let Some(start) = instant_of_nanos(s.start_time_unix_nano) {
        assert(is_at(start, s.start_time_unix_nano));
        assert forall|t: Timestamp| #[trigger] is_at(t, s.start_time_unix_nano) implies t == start by {
            assert(total_nanos(t) == total_nanos(start));
        }
    }
}

/// A stored span has another as its parent, by the text under which that is
/// stored, exactly where it was sent with the identifier of the other; it has no
/// parent exactly where every byte that it was sent with for one is zero.
pub proof fn law_children_lead_to_their_parents(
    o: OriginView,
    child: Span,
    now: Timestamp,
    o2: OriginView,
    parent: Span,
    now2: Timestamp,
    window: u64,
    tolerance: u64,
)
    ensures
        stored_span(o, child, now, window, tolerance) matches Some(c) ==> {
            &&& c.parent_span_id is None <==> forall|k: int|
                0 <= k < child.parent_span_id@.len() ==> #[trigger] child.parent_span_id@[k] == 0
            &&& stored_span(o2, parent, now2, window, tolerance) matches Some(p) ==> (c.parent_span_id == Some(
                p.span_id,
            ) <==> child.parent_span_id@ == parent.span_id@)
            &&& stored_span(o2, parent, now2, window, tolerance) matches Some(p) ==> (c.trace_id == p.trace_id
                <==> child.trace_id@ == parent.trace_id@)
        },
{
    law_identifier_is_named(child.parent_span_id@);
    law_identifier_is_named(parent.span_id@);
    law_hex_gives_back_bytes(child.parent_span_id@);
    law_hex_gives_back_bytes(parent.span_id@);
    law_hex_gives_back_bytes(child.trace_id@);
    law_hex_gives_back_bytes(parent.trace_id@);
}

/// The spans that are stored stand in the order in which they were looked at,
/// and each once: those before a span are as many as were stored before it was
/// looked at.
pub proof fn law_spans_are_stored_in_order(
    entries: Seq<SpanEntry>,
    clock: Seq<Timestamp>,
    window: u64,
    tolerance: u64,
    i: int,
)
    requires
        0 <= i < entries.len() <= clock.len(),
    ensures
        ({
            let all = stored_spans(entries, clock, window, tolerance);
            let before = stored_spans(entries.take(i), clock, window, tolerance).len();
            let after = stored_spans(entries.take(i + 1), clock, window, tolerance).len();
            match stored_span(entries[i].0, entries[i].1, clock[i], window, tolerance) {
                Some(s) => after == before + 1 && before < all.len() && all[before as int] == s,
                None => after == before,
            }
        }),
    decreases entries.len(),
{
    let front = entries.drop_last();
    assert(entries.take(i + 1).drop_last() =~= entries.take(i));
    assert(entries.take(i + 1).last() == entries[i]);
    if i < front.len() {
        law_spans_are_stored_in_order(front, clock, window, tolerance, i);
        assert(front.take(i) =~= entries.take(i));
        assert(front.take(i + 1) =~= entries.take(i + 1));
        assert(front[i] == entries[i]);
    } else {
        assert(entries.take(i + 1) =~= entries);
    }
}

/// How many spans scopes have.
pub open spec fn spans_in(scopes: Seq<ScopeSpans>) -> int
    decreases scopes.len(),
{
    if scopes.len() == 0 {
        0
    } else {
        spans_in(scopes.drop_last()) + scopes.last().spans@.len()
    }
}

/// How many spans a request has.
pub open spec fn spans_sent(resources: Seq<ResourceSpans>) -> int
    decreases resources.len(),
{
    if resources.len() == 0 {
        0
    } else {
        spans_sent(resources.drop_last()) + spans_in(resources.last().scope_spans@)
    }
}

proof fn lemma_entries_in(r: Option<Resource>, scopes: Seq<ScopeSpans>)
    ensures
        resource_entries(r, scopes).len() == spans_in(scopes),
    decreases scopes.len(),
{
    if scopes.len() > 0 {
        lemma_entries_in(r, scopes.drop_last());
    }
}

proof fn lemma_scope_entry(r: Option<Resource>, scopes: Seq<ScopeSpans>, b: int, c: int)
    requires
        0 <= b < scopes.len(),
        0 <= c < scopes[b].spans@.len(),
    ensures
        0 <= spans_in(scopes.take(b)),
        spans_in(scopes.take(b)) + c < resource_entries(r, scopes).len(),
        resource_entries(r, scopes)[spans_in(scopes.take(b)) + c] == (
            origin_of(r, scopes[b].scope),
            scopes[b].spans@[c],
        ),
    decreases scopes.len(),
{
    let front = scopes.drop_last();
    lemma_entries_in(r, front);
    if b < front.len() {
        lemma_scope_entry(r, front, b, c);
        assert(front.take(b) =~= scopes.take(b));
    } else {
        assert(front =~= scopes.take(b));
    }
}

/// A request has as many spans to look at as were sent in it.
pub proof fn law_every_span_is_counted(resources: Seq<ResourceSpans>)
    ensures
        request_entries(resources).len() == spans_sent(resources),
    decreases resources.len(),
{
    if resources.len() > 0 {
        let last = resources.last();
        law_every_span_is_counted(resources.drop_last());
        lemma_entries_in(last.resource, last.scope_spans@);
    }
}

/// Every span of a request is looked at, with the resource and the scope that it
/// was sent with, behind all that was sent before it.
pub proof fn law_every_span_is_looked_at(resources: Seq<ResourceSpans>, a: int, b: int, c: int)
    requires
        0 <= a < resources.len(),
        0 <= b < resources[a].scope_spans@.len(),
        0 <= c < resources[a].scope_spans@[b].spans@.len(),
    ensures
        ({
            let at = spans_sent(resources.take(a)) + spans_in(resources[a].scope_spans@.take(b)) + c;
            0 <= at < request_entries(resources).len() && request_entries(resources)[at] == (
                origin_of(resources[a].resource, resources[a].scope_spans@[b].scope),
                resources[a].scope_spans@[b].spans@[c],
            )
        }),
    decreases resources.len(),
{
    let front = resources.drop_last();
    law_every_span_is_counted(front);
    if a < front.len() {
        law_every_span_is_looked_at(front, a, b, c);
        assert(front.take(a) =~= resources.take(a));
    } else {
        assert(front =~= resources.take(a));
        lemma_scope_entry(resources[a].resource, resources[a].scope_spans@, b, c);
    }
}

/// A record stands for its fields.
pub proof fn law_record_stands_for_its_fields(s: SpanRecord)
    ensures
        s@.trace_id == s.trace_id@ && s@.span_id == s.span_id@ && s@.name == s.name@,
        s.parent_span_id matches Some(t) ==> s@.parent_span_id == Some(t@),
        s.parent_span_id is None ==> s@.parent_span_id is None,
        s.kind matches Some(t) ==> s@.kind == Some(t@),
        s.kind is None ==> s@.kind is None,
        s.service_name matches Some(t) ==> s@.service_name == Some(t@),
        s.service_name is None ==> s@.service_name is None,
        s.scope_name matches Some(t) ==> s@.scope_name == Some(t@),
        s.scope_name is None ==> s@.scope_name is None,
        s@.start_time == s.start_time && s@.end_time == s.end_time && s@.duration_ns == s.duration_ns,
        s.status_code matches Some(t) ==> s@.status_code == Some(t@),
        s.status_code is None ==> s@.status_code is None,
        s.status_message matches Some(t) ==> s@.status_message == Some(t@),
        s.status_message is None ==> s@.status_message is None,
        s@.resource == s.resource@ && s@.attributes == s.attributes@,
        s@.events == s.events@ && s@.links == s.links@,
{
}

/// What came of a request are the spans that are stored, in order, and the number of
/// all others.
pub proof fn law_batch_holds_what_is_stored(
    batch: SpansBatch,
    entries: Seq<SpanEntry>,
    clock: Seq<Timestamp>,
    window: u64,
    tolerance: u64,
)
    requires
        collected(batch, entries, clock, window, tolerance),
    ensures
        ({
            let stored = stored_spans(entries, clock, window, tolerance);
            &&& batch.records@.len() == stored.len()
            &&& forall|k: int| 0 <= k < stored.len() ==> (#[trigger] batch.records@[k])@ == stored[k]
            &&& batch.rejected == entries.len() - stored.len()
        }),
{
    let stored = stored_spans(entries, clock, window, tolerance);
    assert(span_views(batch.records@).len() == stored.len());
    assert forall|k: int| 0 <= k < stored.len() implies (#[trigger] batch.records@[k])@ == stored[k] by {
        assert(span_views(batch.records@)[k] == stored[k]);
    }
}

} // verus!
