//! Logs: from a request to the records that are stored.

use vstd::float::FloatBitsProperties;
use vstd::prelude::*;

use opentelemetry_proto::tonic::collector::logs::v1::ExportLogsServiceRequest;
use opentelemetry_proto::tonic::logs::v1::{LogRecord as OtlpLog, ResourceLogs, ScopeLogs};

use opentelemetry_proto::tonic::common::v1::any_value::Value as AnyKind;
use opentelemetry_proto::tonic::resource::v1::Resource;

use crate::double::double_display;
use crate::ingest::attributes::{
    attributes_json, body_text, body_to_string, hex_id, id_text, kv_to_json, law_attributes_can_be_looked_up,
    law_identifier_is_named, names, shows,
};
use crate::ingest::metrics::{
    law_resource_can_be_looked_up, nonempty, nonempty_text, resource_json, resource_to_json, shows_resource,
};
use crate::json::{Json, JsonView};
use crate::store::schema::LogRecord;
use crate::text::{decimal_int, opt_text};
use crate::time::{
    in_window, instant_of_nanos, law_instant_keeps_its_nanoseconds, nano_to_dt, span_fits, total_nanos, ts_in_window_at, utc_now, Timestamp, MAX_SECS, MIN_SECS,
    NANOS_PER_SEC,
};

verus! {

/// What a log record stands for.
#[verifier::ext_equal]
pub struct LogView {
    pub ts: Timestamp,
    pub severity_number: Option<i32>,
    pub severity_text: Option<Seq<char>>,
    pub body: Option<Seq<char>>,
    pub trace_id: Option<Seq<char>>,
    pub span_id: Option<Seq<char>>,
    pub resource: JsonView,
    pub attributes: JsonView,
}

impl LogRecord {
    pub open spec fn view(&self) -> LogView {
        LogView {
            ts: self.ts,
            severity_number: self.severity_number,
            severity_text: opt_text(self.severity_text),
            body: opt_text(self.body),
            trace_id: opt_text(self.trace_id),
            span_id: opt_text(self.span_id),
            resource: self.resource@,
            attributes: self.attributes@,
        }
    }
}

/// What the records of a list stand for.
pub open spec fn log_views(records: Seq<LogRecord>) -> Seq<LogView> {
    Seq::new(records.len(), |i: int| records[i]@)
}

/// The clock, read twice for a record: when it was received, and when its time
/// was checked.
pub type Readings = (Timestamp, Timestamp);

/// The instant of a record: its own time, or the time it was observed, or else
/// the time it was received.
pub open spec fn log_instant(lr: OtlpLog, received: Timestamp) -> Timestamp {
    let nanos = if lr.time_unix_nano != 0 {
        lr.time_unix_nano
    } else {
        lr.observed_time_unix_nano
    };
    match instant_of_nanos(nanos) {
        Some(t) => t,
        None => received,
    }
}

/// The record to store, if its instant lies in the ingest window. Zeros and
/// empty texts stand for what is not set.
pub open spec fn stored_log(resource: JsonView, lr: OtlpLog, clock: Readings, window: u64, tolerance: u64) -> Option<
    LogView,
> {
    let ts = log_instant(lr, clock.0);
    if in_window(ts, clock.1, window, tolerance) {
        Some(
            LogView {
                ts,
                severity_number: if lr.severity_number == 0 {
                    None
                } else {
                    Some(lr.severity_number)
                },
                severity_text: nonempty(lr.severity_text@),
                body: body_text(lr.body),
                trace_id: id_text(lr.trace_id@),
                span_id: id_text(lr.span_id@),
                resource,
                attributes: attributes_json(lr.attributes@),
            },
        )
    } else {
        None
    }
}

/// The record to store, given when it was received and when it is checked.
pub fn log_record_at(
    resource: &Json,
    lr: &OtlpLog,
    received: Timestamp,
    checked: Timestamp,
    ingest_window_secs: u64,
    future_tolerance_secs: u64,
) -> (r: Option<LogRecord>)
    requires
        span_fits(ingest_window_secs),
        span_fits(future_tolerance_secs),
        MIN_SECS <= checked.secs <= MAX_SECS,
    ensures
        match r {
            Some(l) => stored_log(
                resource@,
                *lr,
                (received, checked),
                ingest_window_secs,
                future_tolerance_secs,
            ) == Some(l@),
            None => stored_log(
                resource@,
                *lr,
                (received, checked),
                ingest_window_secs,
                future_tolerance_secs,
            ) is None,
        },
{
    let nanos: u64 = if lr.time_unix_nano != 0 {
        lr.time_unix_nano
    } else {
        lr.observed_time_unix_nano
    };
    let ts = match nano_to_dt(nanos) {
        Some(t) => t,
        None => received,
    };
    if !ts_in_window_at(ts, checked, ingest_window_secs, future_tolerance_secs) {
        return None;
    }
    let severity_number: Option<i32> = if lr.severity_number == 0 {
        None
    } else {
        Some(lr.severity_number)
    };
    Some(
        LogRecord {
            ts,
            severity_number,
            severity_text: nonempty_text(&lr.severity_text),
            body: body_to_string(&lr.body),
            trace_id: hex_id(lr.trace_id.as_slice()),
            span_id: hex_id(lr.span_id.as_slice()),
            resource: resource.copy(),
            attributes: kv_to_json(&lr.attributes),
        },
    )
}

// ---------------------------------------------------------------------------
// Whole requests
// ---------------------------------------------------------------------------

/// A record with the attributes of its resource.
pub type LogEntry = (JsonView, OtlpLog);

pub open spec fn scope_entries(resource: JsonView, records: Seq<OtlpLog>) -> Seq<LogEntry> {
    Seq::new(records.len(), |i: int| (resource, records[i]))
}

pub open spec fn resource_entries(resource: JsonView, scopes: Seq<ScopeLogs>) -> Seq<LogEntry>
    decreases scopes.len(),
{
    if scopes.len() == 0 {
        Seq::empty()
    } else {
        resource_entries(resource, scopes.drop_last()) + scope_entries(resource, scopes.last().log_records@)
    }
}

/// The records of a request, in the order in which it holds them.
pub open spec fn request_entries(resources: Seq<ResourceLogs>) -> Seq<LogEntry>
    decreases resources.len(),
{
    if resources.len() == 0 {
        Seq::empty()
    } else {
        request_entries(resources.drop_last()) + resource_entries(
            resource_json(resources.last().resource),
            resources.last().scope_logs@,
        )
    }
}

/// The records to store, in order, given the readings of the clock.
pub open spec fn stored_logs(entries: Seq<LogEntry>, clock: Seq<Readings>, window: u64, tolerance: u64) -> Seq<LogView>
    decreases entries.len(),
{
    if entries.len() == 0 {
        Seq::empty()
    } else {
        let before = stored_logs(entries.drop_last(), clock, window, tolerance);
        match stored_log(entries.last().0, entries.last().1, clock[entries.len() - 1], window, tolerance) {
            Some(l) => before.push(l),
            None => before,
        }
    }
}

/// The readings are of the clock.
pub open spec fn clock_readings(clock: Seq<Readings>) -> bool {
    forall|i: int|
        0 <= i < clock.len() ==> 0 <= (#[trigger] clock[i]).0.secs <= MAX_SECS && clock[i].0.nanos < NANOS_PER_SEC
            && 0 <= clock[i].1.secs <= MAX_SECS && clock[i].1.nanos < NANOS_PER_SEC
}

/// What came of a logs request.
pub struct LogsBatch {
    pub records: Vec<LogRecord>,
    /// How many records were rejected.
    pub rejected: i64,
}

/// The records of a request that lie in the ingest window, and how many do not.
pub open spec fn collected(
    batch: LogsBatch,
    entries: Seq<LogEntry>,
    clock: Seq<Readings>,
    window: u64,
    tolerance: u64,
) -> bool {
    &&& log_views(batch.records@) == stored_logs(entries, clock, window, tolerance)
    &&& batch.rejected + batch.records@.len() == entries.len()
}

/// Readings beyond the entries do not matter.
proof fn lemma_more_readings(entries: Seq<LogEntry>, clock: Seq<Readings>, next: Readings, window: u64, tolerance: u64)
    requires
        entries.len() <= clock.len(),
    ensures
        stored_logs(entries, clock.push(next), window, tolerance) == stored_logs(entries, clock, window, tolerance),
    decreases entries.len(),
{
    if entries.len() > 0 {
        lemma_more_readings(entries.drop_last(), clock, next, window, tolerance);
    }
}

/// No more records are stored than there are.
pub proof fn law_no_record_invented(entries: Seq<LogEntry>, clock: Seq<Readings>, window: u64, tolerance: u64)
    ensures
        stored_logs(entries, clock, window, tolerance).len() <= entries.len(),
    decreases entries.len(),
{
    if entries.len() > 0 {
        law_no_record_invented(entries.drop_last(), clock, window, tolerance);
    }
}

/// Every record that is stored lies in the window around the time at which it
/// was checked.
pub proof fn law_stored_logs_lie_in_window(
    resource: JsonView,
    lr: OtlpLog,
    clock: Readings,
    window: u64,
    tolerance: u64,
)
    ensures
        stored_log(resource, lr, clock, window, tolerance) matches Some(l) ==> in_window(
            l.ts,
            clock.1,
            window,
            tolerance,
        ),
{
}

/// Takes the records of a request one after another. A record outside the
/// ingest window is counted as rejected.
pub fn collect_logs(req: &ExportLogsServiceRequest, ingest_window_secs: u64, future_tolerance_secs: u64) -> (r:
    LogsBatch)
    requires
        request_entries(req.resource_logs@).len() > 0 ==> span_fits(ingest_window_secs) && span_fits(
            future_tolerance_secs,
        ),
        request_entries(req.resource_logs@).len() <= i64::MAX,
    ensures
        exists|clock: Seq<Readings>|
            clock.len() == request_entries(req.resource_logs@).len() && clock_readings(clock) && #[trigger] collected(
                r,
                request_entries(req.resource_logs@),
                clock,
                ingest_window_secs,
                future_tolerance_secs,
            ),
{
    let ghost (w, f) = (ingest_window_secs, future_tolerance_secs);
    let resources = &req.resource_logs;
    let mut batch = LogsBatch { records: Vec::new(), rejected: 0 };
    let ghost mut clock: Seq<Readings> = Seq::empty();
    let ghost mut done: Seq<LogEntry> = Seq::empty();
    let ghost all = request_entries(resources@);
    let mut i: usize = 0;
    assert(log_views(batch.records@) =~= stored_logs(done, clock, w, f));
    assert(done =~= request_entries(resources@.take(0)));
    while i < resources.len()
        invariant
            i <= resources.len(),
            all.len() > 0 ==> span_fits(ingest_window_secs) && span_fits(future_tolerance_secs),
            all.len() <= i64::MAX,
            w == ingest_window_secs,
            f == future_tolerance_secs,
            all == request_entries(resources@),
            done == request_entries(resources@.take(i as int)),
            clock.len() == done.len(),
            clock_readings(clock),
            collected(batch, done, clock, w, f),
            0 <= batch.rejected,
        decreases resources.len() - i,
    {
        let resource = resource_to_json(&resources[i].resource);
        let scopes = &resources[i].scope_logs;
        let ghost before = done;
        let mut j: usize = 0;
        proof {
            assert(resources@.take(i + 1).drop_last() =~= resources@.take(i as int));
            lemma_prefix_entries(resources@, i + 1);
            assert(done =~= before + resource_entries(resource@, scopes@.take(0)));
        }
        while j < scopes.len()
            invariant
                i < resources.len(),
                j <= scopes.len(),
                *scopes == resources@[i as int].scope_logs,
                resource@ == resource_json(resources@[i as int].resource),
                all.len() > 0 ==> span_fits(ingest_window_secs) && span_fits(future_tolerance_secs),
                all.len() <= i64::MAX,
                w == ingest_window_secs,
                f == future_tolerance_secs,
                before.len() + resource_entries(resource@, scopes@).len() <= all.len(),
                done == before + resource_entries(resource@, scopes@.take(j as int)),
                clock.len() == done.len(),
                clock_readings(clock),
                collected(batch, done, clock, w, f),
                0 <= batch.rejected,
            decreases scopes.len() - j,
        {
            let records = &scopes[j].log_records;
            let ghost start = done;
            let mut k: usize = 0;
            proof {
                assert(scopes@.take(j + 1).drop_last() =~= scopes@.take(j as int));
                lemma_prefix_scopes(resource@, scopes@, j + 1);
                assert(done =~= start + scope_entries(resource@, records@.take(0)));
            }
            while k < records.len()
                invariant
                    k <= records.len(),
                    all.len() > 0 ==> span_fits(ingest_window_secs) && span_fits(future_tolerance_secs),
                    all.len() <= i64::MAX,
                    w == ingest_window_secs,
                    f == future_tolerance_secs,
                    start.len() + records@.len() <= all.len(),
                    done == start + scope_entries(resource@, records@.take(k as int)),
                    clock.len() == done.len(),
                    clock_readings(clock),
                    collected(batch, done, clock, w, f),
                    0 <= batch.rejected,
                decreases records.len() - k,
            {
                let received = utc_now();
                let checked = utc_now();
                let ghost earlier = batch;
                let ghost entry = (resource@, records@[k as int]);
                let stored = log_record_at(
                    &resource,
                    &records[k],
                    received,
                    checked,
                    ingest_window_secs,
                    future_tolerance_secs,
                );
                proof {
                    lemma_more_readings(done, clock, (received, checked), w, f);
                    clock = clock.push((received, checked));
                    assert(done.push(entry).drop_last() =~= done);
                    done = done.push(entry);
                    assert(done =~= start + scope_entries(resource@, records@.take(k + 1)));
                }
                match stored {
                    Some(l) => {
                        batch.records.push(l);
                        assert(log_views(batch.records@) =~= log_views(earlier.records@).push(l@));
                    },
                    None => {
                        batch.rejected = batch.rejected + 1;
                    },
                }
                k += 1;
            }
            proof {
                assert(records@.take(records.len() as int) =~= records@);
                assert(done =~= before + resource_entries(resource@, scopes@.take(j + 1)));
            }
            j += 1;
        }
        proof {
            assert(scopes@.take(scopes.len() as int) =~= scopes@);
        }
        i += 1;
    }
    proof {
        assert(resources@.take(resources.len() as int) =~= resources@);
        assert(collected(batch, all, clock, w, f));
    }
    batch
}

/// The records of the first resources are no more than those of all.
proof fn lemma_prefix_entries(resources: Seq<ResourceLogs>, n: int)
    requires
        0 <= n <= resources.len(),
    ensures
        request_entries(resources.take(n)).len() <= request_entries(resources).len(),
    decreases resources.len() - n,
{
    if n < resources.len() {
        lemma_prefix_entries(resources, n + 1);
        assert(resources.take(n + 1).drop_last() =~= resources.take(n));
    } else {
        assert(resources.take(n) =~= resources);
    }
}

/// The records of the first scopes are no more than those of all.
proof fn lemma_prefix_scopes(resource: JsonView, scopes: Seq<ScopeLogs>, n: int)
    requires
        0 <= n <= scopes.len(),
    ensures
        resource_entries(resource, scopes.take(n)).len() <= resource_entries(resource, scopes).len(),
    decreases scopes.len() - n,
{
    if n < scopes.len() {
        lemma_prefix_scopes(resource, scopes, n + 1);
        assert(scopes.take(n + 1).drop_last() =~= scopes.take(n));
    } else {
        assert(scopes.take(n) =~= scopes);
    }
}

// ---------------------------------------------------------------------------
// Laws
// ---------------------------------------------------------------------------

/// The text of a body is that of the value that was sent: a text as it is, a
/// truth value by its name, and a number as it is written. Other values have
/// none.
pub open spec fn tells_body(text: Option<Seq<char>>, lr: OtlpLog) -> bool {
    match lr.body {
        Some(any) => match any.value {
            Some(AnyKind::StringValue(s)) => text == Some(s@),
            Some(AnyKind::BoolValue(b)) => text is Some && (text == Some("true"@) <==> b) && (text == Some(
                "false"@,
            ) <==> !b),
            Some(AnyKind::IntValue(i)) => text == Some(decimal_int(i as int)),
            Some(AnyKind::DoubleValue(d)) => text == Some(double_display(d.to_bits_spec())),
            _ => text is None,
        },
        None => text is None,
    }
}

/// When a record was sent: its own time where it is set, or else the time it was
/// observed where that is set, or else the time it was received.
pub open spec fn is_sent_at(ts: Timestamp, lr: OtlpLog, received: Timestamp) -> bool {
    if lr.time_unix_nano != 0 {
        total_nanos(ts) == lr.time_unix_nano && ts.nanos < NANOS_PER_SEC
    } else if lr.observed_time_unix_nano != 0 {
        total_nanos(ts) == lr.observed_time_unix_nano && ts.nanos < NANOS_PER_SEC
    } else {
        ts == received
    }
}

/// A record keeps what was sent: its time, its severity, its body, the trace and
/// the span that it belongs to, its own attributes, and those of its resource.
pub open spec fn keeps_record(l: LogView, r: Option<Resource>, lr: OtlpLog, received: Timestamp) -> bool {
    &&& is_sent_at(l.ts, lr, received)
    &&& l.severity_number is None <==> lr.severity_number == 0
    &&& l.severity_number matches Some(n) ==> n == lr.severity_number
    &&& l.severity_text is None <==> lr.severity_text@.len() == 0
    &&& l.severity_text matches Some(t) ==> t == lr.severity_text@
    &&& tells_body(l.body, lr)
    &&& names(l.trace_id, lr.trace_id@)
    &&& names(l.span_id, lr.span_id@)
    &&& shows_resource(l.resource, r)
    &&& shows(l.attributes, lr.attributes@)
}

/// A record that is stored keeps what was sent of it, whatever its resource
/// holds; one is stored exactly where it was sent in the window.
pub proof fn law_stored_records_keep_what_was_sent(
    r: Option<Resource>,
    lr: OtlpLog,
    clock: Readings,
    window: u64,
    tolerance: u64,
)
    ensures
        stored_log(resource_json(r), lr, clock, window, tolerance) matches Some(l) ==> keeps_record(l, r, lr, clock.0),
        stored_log(resource_json(r), lr, clock, window, tolerance) is Some <==> exists|ts: Timestamp| #[trigger]
            is_sent_at(ts, lr, clock.0) && in_window(ts, clock.1, window, tolerance),
{
    law_instant_keeps_its_nanoseconds(lr.time_unix_nano);
    law_instant_keeps_its_nanoseconds(lr.observed_time_unix_nano);
    law_identifier_is_named(lr.trace_id@);
    law_identifier_is_named(lr.span_id@);
    law_resource_can_be_looked_up(r);
    law_attributes_can_be_looked_up(lr.attributes@);
    reveal_strlit("true");
    reveal_strlit("false");
    assert("true"@.len() == 4 && "false"@.len() == 5);
    assert(is_sent_at(log_instant(lr, clock.0), lr, clock.0));
    assert forall|ts: Timestamp| #[trigger] is_sent_at(ts, lr, clock.0) implies ts == log_instant(lr, clock.0) by {
        let own = log_instant(lr, clock.0);
        if lr.time_unix_nano != 0 || lr.observed_time_unix_nano != 0 {
            assert(total_nanos(ts) == total_nanos(own) && own.nanos < NANOS_PER_SEC);
        }
    }
}

/// The records that are stored stand in the order in which they were looked at,
/// and each once: those before a record are as many as were stored before it was
/// looked at.
pub proof fn law_records_are_stored_in_order(
    entries: Seq<LogEntry>,
    clock: Seq<Readings>,
    window: u64,
    tolerance: u64,
    i: int,
)
    requires
        0 <= i < entries.len() <= clock.len(),
    ensures
        ({
            let all = stored_logs(entries, clock, window, tolerance);
            let before = stored_logs(entries.take(i), clock, window, tolerance).len();
            let after = stored_logs(entries.take(i + 1), clock, window, tolerance).len();
            match stored_log(entries[i].0, entries[i].1, clock[i], window, tolerance) {
                Some(l) => after == before + 1 && before < all.len() && all[before as int] == l,
                None => after == before,
            }
        }),
    decreases entries.len(),
{
    let front = entries.drop_last();
    assert(entries.take(i + 1).drop_last() =~= entries.take(i));
    assert(entries.take(i + 1).last() == entries[i]);
    if i < front.len() {
        law_records_are_stored_in_order(front, clock, window, tolerance, i);
        assert(front.take(i) =~= entries.take(i));
        assert(front.take(i + 1) =~= entries.take(i + 1));
        assert(front[i] == entries[i]);
    } else {
        assert(entries.take(i + 1) =~= entries);
    }
}

/// How many records scopes have.
pub open spec fn records_in(scopes: Seq<ScopeLogs>) -> int
    decreases scopes.len(),
{
    if scopes.len() == 0 {
        0
    } else {
        records_in(scopes.drop_last()) + scopes.last().log_records@.len()
    }
}

/// How many records a request has.
pub open spec fn records_sent(resources: Seq<ResourceLogs>) -> int
    decreases resources.len(),
{
    if resources.len() == 0 {
        0
    } else {
        records_sent(resources.drop_last()) + records_in(resources.last().scope_logs@)
    }
}

proof fn lemma_scope_entry(resource: JsonView, scopes: Seq<ScopeLogs>, b: int, c: int)
    requires
        0 <= b < scopes.len(),
        0 <= c < scopes[b].log_records@.len(),
    ensures
        records_in(scopes.take(b)) + c < resource_entries(resource, scopes).len(),
        0 <= records_in(scopes.take(b)),
        resource_entries(resource, scopes)[records_in(scopes.take(b)) + c] == (resource, scopes[b].log_records@[c]),
    decreases scopes.len(),
{
    let front = scopes.drop_last();
    lemma_entries_in(resource, front);
    if b < front.len() {
        lemma_scope_entry(resource, front, b, c);
        assert(front.take(b) =~= scopes.take(b));
    } else {
        assert(front =~= scopes.take(b));
    }
}

proof fn lemma_entries_in(resource: JsonView, scopes: Seq<ScopeLogs>)
    ensures
        resource_entries(resource, scopes).len() == records_in(scopes),
    decreases scopes.len(),
{
    if scopes.len() > 0 {
        lemma_entries_in(resource, scopes.drop_last());
    }
}

/// A request has as many records to look at as were sent in it.
pub proof fn law_every_record_is_counted(resources: Seq<ResourceLogs>)
    ensures
        request_entries(resources).len() == records_sent(resources),
    decreases resources.len(),
{
    if resources.len() > 0 {
        let last = resources.last();
        law_every_record_is_counted(resources.drop_last());
        lemma_entries_in(resource_json(last.resource), last.scope_logs@);
    }
}

/// Every record of a request is looked at, with the resource that it was sent
/// with, behind all that was sent before it.
pub proof fn law_every_record_is_looked_at(resources: Seq<ResourceLogs>, a: int, b: int, c: int)
    requires
        0 <= a < resources.len(),
        0 <= b < resources[a].scope_logs@.len(),
        0 <= c < resources[a].scope_logs@[b].log_records@.len(),
    ensures
        ({
            let at = records_sent(resources.take(a)) + records_in(resources[a].scope_logs@.take(b)) + c;
            0 <= at < request_entries(resources).len() && request_entries(resources)[at] == (
                resource_json(resources[a].resource),
                resources[a].scope_logs@[b].log_records@[c],
            )
        }),
    decreases resources.len(),
{
    let front = resources.drop_last();
    law_every_record_is_counted(front);
    if a < front.len() {
        law_every_record_is_looked_at(front, a, b, c);
        assert(front.take(a) =~= resources.take(a));
    } else {
        assert(front =~= resources.take(a));
        lemma_scope_entry(resource_json(resources[a].resource), resources[a].scope_logs@, b, c);
    }
}

/// A record stands for its fields.
pub proof fn law_record_stands_for_its_fields(l: LogRecord)
    ensures
        l@.ts == l.ts && l@.severity_number == l.severity_number,
        l.severity_text matches Some(t) ==> l@.severity_text == Some(t@),
        l.severity_text is None ==> l@.severity_text is None,
        l.body matches Some(t) ==> l@.body == Some(t@),
        l.body is None ==> l@.body is None,
        l.trace_id matches Some(t) ==> l@.trace_id == Some(t@),
        l.trace_id is None ==> l@.trace_id is None,
        l.span_id matches Some(t) ==> l@.span_id == Some(t@),
        l.span_id is None ==> l@.span_id is None,
        l@.resource == l.resource@ && l@.attributes == l.attributes@,
{
}

/// What came of a request are the records that are stored, in order, and the number
/// of all others.
pub proof fn law_batch_holds_what_is_stored(
    batch: LogsBatch,
    entries: Seq<LogEntry>,
    clock: Seq<Readings>,
    window: u64,
    tolerance: u64,
)
    requires
        collected(batch, entries, clock, window, tolerance),
    ensures
        ({
            let stored = stored_logs(entries, clock, window, tolerance);
            &&& batch.records@.len() == stored.len()
            &&& forall|k: int| 0 <= k < stored.len() ==> (#[trigger] batch.records@[k])@ == stored[k]
            &&& batch.rejected == entries.len() - stored.len()
        }),
{
    let stored = stored_logs(entries, clock, window, tolerance);
    assert(log_views(batch.records@).len() == stored.len());
    assert forall|k: int| 0 <= k < stored.len() implies (#[trigger] batch.records@[k])@ == stored[k] by {
        assert(log_views(batch.records@)[k] == stored[k]);
    }
}

} // verus!
