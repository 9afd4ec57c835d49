//! Decoding OTLP requests, and the answers to them.

use vstd::prelude::*;

use opentelemetry_proto::tonic::collector::logs::v1::{
    ExportLogsPartialSuccess, ExportLogsServiceRequest, ExportLogsServiceResponse,
};
use opentelemetry_proto::tonic::collector::metrics::v1::{
    ExportMetricsPartialSuccess, ExportMetricsServiceRequest, ExportMetricsServiceResponse,
};
use opentelemetry_proto::tonic::collector::trace::v1::{
    ExportTracePartialSuccess, ExportTraceServiceRequest, ExportTraceServiceResponse,
};

use crate::http::{reply_with, Reply};
use crate::ingest::normalize::{applied, normalize_otlp_json, otlp_view};
use crate::json::{canonical, parsed_json, quoted};
use crate::text::{decimal_int, starts_with};

verus! {

/// The content type of a request in protobuf.
pub const PROTOBUF_CT: &'static str = "application/x-protobuf";

/// The content type of a request, and of every answer, in JSON.
pub const JSON_CT: &'static str = "application/json";

// ---------------------------------------------------------------------------
// Decoders
// ---------------------------------------------------------------------------

/// What `prost` decodes as a metrics request, or its error message.
pub uninterp spec fn protobuf_metrics(body: Seq<u8>) -> Result<ExportMetricsServiceRequest, Seq<char>>;

/// What `prost` decodes as a logs request, or its error message.
pub uninterp spec fn protobuf_logs(body: Seq<u8>) -> Result<ExportLogsServiceRequest, Seq<char>>;

/// What `prost` decodes as a traces request, or its error message.
pub uninterp spec fn protobuf_traces(body: Seq<u8>) -> Result<ExportTraceServiceRequest, Seq<char>>;

/// What `serde_json` decodes as a metrics request, or its error message.
pub uninterp spec fn json_metrics(text: Seq<char>) -> Result<ExportMetricsServiceRequest, Seq<char>>;

/// What `serde_json` decodes as a logs request, or its error message.
pub uninterp spec fn json_logs(body: Seq<u8>) -> Result<ExportLogsServiceRequest, Seq<char>>;

/// What `serde_json` decodes as a traces request, or its error message.
pub uninterp spec fn json_traces(text: Seq<char>) -> Result<ExportTraceServiceRequest, Seq<char>>;

/// `prost::Message::decode` of a metrics request: the outcome depends on the
/// bytes alone.
#[verifier::external_body]
fn read_protobuf_metrics(body: &[u8]) -> (r: Result<ExportMetricsServiceRequest, String>)
    ensures
        match r {
            Ok(m) => protobuf_metrics(body@) == Ok::<ExportMetricsServiceRequest, Seq<char>>(m),
            Err(e) => protobuf_metrics(body@) == Err::<ExportMetricsServiceRequest, Seq<char>>(e@),
        },
{
    prost::Message::decode(body).map_err(|e: prost::DecodeError| e.to_string())
}

/// `prost::Message::decode` of a logs request: the outcome depends on the bytes
/// alone.
#[verifier::external_body]
fn read_protobuf_logs(body: &[u8]) -> (r: Result<ExportLogsServiceRequest, String>)
    ensures
        match r {
            Ok(m) => protobuf_logs(body@) == Ok::<ExportLogsServiceRequest, Seq<char>>(m),
            Err(e) => protobuf_logs(body@) == Err::<ExportLogsServiceRequest, Seq<char>>(e@),
        },
{
    prost::Message::decode(body).map_err(|e: prost::DecodeError| e.to_string())
}

/// `prost::Message::decode` of a traces request: the outcome depends on the
/// bytes alone.
#[verifier::external_body]
fn read_protobuf_traces(body: &[u8]) -> (r: Result<ExportTraceServiceRequest, String>)
    ensures
        match r {
            Ok(m) => protobuf_traces(body@) == Ok::<ExportTraceServiceRequest, Seq<char>>(m),
            Err(e) => protobuf_traces(body@) == Err::<ExportTraceServiceRequest, Seq<char>>(e@),
        },
{
    prost::Message::decode(body).map_err(|e: prost::DecodeError| e.to_string())
}

/// `serde_json::from_str` of a metrics request: the outcome depends on the text
/// alone.
#[verifier::external_body]
fn read_json_metrics(text: &str) -> (r: Result<ExportMetricsServiceRequest, String>)
    ensures
        match r {
            Ok(m) => json_metrics(text@) == Ok::<ExportMetricsServiceRequest, Seq<char>>(m),
            Err(e) => json_metrics(text@) == Err::<ExportMetricsServiceRequest, Seq<char>>(e@),
        },
{
    serde_json::from_str(text).map_err(|e| e.to_string())
}

/// `serde_json::from_slice` of a logs request: the outcome depends on the bytes
/// alone.
#[verifier::external_body]
fn read_json_logs(body: &[u8]) -> (r: Result<ExportLogsServiceRequest, String>)
    ensures
        match r {
            Ok(m) => json_logs(body@) == Ok::<ExportLogsServiceRequest, Seq<char>>(m),
            Err(e) => json_logs(body@) == Err::<ExportLogsServiceRequest, Seq<char>>(e@),
        },
{
    serde_json::from_slice(body).map_err(|e| e.to_string())
}

/// `serde_json::from_str` of a traces request: the outcome depends on the text
/// alone.
#[verifier::external_body]
fn read_json_traces(text: &str) -> (r: Result<ExportTraceServiceRequest, String>)
    ensures
        match r {
            Ok(m) => json_traces(text@) == Ok::<ExportTraceServiceRequest, Seq<char>>(m),
            Err(e) => json_traces(text@) == Err::<ExportTraceServiceRequest, Seq<char>>(e@),
        },
{
    serde_json::from_str(text).map_err(|e| e.to_string())
}

// ---------------------------------------------------------------------------
// Requests
// ---------------------------------------------------------------------------

/// A request in protobuf says so in its content type. Any other is in JSON.
pub open spec fn is_protobuf(content_type: Seq<char>) -> bool {
    PROTOBUF_CT@.is_prefix_of(content_type)
}

/// The text of a request in JSON, evened out, or why it is not JSON.
pub open spec fn evened(body: Seq<u8>) -> Result<Seq<char>, Seq<char>> {
    match parsed_json(body) {
        Ok(v) => Ok(canonical(applied(otlp_view(), v))),
        Err(m) => Err("json parse: "@ + m),
    }
}

/// The outcome with an error message that says what failed.
pub open spec fn labelled<T>(r: Result<T, Seq<char>>, label: Seq<char>) -> Result<T, Seq<char>> {
    match r {
        Ok(m) => Ok(m),
        Err(e) => Err(label + e),
    }
}

/// The metrics request that a body holds, or the message for its sender.
pub open spec fn metrics_request(content_type: Seq<char>, body: Seq<u8>) -> Result<
    ExportMetricsServiceRequest,
    Seq<char>,
> {
    if is_protobuf(content_type) {
        labelled(protobuf_metrics(body), "protobuf decode: "@)
    } else {
        match evened(body) {
            Ok(text) => labelled(json_metrics(text), "json decode: "@),
            Err(e) => Err(e),
        }
    }
}

/// The logs request that a body holds, or the message for its sender.
pub open spec fn logs_request(content_type: Seq<char>, body: Seq<u8>) -> Result<ExportLogsServiceRequest, Seq<char>> {
    if is_protobuf(content_type) {
        labelled(protobuf_logs(body), "protobuf decode: "@)
    } else {
        labelled(json_logs(body), "json decode: "@)
    }
}

/// The traces request that a body holds, or the message for its sender.
pub open spec fn traces_request(content_type: Seq<char>, body: Seq<u8>) -> Result<
    ExportTraceServiceRequest,
    Seq<char>,
> {
    if is_protobuf(content_type) {
        labelled(protobuf_traces(body), "protobuf decode: "@)
    } else {
        match evened(body) {
            Ok(text) => labelled(json_traces(text), "json decode: "@),
            Err(e) => Err(e),
        }
    }
}

fn prefixed(label: &str, message: String) -> (r: String)
    ensures
        r@ == label@ + message@,
{
    let mut r = label.to_owned();
    r.push_str(message.as_str());
    r
}

/// The metrics request that a body holds: protobuf where the content type says
/// so, otherwise JSON with its 64-bit numbers evened out.
pub fn decode_metrics(content_type: &str, body: &[u8]) -> (r: Result<ExportMetricsServiceRequest, String>)
    ensures
        match r {
            Ok(m) => metrics_request(content_type@, body@) == Ok::<ExportMetricsServiceRequest, Seq<char>>(m),
            Err(e) => metrics_request(content_type@, body@) == Err::<ExportMetricsServiceRequest, Seq<char>>(e@),
        },
{
    if starts_with(content_type, PROTOBUF_CT) {
        match read_protobuf_metrics(body) {
            Ok(m) => Ok(m),
            Err(e) => Err(prefixed("protobuf decode: ", e)),
        }
    } else {
        match normalize_otlp_json(body) {
            Ok(text) => match read_json_metrics(text.as_str()) {
                Ok(m) => Ok(m),
                Err(e) => Err(prefixed("json decode: ", e)),
            },
            Err(e) => Err(e),
        }
    }
}

/// The logs request that a body holds: protobuf where the content type says so,
/// otherwise JSON.
pub fn decode_logs(content_type: &str, body: &[u8]) -> (r: Result<ExportLogsServiceRequest, String>)
    ensures
        match r {
            Ok(m) => logs_request(content_type@, body@) == Ok::<ExportLogsServiceRequest, Seq<char>>(m),
            Err(e) => logs_request(content_type@, body@) == Err::<ExportLogsServiceRequest, Seq<char>>(e@),
        },
{
    if starts_with(content_type, PROTOBUF_CT) {
        match read_protobuf_logs(body) {
            Ok(m) => Ok(m),
            Err(e) => Err(prefixed("protobuf decode: ", e)),
        }
    } else {
        match read_json_logs(body) {
            Ok(m) => Ok(m),
            Err(e) => Err(prefixed("json decode: ", e)),
        }
    }
}

/// The traces request that a body holds: protobuf where the content type says
/// so, otherwise JSON with its 64-bit numbers evened out.
pub fn decode_traces(content_type: &str, body: &[u8]) -> (r: Result<ExportTraceServiceRequest, String>)
    ensures
        match r {
            Ok(m) => traces_request(content_type@, body@) == Ok::<ExportTraceServiceRequest, Seq<char>>(m),
            Err(e) => traces_request(content_type@, body@) == Err::<ExportTraceServiceRequest, Seq<char>>(e@),
        },
{
    if starts_with(content_type, PROTOBUF_CT) {
        match read_protobuf_traces(body) {
            Ok(m) => Ok(m),
            Err(e) => Err(prefixed("protobuf decode: ", e)),
        }
    } else {
        match normalize_otlp_json(body) {
            Ok(text) => match read_json_traces(text.as_str()) {
                Ok(m) => Ok(m),
                Err(e) => Err(prefixed("json decode: ", e)),
            },
            Err(e) => Err(e),
        }
    }
}

// ---------------------------------------------------------------------------
// Answers
// ---------------------------------------------------------------------------

/// The text of an answer: what was rejected and why, or null where nothing was.
pub open spec fn response_text(field: Seq<char>, partial: Option<(i64, String)>) -> Seq<char> {
    match partial {
        Some((rejected, message)) => "{\"partialSuccess\":{\""@ + field + "\":"@ + decimal_int(rejected as int)
            + ",\"errorMessage\":"@ + quoted(message@) + "}}"@,
        None => "{\"partialSuccess\":null}"@,
    }
}

/// `serde_json::to_string` of a metrics response.
#[verifier::external_body]
fn metrics_response_json(partial: Option<(i64, String)>) -> (s: String)
    ensures
        s@ == response_text("rejectedDataPoints"@, partial),
{
    let partial_success = partial.map(
        |p| ExportMetricsPartialSuccess { rejected_data_points: p.0, error_message: p.1 },
    );
    serde_json::to_string(&ExportMetricsServiceResponse { partial_success }).unwrap_or_default()
}

/// `serde_json::to_string` of a logs response.
#[verifier::external_body]
fn logs_response_json(partial: Option<(i64, String)>) -> (s: String)
    ensures
        s@ == response_text("rejectedLogRecords"@, partial),
{
    let partial_success = partial.map(
        |p| ExportLogsPartialSuccess { rejected_log_records: p.0, error_message: p.1 },
    );
    serde_json::to_string(&ExportLogsServiceResponse { partial_success }).unwrap_or_default()
}

/// `serde_json::to_string` of a traces response.
#[verifier::external_body]
fn traces_response_json(partial: Option<(i64, String)>) -> (s: String)
    ensures
        s@ == response_text("rejectedSpans"@, partial),
{
    let partial_success = partial.map(|p| ExportTracePartialSuccess { rejected_spans: p.0, error_message: p.1 });
    serde_json::to_string(&ExportTraceServiceResponse { partial_success }).unwrap_or_default()
}

/// The body of an answer: it speaks of a partial success where something was
/// rejected or there is something to say.
pub open spec fn answer_text(field: Seq<char>, rejected: i64, message: Seq<char>) -> Seq<char> {
    if rejected > 0 || message.len() > 0 {
        "{\"partialSuccess\":{\""@ + field + "\":"@ + decimal_int(rejected as int) + ",\"errorMessage\":"@ + quoted(
            message,
        ) + "}}"@
    } else {
        "{\"partialSuccess\":null}"@
    }
}

/// The answer with the given body: status 200, in JSON.
pub open spec fn answers(r: Reply, field: Seq<char>, rejected: i64, message: Seq<char>) -> bool {
    r.status == 200 && r.spec_headers() == seq![("content-type"@, JSON_CT@)] && r.body@ == answer_text(
        field,
        rejected,
        message,
    )
}

fn partial(rejected: i64, message: &str) -> (r: Option<(i64, String)>)
    ensures
        match r {
            Some((n, m)) => n == rejected && m@ == message@ && (rejected > 0 || message@.len() > 0),
            None => rejected <= 0 && message@.len() == 0,
        },
{
    if rejected > 0 || !message.is_empty() {
        Some((rejected, message.to_owned()))
    } else {
        None
    }
}

/// The answer to a metrics request.
pub fn metrics_response(rejected: i64, message: &str) -> (r: Reply)
    ensures
        answers(r, "rejectedDataPoints"@, rejected, message@),
{
    reply_with(200, "content-type", JSON_CT, metrics_response_json(partial(rejected, message)))
}

/// The answer to a logs request.
pub fn logs_response(rejected: i64, message: &str) -> (r: Reply)
    ensures
        answers(r, "rejectedLogRecords"@, rejected, message@),
{
    reply_with(200, "content-type", JSON_CT, logs_response_json(partial(rejected, message)))
}

/// The answer to a traces request.
pub fn traces_response(rejected: i64, message: &str) -> (r: Reply)
    ensures
        answers(r, "rejectedSpans"@, rejected, message@),
{
    reply_with(200, "content-type", JSON_CT, traces_response_json(partial(rejected, message)))
}

// ---------------------------------------------------------------------------
// Laws
// ---------------------------------------------------------------------------

/// A body whose content type starts with that of protobuf, whatever follows it,
/// is decoded as protobuf: what the decoder gives is what comes out, and a failure
/// is told with the words of the decoder.
pub proof fn law_protobuf_bodies_are_decoded_as_such(parameters: Seq<char>, body: Seq<u8>)
    ensures
        ({
            let content_type = "application/x-protobuf"@ + parameters;
            &&& match protobuf_metrics(body) {
                Ok(m) => metrics_request(content_type, body) == Ok::<ExportMetricsServiceRequest, Seq<char>>(m),
                Err(e) => metrics_request(content_type, body) matches Err(told) && told == "protobuf decode: "@ + e,
            }
            &&& match protobuf_logs(body) {
                Ok(m) => logs_request(content_type, body) == Ok::<ExportLogsServiceRequest, Seq<char>>(m),
                Err(e) => logs_request(content_type, body) matches Err(told) && told == "protobuf decode: "@ + e,
            }
            &&& match protobuf_traces(body) {
                Ok(m) => traces_request(content_type, body) == Ok::<ExportTraceServiceRequest, Seq<char>>(m),
                Err(e) => traces_request(content_type, body) matches Err(told) && told == "protobuf decode: "@ + e,
            }
        }),
{
    assert("application/x-protobuf"@.is_prefix_of("application/x-protobuf"@ + parameters));
}

/// A body of any other content type is decoded as JSON: logs as they are, metrics
/// and traces with their numbers evened out. What is no JSON is refused.
pub proof fn law_other_bodies_are_decoded_as_json(content_type: Seq<char>, body: Seq<u8>)
    requires
        content_type.len() < "application/x-protobuf"@.len() || content_type.take(
            "application/x-protobuf"@.len() as int,
        ) != "application/x-protobuf"@,
    ensures
        match json_logs(body) {
            Ok(m) => logs_request(content_type, body) == Ok::<ExportLogsServiceRequest, Seq<char>>(m),
            Err(e) => logs_request(content_type, body) matches Err(told) && told == "json decode: "@ + e,
        },
        match parsed_json(body) {
            Ok(v) => {
                let text = canonical(applied(otlp_view(), v));
                &&& match json_metrics(text) {
                    Ok(m) => metrics_request(content_type, body) == Ok::<ExportMetricsServiceRequest, Seq<char>>(m),
                    Err(e) => metrics_request(content_type, body) matches Err(told) && told == "json decode: "@ + e,
                }
                &&& match json_traces(text) {
                    Ok(m) => traces_request(content_type, body) == Ok::<ExportTraceServiceRequest, Seq<char>>(m),
                    Err(e) => traces_request(content_type, body) matches Err(told) && told == "json decode: "@ + e,
                }
            },
            Err(e) => {
                &&& metrics_request(content_type, body) matches Err(told) && told == "json parse: "@ + e
                &&& traces_request(content_type, body) matches Err(told) && told == "json parse: "@ + e
            },
        },
{
    let ct = "application/x-protobuf"@;
    if ct.is_prefix_of(content_type) {
        assert(content_type.take(ct.len() as int) =~= ct);
    }
}

/// An answer says that all was taken exactly where nothing was rejected and there
/// is nothing to say; otherwise it says how much was rejected, and why.
pub proof fn law_answer_tells_what_was_rejected(field: Seq<char>, rejected: i64, message: Seq<char>)
    ensures
        rejected <= 0 && message.len() == 0 ==> answer_text(field, rejected, message) == "{\"partialSuccess\":null}"@,
        rejected > 0 || message.len() > 0 ==> answer_text(field, rejected, message) == "{\"partialSuccess\":{\""@ + (field
            + "\":"@ + decimal_int(rejected as int)) + (",\"errorMessage\":"@ + quoted(message) + "}}"@),
{
    if rejected > 0 || message.len() > 0 {
        assert(answer_text(field, rejected, message) =~= "{\"partialSuccess\":{\""@ + (field + "\":"@ + decimal_int(
            rejected as int,
        )) + (",\"errorMessage\":"@ + quoted(message) + "}}"@));
    }
}

/// An answer is a success in JSON, whatever was rejected.
pub proof fn law_answers_are_successes(r: Reply, field: Seq<char>, rejected: i64, message: Seq<char>)
    requires
        answers(r, field, rejected, message),
    ensures
        r.status == 200,
        r.headers@.len() == 1 && r.headers@[0].0@ == "content-type"@ && r.headers@[0].1@ == "application/json"@,
        r.body@ == answer_text(field, rejected, message),
{
    assert(r.spec_headers().len() == 1);
    assert(r.spec_headers()[0] == (r.headers@[0].0@, r.headers@[0].1@));
    assert(r.spec_headers()[0] == ("content-type"@, JSON_CT@));
}

} // verus!
