use std::time::{SystemTime, UNIX_EPOCH};

use chrono::{Duration, Utc};
use opentelemetry_proto::tonic::collector::logs::v1::ExportLogsServiceRequest;
use opentelemetry_proto::tonic::collector::metrics::v1::ExportMetricsServiceRequest;
use opentelemetry_proto::tonic::collector::trace::v1::ExportTraceServiceRequest;
use opentelemetry_proto::tonic::common::v1::any_value::Value as AnyKind;
use opentelemetry_proto::tonic::common::v1::{AnyValue, InstrumentationScope, KeyValue};
use opentelemetry_proto::tonic::logs::v1::{LogRecord, ResourceLogs, ScopeLogs};
use opentelemetry_proto::tonic::metrics::v1::metric::Data;
use opentelemetry_proto::tonic::metrics::v1::number_data_point::Value as NumberKind;
use opentelemetry_proto::tonic::metrics::v1::{
    AggregationTemporality, ExponentialHistogram, ExponentialHistogramDataPoint, Gauge, Histogram, HistogramDataPoint, Metric,
    NumberDataPoint, ResourceMetrics, ScopeMetrics, Sum, Summary, SummaryDataPoint,
};
use opentelemetry_proto::tonic::resource::v1::Resource;
use opentelemetry_proto::tonic::trace::v1::{ResourceSpans, ScopeSpans, Span, Status};
use prost::Message;

use soma_observe::http::{cors_preflight, service_unavailable, with_cors, Reply};
use soma_observe::ingest::attributes::{body_to_string, bytes_are_zero, bytes_to_hex, hex_id, int_json, kv_to_json};
use soma_observe::ingest::batch::{counter_delta, MetricsBatch};
use soma_observe::ingest::decode::{
    decode_logs, decode_metrics, decode_traces, logs_response, metrics_response, traces_response,
};
use soma_observe::ingest::logs::collect_logs;
use soma_observe::ingest::metrics::{extract_exemplar, lay_out, number_value, MetricItem};
use soma_observe::ingest::normalize::normalize_otlp_json;
use soma_observe::ingest::traces::{collect_spans, duration_ns, service_name, span_kind_text, status_code_text};
use soma_observe::json::{canonical_json, parse_json, Json};
use soma_observe::store::schema::{PointValue, SeriesKey};
use soma_observe::store::series::{Resolution, SeriesCache};
use soma_observe::time::{nano_to_dt, ts_in_window, ts_in_window_at, Timestamp};

fn now_ns() -> u64 {
    SystemTime::now().duration_since(UNIX_EPOCH).unwrap().as_nanos() as u64
}

fn stamp(t: chrono::DateTime<Utc>) -> Timestamp {
    Timestamp { secs: t.timestamp(), nanos: t.timestamp_subsec_nanos() }
}

fn any(v: AnyKind) -> Option<AnyValue> {
    Some(AnyValue { value: Some(v) })
}

fn kv(key: &str, value: &str) -> KeyValue {
    KeyValue { key: key.to_string(), value: any(AnyKind::StringValue(value.to_string())) }
}

fn ndp(time_unix_nano: u64, value: f64) -> NumberDataPoint {
    NumberDataPoint { time_unix_nano, value: Some(NumberKind::AsDouble(value)), ..Default::default() }
}

fn metric(name: &str, data: Data) -> Metric {
    Metric {
        name: name.to_string(),
        unit: String::new(),
        description: String::new(),
        metadata: vec![],
        data: Some(data),
    }
}

fn metrics_of(resource: Option<Resource>, metrics: Vec<Metric>) -> ExportMetricsServiceRequest {
    ExportMetricsServiceRequest {
        resource_metrics: vec![ResourceMetrics {
            resource,
            scope_metrics: vec![ScopeMetrics { scope: None, metrics, schema_url: String::new() }],
            schema_url: String::new(),
        }],
    }
}

fn text<'a>(v: &'a Json, key: &str) -> &'a str {
    v.get(key).and_then(|x| x.as_str()).expect("a text")
}

fn header<'a>(reply: &'a Reply, name: &str) -> Option<&'a str> {
    reply.headers.iter().find(|h| h.0.eq_ignore_ascii_case(name)).map(|h| h.1.as_str())
}

// Attributes

#[test]
fn test_kv_to_json_string_attrs() {
    let attrs = vec![kv("env", "prod"), kv("svc", "api")];
    let j = kv_to_json(&attrs);
    assert_eq!(text(&j, "env"), "prod");
    assert_eq!(text(&j, "svc"), "api");
}

#[test]
fn attributes_of_every_kind() {
    let attrs = vec![
        KeyValue { key: "b".to_string(), value: any(AnyKind::BoolValue(true)) },
        KeyValue { key: "i".to_string(), value: any(AnyKind::IntValue(-5)) },
        KeyValue { key: "d".to_string(), value: any(AnyKind::DoubleValue(0.1)) },
        KeyValue { key: "n".to_string(), value: any(AnyKind::DoubleValue(f64::NAN)) },
        KeyValue { key: "x".to_string(), value: any(AnyKind::BytesValue(vec![0, 255, 16])) },
        KeyValue { key: "none".to_string(), value: None },
        KeyValue { key: "i".to_string(), value: any(AnyKind::IntValue(6)) },
    ];
    let j = kv_to_json(&attrs);
    assert_eq!(canonical_json(&j), r#"{"b":true,"d":0.1,"i":6,"n":null,"none":null,"x":"00ff10"}"#);
}

#[test]
fn bodies_become_texts() {
    assert_eq!(body_to_string(&any(AnyKind::StringValue("hi".to_string()))).as_deref(), Some("hi"));
    assert_eq!(body_to_string(&any(AnyKind::IntValue(-3))).as_deref(), Some("-3"));
    assert_eq!(body_to_string(&any(AnyKind::DoubleValue(1.5))).as_deref(), Some("1.5"));
    assert_eq!(body_to_string(&any(AnyKind::BoolValue(false))).as_deref(), Some("false"));
    assert_eq!(body_to_string(&None), None);
}

#[test]
fn identifiers_in_hexadecimal() {
    assert_eq!(bytes_to_hex(&[0xde, 0xad, 0x01]), "dead01");
    assert!(bytes_are_zero(&[0, 0]));
    assert!(bytes_are_zero(&[]));
    assert!(!bytes_are_zero(&[0, 1]));
    assert_eq!(hex_id(&[0, 0]), None);
    assert_eq!(hex_id(&[1, 2]).as_deref(), Some("0102"));
    assert_eq!(canonical_json(&int_json(i64::MIN)), "-9223372036854775808");
}

// Time

#[test]
fn test_nano_to_dt() {
    assert!(nano_to_dt(0).is_none());
    let ns = now_ns();
    assert!(nano_to_dt(ns).is_some());
}

#[test]
fn nanoseconds_are_split_at_the_second() {
    assert_eq!(
        nano_to_dt(1_700_000_000_123_456_789),
        Some(Timestamp { secs: 1_700_000_000, nanos: 123_456_789 })
    );
}

#[test]
fn test_ts_in_window_now() {
    assert!(ts_in_window(stamp(Utc::now()), 3600, 300));
}

#[test]
fn test_ts_in_window_old() {
    let old = stamp(Utc::now() - Duration::seconds(7200));
    assert!(!ts_in_window(old, 3600, 300));
}

#[test]
fn test_ts_in_window_future() {
    let future = stamp(Utc::now() + Duration::seconds(600));
    assert!(!ts_in_window(future, 3600, 300));
}

#[test]
fn window_holds_both_its_ends() {
    let now = Timestamp { secs: 10_000, nanos: 5 };
    let at = |secs: i64, nanos: u32| Timestamp { secs, nanos };
    assert!(ts_in_window_at(at(6_400, 5), now, 3600, 300));
    assert!(!ts_in_window_at(at(6_400, 4), now, 3600, 300));
    assert!(ts_in_window_at(at(10_300, 5), now, 3600, 300));
    assert!(!ts_in_window_at(at(10_300, 6), now, 3600, 300));
}

// Decoding

#[test]
fn test_decode_gauge_sum_histo_json() {
    let now = now_ns();
    let req = metrics_of(
        Some(Resource { attributes: vec![kv("service", "test")], dropped_attributes_count: 0 }),
        vec![
            Metric {
                name: "cpu.usage".to_string(),
                unit: "1".to_string(),
                description: String::new(),
                metadata: vec![],
                data: Some(Data::Gauge(Gauge { data_points: vec![ndp(now, 0.42)] })),
            },
            Metric {
                name: "http.requests".to_string(),
                unit: "requests".to_string(),
                description: String::new(),
                metadata: vec![],
                data: Some(Data::Sum(Sum {
                    data_points: vec![ndp(now, 100.0)],
                    aggregation_temporality: AggregationTemporality::Cumulative as i32,
                    is_monotonic: true,
                })),
            },
            Metric {
                name: "http.latency".to_string(),
                unit: "ms".to_string(),
                description: String::new(),
                metadata: vec![],
                data: Some(Data::Histogram(Histogram {
                    data_points: vec![HistogramDataPoint {
                        time_unix_nano: now,
                        count: 10,
                        sum: Some(500.0),
                        bucket_counts: vec![2, 5, 3],
                        explicit_bounds: vec![10.0, 50.0],
                        ..Default::default()
                    }],
                    aggregation_temporality: AggregationTemporality::Cumulative as i32,
                })),
            },
        ],
    );

    let json_bytes = serde_json::to_vec(&req).expect("serialize");
    let decoded = decode_metrics("application/json", &json_bytes).expect("deserialize");

    assert_eq!(decoded.resource_metrics.len(), 1);
    let sm = &decoded.resource_metrics[0].scope_metrics[0];
    assert_eq!(sm.metrics.len(), 3);
    assert_eq!(sm.metrics[0].name, "cpu.usage");
    assert_eq!(sm.metrics[1].name, "http.requests");
    assert_eq!(sm.metrics[2].name, "http.latency");

    let from_protobuf = decode_metrics("application/x-protobuf", &req.encode_to_vec()).expect("protobuf");
    assert_eq!(from_protobuf, req);

    let items = lay_out(&req);
    assert_eq!(items.len(), 3);
    match &items[2] {
        MetricItem::Histogram { series, sum, count, bucket_counts, bounds, .. } => {
            assert_eq!(series.name, "http.latency");
            assert_eq!(series.kind, "Histogram");
            assert_eq!(series.unit.as_deref(), Some("ms"));
            assert_eq!(canonical_json(&series.resource), r#"{"service":"test"}"#);
            assert_eq!(sum.map(f64::from_bits), Some(500.0));
            assert_eq!(*count, Some(10));
            assert_eq!(canonical_json(bucket_counts.as_ref().unwrap()), "[2,5,3]");
            assert_eq!(canonical_json(bounds.as_ref().unwrap()), "[10.0,50.0]");
        }
        _ => panic!("expected a histogram"),
    }
}

#[test]
fn test_decode_json_histogram_uint64_strings() {
    let payload = br#"{"resourceMetrics":[{"scopeMetrics":[{"metrics":[{"name":"test_hist","histogram":{"aggregationTemporality":2,"dataPoints":[{"count":"3","sum":6.0,"bucketCounts":["1","2"],"explicitBounds":[5.0],"timeUnixNano":"1700000000000000000"}]}}]}]}]}"#;

    let req = decode_metrics("application/json", payload).expect("decode_metrics must succeed");
    let dp = &req.resource_metrics[0].scope_metrics[0].metrics[0];
    let histo = match dp.data.as_ref().expect("data must be Some") {
        Data::Histogram(h) => h,
        other => panic!("expected Histogram, got {:?}", other),
    };
    let point = &histo.data_points[0];
    assert_eq!(point.count, 3, "count must be 3 (not 0)");
    assert_eq!(point.bucket_counts, vec![1u64, 2u64], "bucket_counts must be [1, 2] (not empty)");
    assert_ne!(point.time_unix_nano, 0, "time_unix_nano must be non-zero");
}

#[test]
fn test_decode_json_gauge_with_exemplar() {
    let trace_id = "aabbccddeeff00112233445566778899";
    let span_id = "0102030405060708";
    let payload = format!(
        r#"{{"resourceMetrics":[{{"scopeMetrics":[{{"metrics":[{{"name":"ex.gauge","gauge":{{"dataPoints":[{{"asDouble":99.5,"timeUnixNano":"1700000000000000000","exemplars":[{{"timeUnixNano":"1700000000000000000","asDouble":99.5,"traceId":"{trace_id}","spanId":"{span_id}","filteredAttributes":[]}}]}}]}}}}]}}]}}]}}"#
    );

    let req = decode_metrics("application/json", payload.as_bytes())
        .expect("decode_metrics must not fail on gauge-with-exemplar");
    let dp = &req.resource_metrics[0].scope_metrics[0].metrics[0];
    let gauge = match dp.data.as_ref().expect("data must be Some, not None") {
        Data::Gauge(g) => g,
        other => panic!("expected Gauge, got {:?}", other),
    };
    let point = &gauge.data_points[0];
    assert_eq!(point.exemplars.len(), 1, "exemplar must be decoded");
    let (ex_trace_id, ex_span_id) = extract_exemplar(&point.exemplars);
    assert_eq!(
        ex_trace_id.as_deref(),
        Some(trace_id),
        "exemplar_trace_id must equal the sent traceId hex string"
    );
    assert_eq!(ex_span_id.as_deref(), Some(span_id));
}

#[test]
fn numbers_and_texts_of_counts_decode_alike() {
    let quoted = br#"{"resourceMetrics":[{"scopeMetrics":[{"metrics":[{"name":"h","histogram":{"aggregationTemporality":2,"dataPoints":[{"count":"3","bucketCounts":["1","2"],"explicitBounds":[5.0],"timeUnixNano":"17"}]}}]}]}]}"#;
    let bare = br#"{"resourceMetrics":[{"scopeMetrics":[{"metrics":[{"name":"h","histogram":{"aggregationTemporality":2,"dataPoints":[{"count":3,"bucketCounts":[1,2],"explicitBounds":[5.0],"timeUnixNano":"17"}]}}]}]}]}"#;
    let a = decode_metrics("application/json", quoted).unwrap();
    let b = decode_metrics("application/json; charset=utf-8", bare).unwrap();
    assert_eq!(a, b);
    assert_eq!(normalize_otlp_json(quoted).unwrap(), normalize_otlp_json(bare).unwrap());
}

#[test]
fn malformed_bodies_are_told_apart() {
    let e = decode_metrics("application/json", b"{").unwrap_err();
    assert!(e.starts_with("json parse: "), "{e}");
    let e = decode_metrics("application/x-protobuf", &[0xff, 0xff]).unwrap_err();
    assert!(e.starts_with("protobuf decode: "), "{e}");
    let e = decode_traces("application/json", br#"{"resourceSpans": 1}"#).unwrap_err();
    assert!(e.starts_with("json decode: "), "{e}");
    let e = decode_logs("application/json", b"nope").unwrap_err();
    assert!(e.starts_with("json decode: "), "{e}");
    let e = decode_logs("application/x-protobuf", &[0xff]).unwrap_err();
    assert!(e.starts_with("protobuf decode: "), "{e}");
    let e = decode_traces("application/x-protobuf", &[0xff]).unwrap_err();
    assert!(e.starts_with("protobuf decode: "), "{e}");
}

// Answers

#[test]
fn test_unsupported_types_partial_success_json() {
    let now = now_ns();
    let req = metrics_of(
        None,
        vec![
            metric(
                "exp_histo",
                Data::ExponentialHistogram(ExponentialHistogram {
                    data_points: vec![ExponentialHistogramDataPoint {
                        time_unix_nano: now,
                        count: 5,
                        ..Default::default()
                    }],
                    aggregation_temporality: AggregationTemporality::Cumulative as i32,
                }),
            ),
            metric(
                "summary_metric",
                Data::Summary(Summary {
                    data_points: vec![SummaryDataPoint { time_unix_nano: now, ..Default::default() }],
                }),
            ),
        ],
    );

    let mut batch = MetricsBatch::new();
    for item in lay_out(&req) {
        assert_eq!(batch.consider(&item, 3600, 300), None);
    }
    let rejected = batch.rejected;
    assert_eq!(rejected, 2, "two unsupported data points must be rejected");
    assert_eq!(batch.reasons, vec!["ExponentialHistogram not supported", "Summary not supported"]);

    let reply = metrics_response(rejected, "ExponentialHistogram not supported; Summary not supported");
    assert_eq!(reply.status, 200);
    let parsed: serde_json::Value = serde_json::from_slice(reply.body.as_bytes()).unwrap();
    let rejected_field = parsed["partialSuccess"]["rejectedDataPoints"].as_i64().unwrap_or(0);
    assert_eq!(rejected_field, 2);
    assert_eq!(batch.answer().body, reply.body);
}

#[test]
fn answers_name_what_was_rejected() {
    let whole = metrics_response(0, "");
    assert_eq!(whole.status, 200);
    assert_eq!(header(&whole, "content-type"), Some("application/json"));
    let parsed: serde_json::Value = serde_json::from_str(&whole.body).unwrap();
    assert!(parsed["partialSuccess"].is_null());
    assert_eq!(whole.body, r#"{"partialSuccess":null}"#);
    assert_eq!(
        metrics_response(2, "a \"b\"").body,
        r#"{"partialSuccess":{"rejectedDataPoints":2,"errorMessage":"a \"b\""}}"#
    );

    let logs: serde_json::Value = serde_json::from_str(&logs_response(3, "old").body).unwrap();
    assert_eq!(logs["partialSuccess"]["rejectedLogRecords"].as_i64(), Some(3));
    assert_eq!(logs["partialSuccess"]["errorMessage"].as_str(), Some("old"));
    let traces: serde_json::Value = serde_json::from_str(&traces_response(4, "late").body).unwrap();
    assert_eq!(traces["partialSuccess"]["rejectedSpans"].as_i64(), Some(4));
}

#[test]
fn cross_origin_headers() {
    let r = cors_preflight("https://a.example");
    assert_eq!(r.status, 204);
    assert_eq!(header(&r, "access-control-allow-origin"), Some("https://a.example"));
    assert_eq!(header(&r, "access-control-allow-methods"), Some("POST, OPTIONS"));
    let r = with_cors(service_unavailable(), "https://a.example");
    assert_eq!(r.status, 503);
    assert_eq!(header(&r, "retry-after"), Some("5"));
    assert_eq!(header(&r, "access-control-allow-origin"), Some("https://a.example"));
    let headers = vec![("access-control-allow-origin", "old".to_string()), ("x-a", "b".to_string())];
    let r = with_cors(Reply { status: 200, headers, body: String::new() }, "new");
    assert_eq!(r.headers, [("x-a", "b".to_string()), ("Access-Control-Allow-Origin", "new".to_string())]);
    let r = with_cors(service_unavailable(), "bad\nvalue");
    assert_eq!(header(&r, "access-control-allow-origin"), Some("*"));
}

#[test]
fn without_records_the_window_does_not_matter() {
    let logs = decode_logs("application/json", b"{\"resourceLogs\":[]}").unwrap();
    let batch = collect_logs(&logs, u64::MAX / 2, u64::MAX / 2);
    assert_eq!((batch.records.len(), batch.rejected), (0, 0));
    let traces = decode_traces("application/json", b"{\"resourceSpans\":[]}").unwrap();
    let batch = collect_spans(&traces, u64::MAX / 2, u64::MAX / 2);
    assert_eq!((batch.records.len(), batch.rejected), (0, 0));
}

// Counters

#[test]
fn test_counter_reset_delta() {
    let mut cache = SeriesCache::with_capacity(10);
    let empty = parse_json(b"{}").unwrap();
    let key = SeriesKey::new("counter", "Sum", &empty, &empty);
    cache.remember(&key, 1);

    let mut delta = |cumulative: f64| -> f64 {
        let prev = cache.swap_cumulative(&key, cumulative.to_bits());
        match counter_delta(prev, cumulative.to_bits()) {
            PointValue::Given(bits) => f64::from_bits(bits),
            PointValue::Rise { from, to } => f64::from_bits(to) - f64::from_bits(from),
        }
    };

    assert_eq!(delta(100.0), 100.0);
    assert_eq!(delta(150.0), 50.0);
    assert_eq!(delta(10.0), 10.0, "counter reset must emit new value as delta");
    assert_eq!(delta(30.0), 20.0);
}

#[test]
fn metrics_request_is_stored_and_accounted_for() {
    let now = now_ns();
    let old = now - 7_200_000_000_000;
    let counter = |t: u64, v: f64| {
        metric(
            "requests",
            Data::Sum(Sum {
                data_points: vec![ndp(t, v)],
                aggregation_temporality: AggregationTemporality::Cumulative as i32,
                is_monotonic: true,
            }),
        )
    };
    let req = metrics_of(
        None,
        vec![
            counter(now, 100.0),
            counter(now, 130.0),
            counter(now, 5.0),
            metric("late", Data::Gauge(Gauge { data_points: vec![ndp(old, 1.0), ndp(0, 1.0)] })),
            metric(
                "empty",
                Data::Gauge(Gauge {
                    data_points: vec![NumberDataPoint { time_unix_nano: now, value: None, ..Default::default() }],
                }),
            ),
            metric(
                "whole",
                Data::Gauge(Gauge {
                    data_points: vec![NumberDataPoint {
                        time_unix_nano: now,
                        value: Some(NumberKind::AsInt(7)),
                        ..Default::default()
                    }],
                }),
            ),
        ],
    );
    let mut cache = SeriesCache::new();
    let mut batch = MetricsBatch::new();
    for item in lay_out(&req) {
        if let Some(ts) = batch.consider(&item, 3600, 300) {
            let id = match &item {
                MetricItem::Number { series, .. } | MetricItem::Histogram { series, .. } => match cache.resolve(series) {
                    Resolution::Known(id) => id,
                    Resolution::Unknown { key, candidate_id } => {
                        cache.remember(&key, candidate_id);
                        candidate_id
                    }
                },
                MetricItem::Unsupported { .. } => unreachable!(),
            };
            batch.store(item, ts, id, &mut cache);
        }
    }
    let values: Vec<f64> = batch
        .metric_points
        .iter()
        .map(|p| match p.value {
            PointValue::Given(bits) => f64::from_bits(bits),
            PointValue::Rise { from, to } => f64::from_bits(to) - f64::from_bits(from),
        })
        .collect();
    assert_eq!(values, vec![100.0, 30.0, 5.0, 7.0]);
    assert_eq!(batch.rejected, 3);
    assert!(batch.reasons.is_empty());
}

#[test]
fn sums_that_fall_are_stored_as_they_are() {
    let now = now_ns();
    let sum = |name: &str, v: f64, is_monotonic: bool| {
        metric(
            name,
            Data::Sum(Sum {
                data_points: vec![ndp(now, v)],
                aggregation_temporality: AggregationTemporality::Cumulative as i32,
                is_monotonic,
            }),
        )
    };
    let req = metrics_of(
        None,
        vec![
            sum("queue", 5.0, false),
            sum("queue", 9.0, false),
            sum("requests", 5.0, true),
            sum("requests", 9.0, true),
            metric("load", Data::Gauge(Gauge { data_points: vec![ndp(now, 1.0)] })),
        ],
    );
    let mut cache = SeriesCache::new();
    let mut batch = MetricsBatch::new();
    let mut monotonic = vec![];
    for item in lay_out(&req) {
        monotonic.push(item.is_monotonic());
        let ts = batch.consider(&item, 3600, 300).unwrap();
        let id = match &item {
            MetricItem::Number { series, .. } | MetricItem::Histogram { series, .. } => match cache.resolve(series) {
                Resolution::Known(id) => id,
                Resolution::Unknown { key, candidate_id } => {
                    cache.remember(&key, candidate_id);
                    candidate_id
                }
            },
            MetricItem::Unsupported { .. } => unreachable!(),
        };
        batch.store(item, ts, id, &mut cache);
    }
    assert_eq!(monotonic, vec![Some(false), Some(false), Some(true), Some(true), None]);
    let given: Vec<bool> = batch.metric_points.iter().map(|p| matches!(p.value, PointValue::Given(_))).collect();
    assert_eq!(given, vec![true, true, true, false, true]);
    assert!(matches!(batch.metric_points[1].value, PointValue::Given(bits) if f64::from_bits(bits) == 9.0));
}

#[test]
fn hexadecimal_text_gives_back_its_bytes() {
    let bytes: Vec<u8> = (0..=255).collect();
    let text = bytes_to_hex(&bytes);
    assert_eq!(text.len(), 512);
    let back: Vec<u8> = (0..256).map(|i| u8::from_str_radix(&text[2 * i..2 * i + 2], 16).unwrap()).collect();
    assert_eq!(back, bytes);
    assert_eq!(bytes_to_hex(&[]), "");
}

#[test]
fn data_points_hold_doubles_and_integers() {
    assert_eq!(number_value(&ndp(1, 0.5)).map(f64::from_bits), Some(0.5));
    let big = i64::MAX - 511;
    let dp = NumberDataPoint { value: Some(NumberKind::AsInt(big)), ..Default::default() };
    assert_eq!(number_value(&dp).map(f64::from_bits), Some(big as f64));
    let none = NumberDataPoint { value: None, ..Default::default() };
    assert_eq!(number_value(&none), None);
}

// Logs and traces

#[test]
fn logs_outside_the_window_are_counted() {
    let now = now_ns();
    let record = |t: u64, observed: u64| LogRecord {
        time_unix_nano: t,
        observed_time_unix_nano: observed,
        severity_number: 9,
        severity_text: "INFO".to_string(),
        body: any(AnyKind::StringValue("hello".to_string())),
        trace_id: vec![1; 16],
        span_id: vec![],
        ..Default::default()
    };
    let req = ExportLogsServiceRequest {
        resource_logs: vec![ResourceLogs {
            resource: Some(Resource { attributes: vec![kv("service.name", "api")], dropped_attributes_count: 0 }),
            scope_logs: vec![ScopeLogs {
                scope: None,
                log_records: vec![record(now, 0), record(0, now), record(now - 7_200_000_000_000, 0)],
                schema_url: String::new(),
            }],
            schema_url: String::new(),
        }],
    };
    let decoded = decode_logs("application/x-protobuf", &req.encode_to_vec()).unwrap();
    let batch = collect_logs(&decoded, 3600, 300);
    assert_eq!(batch.rejected, 1);
    assert_eq!(batch.records.len(), 2);
    let first = &batch.records[0];
    assert_eq!(first.body.as_deref(), Some("hello"));
    assert_eq!(first.severity_number, Some(9));
    assert_eq!(first.trace_id.as_deref(), Some("01010101010101010101010101010101"));
    assert_eq!(first.span_id, None);
    assert_eq!(text(&first.resource, "service.name"), "api");

    let json = serde_json::to_vec(&req).unwrap();
    assert_eq!(collect_logs(&decode_logs("application/json", &json).unwrap(), 3600, 300).records.len(), 2);
}

#[test]
fn spans_are_stored_whole() {
    let now = now_ns();
    let span = |trace: Vec<u8>, id: Vec<u8>, start: u64| Span {
        trace_id: trace,
        span_id: id,
        name: "GET /".to_string(),
        kind: 2,
        start_time_unix_nano: start,
        end_time_unix_nano: start + 1_500,
        status: Some(Status { message: "boom".to_string(), code: 2 }),
        attributes: vec![kv("http.method", "GET")],
        ..Default::default()
    };
    let req = ExportTraceServiceRequest {
        resource_spans: vec![ResourceSpans {
            resource: Some(Resource { attributes: vec![kv("service.name", "api")], dropped_attributes_count: 0 }),
            scope_spans: vec![ScopeSpans {
                scope: Some(InstrumentationScope { name: "lib".to_string(), ..Default::default() }),
                spans: vec![
                    span(vec![1; 16], vec![2; 8], now),
                    span(vec![0; 16], vec![2; 8], now),
                    span(vec![1; 16], vec![], now),
                    span(vec![1; 16], vec![2; 8], 0),
                ],
                schema_url: String::new(),
            }],
            schema_url: String::new(),
        }],
    };
    let decoded = decode_traces("application/x-protobuf", &req.encode_to_vec()).unwrap();
    let batch = collect_spans(&decoded, 3600, 300);
    assert_eq!(batch.rejected, 3);
    assert_eq!(batch.records.len(), 1);
    let s = &batch.records[0];
    assert_eq!(s.span_id, "0202020202020202");
    assert_eq!(s.parent_span_id, None);
    assert_eq!(s.kind.as_deref(), Some("Server"));
    assert_eq!(s.service_name.as_deref(), Some("api"));
    assert_eq!(s.scope_name.as_deref(), Some("lib"));
    assert_eq!(s.duration_ns, 1_500);
    assert_eq!(s.status_code.as_deref(), Some("Error"));
    assert_eq!(s.status_message.as_deref(), Some("boom"));

    let json = serde_json::to_vec(&req).unwrap();
    assert_eq!(collect_spans(&decode_traces("application/json", &json).unwrap(), 3600, 300).records.len(), 1);
}

#[test]
fn kinds_and_codes_of_spans() {
    assert_eq!(span_kind_text(1).as_deref(), Some("Internal"));
    assert_eq!(span_kind_text(3).as_deref(), Some("Client"));
    assert_eq!(status_code_text(1).as_deref(), Some("Ok"));
    assert_eq!(status_code_text(2).as_deref(), Some("Error"));
    assert_eq!(duration_ns(5, 12), 7);
    assert_eq!(duration_ns(12, 5), 0);
    assert_eq!(service_name(&None), None);
}
