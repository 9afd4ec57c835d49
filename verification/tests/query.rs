use chrono::{TimeZone, Utc};
use soma_observe::json::{canonical_json, parse_json, Json, JsonNumber};
use soma_observe::query::filter::parse_filter;
use soma_observe::query::kubernetes::{gather, WorkloadRow};
use soma_observe::query::logs::{self, clamp_limit, ndjson, LogsQueryParams};
use soma_observe::query::metrics::{
    self, agg_sql, assemble, do_buckets_fit, parse_agg, plan_readings, scalar_sql, split_ids, BucketRow, HistoBucketRow, HistoSummaryRow,
    MetricsQueryParams, QueryRows, SeriesRow,
};
use soma_observe::query::range::{parse_open_range, parse_range, window_secs, TimeRange};
use soma_observe::query::services::{error_rate, service_edge, service_stats, Ratio, ServiceRow};
use soma_observe::query::traces::{self, trace_status, TracesQueryParams};
use soma_observe::time::{parse_time, Timestamp};

fn json(text: &str) -> Json {
    parse_json(text.as_bytes()).expect("valid json")
}

fn at(secs: i64) -> Timestamp {
    Timestamp { secs, nanos: 0 }
}

fn filter(s: &str) -> Option<Json> {
    parse_filter(&Some(s.to_string()))
}

fn text<'a>(v: &'a Json, key: &str) -> &'a str {
    v.get(key).and_then(|x| x.as_str()).expect("a text")
}

// Times and filters

#[test]
fn parse_time_rfc3339() {
    assert!(parse_time("2024-01-01T00:00:00Z").is_some());
}

#[test]
fn parse_time_unix_secs() {
    assert!(parse_time("1704067200").is_some());
}

#[test]
fn parse_time_invalid() {
    assert!(parse_time("not-a-date").is_none());
}

#[test]
fn both_forms_of_a_time_agree() {
    let t = Utc.with_ymd_and_hms(2024, 1, 1, 0, 0, 0).unwrap().timestamp();
    assert_eq!(parse_time("2024-01-01T00:00:00Z"), Some(at(t)));
    assert_eq!(parse_time("2024-01-01T02:00:00+02:00"), Some(at(t)));
    assert_eq!(parse_time("1704067200"), Some(at(t)));
    assert_eq!(parse_time("2024-01-01T00:00:00.5Z"), Some(Timestamp { secs: t, nanos: 500_000_000 }));
    assert_eq!(parse_time("-5"), Some(at(-5)));
    assert_eq!(parse_time("9223372036854775807"), None);
    assert_eq!(parse_time(""), None);
}

#[test]
fn parse_filter_key_value() {
    let f = filter(r#"env="prod",svc="api""#).unwrap();
    assert_eq!(text(&f, "env"), "prod");
    assert_eq!(text(&f, "svc"), "api");
}

#[test]
fn parse_filter_multi() {
    let f = filter(r#"env="prod",region="us""#).unwrap();
    assert_eq!(text(&f, "env"), "prod");
    assert_eq!(text(&f, "region"), "us");
}

#[test]
fn parse_filter_none_on_empty() {
    assert!(parse_filter(&None).is_none());
    assert!(filter("").is_none());
}

#[test]
fn filters_are_trimmed_and_the_last_key_counts() {
    let f = filter(" a = b , c=\"d e\" , a=\"\" ").unwrap();
    assert_eq!(text(&f, "a"), "");
    assert_eq!(text(&f, "c"), "d e");
    assert!(filter("a=1,b").is_none());
    assert!(filter("   ").is_none());
    let f = filter("k=v=w").unwrap();
    assert_eq!(text(&f, "k"), "v=w");
    let f = filter("k=\"").unwrap();
    assert_eq!(text(&f, "k"), "\"");
}

#[test]
fn filters_ask_for_the_pairs_written_in_them() {
    let pairs = [("http.route", "/a?b=c d"), ("", "\""), ("note", " kept ")];
    let parts: Vec<String> = pairs.iter().map(|(k, v)| format!("{k}=\"{v}\"")).collect();
    let f = filter(&parts.join(",")).unwrap();
    for (k, v) in pairs {
        assert_eq!(text(&f, k), v);
    }
}

// Ranges

#[test]
fn ranges_run_forward() {
    assert_eq!(parse_range("10", "20"), Ok(TimeRange { start: at(10), end: at(20) }));
    assert_eq!(parse_range("x", "20"), Err("invalid start time"));
    assert_eq!(parse_range("10", "x"), Err("invalid end time"));
    assert!(parse_range("20", "20").is_err());
    assert!(parse_range("21", "20").is_err());
}

#[test]
fn open_ranges_span_the_last_hour() {
    let now = at(100_000);
    assert_eq!(
        parse_open_range(&None, &None, now),
        Some(Ok(TimeRange { start: at(96_400), end: now }))
    );
    assert_eq!(
        parse_open_range(&None, &Some("97000".to_string()), now),
        Some(Ok(TimeRange { start: at(96_400), end: at(97_000) }))
    );
    assert_eq!(
        parse_open_range(&None, &Some("2020-01-02T00:00:00Z".to_string()), at(1_767_225_600)),
        Some(Err("start must be before end"))
    );
    assert_eq!(parse_open_range(&Some("x".to_string()), &None, now), Some(Err("invalid start time")));
    assert_eq!(parse_open_range(&None, &Some("x".to_string()), now), Some(Err("invalid end time")));
    assert_eq!(window_secs(&TimeRange { start: at(10), end: at(25) }), 15);
    assert_eq!(window_secs(&TimeRange { start: at(10), end: Timestamp { secs: 10, nanos: 5 } }), 1);
}

// Metrics

#[test]
fn parse_agg_valid() {
    assert_eq!(parse_agg(Some("sum")), Ok("sum"));
    assert_eq!(parse_agg(Some("avg")), Ok("avg"));
    assert_eq!(parse_agg(None), Ok("avg"));
}

#[test]
fn parse_agg_invalid() {
    assert!(parse_agg(Some("median")).is_err());
}

#[test]
fn aggregations_have_their_expressions() {
    assert_eq!(agg_sql("sum"), "SUM(mp.value)");
    assert_eq!(agg_sql("count"), "COUNT(mp.value)");
    assert_eq!(agg_sql("median"), "AVG(mp.value)");
    assert!(scalar_sql("max").contains("MAX(mp.value)::float8"));
    assert!(scalar_sql("count").contains("COUNT(mp.value)::float8"));
}

fn metric_params() -> MetricsQueryParams {
    MetricsQueryParams {
        name: "cpu".to_string(),
        start: "100".to_string(),
        end: "200".to_string(),
        step: None,
        filter: Some("host=\"a\"".to_string()),
        agg: None,
    }
}

#[test]
fn metric_queries_are_planned() {
    let q = metrics::plan_query(&metric_params()).ok().unwrap();
    assert_eq!(q.range, TimeRange { start: at(100), end: at(200) });
    assert_eq!((q.step_secs, q.agg), (60, "avg"));
    assert_eq!(canonical_json(q.filter.as_ref().unwrap()), r#"{"host":"a"}"#);

    let mut p = metric_params();
    p.step = Some(0);
    assert_eq!(metrics::plan_query(&p).ok().unwrap().step_secs, 1);
    p.agg = Some("median".to_string());
    assert_eq!(metrics::plan_query(&p).err(), Some("agg must be one of: sum, avg, min, max, count"));
    p.start = "x".to_string();
    assert_eq!(metrics::plan_query(&p).err(), Some("invalid start time"));
}

fn series_row(series_id: i64, kind: &str) -> SeriesRow {
    SeriesRow {
        series_id,
        resource: json("{}"),
        attributes: json("{}"),
        kind: kind.to_string(),
        unit: Some("ms".to_string()),
        monotonic: None,
    }
}

#[test]
fn rows_become_series() {
    let rows = QueryRows {
        series: vec![series_row(1, "Gauge"), series_row(2, "Histogram"), series_row(3, "Gauge")],
        scalar: vec![
            BucketRow { series_id: 1, bucket: at(60), value: Some(1.5_f64.to_bits()), count: 2 },
            BucketRow { series_id: 1, bucket: at(120), value: None, count: 0 },
        ],
        histogram: vec![HistoBucketRow { series_id: 2, bucket: at(60), sum: Some(9.0_f64.to_bits()), count: Some(4) }],
        summaries: vec![HistoSummaryRow { series_id: 2, bounds: json("[1.0, 5]"), bucket_counts: json("[1, 2, 1]") }],
    };
    assert_eq!(split_ids(&rows.series), (vec![1, 3], vec![], vec![2]));
    assert!(do_buckets_fit(&rows, 60));
    assert!(!do_buckets_fit(&rows, 0));
    let r = assemble("latency", &rows, 60, "avg");
    assert_eq!(r.metric, "latency");
    assert_eq!(r.unit.as_deref(), Some("ms"));
    assert_eq!(r.series.len(), 2, "a series without points is left out");
    let first = &r.series[0];
    assert_eq!((first.points[0].start, first.points[0].end), (at(60), at(120)));
    assert_eq!(first.points[0].value.map(f64::from_bits), Some(1.5));
    assert_eq!(first.points[0].count, None);
    assert!(first.histogram.is_none());
    let second = &r.series[1];
    assert_eq!(second.points[0].count, Some(4));
    let h = second.histogram.as_ref().unwrap();
    assert_eq!(h.latest_bucket_counts, vec![1, 2, 1]);
    assert_eq!(h.bounds.len(), 2);
    assert!(matches!(h.bounds[1], JsonNumber::PosInt(5)));

    let counted = assemble("latency", &rows, 60, "count");
    assert_eq!(counted.series[0].points[0].value.map(f64::from_bits), Some(2.0));
    assert_eq!(counted.series[0].points[0].count, Some(2));
}

#[test]
fn counters_are_summed_whatever_is_asked() {
    let series = vec![series_row(1, "Sum"), series_row(2, "Gauge"), series_row(3, "Histogram"), series_row(4, "Sum")];
    assert_eq!(split_ids(&series), (vec![2], vec![1, 4], vec![3]));
    for agg in ["avg", "min", "count"] {
        let readings = plan_readings(&series, agg);
        assert_eq!(readings.gauges.series_ids, [2]);
        assert_eq!(readings.gauges.sql, scalar_sql(agg));
        assert_eq!(readings.counters.series_ids, [1, 4]);
        assert_eq!(readings.counters.sql, scalar_sql("sum"));
        assert!(readings.counters.sql.contains("SUM(mp.value)"));
        assert_eq!(readings.histogram_ids, [3]);
    }
    // The deltas 5, 10 and 15 of one bucket, summed by the store.
    let rows = QueryRows {
        series,
        scalar: vec![BucketRow { series_id: 1, bucket: at(120), value: Some(30.0_f64.to_bits()), count: 3 }],
        histogram: vec![],
        summaries: vec![],
    };
    for agg in ["avg", "count"] {
        let r = assemble("c", &rows, 120, agg);
        assert_eq!(r.series.len(), 1);
        assert_eq!(r.series[0].points.len(), 1);
        assert_eq!(r.series[0].points[0].value.map(f64::from_bits), Some(30.0));
        assert_eq!(r.series[0].points[0].count, None);
    }
}

#[test]
fn sums_that_fall_are_aggregated_as_asked() {
    let sum = |series_id: i64, monotonic: Option<bool>| SeriesRow { monotonic, ..series_row(series_id, "Sum") };
    let histogram = SeriesRow { monotonic: Some(false), ..series_row(4, "Histogram") };
    let series = vec![sum(1, Some(false)), sum(2, Some(true)), sum(3, None), histogram];
    assert_eq!(split_ids(&series), (vec![1], vec![2, 3], vec![4]));
    for agg in ["avg", "max", "count"] {
        let readings = plan_readings(&series, agg);
        assert_eq!(readings.gauges.series_ids, [1]);
        assert_eq!(readings.gauges.sql, scalar_sql(agg));
        assert_eq!(readings.counters.series_ids, [2, 3]);
        assert_eq!(readings.counters.sql, scalar_sql("sum"));
    }
    // The values 5, 10 and 15 of one bucket: their mean, and how many they are.
    let rows = QueryRows {
        series,
        scalar: vec![BucketRow { series_id: 1, bucket: at(120), value: Some(10.0_f64.to_bits()), count: 3 }],
        histogram: vec![],
        summaries: vec![],
    };
    let mean = assemble("queue", &rows, 120, "avg");
    assert_eq!(mean.series[0].points[0].value.map(f64::from_bits), Some(10.0));
    assert_eq!(mean.series[0].points[0].count, None);
    let counted = assemble("queue", &rows, 120, "count");
    assert_eq!(counted.series[0].points[0].value.map(f64::from_bits), Some(3.0));
    assert_eq!(counted.series[0].points[0].count, Some(3));
}

#[test]
fn without_rows_any_step_will_do() {
    let rows = QueryRows { series: vec![], scalar: vec![], histogram: vec![], summaries: vec![] };
    assert!(do_buckets_fit(&rows, 9_300_000_000_000_000));
    let r = assemble("unknown", &rows, 9_300_000_000_000_000, "avg");
    assert_eq!((r.metric.as_str(), r.unit, r.series.len()), ("unknown", None, 0));
}

// Logs and traces

#[test]
fn limits_are_bounded() {
    assert_eq!(clamp_limit(None, 100, 1000), 100);
    assert_eq!(clamp_limit(Some(0), 100, 1000), 1);
    assert_eq!(clamp_limit(Some(5_000), 100, 1000), 1000);
    assert_eq!(clamp_limit(Some(7), 100, 1000), 7);
}

#[test]
fn log_queries_are_planned() {
    let p = LogsQueryParams {
        start: "100".to_string(),
        end: "200".to_string(),
        filter: None,
        severity_min: Some(9),
        q: None,
        limit: Some(5_000),
    };
    let q = logs::plan_query(&p).ok().unwrap();
    assert_eq!(q.limit, 1000);
    assert!(q.filter.is_none());
    let late = LogsQueryParams { end: "100".to_string(), ..p };
    assert!(logs::plan_query(&late).is_err());
}

#[test]
fn records_stand_on_lines() {
    let lines = vec![Some("{\"a\":1}".to_string()), None, Some("{}".to_string())];
    assert_eq!(ndjson(&lines), "{\"a\":1}\n{}\n");
    assert_eq!(ndjson(&vec![]), "");
}

#[test]
fn trace_queries_are_planned() {
    let p = TracesQueryParams {
        service: None,
        name: None,
        status: None,
        min_duration_ms: None,
        max_duration_ms: None,
        start: "100".to_string(),
        end: "200".to_string(),
        limit: None,
    };
    assert_eq!(traces::plan_query(&p).ok().unwrap().limit, 50);
    let many = TracesQueryParams { limit: Some(501), ..p };
    assert_eq!(traces::plan_query(&many).ok().unwrap().limit, 500);
    let wrong = TracesQueryParams { end: "x".to_string(), ..many };
    assert_eq!(traces::plan_query(&wrong).err(), Some("invalid end time"));
    assert_eq!(trace_status(0), 404);
    assert_eq!(trace_status(3), 200);
}

// Services and clusters

#[test]
fn service_rates_are_quotients() {
    let s = service_stats(
        ServiceRow {
            name: "api".to_string(),
            span_count: 10,
            error_count: 2,
            p50_ns: 1,
            p90_ns: 2,
            p99_ns: 3_000_000,
        },
        60,
    );
    assert_eq!(s.error_rate, Ratio { num: 2, den: 10 });
    assert_eq!(s.rate_per_sec, Ratio { num: 10, den: 60 });
    assert_eq!(s.p99_ms, Ratio { num: 3_000_000, den: 1_000_000 });
    assert_eq!(error_rate(5, 0), Ratio { num: 0, den: 1 });
    let e = service_edge("a".to_string(), "b".to_string(), 3, 1, 500);
    assert_eq!((e.call_count, e.error_count, e.p99_ms), (3, 1, Ratio { num: 500, den: 1_000_000 }));
}

fn workload(namespace: Option<&str>, name: Option<&str>, pods: i64) -> WorkloadRow {
    WorkloadRow {
        namespace: namespace.map(|s| s.to_string()),
        workload: name.map(|s| s.to_string()),
        kind: "Deployment".to_string(),
        pod_count: pods,
        pods: Some(vec![Some("p1".to_string()), None]),
        span_count: 10,
        error_count: 1,
        p50_ns: 1,
        p90_ns: 2,
        p99_ns: 3,
    }
}

#[test]
fn workloads_are_gathered_by_namespace() {
    let rows = vec![
        workload(Some("prod"), Some("api"), 2),
        workload(Some("dev"), Some("api"), 1),
        workload(Some("prod"), Some("web"), 3),
    ];
    let spaces = gather(&rows, 60).unwrap();
    assert_eq!(spaces.len(), 2);
    let prod = spaces.iter().find(|n| n.name == "prod").unwrap();
    assert_eq!((prod.pod_count, prod.span_count, prod.error_count), (5, 20, 2));
    let names: Vec<&str> = prod.workloads.iter().map(|w| w.workload.as_str()).collect();
    assert_eq!(names, vec!["api", "web"]);
    assert_eq!(prod.workloads[0].pods, vec!["p1"]);
}
