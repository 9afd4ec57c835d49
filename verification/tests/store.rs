use chrono::{TimeZone, Utc};
use soma_observe::json::{canonical_json, parse_json, Json};
use soma_observe::store::partition::{
    advance_month, create_partition, drop_sql, ensure_partitions, is_on_calendar, is_valid_month, month_start, next_month,
    parse_partition_ym, partition_fate, partition_name, partitioned_tables, retention_plan, PartitionFate,
};
use soma_observe::store::schema::{
    hash_series_key, HistogramPoint, LogRecord, MetricPoint, PointValue, Series, SeriesKey, SpanRecord,
};
use soma_observe::store::series::{CachedSeries, Resolution, SeriesCache};
use soma_observe::store::write::{write_histogram_points, write_log_records, write_metric_points, write_spans};
use soma_observe::time::Timestamp;

fn json(text: &str) -> Json {
    parse_json(text.as_bytes()).expect("valid json")
}

fn at(secs: i64) -> Timestamp {
    Timestamp { secs, nanos: 0 }
}

fn now() -> Timestamp {
    at(Utc::now().timestamp())
}

fn utc(year: i32, month: u32, day: u32) -> i64 {
    Utc.with_ymd_and_hms(year, month, day, 0, 0, 0).unwrap().timestamp()
}

// Partitions

#[test]
fn partition_name_format() {
    assert_eq!(partition_name("metric_point", 2026, 6), "metric_point_y2026m06");
    assert_eq!(partition_name("logs", 2025, 12), "logs_y2025m12");
}

#[test]
fn parse_partition_ym_roundtrip() {
    let table = "metric_point";
    let (yr, mo) = (2026, 6);
    let name = partition_name(table, yr, mo);
    let parsed = parse_partition_ym(&name);
    assert_eq!(parsed, Some((yr, mo)));
}

#[test]
fn parse_partition_ym_rejects_bad_names() {
    assert_eq!(parse_partition_ym("metric_point"), None);
    assert_eq!(parse_partition_ym("no_suffix"), None);
}

#[test]
fn advance_month_wraps_december() {
    let dec = month_start(2025, 12);
    let jan = advance_month(dec);
    assert_eq!(jan.year(), 2026);
    assert_eq!(jan.month(), 1);
    assert_eq!(jan.day(), 1);
}

#[test]
fn next_month_basic() {
    let nm = next_month(2026, 5);
    assert_eq!(nm.year(), 2026);
    assert_eq!(nm.month(), 6);
}

#[test]
fn partition_fully_expired_when_end_before_cutoff() {
    let partition_end = month_start(2026, 7);
    let cutoff = month_start(2026, 8);
    assert!(partition_end.at().le(&cutoff.at()), "june partition should be expired");
}

#[test]
fn months_start_at_midnight() {
    assert_eq!(month_start(1970, 1).at(), at(0));
    assert_eq!(month_start(2026, 6).at(), at(utc(2026, 6, 1)));
    assert_eq!(month_start(2024, 3).at(), at(utc(2024, 3, 1)));
    assert_eq!(month_start(1900, 3).at(), at(utc(1900, 3, 1)));
}

#[test]
fn months_of_the_calendar() {
    assert!(is_valid_month(2026, 1));
    assert!(is_valid_month(2026, 12));
    assert!(!is_valid_month(2026, 0));
    assert!(!is_valid_month(2026, 13));
    assert!(!is_valid_month(400_000, 1));
}

#[test]
fn partition_names_of_odd_years() {
    assert_eq!(partition_name("logs", 7, 1), "logs_y0007m01");
    assert_eq!(parse_partition_ym("logs_y12026m11"), Some((12026, 11)));
    assert_eq!(parse_partition_ym("logs_y2026"), None);
    assert_eq!(parse_partition_ym("a_y1m1_y2026m02"), Some((2026, 2)));
}

#[test]
fn partition_statement_names_both_days() {
    let from = month_start(2026, 12);
    let p = create_partition("logs", from, advance_month(from));
    assert_eq!(p.name, "logs_y2026m12");
    assert_eq!(
        p.sql,
        "CREATE TABLE IF NOT EXISTS soma_observe.\"logs_y2026m12\"\n           PARTITION OF soma_observe.\"logs\"\n           FOR VALUES FROM ('2026-12-01') TO ('2027-01-01')"
    );
    assert_eq!(drop_sql("logs_y2026m12"), "DROP TABLE IF EXISTS soma_observe.\"logs_y2026m12\"");
}

#[test]
fn every_table_gets_this_month_and_the_next() {
    let made = ensure_partitions(at(utc(2026, 12, 31) + 86_399));
    let names: Vec<&str> = made.iter().map(|p| p.name.as_str()).collect();
    assert_eq!(names.len(), 8);
    for table in partitioned_tables() {
        assert!(names.contains(&partition_name(table, 2026, 12).as_str()));
        assert!(names.contains(&partition_name(table, 2027, 1).as_str()));
    }
}

#[test]
fn partitions_expire_when_their_month_has_passed() {
    let june_end = utc(2026, 7, 1);
    let retention = 30 * 86_400;
    assert_eq!(partition_fate("logs_y2026m06", at(june_end + retention), 30), PartitionFate::Expired);
    assert_eq!(partition_fate("logs_y2026m06", at(june_end + retention - 1), 30), PartitionFate::Kept);
    assert_eq!(partition_fate("logs_archive", at(june_end), 30), PartitionFate::Unrecognized);
}

#[test]
fn names_off_the_calendar_are_told_apart() {
    assert!(is_on_calendar("logs_y2026m12"));
    assert!(is_on_calendar("logs"));
    assert!(!is_on_calendar("logs_y2026m13"));
    assert!(!is_on_calendar("logs_y2026m00"));
}

#[test]
fn each_table_has_its_retention() {
    assert_eq!(
        retention_plan(90, 30, 7),
        vec![("metric_point", 90), ("metric_histogram_point", 90), ("logs", 30), ("spans", 7)]
    );
}

// Series keys

#[test]
fn hash_is_stable_and_deterministic() {
    let key = SeriesKey::new("cpu.usage", "Gauge", &json(r#"{"service": "api", "host": "a"}"#), &json(r#"{"cpu": "0"}"#));
    let id1 = hash_series_key(&key);
    let id2 = hash_series_key(&key);
    assert_eq!(id1, id2, "hash must be deterministic");
}

#[test]
fn hash_differs_for_different_keys() {
    let k1 = SeriesKey::new("cpu.usage", "Gauge", &json("{}"), &json("{}"));
    let k2 = SeriesKey::new("mem.usage", "Gauge", &json("{}"), &json("{}"));
    assert_ne!(hash_series_key(&k1), hash_series_key(&k2));
}

#[test]
fn one_byte_changes_the_identifier() {
    let key = SeriesKey::new("cpu", "Sum", &json(r#"{"a":"b"}"#), &json(r#"{"c":"d"}"#));
    let others = [
        SeriesKey::new("cpv", "Sum", &json(r#"{"a":"b"}"#), &json(r#"{"c":"d"}"#)),
        SeriesKey::new("cpu", "Sun", &json(r#"{"a":"b"}"#), &json(r#"{"c":"d"}"#)),
        SeriesKey::new("cpu", "Sum", &json(r#"{"a":"x"}"#), &json(r#"{"c":"d"}"#)),
        SeriesKey::new("cpu", "Sum", &json(r#"{"a":"b"}"#), &json(r#"{"c":"e"}"#)),
    ];
    for other in others {
        assert_ne!(hash_series_key(&key), hash_series_key(&other));
    }
}

#[test]
fn canonical_texts_tell_values_apart() {
    let texts = [
        "null", "true", "0", "-1", "1", "10", r#""""#, r#""1""#, r#""\"""#, r#""\u0001""#, "[]", "[[]]", "[1,0]", "[10]",
        r#"["a,b"]"#, r#"["a","b"]"#, "{}", r#"{"a":{}}"#, r#"{"a":1,"b":2}"#, r#"{"a":"1,\"b\":2"}"#,
    ];
    for (i, a) in texts.iter().enumerate() {
        for (j, b) in texts.iter().enumerate() {
            assert_eq!(canonical_json(&json(a)) == canonical_json(&json(b)), i == j);
        }
    }
}

#[test]
fn canonical_json_sorts_keys() {
    let a = json(r#"{"z": 1, "a": 2}"#);
    let b = json(r#"{"a": 2, "z": 1}"#);
    assert_eq!(canonical_json(&a), canonical_json(&b));
}

#[test]
fn series_key_resource_order_irrelevant() {
    let k1 = SeriesKey::new("m", "Sum", &json(r#"{"b": 2, "a": 1}"#), &json("{}"));
    let k2 = SeriesKey::new("m", "Sum", &json(r#"{"a": 1, "b": 2}"#), &json("{}"));
    assert_eq!(hash_series_key(&k1), hash_series_key(&k2));
}

#[test]
fn canonical_text_is_exact() {
    let v = json(r#"{"b": [1, -2, 0.5, null, true], "a": {"y": "q\"\n", "x": "é"}}"#);
    assert_eq!(canonical_json(&v), "{\"a\":{\"x\":\"é\",\"y\":\"q\\\"\\n\"},\"b\":[1,-2,0.5,null,true]}");
}

#[test]
fn hash_is_fnv1a_of_the_parts() {
    let key = SeriesKey::new("m", "Sum", &json("{}"), &json(r#"{"k": 1}"#));
    let mut h: u64 = 0xcbf2_9ce4_8422_2325;
    for b in "m\0Sum\0{}\0{\"k\":1}".bytes() {
        h ^= b as u64;
        h = h.wrapping_mul(0x0000_0100_0000_01b3);
    }
    assert_eq!(hash_series_key(&key), h as i64);
}

// The cache

fn series(name: &str) -> Series {
    Series {
        name: name.to_string(),
        resource: json(r#"{"service": "test"}"#),
        attributes: json("{}"),
        kind: "Gauge".to_string(),
        unit: None,
    }
}

#[test]
fn cache_hit_returns_cached_id() {
    let mut cache = SeriesCache::with_capacity(10);
    let key = SeriesKey::new("cpu", "Gauge", &json("{}"), &json("{}"));
    let expected_id = 42_i64;
    cache.remember(&key, expected_id);
    let id = cache.get(&key).map(|c| c.series_id);
    assert_eq!(id, Some(expected_id));
}

#[test]
fn cache_miss_returns_none_before_insert() {
    let mut cache = SeriesCache::with_capacity(10);
    let key = SeriesKey::new("new_metric", "Gauge", &json("{}"), &json("{}"));
    let id = cache.get(&key).map(|c| c.series_id);
    assert_eq!(id, None, "fresh cache must miss");
}

#[test]
fn swap_cumulative_tracks_last_value() {
    let mut cache = SeriesCache::with_capacity(10);
    let key = SeriesKey::new("counter", "Sum", &json("{}"), &json("{}"));
    cache.remember(&key, 1);
    let prev = cache.swap_cumulative(&key, 100.0_f64.to_bits()).map(f64::from_bits);
    assert_eq!(prev, None, "first observation has no previous value");
    let prev2 = cache.swap_cumulative(&key, 150.0_f64.to_bits()).map(f64::from_bits);
    assert_eq!(prev2, Some(100.0));
}

#[test]
fn unknown_series_has_no_cumulative_value() {
    let mut cache = SeriesCache::new();
    let key = SeriesKey::new("counter", "Sum", &json("{}"), &json("{}"));
    assert_eq!(cache.swap_cumulative(&key, 1), None);
    assert_eq!(cache.get(&key), None);
}

#[test]
fn least_recently_used_series_is_dropped() {
    let mut cache = SeriesCache::with_capacity(2);
    let a = SeriesKey::new("a", "Gauge", &json("{}"), &json("{}"));
    let b = SeriesKey::new("b", "Gauge", &json("{}"), &json("{}"));
    let c = SeriesKey::new("c", "Gauge", &json("{}"), &json("{}"));
    cache.remember(&a, 1);
    cache.remember(&b, 2);
    assert!(cache.get(&a).is_some());
    cache.remember(&c, 3);
    assert_eq!(cache.get(&b), None);
    assert_eq!(cache.get(&a), Some(CachedSeries { series_id: 1, last_cumulative: None }));
    assert_eq!(cache.get(&c).map(|s| s.series_id), Some(3));
}

#[test]
fn remembering_again_forgets_the_cumulative_value() {
    let mut cache = SeriesCache::with_capacity(2);
    let key = SeriesKey::new("a", "Sum", &json("{}"), &json("{}"));
    cache.remember(&key, 1);
    cache.swap_cumulative(&key, 7);
    cache.remember(&key, 1);
    assert_eq!(cache.swap_cumulative(&key, 8), None);
}

#[test]
fn resolved_series_are_known_once_remembered() {
    let mut cache = SeriesCache::new();
    let s = series("test.metric.resolve");
    match cache.resolve(&s) {
        Resolution::Unknown { key, candidate_id } => {
            assert_eq!(candidate_id, hash_series_key(&key));
            cache.remember(&key, candidate_id);
            match cache.resolve(&s) {
                Resolution::Known(id) => assert_eq!(id, candidate_id),
                Resolution::Unknown { .. } => panic!("the series was remembered"),
            }
        }
        Resolution::Known(_) => panic!("the cache is new"),
    }
}

// Columns

fn make_metric_point(series_id: i64, value: f64) -> MetricPoint {
    MetricPoint {
        series_id,
        ts: now(),
        value: PointValue::Given(value.to_bits()),
        exemplar_trace_id: None,
        exemplar_span_id: None,
    }
}

#[test]
fn empty_batch_is_noop() {
    let points: Vec<MetricPoint> = vec![];
    assert!(points.is_empty(), "empty slice must trigger early return");
    assert!(write_metric_points(&points).is_none());
    assert!(write_histogram_points(&vec![]).is_none());
    assert!(write_log_records(&vec![]).is_none());
    assert!(write_spans(&vec![]).is_none());
}

#[test]
fn unnest_arrays_have_equal_length() {
    let points = vec![make_metric_point(1, 1.0), make_metric_point(2, 2.0)];
    let columns = write_metric_points(&points).unwrap();
    let ids = &columns.series_ids;
    let tss = &columns.timestamps;
    let vals = &columns.values;
    assert_eq!(ids.len(), tss.len());
    assert_eq!(ids.len(), vals.len());
    assert_eq!(columns.exemplar_trace_ids.len(), 2);
    assert_eq!(columns.exemplar_span_ids.len(), 2);
}

#[test]
fn columns_keep_the_order_of_records() {
    let mut points = vec![make_metric_point(7, 1.5), make_metric_point(8, 2.5)];
    points[1].exemplar_trace_id = Some("t".to_string());
    let c = write_metric_points(&points).unwrap();
    assert_eq!(c.series_ids, vec![7, 8]);
    assert_eq!(c.values, vec![PointValue::Given(1.5_f64.to_bits()), PointValue::Given(2.5_f64.to_bits())]);
    assert_eq!(c.exemplar_trace_ids, vec![None, Some("t")]);

    let histograms = vec![HistogramPoint {
        series_id: 3,
        ts: at(9),
        sum: Some(10.0_f64.to_bits()),
        count: Some(5),
        bucket_counts: Some(json("[1, 2, 2]")),
        bounds: Some(json("[0.5, 1.0]")),
    }];
    let h = write_histogram_points(&histograms).unwrap();
    assert_eq!((h.series_ids[0], h.timestamps[0], h.counts[0]), (3, at(9), Some(5)));

    let logs = vec![LogRecord {
        ts: at(1),
        severity_number: Some(9),
        severity_text: Some("INFO".to_string()),
        body: Some("test log".to_string()),
        trace_id: None,
        span_id: None,
        resource: json(r#"{"service": "test"}"#),
        attributes: json("{}"),
    }];
    let l = write_log_records(&logs).unwrap();
    assert_eq!(l.bodies, vec![Some("test log")]);
    assert_eq!(l.severity_numbers, vec![Some(9)]);

    let spans = vec![SpanRecord {
        trace_id: "t1".to_string(),
        span_id: "s1".to_string(),
        parent_span_id: None,
        name: "op".to_string(),
        kind: Some("SERVER".to_string()),
        service_name: None,
        scope_name: None,
        start_time: at(1),
        end_time: at(2),
        duration_ns: 1_000_000_000,
        status_code: None,
        status_message: None,
        resource: json("{}"),
        attributes: json("{}"),
        events: json("[]"),
        links: json("[]"),
    }];
    let s = write_spans(&spans).unwrap();
    assert_eq!(s.span_ids, vec!["s1"]);
    assert_eq!(s.duration_ns, vec![1_000_000_000]);
}
