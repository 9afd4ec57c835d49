use opentelemetry_proto::tonic::common::v1::any_value::Value as AnyKind;
use soma_observe::alerts::eval::{
    compare, evaluate, log_outcome, metric_outcome, metric_sql, read_log_config, read_metric_config, read_rule,
    webhook_payload, MetricAnswer, Notice, Question, Standing,
};
use soma_observe::alerts::rules::{
    affected_status, create_rule, read_update, rule_from_row, rule_from_row_at, update_rule, valid_kind, valid_severity,
    validate_log_config, validate_metric_config, webhook_update, CreateRuleRequest, RuleRow, UpdateRefusal,
    UpdateRuleRequest,
};
use soma_observe::json::{canonical_json, parse_json, Json};
use soma_observe::time::Timestamp;

fn json(text: &str) -> Json {
    parse_json(text.as_bytes()).expect("valid json")
}

fn at(secs: i64) -> Timestamp {
    Timestamp { secs, nanos: 0 }
}

fn cmp(value: f64, threshold: f64, comparator: &str) -> bool {
    compare(value.to_bits(), threshold.to_bits(), comparator)
}

fn number(v: &Json) -> f64 {
    canonical_json(v).parse().expect("a number")
}

fn double(v: &Option<AnyKind>) -> Option<f64> {
    match v {
        Some(AnyKind::DoubleValue(d)) => Some(*d),
        _ => None,
    }
}

// Conditions

#[test]
fn compare_gt() {
    assert!(cmp(5.0, 1.0, "gt"));
    assert!(!cmp(1.0, 5.0, "gt"));
    assert!(!cmp(1.0, 1.0, "gt"));
}

#[test]
fn compare_gte() {
    assert!(cmp(1.0, 1.0, "gte"));
    assert!(cmp(2.0, 1.0, "gte"));
    assert!(!cmp(0.0, 1.0, "gte"));
}

#[test]
fn compare_lt() {
    assert!(cmp(0.0, 1.0, "lt"));
    assert!(!cmp(1.0, 0.0, "lt"));
}

#[test]
fn compare_lte() {
    assert!(cmp(1.0, 1.0, "lte"));
    assert!(!cmp(2.0, 1.0, "lte"));
}

#[test]
fn comparisons_are_those_of_doubles() {
    let values = [
        f64::NEG_INFINITY,
        f64::MIN,
        -1.5,
        -f64::MIN_POSITIVE,
        -0.0,
        0.0,
        5e-324,
        0.1,
        1.5,
        f64::MAX,
        f64::INFINITY,
        f64::NAN,
        -f64::NAN,
    ];
    for a in values {
        for b in values {
            assert_eq!(cmp(a, b, "gt"), a > b, "{a} > {b}");
            assert_eq!(cmp(a, b, "lt"), a < b, "{a} < {b}");
            assert_eq!(cmp(a, b, "gte"), a >= b, "{a} >= {b}");
            assert_eq!(cmp(a, b, "lte"), a <= b, "{a} <= {b}");
            assert!(!cmp(a, b, "eq"));
        }
    }
}

// Validation

#[test]
fn validate_metric_config_ok() {
    let cfg = json(r#"{"metric_name": "cpu", "agg": "avg", "comparator": "gt", "threshold": 90.0, "window_secs": 300}"#);
    assert!(validate_metric_config(&cfg).is_ok());
}

#[test]
fn validate_metric_config_bad_agg() {
    let cfg = json(r#"{"metric_name": "cpu", "agg": "median", "comparator": "gt", "threshold": 1.0, "window_secs": 60}"#);
    assert!(validate_metric_config(&cfg).is_err());
}

#[test]
fn validate_log_config_ok() {
    let cfg = json(r#"{"comparator": "gt", "threshold": 10, "window_secs": 300}"#);
    assert!(validate_log_config(&cfg).is_ok());
}

#[test]
fn validate_log_config_bad_comparator() {
    let cfg = json(r#"{"comparator": "lt", "threshold": 10, "window_secs": 300}"#);
    assert!(validate_log_config(&cfg).is_err());
}

#[test]
fn faults_have_their_messages() {
    assert_eq!(validate_metric_config(&json("[]")), Err("config must be an object"));
    assert_eq!(validate_metric_config(&json("{}")), Err("metric config requires 'metric_name' (string)"));
    assert_eq!(
        validate_metric_config(&json(r#"{"metric_name": "m", "agg": "p99"}"#)),
        Err("metric config 'agg' must be avg|sum|min|max|count")
    );
    assert_eq!(
        validate_metric_config(&json(r#"{"metric_name": "m", "comparator": "eq"}"#)),
        Err("metric config 'comparator' must be gt|lt|gte|lte")
    );
    assert_eq!(validate_log_config(&json("1")), Err("config must be an object"));
    assert_eq!(
        validate_log_config(&json(r#"{"comparator": "lte"}"#)),
        Err("log config 'comparator' must be gt|gte")
    );
    assert!(valid_kind("metric") && valid_kind("log") && !valid_kind("trace"));
    assert!(valid_severity("info") && valid_severity("critical") && !valid_severity("fatal"));
}

fn request(kind: &str, severity: Option<&str>, config: &str) -> CreateRuleRequest {
    CreateRuleRequest {
        name: "r".to_string(),
        kind: kind.to_string(),
        enabled: None,
        severity: severity.map(|s| s.to_string()),
        config: json(config),
        for_secs: None,
        webhook_url: None,
    }
}

#[test]
fn rules_are_created_with_defaults() {
    let rule = create_rule(request("metric", None, r#"{"metric_name": "cpu"}"#)).ok().unwrap();
    assert!(rule.enabled);
    assert_eq!(rule.severity, "warning");
    assert_eq!(rule.for_secs, 0);
    assert_eq!(create_rule(request("trace", None, "{}")).err(), Some("kind must be 'metric' or 'log'"));
    assert_eq!(
        create_rule(request("log", Some("fatal"), "{}")).err(),
        Some("severity must be info|warning|critical")
    );
    assert_eq!(create_rule(request("log", None, "[]")).err(), Some("config must be an object"));
}

fn update(severity: Option<&str>, config: Option<&str>, webhook: Option<Option<&str>>) -> UpdateRuleRequest {
    UpdateRuleRequest {
        name: None,
        enabled: None,
        severity: severity.map(|s| s.to_string()),
        config: config.map(json),
        for_secs: None,
        webhook_url: webhook.map(|w| w.map(|s| s.to_string())),
    }
}

#[test]
fn updates_are_checked_against_the_rule() {
    assert!(update_rule(&update(None, None, None), Some("log")).is_ok());
    assert!(matches!(update_rule(&update(None, None, None), None), Err(UpdateRefusal::NotFound)));
    assert!(matches!(
        update_rule(&update(Some("fatal"), None, None), None),
        Err(UpdateRefusal::BadRequest("severity must be info|warning|critical"))
    ));
    assert!(matches!(
        update_rule(&update(None, Some("{}"), None), Some("metric")),
        Err(UpdateRefusal::BadRequest("metric config requires 'metric_name' (string)"))
    ));
    assert!(update_rule(&update(None, Some("{}"), None), Some("log")).is_ok());
    assert_eq!(webhook_update(&update(None, None, None)), (false, None));
    assert_eq!(webhook_update(&update(None, None, Some(None))), (true, None));
    assert_eq!(webhook_update(&update(None, None, Some(Some("u")))), (true, Some("u")));
    assert_eq!(affected_status(0, 204), 404);
    assert_eq!(affected_status(1, 204), 204);
}

#[test]
fn updates_are_read_from_their_bodies() {
    let u = read_update(&json(r#"{"name": "n", "enabled": null, "for_secs": -5, "config": {"a": 1}, "other": 1}"#)).unwrap();
    assert_eq!((u.name.as_deref(), u.enabled, u.severity, u.for_secs), (Some("n"), None, None, Some(-5)));
    assert_eq!(canonical_json(u.config.as_ref().unwrap()), r#"{"a":1}"#);
    assert_eq!(u.webhook_url, None);
    let u = read_update(&json(r#"{"webhook_url": null, "config": null}"#)).unwrap();
    assert_eq!(u.webhook_url, Some(None));
    assert!(u.config.is_none());
    assert_eq!(webhook_update(&u), (true, None));
    let u = read_update(&json(r#"{"webhook_url": "u"}"#)).unwrap();
    assert_eq!(webhook_update(&u), (true, Some("u")));
    let u = read_update(&json(r#"["n", true, null, {"a": 1}, 30, "u"]"#)).unwrap();
    assert_eq!((u.name.as_deref(), u.enabled, u.severity.as_deref(), u.for_secs), (Some("n"), Some(true), None, Some(30)));
    assert_eq!(canonical_json(u.config.as_ref().unwrap()), r#"{"a":1}"#);
    assert_eq!(webhook_update(&u), (true, Some("u")));
    let u = read_update(&json(r#"[null, null, "info", null, null, null]"#)).unwrap();
    assert_eq!((u.name.as_deref(), u.enabled, u.severity.as_deref(), u.for_secs), (None, None, Some("info"), None));
    assert_eq!(webhook_update(&u), (true, None));
    for body in [
        "[null, null, null, null, null]",
        "[null, null, null, null, null, null, null]",
        r#"[true, "n", null, null, null, null]"#,
        r#"[null, null, null, null, "30", null]"#,
        "null",
    ] {
        assert!(read_update(&json(body)).is_none(), "{body}");
    }
    for body in ["[]", r#"{"name": 1}"#, r#"{"enabled": "x"}"#, r#"{"for_secs": 2147483648}"#, r#"{"for_secs": 1.0}"#, r#"{"webhook_url": 1}"#] {
        assert!(read_update(&json(body)).is_none(), "{body}");
    }
}

fn row(state: Option<&str>, since: Option<Timestamp>) -> RuleRow {
    RuleRow {
        id: 4,
        name: "r".to_string(),
        kind: "log".to_string(),
        enabled: true,
        severity: "info".to_string(),
        config: json("{}"),
        for_secs: 1,
        webhook_url: None,
        created_at: at(1),
        updated_at: at(2),
        state: state.map(|s| s.to_string()),
        since,
        last_value: Some(3.5_f64.to_bits()),
        last_eval: None,
        last_notified: None,
        last_message: None,
    }
}

#[test]
fn rows_become_rules() {
    let rule = rule_from_row_at(row(Some("firing"), None), at(9));
    let state = rule.state.unwrap();
    assert_eq!((state.state.as_str(), state.since), ("firing", at(9)));
    assert_eq!(state.last_value.map(f64::from_bits), Some(3.5));
    assert!(rule_from_row_at(row(None, Some(at(1))), at(9)).state.is_none());
    assert_eq!(rule_from_row(row(Some("ok"), Some(at(5)))).state.unwrap().since, at(5));
}

// Configurations

#[test]
fn metric_configurations_are_read() {
    let e = read_metric_config(&json(r#"{"metric_name": "cpu"}"#)).ok().unwrap();
    assert_eq!((e.metric_name.as_str(), e.agg.as_str(), e.comparator.as_str()), ("cpu", "avg", "gt"));
    assert_eq!((e.window_secs, f64::from_bits(e.threshold)), (300, 0.0));
    assert!(e.filter.is_none());

    let e = read_metric_config(&json(
        r#"{"metric_name": "m", "agg": "max", "comparator": "lte", "threshold": -2.5, "window_secs": 60, "filter": "a=b"}"#,
    ))
    .ok()
    .unwrap();
    assert_eq!(f64::from_bits(e.threshold), -2.5);
    assert_eq!(canonical_json(&e.filter.unwrap()), r#"{"a":"b"}"#);

    let e = read_metric_config(&json(r#"{"metric_name": "m", "filter": "nonsense"}"#)).ok().unwrap();
    assert_eq!(canonical_json(&e.filter.unwrap()), "{}");
    assert_eq!(read_metric_config(&json("1")).err(), Some("config not an object"));
    assert_eq!(read_metric_config(&json("{}")).err(), Some("metric_name missing"));
}

#[test]
fn log_configurations_are_read() {
    let e = read_log_config(&json(r#"{"threshold": 2, "severity_min": 17, "q": "x", "filter": "nonsense"}"#)).ok().unwrap();
    assert_eq!(f64::from_bits(e.threshold), 2.0);
    assert_eq!((e.severity_min, e.q.as_deref()), (Some(17), Some("x")));
    assert!(e.filter.is_none());
    let e = read_log_config(&json(r#"{"q": "", "severity_min": 4294967297}"#)).ok().unwrap();
    assert_eq!((e.severity_min, e.q), (Some(1), None));
    assert_eq!(read_log_config(&json("null")).err(), Some("config not an object"));
}

#[test]
fn thresholds_are_the_nearest_doubles() {
    for text in ["9007199254740993", "18446744073709551615", "-9223372036854775807", "0.1", "1e300", "-0.0"] {
        let cfg = json(&format!(r#"{{"threshold": {text}}}"#));
        let e = read_log_config(&cfg).ok().unwrap();
        assert_eq!(e.threshold, text.parse::<f64>().unwrap().to_bits(), "{text}");
    }
}

#[test]
fn rules_ask_by_their_kind() {
    assert!(matches!(read_rule("metric", &json(r#"{"metric_name": "m"}"#)), Ok(Question::Metric(_))));
    assert!(matches!(read_rule("log", &json("{}")), Ok(Question::Log(_))));
    assert!(matches!(read_rule("trace", &json("{}")), Ok(Question::Nothing)));
    assert!(matches!(read_rule("metric", &json("{}")), Err("metric_name missing")));
    assert_eq!(
        metric_sql("count"),
        "SELECT COUNT(value)::float8 FROM soma_observe.metric_point WHERE series_id = ANY($1::bigint[]) AND ts >= now() - make_interval(secs => $2::float8) AND ts < now()"
    );
}

#[test]
fn outcomes_of_metric_rules() {
    let e = read_metric_config(&json(r#"{"metric_name": "cpu", "threshold": 80, "window_secs": 60}"#)).ok().unwrap();
    let r = metric_outcome(&e, MetricAnswer::NoSeries);
    assert_eq!((r.holds, r.message.as_deref()), (false, Some("no matching series found")));
    let r = metric_outcome(&e, MetricAnswer::NoPoints);
    assert_eq!((r.holds, r.message), (false, None));
    let r = metric_outcome(&e, MetricAnswer::Value { value: AnyKind::DoubleValue(92.0) });
    assert!(r.holds);
    assert_eq!(r.message.as_deref(), Some("avg(cpu) = 92.0000 over 60s"));
    assert_eq!(double(&r.value), Some(92.0));
    assert!(!metric_outcome(&e, MetricAnswer::Value { value: AnyKind::DoubleValue(80.0) }).holds);
}

#[test]
fn outcomes_of_log_rules() {
    let e = read_log_config(&json(r#"{"comparator": "gte", "threshold": 2}"#)).ok().unwrap();
    let r = log_outcome(&e, 2);
    assert!(r.holds);
    assert_eq!(double(&r.value), Some(2.0));
    assert_eq!(r.message.as_deref(), Some("log count = 2 over 300s"));
    assert!(!log_outcome(&e, 1).holds);
}

// States

fn step(prev: Option<(&str, i64)>, holds: bool, for_secs: i32, now: i64) -> (&'static str, i64, Option<&'static str>) {
    let t = evaluate(prev.map(|(state, since)| Standing { state, since: at(since) }), holds, for_secs, at(now));
    (t.state, t.since.secs, t.notify)
}

#[test]
fn rules_pass_through_their_states() {
    assert_eq!(step(None, false, 0, 10), ("ok", 10, None));
    assert_eq!(step(None, true, 0, 10), ("firing", 10, Some("firing")));
    assert_eq!(step(None, true, 60, 10), ("pending", 10, None));
    assert_eq!(step(Some(("ok", 5)), false, 0, 10), ("ok", 5, None));
    assert_eq!(step(Some(("pending", 10)), true, 60, 69), ("pending", 10, None));
    assert_eq!(step(Some(("pending", 10)), true, 60, 70), ("firing", 70, Some("firing")));
    assert_eq!(step(Some(("pending", 10)), false, 60, 20), ("ok", 20, None));
    assert_eq!(step(Some(("firing", 10)), true, 60, 20), ("firing", 10, None));
    assert_eq!(step(Some(("firing", 10)), false, 60, 20), ("ok", 20, Some("resolved")));
    assert_eq!(step(Some(("odd", 10)), true, 0, 20), ("ok", 20, None));
}

#[test]
fn firings_and_ends_alternate() {
    let steps = [
        (true, 0, "pending"),
        (true, 30, "pending"),
        (true, 60, "firing"),
        (true, 90, "firing"),
        (false, 120, "ok"),
        (true, 150, "pending"),
        (false, 180, "ok"),
        (true, 210, "pending"),
        (true, 300, "firing"),
    ];
    let mut prev: Option<(&str, i64)> = None;
    let mut told: Vec<&str> = Vec::new();
    for (holds, now, state) in steps {
        let (is, since, notify) = step(prev, holds, 60, now);
        assert_eq!(is, state);
        told.extend(notify);
        prev = Some((is, since));
    }
    assert_eq!(told, ["firing", "resolved", "firing"]);
    assert_eq!(prev, Some(("firing", 300)));
}

#[test]
fn rules_that_are_taken_can_be_read() {
    for (kind, config) in [("metric", r#"{"metric_name": "cpu"}"#), ("log", "{}")] {
        let rule = create_rule(request(kind, None, config)).unwrap();
        assert!(read_rule(&rule.kind, &rule.config).is_ok());
    }
    assert!(create_rule(request("metric", None, "{}")).is_err());
    assert!(read_rule("metric", &json("{}")).is_err());
}

// Notifications

fn payload(rule: &str, severity: &str, state: &str, value: f64, threshold: &str, secs: i64) -> Json {
    let config = json(&format!(r#"{{"threshold": {threshold}}}"#));
    webhook_payload(&Notice {
        rule,
        severity,
        state,
        kind: "metric",
        value: Some(AnyKind::DoubleValue(value)),
        config: &config,
        at: at(secs),
    })
}

#[test]
fn webhook_payload_shape() {
    let payload = payload("cpu.usage", "critical", "firing", 92.0, "80.0", 1_782_734_400);
    for key in ["text", "rule", "severity", "state", "kind", "timestamp"] {
        assert!(payload.get(key).unwrap().as_str().is_some(), "{key} must be a string");
    }
    assert_eq!(number(payload.get("value").unwrap()), 92.0);
    assert_eq!(number(payload.get("threshold").unwrap()), 80.0);

    let text = payload.get("text").unwrap().as_str().unwrap();
    assert_eq!(text, "[CRITICAL] cpu.usage firing: value 92.0000 exceeds/triggers threshold 80.0000");
    assert!(text.contains("CRITICAL"), "text must contain severity");
    assert!(text.contains("cpu.usage"), "text must contain rule name");
    assert!(text.contains("firing"), "text must contain state");
    assert_eq!(payload.get("timestamp").unwrap().as_str(), Some("2026-06-29T12:00:00+00:00"));
}

#[test]
fn resolved_payload_shape() {
    let payload = payload("error.rate", "warning", "resolved", 0.0, "5.0", 1_782_734_700);
    assert_eq!(payload.get("state").unwrap().as_str(), Some("resolved"));
    let text = payload.get("text").unwrap().as_str().unwrap();
    assert!(text.contains("resolved"));
    assert_eq!(text, "[WARNING] error.rate resolved: value 0.0000 no longer triggers threshold 5.0000");
}

#[test]
fn missing_values_are_null() {
    let config = json("{}");
    let payload = webhook_payload(&Notice {
        rule: "r",
        severity: "info",
        state: "resolved",
        kind: "metric",
        value: None,
        config: &config,
        at: at(0),
    });
    assert!(matches!(payload.get("value"), Some(Json::Null)));
    assert_eq!(number(payload.get("threshold").unwrap()), 0.0);
    assert_eq!(
        payload.get("text").unwrap().as_str(),
        Some("[INFO] r resolved: value 0.0000 no longer triggers threshold 0.0000")
    );
}
