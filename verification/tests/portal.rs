use opentelemetry_proto::tonic::common::v1::any_value::Value as AnyKind;
use soma_observe::alerts::rules::{read_update, webhook_update};
use soma_observe::float::{int_double_bits, le, lt, nat_double_bits, nearest_double};
use soma_observe::json::{canonical_json, parse_json, Json};
use soma_observe::query::logs::ndjson;
use soma_observe::text::{byte_slice, parse_i64, parse_u32, str_lt, take_chars, trim};
use soma_observe::ui::api::{
    alert_rule_url, authorization, dashboard_url, kubernetes_url, logs_query_url, metric_series_url, metrics_query_url,
    record_lines, service_map_url, trace_url, traces_query_url, urlencoded, ActiveAlert, AlertRule, ApiError, Dashboard,
    DataCounts, LogsAsk, MetricsAsk, Panel, RetentionConfig, StatsResponse, TracesAsk,
};
use soma_observe::ui::badge::Badge;
use soma_observe::ui::fetch::{Fetch, FetchEvent, Stage};
use soma_observe::ui::format::{
    fmt_bytes, fmt_duration_ms, fmt_duration_ns, limit_or, panel_window, plural, query_window, range_secs, relative_time,
    Duration,
};
use soma_observe::ui::logs::{service_from_resource, severity_label, severity_variant, short_body};
use soma_observe::ui::metrics::{charted, metric_series_label, point_row, series_label, unit_label};
use soma_observe::ui::panels::{
    add_panel, chart_of, check_panel, dashboard_body, remove_panel, short_ts, stored_under, Chart,
};
use soma_observe::ui::requests::{
    kubernetes_request, logs_request, metrics_request, panel_request, services_request, traces_request, LogsFields,
    MetricsFields, TracesFields,
};
use soma_observe::ui::retention::stats_to_rows;
use soma_observe::ui::rules::{
    cfg_f64, in_state, severity_badge, state_badge, threshold_summary, value_note, webhook_host, RuleForm, Submission,
};
use soma_observe::ui::topology::{
    cluster_summary, edge_label, edge_stroke, graph_lines, health_badge, node_fill, node_name, pods_display, traces_href,
    workload_count, Call, Line,
};
use soma_observe::ui::waterfall::{
    bar_color, compute_depths, is_error, service_color_hex, short_trace_id, span_title, status_badge, SpanNode,
};

fn json(text: &str) -> Json {
    parse_json(text.as_bytes()).expect("valid json")
}

// Requests

#[test]
fn query_values_are_escaped() {
    assert_eq!(urlencoded("a b&c=d+e"), "a%20b%26c%3Dd%2Be");
    assert_eq!(urlencoded("cpu.usage/é%"), "cpu.usage/é%");
    assert_eq!(urlencoded(""), "");
}

#[test]
fn addresses_of_queries() {
    let ask = MetricsAsk {
        name: "cpu usage",
        start: Some("1"),
        end: None,
        step: Some(""),
        filter: Some("host=\"a\""),
        agg: Some("avg"),
    };
    assert_eq!(
        metrics_query_url(&ask),
        "/api/v1/metrics/query?name=cpu%20usage&start=1&filter=host%3D\"a\"&agg=avg"
    );
    let bare = MetricsAsk { name: "", start: None, end: None, step: None, filter: None, agg: None };
    assert_eq!(metrics_query_url(&bare), "/api/v1/metrics/query?name=");

    let logs = LogsAsk {
        start: None,
        end: Some("2"),
        filter: None,
        severity_min: Some("17"),
        q: Some("a&b"),
        limit: Some(100),
        trace_id: None,
        span_id: Some("s"),
    };
    assert_eq!(logs_query_url(&logs), "/api/v1/logs/query?end=2&severity_min=17&q=a%26b&limit=100&span_id=s");

    let traces = TracesAsk {
        service: Some("api"),
        name: None,
        status: Some("error"),
        min_duration_ms: None,
        max_duration_ms: Some("10"),
        start: Some("1"),
        end: Some("2"),
        limit: None,
    };
    assert_eq!(
        traces_query_url(&traces),
        "/api/v1/traces/query?service=api&status=error&max_duration_ms=10&start=1&end=2"
    );
    assert_eq!(service_map_url(Some("1"), None), "/api/v1/services?start=1");
    assert_eq!(service_map_url(None, None), "/api/v1/services?");
    assert_eq!(kubernetes_url(Some("1"), Some("2")), "/api/v1/kubernetes?start=1&end=2");
    assert_eq!(metric_series_url("a b"), "/api/v1/metrics/series?name=a%20b");
    assert_eq!(trace_url("t+1"), "/api/v1/traces/t%2B1");
    assert_eq!(alert_rule_url(-3), "/api/v1/alerts/rules/-3");
    assert_eq!(dashboard_url(12), "/api/v1/dashboards/12");
}

#[test]
fn pages_ask_for_what_was_typed() {
    let mut f = MetricsFields { name: "", start: "", end: "9", step: "60", filter: "a=b", agg: "avg" };
    assert_eq!(metrics_request(&f, 7200), None);
    f.name = "cpu usage";
    assert_eq!(
        metrics_request(&f, 7200).unwrap(),
        "/api/v1/metrics/query?name=cpu%20usage&start=3600&end=7200&step=60&filter=a%3Db&agg=avg"
    );
    f.start = "5";
    f.step = "";
    assert_eq!(
        metrics_request(&f, 7200).unwrap(),
        "/api/v1/metrics/query?name=cpu%20usage&start=5&end=9&filter=a%3Db&agg=avg"
    );
    let f = LogsFields { start: "1", end: "", filter: "", severity_min: "9", q: "", limit: "many" };
    assert_eq!(logs_request(&f, 7200), "/api/v1/logs/query?start=1&severity_min=9&limit=100");
    let f = TracesFields {
        service: "api",
        name: "",
        status: "error",
        min_duration_ms: "",
        max_duration_ms: "10",
        start: "",
        end: "",
        limit: "7",
    };
    assert_eq!(
        traces_request(&f, 3600),
        "/api/v1/traces/query?service=api&status=error&max_duration_ms=10&start=0&end=3600&limit=7"
    );
    assert_eq!(services_request("", "", 3600), "/api/v1/services?start=0&end=3600");
    assert_eq!(kubernetes_request("1", "", 3600), "/api/v1/kubernetes?start=1");
    assert_eq!(
        panel_request(&panel("CPU"), 7200),
        "/api/v1/metrics/query?name=cpu&start=3600&end=7200&agg=avg"
    );
}

#[test]
fn requests_run_their_course() {
    let mut f = Fetch::new(false);
    assert_eq!(f.stage(0), Stage::Unasked);
    assert_eq!(Fetch::new(true).stage(3), Stage::Waiting);
    f.step(FetchEvent::Sent);
    assert_eq!(f.stage(3), Stage::Waiting);
    f.step(FetchEvent::Failed { message: "no".to_string() });
    assert_eq!((f.stage(0), f.error.as_deref()), (Stage::Nothing, Some("no")));
    f.step(FetchEvent::Answered);
    assert_eq!((f.stage(3), f.error.as_deref()), (Stage::Found, Some("no")));
    f.step(FetchEvent::Sent);
    f.step(FetchEvent::Answered);
    assert_eq!((f.stage(3), f.error), (Stage::Found, None));
}

#[test]
fn tokens_become_headers() {
    assert_eq!(authorization(""), None);
    assert_eq!(authorization("t").as_deref(), Some("Bearer t"));
}

#[test]
fn failures_are_reported() {
    let e = ApiError::refused(400, r#"{"error": "no such metric"}"#);
    assert_eq!(e.message, "no such metric");
    assert_eq!(e.describe(), "no such metric (HTTP 400)");
    assert_eq!(ApiError::refused(500, "oops").message, "oops");
    assert_eq!(ApiError::refused(500, r#"{"error": 1}"#).message, r#"{"error": 1}"#);
    assert_eq!(ApiError::refused(500, "").describe(), " (HTTP 500)");
}

#[test]
fn records_are_read_line_by_line() {
    assert_eq!(record_lines("{\"a\":1}\r\n\n  \t\n{}"), vec!["{\"a\":1}", "{}"]);
    assert!(record_lines("").is_empty());
    assert!(record_lines("\n\r\n").is_empty());
    let written = vec![Some("{\"a\":1}".to_string()), None, Some("{}".to_string())];
    assert_eq!(record_lines(&ndjson(&written)), vec!["{\"a\":1}", "{}"]);
}

// Numbers

#[test]
fn sizes_are_shown_as_doubles_round() {
    assert_eq!(fmt_bytes(0), "0 B");
    assert_eq!(fmt_bytes(-5), "-5 B");
    assert_eq!(fmt_bytes(1023), "1023 B");
    assert_eq!(fmt_bytes(1024), "1.0 KB");
    assert_eq!(fmt_bytes(1536), "1.5 KB");
    assert_eq!(fmt_bytes(5 * 1024 * 1024), "5.0 MB");
    assert_eq!(fmt_bytes(3 * 1024 * 1024 * 1024 / 2), "1.5 GB");
    let odd = [
        1075, 1126, 1177, 1280, 1331, 1048575, 1048576, 1073741823, 1073741824, 123456789012, 9007199254740993,
        9223372036854775807, 1152921504606846977, 1024 + 256 / 5, 2048 + 768,
    ];
    for bytes in odd {
        let b = bytes as f64;
        let expected = if b < 1024.0 * 1024.0 {
            format!("{:.1} KB", b / 1024.0)
        } else if b < 1024.0 * 1024.0 * 1024.0 {
            format!("{:.1} MB", b / 1024.0 / 1024.0)
        } else {
            format!("{:.1} GB", b / 1024.0 / 1024.0 / 1024.0)
        };
        assert_eq!(fmt_bytes(bytes), expected, "{bytes}");
    }
    for bytes in (1024..200_000).step_by(13) {
        assert_eq!(fmt_bytes(bytes), format!("{:.1} KB", bytes as f64 / 1024.0), "{bytes}");
    }
}

#[test]
fn integers_become_the_nearest_doubles() {
    for n in [0, 1, 3, 1 << 53, (1 << 53) + 1, (1 << 53) + 3, (1 << 60) + 129, u64::MAX, u64::MAX - 1024, i64::MAX as u64] {
        assert_eq!(f64::from_bits(nat_double_bits(n)), n as f64, "{n}");
    }
    for n in [0, -1, 7, i64::MIN, i64::MAX, -(1 << 53) - 1] {
        assert_eq!(f64::from_bits(int_double_bits(n)), n as f64, "{n}");
    }
    for n in [0, 1, 1 << 52, (1 << 53) + 1, (1 << 53) + 3, (1 << 62) + 511, i64::MAX as u64] {
        assert_eq!(nearest_double(n), n as f64 as u64, "{n}");
    }
    assert!(lt((-1.0_f64).to_bits(), 0.5_f64.to_bits()));
    assert!(le(0.0_f64.to_bits(), (-0.0_f64).to_bits()));
    assert!(!lt(f64::NAN.to_bits(), 1.0_f64.to_bits()));
}

#[test]
fn ages_in_the_largest_unit() {
    let age = |secs: i64| relative_time("t", Some(secs));
    assert_eq!(relative_time("not a time", None), "not a time");
    assert_eq!(age(-10), "just now");
    assert_eq!(age(59), "just now");
    assert_eq!(age(60), "1 minute ago");
    assert_eq!(age(3_599), "59 minutes ago");
    assert_eq!(age(3_600), "1 hour ago");
    assert_eq!(age(86_400), "1 day ago");
    assert_eq!(age(30 * 86_400), "1 month ago");
    assert_eq!(age(359 * 86_400), "11 months ago");
    assert_eq!(age(360 * 86_400), "1 year ago");
    assert_eq!(age(800 * 86_400), "2 years ago");
    assert_eq!(plural(0, "day"), "0 days ago");
}

#[test]
fn durations_in_a_fitting_unit() {
    let shown = |d: Duration, n: i64| match d {
        Duration::Whole { text } => text,
        Duration::Scaled { divisor, decimals, unit } => {
            format!("{:.*}{}", decimals as usize, n as f64 / divisor as f64, unit)
        }
    };
    assert_eq!(shown(fmt_duration_ms(999), 999), "999ms");
    assert_eq!(shown(fmt_duration_ms(1_500), 1_500), "1.50s");
    assert_eq!(shown(fmt_duration_ns(999), 999), "999ns");
    assert_eq!(shown(fmt_duration_ns(1_500), 1_500), "1.5µs");
    assert_eq!(shown(fmt_duration_ns(2_345_678), 2_345_678), "2.35ms");
    assert_eq!(shown(fmt_duration_ns(3_000_000_000), 3_000_000_000), "3.00s");
}

#[test]
fn windows_and_limits() {
    assert_eq!(query_window("", "ignored", 10_000), ("6400".to_string(), "10000".to_string()));
    assert_eq!(query_window("a", "", 10_000), ("a".to_string(), String::new()));
    assert_eq!(range_secs("15m"), 900);
    assert_eq!(range_secs("24h"), 86_400);
    assert_eq!(range_secs("7d"), 3_600);
    assert_eq!(panel_window("6h", 30_000), ("8400".to_string(), "30000".to_string()));
    assert_eq!(limit_or("25", 100), 25);
    assert_eq!(limit_or("", 100), 100);
    assert_eq!(limit_or("-1", 100), 100);
    assert_eq!(limit_or("4294967296", 100), 100);
}

#[test]
fn texts_are_cut_and_read() {
    assert_eq!(trim(" \u{3000}a b\n"), "a b");
    assert_eq!(byte_slice("aéb", 1, 3), "é");
    assert_eq!(take_chars("éa", 1), "é");
    assert_eq!(parse_i64("-9223372036854775808"), Some(i64::MIN));
    assert_eq!(parse_i64("9223372036854775808"), None);
    assert_eq!(parse_i64("+7"), Some(7));
    assert_eq!(parse_u32("-0"), None);
    assert!(str_lt("a", "b") && str_lt("a", "aa") && !str_lt("é", "z"));
}

// Rules

fn rule(kind: &str, config: &str) -> AlertRule {
    AlertRule {
        id: 1,
        name: "High CPU".to_string(),
        kind: kind.to_string(),
        enabled: false,
        severity: "critical".to_string(),
        config: json(config),
        for_secs: 30,
        webhook_url: Some("https://h.example/x".to_string()),
        created_at: String::new(),
        updated_at: String::new(),
        state: None,
    }
}

#[test]
fn badges_of_rules() {
    assert_eq!(severity_badge("critical"), Badge::Destructive);
    assert_eq!(severity_badge("warning"), Badge::Plain);
    assert_eq!(severity_badge("info"), Badge::Secondary);
    assert_eq!(state_badge("firing"), Badge::Destructive);
    assert_eq!(state_badge("pending"), Badge::Plain);
    assert_eq!(state_badge("—"), Badge::Secondary);
}

#[test]
fn rules_in_short() {
    let r = rule("metric", r#"{"comparator": "gt", "threshold": 90.0, "window_secs": 60}"#);
    assert_eq!(threshold_summary(&r), "gt 90 (60s)");
    assert_eq!(threshold_summary(&rule("metric", "{}")), "  (300s)");
    assert_eq!(cfg_f64(&json(r#"{"t": 0.1}"#), "t"), "0.1");
    assert_eq!(cfg_f64(&json(r#"{"t": 18446744073709551615}"#), "t"), "18446744073709552000");
    assert_eq!(cfg_f64(&json(r#"{"t": "x"}"#), "t"), "");
    assert_eq!(webhook_host("https://hooks.example.com/a/b"), "hooks.example.com");
    assert_eq!(webhook_host("http://host"), "host");
    assert_eq!(webhook_host("ftp://a-very-long-address-that-goes-on"), "ftp://a-very-long-address-that");
}

#[test]
fn active_alerts_are_parted() {
    let alert = |state: &str, value: Option<f64>| ActiveAlert {
        id: 1,
        name: "a".to_string(),
        severity: "info".to_string(),
        kind: "log".to_string(),
        state: state.to_string(),
        since: String::new(),
        last_value: value.map(AnyKind::DoubleValue),
        last_eval: None,
        last_message: None,
    };
    let alerts = vec![alert("firing", Some(1.5)), alert("pending", None), alert("firing", None)];
    assert_eq!(in_state(&alerts, "firing"), vec![0, 2]);
    assert_eq!(in_state(&alerts, "pending"), vec![1]);
    assert_eq!(value_note(&alerts[0]), " (value: 1.5000)");
    assert_eq!(value_note(&alerts[1]), "");
}

#[test]
fn forms_are_checked() {
    let mut f = RuleForm::new();
    assert_eq!(f.validate(), Some("Name is required."));
    f.name = "n".to_string();
    assert_eq!(f.validate(), Some("Metric name is required."));
    f.metric_name = "m".to_string();
    assert_eq!(f.validate(), Some("Threshold must be a number."));
    f.threshold = "1e3".to_string();
    assert_eq!(f.validate(), None);
    f.kind = "log".to_string();
    assert_eq!(f.validate(), Some("Threshold must be a number."));
    f.log_threshold = "x".to_string();
    assert_eq!(f.validate(), Some("Threshold must be a number."));
    f.log_threshold = "10".to_string();
    assert_eq!(f.validate(), None);
}

#[test]
fn forms_become_requests() {
    let mut f = RuleForm::new();
    f.name = "n".to_string();
    f.metric_name = "cpu".to_string();
    f.threshold = "90".to_string();
    f.for_secs = "soon".to_string();
    f.filter = "host=\"a\"".to_string();
    match f.submit(None) {
        Ok(Submission::Create { body }) => assert_eq!(
            canonical_json(&body),
            r#"{"config":{"agg":"avg","comparator":"gt","filter":"host=\"a\"","metric_name":"cpu","threshold":90.0,"window_secs":300},"enabled":true,"for_secs":0,"kind":"metric","name":"n","severity":"warning","webhook_url":null}"#
        ),
        _ => panic!("a new rule is created"),
    }
    f.kind = "log".to_string();
    f.log_threshold = "nope".to_string();
    assert!(f.submit(Some(7)).is_err());
    f.log_threshold = "2.5".to_string();
    f.severity_min = "17".to_string();
    f.webhook_url = "u".to_string();
    match f.submit(Some(7)) {
        Ok(Submission::Update { id, body }) => {
            assert_eq!(id, 7);
            assert_eq!(
                canonical_json(&body),
                r#"{"config":{"comparator":"gt","severity_min":17,"threshold":2.5,"window_secs":300},"enabled":true,"for_secs":0,"name":"n","severity":"warning","webhook_url":"u"}"#
            );
        }
        _ => panic!("the rule is changed"),
    }
}

#[test]
fn rules_fill_the_form() {
    let mut f = RuleForm::new();
    f.q = "typed".to_string();
    f.load(&rule("metric", r#"{"metric_name": "cpu", "agg": "", "comparator": "lt", "threshold": 90, "filter": "a=b"}"#));
    assert_eq!((f.name.as_str(), f.for_secs.as_str(), f.enabled), ("High CPU", "30", false));
    assert_eq!((f.agg.as_str(), f.comparator.as_str(), f.threshold.as_str()), ("avg", "lt", "90"));
    assert_eq!((f.window_secs.as_str(), f.filter.as_str(), f.q.as_str()), ("300", "a=b", "typed"));
    assert_eq!(
        canonical_json(&f.build_config("metric")),
        r#"{"agg":"avg","comparator":"lt","filter":"a=b","metric_name":"cpu","threshold":90.0,"window_secs":300}"#
    );
    f.load(&rule("log", r#"{"threshold": 0.5, "severity_min": 9, "window_secs": 60}"#));
    assert_eq!((f.log_threshold.as_str(), f.severity_min.as_str(), f.log_window_secs.as_str()), ("0.5", "9", "60"));
    assert_eq!((f.q.as_str(), f.metric_name.as_str()), ("", "cpu"));
}

#[test]
fn forms_show_what_was_saved() {
    let mut f = RuleForm::new();
    f.log_comparator = "gte".to_string();
    f.log_threshold = "3".to_string();
    f.log_window_secs = "+90".to_string();
    f.log_filter = "host=\"a\"".to_string();
    f.severity_min = "x".to_string();
    f.q = "timeout".to_string();
    let config = canonical_json(&f.build_config("log"));
    let mut g = RuleForm::new();
    g.load(&rule("log", &config));
    assert_eq!((g.log_comparator.as_str(), g.log_filter.as_str(), g.q.as_str()), ("gte", "host=\"a\"", "timeout"));
    assert_eq!((g.log_threshold.as_str(), g.log_window_secs.as_str(), g.severity_min.as_str()), ("3", "90", ""));
}

#[test]
fn an_emptied_address_clears_the_stored_one() {
    let mut f = RuleForm::new();
    f.name = "n".to_string();
    f.for_secs = "30".to_string();
    let u = read_update(&f.to_update_body()).unwrap();
    assert_eq!((u.name.as_deref(), u.enabled, u.for_secs), (Some("n"), Some(true), Some(30)));
    assert_eq!(u.webhook_url, Some(None));
    assert_eq!(webhook_update(&u), (true, None));
    f.webhook_url = "https://a.example".to_string();
    let u = read_update(&f.to_update_body()).unwrap();
    assert_eq!(webhook_update(&u), (true, Some("https://a.example")));
}

// Panels

fn panel(title: &str) -> Panel {
    Panel {
        title: title.to_string(),
        metric: "cpu".to_string(),
        chart_type: "line".to_string(),
        range: "1h".to_string(),
        agg: "avg".to_string(),
    }
}

#[test]
fn times_in_charts() {
    assert_eq!(short_ts("2024-01-15T14:32:00Z"), "14:32");
    assert_eq!(short_ts("1700000000"), "17000");
    assert_eq!(short_ts("2024-01-15 14:32:00Z"), "2024-");
    assert_eq!(short_ts("T"), "T");
}

#[test]
fn panels_come_and_go() {
    assert_eq!(chart_of("area"), Chart::Area);
    assert_eq!(chart_of("sparkline"), Chart::Sparkline);
    assert_eq!(chart_of("heatmap"), Chart::Line);
    assert_eq!(check_panel(panel(" ")).err(), Some("Title is required."));
    assert_eq!(check_panel(Panel { metric: String::new(), ..panel("t") }).err(), Some("Metric is required."));
    assert!(check_panel(panel("t")).is_ok());

    let mut open = Some(Dashboard { id: 0, name: "d".to_string(), panels: vec![], updated_at: String::new() });
    assert_eq!(stored_under(open.as_ref().unwrap()), None);
    add_panel(&mut open, panel("a"));
    add_panel(&mut open, panel("b"));
    remove_panel(&mut open, 5);
    remove_panel(&mut open, 0);
    let d = open.as_ref().unwrap();
    assert_eq!(d.panels.len(), 1);
    assert_eq!(
        canonical_json(&dashboard_body(&d.name, &d.panels)),
        r#"{"name":"d","panels":[{"agg":"avg","chart_type":"line","metric":"cpu","range":"1h","title":"b"}]}"#
    );
    let mut none = None;
    add_panel(&mut none, panel("a"));
    remove_panel(&mut none, 0);
    assert!(none.is_none());
}

// Services and clusters

#[test]
fn health_by_errors_and_latency() {
    let badge = |rate: f64, p99: f64| health_badge(rate.to_bits(), p99.to_bits());
    assert_eq!(badge(0.0, 1000.0), (Badge::Success, "healthy"));
    assert_eq!(badge(0.0, 1000.1), (Badge::Outline, "degraded"));
    assert_eq!(badge(0.05, 1.0), (Badge::Outline, "degraded"));
    assert_eq!(badge(0.1, 1.0), (Badge::Destructive, "unhealthy"));
    assert_eq!(badge(f64::NAN, f64::NAN), (Badge::Success, "healthy"));
    assert_eq!(node_fill(0.5_f64.to_bits(), 0.0_f64.to_bits()), "#ef4444");
    assert_eq!(node_fill(0.0_f64.to_bits(), 0.0_f64.to_bits()), "#10b981");
}

#[test]
fn calls_between_shown_services_are_drawn() {
    let names = vec!["api".to_string(), "db".to_string()];
    let call = |from: &str, to: &str| Call { from: from.to_string(), to: to.to_string() };
    let calls = vec![call("api", "db"), call("api", "cache"), call("db", "db")];
    assert_eq!(
        graph_lines(&names, &calls),
        vec![Line { from: 0, to: 1, call: 0 }, Line { from: 1, to: 1, call: 2 }]
    );
    assert_eq!(edge_stroke(0), "#94a3b8");
    assert_eq!(edge_stroke(1), "#ef4444");
    assert_eq!(edge_label(3), "3 calls");
    assert_eq!(node_name("fourteen-bytes"), "fourteen-bytes");
    assert_eq!(node_name("fifteen-bytes-x"), "fifteen-bytes…");
    assert_eq!(traces_href("api"), "/traces?service=api");
}

#[test]
fn clusters_in_short() {
    let pods = |n: usize| (0..n).map(|i| format!("p{i}")).collect::<Vec<String>>();
    assert_eq!(pods_display(4, &pods(0)), "4");
    assert_eq!(pods_display(4, &pods(1)), "p0");
    assert_eq!(pods_display(4, &pods(3)), "p0, p1, p2");
    assert_eq!(pods_display(4, &pods(5)), "p0, p1, p2 +2 more");
    assert_eq!(workload_count(1), "1 workload");
    assert_eq!(cluster_summary(1, 2, 0), "1 namespace · 2 workloads · 0 nodes");
}

// Traces

fn node(id: &str, parent: Option<&str>) -> SpanNode {
    SpanNode { span_id: id.to_string(), parent_span_id: parent.map(|s| s.to_string()) }
}

#[test]
fn spans_stand_below_their_parents() {
    let spans = vec![node("c", Some("b")), node("a", None), node("b", Some("a")), node("x", Some("gone"))];
    assert_eq!(compute_depths(&spans), vec![2, 0, 1, 1]);
    let circle = vec![node("a", Some("b")), node("b", Some("a")), node("c", Some("a")), node("s", Some("s"))];
    assert_eq!(compute_depths(&circle), vec![2, 2, 3, 1]);
    // A span below a circle, but not on it, still stands one deeper than its parent.
    let below = vec![node("a", Some("b")), node("b", Some("a")), node("c", Some("a")), node("d", Some("c"))];
    assert_eq!(compute_depths(&below), vec![2, 2, 3, 4]);
    let twice = vec![node("a", Some("r")), node("a", None), node("r", None)];
    assert_eq!(compute_depths(&twice), vec![1, 1, 0]);
    assert!(compute_depths(&vec![]).is_empty());
}

#[test]
fn services_have_stable_colours() {
    let palette =
        ["#3b82f6", "#8b5cf6", "#10b981", "#f59e0b", "#ec4899", "#14b8a6", "#f43f5e", "#6366f1"];
    for name in ["", "api", "checkout", "a-rather-long-service-name-that-wraps-around", "é"] {
        let hash = name.bytes().fold(5381usize, |h, b| h.wrapping_mul(33).wrapping_add(b as usize));
        assert_eq!(service_color_hex(name), palette[hash % 8], "{name}");
    }
    assert!(is_error(Some("Error")) && is_error(Some("ERROR")) && !is_error(Some("errors")) && !is_error(None));
    assert_eq!(bar_color(Some("error"), "api"), "#ef4444");
    assert_eq!(bar_color(None, "api"), service_color_hex("api"));
    assert_eq!(status_badge("error"), Badge::Destructive);
    assert_eq!(status_badge("ok"), Badge::Success);
    assert_eq!(span_title("GET", "api", "s1"), "GET (api) [s1]");
    assert_eq!(short_trace_id("0123456789abcdef0"), "0123456789abcdef");
    assert_eq!(short_trace_id("short"), "short");
}

// Logs, metrics and retention

#[test]
fn records_in_the_table() {
    assert_eq!(severity_variant(None), Badge::Secondary);
    assert_eq!(severity_variant(Some(8)), Badge::Secondary);
    assert_eq!(severity_variant(Some(9)), Badge::Plain);
    assert_eq!(severity_variant(Some(13)), Badge::Outline);
    assert_eq!(severity_variant(Some(24)), Badge::Destructive);
    assert_eq!(severity_variant(Some(25)), Badge::Secondary);
    assert_eq!(severity_label(Some("WARN"), Some(13)), "WARN");
    assert_eq!(severity_label(Some(""), Some(13)), "13");
    assert_eq!(severity_label(None, None), "—");
    assert_eq!(service_from_resource(&json(r#"{"service.name": "api"}"#)), "api");
    assert_eq!(service_from_resource(&json("[]")), "—");
    assert_eq!(short_body(&"x".repeat(120)), "x".repeat(120));
    assert_eq!(short_body(&"x".repeat(121)), format!("{}…", "x".repeat(120)));
    assert_eq!(short_body(&"é".repeat(70)), format!("{}…", "é".repeat(70)));
}

#[test]
fn series_in_the_table() {
    assert_eq!(series_label(7), "series 7");
    assert_eq!(metric_series_label(&json(r#"{"service.name": "api"}"#), 7), "api");
    assert_eq!(metric_series_label(&json("{}"), 7), "series 7");
    assert_eq!(unit_label(Some("ms")), "ms");
    assert_eq!(unit_label(Some("")), "—");
    assert_eq!(unit_label(None), "—");
    let row = point_row(1, "s", "e", &Some(AnyKind::DoubleValue(2.0)), None);
    let cells: Vec<(&str, &str)> = row.iter().map(|c| (c.0, c.1.as_str())).collect();
    assert_eq!(cells, vec![("idx", "1"), ("start", "s"), ("end", "e"), ("value", "2.0000"), ("count", "—")]);
    assert_eq!(point_row(2, "s", "e", &None, Some(3))[3].1, "—");
    assert_eq!(charted(6), (6, None));
    assert_eq!(charted(9), (6, Some("Showing 6 of 9 series".to_string())));
}

#[test]
fn settings_in_the_table() {
    let rows = stats_to_rows(&StatsResponse {
        retention: RetentionConfig { metrics_days: 90, logs_days: 30 },
        auth_required: true,
        counts: DataCounts { series: 1, metric_points: 2, histogram_points: 3, logs: 4, spans: 5 },
        partitions: 8,
        db_size_bytes: None,
    });
    assert_eq!(rows.len(), 8);
    assert_eq!(rows[0], ("Metrics retention", "90 days".to_string()));
    assert_eq!(rows[2], ("Active partitions", "8".to_string()));
    assert_eq!(rows[7], ("DB size", "—".to_string()));
}
