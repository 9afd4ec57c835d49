use soma_observe::admin::{health, stats, Tally};
use soma_observe::auth::{authorize, unauthorized};
use soma_observe::config::{check_pool, pool_size, Config, Settings};
use soma_observe::dashboards::{
    create_dashboard, default_panels, update_dashboard, CreateDashboardRequest, UpdateDashboardRequest,
};
use soma_observe::json::{canonical_json, parse_json, Json};

fn json(text: &str) -> Json {
    parse_json(text.as_bytes()).expect("valid json")
}

fn settings(auth_token: Option<&str>) -> Settings {
    Settings {
        database_url: "postgres://localhost/db".to_string(),
        listen_addr: None,
        auth_token: auth_token.map(|s| s.to_string()),
        metrics_retention_days: None,
        logs_retention_days: None,
        traces_retention_days: None,
        cors_allow_origin: None,
        ingest_window_secs: None,
        future_tolerance_secs: None,
        alert_eval_interval_secs: None,
    }
}

fn config(auth_token: Option<&str>) -> Config {
    Config::from_settings(settings(auth_token))
}

// Tokens

#[test]
fn bearer_match() {
    let extracted = soma_infra::web::extract_bearer(Some("Bearer mysecret"));
    assert_eq!(extracted, Some("mysecret"));
    assert!(authorize(&config(Some("mysecret")), "/api/v1/admin/stats", Some("Bearer mysecret")));
}

#[test]
fn bearer_missing_rejects() {
    assert!(soma_infra::web::extract_bearer(None).is_none());
    assert!(!authorize(&config(Some("mysecret")), "/api/v1/admin/stats", None));
}

#[test]
fn bearer_wrong_scheme_rejects() {
    assert!(soma_infra::web::extract_bearer(Some("Basic abc")).is_none());
    assert!(!authorize(&config(Some("abc")), "/probe", Some("Basic abc")));
}

#[test]
fn bearer_wrong_token_does_not_match_expected() {
    let extracted = soma_infra::web::extract_bearer(Some("Bearer wrongtoken"));
    assert_ne!(extracted, Some("mysecret"));
    assert!(!authorize(&config(Some("mysecret")), "/probe", Some("Bearer wrongtoken")));
}

#[test]
fn probe_and_open_service_need_no_token() {
    assert!(authorize(&config(Some("required-token")), "/health", None));
    assert!(!authorize(&config(Some("required-token")), "/health/", None));
    assert!(authorize(&config(None), "/probe", None));
    assert!(authorize(&config(None), "/probe", Some("Bearer anything")));
    assert!(!authorize(&config(Some("")), "/probe", None));
    assert!(authorize(&config(Some("")), "/probe", Some("Bearer ")));
    let r = unauthorized();
    assert_eq!((r.status, r.body.as_str()), (401, "invalid or missing bearer token"));
}

// Settings

#[test]
fn settings_have_defaults() {
    let c = config(None);
    assert_eq!(c.listen_addr, "0.0.0.0:4318");
    assert_eq!((c.metrics_retention_days, c.logs_retention_days, c.traces_retention_days), (90, 30, 7));
    assert_eq!(c.cors_allow_origin, "*");
    assert_eq!((c.ingest_window_secs, c.future_tolerance_secs, c.alert_eval_interval_secs), (3600, 300, 30));
    let c = Config::from_settings(Settings { logs_retention_days: Some(0), ..settings(None) });
    assert_eq!(c.logs_retention_days, 0);
}

#[test]
fn open_addresses_without_a_token_are_exposed() {
    let on = |addr: &str, token: Option<&str>| {
        Config::from_settings(Settings { listen_addr: Some(addr.to_string()), ..settings(token) }).is_exposed()
    };
    assert!(on("0.0.0.0:4318", None));
    assert!(!on("0.0.0.0:4318", Some("t")));
    assert!(!on("127.0.0.1:4318", None));
    assert!(!on("[::1]:4318", None));
    assert!(on("localhost:4318", None));
}

#[test]
fn pools_are_large_enough() {
    assert_eq!(pool_size(1), 10);
    assert_eq!(pool_size(25), 25);
    assert_eq!(check_pool(1), Err("soma-observe requires a pool with max_connections >= 2"));
    assert_eq!(check_pool(pool_size(1)), Ok(()));
}

// Health and statistics

#[test]
fn health_tells_of_the_database() {
    let h = health(true, "1.2.3");
    assert_eq!((h.status, h.db, h.version), ("ok", "ok", "1.2.3"));
    let h = health(false, "1.2.3");
    assert_eq!((h.status, h.db), ("ok", "error"));
}

#[test]
fn statistics_hold_the_settings_and_the_counts() {
    let tally = Tally {
        series: Some(1),
        metric_points: Some(2),
        histogram_points: None,
        logs: Some(4),
        spans: Some(5),
        partitions: Some(8),
        db_size_bytes: Some(1024),
    };
    let s = stats(&config(Some("secret")), &tally);
    assert_eq!((s.retention.metrics_days, s.retention.logs_days), (90, 30));
    assert!(s.auth_required, "auth_required should be true when token is set");
    assert_eq!((s.counts.series, s.counts.histogram_points, s.counts.spans), (1, 0, 5));
    assert_eq!((s.partitions, s.db_size_bytes), (8, Some(1024)));
    assert!(!stats(&config(None), &tally).auth_required, "auth_required should be false when no token");
}

// Dashboards

#[test]
fn dashboards_need_a_name() {
    let refused = create_dashboard(CreateDashboardRequest { name: " \t".to_string(), panels: None }).err().unwrap();
    assert_eq!((refused.status, refused.body.as_str()), (400, "name is required"));
    let refused = update_dashboard(UpdateDashboardRequest { name: String::new(), panels: json("[]") }).err().unwrap();
    assert_eq!((refused.status, refused.body.as_str()), (400, "name is required"));
}

#[test]
fn dashboards_keep_their_panels() {
    let d = create_dashboard(CreateDashboardRequest { name: " test-dash ".to_string(), panels: None }).ok().unwrap();
    assert_eq!(d.name, " test-dash ");
    assert_eq!(canonical_json(&d.panels), "[]");
    assert_eq!(canonical_json(&default_panels()), "[]");
    let panels = r#"[{"agg":"avg","chart_type":"line","metric":"cpu.usage","range":"1h","title":"CPU"}]"#;
    let d = update_dashboard(UpdateDashboardRequest { name: "v2".to_string(), panels: json(panels) }).ok().unwrap();
    assert_eq!(canonical_json(&d.panels), panels);
}
