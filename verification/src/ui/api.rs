//! Requests to the service, and what comes back.

use vstd::prelude::*;
use vstd::utf8::encode_utf8;

use opentelemetry_proto::tonic::common::v1::any_value::Value as AnyKind;

use crate::json::{member, parse_json, parsed_json, text_member, Json, JsonView};
use crate::query::logs::lines_text;
use crate::text::{
    chars_of, decimal, decimal_int, find_char, first_index, join, join_spec, lemma_first_index, opt_str, push_decimal,
    push_int, string_of, texts, trim_range, trimmed,
};

verus! {

// ---------------------------------------------------------------------------
// Answers
// ---------------------------------------------------------------------------

/// Why a request failed. The status is zero where the service was not reached.
pub struct ApiError {
    pub status: u16,
    pub message: String,
}

/// The health of the service.
pub struct HealthResponse {
    pub status: String,
    pub db: String,
    pub version: String,
}

/// For how many days data is kept.
pub struct RetentionConfig {
    pub metrics_days: u32,
    pub logs_days: u32,
}

/// How much is stored.
pub struct DataCounts {
    pub series: i64,
    pub metric_points: i64,
    pub histogram_points: i64,
    pub logs: i64,
    pub spans: i64,
}

/// The statistics of the service.
pub struct StatsResponse {
    pub retention: RetentionConfig,
    pub auth_required: bool,
    pub counts: DataCounts,
    pub partitions: i64,
    pub db_size_bytes: Option<i64>,
}

/// The names of the metrics.
pub struct MetricNamesResponse {
    pub names: Vec<String>,
}

/// A panel of a dashboard.
pub struct Panel {
    pub title: String,
    /// The name of the metric.
    pub metric: String,
    /// The kind of chart: `line`, `area`, `bar`, `stat` or `sparkline`.
    pub chart_type: String,
    /// The range back from now: `15m`, `1h`, `6h` or `24h`.
    pub range: String,
    /// The aggregation: `avg`, `sum`, `min`, `max` or `count`.
    pub agg: String,
}

/// A dashboard in a list.
pub struct DashboardSummary {
    pub id: i64,
    pub name: String,
    pub updated_at: String,
}

/// A dashboard with its panels.
pub struct Dashboard {
    pub id: i64,
    pub name: String,
    pub panels: Vec<Panel>,
    pub updated_at: String,
}

/// The state of a rule.
pub struct AlertStateRow {
    pub state: String,
    pub since: String,
    /// The value last seen, a double.
    pub last_value: Option<AnyKind>,
    pub last_eval: Option<String>,
    pub last_notified: Option<String>,
    pub last_message: Option<String>,
}

/// A rule, with its state once it was evaluated.
pub struct AlertRule {
    pub id: i64,
    pub name: String,
    pub kind: String,
    pub enabled: bool,
    pub severity: String,
    pub config: Json,
    pub for_secs: i32,
    pub webhook_url: Option<String>,
    pub created_at: String,
    pub updated_at: String,
    pub state: Option<AlertStateRow>,
}

/// A rule that is pending or firing.
pub struct ActiveAlert {
    pub id: i64,
    pub name: String,
    pub severity: String,
    pub kind: String,
    pub state: String,
    pub since: String,
    /// The value last seen, a double.
    pub last_value: Option<AnyKind>,
    pub last_eval: Option<String>,
    pub last_message: Option<String>,
}

/// What a failed request is reported as: the text under `error` where the body
/// is a JSON object with one, or else the body as it is.
pub open spec fn failure_text(parsed: Option<JsonView>, body: Seq<char>) -> Seq<char> {
    match parsed {
        Some(v) => match text_member(v, "error"@) {
            Some(m) => m,
            None => body,
        },
        None => body,
    }
}

/// What a failed request is reported as, given the body and the JSON value that
/// it holds, if it holds one.
pub fn failure_message(parsed: Option<&Json>, body: &str) -> (m: String)
    ensures
        m@ == failure_text(
            match parsed {
                Some(v) => Some(v@),
                None => None,
            },
            body@,
        ),
{
    match parsed {
        Some(v) => match v.get_str("error") {
            Some(m) => m.to_owned(),
            None => body.to_owned(),
        },
        None => body.to_owned(),
    }
}

impl ApiError {
    /// The error of a request that the service refused with a status and a body.
    pub fn refused(status: u16, body: &str) -> (e: ApiError)
        ensures
            e.status == status,
            e.message@ == failure_text(
                match parsed_json(encode_utf8(body@)) {
                    Ok(v) => Some(v),
                    Err(_) => None,
                },
                body@,
            ),
    {
        let message = match parse_json(body.as_bytes()) {
            Ok(v) => failure_message(Some(&v), body),
            Err(_) => failure_message(None, body),
        };
        ApiError { status, message }
    }

    /// The error as a text.
    pub fn describe(&self) -> (s: String)
        ensures
            s@ == self.message@ + " (HTTP "@ + decimal(self.status as nat) + ")"@,
    {
        let mut s = self.message.clone();
        s.push_str(" (HTTP ");
        push_decimal(&mut s, self.status as u64);
        s.push_str(")");
        s
    }
}

/// The authorization header of a request: none where there is no token.
pub fn authorization(token: &str) -> (h: Option<String>)
    ensures
        match h {
            Some(h) => token@.len() > 0 && h@ == "Bearer "@ + token@,
            None => token@.len() == 0,
        },
{
    if token.is_empty() {
        None
    } else {
        let mut h = "Bearer ".to_owned();
        h.push_str(token);
        Some(h)
    }
}

// ---------------------------------------------------------------------------
// Addresses
// ---------------------------------------------------------------------------

/// A character as it stands in the value of a query: a space and the characters
/// that part a query are escaped.
pub open spec fn encoded_char(c: char) -> Seq<char> {
    if c == ' ' {
        "%20"@
    } else if c == '&' {
        "%26"@
    } else if c == '=' {
        "%3D"@
    } else if c == '+' {
        "%2B"@
    } else {
        seq![c]
    }
}

/// A text as it stands in the value of a query.
pub open spec fn encoded(s: Seq<char>) -> Seq<char>
    decreases s.len(),
{
    if s.len() == 0 {
        Seq::empty()
    } else {
        encoded(s.drop_last()) + encoded_char(s.last())
    }
}

/// Escapes the characters of a text that have a meaning in a query.
pub fn urlencoded(s: &str) -> (r: String)
    ensures
        r@ == encoded(s@),
{
    let cs = chars_of(s);
    let mut r = String::new();
    let mut i: usize = 0;
    while i < cs.len()
        invariant
            i <= cs.len(),
            r@ == encoded(cs@.take(i as int)),
        decreases cs.len() - i,
    {
        let c = cs[i];
        if c == ' ' {
            r.push_str("%20");
        } else if c == '&' {
            r.push_str("%26");
        } else if c == '=' {
            r.push_str("%3D");
        } else if c == '+' {
            r.push_str("%2B");
        } else {
            r.push(c);
        }
        proof {
            let upto = cs@.take(i + 1);
            assert(upto.drop_last() =~= cs@.take(i as int));
            assert(upto.last() == c);
            assert(r@ =~= encoded(upto));
        }
        i += 1;
    }
    assert(cs@.take(cs.len() as int) =~= s@);
    r
}

/// A parameter of a query and its value, if it has one.
pub type Param = (Seq<char>, Option<Seq<char>>);

/// A parameter that stands in the query: one with a value that is not empty.
pub open spec fn is_given(p: Param) -> bool {
    p.1 matches Some(v) && v.len() > 0
}

/// A parameter as it stands in a query.
pub open spec fn param_text(key: Seq<char>, value: Seq<char>) -> Seq<char> {
    key + "="@ + encoded(value)
}

/// The parameters that stand in the query, in order.
pub open spec fn given(params: Seq<Param>) -> Seq<Seq<char>>
    decreases params.len(),
{
    if params.len() == 0 {
        Seq::empty()
    } else {
        let before = given(params.drop_last());
        let p = params.last();
        if is_given(p) {
            before.push(param_text(p.0, p.1->0))
        } else {
            before
        }
    }
}

/// The query of some parameters.
pub open spec fn query_text(params: Seq<Param>) -> Seq<char> {
    join_spec(given(params), "&"@)
}

proof fn lemma_given_push(params: Seq<Param>, p: Param)
    ensures
        given(params.push(p)) == if is_given(p) {
            given(params).push(param_text(p.0, p.1->0))
        } else {
            given(params)
        },
{
    assert(params.push(p).drop_last() =~= params);
}

fn param(key: &str, value: &str) -> (r: String)
    ensures
        r@ == param_text(key@, value@),
{
    let mut r = key.to_owned();
    r.push_str("=");
    r.push_str(urlencoded(value).as_str());
    r
}

/// Adds a parameter, if it has a value that is not empty.
fn add_param(parts: &mut Vec<String>, key: &str, value: Option<&str>)
    ensures
        texts(final(parts)@) == if is_given((key@, opt_str(value))) {
            texts(old(parts)@).push(param_text(key@, opt_str(value)->0))
        } else {
            texts(old(parts)@)
        },
{
    if let Some(v) = value {
        if !v.is_empty() {
            let ghost before = texts(parts@);
            let p = param(key, v);
            parts.push(p);
            assert(texts(parts@) =~= before.push(param_text(key@, v@)));
        }
    }
}

fn limit_text(limit: Option<u32>) -> (s: Option<String>)
    ensures
        match limit {
            Some(n) => s matches Some(t) && t@ == decimal(n as nat),
            None => s is None,
        },
{
    match limit {
        Some(n) => {
            let mut t = String::new();
            push_decimal(&mut t, n as u64);
            assert(t@ =~= decimal(n as nat));
            Some(t)
        },
        None => None,
    }
}

/// A limit as a parameter.
pub open spec fn limit_value(limit: Option<u32>) -> Option<Seq<char>> {
    match limit {
        Some(n) => Some(decimal(n as nat)),
        None => None,
    }
}

fn as_text(s: &Option<String>) -> (r: Option<&str>)
    ensures
        opt_str(r) == crate::text::opt_text(*s),
{
    match s {
        Some(s) => Some(s.as_str()),
        None => None,
    }
}

/// What a query of metrics asks for.
pub struct MetricsAsk<'a> {
    pub name: &'a str,
    pub start: Option<&'a str>,
    pub end: Option<&'a str>,
    pub step: Option<&'a str>,
    pub filter: Option<&'a str>,
    pub agg: Option<&'a str>,
}

/// The parameters of a query of metrics, but for the name.
pub open spec fn metrics_params(ask: MetricsAsk) -> Seq<Param> {
    seq![
        ("start"@, opt_str(ask.start)),
        ("end"@, opt_str(ask.end)),
        ("step"@, opt_str(ask.step)),
        ("filter"@, opt_str(ask.filter)),
        ("agg"@, opt_str(ask.agg)),
    ]
}

/// The address of a query of metrics. The name always stands in it.
pub fn metrics_query_url(ask: &MetricsAsk) -> (url: String)
    ensures
        url@ == "/api/v1/metrics/query?"@ + join_spec(
            seq![param_text("name"@, ask.name@)] + given(metrics_params(*ask)),
            "&"@,
        ),
{
    let mut parts: Vec<String> = Vec::new();
    add_param(&mut parts, "start", ask.start);
    add_param(&mut parts, "end", ask.end);
    add_param(&mut parts, "step", ask.step);
    add_param(&mut parts, "filter", ask.filter);
    add_param(&mut parts, "agg", ask.agg);
    proof {
        let p0 = Seq::<Param>::empty();
        let p1 = p0.push(("start"@, opt_str(ask.start)));
        let p2 = p1.push(("end"@, opt_str(ask.end)));
        let p3 = p2.push(("step"@, opt_str(ask.step)));
        let p4 = p3.push(("filter"@, opt_str(ask.filter)));
        lemma_given_push(p0, ("start"@, opt_str(ask.start)));
        lemma_given_push(p1, ("end"@, opt_str(ask.end)));
        lemma_given_push(p2, ("step"@, opt_str(ask.step)));
        lemma_given_push(p3, ("filter"@, opt_str(ask.filter)));
        lemma_given_push(p4, ("agg"@, opt_str(ask.agg)));
        assert(metrics_params(*ask) =~= p4.push(("agg"@, opt_str(ask.agg))));
        assert(texts(Seq::<String>::empty()) =~= given(p0));
    }
    let ghost rest = texts(parts@);
    parts.insert(0, param("name", ask.name));
    assert(texts(parts@) =~= seq![param_text("name"@, ask.name@)] + rest);
    let mut url = "/api/v1/metrics/query?".to_owned();
    url.push_str(join(&parts, "&").as_str());
    url
}

/// What a query of logs asks for.
pub struct LogsAsk<'a> {
    pub start: Option<&'a str>,
    pub end: Option<&'a str>,
    pub filter: Option<&'a str>,
    pub severity_min: Option<&'a str>,
    pub q: Option<&'a str>,
    pub limit: Option<u32>,
    pub trace_id: Option<&'a str>,
    pub span_id: Option<&'a str>,
}

/// The parameters of a query of logs.
pub open spec fn logs_params(ask: LogsAsk) -> Seq<Param> {
    seq![
        ("start"@, opt_str(ask.start)),
        ("end"@, opt_str(ask.end)),
        ("filter"@, opt_str(ask.filter)),
        ("severity_min"@, opt_str(ask.severity_min)),
        ("q"@, opt_str(ask.q)),
        ("limit"@, limit_value(ask.limit)),
        ("trace_id"@, opt_str(ask.trace_id)),
        ("span_id"@, opt_str(ask.span_id)),
    ]
}

/// The address of a query of logs.
pub fn logs_query_url(ask: &LogsAsk) -> (url: String)
    ensures
        url@ == "/api/v1/logs/query?"@ + query_text(logs_params(*ask)),
{
    let limit = limit_text(ask.limit);
    let mut parts: Vec<String> = Vec::new();
    add_param(&mut parts, "start", ask.start);
    add_param(&mut parts, "end", ask.end);
    add_param(&mut parts, "filter", ask.filter);
    add_param(&mut parts, "severity_min", ask.severity_min);
    add_param(&mut parts, "q", ask.q);
    add_param(&mut parts, "limit", as_text(&limit));
    add_param(&mut parts, "trace_id", ask.trace_id);
    add_param(&mut parts, "span_id", ask.span_id);
    proof {
        let p0 = Seq::<Param>::empty();
        let p1 = p0.push(("start"@, opt_str(ask.start)));
        let p2 = p1.push(("end"@, opt_str(ask.end)));
        let p3 = p2.push(("filter"@, opt_str(ask.filter)));
        let p4 = p3.push(("severity_min"@, opt_str(ask.severity_min)));
        let p5 = p4.push(("q"@, opt_str(ask.q)));
        let p6 = p5.push(("limit"@, limit_value(ask.limit)));
        let p7 = p6.push(("trace_id"@, opt_str(ask.trace_id)));
        lemma_given_push(p0, ("start"@, opt_str(ask.start)));
        lemma_given_push(p1, ("end"@, opt_str(ask.end)));
        lemma_given_push(p2, ("filter"@, opt_str(ask.filter)));
        lemma_given_push(p3, ("severity_min"@, opt_str(ask.severity_min)));
        lemma_given_push(p4, ("q"@, opt_str(ask.q)));
        lemma_given_push(p5, ("limit"@, limit_value(ask.limit)));
        lemma_given_push(p6, ("trace_id"@, opt_str(ask.trace_id)));
        lemma_given_push(p7, ("span_id"@, opt_str(ask.span_id)));
        assert(logs_params(*ask) =~= p7.push(("span_id"@, opt_str(ask.span_id))));
        assert(texts(Seq::<String>::empty()) =~= given(p0));
    }
    let mut url = "/api/v1/logs/query?".to_owned();
    url.push_str(join(&parts, "&").as_str());
    url
}

/// The parameters of a query of a window of time.
pub open spec fn window_params(start: Option<Seq<char>>, end: Option<Seq<char>>) -> Seq<Param> {
    seq![("start"@, start), ("end"@, end)]
}

fn window_query(start: Option<&str>, end: Option<&str>) -> (s: String)
    ensures
        s@ == query_text(window_params(opt_str(start), opt_str(end))),
{
    let mut parts: Vec<String> = Vec::new();
    add_param(&mut parts, "start", start);
    add_param(&mut parts, "end", end);
    proof {
        let p0 = Seq::<Param>::empty();
        let p1 = p0.push(("start"@, opt_str(start)));
        lemma_given_push(p0, ("start"@, opt_str(start)));
        lemma_given_push(p1, ("end"@, opt_str(end)));
        assert(window_params(opt_str(start), opt_str(end)) =~= p1.push(("end"@, opt_str(end))));
        assert(texts(Seq::<String>::empty()) =~= given(p0));
    }
    join(&parts, "&")
}

/// The address of the service map.
pub fn service_map_url(start: Option<&str>, end: Option<&str>) -> (url: String)
    ensures
        url@ == "/api/v1/services?"@ + query_text(window_params(opt_str(start), opt_str(end))),
{
    let mut url = "/api/v1/services?".to_owned();
    url.push_str(window_query(start, end).as_str());
    url
}

/// The address of the cluster topology.
pub fn kubernetes_url(start: Option<&str>, end: Option<&str>) -> (url: String)
    ensures
        url@ == "/api/v1/kubernetes?"@ + query_text(window_params(opt_str(start), opt_str(end))),
{
    let mut url = "/api/v1/kubernetes?".to_owned();
    url.push_str(window_query(start, end).as_str());
    url
}

/// What a query of traces asks for.
pub struct TracesAsk<'a> {
    pub service: Option<&'a str>,
    pub name: Option<&'a str>,
    pub status: Option<&'a str>,
    pub min_duration_ms: Option<&'a str>,
    pub max_duration_ms: Option<&'a str>,
    pub start: Option<&'a str>,
    pub end: Option<&'a str>,
    pub limit: Option<u32>,
}

/// The parameters of a query of traces.
pub open spec fn traces_params(ask: TracesAsk) -> Seq<Param> {
    seq![
        ("service"@, opt_str(ask.service)),
        ("name"@, opt_str(ask.name)),
        ("status"@, opt_str(ask.status)),
        ("min_duration_ms"@, opt_str(ask.min_duration_ms)),
        ("max_duration_ms"@, opt_str(ask.max_duration_ms)),
        ("start"@, opt_str(ask.start)),
        ("end"@, opt_str(ask.end)),
        ("limit"@, limit_value(ask.limit)),
    ]
}

/// The address of a query of traces.
pub fn traces_query_url(ask: &TracesAsk) -> (url: String)
    ensures
        url@ == "/api/v1/traces/query?"@ + query_text(traces_params(*ask)),
{
    let limit = limit_text(ask.limit);
    let mut parts: Vec<String> = Vec::new();
    add_param(&mut parts, "service", ask.service);
    add_param(&mut parts, "name", ask.name);
    add_param(&mut parts, "status", ask.status);
    add_param(&mut parts, "min_duration_ms", ask.min_duration_ms);
    add_param(&mut parts, "max_duration_ms", ask.max_duration_ms);
    add_param(&mut parts, "start", ask.start);
    add_param(&mut parts, "end", ask.end);
    add_param(&mut parts, "limit", as_text(&limit));
    proof {
        let p0 = Seq::<Param>::empty();
        let p1 = p0.push(("service"@, opt_str(ask.service)));
        let p2 = p1.push(("name"@, opt_str(ask.name)));
        let p3 = p2.push(("status"@, opt_str(ask.status)));
        let p4 = p3.push(("min_duration_ms"@, opt_str(ask.min_duration_ms)));
        let p5 = p4.push(("max_duration_ms"@, opt_str(ask.max_duration_ms)));
        let p6 = p5.push(("start"@, opt_str(ask.start)));
        let p7 = p6.push(("end"@, opt_str(ask.end)));
        lemma_given_push(p0, ("service"@, opt_str(ask.service)));
        lemma_given_push(p1, ("name"@, opt_str(ask.name)));
        lemma_given_push(p2, ("status"@, opt_str(ask.status)));
        lemma_given_push(p3, ("min_duration_ms"@, opt_str(ask.min_duration_ms)));
        lemma_given_push(p4, ("max_duration_ms"@, opt_str(ask.max_duration_ms)));
        lemma_given_push(p5, ("start"@, opt_str(ask.start)));
        lemma_given_push(p6, ("end"@, opt_str(ask.end)));
        lemma_given_push(p7, ("limit"@, limit_value(ask.limit)));
        assert(traces_params(*ask) =~= p7.push(("limit"@, limit_value(ask.limit))));
        assert(texts(Seq::<String>::empty()) =~= given(p0));
    }
    let mut url = "/api/v1/traces/query?".to_owned();
    url.push_str(join(&parts, "&").as_str());
    url
}

/// The address of the series of a metric.
pub fn metric_series_url(name: &str) -> (url: String)
    ensures
        url@ == "/api/v1/metrics/series?name="@ + encoded(name@),
{
    let mut url = "/api/v1/metrics/series?name=".to_owned();
    url.push_str(urlencoded(name).as_str());
    url
}

/// The address of a trace.
pub fn trace_url(trace_id: &str) -> (url: String)
    ensures
        url@ == "/api/v1/traces/"@ + encoded(trace_id@),
{
    let mut url = "/api/v1/traces/".to_owned();
    url.push_str(urlencoded(trace_id).as_str());
    url
}

/// The address of a rule.
pub fn alert_rule_url(id: i64) -> (url: String)
    ensures
        url@ == "/api/v1/alerts/rules/"@ + decimal_int(id as int),
{
    let mut url = "/api/v1/alerts/rules/".to_owned();
    push_int(&mut url, id);
    url
}

/// The address of a dashboard.
pub fn dashboard_url(id: i64) -> (url: String)
    ensures
        url@ == "/api/v1/dashboards/"@ + decimal_int(id as int),
{
    let mut url = "/api/v1/dashboards/".to_owned();
    push_int(&mut url, id);
    url
}

// ---------------------------------------------------------------------------
// Records
// ---------------------------------------------------------------------------

/// The text of a line without the carriage return that may end it.
pub open spec fn without_return(line: Seq<char>) -> Seq<char> {
    if line.len() > 0 && line.last() == '\r' {
        line.drop_last()
    } else {
        line
    }
}

/// A line in front of others, unless it is blank.
pub open spec fn unless_blank(line: Seq<char>) -> Seq<Seq<char>> {
    if trimmed(line).len() == 0 {
        Seq::empty()
    } else {
        seq![line]
    }
}

/// The lines of a text that are not blank. A line ends with a line feed, which a
/// carriage return may precede, or with the text.
pub open spec fn record_texts(s: Seq<char>) -> Seq<Seq<char>>
    decreases s.len(),
{
    let p = first_index(s, '\n');
    if 0 <= p < s.len() {
        unless_blank(without_return(s.take(p))) + record_texts(s.skip(p + 1))
    } else {
        unless_blank(s)
    }
}

/// The lines of a text that are not blank: each is a record.
pub fn record_lines(s: &str) -> (r: Vec<String>)
    ensures
        texts(r@) == record_texts(s@),
{
    let cs = chars_of(s);
    let mut r: Vec<String> = Vec::new();
    let mut from: usize = 0;
    let mut more: bool = true;
    assert(cs@.subrange(0, cs.len() as int) =~= s@);
    assert(texts(r@) =~= Seq::empty());
    assert(texts(r@) + record_texts(s@) =~= record_texts(s@));
    while more
        invariant
            from <= cs.len(),
            cs@ == s@,
            more ==> texts(r@) + record_texts(cs@.subrange(from as int, cs.len() as int)) == record_texts(s@),
            !more ==> texts(r@) == record_texts(s@),
        decreases cs.len() - from + (if more {
            1int
        } else {
            0int
        }),
    {
        let at = find_char(&cs, from, '\n');
        let ghost left = cs@.subrange(from as int, cs.len() as int);
        let ghost before = texts(r@);
        let mut to: usize = at;
        if at < cs.len() && at > from && cs[at - 1] == '\r' {
            to = at - 1;
        }
        let line = string_of(&cs, from, to);
        let (a, b) = trim_range(&cs, from, to);
        let ghost piece = unless_blank(line@);
        if a < b {
            r.push(line);
            assert(texts(r@) =~= before + piece);
        } else {
            assert(texts(r@) =~= before + piece);
        }
        if at < cs.len() {
            proof {
                lemma_first_index(left, '\n', at - from);
                let head = left.take(at - from);
                assert(head =~= cs@.subrange(from as int, at as int));
                assert(without_return(head) =~= line@);
                let rest = cs@.subrange(at + 1, cs.len() as int);
                assert(left.skip(at - from + 1) =~= rest);
                assert(before + (piece + record_texts(rest)) =~= (before + piece) + record_texts(rest));
            }
            from = at + 1;
        } else {
            proof {
                lemma_first_index(left, '\n', left.len() as int);
                assert(line@ =~= left);
            }
            more = false;
        }
    }
    r
}

// ---------------------------------------------------------------------------
// Laws
// ---------------------------------------------------------------------------

/// A value in a query holds none of the characters that part a query.
pub proof fn law_encoded_parts_nothing(s: Seq<char>)
    ensures
        forall|i: int|
            0 <= i < encoded(s).len() ==> (#[trigger] encoded(s)[i]) != ' ' && encoded(s)[i] != '&' && encoded(s)[i] != '='
                && encoded(s)[i] != '+',
    decreases s.len(),
{
    reveal_strlit("%20");
    reveal_strlit("%26");
    reveal_strlit("%3D");
    reveal_strlit("%2B");
    if s.len() > 0 {
        law_encoded_parts_nothing(s.drop_last());
        let before = encoded(s.drop_last());
        let c = encoded_char(s.last());
        assert(c.len() <= 3);
        assert forall|i: int| 0 <= i < encoded(s).len() implies (#[trigger] encoded(s)[i]) != ' ' && encoded(s)[i] != '&'
            && encoded(s)[i] != '=' && encoded(s)[i] != '+' by {
            if i < before.len() {
                assert(encoded(s)[i] == before[i]);
            } else {
                let j = i - before.len();
                assert(encoded(s)[i] == c[j]);
                assert(j == 0 || j == 1 || j == 2);
            }
        }
    }
}

/// What has no meaning in a query stands in it as it is.
pub proof fn law_plain_text_stays(s: Seq<char>)
    requires
        forall|i: int| 0 <= i < s.len() ==> (#[trigger] s[i]) != ' ' && s[i] != '&' && s[i] != '=' && s[i] != '+',
    ensures
        encoded(s) == s,
    decreases s.len(),
{
    if s.len() > 0 {
        law_plain_text_stays(s.drop_last());
        assert(encoded(s) =~= s);
    }
}

/// Lines that were ended are read apart from what follows.
proof fn lemma_records_concat(x: Seq<char>, y: Seq<char>)
    requires
        x.len() > 0 ==> x.last() == '\n',
    ensures
        record_texts(x + y) == record_texts(x) + record_texts(y),
    decreases x.len(),
{
    if x.len() == 0 {
        assert(x + y =~= y);
        lemma_first_index(x, '\n', 0);
        assert(trimmed(x).len() == 0);
        assert(record_texts(x) + record_texts(y) =~= record_texts(y));
    } else {
        let p = first_index(x, '\n');
        lemma_first_index_bounds(x, '\n', x.len() - 1);
        lemma_first_index(x + y, '\n', p);
        assert((x + y).take(p) =~= x.take(p));
        let rest = x.skip(p + 1);
        assert((x + y).skip(p + 1) =~= rest + y);
        lemma_records_concat(rest, y);
        let piece = unless_blank(without_return(x.take(p)));
        assert(piece + (record_texts(rest) + record_texts(y)) =~= (piece + record_texts(rest)) + record_texts(y));
    }
}

/// The first place of a character is at or before any place that has it.
proof fn lemma_first_index_bounds(s: Seq<char>, c: char, at: int)
    requires
        0 <= at < s.len(),
        s[at] == c,
    ensures
        0 <= first_index(s, c) <= at,
        s[first_index(s, c)] == c,
        forall|i: int| 0 <= i < first_index(s, c) ==> s[i] != c,
    decreases s.len(),
{
    if s[0] != c {
        lemma_first_index_bounds(s.skip(1), c, at - 1);
        let q = first_index(s.skip(1), c);
        assert forall|i: int| 0 <= i < q + 1 implies s[i] != c by {
            if i > 0 {
                assert(s.skip(1)[i - 1] == s[i]);
            }
        }
    }
}

/// A record that can stand on a line of its own.
pub open spec fn is_record(s: Seq<char>) -> bool {
    &&& !s.contains('\n')
    &&& trimmed(s).len() > 0
    &&& s.last() != '\r'
}

/// The records that were written.
pub open spec fn written(lines: Seq<Option<String>>) -> Seq<Seq<char>>
    decreases lines.len(),
{
    if lines.len() == 0 {
        Seq::empty()
    } else {
        match lines.last() {
            Some(l) => written(lines.drop_last()).push(l@),
            None => written(lines.drop_last()),
        }
    }
}

/// The portal reads back the records that the service writes, in order.
pub proof fn law_records_come_back(lines: Seq<Option<String>>)
    requires
        forall|i: int| 0 <= i < lines.len() ==> (#[trigger] lines[i] matches Some(l) ==> is_record(l@)),
    ensures
        record_texts(lines_text(lines)) == written(lines),
    decreases lines.len(),
{
    if lines.len() == 0 {
        lemma_first_index(Seq::empty(), '\n', 0);
        assert(trimmed(Seq::<char>::empty()).len() == 0);
    } else {
        let before = lines.drop_last();
        assert forall|i: int| 0 <= i < before.len() implies (#[trigger] before[i] matches Some(l) ==> is_record(
            l@,
        )) by {
            assert(before[i] == lines[i]);
        }
        law_records_come_back(before);
        lemma_lines_end(before);
        if let Some(l) = lines.last() {
            assert(lines[lines.len() - 1] == lines.last());
            let line = l@ + seq!['\n'];
            assert(lines_text(before) + l@ + seq!['\n'] =~= lines_text(before) + line);
            lemma_records_concat(lines_text(before), line);
            assert forall|i: int| 0 <= i < l@.len() implies line[i] != '\n' by {
                assert(line[i] == l@[i]);
                assert(l@.contains(l@[i]));
            }
            lemma_first_index(line, '\n', l@.len() as int);
            assert(line.take(l@.len() as int) =~= l@);
            assert(line.skip(l@.len() as int + 1) =~= Seq::empty());
            lemma_first_index(Seq::empty(), '\n', 0);
            assert(trimmed(Seq::<char>::empty()).len() == 0);
            assert(without_return(l@) == l@);
            assert(record_texts(Seq::<char>::empty()) =~= Seq::empty());
            assert(record_texts(line) == unless_blank(l@) + record_texts(Seq::<char>::empty()));
            assert(record_texts(line) =~= seq![l@]);
            assert(written(before) + seq![l@] =~= written(before).push(l@));
        }
    }
}

proof fn lemma_lines_end(lines: Seq<Option<String>>)
    ensures
        lines_text(lines).len() > 0 ==> lines_text(lines).last() == '\n',
    decreases lines.len(),
{
    if lines.len() > 0 {
        lemma_lines_end(lines.drop_last());
    }
}

/// The parameters that stand in a query are those with a value that is not empty,
/// all of them and in order, each as its key and its encoded value.
pub proof fn law_query_has_what_is_given(params: Seq<Param>)
    ensures
        ({
            let kept = params.filter(|p: Param| p.1 is Some && p.1->0.len() > 0);
            given(params).len() == kept.len() && forall|i: int|
                0 <= i < kept.len() ==> #[trigger] given(params)[i] == kept[i].0 + "="@ + encoded(kept[i].1->0)
        }),
    decreases params.len(),
{
    reveal(Seq::filter);
    if params.len() > 0 {
        law_query_has_what_is_given(params.drop_last());
    }
}

/// A text is encoded character by character, and what has a meaning in a query
/// stands as a percent sign and two digits.
pub proof fn law_encoding_goes_by_characters(a: Seq<char>, b: Seq<char>)
    ensures
        encoded(a + b) == encoded(a) + encoded(b),
        encoded(seq![' ']) == "%20"@,
        encoded(seq!['&']) == "%26"@,
        encoded(seq!['=']) == "%3D"@,
        encoded(seq!['+']) == "%2B"@,
    decreases b.len(),
{
    let none = Seq::<char>::empty();
    assert(encoded(none) == none);
    assert(seq![' '].drop_last() =~= none && seq!['&'].drop_last() =~= none && seq!['='].drop_last() =~= none
        && seq!['+'].drop_last() =~= none);
    assert(encoded(seq![' ']) =~= "%20"@);
    assert(encoded(seq!['&']) =~= "%26"@);
    assert(encoded(seq!['=']) =~= "%3D"@);
    assert(encoded(seq!['+']) =~= "%2B"@);
    if b.len() == 0 {
        assert(a + b =~= a);
        assert(encoded(a) + encoded(b) =~= encoded(a));
    } else {
        assert((a + b).drop_last() =~= a + b.drop_last());
        law_encoding_goes_by_characters(a, b.drop_last());
        assert(encoded(a + b) =~= encoded(a) + encoded(b));
    }
}

/// A query of metrics asks for what its parts say, each under its key.
pub proof fn law_metric_query_asks_for_its_parts(ask: MetricsAsk)
    ensures
        metrics_params(ask).len() == 5,
        metrics_params(ask).contains(("start"@, opt_str(ask.start))),
        metrics_params(ask).contains(("end"@, opt_str(ask.end))),
        metrics_params(ask).contains(("step"@, opt_str(ask.step))),
        metrics_params(ask).contains(("filter"@, opt_str(ask.filter))),
        metrics_params(ask).contains(("agg"@, opt_str(ask.agg))),
{
    let p = metrics_params(ask);
    assert(p[0] == ("start"@, opt_str(ask.start)) && p[1] == ("end"@, opt_str(ask.end)));
    assert(p[2] == ("step"@, opt_str(ask.step)) && p[3] == ("filter"@, opt_str(ask.filter)));
    assert(p[4] == ("agg"@, opt_str(ask.agg)));
}

/// A query of logs asks for what its parts say, each under its key.
pub proof fn law_log_query_asks_for_its_parts(ask: LogsAsk)
    ensures
        logs_params(ask).len() == 8,
        logs_params(ask).contains(("start"@, opt_str(ask.start))),
        logs_params(ask).contains(("end"@, opt_str(ask.end))),
        logs_params(ask).contains(("filter"@, opt_str(ask.filter))),
        logs_params(ask).contains(("severity_min"@, opt_str(ask.severity_min))),
        logs_params(ask).contains(("q"@, opt_str(ask.q))),
        ask.limit matches Some(n) ==> logs_params(ask).contains(("limit"@, Some(decimal(n as nat)))),
        ask.limit is None ==> logs_params(ask).contains(("limit"@, None::<Seq<char>>)),
        logs_params(ask).contains(("trace_id"@, opt_str(ask.trace_id))),
        logs_params(ask).contains(("span_id"@, opt_str(ask.span_id))),
{
    let p = logs_params(ask);
    assert(p[0] == ("start"@, opt_str(ask.start)) && p[1] == ("end"@, opt_str(ask.end)));
    assert(p[2] == ("filter"@, opt_str(ask.filter)) && p[3] == ("severity_min"@, opt_str(ask.severity_min)));
    assert(p[4] == ("q"@, opt_str(ask.q)) && p[5] == ("limit"@, limit_value(ask.limit)));
    assert(p[6] == ("trace_id"@, opt_str(ask.trace_id)) && p[7] == ("span_id"@, opt_str(ask.span_id)));
}

/// A query of traces asks for what its parts say, each under its key.
pub proof fn law_trace_query_asks_for_its_parts(ask: TracesAsk)
    ensures
        traces_params(ask).len() == 8,
        traces_params(ask).contains(("service"@, opt_str(ask.service))),
        traces_params(ask).contains(("name"@, opt_str(ask.name))),
        traces_params(ask).contains(("status"@, opt_str(ask.status))),
        traces_params(ask).contains(("min_duration_ms"@, opt_str(ask.min_duration_ms))),
        traces_params(ask).contains(("max_duration_ms"@, opt_str(ask.max_duration_ms))),
        traces_params(ask).contains(("start"@, opt_str(ask.start))),
        traces_params(ask).contains(("end"@, opt_str(ask.end))),
        ask.limit matches Some(n) ==> traces_params(ask).contains(("limit"@, Some(decimal(n as nat)))),
        ask.limit is None ==> traces_params(ask).contains(("limit"@, None::<Seq<char>>)),
{
    let p = traces_params(ask);
    assert(p[0] == ("service"@, opt_str(ask.service)) && p[1] == ("name"@, opt_str(ask.name)));
    assert(p[2] == ("status"@, opt_str(ask.status)) && p[3] == ("min_duration_ms"@, opt_str(ask.min_duration_ms)));
    assert(p[4] == ("max_duration_ms"@, opt_str(ask.max_duration_ms)) && p[5] == ("start"@, opt_str(ask.start)));
    assert(p[6] == ("end"@, opt_str(ask.end)) && p[7] == ("limit"@, limit_value(ask.limit)));
}

/// A failure is reported by the text under `error`, where the body has one, and
/// by the whole body otherwise.
pub proof fn law_failures_are_reported(parsed: Option<JsonView>, body: Seq<char>)
    ensures
        parsed matches Some(v) ==> (member(v, "error"@) matches Some(JsonView::Str(m)) ==> failure_text(parsed, body) == m),
        parsed is None || !(member(parsed->0, "error"@) matches Some(JsonView::Str(_))) ==> failure_text(parsed, body)
            == body,
{
}

/// A parameter with a value stands at the end of the query, behind those before it;
/// one without a value leaves the query as it was.
pub proof fn law_parameters_follow_each_other(params: Seq<Param>, p: Param)
    ensures
        (p.1 is None || p.1->0.len() == 0) ==> query_text(params.push(p)) == query_text(params),
        (p.1 is Some && p.1->0.len() > 0) ==> ({
            let before = query_text(params);
            let text = p.0 + "="@ + encoded(p.1->0);
            query_text(params.push(p)) == if given(params).len() == 0 {
                text
            } else {
                before + "&"@ + text
            }
        }),
        query_text(Seq::<Param>::empty()).len() == 0,
{
    lemma_given_push(params, p);
    if is_given(p) {
        let all = given(params.push(p));
        assert(all.drop_last() =~= given(params));
    }
}

} // verus!
