//! What the pages ask of the service, from what was typed into them.

use vstd::prelude::*;

use crate::text::{decimal, decimal_int, join_spec, law_integers_read_back, parse_int_spec};
use crate::ui::api::{
    given, kubernetes_url, logs_params, logs_query_url, metrics_params, metrics_query_url, param_text, query_text,
    service_map_url, traces_params, traces_query_url, window_params, LogsAsk, MetricsAsk, Panel, Param, TracesAsk,
};
use crate::ui::format::{limit_or, panel_window, query_window, range_span};

verus! {

// ---------------------------------------------------------------------------
// Windows of time
// ---------------------------------------------------------------------------

/// The start that is asked for: an hour ago where none was typed.
pub open spec fn start_asked(start: Seq<char>, now: int) -> Seq<char> {
    if start.len() == 0 {
        decimal_int(now - 3600)
    } else {
        start
    }
}

/// The end that is asked for: what was typed, or now where no start was typed.
pub open spec fn end_asked(start: Seq<char>, end: Seq<char>, now: int) -> Seq<char> {
    if start.len() == 0 {
        decimal_int(now)
    } else {
        end
    }
}

/// The parameters of the window that was typed.
pub open spec fn typed_window(start: Seq<char>, end: Seq<char>, now: int) -> Seq<Param> {
    window_params(Some(start_asked(start, now)), Some(end_asked(start, end, now)))
}

/// What the services page asks for.
pub fn services_request(start: &str, end: &str, now: i64) -> (url: String)
    requires
        now >= i64::MIN + 3600,
    ensures
        url@ == "/api/v1/services?"@ + query_text(typed_window(start@, end@, now as int)),
{
    let (from, to) = query_window(start, end, now);
    service_map_url(Some(from.as_str()), Some(to.as_str()))
}

/// What the cluster page asks for.
pub fn kubernetes_request(start: &str, end: &str, now: i64) -> (url: String)
    requires
        now >= i64::MIN + 3600,
    ensures
        url@ == "/api/v1/kubernetes?"@ + query_text(typed_window(start@, end@, now as int)),
{
    let (from, to) = query_window(start, end, now);
    kubernetes_url(Some(from.as_str()), Some(to.as_str()))
}

// ---------------------------------------------------------------------------
// Queries
// ---------------------------------------------------------------------------

/// What was typed into the metrics page.
pub struct MetricsFields<'a> {
    pub name: &'a str,
    pub start: &'a str,
    pub end: &'a str,
    pub step: &'a str,
    pub filter: &'a str,
    pub agg: &'a str,
}

/// The parameters behind the name.
pub open spec fn metrics_typed(f: MetricsFields, now: int) -> Seq<Param> {
    typed_window(f.start@, f.end@, now) + seq![
        ("step"@, Some(f.step@)),
        ("filter"@, Some(f.filter@)),
        ("agg"@, Some(f.agg@)),
    ]
}

/// What the metrics page asks for: nothing before a metric was chosen.
pub fn metrics_request(f: &MetricsFields, now: i64) -> (r: Option<String>)
    requires
        now >= i64::MIN + 3600,
    ensures
        match r {
            Some(url) => f.name@.len() > 0 && url@ == "/api/v1/metrics/query?"@ + join_spec(
                seq![param_text("name"@, f.name@)] + given(metrics_typed(*f, now as int)),
                "&"@,
            ),
            None => f.name@.len() == 0,
        },
{
    if f.name.is_empty() {
        return None;
    }
    let (from, to) = query_window(f.start, f.end, now);
    let ask = MetricsAsk {
        name: f.name,
        start: Some(from.as_str()),
        end: Some(to.as_str()),
        step: Some(f.step),
        filter: Some(f.filter),
        agg: Some(f.agg),
    };
    assert(metrics_params(ask) =~= metrics_typed(*f, now as int));
    Some(metrics_query_url(&ask))
}

/// What was typed into the logs page.
pub struct LogsFields<'a> {
    pub start: &'a str,
    pub end: &'a str,
    pub filter: &'a str,
    pub severity_min: &'a str,
    pub q: &'a str,
    pub limit: &'a str,
}

/// The limit that was typed, or a default where it is no number.
pub open spec fn limit_typed(limit: Seq<char>, default: u32) -> Seq<char> {
    decimal(
        match parse_int_spec(limit, false, 0, u32::MAX as int) {
            Some(n) => n,
            None => default as int,
        } as nat,
    )
}

/// The parameters of a query of logs.
pub open spec fn logs_typed(f: LogsFields, now: int) -> Seq<Param> {
    typed_window(f.start@, f.end@, now) + seq![
        ("filter"@, Some(f.filter@)),
        ("severity_min"@, Some(f.severity_min@)),
        ("q"@, Some(f.q@)),
        ("limit"@, Some(limit_typed(f.limit@, 100))),
        ("trace_id"@, None),
        ("span_id"@, None),
    ]
}

/// What the logs page asks for: a hundred records unless another limit was
/// typed.
pub fn logs_request(f: &LogsFields, now: i64) -> (url: String)
    requires
        now >= i64::MIN + 3600,
    ensures
        url@ == "/api/v1/logs/query?"@ + query_text(logs_typed(*f, now as int)),
{
    let (from, to) = query_window(f.start, f.end, now);
    let ask = LogsAsk {
        start: Some(from.as_str()),
        end: Some(to.as_str()),
        filter: Some(f.filter),
        severity_min: Some(f.severity_min),
        q: Some(f.q),
        limit: Some(limit_or(f.limit, 100)),
        trace_id: None,
        span_id: None,
    };
    assert(logs_params(ask) =~= logs_typed(*f, now as int));
    logs_query_url(&ask)
}

/// What was typed into the traces page.
pub struct TracesFields<'a> {
    pub service: &'a str,
    pub name: &'a str,
    pub status: &'a str,
    pub min_duration_ms: &'a str,
    pub max_duration_ms: &'a str,
    pub start: &'a str,
    pub end: &'a str,
    pub limit: &'a str,
}

/// The parameters of a query of traces.
pub open spec fn traces_typed(f: TracesFields, now: int) -> Seq<Param> {
    seq![
        ("service"@, Some(f.service@)),
        ("name"@, Some(f.name@)),
        ("status"@, Some(f.status@)),
        ("min_duration_ms"@, Some(f.min_duration_ms@)),
        ("max_duration_ms"@, Some(f.max_duration_ms@)),
    ] + typed_window(f.start@, f.end@, now) + seq![("limit"@, Some(limit_typed(f.limit@, 50)))]
}

/// What the traces page asks for: fifty traces unless another limit was typed.
pub fn traces_request(f: &TracesFields, now: i64) -> (url: String)
    requires
        now >= i64::MIN + 3600,
    ensures
        url@ == "/api/v1/traces/query?"@ + query_text(traces_typed(*f, now as int)),
{
    let (from, to) = query_window(f.start, f.end, now);
    let ask = TracesAsk {
        service: Some(f.service),
        name: Some(f.name),
        status: Some(f.status),
        min_duration_ms: Some(f.min_duration_ms),
        max_duration_ms: Some(f.max_duration_ms),
        start: Some(from.as_str()),
        end: Some(to.as_str()),
        limit: Some(limit_or(f.limit, 50)),
    };
    assert(traces_params(ask) =~= traces_typed(*f, now as int));
    traces_query_url(&ask)
}

/// The parameters of a panel, behind the name of its metric.
pub open spec fn panel_params(p: Panel, now: int) -> Seq<Param> {
    seq![
        ("start"@, Some(decimal_int(now - range_span(p.range@)))),
        ("end"@, Some(decimal_int(now))),
        ("step"@, None),
        ("filter"@, None),
        ("agg"@, Some(p.agg@)),
    ]
}

/// What a panel of a dashboard asks for.
pub fn panel_request(p: &Panel, now: i64) -> (url: String)
    requires
        now >= i64::MIN + 86400,
    ensures
        url@ == "/api/v1/metrics/query?"@ + join_spec(
            seq![param_text("name"@, p.metric@)] + given(panel_params(*p, now as int)),
            "&"@,
        ),
{
    let (from, to) = panel_window(p.range.as_str(), now);
    let ask = MetricsAsk {
        name: p.metric.as_str(),
        start: Some(from.as_str()),
        end: Some(to.as_str()),
        step: None,
        filter: None,
        agg: Some(p.agg.as_str()),
    };
    assert(metrics_params(ask) =~= panel_params(*p, now as int));
    metrics_query_url(&ask)
}

// ---------------------------------------------------------------------------
// Laws
// ---------------------------------------------------------------------------

/// The window that is asked for is the one that was typed, or the last hour where
/// no start was typed.
pub proof fn law_window_is_the_one_typed(start: Seq<char>, end: Seq<char>, now: int)
    ensures
        typed_window(start, end, now).len() == 2,
        start.len() > 0 ==> typed_window(start, end, now).contains(("start"@, Some(start))) && typed_window(
            start,
            end,
            now,
        ).contains(("end"@, Some(end))),
        start.len() == 0 ==> typed_window(start, end, now).contains(("start"@, Some(decimal_int(now - 60 * 60))))
            && typed_window(start, end, now).contains(("end"@, Some(decimal_int(now)))),
{
    let w = typed_window(start, end, now);
    assert(w[0] == ("start"@, Some(start_asked(start, now))) && w[1] == ("end"@, Some(end_asked(start, end, now))));
}

/// The metrics page asks for what was typed into it, each field under its key, and
/// for the window that was typed.
pub proof fn law_metrics_page_asks_what_was_typed(f: MetricsFields, now: int, p: Param)
    ensures
        metrics_typed(f, now).len() == 5,
        metrics_typed(f, now).contains(("step"@, Some(f.step@))),
        metrics_typed(f, now).contains(("filter"@, Some(f.filter@))),
        metrics_typed(f, now).contains(("agg"@, Some(f.agg@))),
        typed_window(f.start@, f.end@, now).contains(p) ==> metrics_typed(f, now).contains(p),
{
    let w = typed_window(f.start@, f.end@, now);
    let all = metrics_typed(f, now);
    assert(all[2] == ("step"@, Some(f.step@)) && all[3] == ("filter"@, Some(f.filter@)) && all[4] == (
        "agg"@,
        Some(f.agg@),
    ));
    if w.contains(p) {
        let i = choose|i: int| 0 <= i < w.len() && w[i] == p;
        assert(all[i] == p);
    }
}

/// The logs page asks for what was typed into it, each field under its key, for the
/// window that was typed, and for a hundred records where no limit was.
pub proof fn law_logs_page_asks_what_was_typed(f: LogsFields, now: int, p: Param)
    ensures
        logs_typed(f, now).len() == 8,
        logs_typed(f, now).contains(("filter"@, Some(f.filter@))),
        logs_typed(f, now).contains(("severity_min"@, Some(f.severity_min@))),
        logs_typed(f, now).contains(("q"@, Some(f.q@))),
        forall|n: u32| f.limit@ == #[trigger] decimal(n as nat) ==> logs_typed(f, now).contains(
            ("limit"@, Some(decimal(n as nat))),
        ),
        f.limit@.len() == 0 ==> logs_typed(f, now).contains(("limit"@, Some(decimal(100)))),
        typed_window(f.start@, f.end@, now).contains(p) ==> logs_typed(f, now).contains(p),
{
    let w = typed_window(f.start@, f.end@, now);
    let all = logs_typed(f, now);
    assert(all[2] == ("filter"@, Some(f.filter@)) && all[3] == ("severity_min"@, Some(f.severity_min@)));
    assert(all[4] == ("q"@, Some(f.q@)) && all[5] == ("limit"@, Some(limit_typed(f.limit@, 100))));
    assert forall|n: u32| f.limit@ == #[trigger] decimal(n as nat) implies all.contains(
        ("limit"@, Some(decimal(n as nat))),
    ) by {
        lemma_limit_typed(n, 100);
    }
    if w.contains(p) {
        let i = choose|i: int| 0 <= i < w.len() && w[i] == p;
        assert(all[i] == p);
    }
}

proof fn lemma_limit_typed(n: u32, default: u32)
    ensures
        limit_typed(decimal(n as nat), default) == decimal(n as nat),
{
    law_integers_read_back(n as int, false, 0, u32::MAX as int);
}

/// The traces page asks for what was typed into it, each field under its key, for
/// the window that was typed, and for fifty traces where no limit was.
pub proof fn law_traces_page_asks_what_was_typed(f: TracesFields, now: int, p: Param)
    ensures
        traces_typed(f, now).len() == 8,
        traces_typed(f, now).contains(("service"@, Some(f.service@))),
        traces_typed(f, now).contains(("name"@, Some(f.name@))),
        traces_typed(f, now).contains(("status"@, Some(f.status@))),
        traces_typed(f, now).contains(("min_duration_ms"@, Some(f.min_duration_ms@))),
        traces_typed(f, now).contains(("max_duration_ms"@, Some(f.max_duration_ms@))),
        forall|n: u32| f.limit@ == #[trigger] decimal(n as nat) ==> traces_typed(f, now).contains(
            ("limit"@, Some(decimal(n as nat))),
        ),
        f.limit@.len() == 0 ==> traces_typed(f, now).contains(("limit"@, Some(decimal(50)))),
        typed_window(f.start@, f.end@, now).contains(p) ==> traces_typed(f, now).contains(p),
{
    let w = typed_window(f.start@, f.end@, now);
    let all = traces_typed(f, now);
    assert(all[0] == ("service"@, Some(f.service@)) && all[1] == ("name"@, Some(f.name@)));
    assert(all[2] == ("status"@, Some(f.status@)) && all[3] == ("min_duration_ms"@, Some(f.min_duration_ms@)));
    assert(all[4] == ("max_duration_ms"@, Some(f.max_duration_ms@)));
    assert(all[7] == ("limit"@, Some(limit_typed(f.limit@, 50))));
    assert forall|n: u32| f.limit@ == #[trigger] decimal(n as nat) implies all.contains(
        ("limit"@, Some(decimal(n as nat))),
    ) by {
        lemma_limit_typed(n, 50);
    }
    if w.contains(p) {
        let i = choose|i: int| 0 <= i < w.len() && w[i] == p;
        assert(all[5 + i] == p);
    }
}

/// A panel asks for its aggregation over its range, back from now.
pub proof fn law_panel_asks_for_its_range(p: Panel, now: int)
    ensures
        panel_params(p, now).len() == 5,
        panel_params(p, now).contains(("start"@, Some(decimal_int(now - range_span(p.range@))))),
        panel_params(p, now).contains(("end"@, Some(decimal_int(now)))),
        panel_params(p, now).contains(("agg"@, Some(p.agg@))),
        forall|key: Seq<char>, v: Seq<char>| #[trigger]
            panel_params(p, now).contains((key, Some(v))) ==> key == "start"@ || key == "end"@ || key == "agg"@,
{
    let all = panel_params(p, now);
    assert(all[0] == ("start"@, Some(decimal_int(now - range_span(p.range@)))));
    assert(all[1] == ("end"@, Some(decimal_int(now))) && all[4] == ("agg"@, Some(p.agg@)));
}

} // verus!
