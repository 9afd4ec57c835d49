//! Evaluating alert rules: what a rule asks of the store, whether its condition
//! holds, and the state that follows.
//!
//! ```text
//! ok ──(holds)──> pending ──(holds, for long enough)──> firing
//!                    │                                    │
//!               (does not)                           (does not)
//!                    └─────────────> ok <─────────────────┘
//! ```
//!
//! A rule that is to fire at once skips the pending state. Notifications go out
//! when a rule starts to fire and when it stops.

use vstd::prelude::*;

use opentelemetry_proto::tonic::common::v1::any_value::Value as AnyKind;

use crate::alerts::rules::{create_fault, is_kind, str_or, text_or, CreateRuleRequest};
use crate::double::{
    double_bits, double_fixed, double_json, double_of, double_to_json, fixed_double, number_double, number_value, opt_double,
    parsed_double, zero,
};
use crate::float::{
    double_le, double_lt, int_double, int_double_bits, is_nan, law_doubles_keep_the_order, le, lt, FRACTION_END,
};
use crate::json::{
    int_member, lemma_lookup_at, lemma_object_view, member, member_views, opt_json, text_member, Json, JsonNumber,
    JsonView, NumberView,
};
use crate::query::filter::{
    asks_for, can_be_written, filter_of, filter_text, law_filter_can_be_looked_up, parse_filter_text, wanted, Pair,
};
use crate::query::metrics::{is_agg, upper_name};
use crate::text::{decimal_int, opt_text, push_int, str_eq};
use crate::time::{elapsed_seconds, rfc3339_text, seconds_between, to_rfc3339, Timestamp};

verus! {

// ---------------------------------------------------------------------------
// Conditions
// ---------------------------------------------------------------------------

/// The value compares to the threshold as the comparator says. Nothing compares
/// under an unknown comparator, nor with what is not a number.
pub open spec fn compares(value: u64, threshold: u64, comparator: Seq<char>) -> bool {
    if comparator == "gt"@ {
        double_lt(threshold, value)
    } else if comparator == "lt"@ {
        double_lt(value, threshold)
    } else if comparator == "gte"@ {
        double_le(threshold, value)
    } else if comparator == "lte"@ {
        double_le(value, threshold)
    } else {
        false
    }
}

/// Whether the value compares to the threshold as the comparator says. Both are
/// the bits of doubles.
pub fn compare(value: u64, threshold: u64, comparator: &str) -> (r: bool)
    ensures
        r == compares(value, threshold, comparator@),
{
    if str_eq(comparator, "gt") {
        lt(threshold, value)
    } else if str_eq(comparator, "lt") {
        lt(value, threshold)
    } else if str_eq(comparator, "gte") {
        le(threshold, value)
    } else if str_eq(comparator, "lte") {
        le(value, threshold)
    } else {
        false
    }
}

/// The threshold of a rule: zero where it has none.
pub open spec fn threshold_of(cfg: JsonView) -> u64 {
    match member(cfg, "threshold"@) {
        Some(JsonView::Number(n)) => match number_double(n) {
            Some(bits) => bits,
            None => 0,
        },
        _ => 0,
    }
}

/// The threshold of a rule.
pub fn threshold(cfg: &Json) -> (v: AnyKind)
    ensures
        double_of(v) == Some(threshold_of(cfg@)),
{
    if let Some(Json::Number(n)) = cfg.get("threshold") {
        if let Some(v) = number_value(n) {
            return v;
        }
    }
    zero()
}

// ---------------------------------------------------------------------------
// Metric rules
// ---------------------------------------------------------------------------

/// What a metric rule asks of the store.
pub struct MetricEval {
    pub metric_name: String,
    pub agg: String,
    pub window_secs: i64,
    pub comparator: String,
    /// The bits of the threshold.
    pub threshold: u64,
    /// The attributes asked for, if any are.
    pub filter: Option<Json>,
}

/// The window of a rule: five minutes where it has none.
pub open spec fn window_of(cfg: JsonView) -> int {
    match int_member(cfg, "window_secs"@) {
        Some(n) => n,
        None => 300,
    }
}

/// The text of a member, if it is not empty.
pub open spec fn nonempty_member(cfg: JsonView, key: Seq<char>) -> Option<Seq<char>> {
    match text_member(cfg, key) {
        Some(s) => if s.len() == 0 {
            None
        } else {
            Some(s)
        },
        None => None,
    }
}

/// The attributes that a metric rule asks for. A filter that cannot be read
/// asks for none in particular.
pub open spec fn metric_filter(cfg: JsonView) -> Option<JsonView> {
    match nonempty_member(cfg, "filter"@) {
        Some(s) => match filter_of(s) {
            Some(f) => Some(f),
            None => Some(JsonView::Object(Seq::empty())),
        },
        None => None,
    }
}

fn nonempty_str<'a>(cfg: &'a Json, key: &str) -> (r: Option<&'a str>)
    ensures
        match r {
            Some(s) => nonempty_member(cfg@, key@) == Some(s@),
            None => nonempty_member(cfg@, key@) is None,
        },
{
    match cfg.get_str(key) {
        Some(s) => if s.is_empty() {
            None
        } else {
            Some(s)
        },
        None => None,
    }
}

/// What a metric rule of this configuration asks of the store.
pub open spec fn is_metric_eval(e: MetricEval, cfg: JsonView) -> bool {
    &&& cfg is Object
    &&& text_member(cfg, "metric_name"@) == Some(e.metric_name@)
    &&& e.agg@ == text_or(cfg, "agg"@, "avg"@)
    &&& e.window_secs == window_of(cfg)
    &&& e.comparator@ == text_or(cfg, "comparator"@, "gt"@)
    &&& e.threshold == threshold_of(cfg)
    &&& opt_json(e.filter) == metric_filter(cfg)
}

/// Why a metric rule of this configuration cannot be evaluated.
pub open spec fn is_metric_refusal(m: Seq<char>, cfg: JsonView) -> bool {
    if cfg is Object {
        text_member(cfg, "metric_name"@) is None && m == "metric_name missing"@
    } else {
        m == "config not an object"@
    }
}

/// What a metric rule asks of the store, or why it cannot be evaluated.
pub fn read_metric_config(cfg: &Json) -> (r: Result<MetricEval, &'static str>)
    ensures
        match r {
            Ok(e) => is_metric_eval(e, cfg@),
            Err(m) => is_metric_refusal(m@, cfg@),
        },
{
    match cfg {
        Json::Object(_) => {},
        _ => {
            return Err("config not an object");
        },
    }
    let metric_name = match cfg.get_str("metric_name") {
        Some(s) => s.to_owned(),
        None => {
            return Err("metric_name missing");
        },
    };
    let window_secs: i64 = match cfg.get_i64("window_secs") {
        Some(n) => n,
        None => 300,
    };
    let filter = match nonempty_str(cfg, "filter") {
        Some(s) => match parse_filter_text(s) {
            Some(f) => Some(f),
            None => {
                let members: Vec<(String, Json)> = Vec::new();
                proof {
                    lemma_object_view(members);
                    assert(member_views(members@) =~= Seq::empty());
                }
                Some(Json::Object(members))
            },
        },
        None => None,
    };
    Ok(
        MetricEval {
            metric_name,
            agg: str_or(cfg, "agg", "avg").to_owned(),
            window_secs,
            comparator: str_or(cfg, "comparator", "gt").to_owned(),
            threshold: double_bits(&threshold(cfg)),
            filter,
        },
    )
}

/// The SQL expression of an aggregation: that of the average where there is
/// none of that name.
pub open spec fn value_expr(agg: Seq<char>) -> Seq<char> {
    if agg == "sum"@ {
        "SUM(value)"@
    } else if agg == "min"@ {
        "MIN(value)"@
    } else if agg == "max"@ {
        "MAX(value)"@
    } else if agg == "count"@ {
        "COUNT(value)"@
    } else {
        "AVG(value)"@
    }
}

/// The statement that aggregates the points of a metric over the window, to a
/// double.
pub fn metric_sql(agg: &str) -> (s: String)
    ensures
        s@ == "SELECT "@ + value_expr(agg@)
            + "::float8 FROM soma_observe.metric_point WHERE series_id = ANY($1::bigint[]) AND ts >= now() - make_interval(secs => $2::float8) AND ts < now()"@,
{
    let expr = if str_eq(agg, "sum") {
        "SUM(value)"
    } else if str_eq(agg, "min") {
        "MIN(value)"
    } else if str_eq(agg, "max") {
        "MAX(value)"
    } else if str_eq(agg, "count") {
        "COUNT(value)"
    } else {
        "AVG(value)"
    };
    let mut s = "SELECT ".to_owned();
    s.push_str(expr);
    s.push_str(
        "::float8 FROM soma_observe.metric_point WHERE series_id = ANY($1::bigint[]) AND ts >= now() - make_interval(secs => $2::float8) AND ts < now()",
    );
    s
}

/// What came of evaluating a rule.
pub struct Outcome {
    /// The value, a double, if there is one.
    pub value: Option<AnyKind>,
    pub holds: bool,
    pub message: Option<String>,
}

/// What the store has for a metric rule.
pub enum MetricAnswer {
    /// No series of that name has the attributes.
    NoSeries,
    /// There are series, but no points of theirs in the window.
    NoPoints,
    /// The aggregate, a double.
    Value { value: AnyKind },
}

/// The message of an evaluated metric rule, given its value as text.
pub open spec fn metric_message(agg: Seq<char>, metric_name: Seq<char>, value: Seq<char>, window_secs: int) -> Seq<char> {
    agg + "("@ + metric_name + ") = "@ + value + " over "@ + decimal_int(window_secs) + "s"@
}

/// What comes of evaluating a metric rule, given what the store has for it.
pub open spec fn is_metric_outcome(r: Outcome, e: MetricEval, answer: MetricAnswer) -> bool {
    match answer {
        MetricAnswer::NoSeries => r.value is None && !r.holds && opt_text(r.message) == Some(
            "no matching series found"@,
        ),
        MetricAnswer::NoPoints => r.value is None && !r.holds && r.message is None,
        MetricAnswer::Value { value } => r.value == Some(value) && r.holds == compares(
            double_of(value)->0,
            e.threshold,
            e.comparator@,
        ) && opt_text(r.message) == Some(
            metric_message(e.agg@, e.metric_name@, double_fixed(double_of(value)->0), e.window_secs as int),
        ),
    }
}

/// What comes of evaluating a metric rule, given what the store has for it.
pub fn metric_outcome(e: &MetricEval, answer: MetricAnswer) -> (r: Outcome)
    requires
        answer matches MetricAnswer::Value { value } ==> double_of(value) is Some,
    ensures
        is_metric_outcome(r, *e, answer),
{
    match answer {
        MetricAnswer::NoSeries => Outcome {
            value: None,
            holds: false,
            message: Some("no matching series found".to_owned()),
        },
        MetricAnswer::NoPoints => Outcome { value: None, holds: false, message: None },
        MetricAnswer::Value { value } => {
            let mut s = e.agg.clone();
            s.push_str("(");
            s.push_str(e.metric_name.as_str());
            s.push_str(") = ");
            s.push_str(fixed_double(&value).as_str());
            s.push_str(" over ");
            push_int(&mut s, e.window_secs);
            s.push_str("s");
            let holds: bool = compare(double_bits(&value), e.threshold, e.comparator.as_str());
            Outcome { value: Some(value), holds, message: Some(s) }
        },
    }
}

// ---------------------------------------------------------------------------
// Log rules
// ---------------------------------------------------------------------------

/// What a log rule asks of the store.
pub struct LogEval {
    pub window_secs: i64,
    pub comparator: String,
    /// The bits of the threshold.
    pub threshold: u64,
    pub severity_min: Option<i32>,
    pub q: Option<String>,
    /// The attributes asked for, if any are.
    pub filter: Option<Json>,
}

/// The low 32 bits of an integer, read as a signed number.
pub open spec fn low_bits(n: int) -> int {
    let m = n % 0x1_0000_0000;
    if m < 0x8000_0000 {
        m
    } else {
        m - 0x1_0000_0000
    }
}

fn to_i32(n: i64) -> (r: i32)
    ensures
        r == low_bits(n as int),
{
    let t: i64 = n % 0x1_0000_0000;
    let m: i64 = if t < 0 {
        t + 0x1_0000_0000
    } else {
        t
    };
    proof {
        assert(m == n as int % 0x1_0000_0000);
    }
    if m < 0x8000_0000 {
        m as i32
    } else {
        (m - 0x1_0000_0000) as i32
    }
}

/// The attributes that a log rule asks for. A filter that cannot be read asks
/// for none.
pub open spec fn log_filter(cfg: JsonView) -> Option<JsonView> {
    match nonempty_member(cfg, "filter"@) {
        Some(s) => filter_of(s),
        None => None,
    }
}

/// What a log rule of this configuration asks of the store.
pub open spec fn is_log_eval(e: LogEval, cfg: JsonView) -> bool {
    &&& cfg is Object
    &&& e.window_secs == window_of(cfg)
    &&& e.comparator@ == text_or(cfg, "comparator"@, "gt"@)
    &&& e.threshold == threshold_of(cfg)
    &&& (match int_member(cfg, "severity_min"@) {
        Some(n) => e.severity_min == Some(low_bits(n) as i32),
        None => e.severity_min is None,
    })
    &&& opt_text(e.q) == nonempty_member(cfg, "q"@)
    &&& opt_json(e.filter) == log_filter(cfg)
}

/// Why a log rule of this configuration cannot be evaluated.
pub open spec fn is_log_refusal(m: Seq<char>, cfg: JsonView) -> bool {
    !(cfg is Object) && m == "config not an object"@
}

/// What a log rule asks of the store, or why it cannot be evaluated.
pub fn read_log_config(cfg: &Json) -> (r: Result<LogEval, &'static str>)
    ensures
        match r {
            Ok(e) => is_log_eval(e, cfg@),
            Err(m) => is_log_refusal(m@, cfg@),
        },
{
    match cfg {
        Json::Object(_) => {},
        _ => {
            return Err("config not an object");
        },
    }
    let window_secs: i64 = match cfg.get_i64("window_secs") {
        Some(n) => n,
        None => 300,
    };
    let severity_min: Option<i32> = match cfg.get_i64("severity_min") {
        Some(n) => Some(to_i32(n)),
        None => None,
    };
    let q: Option<String> = match nonempty_str(cfg, "q") {
        Some(s) => Some(s.to_owned()),
        None => None,
    };
    let filter = match nonempty_str(cfg, "filter") {
        Some(s) => parse_filter_text(s),
        None => None,
    };
    Ok(
        LogEval {
            window_secs,
            comparator: str_or(cfg, "comparator", "gt").to_owned(),
            threshold: double_bits(&threshold(cfg)),
            severity_min,
            q,
            filter,
        },
    )
}

/// What comes of evaluating a log rule, given the number of records that match.
pub open spec fn is_log_outcome(r: Outcome, e: LogEval, count: i64) -> bool {
    &&& opt_double(r.value) == Some(int_double(count as int) as u64)
    &&& r.holds == compares(int_double(count as int) as u64, e.threshold, e.comparator@)
    &&& opt_text(r.message) == Some(
        "log count = "@ + decimal_int(count as int) + " over "@ + decimal_int(e.window_secs as int) + "s"@,
    )
}

/// What comes of evaluating a log rule, given the number of records that match.
pub fn log_outcome(e: &LogEval, count: i64) -> (r: Outcome)
    ensures
        is_log_outcome(r, *e, count),
{
    let mut s = "log count = ".to_owned();
    push_int(&mut s, count);
    s.push_str(" over ");
    push_int(&mut s, e.window_secs);
    s.push_str("s");
    let n = if count >= 0 {
        JsonNumber::PosInt(count as u64)
    } else {
        JsonNumber::NegInt(count)
    };
    let value = number_value(&n);
    let holds: bool = compare(int_double_bits(count), e.threshold, e.comparator.as_str());
    Outcome { value, holds, message: Some(s) }
}

/// What a rule asks of the store.
pub enum Question {
    Metric(MetricEval),
    Log(LogEval),
    /// The rule is of no known kind, and is not evaluated.
    Nothing,
}

/// What a rule asks of the store, or why it cannot be evaluated.
pub fn read_rule(kind: &str, cfg: &Json) -> (r: Result<Question, &'static str>)
    ensures
        kind@ == "metric"@ ==> match r {
            Ok(q) => q matches Question::Metric(e) && is_metric_eval(e, cfg@),
            Err(m) => is_metric_refusal(m@, cfg@),
        },
        kind@ == "log"@ ==> match r {
            Ok(q) => q matches Question::Log(e) && is_log_eval(e, cfg@),
            Err(m) => is_log_refusal(m@, cfg@),
        },
        kind@ != "metric"@ && kind@ != "log"@ ==> r == Ok::<Question, &'static str>(Question::Nothing),
{
    proof {
        reveal_strlit("metric");
        reveal_strlit("log");
        assert("metric"@.len() == 6 && "log"@.len() == 3);
    }
    if str_eq(kind, "metric") {
        match read_metric_config(cfg) {
            Ok(e) => Ok(Question::Metric(e)),
            Err(m) => Err(m),
        }
    } else if str_eq(kind, "log") {
        match read_log_config(cfg) {
            Ok(e) => Ok(Question::Log(e)),
            Err(m) => Err(m),
        }
    } else {
        Ok(Question::Nothing)
    }
}

// ---------------------------------------------------------------------------
// States
// ---------------------------------------------------------------------------

/// A state of a rule, and since when the rule is in it.
pub struct Standing<'a> {
    pub state: &'a str,
    pub since: Timestamp,
}

/// What follows from an evaluation.
pub struct Transition {
    pub state: &'static str,
    pub since: Timestamp,
    /// What to tell the webhook: `firing` or `resolved`.
    pub notify: Option<&'static str>,
}

/// A state by name, with its start.
pub type StandingView = (Seq<char>, Timestamp);

pub open spec fn standing_view(s: Option<Standing>) -> Option<StandingView> {
    match s {
        Some(s) => Some((s.state@, s.since)),
        None => None,
    }
}

/// The state before: that of a rule never evaluated is `ok`.
pub open spec fn prev_state(prev: Option<StandingView>) -> Seq<char> {
    match prev {
        Some(p) => p.0,
        None => "ok"@,
    }
}

/// The state after an evaluation.
pub open spec fn next_state(prev: Option<StandingView>, holds: bool, for_secs: i32, now: Timestamp) -> Seq<char> {
    let was = prev_state(prev);
    if !holds {
        "ok"@
    } else if was == "ok"@ {
        if for_secs == 0 {
            "firing"@
        } else {
            "pending"@
        }
    } else if was == "pending"@ {
        let since = match prev {
            Some(p) => p.1,
            None => now,
        };
        if seconds_between(since, now) >= for_secs {
            "firing"@
        } else {
            "pending"@
        }
    } else if was == "firing"@ {
        "firing"@
    } else {
        "ok"@
    }
}

/// Since when the rule is in its state: since now, unless it stays in it.
pub open spec fn next_since(prev: Option<StandingView>, holds: bool, for_secs: i32, now: Timestamp) -> Timestamp {
    match prev {
        Some(p) => if next_state(prev, holds, for_secs, now) == p.0 {
            p.1
        } else {
            now
        },
        None => now,
    }
}

/// What the webhook is told: that the rule starts to fire, or that it stops.
pub open spec fn notification(was: Seq<char>, is: Seq<char>) -> Option<Seq<char>> {
    if is == "firing"@ && was != "firing"@ {
        Some("firing"@)
    } else if was == "firing"@ && is == "ok"@ {
        Some("resolved"@)
    } else {
        None
    }
}

proof fn lemma_state_names()
    ensures
        "ok"@ != "pending"@,
        "ok"@ != "firing"@,
        "pending"@ != "firing"@,
{
    reveal_strlit("ok");
    reveal_strlit("pending");
    reveal_strlit("firing");
    assert("ok"@.len() == 2 && "pending"@.len() == 7 && "firing"@.len() == 6);
}

/// What follows when a rule is evaluated at `now`.
pub fn evaluate(prev: Option<Standing>, holds: bool, for_secs: i32, now: Timestamp) -> (r: Transition)
    requires
        now.valid(),
        prev matches Some(p) ==> p.since.valid(),
    ensures
        r.state@ == next_state(standing_view(prev), holds, for_secs, now),
        r.since == next_since(standing_view(prev), holds, for_secs, now),
        (match r.notify {
            Some(n) => notification(prev_state(standing_view(prev)), r.state@) == Some(n@),
            None => notification(prev_state(standing_view(prev)), r.state@) is None,
        }),
{
    proof {
        lemma_state_names();
    }
    let (was, began) = match &prev {
        Some(p) => (p.state, p.since),
        None => ("ok", now),
    };
    let state: &'static str = if !holds {
        "ok"
    } else if str_eq(was, "ok") {
        if for_secs == 0 {
            "firing"
        } else {
            "pending"
        }
    } else if str_eq(was, "pending") {
        if elapsed_seconds(began, now) >= for_secs as i64 {
            "firing"
        } else {
            "pending"
        }
    } else if str_eq(was, "firing") {
        "firing"
    } else {
        "ok"
    };
    let since = if str_eq(state, was) {
        began
    } else {
        now
    };
    let fires: bool = str_eq(state, "firing");
    let fired: bool = str_eq(was, "firing");
    let notify: Option<&'static str> = if fires && !fired {
        Some("firing")
    } else if fired && str_eq(state, "ok") {
        Some("resolved")
    } else {
        None
    };
    Transition { state, since, notify }
}

// ---------------------------------------------------------------------------
// Notifications
// ---------------------------------------------------------------------------

/// A text in upper case, as the standard library has it.
pub uninterp spec fn uppercase(s: Seq<char>) -> Seq<char>;

/// `str::to_uppercase` of the standard library.
#[verifier::external_body]
fn to_upper(s: &str) -> (r: String)
    ensures
        r@ == uppercase(s@),
{
    s.to_uppercase()
}

/// The summary of a notification, given the severity in upper case and the
/// value and the threshold as texts.
pub open spec fn summary(
    severity_upper: Seq<char>,
    name: Seq<char>,
    state: Seq<char>,
    value: Seq<char>,
    threshold: Seq<char>,
) -> Seq<char> {
    "["@ + severity_upper + "] "@ + name + " "@ + state + ": value "@ + value + " "@ + (if state == "firing"@ {
        "exceeds/triggers"@
    } else {
        "no longer triggers"@
    }) + " threshold "@ + threshold
}

/// The summary of a notification.
pub fn summary_text(severity_upper: &str, name: &str, state: &str, value: &str, threshold: &str) -> (s: String)
    ensures
        s@ == summary(severity_upper@, name@, state@, value@, threshold@),
{
    let mut s = "[".to_owned();
    s.push_str(severity_upper);
    s.push_str("] ");
    s.push_str(name);
    s.push_str(" ");
    s.push_str(state);
    s.push_str(": value ");
    s.push_str(value);
    s.push_str(" ");
    if str_eq(state, "firing") {
        s.push_str("exceeds/triggers");
    } else {
        s.push_str("no longer triggers");
    }
    s.push_str(" threshold ");
    s.push_str(threshold);
    s
}

/// What a notification is about.
pub struct Notice<'a> {
    pub rule: &'a str,
    pub severity: &'a str,
    /// `firing` or `resolved`.
    pub state: &'a str,
    pub kind: &'a str,
    /// The value, a double, if there is one.
    pub value: Option<AnyKind>,
    pub config: &'a Json,
    pub at: Timestamp,
}

/// The payload of a notification: a summary for chat systems, and the parts of
/// it for others. In the summary a value that is missing stands as zero.
pub open spec fn payload(n: Notice) -> JsonView {
    let value = opt_double(n.value);
    let threshold = threshold_of(n.config@);
    let shown = match value {
        Some(v) => v,
        None => 0u64,
    };
    JsonView::Object(
        seq![
            (
                "text"@,
                JsonView::Str(
                    summary(uppercase(n.severity@), n.rule@, n.state@, double_fixed(shown), double_fixed(threshold)),
                ),
            ),
            ("rule"@, JsonView::Str(n.rule@)),
            ("severity"@, JsonView::Str(n.severity@)),
            ("state"@, JsonView::Str(n.state@)),
            (
                "value"@,
                match value {
                    Some(v) => double_json(v),
                    None => JsonView::Null,
                },
            ),
            ("threshold"@, double_json(threshold)),
            ("kind"@, JsonView::Str(n.kind@)),
            ("timestamp"@, JsonView::Str(rfc3339_text(n.at.secs as int, n.at.nanos as int))),
        ],
    )
}

/// The payload of a notification.
pub fn webhook_payload(n: &Notice) -> (r: Json)
    requires
        n.at.valid(),
        n.value matches Some(v) ==> double_of(v) is Some,
    ensures
        r@ == payload(*n),
{
    let limit = threshold(n.config);
    let (shown, value) = match &n.value {
        Some(v) => (fixed_double(v), double_to_json(v)),
        None => (fixed_double(&zero()), Json::Null),
    };
    let upper = to_upper(n.severity);
    let text = summary_text(upper.as_str(), n.rule, n.state, shown.as_str(), fixed_double(&limit).as_str());
    let ghost want = payload(*n)->Object_0;
    let mut members: Vec<(String, Json)> = Vec::new();
    members.push(("text".to_owned(), Json::Str(text)));
    members.push(("rule".to_owned(), Json::Str(n.rule.to_owned())));
    members.push(("severity".to_owned(), Json::Str(n.severity.to_owned())));
    members.push(("state".to_owned(), Json::Str(n.state.to_owned())));
    members.push(("value".to_owned(), value));
    members.push(("threshold".to_owned(), double_to_json(&limit)));
    members.push(("kind".to_owned(), Json::Str(n.kind.to_owned())));
    members.push(("timestamp".to_owned(), Json::Str(to_rfc3339(n.at))));
    proof {
        lemma_object_view(members);
        assert(member_views(members@) =~= want);
    }
    Json::Object(members)
}

// ---------------------------------------------------------------------------
// Laws
// ---------------------------------------------------------------------------

/// A rule whose condition does not hold is `ok`, whatever it was.
pub proof fn law_false_condition_clears(prev: Option<StandingView>, for_secs: i32, now: Timestamp)
    ensures
        next_state(prev, false, for_secs, now) == "ok"@,
{
}

/// The state after an evaluation is one of three.
pub proof fn law_three_states(prev: Option<StandingView>, holds: bool, for_secs: i32, now: Timestamp)
    ensures
        ({
            let s = next_state(prev, holds, for_secs, now);
            s == "ok"@ || s == "pending"@ || s == "firing"@
        }),
{
}

/// The webhook hears exactly of the rule starting and ceasing to fire.
pub proof fn law_notified_on_change_only(prev: Option<StandingView>, holds: bool, for_secs: i32, now: Timestamp)
    ensures
        ({
            let was = prev_state(prev);
            let is = next_state(prev, holds, for_secs, now);
            &&& notification(was, is) is Some <==> (was == "firing"@) != (is == "firing"@)
            &&& notification(was, is) == Some("firing"@) <==> was != "firing"@ && is == "firing"@
            &&& notification(was, is) == Some("resolved"@) <==> was == "firing"@ && is == "ok"@
        }),
{
    lemma_state_names();
    reveal_strlit("resolved");
    reveal_strlit("firing");
    assert("resolved"@.len() == 8 && "firing"@.len() == 6);
}

/// A rule that goes on firing is not announced again.
pub proof fn law_no_repeated_notification(prev: StandingView, holds: bool, for_secs: i32, now: Timestamp)
    requires
        prev.0 == "firing"@,
        holds,
    ensures
        next_state(Some(prev), holds, for_secs, now) == "firing"@,
        notification(prev.0, next_state(Some(prev), holds, for_secs, now)) is None,
        next_since(Some(prev), holds, for_secs, now) == prev.1,
{
    lemma_state_names();
}

/// The start of a state stays as long as the state does, and is the present
/// when the state changes.
pub proof fn law_since_marks_the_change(prev: StandingView, holds: bool, for_secs: i32, now: Timestamp)
    ensures
        next_state(Some(prev), holds, for_secs, now) == prev.0 ==> next_since(Some(prev), holds, for_secs, now)
            == prev.1,
        next_state(Some(prev), holds, for_secs, now) != prev.0 ==> next_since(Some(prev), holds, for_secs, now) == now,
{
}

/// A rule fires only while its condition holds: at once if it may, or after it
/// was pending for as long as it asks.
pub proof fn law_fires_only_when_due(prev: Option<StandingView>, holds: bool, for_secs: i32, now: Timestamp)
    requires
        next_state(prev, holds, for_secs, now) == "firing"@,
        prev_state(prev) != "firing"@,
    ensures
        holds,
        (prev_state(prev) == "ok"@ && for_secs == 0) || (prev_state(prev) == "pending"@ && prev is Some
            && seconds_between((prev->0).1, now) >= for_secs),
{
    lemma_state_names();
}

/// What is not a number compares to nothing, and nothing compares to it.
pub proof fn law_not_a_number_never_compares(value: u64, threshold: u64, comparator: Seq<char>)
    requires
        is_nan(value) || is_nan(threshold),
    ensures
        !compares(value, threshold, comparator),
{
}

/// An evaluation of a rule: whether the condition holds, and when it was looked
/// at.
pub type Evaluation = (bool, Timestamp);

/// The state after evaluations, one after the other.
pub open spec fn standing_after(prev: Option<StandingView>, steps: Seq<Evaluation>, for_secs: i32) -> Option<
    StandingView,
>
    decreases steps.len(),
{
    if steps.len() == 0 {
        prev
    } else {
        let before = standing_after(prev, steps.drop_last(), for_secs);
        let (holds, now) = steps.last();
        Some((next_state(before, holds, for_secs, now), next_since(before, holds, for_secs, now)))
    }
}

/// How often the webhook is told something in the course of evaluations.
pub open spec fn notices(prev: Option<StandingView>, steps: Seq<Evaluation>, for_secs: i32, what: Seq<char>) -> int
    decreases steps.len(),
{
    if steps.len() == 0 {
        0
    } else {
        let was = prev_state(standing_after(prev, steps.drop_last(), for_secs));
        let is = prev_state(standing_after(prev, steps, for_secs));
        notices(prev, steps.drop_last(), for_secs, what) + if notification(was, is) == Some(what) {
            1int
        } else {
            0int
        }
    }
}

/// One for a rule that fires.
pub open spec fn firing_count(state: Seq<char>) -> int {
    if state == "firing"@ {
        1
    } else {
        0
    }
}

/// The webhook hears of each firing once, and of its end once: it heard of one
/// firing more than of ends exactly while the rule fires.
pub proof fn law_firings_and_ends_alternate(prev: Option<StandingView>, steps: Seq<Evaluation>, for_secs: i32)
    ensures
        notices(prev, steps, for_secs, "firing"@) - notices(prev, steps, for_secs, "resolved"@) == firing_count(
            prev_state(standing_after(prev, steps, for_secs)),
        ) - firing_count(prev_state(prev)),
    decreases steps.len(),
{
    if steps.len() > 0 {
        law_firings_and_ends_alternate(prev, steps.drop_last(), for_secs);
        let (holds, now) = steps.last();
        law_notified_on_change_only(standing_after(prev, steps.drop_last(), for_secs), holds, for_secs, now);
        law_three_states(standing_after(prev, steps.drop_last(), for_secs), holds, for_secs, now);
        lemma_state_names();
    }
}

/// Where the condition holds at every evaluation, a rule that is to wait is
/// pending since the first of them, and fires from the one on at which it has
/// held for long enough.
pub proof fn law_holding_condition_fires_in_time(prev: Option<StandingView>, steps: Seq<Evaluation>, for_secs: i32)
    requires
        steps.len() > 0,
        for_secs != 0,
        prev_state(prev) == "ok"@,
        forall|k: int| 0 <= k < steps.len() ==> (#[trigger] steps[k]).0,
    ensures
        ({
            let s = standing_after(prev, steps, for_secs);
            &&& s is Some
            &&& (s->0).0 == "pending"@ || (s->0).0 == "firing"@
            &&& (s->0).0 == "pending"@ ==> (s->0).1 == steps[0].1
            &&& (s->0).0 == "firing"@ <==> exists|k: int|
                0 < k < steps.len() && seconds_between(steps[0].1, (#[trigger] steps[k]).1) >= for_secs
        }),
    decreases steps.len(),
{
    lemma_state_names();
    let before = steps.drop_last();
    let n = steps.len() - 1;
    assert(steps.last() == steps[n]);
    if n > 0 {
        assert forall|k: int| 0 <= k < before.len() implies (#[trigger] before[k]).0 by {
            assert(before[k] == steps[k]);
        }
        law_holding_condition_fires_in_time(prev, before, for_secs);
        assert(before[0] == steps[0]);
        let was = standing_after(prev, before, for_secs);
        if (was->0).0 == "firing"@ {
            let k = choose|k: int|
                0 < k < before.len() && seconds_between(before[0].1, (#[trigger] before[k]).1) >= for_secs;
            assert(before[k] == steps[k]);
        } else if exists|k: int| 0 < k < n && seconds_between(steps[0].1, (#[trigger] steps[k]).1) >= for_secs {
            let k = choose|k: int| 0 < k < n && seconds_between(steps[0].1, (#[trigger] steps[k]).1) >= for_secs;
            assert(before[k] == steps[k]);
        }
    } else {
        assert(before =~= Seq::empty());
    }
}

/// A rule that is taken can be evaluated: its kind is known, and nothing in its
/// configuration is refused.
pub proof fn law_taken_rules_can_be_evaluated(req: CreateRuleRequest, m: Seq<char>)
    requires
        create_fault(req) is None,
    ensures
        is_kind(req.kind@),
        req.kind@ == "metric"@ ==> !is_metric_refusal(m, req.config@),
        req.kind@ == "log"@ ==> !is_log_refusal(m, req.config@),
{
    reveal_strlit("metric");
    reveal_strlit("log");
    assert("metric"@.len() == 6 && "log"@.len() == 3);
}

/// What a rule waits for: the comparator and the threshold of its configuration,
/// over its window. Left out, they are `gt`, zero and five minutes.
pub open spec fn waits_for(window_secs: i64, comparator: Seq<char>, threshold: u64, cfg: JsonView) -> bool {
    &&& member(cfg, "window_secs"@) matches Some(JsonView::Number(NumberView::Int(n))) ==> (i64::MIN <= n <= i64::MAX
        ==> window_secs == n)
    &&& member(cfg, "window_secs"@) is None ==> window_secs == 300
    &&& member(cfg, "comparator"@) matches Some(JsonView::Str(c)) ==> comparator == c
    &&& member(cfg, "comparator"@) is None ==> comparator == "gt"@
    &&& member(cfg, "threshold"@) matches Some(JsonView::Number(NumberView::Int(n))) ==> threshold == int_double(
        n,
    ) as u64
    &&& member(cfg, "threshold"@) matches Some(JsonView::Number(NumberView::Float(t))) ==> (parsed_double(t) matches Some(
        bits,
    ) ==> threshold == bits)
    &&& member(cfg, "threshold"@) is None ==> threshold == 0
}

/// A log rule asks for what its configuration says: the window, the comparator
/// and the threshold; the lowest severity and the part of the body where they are
/// given; and the attributes of its filter, the same as a log query with that
/// filter.
pub proof fn law_log_rule_asks_what_is_configured(e: LogEval, cfg: JsonView, pairs: Seq<Pair>)
    requires
        is_log_eval(e, cfg),
    ensures
        waits_for(e.window_secs, e.comparator@, e.threshold, cfg),
        member(cfg, "severity_min"@) matches Some(JsonView::Number(NumberView::Int(n))) ==> (i32::MIN <= n <= i32::MAX
            ==> e.severity_min is Some && e.severity_min->0 == n),
        member(cfg, "severity_min"@) is None ==> e.severity_min is None,
        member(cfg, "q"@) matches Some(JsonView::Str(s)) ==> (s.len() > 0 ==> opt_text(e.q) == Some(s)) && (s.len() == 0
            ==> e.q is None),
        member(cfg, "q"@) is None ==> e.q is None,
        member(cfg, "filter"@) is None ==> e.filter is None,
        member(cfg, "filter"@) matches Some(JsonView::Str(s)) ==> {
            &&& can_be_written(pairs) && s == filter_text(pairs) ==> asks_for(opt_json(e.filter), pairs)
            &&& forall|f: String| s.len() > 0 && f@ == s ==> opt_json(e.filter) == #[trigger] wanted(Some(f))
        },
{
    if can_be_written(pairs) {
        law_filter_can_be_looked_up(pairs);
        lemma_filter_not_empty(pairs);
    }
}

proof fn lemma_filter_not_empty(pairs: Seq<Pair>)
    requires
        can_be_written(pairs),
    ensures
        filter_text(pairs).len() > 0,
{
    assert(pairs.len() > 0);
}

/// A metric rule asks for what its configuration says: the metric, the
/// aggregation, the window, the comparator and the threshold; and the attributes
/// of its filter. A filter that cannot be read asks for none in particular.
pub proof fn law_metric_rule_asks_what_is_configured(e: MetricEval, cfg: JsonView, pairs: Seq<Pair>)
    requires
        is_metric_eval(e, cfg),
    ensures
        waits_for(e.window_secs, e.comparator@, e.threshold, cfg),
        member(cfg, "metric_name"@) == Some(JsonView::Str(e.metric_name@)),
        member(cfg, "agg"@) matches Some(JsonView::Str(a)) ==> e.agg@ == a,
        member(cfg, "agg"@) is None ==> e.agg@ == "avg"@,
        member(cfg, "filter"@) is None ==> e.filter is None,
        member(cfg, "filter"@) matches Some(JsonView::Str(s)) ==> {
            &&& can_be_written(pairs) && s == filter_text(pairs) ==> asks_for(opt_json(e.filter), pairs)
            &&& s.len() > 0 && filter_of(s) is None ==> (opt_json(e.filter) matches Some(f) && f is Object
                && forall|key: Seq<char>| #[trigger] member(f, key) is None)
            &&& s.len() == 0 ==> e.filter is None
        },
{
    if can_be_written(pairs) {
        law_filter_can_be_looked_up(pairs);
        lemma_filter_not_empty(pairs);
    }
}

/// The comparators order whole numbers below 2^53 as their names say.
pub proof fn law_comparators_compare(value: int, threshold: int)
    requires
        -2 * FRACTION_END < value < 2 * FRACTION_END,
        -2 * FRACTION_END < threshold < 2 * FRACTION_END,
    ensures
        ({
            let (v, t) = (int_double(value) as u64, int_double(threshold) as u64);
            &&& compares(v, t, "gt"@) <==> value > threshold
            &&& compares(v, t, "lt"@) <==> value < threshold
            &&& compares(v, t, "gte"@) <==> value >= threshold
            &&& compares(v, t, "lte"@) <==> value <= threshold
        }),
{
    law_doubles_keep_the_order(value, threshold);
    law_doubles_keep_the_order(threshold, value);
    lemma_comparator_names();
}

proof fn lemma_comparator_names()
    ensures
        "gt"@ != "lt"@,
        "gt"@ != "gte"@,
        "gt"@ != "lte"@,
        "lt"@ != "gte"@,
        "lt"@ != "lte"@,
        "gte"@ != "lte"@,
{
    reveal_strlit("gt");
    reveal_strlit("lt");
    reveal_strlit("gte");
    reveal_strlit("lte");
    assert("gt"@.len() == 2 && "lt"@.len() == 2 && "gte"@.len() == 3 && "lte"@.len() == 3);
    assert("gt"@[0] == 'g' && "lt"@[0] == 'l' && "gte"@[0] == 'g' && "lte"@[0] == 'l');
}

/// Of any two numbers one is above the other or at most as large, and not both;
/// each comparator is another one the other way round; and nothing compares under
/// any other name.
pub proof fn law_comparators_agree(value: u64, threshold: u64, comparator: Seq<char>)
    ensures
        !is_nan(value) && !is_nan(threshold) ==> compares(value, threshold, "gt"@) != compares(value, threshold, "lte"@),
        !is_nan(value) && !is_nan(threshold) ==> compares(value, threshold, "lt"@) != compares(value, threshold, "gte"@),
        compares(value, threshold, "gt"@) == compares(threshold, value, "lt"@),
        compares(value, threshold, "gte"@) == compares(threshold, value, "lte"@),
        compares(value, threshold, "gt"@) ==> compares(value, threshold, "gte"@),
        !is_nan(value) ==> compares(value, value, "gte"@) && !compares(value, value, "gt"@),
        compares(value, threshold, comparator) ==> comparator == "gt"@ || comparator == "lt"@ || comparator == "gte"@
            || comparator == "lte"@,
{
    lemma_comparator_names();
}

/// The values of a metric are aggregated by the function of the store that has
/// the name of the aggregation.
pub proof fn law_rules_aggregate_as_named(agg: Seq<char>)
    requires
        is_agg(agg),
    ensures
        value_expr(agg) == upper_name(agg) + "(value)"@,
{
    reveal_strlit("sum");
    reveal_strlit("avg");
    reveal_strlit("min");
    reveal_strlit("max");
    reveal_strlit("count");
    reveal_strlit("SUM(value)");
    reveal_strlit("AVG(value)");
    reveal_strlit("MIN(value)");
    reveal_strlit("MAX(value)");
    reveal_strlit("COUNT(value)");
    reveal_strlit("(value)");
    assert("sum"@[0] == 's' && "avg"@[0] == 'a' && "min"@[0] == 'm' && "max"@[0] == 'm' && "count"@[0] == 'c');
    assert("min"@[1] == 'i' && "max"@[1] == 'a');
    if agg == "sum"@ {
        assert(value_expr(agg) =~= upper_name(agg) + "(value)"@);
    } else if agg == "min"@ {
        assert(value_expr(agg) =~= upper_name(agg) + "(value)"@);
    } else if agg == "max"@ {
        assert(value_expr(agg) =~= upper_name(agg) + "(value)"@);
    } else if agg == "count"@ {
        assert(value_expr(agg) =~= upper_name(agg) + "(value)"@);
    } else {
        assert(value_expr(agg) =~= upper_name(agg) + "(value)"@);
    }
}

/// A notification tells of its rule: looking up a part of it gives the name, the
/// severity, the state, the kind, the value, the threshold and the time that it is
/// about.
pub proof fn law_notification_tells_of_its_rule(n: Notice)
    ensures
        ({
            let p = payload(n);
            &&& member(p, "rule"@) == Some(JsonView::Str(n.rule@))
            &&& member(p, "severity"@) == Some(JsonView::Str(n.severity@))
            &&& member(p, "state"@) == Some(JsonView::Str(n.state@))
            &&& member(p, "kind"@) == Some(JsonView::Str(n.kind@))
            &&& member(p, "timestamp"@) == Some(JsonView::Str(rfc3339_text(n.at.secs as int, n.at.nanos as int)))
            &&& n.value is None ==> member(p, "value"@) == Some(JsonView::Null)
            &&& n.value matches Some(v) ==> (double_of(v) matches Some(bits) ==> member(p, "value"@) == Some(
                double_json(bits),
            ))
            &&& member(n.config@, "threshold"@) matches Some(JsonView::Number(NumberView::Int(t))) ==> member(
                p,
                "threshold"@,
            ) == Some(double_json(int_double(t) as u64))
            &&& member(n.config@, "threshold"@) is None ==> member(p, "threshold"@) == Some(double_json(0))
            &&& member(p, "text"@) matches Some(JsonView::Str(t)) && starts_with(
                t,
                "["@ + uppercase(n.severity@) + "] "@ + n.rule@ + " "@ + n.state@ + ": value "@,
            )
        }),
{
    lemma_payload_keys();
    let members = payload(n)->Object_0;
    lemma_lookup_at(members, "text"@, 0);
    lemma_lookup_at(members, "rule"@, 1);
    lemma_lookup_at(members, "severity"@, 2);
    lemma_lookup_at(members, "state"@, 3);
    lemma_lookup_at(members, "value"@, 4);
    lemma_lookup_at(members, "threshold"@, 5);
    lemma_lookup_at(members, "kind"@, 6);
    lemma_lookup_at(members, "timestamp"@, 7);
    let t = members[0].1->Str_0;
    let front = "["@ + uppercase(n.severity@) + "] "@ + n.rule@ + " "@ + n.state@ + ": value "@;
    assert(t.take(front.len() as int) =~= front);
}

/// One text is the start of another.
pub open spec fn starts_with(s: Seq<char>, front: Seq<char>) -> bool {
    front.len() <= s.len() && s.take(front.len() as int) == front
}

proof fn lemma_payload_keys()
    ensures
        "text"@.len() == 4 && "text"@[0] == 't',
        "rule"@.len() == 4 && "rule"@[0] == 'r',
        "severity"@.len() == 8,
        "state"@.len() == 5 && "state"@[0] == 's',
        "value"@.len() == 5 && "value"@[0] == 'v',
        "threshold"@.len() == 9 && "threshold"@[1] == 'h',
        "kind"@.len() == 4 && "kind"@[0] == 'k',
        "timestamp"@.len() == 9 && "timestamp"@[1] == 'i',
{
    reveal_strlit("text");
    reveal_strlit("rule");
    reveal_strlit("severity");
    reveal_strlit("state");
    reveal_strlit("value");
    reveal_strlit("threshold");
    reveal_strlit("kind");
    reveal_strlit("timestamp");
}

/// A rule whose state has a name of none of the three is `ok` after any
/// evaluation, and a rule that is due at once fires at once.
pub proof fn law_first_evaluation(prev: Option<StandingView>, for_secs: i32, now: Timestamp)
    ensures
        prev is None && for_secs == 0 ==> next_state(prev, true, for_secs, now) == "firing"@,
        prev is None && for_secs != 0 ==> next_state(prev, true, for_secs, now) == "pending"@,
        prev is None ==> next_since(prev, true, for_secs, now) == now,
        prev matches Some(p) ==> (p.0 != "ok"@ && p.0 != "pending"@ && p.0 != "firing"@ ==> next_state(
            prev,
            true,
            for_secs,
            now,
        ) == "ok"@),
{
    lemma_state_names();
}

/// An integer that fits into 32 bits stays as it is, and any other changes by a
/// multiple of 2^32 to one that fits.
pub proof fn law_low_bits(n: int)
    ensures
        i32::MIN <= low_bits(n) <= i32::MAX,
        i32::MIN <= n <= i32::MAX ==> low_bits(n) == n,
        (n - low_bits(n)) % 0x1_0000_0000 == 0,
{
}

/// The message of a metric rule names the aggregation and the metric, the value,
/// and the window.
pub proof fn law_message_tells_the_value(agg: Seq<char>, metric_name: Seq<char>, value: Seq<char>, window_secs: int)
    ensures
        metric_message(agg, metric_name, value, window_secs) == (agg + "("@ + metric_name + ")"@) + " = "@ + value + (
        " over "@ + decimal_int(window_secs) + "s"@),
{
    reveal_strlit(") = ");
    reveal_strlit(")");
    reveal_strlit(" = ");
    assert(metric_message(agg, metric_name, value, window_secs) =~= (agg + "("@ + metric_name + ")"@) + " = "@ + value + (
    " over "@ + decimal_int(window_secs) + "s"@));
}

/// The summary of a notification names the severity, the rule, its state, the value
/// and the threshold, and says whether the threshold is passed or no longer is.
pub proof fn law_summary_tells_all(
    severity_upper: Seq<char>,
    name: Seq<char>,
    state: Seq<char>,
    value: Seq<char>,
    threshold: Seq<char>,
)
    ensures
        ({
            let front = "["@ + severity_upper + "] "@ + name + " "@ + state;
            let s = summary(severity_upper, name, state, value, threshold);
            &&& state == "firing"@ ==> s == front + (": value "@ + value + " exceeds/triggers threshold "@ + threshold)
            &&& state != "firing"@ ==> s == front + (": value "@ + value + " no longer triggers threshold "@ + threshold)
        }),
{
    reveal_strlit(" ");
    reveal_strlit(" threshold ");
    reveal_strlit("exceeds/triggers");
    reveal_strlit("no longer triggers");
    reveal_strlit(" exceeds/triggers threshold ");
    reveal_strlit(" no longer triggers threshold ");
    let front = "["@ + severity_upper + "] "@ + name + " "@ + state;
    let s = summary(severity_upper, name, state, value, threshold);
    assert(" exceeds/triggers threshold "@ =~= " "@ + "exceeds/triggers"@ + " threshold "@);
    assert(" no longer triggers threshold "@ =~= " "@ + "no longer triggers"@ + " threshold "@);
    if state == "firing"@ {
        assert(s =~= front + (": value "@ + value + " exceeds/triggers threshold "@ + threshold));
    } else {
        assert(s =~= front + (": value "@ + value + " no longer triggers threshold "@ + threshold));
    }
}

/// Without a series or a point the condition of a metric rule does not hold. A whole
/// value below 2^53 holds against a whole threshold as the comparator says, and is
/// the value that is kept.
pub proof fn law_metric_condition_holds_as_configured(
    r: Outcome,
    e: MetricEval,
    answer: MetricAnswer,
    value: int,
    threshold: int,
)
    requires
        is_metric_outcome(r, e, answer),
        -2 * FRACTION_END < value < 2 * FRACTION_END,
        -2 * FRACTION_END < threshold < 2 * FRACTION_END,
    ensures
        answer is NoSeries || answer is NoPoints ==> !r.holds && r.value is None,
        answer is NoSeries ==> r.message is Some,
        answer matches MetricAnswer::Value { value: v } ==> r.value == Some(v) && r.message is Some,
        answer matches MetricAnswer::Value { value: v } ==> (double_of(v) == Some(int_double(value) as u64) && e.threshold
            == int_double(threshold) as u64 ==> {
            &&& e.comparator@ == "gt"@ ==> (r.holds <==> value > threshold)
            &&& e.comparator@ == "lt"@ ==> (r.holds <==> value < threshold)
            &&& e.comparator@ == "gte"@ ==> (r.holds <==> value >= threshold)
            &&& e.comparator@ == "lte"@ ==> (r.holds <==> value <= threshold)
        }),
{
    law_comparators_compare(value, threshold);
}

/// The condition of a log rule holds where the number of records that match is above
/// a whole threshold, or at least as large, as the comparator says; the number is
/// the value that is kept.
pub proof fn law_log_condition_holds_as_configured(r: Outcome, e: LogEval, count: i64, threshold: int)
    requires
        is_log_outcome(r, e, count),
        0 <= count < 2 * FRACTION_END,
        -2 * FRACTION_END < threshold < 2 * FRACTION_END,
    ensures
        opt_double(r.value) == Some(int_double(count as int) as u64),
        r.message is Some,
        e.threshold == int_double(threshold) as u64 ==> {
            &&& e.comparator@ == "gt"@ ==> (r.holds <==> count > threshold)
            &&& e.comparator@ == "gte"@ ==> (r.holds <==> count >= threshold)
        },
{
    law_comparators_compare(count as int, threshold);
}

/// A rule stands as its row says, and a rule without a row was never evaluated.
pub proof fn law_standing_is_that_of_the_row(s: Option<Standing>)
    ensures
        s matches Some(p) ==> standing_view(s) == Some((p.state@, p.since)) && prev_state(standing_view(s)) == p.state@,
        s is None ==> standing_view(s) is None && prev_state(standing_view(s)) == "ok"@,
{
}

} // verus!
