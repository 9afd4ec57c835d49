//! The alerts page: how rules are shown, and the form that edits them.

use vstd::prelude::*;

use crate::alerts::rules::{
    config_fault, is_kind, is_severity, str_or, text_or, update_of, webhook_after,
};
use crate::dashboards::{blank, is_blank};
use crate::double::{
    display_double, double_display, double_fixed, double_json, double_of, double_to_json, fixed_double, number_double,
    number_value, opt_double, parse_double, parsed_double, zero,
};
use crate::ingest::attributes::int_json;
use crate::json::{
    int_member, lemma_key_index, lemma_lookup_at, lemma_object_view, lookup, member, member_views, push_member, Json,
    JsonView, Members, NumberView,
};
use crate::query::metrics::is_agg;
use crate::text::{
    chars_of, decimal_int, find_char, first_chars, first_index, int_text, law_integers_read_back, lemma_first_index, opt_text,
    parse_i32,
    parse_i64, parse_int_spec, starts_with, str_eq, string_of, take_chars,
};
use crate::ui::api::{ActiveAlert, AlertRule};
use crate::ui::badge::Badge;

verus! {

// ---------------------------------------------------------------------------
// Rules in the table
// ---------------------------------------------------------------------------

/// The badge of a severity.
pub fn severity_badge(s: &str) -> (b: Badge)
    ensures
        b == (if s@ == "critical"@ {
            Badge::Destructive
        } else if s@ == "warning"@ {
            Badge::Plain
        } else {
            Badge::Secondary
        }),
{
    if str_eq(s, "critical") {
        Badge::Destructive
    } else if str_eq(s, "warning") {
        Badge::Plain
    } else {
        Badge::Secondary
    }
}

/// The badge of a state.
pub fn state_badge(s: &str) -> (b: Badge)
    ensures
        b == (if s@ == "firing"@ {
            Badge::Destructive
        } else if s@ == "pending"@ {
            Badge::Plain
        } else {
            Badge::Secondary
        }),
{
    if str_eq(s, "firing") {
        Badge::Destructive
    } else if str_eq(s, "pending") {
        Badge::Plain
    } else {
        Badge::Secondary
    }
}

/// A number of a configuration as it is shown: nothing where there is none.
pub open spec fn number_text(cfg: JsonView, key: Seq<char>) -> Seq<char> {
    match member(cfg, key) {
        Some(JsonView::Number(n)) => match number_double(n) {
            Some(bits) => double_display(bits),
            None => Seq::empty(),
        },
        _ => Seq::empty(),
    }
}

/// A text of a configuration: nothing where there is none.
pub fn cfg_str<'a>(cfg: &'a Json, key: &str) -> (s: &'a str)
    ensures
        s@ == text_or(cfg@, key@, ""@),
{
    str_or(cfg, key, "")
}

/// A number of a configuration as it is shown.
pub fn cfg_f64(cfg: &Json, key: &str) -> (s: String)
    ensures
        s@ == number_text(cfg@, key@),
{
    if let Some(Json::Number(n)) = cfg.get(key) {
        if let Some(v) = number_value(n) {
            return display_double(&v);
        }
    }
    String::new()
}

/// The window of a rule as it is shown.
pub open spec fn window_text(cfg: JsonView) -> Seq<char> {
    match int_member(cfg, "window_secs"@) {
        Some(n) => decimal_int(n),
        None => "300"@,
    }
}

fn window(cfg: &Json) -> (s: String)
    ensures
        s@ == window_text(cfg@),
{
    match cfg.get_i64("window_secs") {
        Some(n) => int_text(n),
        None => "300".to_owned(),
    }
}

/// What a rule compares with, in short.
pub fn threshold_summary(rule: &AlertRule) -> (s: String)
    ensures
        s@ == text_or(rule.config@, "comparator"@, ""@) + " "@ + number_text(rule.config@, "threshold"@) + " ("@
            + window_text(rule.config@) + "s)"@,
{
    let mut s = cfg_str(&rule.config, "comparator").to_owned();
    s.push_str(" ");
    s.push_str(cfg_f64(&rule.config, "threshold").as_str());
    s.push_str(" (");
    s.push_str(window(&rule.config).as_str());
    s.push_str("s)");
    s
}

/// What stands before the first slash.
pub open spec fn until_slash(s: Seq<char>) -> Seq<char> {
    s.take(first_index(s, '/'))
}

/// The host of an address, or the start of what is no address.
pub open spec fn host_of(url: Seq<char>) -> Seq<char> {
    if "https://"@.is_prefix_of(url) {
        until_slash(url.skip("https://"@.len() as int))
    } else if "http://"@.is_prefix_of(url) {
        until_slash(url.skip("http://"@.len() as int))
    } else {
        first_chars(url, 30)
    }
}

fn host_behind(url: &str, scheme: usize) -> (s: String)
    requires
        scheme <= url@.len(),
    ensures
        s@ == until_slash(url@.skip(scheme as int)),
{
    let cs = chars_of(url);
    let at = find_char(&cs, scheme, '/');
    assert(cs@.subrange(scheme as int, at as int) =~= cs@.skip(scheme as int).take(at - scheme));
    string_of(&cs, scheme, at)
}

/// The host of a webhook, as it is shown.
pub fn webhook_host(url: &str) -> (s: String)
    ensures
        s@ == host_of(url@),
{
    proof {
        reveal_strlit("https://");
        reveal_strlit("http://");
    }
    if starts_with(url, "https://") {
        host_behind(url, 8)
    } else if starts_with(url, "http://") {
        host_behind(url, 7)
    } else {
        take_chars(url, 30)
    }
}

/// Which of the alerts are in a state.
pub open spec fn places_in_state(alerts: Seq<ActiveAlert>, state: Seq<char>) -> Seq<int>
    decreases alerts.len(),
{
    if alerts.len() == 0 {
        Seq::empty()
    } else if alerts.last().state@ == state {
        places_in_state(alerts.drop_last(), state).push(alerts.len() - 1)
    } else {
        places_in_state(alerts.drop_last(), state)
    }
}

/// The places of a list, as integers.
pub open spec fn places(v: Seq<usize>) -> Seq<int> {
    Seq::new(v.len(), |i: int| v[i] as int)
}

/// Where the alerts in a state stand, in order.
pub fn in_state(alerts: &Vec<ActiveAlert>, state: &str) -> (r: Vec<usize>)
    ensures
        places(r@) == places_in_state(alerts@, state@),
{
    let mut r: Vec<usize> = Vec::new();
    let mut i: usize = 0;
    assert(places(r@) =~= places_in_state(alerts@.take(0), state@));
    while i < alerts.len()
        invariant
            i <= alerts.len(),
            places(r@) == places_in_state(alerts@.take(i as int), state@),
        decreases alerts.len() - i,
    {
        let ghost before = places(r@);
        assert(alerts@.take(i + 1).drop_last() =~= alerts@.take(i as int));
        if str_eq(alerts[i].state.as_str(), state) {
            r.push(i);
            assert(places(r@) =~= before.push(i as int));
        }
        i += 1;
    }
    assert(alerts@.take(alerts.len() as int) =~= alerts@);
    r
}

/// What is said of the value of an active alert: nothing where it has none.
pub open spec fn alert_note(value: Option<u64>) -> Seq<char> {
    match value {
        Some(bits) => " (value: "@ + double_fixed(bits) + ")"@,
        None => ""@,
    }
}

/// What is said of the value of an active alert.
pub fn value_note(alert: &ActiveAlert) -> (s: String)
    requires
        alert.last_value matches Some(v) ==> double_of(v) is Some,
    ensures
        s@ == alert_note(opt_double(alert.last_value)),
{
    match &alert.last_value {
        Some(v) => {
            let mut s = " (value: ".to_owned();
            s.push_str(fixed_double(v).as_str());
            s.push_str(")");
            s
        },
        None => "".to_owned(),
    }
}

// ---------------------------------------------------------------------------
// The form
// ---------------------------------------------------------------------------

/// The fields of the form, as they are typed. Those of metric rules and those of
/// log rules stand side by side; the kind says which count.
pub struct RuleForm {
    pub name: String,
    pub kind: String,
    pub severity: String,
    pub webhook_url: String,
    pub for_secs: String,
    pub enabled: bool,
    pub metric_name: String,
    pub agg: String,
    pub comparator: String,
    pub threshold: String,
    pub window_secs: String,
    pub filter: String,
    pub log_filter: String,
    pub severity_min: String,
    pub q: String,
    pub log_comparator: String,
    pub log_threshold: String,
    pub log_window_secs: String,
}

/// A text of a configuration, or a default where it is missing or empty.
pub open spec fn text_unless_empty(cfg: JsonView, key: Seq<char>, default: Seq<char>) -> Seq<char> {
    let s = text_or(cfg, key, ""@);
    if s.len() == 0 {
        default
    } else {
        s
    }
}

fn str_unless_empty(cfg: &Json, key: &str, default: &str) -> (s: String)
    ensures
        s@ == text_unless_empty(cfg@, key@, default@),
{
    let s = cfg_str(cfg, key);
    if s.is_empty() {
        default.to_owned()
    } else {
        s.to_owned()
    }
}

/// An integer of a configuration as it is shown: nothing where there is none.
pub open spec fn int_text_of(cfg: JsonView, key: Seq<char>) -> Seq<char> {
    match int_member(cfg, key) {
        Some(n) => decimal_int(n),
        None => Seq::empty(),
    }
}

fn shown_int(cfg: &Json, key: &str) -> (s: String)
    ensures
        s@ == int_text_of(cfg@, key@),
{
    match cfg.get_i64(key) {
        Some(n) => int_text(n),
        None => String::new(),
    }
}

/// A threshold as it was typed: zero where it is no number.
pub open spec fn typed_threshold(s: Seq<char>) -> JsonView {
    match parsed_double(s) {
        Some(bits) => double_json(bits),
        None => double_json(0),
    }
}

fn threshold_json(s: &str) -> (v: Json)
    ensures
        v@ == typed_threshold(s@),
{
    match parse_double(s) {
        Some(d) => double_to_json(&d),
        None => double_to_json(&zero()),
    }
}

/// An integer as it was typed, or a default where it is none.
pub open spec fn typed_int(s: Seq<char>, lo: int, hi: int, default: int) -> JsonView {
    JsonView::Number(
        NumberView::Int(
            match parse_int_spec(s, true, lo, hi) {
                Some(n) => n,
                None => default,
            },
        ),
    )
}

fn window_json(s: &str) -> (v: Json)
    ensures
        v@ == typed_int(s@, i64::MIN as int, i64::MAX as int, 300),
{
    match parse_i64(s) {
        Some(n) => int_json(n),
        None => int_json(300),
    }
}

/// A member that is there only if its text is not empty.
pub open spec fn text_if_given(key: Seq<char>, s: Seq<char>) -> Members {
    if s.len() == 0 {
        Seq::empty()
    } else {
        seq![(key, JsonView::Str(s))]
    }
}

/// The members that a metric rule always has.
pub open spec fn metric_members(f: RuleForm) -> Members {
    seq![
        ("metric_name"@, JsonView::Str(f.metric_name@)),
        ("agg"@, JsonView::Str(f.agg@)),
        ("comparator"@, JsonView::Str(f.comparator@)),
        ("threshold"@, typed_threshold(f.threshold@)),
        ("window_secs"@, typed_int(f.window_secs@, i64::MIN as int, i64::MAX as int, 300)),
    ]
}

/// The members that a log rule always has.
pub open spec fn log_members(f: RuleForm) -> Members {
    seq![
        ("comparator"@, JsonView::Str(f.log_comparator@)),
        ("threshold"@, typed_threshold(f.log_threshold@)),
        ("window_secs"@, typed_int(f.log_window_secs@, i64::MIN as int, i64::MAX as int, 300)),
    ]
}

/// The least severity of a log rule, if a number was typed.
pub open spec fn severity_min_member(f: RuleForm) -> Members {
    match parse_int_spec(f.severity_min@, true, i64::MIN as int, i64::MAX as int) {
        Some(n) => seq![("severity_min"@, JsonView::Number(NumberView::Int(n)))],
        None => Seq::empty(),
    }
}

/// The configuration of the rule in the form.
pub open spec fn config_of(f: RuleForm, kind: Seq<char>) -> JsonView {
    if kind == "metric"@ {
        JsonView::Object(metric_members(f) + text_if_given("filter"@, f.filter@))
    } else {
        JsonView::Object(
            log_members(f) + text_if_given("filter"@, f.log_filter@) + severity_min_member(f) + text_if_given("q"@, f.q@),
        )
    }
}

/// The address of the webhook as it is sent: null where there is none.
pub open spec fn webhook_json(url: Seq<char>) -> JsonView {
    if url.len() == 0 {
        JsonView::Null
    } else {
        JsonView::Str(url)
    }
}

/// The members that both bodies end with.
pub open spec fn tail_members(f: RuleForm) -> Members {
    seq![
        ("enabled"@, JsonView::Bool(f.enabled)),
        ("severity"@, JsonView::Str(f.severity@)),
        ("config"@, config_of(f, f.kind@)),
        ("for_secs"@, typed_int(f.for_secs@, i32::MIN as int, i32::MAX as int, 0)),
        ("webhook_url"@, webhook_json(f.webhook_url@)),
    ]
}

/// The body of the request that changes the rule.
pub open spec fn update_json(f: RuleForm) -> JsonView {
    JsonView::Object(seq![("name"@, JsonView::Str(f.name@))] + tail_members(f))
}

/// Why a form cannot be sent, if it cannot.
pub open spec fn form_fault(f: RuleForm) -> Option<Seq<char>> {
    if blank(f.name@) {
        Some("Name is required."@)
    } else if f.kind@ == "metric"@ && blank(f.metric_name@) {
        Some("Metric name is required."@)
    } else if f.kind@ == "metric"@ && parsed_double(f.threshold@) is None {
        Some("Threshold must be a number."@)
    } else if f.kind@ != "metric"@ && parsed_double(f.log_threshold@) is None {
        Some("Threshold must be a number."@)
    } else {
        None
    }
}

fn push_if_given(members: &mut Vec<(String, Json)>, key: &str, s: &String)
    ensures
        member_views(final(members)@) == member_views(old(members)@) + text_if_given(key@, s@),
{
    let ghost before = member_views(members@);
    if !s.as_str().is_empty() {
        push_member(members, key, Json::Str(s.clone()));
    }
    assert(member_views(members@) =~= before + text_if_given(key@, s@));
}

impl RuleForm {
    /// The form for a new rule.
    pub fn new() -> (f: RuleForm)
        ensures
            f.name@ == ""@,
            f.kind@ == "metric"@,
            f.severity@ == "warning"@,
            f.webhook_url@ == ""@,
            f.for_secs@ == "0"@,
            f.enabled,
            f.metric_name@ == ""@,
            f.agg@ == "avg"@,
            f.comparator@ == "gt"@,
            f.threshold@ == ""@,
            f.window_secs@ == "300"@,
            f.filter@ == ""@,
            f.log_filter@ == ""@,
            f.severity_min@ == ""@,
            f.q@ == ""@,
            f.log_comparator@ == "gt"@,
            f.log_threshold@ == ""@,
            f.log_window_secs@ == "300"@,
    {
        RuleForm {
            name: "".to_owned(),
            kind: "metric".to_owned(),
            severity: "warning".to_owned(),
            webhook_url: "".to_owned(),
            for_secs: "0".to_owned(),
            enabled: true,
            metric_name: "".to_owned(),
            agg: "avg".to_owned(),
            comparator: "gt".to_owned(),
            threshold: "".to_owned(),
            window_secs: "300".to_owned(),
            filter: "".to_owned(),
            log_filter: "".to_owned(),
            severity_min: "".to_owned(),
            q: "".to_owned(),
            log_comparator: "gt".to_owned(),
            log_threshold: "".to_owned(),
            log_window_secs: "300".to_owned(),
        }
    }

    /// Fills the form with a rule that is to be edited. The fields of the other
    /// kind stay as they are.
    pub fn load(&mut self, rule: &AlertRule)
        ensures
            loads_common(*final(self), *rule),
            rule.kind@ == "metric"@ ==> loads_metric(*final(self), rule.config@) && same_log_fields(
                *final(self),
                *old(self),
            ),
            rule.kind@ != "metric"@ ==> loads_log(*final(self), rule.config@) && same_metric_fields(
                *final(self),
                *old(self),
            ),
    {
        self.name = rule.name.clone();
        self.kind = rule.kind.clone();
        self.severity = rule.severity.clone();
        self.webhook_url = match &rule.webhook_url {
            Some(u) => u.clone(),
            None => "".to_owned(),
        };
        self.for_secs = int_text(rule.for_secs as i64);
        self.enabled = rule.enabled;
        let cfg = &rule.config;
        if str_eq(rule.kind.as_str(), "metric") {
            self.metric_name = cfg_str(cfg, "metric_name").to_owned();
            self.agg = str_unless_empty(cfg, "agg", "avg");
            self.comparator = str_unless_empty(cfg, "comparator", "gt");
            self.threshold = cfg_f64(cfg, "threshold");
            self.window_secs = window(cfg);
            self.filter = cfg_str(cfg, "filter").to_owned();
        } else {
            self.log_filter = cfg_str(cfg, "filter").to_owned();
            self.severity_min = shown_int(cfg, "severity_min");
            self.q = cfg_str(cfg, "q").to_owned();
            self.log_comparator = str_unless_empty(cfg, "comparator", "gt");
            self.log_threshold = cfg_f64(cfg, "threshold");
            self.log_window_secs = window(cfg);
        }
    }

    /// The configuration of the rule in the form.
    pub fn build_config(&self, kind: &str) -> (v: Json)
        ensures
            v@ == config_of(*self, kind@),
    {
        let mut members: Vec<(String, Json)> = Vec::new();
        assert(member_views(members@) =~= Seq::empty());
        if str_eq(kind, "metric") {
            push_member(&mut members, "metric_name", Json::Str(self.metric_name.clone()));
            push_member(&mut members, "agg", Json::Str(self.agg.clone()));
            push_member(&mut members, "comparator", Json::Str(self.comparator.clone()));
            push_member(&mut members, "threshold", threshold_json(self.threshold.as_str()));
            push_member(&mut members, "window_secs", window_json(self.window_secs.as_str()));
            assert(member_views(members@) =~= metric_members(*self));
            push_if_given(&mut members, "filter", &self.filter);
        } else {
            push_member(&mut members, "comparator", Json::Str(self.log_comparator.clone()));
            push_member(&mut members, "threshold", threshold_json(self.log_threshold.as_str()));
            push_member(&mut members, "window_secs", window_json(self.log_window_secs.as_str()));
            assert(member_views(members@) =~= log_members(*self));
            push_if_given(&mut members, "filter", &self.log_filter);
            let ghost before = member_views(members@);
            if let Some(n) = parse_i64(self.severity_min.as_str()) {
                push_member(&mut members, "severity_min", int_json(n));
            }
            assert(member_views(members@) =~= before + severity_min_member(*self));
            push_if_given(&mut members, "q", &self.q);
        }
        proof {
            lemma_object_view(members);
        }
        Json::Object(members)
    }

    fn push_tail(&self, members: &mut Vec<(String, Json)>)
        ensures
            member_views(final(members)@) == member_views(old(members)@) + tail_members(*self),
    {
        let ghost before = member_views(members@);
        push_member(members, "enabled", Json::Bool(self.enabled));
        push_member(members, "severity", Json::Str(self.severity.clone()));
        push_member(members, "config", self.build_config(self.kind.as_str()));
        let for_secs = match parse_i32(self.for_secs.as_str()) {
            Some(n) => int_json(n as i64),
            None => int_json(0),
        };
        push_member(members, "for_secs", for_secs);
        let webhook = if self.webhook_url.as_str().is_empty() {
            Json::Null
        } else {
            Json::Str(self.webhook_url.clone())
        };
        push_member(members, "webhook_url", webhook);
        assert(member_views(members@) =~= before + tail_members(*self));
    }

    /// The body of the request that creates the rule.
    pub fn to_create_body(&self) -> (v: Json)
        ensures
            v@ == JsonView::Object(
                seq![("name"@, JsonView::Str(self.name@)), ("kind"@, JsonView::Str(self.kind@))] + tail_members(*self),
            ),
    {
        let mut members: Vec<(String, Json)> = Vec::new();
        assert(member_views(members@) =~= Seq::empty());
        push_member(&mut members, "name", Json::Str(self.name.clone()));
        push_member(&mut members, "kind", Json::Str(self.kind.clone()));
        assert(member_views(members@) =~= seq![
            ("name"@, JsonView::Str(self.name@)),
            ("kind"@, JsonView::Str(self.kind@)),
        ]);
        self.push_tail(&mut members);
        proof {
            lemma_object_view(members);
        }
        Json::Object(members)
    }

    /// The body of the request that changes the rule. The kind of a rule does not
    /// change.
    pub fn to_update_body(&self) -> (v: Json)
        ensures
            v@ == update_json(*self),
    {
        let mut members: Vec<(String, Json)> = Vec::new();
        assert(member_views(members@) =~= Seq::empty());
        push_member(&mut members, "name", Json::Str(self.name.clone()));
        self.push_tail(&mut members);
        proof {
            lemma_object_view(members);
        }
        Json::Object(members)
    }

    /// Why the form cannot be sent, if it cannot.
    pub fn validate(&self) -> (r: Option<&'static str>)
        ensures
            match r {
                Some(m) => form_fault(*self) == Some(m@),
                None => form_fault(*self) is None,
            },
    {
        if is_blank(self.name.as_str()) {
            return Some("Name is required.");
        }
        if str_eq(self.kind.as_str(), "metric") {
            if is_blank(self.metric_name.as_str()) {
                return Some("Metric name is required.");
            }
            if parse_double(self.threshold.as_str()).is_none() {
                return Some("Threshold must be a number.");
            }
        } else {
            if parse_double(self.log_threshold.as_str()).is_none() {
                return Some("Threshold must be a number.");
            }
        }
        None
    }

    /// What to send for the form: the body that changes the rule that is edited,
    /// if one is, or else the body that creates one; or why nothing is sent.
    pub fn submit(&self, edited: Option<i64>) -> (r: Result<Submission, &'static str>)
        ensures
            match r {
                Ok(Submission::Create { body }) => form_fault(*self) is None && edited is None && body@
                    == JsonView::Object(
                    seq![("name"@, JsonView::Str(self.name@)), ("kind"@, JsonView::Str(self.kind@))] + tail_members(
                        *self,
                    ),
                ),
                Ok(Submission::Update { id, body }) => form_fault(*self) is None && edited == Some(id) && body@
                    == update_json(*self),
                Err(m) => form_fault(*self) == Some(m@),
            },
    {
        if let Some(m) = self.validate() {
            return Err(m);
        }
        match edited {
            Some(id) => Ok(Submission::Update { id, body: self.to_update_body() }),
            None => Ok(Submission::Create { body: self.to_create_body() }),
        }
    }
}

/// What a form is sent as.
pub enum Submission {
    Create { body: Json },
    Update { id: i64, body: Json },
}

/// The fields that rules of both kinds have hold the rule.
pub open spec fn loads_common(f: RuleForm, rule: AlertRule) -> bool {
    &&& f.name@ == rule.name@
    &&& f.kind@ == rule.kind@
    &&& f.severity@ == rule.severity@
    &&& f.webhook_url@ == (match opt_text(rule.webhook_url) {
        Some(u) => u,
        None => ""@,
    })
    &&& f.for_secs@ == decimal_int(rule.for_secs as int)
    &&& f.enabled == rule.enabled
}

/// The fields of metric rules hold the configuration.
pub open spec fn loads_metric(f: RuleForm, cfg: JsonView) -> bool {
    &&& f.metric_name@ == text_or(cfg, "metric_name"@, ""@)
    &&& f.agg@ == text_unless_empty(cfg, "agg"@, "avg"@)
    &&& f.comparator@ == text_unless_empty(cfg, "comparator"@, "gt"@)
    &&& f.threshold@ == number_text(cfg, "threshold"@)
    &&& f.window_secs@ == window_text(cfg)
    &&& f.filter@ == text_or(cfg, "filter"@, ""@)
}

/// The fields of log rules hold the configuration.
pub open spec fn loads_log(f: RuleForm, cfg: JsonView) -> bool {
    &&& f.log_filter@ == text_or(cfg, "filter"@, ""@)
    &&& f.severity_min@ == int_text_of(cfg, "severity_min"@)
    &&& f.q@ == text_or(cfg, "q"@, ""@)
    &&& f.log_comparator@ == text_unless_empty(cfg, "comparator"@, "gt"@)
    &&& f.log_threshold@ == number_text(cfg, "threshold"@)
    &&& f.log_window_secs@ == window_text(cfg)
}

/// The fields of metric rules are the same in both forms.
pub open spec fn same_metric_fields(f: RuleForm, g: RuleForm) -> bool {
    f.metric_name == g.metric_name && f.agg == g.agg && f.comparator == g.comparator && f.threshold == g.threshold
        && f.window_secs == g.window_secs && f.filter == g.filter
}

/// The fields of log rules are the same in both forms.
pub open spec fn same_log_fields(f: RuleForm, g: RuleForm) -> bool {
    f.log_filter == g.log_filter && f.severity_min == g.severity_min && f.q == g.q && f.log_comparator
        == g.log_comparator && f.log_threshold == g.log_threshold && f.log_window_secs == g.log_window_secs
}

// ---------------------------------------------------------------------------
// Laws
// ---------------------------------------------------------------------------

proof fn lemma_config_keys()
    ensures
        "metric_name"@ != "agg"@,
        "metric_name"@ != "comparator"@,
        "metric_name"@ != "threshold"@,
        "metric_name"@ != "window_secs"@,
        "metric_name"@ != "filter"@,
        "agg"@ != "comparator"@,
        "agg"@ != "threshold"@,
        "agg"@ != "window_secs"@,
        "agg"@ != "filter"@,
        "comparator"@ != "threshold"@,
        "comparator"@ != "window_secs"@,
        "comparator"@ != "filter"@,
        "comparator"@ != "severity_min"@,
        "comparator"@ != "q"@,
        "threshold"@ != "window_secs"@,
        "threshold"@ != "filter"@,
        "threshold"@ != "severity_min"@,
        "threshold"@ != "q"@,
        "window_secs"@ != "filter"@,
        "window_secs"@ != "severity_min"@,
        "window_secs"@ != "q"@,
        "filter"@ != "severity_min"@,
        "filter"@ != "q"@,
        "severity_min"@ != "q"@,
{
    reveal_strlit("metric_name");
    reveal_strlit("agg");
    reveal_strlit("comparator");
    reveal_strlit("threshold");
    reveal_strlit("window_secs");
    reveal_strlit("filter");
    reveal_strlit("severity_min");
    reveal_strlit("q");
    assert("metric_name"@.len() == 11 && "agg"@.len() == 3 && "comparator"@.len() == 10 && "threshold"@.len() == 9
        && "window_secs"@.len() == 11 && "filter"@.len() == 6 && "severity_min"@.len() == 12 && "q"@.len() == 1);
    assert("metric_name"@[0] == 'm' && "window_secs"@[0] == 'w');
}

proof fn lemma_metric_config(f: RuleForm)
    ensures
        ({
            let cfg = config_of(f, "metric"@);
            &&& member(cfg, "metric_name"@) == Some(JsonView::Str(f.metric_name@))
            &&& member(cfg, "agg"@) == Some(JsonView::Str(f.agg@))
            &&& member(cfg, "comparator"@) == Some(JsonView::Str(f.comparator@))
            &&& member(cfg, "threshold"@) == Some(typed_threshold(f.threshold@))
            &&& member(cfg, "window_secs"@) == Some(
                typed_int(f.window_secs@, i64::MIN as int, i64::MAX as int, 300),
            )
            &&& member(cfg, "filter"@) == (if f.filter@.len() == 0 {
                None
            } else {
                Some(JsonView::Str(f.filter@))
            })
        }),
{
    let m = metric_members(f) + text_if_given("filter"@, f.filter@);
    lemma_config_keys();
    lemma_lookup_at(m, "metric_name"@, 0);
    lemma_lookup_at(m, "agg"@, 1);
    lemma_lookup_at(m, "comparator"@, 2);
    lemma_lookup_at(m, "threshold"@, 3);
    lemma_lookup_at(m, "window_secs"@, 4);
    if f.filter@.len() == 0 {
        lemma_key_index(m, "filter"@);
    } else {
        lemma_lookup_at(m, "filter"@, 5);
    }
}

/// Of members that stand behind others, those count.
proof fn lemma_lookup_behind(front: Members, behind: Members, key: Seq<char>)
    ensures
        lookup(front + behind, key) == match lookup(behind, key) {
            Some(v) => Some(v),
            None => lookup(front, key),
        },
    decreases behind.len(),
{
    if behind.len() == 0 {
        assert(front + behind =~= front);
    } else {
        lemma_lookup_behind(front, behind.drop_last(), key);
        lemma_key_index(behind, key);
        lemma_key_index(behind.drop_last(), key);
        lemma_key_index(front + behind, key);
        lemma_key_index(front + behind.drop_last(), key);
        assert((front + behind).drop_last() =~= front + behind.drop_last());
    }
}

/// A member that is there only if its text is not empty, under its own key and
/// under another.
proof fn lemma_text_if_given(key: Seq<char>, s: Seq<char>, other: Seq<char>)
    requires
        other != key,
    ensures
        lookup(text_if_given(key, s), key) == (if s.len() == 0 {
            None
        } else {
            Some(JsonView::Str(s))
        }),
        lookup(text_if_given(key, s), other) is None,
{
    let m = text_if_given(key, s);
    lemma_key_index(m, key);
    lemma_key_index(m, other);
}

proof fn lemma_severity_min(f: RuleForm, other: Seq<char>)
    requires
        other != "severity_min"@,
    ensures
        lookup(severity_min_member(f), "severity_min"@) == (match parse_int_spec(
            f.severity_min@,
            true,
            i64::MIN as int,
            i64::MAX as int,
        ) {
            Some(n) => Some(JsonView::Number(NumberView::Int(n))),
            None => None,
        }),
        lookup(severity_min_member(f), other) is None,
{
    let m = severity_min_member(f);
    lemma_key_index(m, "severity_min"@);
    lemma_key_index(m, other);
}

/// A member of the configuration of a log rule is the one that was typed last.
proof fn lemma_log_lookup(f: RuleForm, key: Seq<char>)
    ensures
        member(config_of(f, "log"@), key) == (match lookup(text_if_given("q"@, f.q@), key) {
            Some(v) => Some(v),
            None => match lookup(severity_min_member(f), key) {
                Some(v) => Some(v),
                None => match lookup(text_if_given("filter"@, f.log_filter@), key) {
                    Some(v) => Some(v),
                    None => lookup(log_members(f), key),
                },
            },
        }),
{
    reveal_strlit("metric");
    reveal_strlit("log");
    assert("metric"@.len() == 6 && "log"@.len() == 3);
    let filter = text_if_given("filter"@, f.log_filter@);
    let severity = severity_min_member(f);
    lemma_lookup_behind(log_members(f), filter, key);
    lemma_lookup_behind(log_members(f) + filter, severity, key);
    lemma_lookup_behind(log_members(f) + filter + severity, text_if_given("q"@, f.q@), key);
}

proof fn lemma_log_config(f: RuleForm)
    ensures
        ({
            let cfg = config_of(f, "log"@);
            &&& member(cfg, "comparator"@) == Some(JsonView::Str(f.log_comparator@))
            &&& member(cfg, "threshold"@) == Some(typed_threshold(f.log_threshold@))
            &&& member(cfg, "window_secs"@) == Some(
                typed_int(f.log_window_secs@, i64::MIN as int, i64::MAX as int, 300),
            )
            &&& member(cfg, "filter"@) == (if f.log_filter@.len() == 0 {
                None
            } else {
                Some(JsonView::Str(f.log_filter@))
            })
            &&& member(cfg, "severity_min"@) == (match parse_int_spec(
                f.severity_min@,
                true,
                i64::MIN as int,
                i64::MAX as int,
            ) {
                Some(n) => Some(JsonView::Number(NumberView::Int(n))),
                None => None,
            })
            &&& member(cfg, "q"@) == (if f.q@.len() == 0 {
                None
            } else {
                Some(JsonView::Str(f.q@))
            })
        }),
{
    lemma_config_keys();
    let m = log_members(f);
    lemma_lookup_at(m, "comparator"@, 0);
    lemma_lookup_at(m, "threshold"@, 1);
    lemma_lookup_at(m, "window_secs"@, 2);
    lemma_key_index(m, "filter"@);
    lemma_key_index(m, "severity_min"@);
    lemma_key_index(m, "q"@);
    lemma_log_lookup(f, "comparator"@);
    lemma_log_lookup(f, "threshold"@);
    lemma_log_lookup(f, "window_secs"@);
    lemma_log_lookup(f, "filter"@);
    lemma_log_lookup(f, "severity_min"@);
    lemma_log_lookup(f, "q"@);
    lemma_text_if_given("q"@, f.q@, "comparator"@);
    lemma_text_if_given("q"@, f.q@, "threshold"@);
    lemma_text_if_given("q"@, f.q@, "window_secs"@);
    lemma_text_if_given("q"@, f.q@, "filter"@);
    lemma_text_if_given("q"@, f.q@, "severity_min"@);
    lemma_text_if_given("filter"@, f.log_filter@, "comparator"@);
    lemma_text_if_given("filter"@, f.log_filter@, "threshold"@);
    lemma_text_if_given("filter"@, f.log_filter@, "window_secs"@);
    lemma_text_if_given("filter"@, f.log_filter@, "severity_min"@);
    lemma_text_if_given("filter"@, f.log_filter@, "q"@);
    lemma_severity_min(f, "comparator"@);
    lemma_severity_min(f, "threshold"@);
    lemma_severity_min(f, "window_secs"@);
    lemma_severity_min(f, "filter"@);
    lemma_severity_min(f, "q"@);
}

/// The choices that the form offers.
pub open spec fn offered(f: RuleForm) -> bool {
    let c = f.comparator@;
    let l = f.log_comparator@;
    &&& is_kind(f.kind@)
    &&& is_severity(f.severity@)
    &&& is_agg(f.agg@)
    &&& c == "gt"@ || c == "gte"@ || c == "lt"@ || c == "lte"@
    &&& l == "gt"@ || l == "gte"@
}

/// The service takes the configuration of every rule that the form lets through.
pub proof fn law_valid_form_is_taken(f: RuleForm)
    requires
        offered(f),
        form_fault(f) is None,
    ensures
        config_fault(f.kind@, config_of(f, f.kind@)) is None,
{
    if f.kind@ == "metric"@ {
        lemma_metric_config(f);
    } else {
        lemma_log_config(f);
    }
}

/// What was saved of a metric rule is what the form shows when the rule is
/// edited, but for the number that the threshold and the window are shown as.
pub proof fn law_edit_shows_what_was_saved(f: RuleForm, g: RuleForm)
    requires
        f.agg@.len() > 0,
        f.comparator@.len() > 0,
        loads_metric(g, config_of(f, "metric"@)),
    ensures
        g.metric_name@ == f.metric_name@,
        g.agg@ == f.agg@,
        g.comparator@ == f.comparator@,
        g.filter@ == f.filter@,
        parse_int_spec(f.window_secs@, true, i64::MIN as int, i64::MAX as int) matches Some(n) ==> g.window_secs@
            == decimal_int(n),
{
    lemma_metric_config(f);
    reveal_strlit("");
    assert(f.filter@.len() == 0 ==> f.filter@ =~= ""@);
    match parse_int_spec(f.window_secs@, true, i64::MIN as int, i64::MAX as int) {
        Some(n) => {
            assert(i64::MIN <= n <= i64::MAX);
        },
        None => {},
    }
}

/// What was saved of a log rule is what the form shows when the rule is edited,
/// but for the number that the threshold, the window and the least severity are
/// shown as.
pub proof fn law_edit_shows_what_was_saved_of_logs(f: RuleForm, g: RuleForm)
    requires
        f.log_comparator@.len() > 0,
        loads_log(g, config_of(f, "log"@)),
    ensures
        g.log_comparator@ == f.log_comparator@,
        g.log_filter@ == f.log_filter@,
        g.q@ == f.q@,
        parse_int_spec(f.log_window_secs@, true, i64::MIN as int, i64::MAX as int) matches Some(n)
            ==> g.log_window_secs@ == decimal_int(n),
        g.severity_min@ == (match parse_int_spec(f.severity_min@, true, i64::MIN as int, i64::MAX as int) {
            Some(n) => decimal_int(n),
            None => Seq::empty(),
        }),
{
    lemma_log_config(f);
    reveal_strlit("");
    assert(f.log_filter@.len() == 0 ==> f.log_filter@ =~= ""@);
    assert(f.q@.len() == 0 ==> f.q@ =~= ""@);
}

proof fn lemma_update_keys()
    ensures
        "name"@ != "enabled"@,
        "name"@ != "severity"@,
        "name"@ != "config"@,
        "name"@ != "for_secs"@,
        "name"@ != "webhook_url"@,
        "enabled"@ != "severity"@,
        "enabled"@ != "config"@,
        "enabled"@ != "for_secs"@,
        "enabled"@ != "webhook_url"@,
        "severity"@ != "config"@,
        "severity"@ != "for_secs"@,
        "severity"@ != "webhook_url"@,
        "config"@ != "for_secs"@,
        "config"@ != "webhook_url"@,
        "for_secs"@ != "webhook_url"@,
{
    reveal_strlit("name");
    reveal_strlit("enabled");
    reveal_strlit("severity");
    reveal_strlit("config");
    reveal_strlit("for_secs");
    reveal_strlit("webhook_url");
    assert("name"@.len() == 4 && "enabled"@.len() == 7 && "severity"@.len() == 8 && "config"@.len() == 6
        && "for_secs"@.len() == 8 && "webhook_url"@.len() == 11);
    assert("severity"@[0] == 's' && "for_secs"@[0] == 'f');
}

/// The service reads from the body of an update what stands in the form. An
/// address that was emptied clears the stored one, and any other replaces it.
pub proof fn law_update_stores_the_form(f: RuleForm, stored: Option<Seq<char>>)
    ensures
        ({
            let update = update_of(update_json(f));
            &&& update is Some
            &&& update->0.name == Some(f.name@)
            &&& update->0.enabled == Some(f.enabled)
            &&& update->0.severity == Some(f.severity@)
            &&& update->0.config == Some(config_of(f, f.kind@))
            &&& update->0.for_secs == Some(
                match parse_int_spec(f.for_secs@, true, i32::MIN as int, i32::MAX as int) {
                    Some(n) => n as i32,
                    None => 0i32,
                },
            )
            &&& f.webhook_url@.len() == 0 ==> update->0.webhook_url == Some(None::<Seq<char>>) && webhook_after(
                stored,
                update->0,
            ) is None
            &&& f.webhook_url@.len() > 0 ==> webhook_after(stored, update->0) == Some(f.webhook_url@)
        }),
{
    lemma_update_keys();
    let m = seq![("name"@, JsonView::Str(f.name@))] + tail_members(f);
    lemma_lookup_at(m, "name"@, 0);
    lemma_lookup_at(m, "enabled"@, 1);
    lemma_lookup_at(m, "severity"@, 2);
    lemma_lookup_at(m, "config"@, 3);
    lemma_lookup_at(m, "for_secs"@, 4);
    lemma_lookup_at(m, "webhook_url"@, 5);
}

/// The configuration of a metric rule holds what stands in the form, each field
/// under its key; a filter only where one was typed.
pub proof fn law_metric_config_holds_the_form(f: RuleForm)
    ensures
        ({
            let cfg = config_of(f, "metric"@);
            &&& member(cfg, "metric_name"@) == Some(JsonView::Str(f.metric_name@))
            &&& member(cfg, "agg"@) == Some(JsonView::Str(f.agg@))
            &&& member(cfg, "comparator"@) == Some(JsonView::Str(f.comparator@))
            &&& parsed_double(f.threshold@) matches Some(bits) ==> member(cfg, "threshold"@) == Some(double_json(bits))
            &&& forall|n: i64| f.window_secs@ == #[trigger] decimal_int(n as int) ==> member(cfg, "window_secs"@) == Some(
                JsonView::Number(NumberView::Int(n as int)),
            )
            &&& f.filter@.len() > 0 ==> member(cfg, "filter"@) == Some(JsonView::Str(f.filter@))
            &&& f.filter@.len() == 0 ==> member(cfg, "filter"@) is None
        }),
{
    lemma_metric_config(f);
    assert forall|n: i64| f.window_secs@ == #[trigger] decimal_int(n as int) implies member(
        config_of(f, "metric"@),
        "window_secs"@,
    ) == Some(JsonView::Number(NumberView::Int(n as int))) by {
        law_integers_read_back(n as int, true, i64::MIN as int, i64::MAX as int);
    }
}

/// The configuration of a log rule holds what stands in the form, each field under
/// its key; a filter, a severity and a part of the body only where they were typed.
pub proof fn law_log_config_holds_the_form(f: RuleForm)
    ensures
        ({
            let cfg = config_of(f, "log"@);
            &&& member(cfg, "comparator"@) == Some(JsonView::Str(f.log_comparator@))
            &&& parsed_double(f.log_threshold@) matches Some(bits) ==> member(cfg, "threshold"@) == Some(double_json(bits))
            &&& forall|n: i64| f.log_window_secs@ == #[trigger] decimal_int(n as int) ==> member(cfg, "window_secs"@)
                == Some(JsonView::Number(NumberView::Int(n as int)))
            &&& forall|n: i64| f.severity_min@ == #[trigger] decimal_int(n as int) ==> member(cfg, "severity_min"@) == Some(
                JsonView::Number(NumberView::Int(n as int)),
            )
            &&& f.severity_min@.len() == 0 ==> member(cfg, "severity_min"@) is None
            &&& f.log_filter@.len() > 0 ==> member(cfg, "filter"@) == Some(JsonView::Str(f.log_filter@))
            &&& f.log_filter@.len() == 0 ==> member(cfg, "filter"@) is None
            &&& f.q@.len() > 0 ==> member(cfg, "q"@) == Some(JsonView::Str(f.q@))
            &&& f.q@.len() == 0 ==> member(cfg, "q"@) is None
        }),
{
    lemma_log_config(f);
    let cfg = config_of(f, "log"@);
    assert forall|n: i64| f.log_window_secs@ == #[trigger] decimal_int(n as int) implies member(cfg, "window_secs"@)
        == Some(JsonView::Number(NumberView::Int(n as int))) by {
        law_integers_read_back(n as int, true, i64::MIN as int, i64::MAX as int);
    }
    assert forall|n: i64| f.severity_min@ == #[trigger] decimal_int(n as int) implies member(cfg, "severity_min"@)
        == Some(JsonView::Number(NumberView::Int(n as int))) by {
        law_integers_read_back(n as int, true, i64::MIN as int, i64::MAX as int);
    }
}

/// A form can be sent exactly where its rule has a name that is not blank, a
/// threshold that is a number, and, for a metric rule, a metric that is not blank.
pub proof fn law_forms_that_can_be_sent(f: RuleForm)
    ensures
        form_fault(f) is None <==> {
            &&& !blank(f.name@)
            &&& f.kind@ == "metric"@ ==> !blank(f.metric_name@) && parsed_double(f.threshold@) is Some
            &&& f.kind@ != "metric"@ ==> parsed_double(f.log_threshold@) is Some
        },
{
}

/// The form that edits a rule holds the fields that rules of both kinds have, an
/// address of the webhook that is missing as an empty one.
pub proof fn law_form_holds_the_rule(f: RuleForm, rule: AlertRule)
    requires
        loads_common(f, rule),
    ensures
        f.name@ == rule.name@ && f.kind@ == rule.kind@ && f.severity@ == rule.severity@ && f.enabled == rule.enabled,
        f.for_secs@ == decimal_int(rule.for_secs as int),
        rule.webhook_url matches Some(u) ==> f.webhook_url@ == u@,
        rule.webhook_url is None ==> f.webhook_url@.len() == 0,
{
    reveal_strlit("");
}

/// The host of an address is what stands between its scheme and the next slash, or
/// the end.
pub proof fn law_host_stands_behind_the_scheme(host: Seq<char>, path: Seq<char>)
    requires
        !host.contains('/'),
    ensures
        host_of("https://"@ + host) == host,
        host_of("https://"@ + host + seq!['/'] + path) == host,
        host_of("http://"@ + host) == host,
        host_of("http://"@ + host + seq!['/'] + path) == host,
{
    reveal_strlit("https://");
    reveal_strlit("http://");
    let (s, t) = ("https://"@, "http://"@);
    assert(s.len() == 8 && t.len() == 7 && s[4] == 's' && t[4] == ':');
    assert forall|i: int| 0 <= i < host.len() implies host[i] != '/' by {
        assert(host.contains(host[i]));
    }
    let rest = host + seq!['/'] + path;
    lemma_until_slash(host, path);
    assert(s.is_prefix_of(s + host) && t.is_prefix_of(t + host));
    assert((s + host).skip(8) =~= host && (t + host).skip(7) =~= host);
    let a = s + host + seq!['/'] + path;
    let b = t + host + seq!['/'] + path;
    assert(s.is_prefix_of(a) && t.is_prefix_of(b));
    assert(a.skip(8) =~= rest && b.skip(7) =~= rest);
    assert((t + host)[4] == ':' && b[4] == ':');
    assert(!s.is_prefix_of(t + host)) by {
        if s.is_prefix_of(t + host) {
            assert((t + host)[4] == s[4]);
        }
    }
    assert(!s.is_prefix_of(b)) by {
        if s.is_prefix_of(b) {
            assert(b[4] == s[4]);
        }
    }
}

proof fn lemma_until_slash(host: Seq<char>, path: Seq<char>)
    requires
        forall|i: int| 0 <= i < host.len() ==> host[i] != '/',
    ensures
        until_slash(host) == host,
        until_slash(host + seq!['/'] + path) == host,
{
    let rest = host + seq!['/'] + path;
    lemma_first_index(host, '/', host.len() as int);
    lemma_first_index(rest, '/', host.len() as int);
    assert(host.take(host.len() as int) =~= host);
    assert(rest.take(host.len() as int) =~= host);
}

/// The alerts in a state are those whose state it is, all of them, in order.
pub proof fn law_alerts_in_a_state(alerts: Seq<ActiveAlert>, state: Seq<char>)
    ensures
        forall|i: int| #[trigger]
            places_in_state(alerts, state).contains(i) <==> 0 <= i < alerts.len() && alerts[i].state@ == state,
        forall|i: int, j: int|
            0 <= i < j < places_in_state(alerts, state).len() ==> (#[trigger] places_in_state(alerts, state)[i]) < (
            #[trigger] places_in_state(alerts, state)[j]),
    decreases alerts.len(),
{
    if alerts.len() > 0 {
        let front = alerts.drop_last();
        let n = alerts.len() - 1;
        let before = places_in_state(front, state);
        let all = places_in_state(alerts, state);
        law_alerts_in_a_state(front, state);
        assert forall|i: int| 0 <= i < before.len() implies 0 <= #[trigger] before[i] < n by {
            assert(before.contains(before[i]));
        }
        assert forall|i: int| #[trigger] all.contains(i) <==> 0 <= i < alerts.len() && alerts[i].state@ == state by {
            if all.contains(i) {
                let k = choose|k: int| 0 <= k < all.len() && all[k] == i;
                if k < before.len() {
                    assert(before[k] == i);
                    assert(before.contains(i));
                    assert(front[i] == alerts[i]);
                }
            }
            if 0 <= i < alerts.len() && alerts[i].state@ == state {
                if i < n {
                    assert(front[i] == alerts[i]);
                    assert(before.contains(i));
                    let k = choose|k: int| 0 <= k < before.len() && before[k] == i;
                    assert(all[k] == i);
                } else {
                    assert(all[before.len() as int] == i);
                }
            }
        }
    }
}

/// Filling in a rule of one kind leaves every field of the other kind as it was.
pub proof fn law_fields_of_the_other_kind_stay(f: RuleForm, g: RuleForm)
    ensures
        same_metric_fields(f, g) ==> f.metric_name@ == g.metric_name@ && f.agg@ == g.agg@ && f.comparator@ == g.comparator@
            && f.threshold@ == g.threshold@ && f.window_secs@ == g.window_secs@ && f.filter@ == g.filter@,
        same_log_fields(f, g) ==> f.log_filter@ == g.log_filter@ && f.severity_min@ == g.severity_min@ && f.q@ == g.q@
            && f.log_comparator@ == g.log_comparator@ && f.log_threshold@ == g.log_threshold@ && f.log_window_secs@
            == g.log_window_secs@,
{
}

/// Nothing is said of a value that is missing, and of one that is there its digits
/// are told.
pub proof fn law_note_tells_the_value(value: Option<u64>)
    ensures
        value is None ==> alert_note(value).len() == 0,
        value matches Some(bits) ==> ({
            let note = alert_note(value);
            let digits = double_fixed(bits);
            &&& note.len() == digits.len() + 10
            &&& note.subrange(9, 9 + digits.len() as int) == digits
            &&& note[1] == '(' && note.last() == ')'
        }),
{
    reveal_strlit("");
    reveal_strlit(" (value: ");
    reveal_strlit(")");
    if let Some(bits) = value {
        let note = alert_note(value);
        assert(note.subrange(9, 9 + double_fixed(bits).len() as int) =~= double_fixed(bits));
    }
}

} // verus!
