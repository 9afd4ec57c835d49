//! Alert rules: what a rule holds, and which rules are taken.

use vstd::prelude::*;

use crate::json::{lemma_array_view, member, opt_json, text_member, Json, JsonView, NumberView};
use crate::query::metrics::is_agg;
use crate::text::{opt_str, opt_text, str_eq};
use crate::time::{utc_now, Timestamp, MAX_SECS, NANOS_PER_SEC};

verus! {

/// What is to become a rule.
pub struct CreateRuleRequest {
    pub name: String,
    pub kind: String,
    pub enabled: Option<bool>,
    pub severity: Option<String>,
    pub config: Json,
    pub for_secs: Option<i32>,
    pub webhook_url: Option<String>,
}

/// What is to change in a rule. The address of the webhook can be set, cleared,
/// or left as it is.
pub struct UpdateRuleRequest {
    pub name: Option<String>,
    pub enabled: Option<bool>,
    pub severity: Option<String>,
    pub config: Option<Json>,
    pub for_secs: Option<i32>,
    pub webhook_url: Option<Option<String>>,
}

/// The state of a rule.
pub struct AlertStateRow {
    pub state: String,
    pub since: Timestamp,
    /// The bits of the value last seen.
    pub last_value: Option<u64>,
    pub last_eval: Option<Timestamp>,
    pub last_notified: Option<Timestamp>,
    pub last_message: Option<String>,
}

/// A rule, with its state once it was evaluated.
pub struct AlertRule {
    pub id: i64,
    pub name: String,
    pub kind: String,
    pub enabled: bool,
    pub severity: String,
    pub config: Json,
    pub for_secs: i32,
    pub webhook_url: Option<String>,
    pub created_at: Timestamp,
    pub updated_at: Timestamp,
    pub state: Option<AlertStateRow>,
}

// ---------------------------------------------------------------------------
// Validation
// ---------------------------------------------------------------------------

/// The kinds of rules.
pub open spec fn is_kind(s: Seq<char>) -> bool {
    s == "metric"@ || s == "log"@
}

/// Whether there is a kind of that name.
pub fn valid_kind(kind: &str) -> (r: bool)
    ensures
        r == is_kind(kind@),
{
    str_eq(kind, "metric") || str_eq(kind, "log")
}

/// The severities.
pub open spec fn is_severity(s: Seq<char>) -> bool {
    s == "info"@ || s == "warning"@ || s == "critical"@
}

/// Whether there is a severity of that name.
pub fn valid_severity(s: &str) -> (r: bool)
    ensures
        r == is_severity(s@),
{
    str_eq(s, "info") || str_eq(s, "warning") || str_eq(s, "critical")
}

/// The text of a member, or a default where it is missing or no text.
pub open spec fn text_or(v: JsonView, key: Seq<char>, default: Seq<char>) -> Seq<char> {
    match text_member(v, key) {
        Some(s) => s,
        None => default,
    }
}

/// Why a configuration of a metric rule is not taken, if it is not.
pub open spec fn metric_config_fault(cfg: JsonView) -> Option<Seq<char>> {
    let comparator = text_or(cfg, "comparator"@, "gt"@);
    if !(cfg is Object) {
        Some("config must be an object"@)
    } else if text_member(cfg, "metric_name"@) is None {
        Some("metric config requires 'metric_name' (string)"@)
    } else if !is_agg(text_or(cfg, "agg"@, "avg"@)) {
        Some("metric config 'agg' must be avg|sum|min|max|count"@)
    } else if !(comparator == "gt"@ || comparator == "lt"@ || comparator == "gte"@ || comparator == "lte"@) {
        Some("metric config 'comparator' must be gt|lt|gte|lte"@)
    } else {
        None
    }
}

/// Why a configuration of a log rule is not taken, if it is not.
pub open spec fn log_config_fault(cfg: JsonView) -> Option<Seq<char>> {
    let comparator = text_or(cfg, "comparator"@, "gt"@);
    if !(cfg is Object) {
        Some("config must be an object"@)
    } else if !(comparator == "gt"@ || comparator == "gte"@) {
        Some("log config 'comparator' must be gt|gte"@)
    } else {
        None
    }
}

/// Why a configuration of a rule of some kind is not taken, if it is not.
pub open spec fn config_fault(kind: Seq<char>, cfg: JsonView) -> Option<Seq<char>> {
    if kind == "metric"@ {
        metric_config_fault(cfg)
    } else if kind == "log"@ {
        log_config_fault(cfg)
    } else {
        Some("kind must be 'metric' or 'log'"@)
    }
}

/// What the outcome of a check says against what was checked.
pub open spec fn fault_of(r: Result<(), &'static str>) -> Option<Seq<char>> {
    match r {
        Ok(_) => None,
        Err(m) => Some(m@),
    }
}

pub(crate) fn str_or<'a>(v: &'a Json, key: &str, default: &'a str) -> (r: &'a str)
    ensures
        r@ == text_or(v@, key@, default@),
{
    match v.get_str(key) {
        Some(s) => s,
        None => default,
    }
}

/// Checks the configuration of a metric rule.
pub fn validate_metric_config(cfg: &Json) -> (r: Result<(), &'static str>)
    ensures
        fault_of(r) == metric_config_fault(cfg@),
{
    match cfg {
        Json::Object(_) => {},
        _ => {
            return Err("config must be an object");
        },
    }
    if cfg.get_str("metric_name").is_none() {
        return Err("metric config requires 'metric_name' (string)");
    }
    let agg = str_or(cfg, "agg", "avg");
    if !(str_eq(agg, "avg") || str_eq(agg, "sum") || str_eq(agg, "min") || str_eq(agg, "max") || str_eq(
        agg,
        "count",
    )) {
        return Err("metric config 'agg' must be avg|sum|min|max|count");
    }
    let comparator = str_or(cfg, "comparator", "gt");
    if !(str_eq(comparator, "gt") || str_eq(comparator, "lt") || str_eq(comparator, "gte") || str_eq(
        comparator,
        "lte",
    )) {
        return Err("metric config 'comparator' must be gt|lt|gte|lte");
    }
    Ok(())
}

/// Checks the configuration of a log rule.
pub fn validate_log_config(cfg: &Json) -> (r: Result<(), &'static str>)
    ensures
        fault_of(r) == log_config_fault(cfg@),
{
    match cfg {
        Json::Object(_) => {},
        _ => {
            return Err("config must be an object");
        },
    }
    let comparator = str_or(cfg, "comparator", "gt");
    if !(str_eq(comparator, "gt") || str_eq(comparator, "gte")) {
        return Err("log config 'comparator' must be gt|gte");
    }
    Ok(())
}

/// Checks the configuration of a rule of some kind.
pub fn validate_rule(kind: &str, cfg: &Json) -> (r: Result<(), &'static str>)
    ensures
        fault_of(r) == config_fault(kind@, cfg@),
{
    if str_eq(kind, "metric") {
        validate_metric_config(cfg)
    } else if str_eq(kind, "log") {
        validate_log_config(cfg)
    } else {
        Err("kind must be 'metric' or 'log'")
    }
}

// ---------------------------------------------------------------------------
// Creating and updating
// ---------------------------------------------------------------------------

/// A rule as it is first stored.
pub struct NewRule {
    pub name: String,
    pub kind: String,
    pub enabled: bool,
    pub severity: String,
    pub config: Json,
    pub for_secs: i32,
    pub webhook_url: Option<String>,
}

/// The severity of a new rule: a warning where none is given.
pub open spec fn severity_asked(severity: Option<String>) -> Seq<char> {
    match severity {
        Some(s) => s@,
        None => "warning"@,
    }
}

/// Why a new rule is not taken, if it is not.
pub open spec fn create_fault(req: CreateRuleRequest) -> Option<Seq<char>> {
    if !is_kind(req.kind@) {
        Some("kind must be 'metric' or 'log'"@)
    } else if !is_severity(severity_asked(req.severity)) {
        Some("severity must be info|warning|critical"@)
    } else {
        config_fault(req.kind@, req.config@)
    }
}

/// The rule has what the request asks for. It is enabled and fires at once unless
/// the request says otherwise.
pub open spec fn is_new_rule(rule: NewRule, req: CreateRuleRequest) -> bool {
    &&& rule.name == req.name
    &&& rule.kind == req.kind
    &&& rule.enabled == (match req.enabled {
        Some(e) => e,
        None => true,
    })
    &&& rule.severity@ == severity_asked(req.severity)
    &&& rule.config == req.config
    &&& rule.for_secs == (match req.for_secs {
        Some(s) => s,
        None => 0,
    })
    &&& rule.webhook_url == req.webhook_url
}

/// The rule to store, or why it is not taken. A new rule is enabled and fires
/// at once unless the request says otherwise.
pub fn create_rule(req: CreateRuleRequest) -> (r: Result<NewRule, &'static str>)
    ensures
        match r {
            Ok(rule) => create_fault(req) is None && is_new_rule(rule, req),
            Err(m) => create_fault(req) == Some(m@),
        },
{
    if !valid_kind(req.kind.as_str()) {
        return Err("kind must be 'metric' or 'log'");
    }
    let severity = match req.severity {
        Some(s) => s,
        None => "warning".to_owned(),
    };
    if !valid_severity(severity.as_str()) {
        return Err("severity must be info|warning|critical");
    }
    if let Err(m) = validate_rule(req.kind.as_str(), &req.config) {
        return Err(m);
    }
    let enabled: bool = match req.enabled {
        Some(e) => e,
        None => true,
    };
    let for_secs: i32 = match req.for_secs {
        Some(s) => s,
        None => 0,
    };
    Ok(
        NewRule {
            name: req.name,
            kind: req.kind,
            enabled,
            severity,
            config: req.config,
            for_secs,
            webhook_url: req.webhook_url,
        },
    )
}

/// What an update stands for.
#[verifier::ext_equal]
pub struct UpdateView {
    pub name: Option<Seq<char>>,
    pub enabled: Option<bool>,
    pub severity: Option<Seq<char>>,
    pub config: Option<JsonView>,
    pub for_secs: Option<i32>,
    pub webhook_url: Option<Option<Seq<char>>>,
}

impl UpdateRuleRequest {
    pub open spec fn view(&self) -> UpdateView {
        UpdateView {
            name: opt_text(self.name),
            enabled: self.enabled,
            severity: opt_text(self.severity),
            config: opt_json(self.config),
            for_secs: self.for_secs,
            webhook_url: match self.webhook_url {
                Some(url) => Some(opt_text(url)),
                None => None,
            },
        }
    }
}

/// What a value that may be missing stands for.
pub open spec fn opt_view(v: Option<&Json>) -> Option<JsonView> {
    match v {
        Some(j) => Some(j@),
        None => None,
    }
}

/// The text that a member asks for, which may be left out or null; nothing where
/// it is of another type.
pub open spec fn text_asked(v: Option<JsonView>) -> Option<Option<Seq<char>>> {
    match v {
        None | Some(JsonView::Null) => Some(None),
        Some(JsonView::Str(s)) => Some(Some(s)),
        _ => None,
    }
}

/// The truth value that a member asks for, in the same way.
pub open spec fn bool_asked(v: Option<JsonView>) -> Option<Option<bool>> {
    match v {
        None | Some(JsonView::Null) => Some(None),
        Some(JsonView::Bool(b)) => Some(Some(b)),
        _ => None,
    }
}

/// The 32-bit integer that a member asks for, in the same way.
pub open spec fn int_asked(v: Option<JsonView>) -> Option<Option<i32>> {
    match v {
        None | Some(JsonView::Null) => Some(None),
        Some(JsonView::Number(NumberView::Int(n))) => if i32::MIN <= n <= i32::MAX {
            Some(Some(n as i32))
        } else {
            None
        },
        _ => None,
    }
}

/// The value that a member asks for, which may be left out or null.
pub open spec fn json_asked(v: Option<JsonView>) -> Option<JsonView> {
    match v {
        None | Some(JsonView::Null) => None,
        Some(j) => Some(j),
    }
}

/// What an update asks for the address of the webhook: left out, it stays; null
/// clears it.
pub open spec fn webhook_asked(v: Option<JsonView>) -> Option<Option<Option<Seq<char>>>> {
    match v {
        None => Some(None),
        Some(JsonView::Null) => Some(Some(None)),
        Some(JsonView::Str(s)) => Some(Some(Some(s))),
        _ => None,
    }
}

/// The members of an update can stand in an object, or all of them in order in an
/// array.
pub open spec fn holds_update(body: JsonView) -> bool {
    match body {
        JsonView::Object(_) => true,
        JsonView::Array(items) => items.len() == 6,
        _ => false,
    }
}

/// A member of an update, by its key or its place.
pub open spec fn field(body: JsonView, key: Seq<char>, at: int) -> Option<JsonView> {
    match body {
        JsonView::Array(items) => Some(items[at]),
        _ => member(body, key),
    }
}

/// The update that the body of a request asks for; nothing where it holds none or
/// a member is of the wrong type.
pub open spec fn update_of(body: JsonView) -> Option<UpdateView> {
    let name = text_asked(field(body, "name"@, 0));
    let enabled = bool_asked(field(body, "enabled"@, 1));
    let severity = text_asked(field(body, "severity"@, 2));
    let for_secs = int_asked(field(body, "for_secs"@, 4));
    let webhook_url = webhook_asked(field(body, "webhook_url"@, 5));
    if holds_update(body) && name is Some && enabled is Some && severity is Some && for_secs is Some && webhook_url is Some {
        Some(
            UpdateView {
                name: name->0,
                enabled: enabled->0,
                severity: severity->0,
                config: json_asked(field(body, "config"@, 3)),
                for_secs: for_secs->0,
                webhook_url: webhook_url->0,
            },
        )
    } else {
        None
    }
}

fn read_text(v: Option<&Json>) -> (r: Option<Option<String>>)
    ensures
        match r {
            Some(t) => text_asked(opt_view(v)) == Some(opt_text(t)),
            None => text_asked(opt_view(v)) is None,
        },
{
    match v {
        None | Some(Json::Null) => Some(None),
        Some(Json::Str(s)) => Some(Some(s.clone())),
        _ => None,
    }
}

fn read_bool(v: Option<&Json>) -> (r: Option<Option<bool>>)
    ensures
        r == bool_asked(opt_view(v)),
{
    match v {
        None | Some(Json::Null) => Some(None),
        Some(Json::Bool(b)) => Some(Some(*b)),
        _ => None,
    }
}

fn read_int(v: Option<&Json>) -> (r: Option<Option<i32>>)
    ensures
        r == int_asked(opt_view(v)),
{
    match v {
        None | Some(Json::Null) => Some(None),
        Some(j) => match j.as_i64() {
            Some(n) => if i32::MIN as i64 <= n && n <= i32::MAX as i64 {
                Some(Some(n as i32))
            } else {
                None
            },
            None => None,
        },
    }
}

fn read_json(v: Option<&Json>) -> (r: Option<Json>)
    ensures
        opt_json(r) == json_asked(opt_view(v)),
{
    match v {
        None | Some(Json::Null) => None,
        Some(j) => Some(j.copy()),
    }
}

fn read_webhook(v: Option<&Json>) -> (r: Option<Option<Option<String>>>)
    ensures
        match r {
            Some(None) => webhook_asked(opt_view(v)) == Some(None::<Option<Seq<char>>>),
            Some(Some(url)) => webhook_asked(opt_view(v)) == Some(Some(opt_text(url))),
            None => webhook_asked(opt_view(v)) is None,
        },
{
    match v {
        None => Some(None),
        Some(Json::Null) => Some(Some(None)),
        Some(Json::Str(s)) => Some(Some(Some(s.clone()))),
        _ => None,
    }
}

fn find_field<'a>(body: &'a Json, key: &str, at: usize) -> (r: Option<&'a Json>)
    requires
        holds_update(body@),
        at < 6,
    ensures
        opt_view(r) == field(body@, key@, at as int),
{
    match body {
        Json::Array(items) => {
            proof {
                lemma_array_view(*items);
            }
            Some(&items[at])
        },
        _ => body.get(key),
    }
}

/// The update that the body of a request asks for.
pub fn read_update(body: &Json) -> (r: Option<UpdateRuleRequest>)
    ensures
        match r {
            Some(req) => update_of(body@) == Some(req@),
            None => update_of(body@) is None,
        },
{
    match body {
        Json::Object(_) => {},
        Json::Array(items) => {
            proof {
                lemma_array_view(*items);
            }
            if items.len() != 6 {
                return None;
            }
        },
        _ => {
            return None;
        },
    }
    let name = read_text(find_field(body, "name", 0));
    let enabled = read_bool(find_field(body, "enabled", 1));
    let severity = read_text(find_field(body, "severity", 2));
    let config = read_json(find_field(body, "config", 3));
    let for_secs = read_int(find_field(body, "for_secs", 4));
    let webhook_url = read_webhook(find_field(body, "webhook_url", 5));
    match (name, enabled, severity, for_secs, webhook_url) {
        (Some(name), Some(enabled), Some(severity), Some(for_secs), Some(webhook_url)) => {
            Some(UpdateRuleRequest { name, enabled, severity, config, for_secs, webhook_url })
        },
        _ => None,
    }
}

/// What is found wrong with an update before the rule is looked up.
pub open spec fn update_severity_fault(req: UpdateRuleRequest) -> Option<Seq<char>> {
    match req.severity {
        Some(s) => if is_severity(s@) {
            None
        } else {
            Some("severity must be info|warning|critical"@)
        },
        None => None,
    }
}

/// Checks the severity of an update, before the rule is looked up.
pub fn check_update_severity(req: &UpdateRuleRequest) -> (r: Result<(), &'static str>)
    ensures
        fault_of(r) == update_severity_fault(*req),
{
    match &req.severity {
        Some(s) => if valid_severity(s.as_str()) {
            Ok(())
        } else {
            Err("severity must be info|warning|critical")
        },
        None => Ok(()),
    }
}

/// What is found wrong with an update of a rule of some kind.
pub open spec fn update_config_fault(req: UpdateRuleRequest, kind: Seq<char>) -> Option<Seq<char>> {
    match req.config {
        Some(cfg) => config_fault(kind, cfg@),
        None => None,
    }
}

/// The status of the answer to an update that is not made: the rule is not
/// there, or the update is not in order.
pub enum UpdateRefusal {
    NotFound,
    BadRequest(&'static str),
}

/// What an update is refused for, given the kind of the rule if it is there.
pub open spec fn update_refusal(req: UpdateRuleRequest, kind: Option<Seq<char>>) -> Option<Option<Seq<char>>> {
    if update_severity_fault(req) is Some {
        Some(update_severity_fault(req))
    } else {
        match kind {
            None => Some(None),
            Some(k) => if update_config_fault(req, k) is Some {
                Some(update_config_fault(req, k))
            } else {
                None
            },
        }
    }
}

/// Checks an update against the kind of the rule that it is for.
pub fn update_rule(req: &UpdateRuleRequest, existing_kind: Option<&str>) -> (r: Result<(), UpdateRefusal>)
    ensures
        match r {
            Ok(_) => update_refusal(*req, opt_str(existing_kind)) is None,
            Err(UpdateRefusal::NotFound) => update_refusal(*req, opt_str(existing_kind)) == Some(None::<Seq<char>>),
            Err(UpdateRefusal::BadRequest(m)) => update_refusal(*req, opt_str(existing_kind)) == Some(Some(m@)),
        },
{
    if let Err(m) = check_update_severity(req) {
        return Err(UpdateRefusal::BadRequest(m));
    }
    match existing_kind {
        None => Err(UpdateRefusal::NotFound),
        Some(kind) => match &req.config {
            Some(cfg) => match validate_rule(kind, cfg) {
                Ok(_) => Ok(()),
                Err(m) => Err(UpdateRefusal::BadRequest(m)),
            },
            None => Ok(()),
        },
    }
}

/// The address of the webhook after an update.
pub open spec fn webhook_after(stored: Option<Seq<char>>, update: UpdateView) -> Option<Seq<char>> {
    match update.webhook_url {
        Some(url) => url,
        None => stored,
    }
}

/// The address of the webhook after an update: whether it is set, and to what.
pub fn webhook_update(req: &UpdateRuleRequest) -> (r: (bool, Option<&str>))
    ensures
        match req.webhook_url {
            Some(url) => r.0 && opt_str(r.1) == opt_text(url),
            None => !r.0 && r.1 is None,
        },
        forall|stored: Option<Seq<char>>| #[trigger]
            webhook_after(stored, req@) == if r.0 {
                opt_str(r.1)
            } else {
                stored
            },
{
    match &req.webhook_url {
        Some(Some(url)) => (true, Some(url.as_str())),
        Some(None) => (true, None),
        None => (false, None),
    }
}

/// The status of the answer to a change or a removal, by the rows it concerned.
pub fn affected_status(rows: u64, done: u16) -> (status: u16)
    ensures
        status == (if rows == 0 {
            404u16
        } else {
            done
        }),
{
    if rows == 0 {
        404
    } else {
        done
    }
}

// ---------------------------------------------------------------------------
// Rows of the store
// ---------------------------------------------------------------------------

/// A rule as the store has it, with the columns of its state, if any.
pub struct RuleRow {
    pub id: i64,
    pub name: String,
    pub kind: String,
    pub enabled: bool,
    pub severity: String,
    pub config: Json,
    pub for_secs: i32,
    pub webhook_url: Option<String>,
    pub created_at: Timestamp,
    pub updated_at: Timestamp,
    pub state: Option<String>,
    pub since: Option<Timestamp>,
    pub last_value: Option<u64>,
    pub last_eval: Option<Timestamp>,
    pub last_notified: Option<Timestamp>,
    pub last_message: Option<String>,
}

/// The rule has the fields of the row, and a state where the row has one. A
/// state of unknown age counts from `now`.
pub open spec fn rule_of_row(rule: AlertRule, row: RuleRow, now: Timestamp) -> bool {
    &&& rule.id == row.id
    &&& rule.name == row.name
    &&& rule.kind == row.kind
    &&& rule.enabled == row.enabled
    &&& rule.severity == row.severity
    &&& rule.config == row.config
    &&& rule.for_secs == row.for_secs
    &&& rule.webhook_url == row.webhook_url
    &&& rule.created_at == row.created_at
    &&& rule.updated_at == row.updated_at
    &&& match row.state {
        Some(st) => rule.state matches Some(s) && s.state == st && s.since == (match row.since {
            Some(t) => t,
            None => now,
        }) && s.last_value == row.last_value && s.last_eval == row.last_eval && s.last_notified == row.last_notified
            && s.last_message == row.last_message,
        None => rule.state is None,
    }
}

/// The rule of a row, read at `now`.
pub fn rule_from_row_at(row: RuleRow, now: Timestamp) -> (rule: AlertRule)
    ensures
        rule_of_row(rule, row, now),
{
    let state = match row.state {
        Some(st) => Some(
            AlertStateRow {
                state: st,
                since: match row.since {
                    Some(t) => t,
                    None => now,
                },
                last_value: row.last_value,
                last_eval: row.last_eval,
                last_notified: row.last_notified,
                last_message: row.last_message,
            },
        ),
        None => None,
    };
    AlertRule {
        id: row.id,
        name: row.name,
        kind: row.kind,
        enabled: row.enabled,
        severity: row.severity,
        config: row.config,
        for_secs: row.for_secs,
        webhook_url: row.webhook_url,
        created_at: row.created_at,
        updated_at: row.updated_at,
        state,
    }
}

/// The rule of a row, read at the present.
pub fn rule_from_row(row: RuleRow) -> (rule: AlertRule)
    ensures
        exists|now: Timestamp|
            0 <= now.secs <= MAX_SECS && now.nanos < NANOS_PER_SEC && #[trigger] rule_of_row(rule, row, now),
{
    let now = utc_now();
    rule_from_row_at(row, now)
}

// ---------------------------------------------------------------------------
// Laws
// ---------------------------------------------------------------------------

/// A member of a configuration is one of the names, or is no text at all, so that
/// its default counts.
pub open spec fn names_one_of(cfg: JsonView, key: Seq<char>, names: Seq<Seq<char>>) -> bool {
    member(cfg, key) matches Some(JsonView::Str(s)) ==> names.contains(s)
}

/// A metric rule is taken exactly where its configuration is an object that names a
/// metric, and an aggregation and a comparator that there are, if any.
pub proof fn law_metric_rules_that_are_taken(cfg: JsonView)
    ensures
        metric_config_fault(cfg) is None <==> {
            &&& cfg is Object
            &&& member(cfg, "metric_name"@) matches Some(JsonView::Str(_))
            &&& names_one_of(cfg, "agg"@, seq!["avg"@, "sum"@, "min"@, "max"@, "count"@])
            &&& names_one_of(cfg, "comparator"@, seq!["gt"@, "lt"@, "gte"@, "lte"@])
        },
        config_fault("metric"@, cfg) == metric_config_fault(cfg),
{
    let aggs = seq!["avg"@, "sum"@, "min"@, "max"@, "count"@];
    let comparators = seq!["gt"@, "lt"@, "gte"@, "lte"@];
    assert(aggs[0] == "avg"@ && aggs[1] == "sum"@ && aggs[2] == "min"@ && aggs[3] == "max"@ && aggs[4] == "count"@);
    assert(comparators[0] == "gt"@ && comparators[1] == "lt"@ && comparators[2] == "gte"@ && comparators[3] == "lte"@);
}

/// A log rule is taken exactly where its configuration is an object that names one
/// of the two comparators for logs, if any.
pub proof fn law_log_rules_that_are_taken(cfg: JsonView)
    ensures
        log_config_fault(cfg) is None <==> cfg is Object && names_one_of(cfg, "comparator"@, seq!["gt"@, "gte"@]),
        config_fault("log"@, cfg) == log_config_fault(cfg),
{
    let comparators = seq!["gt"@, "gte"@];
    assert(comparators[0] == "gt"@ && comparators[1] == "gte"@);
    reveal_strlit("metric");
    reveal_strlit("log");
    assert("metric"@.len() == 6 && "log"@.len() == 3);
}

/// A new rule is taken exactly where it is a metric rule or a log rule, its
/// severity, if any is given, is one that there is, and its configuration is taken
/// for its kind.
pub proof fn law_rules_that_are_taken(req: CreateRuleRequest)
    ensures
        create_fault(req) is None <==> {
            &&& req.kind@ == "metric"@ || req.kind@ == "log"@
            &&& req.severity matches Some(s) ==> s@ == "info"@ || s@ == "warning"@ || s@ == "critical"@
            &&& req.kind@ == "metric"@ ==> metric_config_fault(req.config@) is None
            &&& req.kind@ == "log"@ ==> log_config_fault(req.config@) is None
        },
{
    reveal_strlit("metric");
    reveal_strlit("log");
    assert("metric"@.len() == 6 && "log"@.len() == 3);
}

/// A new rule is what was asked for: what the request leaves out is enabled, a
/// warning, and fires at once; all else is as the request has it.
pub proof fn law_new_rule_is_what_was_asked_for(rule: NewRule, req: CreateRuleRequest)
    requires
        is_new_rule(rule, req),
    ensures
        rule.name@ == req.name@ && rule.kind@ == req.kind@ && rule.config@ == req.config@,
        opt_text(rule.webhook_url) == opt_text(req.webhook_url),
        req.enabled matches Some(e) ==> rule.enabled == e,
        req.enabled is None ==> rule.enabled,
        req.severity matches Some(s) ==> rule.severity@ == s@,
        req.severity is None ==> rule.severity@ == "warning"@,
        req.for_secs matches Some(n) ==> rule.for_secs == n,
        req.for_secs is None ==> rule.for_secs == 0,
{
}

/// What a body says of one thing: nothing, by leaving it out or by null, or the
/// value.
pub open spec fn says<T>(asked: Option<T>, v: Option<JsonView>, value: Option<T>) -> bool {
    &&& v is None || v == Some(JsonView::Null) ==> asked is None
    &&& v is Some && v != Some(JsonView::Null) ==> asked == value
}

/// The text of a value.
pub open spec fn text_in(v: Option<JsonView>) -> Option<Seq<char>> {
    match v {
        Some(JsonView::Str(s)) => Some(s),
        _ => None,
    }
}

/// An update changes what its body says, and nothing else: each part is looked up
/// by its key in an object, and by its place in an array. An address of the webhook
/// that is null is cleared, and one that is left out stays.
pub proof fn law_update_changes_what_its_body_says(body: JsonView)
    ensures
        body is Object ==> (update_of(body) matches Some(u) ==> {
            &&& says(u.name, member(body, "name"@), text_in(member(body, "name"@)))
            &&& says(u.severity, member(body, "severity"@), text_in(member(body, "severity"@)))
            &&& says(u.config, member(body, "config"@), member(body, "config"@))
            &&& member(body, "enabled"@) matches Some(JsonView::Bool(b)) ==> u.enabled == Some(b)
            &&& member(body, "enabled"@) is None ==> u.enabled is None
            &&& member(body, "for_secs"@) matches Some(JsonView::Number(NumberView::Int(n))) ==> u.for_secs is Some
                && u.for_secs->0 == n
            &&& member(body, "for_secs"@) is None ==> u.for_secs is None
            &&& member(body, "webhook_url"@) is None ==> u.webhook_url is None
            &&& member(body, "webhook_url"@) == Some(JsonView::Null) ==> u.webhook_url == Some(None::<Seq<char>>)
            &&& member(body, "webhook_url"@) matches Some(JsonView::Str(s)) ==> u.webhook_url == Some(Some(s))
        }),
        body matches JsonView::Array(items) ==> (update_of(body) matches Some(u) ==> {
            &&& items.len() == 6
            &&& says(u.name, Some(items[0]), text_in(Some(items[0])))
            &&& items[1] matches JsonView::Bool(b) ==> u.enabled == Some(b)
            &&& says(u.severity, Some(items[2]), text_in(Some(items[2])))
            &&& says(u.config, Some(items[3]), Some(items[3]))
            &&& items[4] matches JsonView::Number(NumberView::Int(n)) ==> u.for_secs is Some && u.for_secs->0 == n
            &&& items[5] is Null ==> u.webhook_url == Some(None::<Seq<char>>)
            &&& items[5] matches JsonView::Str(s) ==> u.webhook_url == Some(Some(s))
        }),
{
}

/// A part of an update is of the right type: left out, null, or as it should be.
pub open spec fn can_be_read(v: Option<JsonView>, right: bool) -> bool {
    v is None || v == Some(JsonView::Null) || right
}

/// A body that is an object is read exactly where each part is of the right type;
/// what is neither an object nor an array is not read.
pub proof fn law_updates_that_are_read(body: JsonView)
    ensures
        body is Object ==> (update_of(body) is Some <==> {
            &&& can_be_read(member(body, "name"@), member(body, "name"@)->0 is Str)
            &&& can_be_read(member(body, "enabled"@), member(body, "enabled"@)->0 is Bool)
            &&& can_be_read(member(body, "severity"@), member(body, "severity"@)->0 is Str)
            &&& can_be_read(
                member(body, "for_secs"@),
                (member(body, "for_secs"@)->0 matches JsonView::Number(NumberView::Int(n)) && i32::MIN <= n <= i32::MAX),
            )
            &&& can_be_read(member(body, "webhook_url"@), member(body, "webhook_url"@)->0 is Str)
        }),
        !(body is Object) && !(body is Array) ==> update_of(body) is None,
{
}

/// An update is refused where its severity is not one that there is, whatever the
/// rule; or else where there is no such rule; or else where the rule does not take
/// its configuration. It is made otherwise.
pub proof fn law_updates_that_are_refused(req: UpdateRuleRequest, kind: Option<Seq<char>>)
    ensures
        ({
            let known = req.severity is None || req.severity->0@ == "info"@ || req.severity->0@ == "warning"@
                || req.severity->0@ == "critical"@;
            &&& !known ==> (update_refusal(req, kind) matches Some(told) && told is Some)
            &&& known && kind is None ==> update_refusal(req, kind) == Some(None::<Seq<char>>)
            &&& known && kind is Some && req.config is None ==> update_refusal(req, kind) is None
            &&& known && kind is Some && req.config is Some ==> (update_refusal(req, kind) is None <==> config_fault(
                kind->0,
                req.config->0@,
            ) is None)
            &&& known && kind is Some && req.config is Some && config_fault(kind->0, req.config->0@) is Some
                ==> update_refusal(req, kind) == Some(config_fault(kind->0, req.config->0@))
        }),
{
}

/// After an update the address of the webhook is the one that was set, or none
/// where it was cleared, or the one that it was where nothing was said of it.
pub proof fn law_webhook_after_an_update(stored: Option<Seq<char>>, update: UpdateView)
    ensures
        update.webhook_url is None ==> webhook_after(stored, update) == stored,
        update.webhook_url == Some(None::<Seq<char>>) ==> webhook_after(stored, update) is None,
        update.webhook_url matches Some(Some(url)) ==> webhook_after(stored, update) == Some(url),
{
}

/// A rule that was read from the store has each of its fields from the column of
/// that name.
pub proof fn law_rule_is_that_of_its_row(rule: AlertRule, row: RuleRow, now: Timestamp)
    requires
        rule_of_row(rule, row, now),
    ensures
        rule.id == row.id && rule.name@ == row.name@ && rule.kind@ == row.kind@ && rule.enabled == row.enabled,
        rule.severity@ == row.severity@ && rule.config@ == row.config@ && rule.for_secs == row.for_secs,
        opt_text(rule.webhook_url) == opt_text(row.webhook_url),
        rule.created_at == row.created_at && rule.updated_at == row.updated_at,
        rule.state is Some <==> row.state is Some,
        rule.state matches Some(s) ==> {
            &&& s.state@ == row.state->0@
            &&& row.since matches Some(t) ==> s.since == t
            &&& row.since is None ==> s.since == now
            &&& s.last_value == row.last_value
            &&& s.last_eval == row.last_eval
            &&& s.last_notified == row.last_notified
            &&& opt_text(s.last_message) == opt_text(row.last_message)
        },
{
}

/// An update stands for its fields.
pub proof fn law_update_stands_for_its_fields(u: UpdateRuleRequest)
    ensures
        u@.name == opt_text(u.name) && u@.enabled == u.enabled && u@.severity == opt_text(u.severity),
        u@.config == opt_json(u.config) && u@.for_secs == u.for_secs,
        u.webhook_url is None ==> u@.webhook_url is None,
        u.webhook_url matches Some(url) ==> u@.webhook_url == Some(opt_text(url)),
{
}

/// A configuration that is taken has no fault, and one that is refused has the fault
/// that the refusal tells.
pub proof fn law_refusal_tells_the_fault(r: Result<(), &'static str>)
    ensures
        r is Ok <==> fault_of(r) is None,
        r matches Err(m) ==> fault_of(r) == Some(m@),
{
}

} // verus!
