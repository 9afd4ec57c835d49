//! Evening out the two ways in which OTLP/JSON writes 64-bit numbers.
//!
//! OTLP/JSON writes a 64-bit number as a string, and some senders write it as
//! a number. The decoder takes only one form of each field. The rules below
//! bring the fields that differ into the form that the decoder takes.

use vstd::prelude::*;

use crate::json::{
    canonical, canonical_json, find_key, key_index, lemma_array_view, lemma_key_index, lemma_lookup_at, lemma_object_view,
    member, member_views, parse_json, parsed_json, views, well_formed, Json, JsonNumber, JsonView, NumberView,
};
use crate::text::{decimal, is_digit, lemma_decimal, parse_int_spec, parse_u64, push_decimal};

verus! {

/// A change to a JSON value.
pub enum Rule {
    /// A string that is a 64-bit number becomes that number.
    NumberOfText,
    /// A 64-bit number becomes a string.
    TextOfNumber,
    /// Each item of an array is changed.
    Items(Box<Rule>),
    /// One member of an object is changed, if it is there.
    Member(&'static str, Box<Rule>),
    /// One change, then another.
    Then(Box<Rule>, Box<Rule>),
}

/// What a change stands for.
pub enum RuleView {
    NumberOfText,
    TextOfNumber,
    Items(Box<RuleView>),
    Member(Seq<char>, Box<RuleView>),
    Then(Box<RuleView>, Box<RuleView>),
}

impl Rule {
    pub open spec fn view(&self) -> RuleView
        decreases self,
    {
        match self {
            Rule::NumberOfText => RuleView::NumberOfText,
            Rule::TextOfNumber => RuleView::TextOfNumber,
            Rule::Items(r) => RuleView::Items(Box::new(r.view())),
            Rule::Member(key, r) => RuleView::Member(key@, Box::new(r.view())),
            Rule::Then(a, b) => RuleView::Then(Box::new(a.view()), Box::new(b.view())),
        }
    }
}

/// A string that is a 64-bit number as that number; anything else as it is.
pub open spec fn number_of_text(v: JsonView) -> JsonView {
    match v {
        JsonView::Str(s) => match parse_int_spec(s, false, 0, u64::MAX as int) {
            Some(n) => JsonView::Number(NumberView::Int(n)),
            None => v,
        },
        _ => v,
    }
}

/// A non-negative 64-bit number as a string; anything else as it is.
pub open spec fn text_of_number(v: JsonView) -> JsonView {
    match v {
        JsonView::Number(NumberView::Int(n)) => if 0 <= n <= u64::MAX {
            JsonView::Str(decimal(n as nat))
        } else {
            v
        },
        _ => v,
    }
}

/// A value after a change.
pub open spec fn applied(rule: RuleView, v: JsonView) -> JsonView
    decreases rule, 0nat,
{
    match rule {
        RuleView::NumberOfText => number_of_text(v),
        RuleView::TextOfNumber => text_of_number(v),
        RuleView::Items(r) => match v {
            JsonView::Array(items) => JsonView::Array(applied_items(*r, items)),
            _ => v,
        },
        RuleView::Member(key, r) => match v {
            JsonView::Object(members) => {
                let i = key_index(members, key);
                if i < 0 {
                    v
                } else {
                    JsonView::Object(members.update(i, (members[i].0, applied(*r, members[i].1))))
                }
            },
            _ => v,
        },
        RuleView::Then(a, b) => applied(*b, applied(*a, v)),
    }
}

/// Values after the same change to each.
pub open spec fn applied_items(rule: RuleView, items: Seq<JsonView>) -> Seq<JsonView>
    decreases rule, 1 + items.len(),
{
    if items.len() == 0 {
        Seq::empty()
    } else {
        applied_items(rule, items.drop_last()).push(applied(rule, items.last()))
    }
}

/// Each item is changed by itself.
pub proof fn lemma_applied_items(rule: RuleView, items: Seq<JsonView>)
    ensures
        applied_items(rule, items).len() == items.len(),
        forall|i: int| 0 <= i < items.len() ==> #[trigger] applied_items(rule, items)[i] == applied(rule, items[i]),
    decreases items.len(),
{
    if items.len() > 0 {
        lemma_applied_items(rule, items.drop_last());
    }
}

/// Changes a value.
pub fn apply(rule: &Rule, v: &mut Json)
    ensures
        final(v)@ == applied(rule@, old(v)@),
    decreases rule, 0int,
{
    match rule {
        Rule::NumberOfText => {
            let n: Option<u64> = match v.as_str() {
                Some(s) => parse_u64(s),
                None => None,
            };
            if let Some(n) = n {
                *v = Json::Number(JsonNumber::PosInt(n));
            }
        },
        Rule::TextOfNumber => {
            let n: Option<u64> = match v {
                Json::Number(JsonNumber::PosInt(n)) => Some(*n),
                Json::Number(JsonNumber::NegInt(n)) => if *n >= 0 {
                    Some(*n as u64)
                } else {
                    None
                },
                _ => None,
            };
            if let Some(n) = n {
                let mut s = String::new();
                push_decimal(&mut s, n);
                assert(s@ =~= decimal(n as nat));
                *v = Json::Str(s);
            }
        },
        Rule::Items(r) => {
            match v {
                Json::Array(items) => {
                    proof {
                        lemma_array_view(*items);
                    }
                    apply_items(r, items);
                    proof {
                        lemma_array_view(*items);
                    }
                },
                _ => {},
            }
        },
        Rule::Member(key, r) => {
            match v {
                Json::Object(members) => {
                    proof {
                        lemma_object_view(*members);
                        lemma_key_index(member_views(members@), key@);
                    }
                    if let Some(i) = find_key(members, key) {
                        let ghost before = member_views(members@);
                        apply(r, &mut members[i].1);
                        proof {
                            lemma_object_view(*members);
                            assert(member_views(members@) =~= before.update(
                                i as int,
                                (before[i as int].0, applied(r@, before[i as int].1)),
                            ));
                        }
                    }
                },
                _ => {},
            }
        },
        Rule::Then(a, b) => {
            apply(a, v);
            apply(b, v);
        },
    }
}

fn apply_items(rule: &Rule, items: &mut Vec<Json>)
    ensures
        views(final(items)@) == applied_items(rule@, views(old(items)@)),
    decreases rule, 1int,
{
    let mut i: usize = 0;
    while i < items.len()
        invariant
            i <= items@.len(),
            items@.len() == old(items)@.len(),
            forall|j: int| 0 <= j < i ==> (#[trigger] items@[j])@ == applied(rule@, old(items)@[j]@),
            forall|j: int| i <= j < items@.len() ==> items@[j] == old(items)@[j],
        decreases items.len() - i,
    {
        apply(rule, &mut items[i]);
        i += 1;
    }
    proof {
        lemma_applied_items(rule@, views(old(items)@));
        assert(views(items@) =~= applied_items(rule@, views(old(items)@)));
    }
}

// ---------------------------------------------------------------------------
// The rules for OTLP
// ---------------------------------------------------------------------------

/// Each item of a list of an object.
pub open spec fn each_view(list: &str, rule: RuleView) -> RuleView {
    RuleView::Member(list@, Box::new(RuleView::Items(Box::new(rule))))
}

/// Each data point of a metric of one kind.
pub open spec fn points_view(kind: &str, rule: RuleView) -> RuleView {
    RuleView::Member(kind@, Box::new(each_view("dataPoints", rule)))
}

/// One member of an object.
pub open spec fn field_view(key: &str, rule: RuleView) -> RuleView {
    RuleView::Member(key@, Box::new(rule))
}

pub open spec fn then_view(a: RuleView, b: RuleView) -> RuleView {
    RuleView::Then(Box::new(a), Box::new(b))
}

/// The times of the exemplars of a data point are numbers.
pub open spec fn exemplars_view() -> RuleView {
    each_view("exemplars", field_view("timeUnixNano", RuleView::NumberOfText))
}

/// The count and the bucket counts of a histogram data point are numbers, and
/// so are the times of its exemplars.
pub open spec fn histogram_point_view() -> RuleView {
    then_view(
        then_view(
            field_view("count", RuleView::NumberOfText),
            each_view("bucketCounts", RuleView::NumberOfText),
        ),
        exemplars_view(),
    )
}

pub open spec fn metric_view() -> RuleView {
    then_view(
        then_view(points_view("histogram", histogram_point_view()), points_view("gauge", exemplars_view())),
        points_view("sum", exemplars_view()),
    )
}

/// The start and the end of a span are strings.
pub open spec fn span_view() -> RuleView {
    then_view(
        field_view("startTimeUnixNano", RuleView::TextOfNumber),
        field_view("endTimeUnixNano", RuleView::TextOfNumber),
    )
}

/// The rules for a request: those for its metrics and those for its spans.
pub open spec fn otlp_view() -> RuleView {
    then_view(
        each_view("resourceMetrics", each_view("scopeMetrics", each_view("metrics", metric_view()))),
        each_view("resourceSpans", each_view("scopeSpans", each_view("spans", span_view()))),
    )
}

fn each(list: &'static str, rule: Rule) -> (r: Rule)
    ensures
        r@ == each_view(list, rule@),
{
    let items = Rule::Items(Box::new(rule));
    assert(items@ == RuleView::Items(Box::new(rule@)));
    Rule::Member(list, Box::new(items))
}

fn points(kind: &'static str, rule: Rule) -> (r: Rule)
    ensures
        r@ == points_view(kind, rule@),
{
    Rule::Member(kind, Box::new(each("dataPoints", rule)))
}

fn field(key: &'static str, rule: Rule) -> (r: Rule)
    ensures
        r@ == field_view(key, rule@),
{
    Rule::Member(key, Box::new(rule))
}

fn then_rule(a: Rule, b: Rule) -> (r: Rule)
    ensures
        r@ == then_view(a@, b@),
{
    Rule::Then(Box::new(a), Box::new(b))
}

fn exemplars() -> (r: Rule)
    ensures
        r@ == exemplars_view(),
{
    each("exemplars", field("timeUnixNano", Rule::NumberOfText))
}

fn metric_rule() -> (r: Rule)
    ensures
        r@ == metric_view(),
{
    let point = then_rule(
        then_rule(field("count", Rule::NumberOfText), each("bucketCounts", Rule::NumberOfText)),
        exemplars(),
    );
    then_rule(then_rule(points("histogram", point), points("gauge", exemplars())), points("sum", exemplars()))
}

fn span_rule() -> (r: Rule)
    ensures
        r@ == span_view(),
{
    then_rule(field("startTimeUnixNano", Rule::TextOfNumber), field("endTimeUnixNano", Rule::TextOfNumber))
}

/// Brings the 64-bit numbers of a request into the form that the decoder takes.
/// What is missing or malformed is left as it is.
pub fn normalize_value(root: &mut Json)
    ensures
        final(root)@ == applied(otlp_view(), old(root)@),
{
    let rule = then_rule(
        each("resourceMetrics", each("scopeMetrics", each("metrics", metric_rule()))),
        each("resourceSpans", each("scopeSpans", each("spans", span_rule()))),
    );
    apply(&rule, root);
}

/// The text of a request in OTLP/JSON, with its 64-bit numbers in the form that
/// the decoder takes.
pub fn normalize_otlp_json(body: &[u8]) -> (r: Result<String, String>)
    ensures
        match r {
            Ok(text) => parsed_json(body@) matches Ok(v) && text@ == canonical(applied(otlp_view(), v)),
            Err(e) => parsed_json(body@) matches Err(m) && e@ == "json parse: "@ + m,
        },
{
    match parse_json(body) {
        Ok(root) => {
            let mut root = root;
            normalize_value(&mut root);
            Ok(canonical_json(&root))
        },
        Err(m) => {
            let mut e = "json parse: ".to_owned();
            e.push_str(m.as_str());
            Err(e)
        },
    }
}

// ---------------------------------------------------------------------------
// Laws
// ---------------------------------------------------------------------------

/// A 64-bit number that was sent as a string and one that was sent as a number
/// come out the same, under either rule.
pub proof fn law_both_forms_agree(n: u64)
    ensures
        number_of_text(JsonView::Str(decimal(n as nat))) == JsonView::Number(NumberView::Int(n as int)),
        number_of_text(JsonView::Number(NumberView::Int(n as int))) == JsonView::Number(NumberView::Int(n as int)),
        text_of_number(JsonView::Number(NumberView::Int(n as int))) == JsonView::Str(decimal(n as nat)),
        text_of_number(JsonView::Str(decimal(n as nat))) == JsonView::Str(decimal(n as nat)),
{
    lemma_decimal(n as nat);
    assert(is_digit(decimal(n as nat)[0]));
}

/// A change that finds no such member changes nothing.
pub proof fn law_missing_member_is_skipped(key: Seq<char>, rule: RuleView, v: JsonView)
    requires
        member(v, key) is None,
    ensures
        applied(RuleView::Member(key, Box::new(rule)), v) == v,
{
    match v {
        JsonView::Object(members) => {
            lemma_key_index(members, key);
        },
        _ => {},
    }
}

/// Changing a value twice by a rule for numbers is changing it once.
pub proof fn law_numbers_settle(v: JsonView)
    ensures
        number_of_text(number_of_text(v)) == number_of_text(v),
        text_of_number(text_of_number(v)) == text_of_number(v),
{
}

/// A change keeps the keys of every object.
pub proof fn law_keys_stay(rule: RuleView, v: JsonView)
    requires
        well_formed(v),
    ensures
        well_formed(applied(rule, v)),
        (v is Object) == (applied(rule, v) is Object),
        v is Object ==> applied(rule, v)->Object_0.len() == v->Object_0.len(),
        v is Object ==> forall|i: int|
            0 <= i < v->Object_0.len() ==> (#[trigger] applied(rule, v)->Object_0[i]).0 == v->Object_0[i].0,
    decreases rule,
{
    match rule {
        RuleView::Items(r) => {
            if let JsonView::Array(items) = v {
                lemma_applied_items(*r, items);
                let after = applied_items(*r, items);
                assert forall|i: int| 0 <= i < after.len() implies well_formed(#[trigger] after[i]) by {
                    assert(well_formed(items[i]));
                    law_keys_stay(*r, items[i]);
                }
            }
        },
        RuleView::Member(key, r) => {
            if let JsonView::Object(members) = v {
                lemma_key_index(members, key);
                let i = key_index(members, key);
                if i >= 0 {
                    assert(well_formed(members[i].1));
                    law_keys_stay(*r, members[i].1);
                    let after = members.update(i, (members[i].0, applied(*r, members[i].1)));
                    assert forall|j: int| 0 <= j < after.len() implies well_formed((#[trigger] after[j]).1) by {
                        if j != i {
                            assert(after[j] == members[j]);
                        }
                    }
                    assert forall|j: int, k: int|
                        0 <= j < after.len() && 0 <= k < after.len() && j != k implies (#[trigger] after[j]).0 != (
                    #[trigger] after[k]).0 by {
                        assert(members[j].0 != members[k].0);
                    }
                }
            }
        },
        RuleView::Then(a, b) => {
            law_keys_stay(*a, v);
            law_keys_stay(*b, applied(*a, v));
        },
        _ => {},
    }
}

/// A change to a member changes that member, and no other.
proof fn lemma_member_changed(key: Seq<char>, rule: RuleView, v: JsonView, other: Seq<char>)
    ensures
        member(v, key) matches Some(old) ==> member(applied(RuleView::Member(key, Box::new(rule)), v), key) == Some(
            applied(rule, old),
        ),
        member(v, key) is None ==> member(applied(RuleView::Member(key, Box::new(rule)), v), key) is None,
        other != key ==> member(applied(RuleView::Member(key, Box::new(rule)), v), other) == member(v, other),
{
    if let JsonView::Object(members) = v {
        lemma_key_index(members, key);
        let i = key_index(members, key);
        if i >= 0 {
            let after = members.update(i, (members[i].0, applied(rule, members[i].1)));
            assert forall|j: int| i < j < after.len() implies (#[trigger] after[j]).0 != key by {
                assert(after[j] == members[j]);
            }
            lemma_lookup_at(after, key, i);
            if other != key {
                lemma_key_index(members, other);
                let k = key_index(members, other);
                if k >= 0 {
                    assert(after[k] == members[k]);
                    assert forall|j: int| k < j < after.len() implies (#[trigger] after[j]).0 != other by {
                        assert(after[j].0 == members[j].0);
                    }
                    lemma_lookup_at(after, other, k);
                } else {
                    lemma_key_index(after, other);
                    let j = key_index(after, other);
                    if j >= 0 {
                        assert(after[j].0 == members[j].0);
                        assert(members[j].0 != other);
                    }
                }
            }
        }
    }
}

/// An item of a list that an object has under a key.
pub open spec fn item(v: JsonView, list: Seq<char>, i: int) -> Option<JsonView> {
    match member(v, list) {
        Some(JsonView::Array(items)) => if 0 <= i < items.len() {
            Some(items[i])
        } else {
            None
        },
        _ => None,
    }
}

proof fn lemma_item_changed(list: &str, rule: RuleView, v: JsonView, i: int, other: Seq<char>)
    ensures
        item(v, list@, i) matches Some(old) ==> item(applied(each_view(list, rule), v), list@, i) == Some(
            applied(rule, old),
        ),
        item(v, list@, i) is None ==> item(applied(each_view(list, rule), v), list@, i) is None,
        other != list@ ==> member(applied(each_view(list, rule), v), other) == member(v, other),
{
    let items_rule = RuleView::Items(Box::new(rule));
    lemma_member_changed(list@, items_rule, v, other);
    if let Some(old) = member(v, list@) {
        if let JsonView::Array(items) = old {
            lemma_applied_items(rule, items);
        }
    }
}

/// A span of a request.
pub open spec fn span_at(root: JsonView, a: int, b: int, c: int) -> Option<JsonView> {
    match item(root, "resourceSpans"@, a) {
        Some(r) => match item(r, "scopeSpans"@, b) {
            Some(s) => item(s, "spans"@, c),
            None => None,
        },
        None => None,
    }
}

/// A metric of a request.
pub open spec fn metric_at(root: JsonView, a: int, b: int, c: int) -> Option<JsonView> {
    match item(root, "resourceMetrics"@, a) {
        Some(r) => match item(r, "scopeMetrics"@, b) {
            Some(s) => item(s, "metrics"@, c),
            None => None,
        },
        None => None,
    }
}

/// A data point of a metric of one kind.
pub open spec fn point_at(metric: JsonView, kind: Seq<char>, i: int) -> Option<JsonView> {
    match member(metric, kind) {
        Some(k) => item(k, "dataPoints"@, i),
        None => None,
    }
}

proof fn lemma_key_names()
    ensures
        "resourceMetrics"@.len() == 15,
        "resourceSpans"@.len() == 13,
        "startTimeUnixNano"@.len() == 17,
        "endTimeUnixNano"@.len() == 15,
        "histogram"@.len() == 9,
        "gauge"@.len() == 5,
        "sum"@.len() == 3,
        "count"@.len() == 5,
        "bucketCounts"@.len() == 12,
        "exemplars"@.len() == 9,
        "timeUnixNano"@.len() == 12,
        "bucketCounts"@[0] == 'b',
        "timeUnixNano"@[0] == 't',
{
    reveal_strlit("resourceMetrics");
    reveal_strlit("resourceSpans");
    reveal_strlit("startTimeUnixNano");
    reveal_strlit("endTimeUnixNano");
    reveal_strlit("histogram");
    reveal_strlit("gauge");
    reveal_strlit("sum");
    reveal_strlit("count");
    reveal_strlit("bucketCounts");
    reveal_strlit("exemplars");
    reveal_strlit("timeUnixNano");
}

/// A value is another with its 64-bit numbers as texts.
pub open spec fn is_text_form(after: Option<JsonView>, before: Option<JsonView>) -> bool {
    match before {
        Some(JsonView::Number(NumberView::Int(n))) => if 0 <= n <= u64::MAX {
            after == Some(JsonView::Str(decimal(n as nat)))
        } else {
            after == before
        },
        _ => after == before,
    }
}

/// A value is another with the decimal text of a 64-bit number as that number.
pub open spec fn is_number_form(after: Option<JsonView>, before: Option<JsonView>) -> bool {
    &&& forall|n: u64| before == Some(JsonView::Str(#[trigger] decimal(n as nat))) ==> after == Some(
        JsonView::Number(NumberView::Int(n as int)),
    )
    &&& !(before matches Some(JsonView::Str(_))) ==> after == before
}

proof fn lemma_number_form(v: JsonView)
    ensures
        is_number_form(Some(number_of_text(v)), Some(v)),
{
    assert forall|n: u64| Some(v) == Some(JsonView::Str(#[trigger] decimal(n as nat))) implies Some(number_of_text(v))
        == Some(JsonView::Number(NumberView::Int(n as int))) by {
        law_both_forms_agree(n);
    }
}

proof fn lemma_request_parts(root: JsonView, a: int, b: int, c: int)
    ensures
        span_at(root, a, b, c) matches Some(s) ==> span_at(applied(otlp_view(), root), a, b, c) == Some(
            applied(span_view(), s),
        ),
        metric_at(root, a, b, c) matches Some(m) ==> metric_at(applied(otlp_view(), root), a, b, c) == Some(
            applied(metric_view(), m),
        ),
{
    lemma_key_names();
    let metrics = each_view("scopeMetrics", each_view("metrics", metric_view()));
    let spans = each_view("scopeSpans", each_view("spans", span_view()));
    let middle = applied(each_view("resourceMetrics", metrics), root);
    lemma_item_changed("resourceMetrics", metrics, root, a, "resourceSpans"@);
    lemma_item_changed("resourceSpans", spans, middle, a, "resourceMetrics"@);
    if let Some(r) = item(root, "resourceSpans"@, a) {
        lemma_item_changed("scopeSpans", each_view("spans", span_view()), r, b, ""@);
        if let Some(s) = item(r, "scopeSpans"@, b) {
            lemma_item_changed("spans", span_view(), s, c, ""@);
        }
    }
    if let Some(r) = item(root, "resourceMetrics"@, a) {
        lemma_item_changed("scopeMetrics", each_view("metrics", metric_view()), r, b, ""@);
        if let Some(s) = item(r, "scopeMetrics"@, b) {
            lemma_item_changed("metrics", metric_view(), s, c, ""@);
        }
    }
}

/// The start and the end of every span of a request become texts, and nothing
/// else in the span changes.
pub proof fn law_span_times_become_texts(root: JsonView, a: int, b: int, c: int, key: Seq<char>)
    requires
        span_at(root, a, b, c) is Some,
    ensures
        ({
            let before = span_at(root, a, b, c)->0;
            let after = span_at(applied(otlp_view(), root), a, b, c);
            &&& after is Some
            &&& is_text_form(member(after->0, "startTimeUnixNano"@), member(before, "startTimeUnixNano"@))
            &&& is_text_form(member(after->0, "endTimeUnixNano"@), member(before, "endTimeUnixNano"@))
            &&& key != "startTimeUnixNano"@ && key != "endTimeUnixNano"@ ==> member(after->0, key) == member(before, key)
        }),
{
    lemma_key_names();
    lemma_request_parts(root, a, b, c);
    let s = span_at(root, a, b, c)->0;
    let start = "startTimeUnixNano"@;
    let end = "endTimeUnixNano"@;
    let middle = applied(field_view("startTimeUnixNano", RuleView::TextOfNumber), s);
    lemma_member_changed(start, RuleView::TextOfNumber, s, end);
    lemma_member_changed(start, RuleView::TextOfNumber, s, key);
    lemma_member_changed(end, RuleView::TextOfNumber, middle, start);
    lemma_member_changed(end, RuleView::TextOfNumber, middle, key);
}

proof fn lemma_exemplars_changed(point: JsonView, e: int, key: Seq<char>)
    ensures
        item(point, "exemplars"@, e) matches Some(x) ==> ({
            let after = item(applied(exemplars_view(), point), "exemplars"@, e);
            after is Some && is_number_form(member(after->0, "timeUnixNano"@), member(x, "timeUnixNano"@))
        }),
        key != "exemplars"@ ==> member(applied(exemplars_view(), point), key) == member(point, key),
{
    let rule = field_view("timeUnixNano", RuleView::NumberOfText);
    lemma_item_changed("exemplars", rule, point, e, key);
    if let Some(x) = item(point, "exemplars"@, e) {
        lemma_member_changed("timeUnixNano"@, RuleView::NumberOfText, x, ""@);
        if let Some(t) = member(x, "timeUnixNano"@) {
            lemma_number_form(t);
        }
    }
}

/// A data point of a kind after the change of its metric.
proof fn lemma_point_changed(m: JsonView, i: int)
    ensures
        point_at(m, "histogram"@, i) matches Some(p) ==> point_at(applied(metric_view(), m), "histogram"@, i) == Some(
            applied(histogram_point_view(), p),
        ),
        point_at(m, "gauge"@, i) matches Some(p) ==> point_at(applied(metric_view(), m), "gauge"@, i) == Some(
            applied(exemplars_view(), p),
        ),
        point_at(m, "sum"@, i) matches Some(p) ==> point_at(applied(metric_view(), m), "sum"@, i) == Some(
            applied(exemplars_view(), p),
        ),
{
    lemma_key_names();
    let (h, g, s) = ("histogram"@, "gauge"@, "sum"@);
    let histogram_rule = each_view("dataPoints", histogram_point_view());
    let number_rule = each_view("dataPoints", exemplars_view());
    let m1 = applied(points_view("histogram", histogram_point_view()), m);
    let m2 = applied(points_view("gauge", exemplars_view()), m1);
    assert(applied(
        then_view(points_view("histogram", histogram_point_view()), points_view("gauge", exemplars_view())),
        m,
    ) == m2);
    assert(applied(metric_view(), m) == applied(points_view("sum", exemplars_view()), m2));
    lemma_member_changed(h, histogram_rule, m, g);
    lemma_member_changed(h, histogram_rule, m, s);
    lemma_member_changed(g, number_rule, m1, h);
    lemma_member_changed(g, number_rule, m1, s);
    lemma_member_changed(s, number_rule, m2, h);
    lemma_member_changed(s, number_rule, m2, g);
    if let Some(x) = member(m, h) {
        lemma_item_changed("dataPoints", histogram_point_view(), x, i, ""@);
    }
    if let Some(x) = member(m, g) {
        lemma_item_changed("dataPoints", exemplars_view(), x, i, ""@);
    }
    if let Some(x) = member(m, s) {
        lemma_item_changed("dataPoints", exemplars_view(), x, i, ""@);
    }
}

/// The times of the exemplars of every gauge, sum and histogram data point of a
/// request become numbers.
pub proof fn law_exemplar_times_become_numbers(root: JsonView, a: int, b: int, c: int, kind: Seq<char>, i: int, e: int)
    requires
        kind == "gauge"@ || kind == "sum"@ || kind == "histogram"@,
        metric_at(root, a, b, c) is Some,
        point_at(metric_at(root, a, b, c)->0, kind, i) is Some,
        item(point_at(metric_at(root, a, b, c)->0, kind, i)->0, "exemplars"@, e) is Some,
    ensures
        ({
            let before = item(point_at(metric_at(root, a, b, c)->0, kind, i)->0, "exemplars"@, e)->0;
            let metric = metric_at(applied(otlp_view(), root), a, b, c);
            let point = point_at(metric->0, kind, i);
            let after = item(point->0, "exemplars"@, e);
            &&& metric is Some && point is Some && after is Some
            &&& is_number_form(member(after->0, "timeUnixNano"@), member(before, "timeUnixNano"@))
        }),
{
    lemma_key_names();
    lemma_request_parts(root, a, b, c);
    let m = metric_at(root, a, b, c)->0;
    let p = point_at(m, kind, i)->0;
    lemma_point_changed(m, i);
    if kind == "histogram"@ {
        lemma_histogram_point(p, 0, e);
    } else {
        lemma_exemplars_changed(p, e, ""@);
    }
}

proof fn lemma_histogram_point(p: JsonView, k: int, e: int)
    ensures
        ({
            let after = applied(histogram_point_view(), p);
            &&& is_number_form(member(after, "count"@), member(p, "count"@))
            &&& item(p, "bucketCounts"@, k) is Some ==> is_number_form(
                item(after, "bucketCounts"@, k),
                item(p, "bucketCounts"@, k),
            )
            &&& item(p, "exemplars"@, e) matches Some(x) ==> ({
                let y = item(after, "exemplars"@, e);
                y is Some && is_number_form(member(y->0, "timeUnixNano"@), member(x, "timeUnixNano"@))
            })
        }),
{
    lemma_key_names();
    let (count, buckets, exemplars) = ("count"@, "bucketCounts"@, "exemplars"@);
    let p1 = applied(field_view("count", RuleView::NumberOfText), p);
    let p2 = applied(each_view("bucketCounts", RuleView::NumberOfText), p1);
    assert(applied(
        then_view(
            field_view("count", RuleView::NumberOfText),
            each_view("bucketCounts", RuleView::NumberOfText),
        ),
        p,
    ) == p2);
    assert(applied(histogram_point_view(), p) == applied(exemplars_view(), p2));
    lemma_member_changed(count, RuleView::NumberOfText, p, buckets);
    lemma_member_changed(count, RuleView::NumberOfText, p, exemplars);
    lemma_item_changed("bucketCounts", RuleView::NumberOfText, p1, k, count);
    lemma_item_changed("bucketCounts", RuleView::NumberOfText, p1, k, exemplars);
    lemma_exemplars_changed(p2, e, count);
    lemma_exemplars_changed(p2, e, buckets);
    if let Some(x) = member(p, count) {
        lemma_number_form(x);
    }
    if let Some(x) = item(p, buckets, k) {
        lemma_number_form(x);
    }
}

/// The count and the bucket counts of every histogram data point of a request
/// become numbers.
pub proof fn law_histogram_counts_become_numbers(root: JsonView, a: int, b: int, c: int, i: int, k: int)
    requires
        metric_at(root, a, b, c) is Some,
        point_at(metric_at(root, a, b, c)->0, "histogram"@, i) is Some,
    ensures
        ({
            let before = point_at(metric_at(root, a, b, c)->0, "histogram"@, i)->0;
            let metric = metric_at(applied(otlp_view(), root), a, b, c);
            let after = point_at(metric->0, "histogram"@, i);
            &&& metric is Some && after is Some
            &&& is_number_form(member(after->0, "count"@), member(before, "count"@))
            &&& item(before, "bucketCounts"@, k) is Some ==> is_number_form(
                item(after->0, "bucketCounts"@, k),
                item(before, "bucketCounts"@, k),
            )
        }),
{
    lemma_request_parts(root, a, b, c);
    let m = metric_at(root, a, b, c)->0;
    lemma_point_changed(m, i);
    lemma_histogram_point(point_at(m, "histogram"@, i)->0, k, 0);
}

} // verus!
