//! The dashboards page: panels, and the dashboard that is open.

use vstd::prelude::*;
use vstd::utf8::{encode_utf8, is_char_boundary};

use crate::dashboards::{blank, is_blank, law_blank_is_white_space_alone};
use crate::json::{
    lemma_array_view, lemma_lookup_at, lemma_object_view, member, member_views, push_member, views, Json, JsonView,
};
use crate::text::{byte_len, byte_slice, chars_of, find_char, first_chars, is_space, str_eq, take_chars};
use crate::ui::api::{Dashboard, Panel};

verus! {

// ---------------------------------------------------------------------------
// Panels
// ---------------------------------------------------------------------------

/// A time that is long enough to hold hours and minutes behind a `T`.
pub open spec fn is_clocked(ts: Seq<char>) -> bool {
    encode_utf8(ts).len() >= 16 && ts.contains('T')
}

/// The hours and minutes of a time: the bytes 11 to 15 of it, or the first five
/// characters of what is no such time.
pub fn short_ts(ts: &str) -> (s: String)
    requires
        is_clocked(ts@) ==> is_char_boundary(encode_utf8(ts@), 11) && is_char_boundary(encode_utf8(ts@), 16),
    ensures
        is_clocked(ts@) ==> encode_utf8(s@) == encode_utf8(ts@).subrange(11, 16),
        !is_clocked(ts@) ==> s@ == first_chars(ts@, 5),
{
    let cs = chars_of(ts);
    let at = find_char(&cs, 0, 'T');
    proof {
        if at < cs.len() {
            assert(ts@[at as int] == 'T');
            assert(ts@.contains('T'));
        } else {
            assert(!ts@.contains('T'));
        }
    }
    if byte_len(ts) >= 16 && at < cs.len() {
        byte_slice(ts, 11, 16)
    } else {
        take_chars(ts, 5)
    }
}

/// The kinds of charts.
#[derive(Clone, Copy, Debug, PartialEq, Eq, Structural)]
pub enum Chart {
    Line,
    Area,
    Bar,
    Stat,
    Sparkline,
}

/// The chart of a panel: a line where the kind is not known.
pub fn chart_of(chart_type: &str) -> (c: Chart)
    ensures
        c == (if chart_type@ == "area"@ {
            Chart::Area
        } else if chart_type@ == "bar"@ {
            Chart::Bar
        } else if chart_type@ == "sparkline"@ {
            Chart::Sparkline
        } else if chart_type@ == "stat"@ {
            Chart::Stat
        } else {
            Chart::Line
        }),
{
    if str_eq(chart_type, "area") {
        Chart::Area
    } else if str_eq(chart_type, "bar") {
        Chart::Bar
    } else if str_eq(chart_type, "sparkline") {
        Chart::Sparkline
    } else if str_eq(chart_type, "stat") {
        Chart::Stat
    } else {
        Chart::Line
    }
}

/// Why a panel cannot be added, if it cannot.
pub open spec fn panel_fault(title: Seq<char>, metric: Seq<char>) -> Option<Seq<char>> {
    if blank(title) {
        Some("Title is required."@)
    } else if blank(metric) {
        Some("Metric is required."@)
    } else {
        None
    }
}

/// The panel that was filled in, or why it cannot be added.
pub fn check_panel(panel: Panel) -> (r: Result<Panel, &'static str>)
    ensures
        match r {
            Ok(p) => p == panel && panel_fault(panel.title@, panel.metric@) is None,
            Err(m) => panel_fault(panel.title@, panel.metric@) == Some(m@),
        },
{
    if is_blank(panel.title.as_str()) {
        return Err("Title is required.");
    }
    if is_blank(panel.metric.as_str()) {
        return Err("Metric is required.");
    }
    Ok(panel)
}

// ---------------------------------------------------------------------------
// The open dashboard
// ---------------------------------------------------------------------------

/// The panels without the one at a place; all of them where there is none.
pub open spec fn without_panel(panels: Seq<Panel>, at: int) -> Seq<Panel> {
    if 0 <= at < panels.len() {
        panels.remove(at)
    } else {
        panels
    }
}

/// Adds a panel to the open dashboard, if one is open.
pub fn add_panel(open: &mut Option<Dashboard>, panel: Panel)
    ensures
        match *old(open) {
            Some(d) => *final(open) matches Some(e) && e.id == d.id && e.name == d.name && e.updated_at == d.updated_at
                && e.panels@ == d.panels@.push(panel),
            None => *final(open) is None,
        },
{
    match open {
        Some(d) => d.panels.push(panel),
        None => {},
    }
}

/// Removes a panel from the open dashboard, if one is open and has it.
pub fn remove_panel(open: &mut Option<Dashboard>, at: usize)
    ensures
        match *old(open) {
            Some(d) => *final(open) matches Some(e) && e.id == d.id && e.name == d.name && e.updated_at == d.updated_at
                && e.panels@ == without_panel(d.panels@, at as int),
            None => *final(open) is None,
        },
{
    match open {
        Some(d) => if at < d.panels.len() {
            d.panels.remove(at);
        },
        None => {},
    }
}

/// A panel in JSON.
pub open spec fn panel_json(p: Panel) -> JsonView {
    JsonView::Object(
        seq![
            ("title"@, JsonView::Str(p.title@)),
            ("metric"@, JsonView::Str(p.metric@)),
            ("chart_type"@, JsonView::Str(p.chart_type@)),
            ("range"@, JsonView::Str(p.range@)),
            ("agg"@, JsonView::Str(p.agg@)),
        ],
    )
}

fn panel_to_json(p: &Panel) -> (v: Json)
    ensures
        v@ == panel_json(*p),
{
    let mut members: Vec<(String, Json)> = Vec::new();
    assert(member_views(members@) =~= Seq::empty());
    push_member(&mut members, "title", Json::Str(p.title.clone()));
    push_member(&mut members, "metric", Json::Str(p.metric.clone()));
    push_member(&mut members, "chart_type", Json::Str(p.chart_type.clone()));
    push_member(&mut members, "range", Json::Str(p.range.clone()));
    push_member(&mut members, "agg", Json::Str(p.agg.clone()));
    proof {
        lemma_object_view(members);
        assert(member_views(members@) =~= panel_json(*p)->Object_0);
    }
    Json::Object(members)
}

/// A dashboard as it is sent to be stored.
pub open spec fn dashboard_json(name: Seq<char>, panels: Seq<Panel>) -> JsonView {
    JsonView::Object(
        seq![
            ("name"@, JsonView::Str(name)),
            ("panels"@, JsonView::Array(Seq::new(panels.len(), |i: int| panel_json(panels[i])))),
        ],
    )
}

/// A dashboard as it is sent to be stored.
pub fn dashboard_body(name: &str, panels: &Vec<Panel>) -> (v: Json)
    ensures
        v@ == dashboard_json(name@, panels@),
{
    let mut items: Vec<Json> = Vec::new();
    let mut i: usize = 0;
    while i < panels.len()
        invariant
            i <= panels.len(),
            items.len() == i,
            forall|j: int| 0 <= j < i ==> (#[trigger] items@[j])@ == panel_json(panels@[j]),
        decreases panels.len() - i,
    {
        items.push(panel_to_json(&panels[i]));
        i += 1;
    }
    proof {
        lemma_array_view(items);
        assert(views(items@) =~= Seq::new(panels@.len(), |i: int| panel_json(panels@[i])));
    }
    let mut members: Vec<(String, Json)> = Vec::new();
    assert(member_views(members@) =~= Seq::empty());
    push_member(&mut members, "name", Json::Str(name.to_owned()));
    push_member(&mut members, "panels", Json::Array(items));
    proof {
        lemma_object_view(members);
        assert(member_views(members@) =~= dashboard_json(name@, panels@)->Object_0);
    }
    Json::Object(members)
}

/// How a dashboard is stored: under its number, or as a new one where it has
/// none yet.
pub fn stored_under(dashboard: &Dashboard) -> (id: Option<i64>)
    ensures
        id == (if dashboard.id == 0 {
            None
        } else {
            Some(dashboard.id)
        }),
{
    if dashboard.id == 0 {
        None
    } else {
        Some(dashboard.id)
    }
}

// ---------------------------------------------------------------------------
// Laws
// ---------------------------------------------------------------------------

/// Removing the panel that was added last gives back the panels before.
pub proof fn law_remove_undoes_add(panels: Seq<Panel>, panel: Panel)
    ensures
        without_panel(panels.push(panel), panels.len() as int) == panels,
{
    assert(panels.push(panel).remove(panels.len() as int) =~= panels);
}

/// Removing a panel that is there takes away one panel and keeps the order of
/// the others; removing one that is not there takes nothing.
pub proof fn law_remove_keeps_the_others(panels: Seq<Panel>, at: int)
    ensures
        0 <= at < panels.len() ==> without_panel(panels, at).len() == panels.len() - 1,
        !(0 <= at < panels.len()) ==> without_panel(panels, at) == panels,
        forall|i: int| 0 <= i < at < panels.len() ==> #[trigger] without_panel(panels, at)[i] == panels[i],
        forall|i: int|
            0 <= at <= i < panels.len() - 1 ==> #[trigger] without_panel(panels, at)[i] == panels[i + 1],
{
}

/// A text says something: some character of it is no white space.
pub open spec fn says_something(s: Seq<char>) -> bool {
    exists|i: int| 0 <= i < s.len() && !is_space(#[trigger] s[i])
}

/// A panel can be added exactly where both its title and its metric say something.
pub proof fn law_panels_that_can_be_added(title: Seq<char>, metric: Seq<char>)
    ensures
        panel_fault(title, metric) is None <==> says_something(title) && says_something(metric),
{
    law_blank_is_white_space_alone(title);
    law_blank_is_white_space_alone(metric);
}

/// A JSON object tells of a panel.
pub open spec fn tells_panel(v: JsonView, p: Panel) -> bool {
    &&& member(v, "title"@) == Some(JsonView::Str(p.title@))
    &&& member(v, "metric"@) == Some(JsonView::Str(p.metric@))
    &&& member(v, "chart_type"@) == Some(JsonView::Str(p.chart_type@))
    &&& member(v, "range"@) == Some(JsonView::Str(p.range@))
    &&& member(v, "agg"@) == Some(JsonView::Str(p.agg@))
}

/// A dashboard is sent with its name and with all of its panels, in order, each
/// with its title, its metric, its chart, its range and its aggregation.
pub proof fn law_dashboard_is_sent_whole(name: Seq<char>, panels: Seq<Panel>)
    ensures
        member(dashboard_json(name, panels), "name"@) == Some(JsonView::Str(name)),
        member(dashboard_json(name, panels), "panels"@) matches Some(JsonView::Array(items)) && items.len() == panels.len()
            && forall|i: int| 0 <= i < items.len() ==> tells_panel(#[trigger] items[i], panels[i]),
{
    reveal_strlit("name");
    reveal_strlit("panels");
    reveal_strlit("title");
    reveal_strlit("metric");
    reveal_strlit("chart_type");
    reveal_strlit("range");
    reveal_strlit("agg");
    assert("name"@.len() == 4 && "panels"@.len() == 6 && "title"@.len() == 5 && "metric"@.len() == 6
        && "chart_type"@.len() == 10 && "range"@.len() == 5 && "agg"@.len() == 3);
    assert("title"@[0] == 't' && "range"@[0] == 'r');
    let members = dashboard_json(name, panels)->Object_0;
    lemma_lookup_at(members, "name"@, 0);
    lemma_lookup_at(members, "panels"@, 1);
    assert forall|i: int| 0 <= i < panels.len() implies tells_panel(#[trigger] panel_json(panels[i]), panels[i]) by {
        let m = panel_json(panels[i])->Object_0;
        lemma_lookup_at(m, "title"@, 0);
        lemma_lookup_at(m, "metric"@, 1);
        lemma_lookup_at(m, "chart_type"@, 2);
        lemma_lookup_at(m, "range"@, 3);
        lemma_lookup_at(m, "agg"@, 4);
    }
}

/// A time of day is taken only from a text that is long enough to hold one and has
/// the mark that parts it from the date.
pub proof fn law_times_of_day_are_marked(ts: Seq<char>)
    ensures
        is_clocked(ts) ==> exists|i: int| 0 <= i < ts.len() && ts[i] == 'T',
        is_clocked(ts) ==> encode_utf8(ts).len() >= 16,
        encode_utf8(ts).len() < 16 ==> !is_clocked(ts),
        (forall|i: int| 0 <= i < ts.len() ==> ts[i] != 'T') ==> !is_clocked(ts),
        forall|i: int| 0 <= i < ts.len() && #[trigger] ts[i] == 'T' && encode_utf8(ts).len() >= 16 ==> is_clocked(ts),
{
}

} // verus!
