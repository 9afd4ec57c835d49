//! Dashboards: named collections of panels.
//!
//! The panels are kept as they come: what they mean is for the browser to say.

use vstd::prelude::*;

use crate::http::{bad_request, HeaderView, Reply};
use crate::json::{lemma_array_view, opt_json, views, Json, JsonView};
use crate::text::{is_space, trim, trim_end, trim_start, trimmed};
use crate::time::Timestamp;

verus! {

/// A dashboard as it is stored.
pub struct Dashboard {
    pub id: i64,
    pub name: String,
    pub panels: Json,
    pub created_at: Timestamp,
    pub updated_at: Timestamp,
}

/// A dashboard in a list, without its panels.
pub struct DashboardSummary {
    pub id: i64,
    pub name: String,
    pub updated_at: Timestamp,
}

/// What is asked for when a dashboard is created. The panels may be left out.
pub struct CreateDashboardRequest {
    pub name: String,
    pub panels: Option<Json>,
}

/// What is asked for when a dashboard is changed.
pub struct UpdateDashboardRequest {
    pub name: String,
    pub panels: Json,
}

/// What is stored of a dashboard.
pub struct DashboardContents {
    pub name: String,
    pub panels: Json,
}

/// No panels.
pub open spec fn no_panels() -> JsonView {
    JsonView::Array(Seq::empty())
}

/// The panels of a dashboard that is created without any.
pub fn default_panels() -> (r: Json)
    ensures
        r@ == no_panels(),
{
    let items: Vec<Json> = Vec::new();
    proof {
        lemma_array_view(items);
        assert(views(items@) =~= Seq::empty());
    }
    Json::Array(items)
}

/// A name that does not name anything.
pub open spec fn blank(name: Seq<char>) -> bool {
    trimmed(name).len() == 0
}

/// Whether a name does not name anything.
pub fn is_blank(name: &str) -> (r: bool)
    ensures
        r == blank(name@),
{
    trim(name).as_str().is_empty()
}

/// The reply to a request without a name.
pub open spec fn asks_for_name(r: Reply) -> bool {
    r.status == 400 && r.spec_headers() == Seq::<HeaderView>::empty() && r.body@ == "name is required"@
}

/// What to store for a dashboard that is created, or the reply that refuses it.
pub fn create_dashboard(req: CreateDashboardRequest) -> (r: Result<DashboardContents, Reply>)
    ensures
        match r {
            Ok(d) => !blank(req.name@) && d.name == req.name && d.panels@ == (match opt_json(req.panels) {
                Some(p) => p,
                None => no_panels(),
            }),
            Err(reply) => blank(req.name@) && asks_for_name(reply),
        },
{
    if is_blank(req.name.as_str()) {
        return Err(bad_request("name is required"));
    }
    let panels = match req.panels {
        Some(p) => p,
        None => default_panels(),
    };
    Ok(DashboardContents { name: req.name, panels })
}

/// What to store for a dashboard that is changed, or the reply that refuses it.
pub fn update_dashboard(req: UpdateDashboardRequest) -> (r: Result<DashboardContents, Reply>)
    ensures
        match r {
            Ok(d) => !blank(req.name@) && d.name == req.name && d.panels == req.panels,
            Err(reply) => blank(req.name@) && asks_for_name(reply),
        },
{
    if is_blank(req.name.as_str()) {
        return Err(bad_request("name is required"));
    }
    Ok(DashboardContents { name: req.name, panels: req.panels })
}

/// A name is blank exactly where it holds nothing but white space.
pub proof fn law_blank_is_white_space_alone(name: Seq<char>)
    ensures
        blank(name) <==> forall|i: int| 0 <= i < name.len() ==> is_space(#[trigger] name[i]),
{
    lemma_blank_start(name);
    lemma_blank_end(trim_start(name));
    if blank(name) {
        let rest = trim_start(name);
        assert(rest.len() == 0) by {
            if rest.len() > 0 {
                assert(is_space(rest[0]));
            }
        }
    }
}

proof fn lemma_blank_start(s: Seq<char>)
    ensures
        trim_start(s).len() == 0 <==> forall|i: int| 0 <= i < s.len() ==> is_space(#[trigger] s[i]),
        trim_start(s).len() > 0 ==> !is_space(trim_start(s)[0]),
    decreases s.len(),
{
    if s.len() > 0 && is_space(s[0]) {
        let rest = s.skip(1);
        lemma_blank_start(rest);
        if forall|i: int| 0 <= i < rest.len() ==> is_space(#[trigger] rest[i]) {
            assert forall|i: int| 0 <= i < s.len() implies is_space(#[trigger] s[i]) by {
                if i > 0 {
                    assert(is_space(rest[i - 1]));
                }
            }
        }
        if forall|i: int| 0 <= i < s.len() ==> is_space(#[trigger] s[i]) {
            assert forall|i: int| 0 <= i < rest.len() implies is_space(#[trigger] rest[i]) by {
                assert(is_space(s[i + 1]));
            }
        }
    }
}

proof fn lemma_blank_end(s: Seq<char>)
    ensures
        trim_end(s).len() == 0 ==> forall|i: int| 0 <= i < s.len() ==> is_space(#[trigger] s[i]),
        s.len() == 0 ==> trim_end(s).len() == 0,
    decreases s.len(),
{
    if s.len() > 0 && is_space(s.last()) {
        let front = s.drop_last();
        lemma_blank_end(front);
        if trim_end(s).len() == 0 {
            assert forall|i: int| 0 <= i < s.len() implies is_space(#[trigger] s[i]) by {
                if i < front.len() {
                    assert(is_space(front[i]));
                }
            }
        }
    }
}

/// A dashboard that is created without panels has none.
pub proof fn law_no_panels_unless_given()
    ensures
        no_panels() matches JsonView::Array(items) && items.len() == 0,
{
}

/// A dashboard without a name is a bad request, and the reply says what is missing.
pub proof fn law_reply_asks_for_the_name(r: Reply)
    requires
        asks_for_name(r),
    ensures
        r.status == 400 && r.headers@.len() == 0,
        r.body@ == "name is required"@,
{
    assert(r.spec_headers().len() == 0);
}

} // verus!
