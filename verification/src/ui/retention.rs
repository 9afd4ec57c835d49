//! The retention page and the overview: what is stored, and for how long.

use vstd::prelude::*;

use crate::text::{decimal, decimal_int, int_text, push_decimal};
use crate::ui::api::StatsResponse;
use crate::ui::format::{bytes_text, fmt_bytes};

verus! {

/// A number of days.
pub open spec fn days(n: u32) -> Seq<char> {
    decimal(n as nat) + " days"@
}

/// A number of days.
pub fn days_text(n: u32) -> (s: String)
    ensures
        s@ == days(n),
{
    let mut s = String::new();
    push_decimal(&mut s, n as u64);
    s.push_str(" days");
    assert(s@ =~= days(n));
    s
}

/// The size of the database: a dash where it is not known.
pub open spec fn size(bytes: Option<i64>) -> Seq<char> {
    match bytes {
        Some(b) => bytes_text(b as int),
        None => "—"@,
    }
}

/// The size of the database.
pub fn size_text(bytes: Option<i64>) -> (s: String)
    ensures
        s@ == size(bytes),
{
    match bytes {
        Some(b) => fmt_bytes(b),
        None => "—".to_owned(),
    }
}

/// A row of the table: a setting and its value.
pub type Setting = (Seq<char>, Seq<char>);

pub open spec fn setting_views(rows: Seq<(&'static str, String)>) -> Seq<Setting> {
    Seq::new(rows.len(), |i: int| (rows[i].0@, rows[i].1@))
}

/// The rows of the table.
pub open spec fn settings(s: StatsResponse) -> Seq<Setting> {
    seq![
        ("Metrics retention"@, days(s.retention.metrics_days)),
        ("Logs retention"@, days(s.retention.logs_days)),
        ("Active partitions"@, decimal_int(s.partitions as int)),
        ("Metric series"@, decimal_int(s.counts.series as int)),
        ("Metric points"@, decimal_int(s.counts.metric_points as int)),
        ("Histogram points"@, decimal_int(s.counts.histogram_points as int)),
        ("Log records"@, decimal_int(s.counts.logs as int)),
        ("DB size"@, size(s.db_size_bytes)),
    ]
}

/// The rows of the table.
pub fn stats_to_rows(s: &StatsResponse) -> (rows: Vec<(&'static str, String)>)
    ensures
        setting_views(rows@) == settings(*s),
{
    let mut rows: Vec<(&'static str, String)> = Vec::new();
    rows.push(("Metrics retention", days_text(s.retention.metrics_days)));
    rows.push(("Logs retention", days_text(s.retention.logs_days)));
    rows.push(("Active partitions", int_text(s.partitions)));
    rows.push(("Metric series", int_text(s.counts.series)));
    rows.push(("Metric points", int_text(s.counts.metric_points)));
    rows.push(("Histogram points", int_text(s.counts.histogram_points)));
    rows.push(("Log records", int_text(s.counts.logs)));
    rows.push(("DB size", size_text(s.db_size_bytes)));
    assert(setting_views(rows@) =~= settings(*s));
    rows
}

/// The table shows each setting with its own value.
pub proof fn law_table_shows_every_setting(s: StatsResponse)
    ensures
        settings(s).len() == 8,
        settings(s).contains(("Metrics retention"@, decimal(s.retention.metrics_days as nat) + " days"@)),
        settings(s).contains(("Logs retention"@, decimal(s.retention.logs_days as nat) + " days"@)),
        settings(s).contains(("Active partitions"@, decimal_int(s.partitions as int))),
        settings(s).contains(("Metric series"@, decimal_int(s.counts.series as int))),
        settings(s).contains(("Metric points"@, decimal_int(s.counts.metric_points as int))),
        settings(s).contains(("Histogram points"@, decimal_int(s.counts.histogram_points as int))),
        settings(s).contains(("Log records"@, decimal_int(s.counts.logs as int))),
        s.db_size_bytes matches Some(b) ==> settings(s).contains(("DB size"@, bytes_text(b as int))),
        s.db_size_bytes is None ==> settings(s).contains(("DB size"@, "—"@)),
{
    let all = settings(s);
    assert(all[0] == ("Metrics retention"@, days(s.retention.metrics_days)));
    assert(all[1] == ("Logs retention"@, days(s.retention.logs_days)));
    assert(all[2] == ("Active partitions"@, decimal_int(s.partitions as int)));
    assert(all[3] == ("Metric series"@, decimal_int(s.counts.series as int)));
    assert(all[4] == ("Metric points"@, decimal_int(s.counts.metric_points as int)));
    assert(all[5] == ("Histogram points"@, decimal_int(s.counts.histogram_points as int)));
    assert(all[6] == ("Log records"@, decimal_int(s.counts.logs as int)));
    assert(all[7] == ("DB size"@, size(s.db_size_bytes)));
}

/// A row of the table has a name and what is set under it.
pub proof fn law_settings_stand_under_their_names(rows: Seq<(&'static str, String)>, i: int)
    requires
        0 <= i < rows.len(),
    ensures
        setting_views(rows).len() == rows.len(),
        setting_views(rows)[i].0 == rows[i].0@ && setting_views(rows)[i].1 == rows[i].1@,
{
}

} // verus!
