//! The metrics page: how series and their points are shown.

use vstd::prelude::*;

use opentelemetry_proto::tonic::common::v1::any_value::Value as AnyKind;

use crate::double::{double_fixed, double_of, fixed_double, opt_double};
use crate::json::{text_member, Json};
use crate::text::{decimal, decimal_int, int_text, push_decimal, push_int};

verus! {

/// The label of a series by its number.
pub open spec fn numbered(series_id: int) -> Seq<char> {
    "series "@ + decimal_int(series_id)
}

/// The label of a series by its number.
pub fn series_label(series_id: i64) -> (s: String)
    ensures
        s@ == numbered(series_id as int),
{
    let mut s = "series ".to_owned();
    push_int(&mut s, series_id);
    s
}

/// The label of a series: the service it is from, or its number.
pub fn metric_series_label(resource: &Json, series_id: i64) -> (s: String)
    ensures
        s@ == match text_member(resource@, "service.name"@) {
            Some(service) => service,
            None => numbered(series_id as int),
        },
{
    match resource.get_str("service.name") {
        Some(service) => service.to_owned(),
        None => series_label(series_id),
    }
}

/// The unit of a series as it is shown: a dash where there is none.
pub fn unit_label(unit: Option<&str>) -> (s: String)
    ensures
        s@ == if unit matches Some(u) && u@.len() > 0 {
            unit->0@
        } else {
            "—"@
        },
{
    match unit {
        Some(u) => if u.is_empty() {
            "—".to_owned()
        } else {
            u.to_owned()
        },
        None => "—".to_owned(),
    }
}

/// A row of a table: its cells, each with the key of its column.
pub type RowView = Seq<(Seq<char>, Seq<char>)>;

pub open spec fn row_view(row: Seq<(&'static str, String)>) -> RowView {
    Seq::new(row.len(), |i: int| (row[i].0@, row[i].1@))
}

/// The row of a point: its place, its times, the value with these bits and the
/// count, with a dash for what is missing.
pub open spec fn point_cells(
    idx: int,
    start: Seq<char>,
    end: Seq<char>,
    value: Option<u64>,
    count: Option<i64>,
) -> RowView {
    seq![
        ("idx"@, decimal_int(idx)),
        ("start"@, start),
        ("end"@, end),
        (
            "value"@,
            match value {
                Some(bits) => double_fixed(bits),
                None => "—"@,
            },
        ),
        (
            "count"@,
            match count {
                Some(c) => decimal_int(c as int),
                None => "—"@,
            },
        ),
    ]
}

/// The row of a point. The value is a double.
pub fn point_row(idx: i64, start: &str, end: &str, value: &Option<AnyKind>, count: Option<i64>) -> (row: Vec<
    (&'static str, String),
>)
    requires
        value matches Some(v) ==> double_of(*v) is Some,
    ensures
        row_view(row@) == point_cells(idx as int, start@, end@, opt_double(*value), count),
{
    let mut row: Vec<(&'static str, String)> = Vec::new();
    row.push(("idx", int_text(idx)));
    row.push(("start", start.to_owned()));
    row.push(("end", end.to_owned()));
    let v = match value {
        Some(v) => fixed_double(v),
        None => "—".to_owned(),
    };
    row.push(("value", v));
    let c = match count {
        Some(c) => int_text(c),
        None => "—".to_owned(),
    };
    row.push(("count", c));
    assert(row_view(row@) =~= point_cells(idx as int, start@, end@, opt_double(*value), count));
    row
}

/// How many series a chart shows.
pub const CHART_SERIES: usize = 6;

/// How many of the series of an answer the chart shows, and what is said where it
/// does not show all of them.
pub fn charted(total: usize) -> (r: (usize, Option<String>))
    ensures
        r.0 == (if total < CHART_SERIES {
            total
        } else {
            CHART_SERIES
        }),
        match r.1 {
            Some(s) => total > CHART_SERIES && s@ == "Showing 6 of "@ + decimal(total as nat) + " series"@,
            None => total <= CHART_SERIES,
        },
{
    if total > CHART_SERIES {
        let mut s = "Showing 6 of ".to_owned();
        push_decimal(&mut s, total as u64);
        s.push_str(" series");
        (CHART_SERIES, Some(s))
    } else {
        (total, None)
    }
}

/// The row of a point shows its place, its times, its value and its count, each in
/// its own column, and a dash for what is missing.
pub proof fn law_row_shows_the_point(
    idx: int,
    start: Seq<char>,
    end: Seq<char>,
    value: Option<u64>,
    count: Option<i64>,
)
    ensures
        ({
            let row = point_cells(idx, start, end, value, count);
            &&& row.len() == 5
            &&& row.contains(("idx"@, decimal_int(idx)))
            &&& row.contains(("start"@, start))
            &&& row.contains(("end"@, end))
            &&& value matches Some(bits) ==> row.contains(("value"@, double_fixed(bits)))
            &&& value is None ==> row.contains(("value"@, "—"@))
            &&& count matches Some(c) ==> row.contains(("count"@, decimal_int(c as int)))
            &&& count is None ==> row.contains(("count"@, "—"@))
        }),
{
    let row = point_cells(idx, start, end, value, count);
    assert(row[0] == ("idx"@, decimal_int(idx)) && row[1] == ("start"@, start) && row[2] == ("end"@, end));
    assert(row[3].0 == "value"@ && row[4].0 == "count"@);
    assert(row.contains(row[3]) && row.contains(row[4]));
}

/// Series of different numbers have different labels.
pub proof fn law_labels_tell_series_apart(a: int, b: int)
    ensures
        numbered(a) == numbered(b) ==> decimal_int(a) == decimal_int(b),
        numbered(a).skip("series "@.len() as int) == decimal_int(a),
{
    let n = "series "@.len() as int;
    assert(numbered(a).skip(n) =~= decimal_int(a));
    assert(numbered(b).skip(n) =~= decimal_int(b));
}

/// A row has its cells in order, each under the key of its column.
pub proof fn law_cells_stand_under_their_keys(row: Seq<(&'static str, String)>, i: int)
    requires
        0 <= i < row.len(),
    ensures
        row_view(row).len() == row.len(),
        row_view(row)[i].0 == row[i].0@ && row_view(row)[i].1 == row[i].1@,
{
}

} // verus!
