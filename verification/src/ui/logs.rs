//! The logs page: how records are shown.

use vstd::prelude::*;
use vstd::utf8::encode_utf8;

use crate::alerts::rules::{str_or, text_or};
use crate::json::Json;
use crate::text::{byte_len, decimal_int, first_chars, int_text, opt_str, take_chars};
use crate::ui::badge::Badge;

verus! {

/// The badge of a severity number. Numbers up to 8 are for tracing and
/// debugging, those up to 12 for information, those up to 16 for warnings, and
/// those up to 24 for errors.
pub open spec fn severity_look(n: int) -> Badge {
    if 9 <= n <= 12 {
        Badge::Plain
    } else if 13 <= n <= 16 {
        Badge::Outline
    } else if 17 <= n <= 24 {
        Badge::Destructive
    } else {
        Badge::Secondary
    }
}

/// The badge of a severity; a record without one counts as the least.
pub fn severity_variant(severity: Option<i32>) -> (b: Badge)
    ensures
        b == severity_look(
            match severity {
                Some(n) => n as int,
                None => 0,
            },
        ),
{
    let n: i32 = match severity {
        Some(n) => n,
        None => 0,
    };
    if 9 <= n && n <= 12 {
        Badge::Plain
    } else if 13 <= n && n <= 16 {
        Badge::Outline
    } else if 17 <= n && n <= 24 {
        Badge::Destructive
    } else {
        Badge::Secondary
    }
}

/// The label of a severity: its text, or its number, or a dash.
pub open spec fn severity_text(text: Option<Seq<char>>, severity: Option<i32>) -> Seq<char> {
    if text matches Some(t) && t.len() > 0 {
        text->0
    } else {
        match severity {
            Some(n) => decimal_int(n as int),
            None => "—"@,
        }
    }
}

/// The label of a severity.
pub fn severity_label(text: Option<&str>, severity: Option<i32>) -> (s: String)
    ensures
        s@ == severity_text(opt_str(text), severity),
{
    if let Some(t) = text {
        if !t.is_empty() {
            return t.to_owned();
        }
    }
    match severity {
        Some(n) => int_text(n as i64),
        None => "—".to_owned(),
    }
}

/// The service that a record is from, or a dash.
pub fn service_from_resource(resource: &Json) -> (s: String)
    ensures
        s@ == text_or(resource@, "service.name"@, "—"@),
{
    str_or(resource, "service.name", "—").to_owned()
}

/// The start of a body: at most 120 characters, with an ellipsis where the body
/// takes more than 120 bytes.
pub open spec fn body_start(body: Seq<char>) -> Seq<char> {
    if encode_utf8(body).len() > 120 {
        first_chars(body, 120) + "…"@
    } else {
        first_chars(body, 120)
    }
}

/// The start of a body.
pub fn short_body(body: &str) -> (s: String)
    ensures
        s@ == body_start(body@),
{
    let mut s = take_chars(body, 120);
    if byte_len(body) > 120 {
        s.push_str("…");
    }
    s
}

/// The four looks part the severities: the least are those up to 8 and those that
/// there are not, then information, warnings and errors.
pub proof fn law_severities_have_looks(n: int)
    ensures
        1 <= n <= 8 ==> severity_look(n) == Badge::Secondary,
        9 <= n <= 12 ==> severity_look(n) == Badge::Plain,
        13 <= n <= 16 ==> severity_look(n) == Badge::Outline,
        17 <= n <= 24 ==> severity_look(n) == Badge::Destructive,
        n < 1 || n > 24 ==> severity_look(n) == Badge::Secondary,
{
}

/// A severity is shown by its text where it has one, or else by its number, or else
/// by a dash.
pub proof fn law_severity_is_shown(text: Option<Seq<char>>, severity: Option<i32>)
    ensures
        text matches Some(t) ==> (t.len() > 0 ==> severity_text(text, severity) == t),
        text is None || text->0.len() == 0 ==> (severity matches Some(n) ==> severity_text(text, severity) == decimal_int(
            n as int,
        )),
        (text is None || text->0.len() == 0) && severity is None ==> severity_text(text, severity) == "—"@,
{
}

/// What is shown of a body is its start: all of one that takes up to 120 bytes, and
/// otherwise its first 120 characters, or all where it has fewer, and an ellipsis.
pub proof fn law_start_of_a_body_is_shown(body: Seq<char>)
    ensures
        ({
            let n = if body.len() < 120 {
                body.len() as int
            } else {
                120
            };
            &&& body_start(body).len() >= n
            &&& body_start(body).take(n) == body.take(n)
            &&& encode_utf8(body).len() <= 120 ==> body_start(body).len() == n
            &&& encode_utf8(body).len() > 120 ==> body_start(body).skip(n) == "…"@
        }),
{
    let n = if body.len() < 120 {
        body.len() as int
    } else {
        120
    };
    assert(first_chars(body, 120) =~= body.take(n));
    assert(body_start(body).take(n) =~= body.take(n));
    if encode_utf8(body).len() > 120 {
        assert(body_start(body).skip(n) =~= "…"@);
    }
}

} // verus!
