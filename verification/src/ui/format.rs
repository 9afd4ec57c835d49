//! Numbers and times as the portal shows them.

use vstd::prelude::*;

use crate::float::{nearest, nearest_double, round_half_even};
use crate::text::{decimal, decimal_int, int_text, parse_int_spec, parse_u32, push_decimal, push_int, str_eq};

verus! {

// ---------------------------------------------------------------------------
// Ages
// ---------------------------------------------------------------------------

/// A number of units ago.
pub open spec fn units_ago(n: int, unit: Seq<char>) -> Seq<char> {
    if n == 1 {
        "1 "@ + unit + " ago"@
    } else {
        decimal_int(n) + " "@ + unit + "s ago"@
    }
}

/// A number of units ago.
pub fn plural(n: i64, unit: &str) -> (s: String)
    ensures
        s@ == units_ago(n as int, unit@),
{
    if n == 1 {
        let mut s = "1 ".to_owned();
        s.push_str(unit);
        s.push_str(" ago");
        s
    } else {
        let mut s = int_text(n);
        s.push_str(" ");
        s.push_str(unit);
        s.push_str("s ago");
        s
    }
}

/// An age in the largest unit that it fills. A month is thirty days, and a year
/// twelve months.
pub open spec fn age_text(secs: int) -> Seq<char> {
    let minutes = secs / 60;
    let hours = minutes / 60;
    let days = hours / 24;
    let months = days / 30;
    if secs < 60 {
        "just now"@
    } else if minutes < 60 {
        units_ago(minutes, "minute"@)
    } else if hours < 24 {
        units_ago(hours, "hour"@)
    } else if days < 30 {
        units_ago(days, "day"@)
    } else if months < 12 {
        units_ago(months, "month"@)
    } else {
        units_ago(months / 12, "year"@)
    }
}

/// A time as it is shown: how long ago it was, or as it is written where it
/// cannot be read as a time.
pub fn relative_time(iso: &str, age_secs: Option<i64>) -> (s: String)
    ensures
        s@ == match age_secs {
            Some(secs) => age_text(secs as int),
            None => iso@,
        },
{
    let secs: i64 = match age_secs {
        Some(secs) => secs,
        None => {
            return iso.to_owned();
        },
    };
    if secs < 60 {
        return "just now".to_owned();
    }
    let minutes: i64 = secs / 60;
    if minutes < 60 {
        return plural(minutes, "minute");
    }
    let hours: i64 = minutes / 60;
    if hours < 24 {
        return plural(hours, "hour");
    }
    let days: i64 = hours / 24;
    if days < 30 {
        return plural(days, "day");
    }
    let months: i64 = days / 30;
    if months < 12 {
        return plural(months, "month");
    }
    plural(months / 12, "year")
}

// ---------------------------------------------------------------------------
// Sizes
// ---------------------------------------------------------------------------

/// A number of tenths with its decimal point.
pub open spec fn tenths_text(t: nat) -> Seq<char> {
    decimal(t / 10) + "."@ + decimal(t % 10)
}

/// A number of bytes in a larger unit, to the nearest tenth; a tie goes to the
/// even tenth.
pub open spec fn in_units(bytes: nat, unit_bytes: nat, unit: Seq<char>) -> Seq<char> {
    tenths_text(round_half_even(10 * bytes, unit_bytes)) + unit
}

/// A number of bytes as it is shown. From a kilobyte on the number is first
/// taken to the nearest double.
pub open spec fn bytes_text(bytes: int) -> Seq<char> {
    let b = nearest(bytes as nat);
    if bytes < 1024 {
        decimal_int(bytes) + " B"@
    } else if b < 0x10_0000 {
        in_units(b, 1024, " KB"@)
    } else if b < 0x4000_0000 {
        in_units(b, 0x10_0000, " MB"@)
    } else {
        in_units(b, 0x4000_0000, " GB"@)
    }
}

fn push_units(s: &mut String, bytes: u64, unit_bytes: u64, unit: &str)
    requires
        unit_bytes == 1024 || unit_bytes == 0x10_0000 || unit_bytes == 0x4000_0000,
        bytes <= 0x8000_0000_0000_0000,
    ensures
        final(s)@ == old(s)@ + in_units(bytes as nat, unit_bytes as nat, unit@),
{
    let n: u128 = 10 * (bytes as u128);
    let d: u128 = unit_bytes as u128;
    let q: u128;
    let r: u128;
    if unit_bytes == 1024 {
        q = n / 1024;
        r = n % 1024;
    } else if unit_bytes == 0x10_0000 {
        q = n / 0x10_0000;
        r = n % 0x10_0000;
    } else {
        q = n / 0x4000_0000;
        r = n % 0x4000_0000;
    }
    let t: u128 = if 2 * r > d || (2 * r == d && q % 2 == 1) {
        q + 1
    } else {
        q
    };
    assert(t == round_half_even(10 * bytes as nat, unit_bytes as nat));
    let ghost before = s@;
    push_decimal(s, (t / 10) as u64);
    s.push_str(".");
    push_decimal(s, (t % 10) as u64);
    s.push_str(unit);
    assert(s@ =~= before + in_units(bytes as nat, unit_bytes as nat, unit@));
}

/// A number of bytes as it is shown.
pub fn fmt_bytes(bytes: i64) -> (s: String)
    ensures
        s@ == bytes_text(bytes as int),
{
    let mut s = String::new();
    if bytes < 1024 {
        push_int(&mut s, bytes);
        s.push_str(" B");
        assert(s@ =~= bytes_text(bytes as int));
        return s;
    }
    let b: u64 = nearest_double(bytes as u64);
    if b < 0x10_0000 {
        push_units(&mut s, b, 1024, " KB");
    } else if b < 0x4000_0000 {
        push_units(&mut s, b, 0x10_0000, " MB");
    } else {
        push_units(&mut s, b, 0x4000_0000, " GB");
    }
    assert(s@ =~= bytes_text(bytes as int));
    s
}

// ---------------------------------------------------------------------------
// Durations
// ---------------------------------------------------------------------------

/// A duration as it is shown: as a whole number of the unit that it was measured
/// in, or divided down to a larger one and rounded to some decimals.
pub enum Duration {
    Whole { text: String },
    Scaled { divisor: i64, decimals: u8, unit: &'static str },
}

/// How a duration in milliseconds is shown.
pub fn fmt_duration_ms(ms: i64) -> (d: Duration)
    ensures
        if ms < 1000 {
            d matches Duration::Whole { text } && text@ == decimal_int(ms as int) + "ms"@
        } else {
            d matches Duration::Scaled { divisor, decimals, unit } && divisor == 1000 && decimals == 2 && unit@ == "s"@
        },
{
    if ms < 1000 {
        let mut text = int_text(ms);
        text.push_str("ms");
        Duration::Whole { text }
    } else {
        Duration::Scaled { divisor: 1000, decimals: 2, unit: "s" }
    }
}

/// How a duration in nanoseconds is shown.
pub fn fmt_duration_ns(ns: i64) -> (d: Duration)
    ensures
        if ns < 1_000 {
            d matches Duration::Whole { text } && text@ == decimal_int(ns as int) + "ns"@
        } else if ns < 1_000_000 {
            d matches Duration::Scaled { divisor, decimals, unit } && divisor == 1_000 && decimals == 1 && unit@
                == "µs"@
        } else if ns < 1_000_000_000 {
            d matches Duration::Scaled { divisor, decimals, unit } && divisor == 1_000_000 && decimals == 2 && unit@
                == "ms"@
        } else {
            d matches Duration::Scaled { divisor, decimals, unit } && divisor == 1_000_000_000 && decimals == 2
                && unit@ == "s"@
        },
{
    if ns < 1_000 {
        let mut text = int_text(ns);
        text.push_str("ns");
        Duration::Whole { text }
    } else if ns < 1_000_000 {
        Duration::Scaled { divisor: 1_000, decimals: 1, unit: "µs" }
    } else if ns < 1_000_000_000 {
        Duration::Scaled { divisor: 1_000_000, decimals: 2, unit: "ms" }
    } else {
        Duration::Scaled { divisor: 1_000_000_000, decimals: 2, unit: "s" }
    }
}

// ---------------------------------------------------------------------------
// Ranges and limits
// ---------------------------------------------------------------------------

/// The range of a query: the last hour where no start is given.
pub fn query_window(start: &str, end: &str, now: i64) -> (r: (String, String))
    requires
        now >= i64::MIN + 3600,
    ensures
        start@.len() == 0 ==> r.0@ == decimal_int(now - 3600) && r.1@ == decimal_int(now as int),
        start@.len() > 0 ==> r.0@ == start@ && r.1@ == end@,
{
    if start.is_empty() {
        (int_text(now - 3600), int_text(now))
    } else {
        (start.to_owned(), end.to_owned())
    }
}

/// A limit as it was typed, or a default where it is no number.
pub fn limit_or(typed: &str, default: u32) -> (n: u32)
    ensures
        n == match parse_int_spec(typed@, false, 0, u32::MAX as int) {
            Some(n) => n,
            None => default as int,
        },
{
    match parse_u32(typed) {
        Some(n) => n,
        None => default,
    }
}

/// The seconds that the range of a panel spans: an hour where it is not known.
pub open spec fn range_span(range: Seq<char>) -> int {
    if range == "15m"@ {
        900
    } else if range == "1h"@ {
        3600
    } else if range == "6h"@ {
        21600
    } else if range == "24h"@ {
        86400
    } else {
        3600
    }
}

/// The seconds that the range of a panel spans.
pub fn range_secs(range: &str) -> (n: i64)
    ensures
        n == range_span(range@),
        n <= 86400,
{
    if str_eq(range, "15m") {
        900
    } else if str_eq(range, "1h") {
        3600
    } else if str_eq(range, "6h") {
        21600
    } else if str_eq(range, "24h") {
        86400
    } else {
        3600
    }
}

/// The range of a panel, back from now.
pub fn panel_window(range: &str, now: i64) -> (r: (String, String))
    requires
        now >= i64::MIN + 86400,
    ensures
        r.0@ == decimal_int(now - range_span(range@)),
        r.1@ == decimal_int(now as int),
{
    (int_text(now - range_secs(range)), int_text(now))
}

// ---------------------------------------------------------------------------
// Laws
// ---------------------------------------------------------------------------

/// The tenths that are shown of a size are off by at most half a tenth.
pub proof fn law_size_is_near(bytes: nat, unit_bytes: nat)
    requires
        unit_bytes > 0,
    ensures
        ({
            let t = round_half_even(10 * bytes, unit_bytes);
            -(unit_bytes as int) <= 2 * (10 * bytes - t * unit_bytes) <= unit_bytes
        }),
{
    let n = 10 * bytes;
    let q = n / unit_bytes;
    let r = n % unit_bytes;
    assert(n == q * unit_bytes + r) by (nonlinear_arith)
        requires
            q == n / unit_bytes,
            r == n % unit_bytes,
            unit_bytes > 0,
    ;
    assert((q + 1) * unit_bytes == q * unit_bytes + unit_bytes) by (nonlinear_arith);
    assert(r < unit_bytes);
}

/// A number of bytes that a double can hold is shown as it is, before rounding
/// to a tenth.
pub proof fn law_small_sizes_are_exact(bytes: nat)
    requires
        bytes < 0x10_0000_0000_0000,
    ensures
        nearest(bytes) == bytes,
{
    crate::float::lemma_small_is_exact(bytes);
}

/// An age is shown in the largest unit that it fills, and in as many of them as it
/// fills.
pub proof fn law_age_fills_its_unit(secs: int, n: int)
    requires
        n >= 1,
    ensures
        secs < 60 ==> age_text(secs) == "just now"@,
        n < 60 && n * 60 <= secs < (n + 1) * 60 ==> age_text(secs) == units_ago(n, "minute"@),
        n < 24 && n * 3_600 <= secs < (n + 1) * 3_600 ==> age_text(secs) == units_ago(n, "hour"@),
        n < 30 && n * 86_400 <= secs < (n + 1) * 86_400 ==> age_text(secs) == units_ago(n, "day"@),
        n < 12 && n * 2_592_000 <= secs < (n + 1) * 2_592_000 ==> age_text(secs) == units_ago(n, "month"@),
        n * 31_104_000 <= secs < (n + 1) * 31_104_000 ==> age_text(secs) == units_ago(n, "year"@),
{
}

/// One unit is named as one, and several by their number and their plural.
pub proof fn law_units_are_counted(n: int, unit: Seq<char>)
    ensures
        n == 1 ==> units_ago(n, unit) == decimal_int(1) + " "@ + unit + " ago"@,
        n != 1 ==> units_ago(n, unit) == decimal_int(n) + " "@ + unit + "s"@ + " ago"@,
{
    reveal_strlit("1 ");
    reveal_strlit(" ");
    reveal_strlit("s ago");
    reveal_strlit("s");
    reveal_strlit(" ago");
    assert(decimal_int(1) =~= seq!['1']);
    if n == 1 {
        assert(units_ago(n, unit) =~= decimal_int(1) + " "@ + unit + " ago"@);
    } else {
        assert(units_ago(n, unit) =~= decimal_int(n) + " "@ + unit + "s"@ + " ago"@);
    }
}

/// A size is shown in the largest unit that it fills: as it is below a kilobyte, and
/// in tenths of the unit otherwise.
pub proof fn law_sizes_have_units(bytes: int)
    requires
        bytes < 0x10_0000_0000_0000,
    ensures
        bytes < 1_024 ==> bytes_text(bytes) == decimal_int(bytes) + " B"@,
        1_024 <= bytes < 1_024 * 1_024 ==> bytes_text(bytes) == tenths_text(
            round_half_even(10 * bytes as nat, 1_024),
        ) + " KB"@,
        1_024 * 1_024 <= bytes < 1_024 * 1_024 * 1_024 ==> bytes_text(bytes) == tenths_text(
            round_half_even(10 * bytes as nat, 1_024 * 1_024),
        ) + " MB"@,
        1_024 * 1_024 * 1_024 <= bytes ==> bytes_text(bytes) == tenths_text(
            round_half_even(10 * bytes as nat, 1_024 * 1_024 * 1_024),
        ) + " GB"@,
{
    if bytes >= 1_024 {
        law_small_sizes_are_exact(bytes as nat);
    }
}

/// Tenths are shown as a whole number, a point, and one digit.
pub proof fn law_tenths_are_shown(whole: nat, tenth: nat)
    requires
        tenth < 10,
    ensures
        tenths_text(10 * whole + tenth) == decimal(whole) + "."@ + decimal(tenth),
{
}

/// The ranges of a panel are as long as their names say, and one that is not known
/// is an hour.
pub proof fn law_ranges_are_as_long_as_named(range: Seq<char>)
    ensures
        range_span("15m"@) == 15 * 60,
        range_span("1h"@) == 60 * 60,
        range_span("6h"@) == 6 * 60 * 60,
        range_span("24h"@) == 24 * 60 * 60,
        range != "15m"@ && range != "6h"@ && range != "24h"@ ==> range_span(range) == 60 * 60,
{
    reveal_strlit("15m");
    reveal_strlit("1h");
    reveal_strlit("6h");
    reveal_strlit("24h");
    assert("15m"@.len() == 3 && "1h"@.len() == 2 && "6h"@.len() == 2 && "24h"@.len() == 3);
    assert("15m"@[0] == '1' && "24h"@[0] == '2' && "1h"@[0] == '1' && "6h"@[0] == '6');
}

} // verus!
