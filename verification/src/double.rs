//! Doubles where they are read, written and shown.
//!
//! A double travels in the value that OTLP has for one; the contracts speak of
//! its bits.

use vstd::float::FloatBitsProperties;
use vstd::prelude::*;

use opentelemetry_proto::tonic::common::v1::any_value::Value as AnyKind;

use crate::float::int_double;
use crate::json::{Json, JsonNumber, JsonView, NumberView};
use crate::text::{decimal_int, int_text, opt_text, push_decimal};

verus! {

/// The bits of a value that is a double.
pub open spec fn double_of(v: AnyKind) -> Option<u64> {
    match v {
        AnyKind::DoubleValue(d) => Some(d.to_bits_spec()),
        _ => None,
    }
}

/// How `serde_json` writes the double with the given bits, if it is finite.
pub uninterp spec fn double_text(bits: u64) -> Option<Seq<char>>;

/// How the standard library shows the double with the given bits.
pub uninterp spec fn double_display(bits: u64) -> Seq<char>;

/// `serde_json::Number::from_f64` and its text: how a finite double is written
/// in JSON. What is infinite or not a number has no JSON form.
#[verifier::external_body]
fn json_double(v: &AnyKind) -> (r: Option<String>)
    requires
        double_of(*v) is Some,
    ensures
        opt_text(r) == double_text(double_of(*v)->0),
{
    match v {
        AnyKind::DoubleValue(d) => serde_json::Number::from_f64(*d).map(|n| n.to_string()),
        _ => None,
    }
}

/// `ToString` of a double in the standard library.
#[verifier::external_body]
pub(crate) fn display_double(v: &AnyKind) -> (r: String)
    requires
        double_of(*v) is Some,
    ensures
        r@ == double_display(double_of(*v)->0),
{
    match v {
        AnyKind::DoubleValue(d) => d.to_string(),
        _ => String::new(),
    }
}

/// `to_bits` of a double in the standard library.
#[verifier::external_body]
pub(crate) fn double_bits(v: &AnyKind) -> (bits: u64)
    requires
        double_of(*v) is Some,
    ensures
        bits == double_of(*v)->0,
{
    match v {
        AnyKind::DoubleValue(d) => d.to_bits(),
        _ => 0,
    }
}

/// A double in JSON: a number, or null where it is none.
pub open spec fn double_json(bits: u64) -> JsonView {
    match double_text(bits) {
        Some(t) => JsonView::Number(NumberView::Float(t)),
        None => JsonView::Null,
    }
}

/// A double in JSON.
pub(crate) fn double_to_json(v: &AnyKind) -> (r: Json)
    requires
        double_of(*v) is Some,
    ensures
        r@ == double_json(double_of(*v)->0),
{
    match json_double(v) {
        Some(t) => Json::Number(JsonNumber::Float(t)),
        None => Json::Null,
    }
}

/// What the standard library reads as a double, in bits.
pub uninterp spec fn parsed_double(text: Seq<char>) -> Option<u64>;

/// How the standard library shows the double with the given bits, rounded to
/// four decimals.
pub uninterp spec fn double_fixed(bits: u64) -> Seq<char>;

/// The bits of an optional double.
pub open spec fn opt_double(v: Option<AnyKind>) -> Option<u64> {
    match v {
        Some(v) => double_of(v),
        None => None,
    }
}

/// `str::parse` of a double in the standard library: the double nearest to the
/// number that the text holds, if it holds one.
#[verifier::external_body]
pub(crate) fn parse_double(text: &str) -> (r: Option<AnyKind>)
    ensures
        opt_double(r) == parsed_double(text@),
        r matches Some(v) ==> double_of(v) is Some,
        forall|i: int|
            i64::MIN <= i <= u64::MAX && text@ == #[trigger] decimal_int(i) ==> opt_double(r) == Some(
                int_double(i) as u64,
            ),
{
    text.parse().ok().map(AnyKind::DoubleValue)
}

/// `format!` of a double with four decimals in the standard library.
#[verifier::external_body]
pub(crate) fn fixed_double(v: &AnyKind) -> (r: String)
    requires
        double_of(*v) is Some,
    ensures
        r@ == double_fixed(double_of(*v)->0),
{
    match v {
        AnyKind::DoubleValue(d) => format!("{:.4}", d),
        _ => String::new(),
    }
}

/// A JSON number in the bits of a double.
pub open spec fn number_double(n: NumberView) -> Option<u64> {
    match n {
        NumberView::Int(i) => Some(int_double(i) as u64),
        NumberView::Float(t) => parsed_double(t),
    }
}

/// A JSON number as a double.
pub(crate) fn number_value(n: &JsonNumber) -> (r: Option<AnyKind>)
    ensures
        opt_double(r) == number_double(n@),
        r matches Some(v) ==> double_of(v) is Some,
{
    match n {
        JsonNumber::PosInt(m) => {
            let mut t = String::new();
            push_decimal(&mut t, *m);
            assert(t@ =~= decimal_int(*m as int));
            parse_double(t.as_str())
        },
        JsonNumber::NegInt(i) => parse_double(int_text(*i).as_str()),
        JsonNumber::Float(t) => parse_double(t.as_str()),
    }
}

/// The double zero.
pub(crate) fn zero() -> (v: AnyKind)
    ensures
        double_of(v) == Some(0u64),
{
    proof {
        assert(int_double(0) == 0);
    }
    match number_value(&JsonNumber::PosInt(0)) {
        Some(v) => v,
        None => AnyKind::IntValue(0),
    }
}

} // verus!
