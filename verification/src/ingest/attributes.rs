//! Attributes, identifiers and bodies of OTLP messages as text and JSON.

use vstd::float::FloatBitsProperties;
use vstd::prelude::*;

use opentelemetry_proto::tonic::common::v1::any_value::Value as AnyKind;
use opentelemetry_proto::tonic::common::v1::{AnyValue, KeyValue};

use crate::double::{display_double, double_display, double_json, double_to_json};
use crate::json::{
    canonical, distinct_keys, float_free, key_index, law_canonical_tells_values_apart, lemma_key_index,
    lemma_lookup_at, lemma_object_view, lemma_with_member, member, member_views, same_value, set_member,
    well_formed, with_member, Json, JsonNumber, JsonView, Members, NumberView,
};
use crate::text::{decimal_int, hex_digit, int_text, opt_text};

verus! {

// ---------------------------------------------------------------------------
// Identifiers
// ---------------------------------------------------------------------------

/// Bytes in lower-case hexadecimal, two digits each.
pub open spec fn hex(bytes: Seq<u8>) -> Seq<char>
    decreases bytes.len(),
{
    if bytes.len() == 0 {
        Seq::empty()
    } else {
        hex(bytes.drop_last()).push(hex_digit(bytes.last() as int / 16)).push(hex_digit(bytes.last() as int % 16))
    }
}

fn hex_char(d: u8) -> (c: char)
    requires
        d < 16,
    ensures
        c == hex_digit(d as int),
{
    if d < 10 {
        (48u8 + d) as char
    } else {
        (87u8 + d) as char
    }
}

/// Bytes in lower-case hexadecimal.
pub fn bytes_to_hex(bytes: &[u8]) -> (s: String)
    ensures
        s@ == hex(bytes@),
{
    let mut s = String::new();
    let mut i: usize = 0;
    assert(bytes@.take(0) =~= Seq::<u8>::empty());
    while i < bytes.len()
        invariant
            i <= bytes.len(),
            s@ == hex(bytes@.take(i as int)),
        decreases bytes.len() - i,
    {
        assert(bytes@.take(i + 1).drop_last() =~= bytes@.take(i as int));
        s.push(hex_char(bytes[i] / 16));
        s.push(hex_char(bytes[i] % 16));
        i += 1;
    }
    assert(bytes@.take(bytes.len() as int) =~= bytes@);
    s
}

/// The value of a hexadecimal digit in lower case.
pub open spec fn hex_value(c: char) -> int {
    if c as int >= 97 {
        c as int - 87
    } else {
        c as int - 48
    }
}

/// The bytes that hexadecimal digits stand for, two digits each.
pub open spec fn unhex(s: Seq<char>) -> Seq<u8>
    decreases s.len(),
{
    if s.len() < 2 {
        Seq::empty()
    } else {
        let n = s.len() as int;
        unhex(s.take(n - 2)).push((hex_value(s[n - 2]) * 16 + hex_value(s[n - 1])) as u8)
    }
}

/// The hexadecimal text of bytes gives the bytes back, so different identifiers
/// have different texts.
pub proof fn law_hex_gives_back_bytes(bytes: Seq<u8>)
    ensures
        hex(bytes).len() == 2 * bytes.len(),
        unhex(hex(bytes)) == bytes,
    decreases bytes.len(),
{
    if bytes.len() > 0 {
        law_hex_gives_back_bytes(bytes.drop_last());
        let s = hex(bytes);
        let b = bytes.last() as int;
        let n = s.len() as int;
        assert(s.take(n - 2) =~= hex(bytes.drop_last()));
        assert(s[n - 2] == hex_digit(b / 16) && s[n - 1] == hex_digit(b % 16));
        assert(0 <= b / 16 < 16 && 0 <= b % 16 < 16);
        assert(hex_value(s[n - 2]) == b / 16);
        assert(hex_value(s[n - 1]) == b % 16);
        assert(unhex(s) =~= bytes);
    } else {
        assert(unhex(hex(bytes)) =~= bytes);
    }
}

/// An identifier that is not set: no byte of it is other than zero.
pub open spec fn unset(bytes: Seq<u8>) -> bool {
    forall|i: int| 0 <= i < bytes.len() ==> bytes[i] == 0
}

/// Whether an identifier is not set: it is empty, or all zeros.
pub fn bytes_are_zero(b: &[u8]) -> (r: bool)
    ensures
        r == unset(b@),
{
    let mut i: usize = 0;
    while i < b.len()
        invariant
            i <= b.len(),
            forall|j: int| 0 <= j < i ==> b@[j] == 0,
        decreases b.len() - i,
    {
        if b[i] != 0 {
            return false;
        }
        i += 1;
    }
    true
}

/// An identifier in hexadecimal, if it is set.
pub open spec fn id_text(bytes: Seq<u8>) -> Option<Seq<char>> {
    if unset(bytes) {
        None
    } else {
        Some(hex(bytes))
    }
}

/// An identifier in hexadecimal, if it is set.
pub fn hex_id(bytes: &[u8]) -> (r: Option<String>)
    ensures
        opt_text(r) == id_text(bytes@),
{
    if bytes_are_zero(bytes) {
        None
    } else {
        Some(bytes_to_hex(bytes))
    }
}

// ---------------------------------------------------------------------------
// Attributes
// ---------------------------------------------------------------------------

/// The value of an attribute in JSON. Bytes stand in hexadecimal; lists of
/// values, and what has no value, stand as null.
pub open spec fn attribute_json(v: Option<AnyValue>) -> JsonView {
    match v {
        Some(AnyValue { value: Some(AnyKind::StringValue(s)) }) => JsonView::Str(s@),
        Some(AnyValue { value: Some(AnyKind::BoolValue(b)) }) => JsonView::Bool(b),
        Some(AnyValue { value: Some(AnyKind::IntValue(i)) }) => JsonView::Number(NumberView::Int(i as int)),
        Some(AnyValue { value: Some(AnyKind::DoubleValue(d)) }) => double_json(d.to_bits_spec()),
        Some(AnyValue { value: Some(AnyKind::BytesValue(b)) }) => JsonView::Str(hex(b@)),
        _ => JsonView::Null,
    }
}

/// Attributes as the members of an object. Of two with one key the later
/// counts.
pub open spec fn attribute_members(attrs: Seq<KeyValue>) -> Members
    decreases attrs.len(),
{
    if attrs.len() == 0 {
        Seq::empty()
    } else {
        with_member(
            attribute_members(attrs.drop_last()),
            attrs.last().key@,
            attribute_json(attrs.last().value),
        )
    }
}

/// Attributes as a JSON object.
pub open spec fn attributes_json(attrs: Seq<KeyValue>) -> JsonView {
    JsonView::Object(attribute_members(attrs))
}

fn value_to_json(v: &Option<AnyValue>) -> (r: Json)
    ensures
        r@ == attribute_json(*v),
{
    match v {
        Some(any) => match &any.value {
            Some(kind) => match kind {
                AnyKind::StringValue(s) => Json::Str(s.clone()),
                AnyKind::BoolValue(b) => Json::Bool(*b),
                AnyKind::IntValue(i) => int_json(*i),
                AnyKind::DoubleValue(_) => double_to_json(kind),
                AnyKind::BytesValue(b) => Json::Str(bytes_to_hex(b.as_slice())),
                _ => Json::Null,
            },
            None => Json::Null,
        },
        None => Json::Null,
    }
}

/// An integer in JSON.
pub fn int_json(i: i64) -> (r: Json)
    ensures
        r@ == JsonView::Number(NumberView::Int(i as int)),
{
    if i >= 0 {
        Json::Number(JsonNumber::PosInt(i as u64))
    } else {
        Json::Number(JsonNumber::NegInt(i))
    }
}

/// Attributes as a JSON object.
pub fn kv_to_json(attrs: &Vec<KeyValue>) -> (r: Json)
    ensures
        r@ == attributes_json(attrs@),
        well_formed(r@),
{
    let mut members: Vec<(String, Json)> = Vec::new();
    let mut i: usize = 0;
    assert(attrs@.take(0) =~= Seq::<KeyValue>::empty());
    assert(member_views(members@) =~= Seq::empty());
    while i < attrs.len()
        invariant
            i <= attrs.len(),
            member_views(members@) == attribute_members(attrs@.take(i as int)),
        decreases attrs.len() - i,
    {
        assert(attrs@.take(i + 1).drop_last() =~= attrs@.take(i as int));
        let v = value_to_json(&attrs[i].value);
        set_member(&mut members, attrs[i].key.clone(), v);
        i += 1;
    }
    assert(attrs@.take(attrs.len() as int) =~= attrs@);
    proof {
        lemma_object_view(members);
        law_attribute_keys_distinct(attrs@);
    }
    Json::Object(members)
}

/// No attribute object has a key twice, and the values in it hold no objects.
pub proof fn law_attribute_keys_distinct(attrs: Seq<KeyValue>)
    ensures
        distinct_keys(attribute_members(attrs)),
        well_formed(attributes_json(attrs)),
    decreases attrs.len(),
{
    if attrs.len() > 0 {
        let front = attribute_members(attrs.drop_last());
        law_attribute_keys_distinct(attrs.drop_last());
        lemma_with_member(front, attrs.last().key@, attribute_json(attrs.last().value));
        lemma_key_index(front, attrs.last().key@);
        let all = attribute_members(attrs);
        assert(attributes_json(attrs.drop_last()) == JsonView::Object(front));
        assert(well_formed(attribute_json(attrs.last().value)));
        assert forall|i: int| 0 <= i < all.len() implies well_formed((#[trigger] all[i]).1) by {
            let at = key_index(front, attrs.last().key@);
            if i < front.len() && i != at {
                assert(front[i] == all[i]);
            }
        }
    }
}

// ---------------------------------------------------------------------------
// Bodies
// ---------------------------------------------------------------------------

/// The body of a log record as text, if it is a scalar other than bytes.
pub open spec fn body_text(body: Option<AnyValue>) -> Option<Seq<char>> {
    match body {
        Some(AnyValue { value: Some(AnyKind::StringValue(s)) }) => Some(s@),
        Some(AnyValue { value: Some(AnyKind::BoolValue(b)) }) => Some(
            if b {
                "true"@
            } else {
                "false"@
            },
        ),
        Some(AnyValue { value: Some(AnyKind::IntValue(i)) }) => Some(decimal_int(i as int)),
        Some(AnyValue { value: Some(AnyKind::DoubleValue(d)) }) => Some(double_display(d.to_bits_spec())),
        _ => None,
    }
}

/// The body of a log record as text.
pub fn body_to_string(body: &Option<AnyValue>) -> (r: Option<String>)
    ensures
        opt_text(r) == body_text(*body),
{
    match body {
        Some(any) => match &any.value {
            Some(kind) => match kind {
                AnyKind::StringValue(s) => Some(s.clone()),
                AnyKind::BoolValue(b) => Some(
                    if *b {
                        "true".to_owned()
                    } else {
                        "false".to_owned()
                    },
                ),
                AnyKind::IntValue(i) => Some(int_text(*i)),
                AnyKind::DoubleValue(_) => Some(display_double(kind)),
                _ => None,
            },
            None => None,
        },
        None => None,
    }
}

// ---------------------------------------------------------------------------
// What is kept of identifiers and attributes
// ---------------------------------------------------------------------------

/// A text names an identifier: there is one exactly where some byte of the
/// identifier is not zero, and it gives the bytes back.
pub open spec fn names(text: Option<Seq<char>>, bytes: Seq<u8>) -> bool {
    &&& text is Some <==> exists|k: int| 0 <= k < bytes.len() && #[trigger] bytes[k] != 0
    &&& text matches Some(t) ==> t.len() == 2 * bytes.len() && unhex(t) == bytes
}

/// An identifier has a text exactly where some byte of it is not zero, and the
/// text gives the identifier back.
pub proof fn law_identifier_is_named(bytes: Seq<u8>)
    ensures
        names(id_text(bytes), bytes),
        unset(bytes) <==> forall|k: int| 0 <= k < bytes.len() ==> #[trigger] bytes[k] == 0,
{
    law_hex_gives_back_bytes(bytes);
}

/// Two identifiers of the same text are the same.
pub proof fn law_names_tell_identifiers_apart(text: Option<Seq<char>>, a: Seq<u8>, b: Seq<u8>)
    requires
        text is Some,
        names(text, a),
        names(text, b),
    ensures
        a == b,
{
}

/// The last attribute with a key stands at a place.
pub open spec fn is_last_with(attrs: Seq<KeyValue>, key: Seq<char>, i: int) -> bool {
    &&& 0 <= i < attrs.len()
    &&& attrs[i].key@ == key
    &&& forall|j: int| i < j < attrs.len() ==> (#[trigger] attrs[j]).key@ != key
}

/// Some attribute has the key.
pub open spec fn has_key(attrs: Seq<KeyValue>, key: Seq<char>) -> bool {
    exists|i: int| 0 <= i < attrs.len() && (#[trigger] attrs[i]).key@ == key
}

/// A JSON object shows attributes: looking up a key in it gives the value of
/// the last attribute with that key, and nothing where no attribute has it.
pub open spec fn shows(v: JsonView, attrs: Seq<KeyValue>) -> bool {
    &&& v is Object
    &&& forall|key: Seq<char>, i: int| #[trigger]
        is_last_with(attrs, key, i) ==> member(v, key) == Some(attribute_json(attrs[i].value))
    &&& forall|key: Seq<char>| !#[trigger] has_key(attrs, key) ==> member(v, key) is None
}

/// Looking up a key among attributes gives the value of the last attribute with
/// that key, and nothing where there is none.
pub proof fn law_attributes_can_be_looked_up(attrs: Seq<KeyValue>)
    ensures
        shows(attributes_json(attrs), attrs),
    decreases attrs.len(),
{
    let v = attributes_json(attrs);
    if attrs.len() > 0 {
        let front = attrs.drop_last();
        let n = attrs.len() - 1;
        let last = attrs.last();
        law_attributes_can_be_looked_up(front);
        law_attribute_keys_distinct(front);
        lemma_with_member(attribute_members(front), last.key@, attribute_json(last.value));
        assert forall|key: Seq<char>, i: int| #[trigger] is_last_with(attrs, key, i) implies member(v, key) == Some(
            attribute_json(attrs[i].value),
        ) by {
            if i < n {
                assert(attrs[n].key@ != key);
                assert forall|j: int| i < j < front.len() implies (#[trigger] front[j]).key@ != key by {
                    assert(front[j] == attrs[j]);
                }
                assert(is_last_with(front, key, i));
                assert(member(v, key) == member(attributes_json(front), key));
            }
        }
        assert forall|key: Seq<char>| !#[trigger] has_key(attrs, key) implies member(v, key) is None by {
            assert(attrs[n].key@ != key);
            if has_key(front, key) {
                let i = choose|i: int| 0 <= i < front.len() && (#[trigger] front[i]).key@ == key;
                assert(attrs[i].key@ == key);
            }
            assert(member(v, key) == member(attributes_json(front), key));
        }
    }
}

/// A value that is sent stands for itself in JSON: a text, a truth value and an
/// integer as they are, bytes as a text that gives them back, a double as it is
/// written.
pub proof fn law_attribute_values_stay(v: AnyValue)
    ensures
        match v.value {
            Some(AnyKind::StringValue(s)) => attribute_json(Some(v)) == JsonView::Str(s@),
            Some(AnyKind::BoolValue(b)) => attribute_json(Some(v)) == JsonView::Bool(b),
            Some(AnyKind::IntValue(i)) => attribute_json(Some(v)) == JsonView::Number(NumberView::Int(i as int)),
            Some(AnyKind::DoubleValue(d)) => attribute_json(Some(v)) == double_json(d.to_bits_spec()),
            Some(AnyKind::BytesValue(b)) => attribute_json(Some(v)) matches JsonView::Str(t) && t.len() == 2
                * b@.len() && unhex(t) == b@,
            _ => attribute_json(Some(v)) is Null,
        },
        attribute_json(None) is Null,
{
    if let Some(AnyKind::BytesValue(b)) = v.value {
        law_hex_gives_back_bytes(b@);
    }
}

/// The value of an attribute is a double.
pub open spec fn is_double(v: Option<AnyValue>) -> bool {
    match v {
        Some(AnyValue { value: Some(AnyKind::DoubleValue(_)) }) => true,
        _ => false,
    }
}

/// No attribute is a double.
pub open spec fn no_doubles(attrs: Seq<KeyValue>) -> bool {
    forall|i: int| 0 <= i < attrs.len() ==> !is_double((#[trigger] attrs[i]).value)
}

proof fn lemma_float_free(attrs: Seq<KeyValue>)
    requires
        no_doubles(attrs),
    ensures
        float_free(attributes_json(attrs)),
    decreases attrs.len(),
{
    if attrs.len() > 0 {
        let front = attrs.drop_last();
        assert forall|i: int| 0 <= i < front.len() implies !is_double((#[trigger] front[i]).value) by {
            assert(front[i] == attrs[i]);
        }
        lemma_float_free(front);
        let before = attribute_members(front);
        let all = attribute_members(attrs);
        lemma_key_index(before, attrs.last().key@);
        assert(attrs[attrs.len() - 1] == attrs.last());
        let shown = attributes_json(front);
        assert(shown->Object_0 == before);
        assert(float_free(attribute_json(attrs.last().value)));
        assert forall|i: int| 0 <= i < all.len() implies float_free((#[trigger] all[i]).1) by {
            let at = key_index(before, attrs.last().key@);
            if i < before.len() && i != at {
                assert(before[i] == all[i]);
                assert(float_free(shown->Object_0[i].1));
            }
        }
    }
}

proof fn lemma_scalar_members(attrs: Seq<KeyValue>)
    ensures
        forall|i: int|
            0 <= i < attribute_members(attrs).len() ==> !((#[trigger] attribute_members(attrs)[i]).1 is Array)
                && !(attribute_members(attrs)[i].1 is Object),
    decreases attrs.len(),
{
    if attrs.len() > 0 {
        let before = attribute_members(attrs.drop_last());
        let all = attribute_members(attrs);
        lemma_scalar_members(attrs.drop_last());
        lemma_key_index(before, attrs.last().key@);
        assert forall|i: int| 0 <= i < all.len() implies !((#[trigger] all[i]).1 is Array) && !(all[i].1 is Object) by {
            let at = key_index(before, attrs.last().key@);
            if i < before.len() && i != at {
                assert(before[i] == all[i]);
            }
        }
    }
}

/// Attributes without doubles that differ under some key have different
/// canonical texts, by which series are told apart.
pub proof fn law_different_attributes_differ_in_text(a: Seq<KeyValue>, b: Seq<KeyValue>, key: Seq<char>)
    requires
        no_doubles(a),
        no_doubles(b),
        member(attributes_json(a), key) != member(attributes_json(b), key),
    ensures
        canonical(attributes_json(a)) != canonical(attributes_json(b)),
{
    if canonical(attributes_json(a)) == canonical(attributes_json(b)) {
        let (x, y) = (attribute_members(a), attribute_members(b));
        law_attribute_keys_distinct(a);
        law_attribute_keys_distinct(b);
        lemma_float_free(a);
        lemma_float_free(b);
        lemma_scalar_members(a);
        lemma_scalar_members(b);
        law_canonical_tells_values_apart(attributes_json(a), attributes_json(b));
        law_canonical_tells_values_apart(attributes_json(b), attributes_json(a));
        lemma_key_index(x, key);
        lemma_key_index(y, key);
        let (i, j) = (key_index(x, key), key_index(y, key));
        if i >= 0 {
            let e = x[i];
            let k = choose|k: int| 0 <= k < y.len() && e.0 == (#[trigger] y[k]).0 && same_value(e.1, y[k].1);
            assert(y[k].0 == key);
            lemma_lookup_at(y, key, k);
        } else if j >= 0 {
            let e = y[j];
            let k = choose|k: int| 0 <= k < x.len() && e.0 == (#[trigger] x[k]).0 && same_value(e.1, x[k].1);
            assert(x[k].0 == key);
        }
    }
}

} // verus!
