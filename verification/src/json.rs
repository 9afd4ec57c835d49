//! JSON values: the model, member access, and canonical text.

use vstd::prelude::*;

use crate::text::{
    decimal, decimal_int, hex_digit, int_text, is_digit, join, join_spec, lemma_decimal, lemma_text_lt_total,
    lemma_text_lt_transitive, opt_str, push_decimal, str_eq, str_lt, text_lt, texts,
};

verus! {

/// A JSON number: a non-negative integer, a negative integer, or any other
/// number, kept as the text it is written with.
#[derive(Debug, PartialEq, Eq)]
pub enum JsonNumber {
    PosInt(u64),
    NegInt(i64),
    Float(String),
}

/// A JSON value. The members of an object are kept in the order in which they
/// were added.
#[derive(Debug, PartialEq, Eq)]
pub enum Json {
    Null,
    Bool(bool),
    Number(JsonNumber),
    Str(String),
    Array(Vec<Json>),
    Object(Vec<(String, Json)>),
}

/// What a JSON number stands for.
#[verifier::ext_equal]
pub enum NumberView {
    Int(int),
    Float(Seq<char>),
}

/// What a JSON value stands for.
#[verifier::ext_equal]
pub enum JsonView {
    Null,
    Bool(bool),
    Number(NumberView),
    Str(Seq<char>),
    Array(Seq<JsonView>),
    Object(Seq<(Seq<char>, JsonView)>),
}

/// The members of an object: keys with values.
pub type Members = Seq<(Seq<char>, JsonView)>;

impl JsonNumber {
    pub open spec fn view(&self) -> NumberView {
        match self {
            JsonNumber::PosInt(n) => NumberView::Int(*n as int),
            JsonNumber::NegInt(n) => NumberView::Int(*n as int),
            JsonNumber::Float(t) => NumberView::Float(t@),
        }
    }

    /// A copy of the number.
    pub fn copy(&self) -> (r: JsonNumber)
        ensures
            r@ == self@,
    {
        match self {
            JsonNumber::PosInt(n) => JsonNumber::PosInt(*n),
            JsonNumber::NegInt(n) => JsonNumber::NegInt(*n),
            JsonNumber::Float(t) => JsonNumber::Float(t.clone()),
        }
    }
}

/// What each value of a list stands for.
pub open spec fn views(items: Seq<Json>) -> Seq<JsonView> {
    Seq::new(items.len(), |i: int| items[i]@)
}

/// What each member of an object stands for.
pub open spec fn member_views(members: Seq<(String, Json)>) -> Members {
    Seq::new(members.len(), |i: int| (members[i].0@, members[i].1@))
}

impl Json {
    pub open spec fn view(&self) -> JsonView
        decreases self,
    {
        match self {
            Json::Null => JsonView::Null,
            Json::Bool(b) => JsonView::Bool(*b),
            Json::Number(n) => JsonView::Number(n@),
            Json::Str(s) => JsonView::Str(s@),
            Json::Array(items) => JsonView::Array(
                Seq::new(
                    items@.len(),
                    |i: int|
                        if 0 <= i < items@.len() {
                            items@[i].view()
                        } else {
                            JsonView::Null
                        },
                ),
            ),
            Json::Object(members) => JsonView::Object(
                Seq::new(
                    members@.len(),
                    |i: int|
                        if 0 <= i < members@.len() {
                            (members@[i].0@, members@[i].1.view())
                        } else {
                            (Seq::empty(), JsonView::Null)
                        },
                ),
            ),
        }
    }

    /// A copy of the value.
    pub fn copy(&self) -> (r: Json)
        ensures
            r@ == self@,
        decreases self,
    {
        match self {
            Json::Null => Json::Null,
            Json::Bool(b) => Json::Bool(*b),
            Json::Number(n) => Json::Number(n.copy()),
            Json::Str(s) => Json::Str(s.clone()),
            Json::Array(items) => {
                let mut out: Vec<Json> = Vec::new();
                let mut i: usize = 0;
                while i < items.len()
                    invariant
                        i <= items.len(),
                        *self == Json::Array(*items),
                        out@.len() == i,
                        forall|j: int| 0 <= j < i ==> (#[trigger] out@[j])@ == items@[j]@,
                    decreases items.len() - i,
                {
                    proof {
                        lemma_items_smaller(*self, i as int);
                    }
                    out.push(items[i].copy());
                    i += 1;
                }
                let r = Json::Array(out);
                proof {
                    lemma_array_view(out);
                    lemma_array_view(*items);
                    assert(views(out@) =~= views(items@));
                }
                r
            },
            Json::Object(members) => {
                let mut out: Vec<(String, Json)> = Vec::new();
                let mut i: usize = 0;
                while i < members.len()
                    invariant
                        i <= members.len(),
                        *self == Json::Object(*members),
                        out@.len() == i,
                        forall|j: int|
                            0 <= j < i ==> (#[trigger] out@[j]).0@ == members@[j].0@ && out@[j].1@ == members@[j].1@,
                    decreases members.len() - i,
                {
                    proof {
                        lemma_members_smaller(*self, i as int);
                    }
                    out.push((members[i].0.clone(), members[i].1.copy()));
                    i += 1;
                }
                let r = Json::Object(out);
                proof {
                    lemma_object_view(out);
                    lemma_object_view(*members);
                    assert(member_views(out@) =~= member_views(members@));
                }
                r
            },
        }
    }
}

/// What an optional JSON value stands for.
pub open spec fn opt_json(v: Option<Json>) -> Option<JsonView> {
    match v {
        Some(j) => Some(j@),
        None => None,
    }
}

/// An item of an array is smaller than the array.
pub proof fn lemma_items_smaller(v: Json, i: int)
    requires
        v is Array,
        0 <= i < v->Array_0@.len(),
    ensures
        decreases_to!(v => v->Array_0@[i]),
{
    let items = v->Array_0;
    assert(decreases_to!(v => v->Array_0));
    assert(decreases_to!(items => items@));
    assert(decreases_to!(items@ => items@[i]));
}

/// A member's value is smaller than the object.
pub proof fn lemma_members_smaller(v: Json, i: int)
    requires
        v is Object,
        0 <= i < v->Object_0@.len(),
    ensures
        decreases_to!(v => v->Object_0@[i].1),
{
    let members = v->Object_0;
    assert(decreases_to!(v => v->Object_0));
    assert(decreases_to!(members => members@));
    assert(decreases_to!(members@ => members@[i]));
    assert(decreases_to!(members@[i] => members@[i].1));
}

/// An array stands for the values of its items.
pub proof fn lemma_array_view(items: Vec<Json>)
    ensures
        Json::Array(items)@ == JsonView::Array(views(items@)),
{
    assert(Json::Array(items)@->Array_0 =~= views(items@));
}

/// An object stands for the values of its members.
pub proof fn lemma_object_view(members: Vec<(String, Json)>)
    ensures
        Json::Object(members)@ == JsonView::Object(member_views(members@)),
{
    assert(Json::Object(members)@->Object_0 =~= member_views(members@));
}

// ---------------------------------------------------------------------------
// Members
// ---------------------------------------------------------------------------

/// Where a key stands among the members, or -1.
pub open spec fn key_index(members: Members, key: Seq<char>) -> int
    decreases members.len(),
{
    if members.len() == 0 {
        -1
    } else if members.last().0 == key {
        members.len() - 1
    } else {
        key_index(members.drop_last(), key)
    }
}

/// The value of a key.
pub open spec fn lookup(members: Members, key: Seq<char>) -> Option<JsonView> {
    let i = key_index(members, key);
    if i < 0 {
        None
    } else {
        Some(members[i].1)
    }
}

/// The value of a key, if the value is an object that has it.
pub open spec fn member(v: JsonView, key: Seq<char>) -> Option<JsonView> {
    match v {
        JsonView::Object(members) => lookup(members, key),
        _ => None,
    }
}

/// The members with one of them set: in place of an earlier one with the same
/// key, or behind the others.
pub open spec fn with_member(members: Members, key: Seq<char>, value: JsonView) -> Members {
    let i = key_index(members, key);
    if i < 0 {
        members.push((key, value))
    } else {
        members.update(i, (key, value))
    }
}

/// Where a key stands: the members behind it have other keys.
pub proof fn lemma_key_index(members: Members, key: Seq<char>)
    ensures
        -1 <= key_index(members, key) < members.len(),
        key_index(members, key) >= 0 ==> members[key_index(members, key)].0 == key,
        forall|j: int| key_index(members, key) < j < members.len() ==> (#[trigger] members[j]).0 != key,
    decreases members.len(),
{
    if members.len() > 0 && members.last().0 != key {
        lemma_key_index(members.drop_last(), key);
        assert forall|j: int| key_index(members, key) < j < members.len() implies (#[trigger] members[j]).0 != key by {
            if j < members.len() - 1 {
                assert(members.drop_last()[j] == members[j]);
            }
        }
    }
}

/// A key that no member behind has is found where it stands.
pub proof fn lemma_lookup_at(members: Members, key: Seq<char>, i: int)
    requires
        0 <= i < members.len(),
        members[i].0 == key,
        forall|j: int| i < j < members.len() ==> (#[trigger] members[j]).0 != key,
    ensures
        lookup(members, key) == Some(members[i].1),
{
    lemma_key_index(members, key);
}

/// Setting a member keeps keys distinct, gives back the value that was set,
/// and leaves every other key as it was.
pub proof fn lemma_with_member(members: Members, key: Seq<char>, value: JsonView)
    requires
        distinct_keys(members),
    ensures
        distinct_keys(with_member(members, key, value)),
        lookup(with_member(members, key, value), key) == Some(value),
        forall|other: Seq<char>| other != key ==> #[trigger] lookup(with_member(members, key, value), other) == lookup(
            members,
            other,
        ),
{
    let r = with_member(members, key, value);
    lemma_key_index(members, key);
    lemma_key_index(r, key);
    assert forall|other: Seq<char>| other != key implies #[trigger] lookup(r, other) == lookup(members, other) by {
        lemma_key_index(members, other);
        lemma_key_index(r, other);
        let i = key_index(members, other);
        let j = key_index(r, other);
        if i >= 0 {
            assert(r[i].0 == other);
        }
        if j >= 0 {
            assert(members[j].0 == other);
        }
    }
    let i = key_index(members, key);
    let j = key_index(r, key);
    if i < 0 {
        assert(r[members.len() as int].0 == key);
    } else {
        assert(r[i].0 == key);
    }
}

/// Where a key stands among the members.
pub fn find_key(members: &Vec<(String, Json)>, key: &str) -> (at: Option<usize>)
    ensures
        match at {
            Some(i) => i < members@.len() && key_index(member_views(members@), key@) == i,
            None => key_index(member_views(members@), key@) < 0,
        },
{
    let ghost all = member_views(members@);
    let mut n: usize = members.len();
    assert(all.take(n as int) =~= all);
    while n > 0
        invariant
            n <= members@.len(),
            all == member_views(members@),
            key_index(all, key@) == key_index(all.take(n as int), key@),
        decreases n,
    {
        n -= 1;
        assert(all.take(n + 1).drop_last() =~= all.take(n as int));
        if str_eq(members[n].0.as_str(), key) {
            return Some(n);
        }
    }
    None
}

/// Adds a member behind the others.
pub fn push_member(members: &mut Vec<(String, Json)>, key: &str, value: Json)
    ensures
        member_views(final(members)@) == member_views(old(members)@).push((key@, value@)),
{
    let ghost before = member_views(members@);
    let ghost v = value@;
    members.push((key.to_owned(), value));
    assert(member_views(members@) =~= before.push((key@, v)));
}

/// Sets a member.
pub fn set_member(members: &mut Vec<(String, Json)>, key: String, value: Json)
    ensures
        member_views(final(members)@) == with_member(member_views(old(members)@), key@, value@),
{
    let ghost before = member_views(members@);
    match find_key(members, key.as_str()) {
        Some(i) => {
            let ghost k = key@;
            let ghost v = value@;
            members.set(i, (key, value));
            assert(member_views(members@) =~= before.update(i as int, (k, v)));
        },
        None => {
            let ghost k = key@;
            let ghost v = value@;
            members.push((key, value));
            assert(member_views(members@) =~= before.push((k, v)));
        },
    }
}

impl Json {
    /// The value of a key, if this is an object that has it.
    pub fn get(&self, key: &str) -> (r: Option<&Json>)
        ensures
            match r {
                Some(v) => member(self@, key@) == Some(v@),
                None => member(self@, key@) is None,
            },
    {
        match self {
            Json::Object(members) => {
                proof {
                    lemma_object_view(*members);
                }
                match find_key(members, key) {
                    Some(i) => Some(&members[i].1),
                    None => None,
                }
            },
            _ => None,
        }
    }

    /// The text, if this is a string.
    pub fn as_str(&self) -> (r: Option<&str>)
        ensures
            match r {
                Some(s) => self@ == JsonView::Str(s@),
                None => !(self@ is Str),
            },
    {
        match self {
            Json::Str(s) => Some(s.as_str()),
            _ => None,
        }
    }

    /// The number, if this is an integer that fits into `i64`.
    pub fn as_i64(&self) -> (r: Option<i64>)
        ensures
            match r {
                Some(n) => self@ == JsonView::Number(NumberView::Int(n as int)),
                None => !(self@ matches JsonView::Number(NumberView::Int(n)) && i64::MIN <= n <= i64::MAX),
            },
    {
        match self {
            Json::Number(JsonNumber::PosInt(n)) => if *n <= i64::MAX as u64 {
                Some(*n as i64)
            } else {
                None
            },
            Json::Number(JsonNumber::NegInt(n)) => Some(*n),
            _ => None,
        }
    }
}

/// The text of a member.
pub open spec fn text_member(v: JsonView, key: Seq<char>) -> Option<Seq<char>> {
    match member(v, key) {
        Some(JsonView::Str(s)) => Some(s),
        _ => None,
    }
}

/// The 64-bit integer of a member.
pub open spec fn int_member(v: JsonView, key: Seq<char>) -> Option<int> {
    match member(v, key) {
        Some(JsonView::Number(NumberView::Int(n))) => if i64::MIN <= n <= i64::MAX {
            Some(n)
        } else {
            None
        },
        _ => None,
    }
}

impl Json {
    /// The text of a member.
    pub fn get_str(&self, key: &str) -> (r: Option<&str>)
        ensures
            opt_str(r) == text_member(self@, key@),
    {
        match self.get(key) {
            Some(v) => v.as_str(),
            None => None,
        }
    }

    /// The 64-bit integer of a member.
    pub fn get_i64(&self, key: &str) -> (r: Option<i64>)
        ensures
            match r {
                Some(n) => int_member(self@, key@) == Some(n as int),
                None => int_member(self@, key@) is None,
            },
    {
        match self.get(key) {
            Some(v) => v.as_i64(),
            None => None,
        }
    }
}

// ---------------------------------------------------------------------------
// Reading
// ---------------------------------------------------------------------------

/// A value of `serde_json`.
#[verifier::external_type_specification]
#[verifier::external_body]
pub struct ExValue(serde_json::Value);

/// What a `serde_json` value holds.
pub uninterp spec fn value_json(v: serde_json::Value) -> JsonView;

/// What `serde_json` reads from bytes: the value, or its error message.
pub uninterp spec fn parsed_json(body: Seq<u8>) -> Result<JsonView, Seq<char>>;

/// `serde_json::from_slice`: reads a JSON value from bytes, or says in an error
/// message why the bytes are none. The outcome depends on the bytes alone.
#[verifier::external_body]
fn read_value(body: &[u8]) -> (r: Result<serde_json::Value, String>)
    ensures
        match r {
            Ok(v) => parsed_json(body@) == Ok::<JsonView, Seq<char>>(value_json(v)),
            Err(e) => parsed_json(body@) == Err::<JsonView, Seq<char>>(e@),
        },
{
    serde_json::from_slice(body).map_err(|e| e.to_string())
}

/// Takes a `serde_json` value apart, variant by variant: nothing is added,
/// left out or changed. A map of `serde_json` has each key once.
#[verifier::external_body]
fn json_of_value(v: serde_json::Value) -> (r: Json)
    ensures
        r@ == value_json(v),
        well_formed(r@),
{
    match v {
        serde_json::Value::Null => Json::Null,
        serde_json::Value::Bool(b) => Json::Bool(b),
        serde_json::Value::Number(n) => Json::Number(match (n.as_u64(), n.as_i64()) {
            (Some(u), _) => JsonNumber::PosInt(u),
            (None, Some(i)) => JsonNumber::NegInt(i),
            (None, None) => JsonNumber::Float(n.to_string()),
        }),
        serde_json::Value::String(s) => Json::Str(s),
        serde_json::Value::Array(a) => Json::Array(a.into_iter().map(json_of_value).collect()),
        serde_json::Value::Object(m) => {
            Json::Object(m.into_iter().map(|(k, x)| (k, json_of_value(x))).collect())
        },
    }
}

/// Reads a JSON value from bytes.
pub fn parse_json(body: &[u8]) -> (r: Result<Json, String>)
    ensures
        match r {
            Ok(j) => parsed_json(body@) == Ok::<JsonView, Seq<char>>(j@) && well_formed(j@),
            Err(e) => parsed_json(body@) == Err::<JsonView, Seq<char>>(e@),
        },
{
    match read_value(body) {
        Ok(v) => Ok(json_of_value(v)),
        Err(e) => Err(e),
    }
}

// ---------------------------------------------------------------------------
// Canonical text
// ---------------------------------------------------------------------------

/// How one character stands in a JSON string.
pub open spec fn escaped(c: char) -> Seq<char> {
    if c == '"' {
        seq!['\\', '"']
    } else if c == '\\' {
        seq!['\\', '\\']
    } else if c == '\u{8}' {
        seq!['\\', 'b']
    } else if c == '\t' {
        seq!['\\', 't']
    } else if c == '\n' {
        seq!['\\', 'n']
    } else if c == '\u{c}' {
        seq!['\\', 'f']
    } else if c == '\r' {
        seq!['\\', 'r']
    } else if (c as int) < 32 {
        seq!['\\', 'u', '0', '0', hex_digit(c as int / 16), hex_digit(c as int % 16)]
    } else {
        seq![c]
    }
}

pub open spec fn escaped_text(s: Seq<char>) -> Seq<char>
    decreases s.len(),
{
    if s.len() == 0 {
        Seq::empty()
    } else {
        escaped_text(s.drop_last()) + escaped(s.last())
    }
}

/// A text as a JSON string literal.
pub open spec fn quoted(s: Seq<char>) -> Seq<char> {
    seq!['"'] + escaped_text(s) + seq!['"']
}

/// `serde_json::to_string` of a string: the string between double quotes, with
/// quotes, backslashes and control characters escaped.
#[verifier::external_body]
fn json_string(s: &str) -> (r: String)
    ensures
        r@ == quoted(s@),
{
    serde_json::to_string(s).unwrap_or_default()
}

/// Inserts an entry behind those whose key does not come after its own.
pub open spec fn insert_entry(s: Seq<(Seq<char>, Seq<char>)>, e: (Seq<char>, Seq<char>)) -> Seq<
    (Seq<char>, Seq<char>),
>
    decreases s.len(),
{
    if s.len() > 0 && text_lt(e.0, s.last().0) {
        insert_entry(s.drop_last(), e).push(s.last())
    } else {
        s.push(e)
    }
}

/// The entries in the order of their keys.
pub open spec fn sort_entries(s: Seq<(Seq<char>, Seq<char>)>) -> Seq<(Seq<char>, Seq<char>)>
    decreases s.len(),
{
    if s.len() == 0 {
        s
    } else {
        insert_entry(sort_entries(s.drop_last()), s.last())
    }
}

/// The text of each entry: the quoted key, a colon, the value.
pub open spec fn entry_texts(s: Seq<(Seq<char>, Seq<char>)>) -> Seq<Seq<char>> {
    Seq::new(s.len(), |i: int| quoted(s[i].0) + seq![':'] + s[i].1)
}

/// The text of a JSON value without white space, the members of each object in
/// the order of their keys.
pub open spec fn canonical(v: JsonView) -> Seq<char>
    decreases v,
{
    match v {
        JsonView::Null => "null"@,
        JsonView::Bool(b) => if b {
            "true"@
        } else {
            "false"@
        },
        JsonView::Number(NumberView::Int(n)) => decimal_int(n),
        JsonView::Number(NumberView::Float(t)) => t,
        JsonView::Str(s) => quoted(s),
        JsonView::Array(items) => seq!['['] + join_spec(item_texts(items), seq![',']) + seq![']'],
        JsonView::Object(members) => seq!['{'] + join_spec(
            entry_texts(sort_entries(entries(members))),
            seq![','],
        ) + seq!['}'],
    }
}

/// The canonical texts of the items of an array.
pub open spec fn item_texts(items: Seq<JsonView>) -> Seq<Seq<char>>
    decreases items,
{
    if items.len() == 0 {
        Seq::empty()
    } else {
        item_texts(items.drop_last()).push(canonical(items.last()))
    }
}

/// The keys of an object with the canonical texts of their values.
pub open spec fn entries(members: Members) -> Seq<(Seq<char>, Seq<char>)>
    decreases members,
{
    if members.len() == 0 {
        Seq::empty()
    } else {
        entries(members.drop_last()).push((members.last().0, canonical(members.last().1)))
    }
}

proof fn lemma_item_texts(items: Seq<JsonView>)
    ensures
        item_texts(items).len() == items.len(),
        forall|i: int| 0 <= i < items.len() ==> #[trigger] item_texts(items)[i] == canonical(items[i]),
    decreases items.len(),
{
    if items.len() > 0 {
        lemma_item_texts(items.drop_last());
    }
}

proof fn lemma_entries(members: Members)
    ensures
        entries(members).len() == members.len(),
        forall|i: int|
            0 <= i < members.len() ==> #[trigger] entries(members)[i] == (members[i].0, canonical(members[i].1)),
    decreases members.len(),
{
    if members.len() > 0 {
        lemma_entries(members.drop_last());
    }
}

/// Where an entry is inserted.
proof fn lemma_insert_at(s: Seq<(Seq<char>, Seq<char>)>, e: (Seq<char>, Seq<char>), p: int)
    requires
        0 <= p <= s.len(),
        forall|i: int| p <= i < s.len() ==> text_lt(e.0, (#[trigger] s[i]).0),
        p > 0 ==> !text_lt(e.0, s[p - 1].0),
    ensures
        insert_entry(s, e) == s.insert(p, e),
    decreases s.len(),
{
    if p == s.len() {
        assert(s.insert(p, e) =~= s.push(e));
    } else {
        assert(text_lt(e.0, s[s.len() - 1].0));
        assert forall|i: int| p <= i < s.drop_last().len() implies text_lt(e.0, (#[trigger] s.drop_last()[i]).0) by {
            assert(s.drop_last()[i] == s[i]);
        }
        lemma_insert_at(s.drop_last(), e, p);
        assert(s.insert(p, e) =~= s.drop_last().insert(p, e).push(s.last()));
    }
}

/// What each pair of strings stands for.
pub open spec fn pair_views(pairs: Seq<(String, String)>) -> Seq<(Seq<char>, Seq<char>)> {
    Seq::new(pairs.len(), |i: int| (pairs[i].0@, pairs[i].1@))
}

fn insert_sorted(sorted: &mut Vec<(String, String)>, key: String, text: String)
    ensures
        pair_views(final(sorted)@) == insert_entry(pair_views(old(sorted)@), (key@, text@)),
{
    let ghost before = pair_views(sorted@);
    let ghost e = (key@, text@);
    let mut p: usize = sorted.len();
    while p > 0
        invariant_except_break
            p <= sorted.len(),
            before == pair_views(sorted@),
            e == (key@, text@),
            forall|i: int| p <= i < before.len() ==> text_lt(e.0, (#[trigger] before[i]).0),
        ensures
            p <= sorted.len(),
            before == pair_views(sorted@),
            e == (key@, text@),
            forall|i: int| p <= i < before.len() ==> text_lt(e.0, (#[trigger] before[i]).0),
            p > 0 ==> !text_lt(e.0, before[p - 1].0),
        decreases p,
    {
        assert(before[p - 1].0 == sorted@[p - 1].0@);
        if !str_lt(key.as_str(), sorted[p - 1].0.as_str()) {
            break;
        }
        p -= 1;
    }
    proof {
        lemma_insert_at(before, e, p as int);
    }
    sorted.insert(p, (key, text));
    assert(pair_views(sorted@) =~= before.insert(p as int, e));
}

/// The text of a JSON value without white space, the members of each object in
/// the order of their keys: the same value always gives the same text,
/// whatever order its members were added in.
pub fn canonical_json(v: &Json) -> (s: String)
    ensures
        s@ == canonical(v@),
    decreases v,
{
    match v {
        Json::Null => "null".to_owned(),
        Json::Bool(b) => if *b {
            "true".to_owned()
        } else {
            "false".to_owned()
        },
        Json::Number(JsonNumber::PosInt(n)) => {
            let mut s = String::new();
            push_decimal(&mut s, *n);
            assert(s@ =~= decimal_int(*n as int));
            s
        },
        Json::Number(JsonNumber::NegInt(n)) => int_text(*n),
        Json::Number(JsonNumber::Float(t)) => t.clone(),
        Json::Str(s) => json_string(s.as_str()),
        Json::Array(items) => {
            let mut parts: Vec<String> = Vec::new();
            let mut i: usize = 0;
            while i < items.len()
                invariant
                    i <= items.len(),
                    *v == Json::Array(*items),
                    parts@.len() == i,
                    forall|j: int| 0 <= j < i ==> (#[trigger] parts@[j])@ == canonical(items@[j]@),
                decreases items.len() - i,
            {
                proof {
                    lemma_items_smaller(*v, i as int);
                }
                parts.push(canonical_json(&items[i]));
                i += 1;
            }
            let mut s = String::new();
            s.push('[');
            s.push_str(join(&parts, ",").as_str());
            s.push(']');
            proof {
                reveal_strlit(",");
                assert(","@ =~= seq![',']);
                lemma_array_view(*items);
                lemma_item_texts(views(items@));
                assert(texts(parts@) =~= item_texts(views(items@)));
                assert(s@ =~= canonical(v@));
            }
            s
        },
        Json::Object(members) => {
            let mut sorted: Vec<(String, String)> = Vec::new();
            let mut i: usize = 0;
            let ghost all = entries(member_views(members@));
            proof {
                lemma_entries(member_views(members@));
            }
            assert(pair_views(sorted@) =~= sort_entries(all.take(0)));
            while i < members.len()
                invariant
                    i <= members.len(),
                    *v == Json::Object(*members),
                    all.len() == members@.len(),
                    forall|j: int|
                        0 <= j < members@.len() ==> #[trigger] all[j] == (members@[j].0@, canonical(members@[j].1@)),
                    pair_views(sorted@) == sort_entries(all.take(i as int)),
                decreases members.len() - i,
            {
                proof {
                    lemma_members_smaller(*v, i as int);
                    assert(all.take(i + 1).drop_last() =~= all.take(i as int));
                }
                let text = canonical_json(&members[i].1);
                insert_sorted(&mut sorted, members[i].0.clone(), text);
                i += 1;
            }
            let mut parts: Vec<String> = Vec::new();
            let mut k: usize = 0;
            while k < sorted.len()
                invariant
                    k <= sorted.len(),
                    parts@.len() == k,
                    forall|j: int|
                        0 <= j < k ==> (#[trigger] parts@[j])@ == quoted(sorted@[j].0@) + seq![':'] + sorted@[j].1@,
                decreases sorted.len() - k,
            {
                let mut part = json_string(sorted[k].0.as_str());
                part.push(':');
                part.push_str(sorted[k].1.as_str());
                assert(part@ =~= quoted(sorted@[k as int].0@) + seq![':'] + sorted@[k as int].1@);
                parts.push(part);
                k += 1;
            }
            let mut s = String::new();
            s.push('{');
            s.push_str(join(&parts, ",").as_str());
            s.push('}');
            proof {
                reveal_strlit(",");
                assert(","@ =~= seq![',']);
                lemma_object_view(*members);
                assert(all.take(members.len() as int) =~= all);
                assert(texts(parts@) =~= entry_texts(sort_entries(all)));
                assert(s@ =~= canonical(v@));
            }
            s
        },
    }
}

// ---------------------------------------------------------------------------
// The order of members does not matter
// ---------------------------------------------------------------------------

/// No key occurs twice.
pub open spec fn distinct_keys(members: Members) -> bool {
    forall|i: int, j: int|
        0 <= i < members.len() && 0 <= j < members.len() && i != j ==> (#[trigger] members[i]).0 != (
        #[trigger] members[j]).0
}

/// No object inside the value has a key twice.
pub open spec fn well_formed(v: JsonView) -> bool
    decreases v,
{
    match v {
        JsonView::Array(items) => forall|i: int| 0 <= i < items.len() ==> well_formed(#[trigger] items[i]),
        JsonView::Object(members) => distinct_keys(members) && forall|i: int|
            0 <= i < members.len() ==> well_formed((#[trigger] members[i]).1),
        _ => true,
    }
}

/// The two values are the same, up to the order of members in each object.
pub open spec fn same_value(a: JsonView, b: JsonView) -> bool
    decreases a,
{
    match (a, b) {
        (JsonView::Array(x), JsonView::Array(y)) => x.len() == y.len() && forall|i: int|
            0 <= i < x.len() ==> same_value(#[trigger] x[i], y[i]),
        (JsonView::Object(x), JsonView::Object(y)) => {
            &&& x.len() == y.len()
            &&& forall|i: int|
                0 <= i < x.len() ==> exists|j: int|
                    0 <= j < y.len() && (#[trigger] x[i]).0 == (#[trigger] y[j]).0 && same_value(x[i].1, y[j].1)
        },
        _ => a == b,
    }
}

pub type Entry = (Seq<char>, Seq<char>);

/// The keys rise from entry to entry.
spec fn rising(s: Seq<Entry>) -> bool {
    forall|i: int, j: int| 0 <= i < j < s.len() ==> text_lt((#[trigger] s[i]).0, (#[trigger] s[j]).0)
}

proof fn lemma_insert_contents(s: Seq<Entry>, e: Entry)
    ensures
        insert_entry(s, e).len() == s.len() + 1,
        insert_entry(s, e).contains(e),
        forall|x: Entry| s.contains(x) ==> #[trigger] insert_entry(s, e).contains(x),
        forall|x: Entry| #[trigger] insert_entry(s, e).contains(x) ==> s.contains(x) || x == e,
    decreases s.len(),
{
    let r = insert_entry(s, e);
    if s.len() > 0 && text_lt(e.0, s.last().0) {
        let front = s.drop_last();
        lemma_insert_contents(front, e);
        let q = insert_entry(front, e);
        let k = choose|k: int| 0 <= k < q.len() && q[k] == e;
        assert(r[k] == e);
        assert forall|x: Entry| s.contains(x) implies #[trigger] r.contains(x) by {
            let i = choose|i: int| 0 <= i < s.len() && s[i] == x;
            if i < s.len() - 1 {
                assert(front[i] == x);
                assert(front.contains(x));
                assert(q.contains(x));
                let j = choose|j: int| 0 <= j < q.len() && q[j] == x;
                assert(r[j] == x);
            } else {
                assert(r[r.len() - 1] == x);
            }
        }
        assert forall|x: Entry| #[trigger] r.contains(x) implies s.contains(x) || x == e by {
            let i = choose|i: int| 0 <= i < r.len() && r[i] == x;
            if i < q.len() {
                assert(q[i] == x);
                assert(q.contains(x));
                if front.contains(x) {
                    let j = choose|j: int| 0 <= j < front.len() && front[j] == x;
                    assert(s[j] == x);
                }
            } else {
                assert(s[s.len() - 1] == x);
            }
        }
    } else {
        assert(r[s.len() as int] == e);
        assert forall|x: Entry| s.contains(x) implies #[trigger] r.contains(x) by {
            let i = choose|i: int| 0 <= i < s.len() && s[i] == x;
            assert(r[i] == x);
        }
        assert forall|x: Entry| #[trigger] r.contains(x) implies s.contains(x) || x == e by {
            let i = choose|i: int| 0 <= i < r.len() && r[i] == x;
            if i < s.len() {
                assert(s[i] == x);
            }
        }
    }
}

proof fn lemma_insert_rising(s: Seq<Entry>, e: Entry)
    requires
        rising(s),
        forall|i: int| 0 <= i < s.len() ==> (#[trigger] s[i]).0 != e.0,
    ensures
        rising(insert_entry(s, e)),
    decreases s.len(),
{
    let r = insert_entry(s, e);
    if s.len() > 0 && text_lt(e.0, s.last().0) {
        let front = s.drop_last();
        assert forall|i: int, j: int| 0 <= i < j < front.len() implies text_lt(
            (#[trigger] front[i]).0,
            (#[trigger] front[j]).0,
        ) by {
            assert(front[i] == s[i] && front[j] == s[j]);
        }
        assert forall|i: int| 0 <= i < front.len() implies (#[trigger] front[i]).0 != e.0 by {
            assert(front[i] == s[i]);
        }
        lemma_insert_rising(front, e);
        lemma_insert_contents(front, e);
        let q = insert_entry(front, e);
        assert forall|i: int, j: int| 0 <= i < j < r.len() implies text_lt(
            (#[trigger] r[i]).0,
            (#[trigger] r[j]).0,
        ) by {
            if j < q.len() {
                assert(r[i] == q[i] && r[j] == q[j]);
            } else {
                assert(r[i] == q[i]);
                assert(q.contains(q[i]));
                if q[i] != e {
                    let k = choose|k: int| 0 <= k < front.len() && front[k] == q[i];
                    assert(front[k] == s[k]);
                    assert(text_lt(s[k].0, s[s.len() - 1].0));
                }
            }
        }
    } else {
        assert forall|i: int, j: int| 0 <= i < j < r.len() implies text_lt(
            (#[trigger] r[i]).0,
            (#[trigger] r[j]).0,
        ) by {
            if j < s.len() {
                assert(r[i] == s[i] && r[j] == s[j]);
            } else {
                assert(r[i] == s[i]);
                let last = s.last();
                assert(s[s.len() - 1] == last);
                lemma_text_lt_total(e.0, last.0);
                if i < s.len() - 1 {
                    assert(text_lt(s[i].0, s[s.len() - 1].0));
                    lemma_text_lt_transitive(s[i].0, last.0, e.0);
                }
            }
        }
    }
}

spec fn keys_differ(s: Seq<Entry>) -> bool {
    forall|i: int, j: int|
        0 <= i < s.len() && 0 <= j < s.len() && i != j ==> (#[trigger] s[i]).0 != (#[trigger] s[j]).0
}

proof fn lemma_sort(s: Seq<Entry>)
    requires
        keys_differ(s),
    ensures
        sort_entries(s).len() == s.len(),
        rising(sort_entries(s)),
        forall|x: Entry| #[trigger] sort_entries(s).contains(x) <==> s.contains(x),
    decreases s.len(),
{
    if s.len() > 0 {
        let front = s.drop_last();
        let e = s.last();
        assert forall|i: int, j: int| 0 <= i < front.len() && 0 <= j < front.len() && i != j implies (
        #[trigger] front[i]).0 != (#[trigger] front[j]).0 by {
            assert(front[i] == s[i] && front[j] == s[j]);
        }
        lemma_sort(front);
        let q = sort_entries(front);
        assert forall|i: int| 0 <= i < q.len() implies (#[trigger] q[i]).0 != e.0 by {
            assert(q.contains(q[i]));
            let k = choose|k: int| 0 <= k < front.len() && front[k] == q[i];
            assert(front[k] == s[k]);
            assert(s[k].0 != s[s.len() - 1].0);
        }
        lemma_insert_rising(q, e);
        lemma_insert_contents(q, e);
        assert forall|x: Entry| #[trigger] sort_entries(s).contains(x) <==> s.contains(x) by {
            if s.contains(x) {
                let i = choose|i: int| 0 <= i < s.len() && s[i] == x;
                if i < front.len() {
                    assert(front[i] == x);
                    assert(front.contains(x));
                    assert(q.contains(x));
                }
            }
            if sort_entries(s).contains(x) {
                if q.contains(x) {
                    assert(front.contains(x));
                    let k = choose|k: int| 0 <= k < front.len() && front[k] == x;
                    assert(s[k] == x);
                } else {
                    assert(s[s.len() - 1] == x);
                }
            }
        }
    }
}

/// A rising sequence is fixed by its contents.
proof fn lemma_rising_unique(s: Seq<Entry>, t: Seq<Entry>)
    requires
        rising(s),
        rising(t),
        s.len() == t.len(),
        forall|x: Entry| s.contains(x) ==> t.contains(x),
    ensures
        s == t,
    decreases s.len(),
{
    if s.len() > 0 {
        let n = s.len() - 1;
        // The last entry of each has the largest key.
        assert(s.contains(s[n]));
        let k = choose|k: int| 0 <= k < t.len() && t[k] == s[n];
        if k < n {
            // Then the entries of `s` would all fit into `t` without its last one.
            assert forall|x: Entry| s.contains(x) implies t.take(n).contains(x) by {
                assert(t.contains(x));
                let i = choose|i: int| 0 <= i < s.len() && s[i] == x;
                let j = choose|j: int| 0 <= j < t.len() && t[j] == x;
                if j == n {
                    assert(text_lt(t[k].0, t[j].0));
                    lemma_text_lt_total(t[k].0, t[j].0);
                    if i < n {
                        assert(text_lt(s[i].0, s[n].0));
                    }
                }
                assert(t.take(n)[j] == x);
            }
            lemma_too_many(s, t.take(n));
        }
        let s1 = s.take(n);
        let t1 = t.take(n);
        assert forall|x: Entry| s1.contains(x) implies t1.contains(x) by {
            let i = choose|i: int| 0 <= i < s1.len() && s1[i] == x;
            assert(s[i] == x);
            assert(s.contains(x));
            let j = choose|j: int| 0 <= j < t.len() && t[j] == x;
            if j == n {
                assert(text_lt(s[i].0, s[n].0));
                lemma_text_lt_total(s[i].0, s[n].0);
            }
            assert(t1[j] == x);
        }
        assert(rising(s1)) by {
            assert forall|i: int, j: int| 0 <= i < j < s1.len() implies text_lt(
                (#[trigger] s1[i]).0,
                (#[trigger] s1[j]).0,
            ) by {
                assert(s1[i] == s[i] && s1[j] == s[j]);
            }
        }
        assert(rising(t1)) by {
            assert forall|i: int, j: int| 0 <= i < j < t1.len() implies text_lt(
                (#[trigger] t1[i]).0,
                (#[trigger] t1[j]).0,
            ) by {
                assert(t1[i] == t[i] && t1[j] == t[j]);
            }
        }
        lemma_rising_unique(s1, t1);
        assert(s =~= s1.push(s[n]));
        assert(t =~= t1.push(t[n]));
    } else {
        assert(s =~= t);
    }
}

/// A rising sequence holds no more entries than a sequence that contains them
/// all.
proof fn lemma_too_many(s: Seq<Entry>, t: Seq<Entry>)
    requires
        rising(s),
        forall|x: Entry| s.contains(x) ==> t.contains(x),
    ensures
        s.len() <= t.len(),
    decreases s.len(),
{
    if s.len() > 0 {
        let n = s.len() - 1;
        assert(s.contains(s[n]));
        let k = choose|k: int| 0 <= k < t.len() && t[k] == s[n];
        let s1 = s.take(n);
        let t1 = t.remove(k);
        assert forall|x: Entry| s1.contains(x) implies t1.contains(x) by {
            let i = choose|i: int| 0 <= i < s1.len() && s1[i] == x;
            assert(s[i] == x);
            assert(s.contains(x));
            let j = choose|j: int| 0 <= j < t.len() && t[j] == x;
            assert(text_lt(s[i].0, s[n].0));
            lemma_text_lt_total(s[i].0, s[n].0);
            assert(j != k);
            if j < k {
                assert(t1[j] == x);
            } else {
                assert(t1[j - 1] == x);
            }
        }
        assert(rising(s1)) by {
            assert forall|i: int, j: int| 0 <= i < j < s1.len() implies text_lt(
                (#[trigger] s1[i]).0,
                (#[trigger] s1[j]).0,
            ) by {
                assert(s1[i] == s[i] && s1[j] == s[j]);
            }
        }
        lemma_too_many(s1, t1);
    }
}

/// Two values that differ only in the order in which members were added to
/// their objects, at any depth, have the same canonical text.
pub proof fn law_canonical_ignores_order(a: JsonView, b: JsonView)
    requires
        well_formed(a),
        well_formed(b),
        same_value(a, b),
    ensures
        canonical(a) == canonical(b),
    decreases a,
{
    match (a, b) {
        (JsonView::Array(x), JsonView::Array(y)) => {
            lemma_item_texts(x);
            lemma_item_texts(y);
            assert forall|i: int| 0 <= i < x.len() implies #[trigger] item_texts(x)[i] == item_texts(y)[i] by {
                assert(same_value(x[i], y[i]));
                law_canonical_ignores_order(x[i], y[i]);
            }
            assert(item_texts(x) =~= item_texts(y));
        },
        (JsonView::Object(x), JsonView::Object(y)) => {
            lemma_entries(x);
            lemma_entries(y);
            let ex = entries(x);
            let ey = entries(y);
            assert forall|i: int, j: int| 0 <= i < ex.len() && 0 <= j < ex.len() && i != j implies (
            #[trigger] ex[i]).0 != (#[trigger] ex[j]).0 by {
                assert(x[i].0 != x[j].0);
            }
            assert forall|i: int, j: int| 0 <= i < ey.len() && 0 <= j < ey.len() && i != j implies (
            #[trigger] ey[i]).0 != (#[trigger] ey[j]).0 by {
                assert(y[i].0 != y[j].0);
            }
            assert forall|e: Entry| ex.contains(e) implies ey.contains(e) by {
                let i = choose|i: int| 0 <= i < ex.len() && ex[i] == e;
                let m = x[i];
                let j = choose|j: int|
                    0 <= j < y.len() && m.0 == (#[trigger] y[j]).0 && same_value(m.1, y[j].1);
                assert(well_formed(x[i].1));
                assert(well_formed(y[j].1));
                law_canonical_ignores_order(x[i].1, y[j].1);
                assert(ey[j] == e);
            }
            lemma_sort(ex);
            lemma_sort(ey);
            lemma_rising_unique(sort_entries(ex), sort_entries(ey));
        },
        _ => {},
    }
}

// ---------------------------------------------------------------------------
// Different values have different texts
// ---------------------------------------------------------------------------

/// No number inside the value is other than an integer.
pub open spec fn float_free(v: JsonView) -> bool
    decreases v,
{
    match v {
        JsonView::Number(NumberView::Float(_)) => false,
        JsonView::Array(items) => forall|i: int| 0 <= i < items.len() ==> float_free(#[trigger] items[i]),
        JsonView::Object(members) => forall|i: int| 0 <= i < members.len() ==> float_free((#[trigger] members[i]).1),
        _ => true,
    }
}

/// What can follow a value inside an array or an object: nothing, a comma, or a
/// closing bracket.
spec fn delimited(s: Seq<char>) -> bool {
    s.len() == 0 || s[0] == ',' || s[0] == ']' || s[0] == '}'
}

/// Where the two texts start the same longer text, they are the same text.
spec fn splits(u: Seq<char>, v: Seq<char>) -> bool {
    forall|s: Seq<char>, t: Seq<char>|
        #![trigger u + s, v + t]
        delimited(s) && delimited(t) && u + s == v + t ==> u == v
}

proof fn lemma_cancel_front(u: Seq<char>, s: Seq<char>, t: Seq<char>)
    requires
        u + s == u + t,
    ensures
        s == t,
{
    assert((u + s).skip(u.len() as int) =~= s);
    assert((u + t).skip(u.len() as int) =~= t);
}

/// The escaped text begins with its first character.
proof fn lemma_escaped_front(s: Seq<char>)
    requires
        s.len() > 0,
    ensures
        escaped_text(s) == escaped(s[0]) + escaped_text(s.skip(1)),
    decreases s.len(),
{
    if s.len() == 1 {
        assert(s.drop_last() =~= Seq::<char>::empty());
        assert(s.skip(1) =~= Seq::<char>::empty());
        assert(escaped_text(s) =~= escaped(s[0]) + escaped_text(s.skip(1)));
    } else {
        lemma_escaped_front(s.drop_last());
        assert(s.drop_last().skip(1) =~= s.skip(1).drop_last());
        assert(s.skip(1).last() == s.last());
        assert(escaped_text(s) =~= escaped(s[0]) + escaped_text(s.skip(1)));
    }
}

/// A character that has to be escaped stands behind a backslash.
spec fn is_escape(c: char) -> bool {
    c == '"' || c == '\\' || (c as int) < 32
}

proof fn lemma_escaped_shape(c: char)
    ensures
        is_escape(c) ==> escaped(c).len() >= 2 && escaped(c)[0] == '\\',
        !is_escape(c) ==> escaped(c) == seq![c] && c != '\\' && c != '"',
        escaped(c).len() > 0,
        escaped(c)[0] != '"',
{
}

proof fn lemma_hex_digits(a: int, b: int)
    requires
        0 <= a < 16,
        0 <= b < 16,
        hex_digit(a) == hex_digit(b),
    ensures
        a == b,
{
    assert(hex_digit(a) as int == if a < 10 {
        48 + a
    } else {
        87 + a
    });
    assert(hex_digit(b) as int == if b < 10 {
        48 + b
    } else {
        87 + b
    });
}

/// The start of a text shows which character was escaped.
proof fn lemma_escaped_unique(c: char, d: char, s: Seq<char>, t: Seq<char>)
    requires
        escaped(c) + s == escaped(d) + t,
    ensures
        c == d,
{
    lemma_escaped_shape(c);
    lemma_escaped_shape(d);
    let x = escaped(c) + s;
    let y = escaped(d) + t;
    assert(x[0] == escaped(c)[0] && y[0] == escaped(d)[0]);
    if is_escape(c) && is_escape(d) {
        assert(x[1] == escaped(c)[1] && y[1] == escaped(d)[1]);
        if escaped(c)[1] == 'u' {
            assert(escaped(c).len() == 6 && escaped(d).len() == 6);
            assert(x[4] == escaped(c)[4] && y[4] == escaped(d)[4]);
            assert(x[5] == escaped(c)[5] && y[5] == escaped(d)[5]);
            lemma_hex_digits(c as int / 16, d as int / 16);
            lemma_hex_digits(c as int % 16, d as int % 16);
            assert(c as int == d as int);
        }
    }
}

/// A string literal ends where its closing quote stands.
proof fn lemma_escaped_text_unique(a: Seq<char>, b: Seq<char>, s: Seq<char>, t: Seq<char>)
    requires
        escaped_text(a) + (seq!['"'] + s) == escaped_text(b) + (seq!['"'] + t),
    ensures
        a == b,
        s == t,
    decreases a.len(),
{
    let x = escaped_text(a) + (seq!['"'] + s);
    let y = escaped_text(b) + (seq!['"'] + t);
    if a.len() == 0 {
        assert(x =~= seq!['"'] + s);
        if b.len() > 0 {
            lemma_escaped_front(b);
            lemma_escaped_shape(b[0]);
            assert(y[0] == escaped(b[0])[0]);
        } else {
            assert(a =~= b);
            assert(y =~= seq!['"'] + t);
            lemma_cancel_front(seq!['"'], s, t);
        }
    } else {
        lemma_escaped_front(a);
        lemma_escaped_shape(a[0]);
        let p = escaped_text(a.skip(1)) + (seq!['"'] + s);
        assert(x =~= escaped(a[0]) + p);
        if b.len() == 0 {
            assert(y =~= seq!['"'] + t);
            assert(x[0] == escaped(a[0])[0]);
        } else {
            lemma_escaped_front(b);
            let q = escaped_text(b.skip(1)) + (seq!['"'] + t);
            assert(y =~= escaped(b[0]) + q);
            lemma_escaped_unique(a[0], b[0], p, q);
            lemma_cancel_front(escaped(a[0]), p, q);
            lemma_escaped_text_unique(a.skip(1), b.skip(1), s, t);
            assert(a =~= seq![a[0]] + a.skip(1));
            assert(b =~= seq![b[0]] + b.skip(1));
        }
    }
}

proof fn lemma_quoted_unique(a: Seq<char>, b: Seq<char>, s: Seq<char>, t: Seq<char>)
    requires
        quoted(a) + s == quoted(b) + t,
    ensures
        a == b,
        s == t,
{
    let p = escaped_text(a) + (seq!['"'] + s);
    let q = escaped_text(b) + (seq!['"'] + t);
    assert(quoted(a) + s =~= seq!['"'] + p);
    assert(quoted(b) + t =~= seq!['"'] + q);
    lemma_cancel_front(seq!['"'], p, q);
    lemma_escaped_text_unique(a, b, s, t);
}

/// The text of an integer holds digits, behind a minus sign perhaps.
proof fn lemma_int_chars(n: int)
    ensures
        decimal_int(n).len() > 0,
        forall|i: int|
            0 <= i < decimal_int(n).len() ==> is_digit(#[trigger] decimal_int(n)[i]) || (i == 0 && decimal_int(n)[i]
                == '-'),
        n < 0 <==> decimal_int(n)[0] == '-',
{
    if n < 0 {
        lemma_decimal((-n) as nat);
        let d = decimal((-n) as nat);
        assert forall|i: int| 0 < i < decimal_int(n).len() implies is_digit(#[trigger] decimal_int(n)[i]) by {
            assert(decimal_int(n)[i] == d[i - 1]);
        }
    } else {
        lemma_decimal(n as nat);
        assert(is_digit(decimal_int(n)[0]));
    }
}

/// Different integers have different texts.
proof fn lemma_int_unique(m: int, n: int)
    requires
        decimal_int(m) == decimal_int(n),
    ensures
        m == n,
{
    lemma_int_chars(m);
    lemma_int_chars(n);
    if m < 0 {
        lemma_decimal((-m) as nat);
        lemma_decimal((-n) as nat);
        lemma_cancel_front(seq!['-'], decimal((-m) as nat), decimal((-n) as nat));
    } else {
        lemma_decimal(m as nat);
        lemma_decimal(n as nat);
    }
}

/// An integer ends where its digits end.
proof fn lemma_int_splits(m: int, n: int)
    ensures
        splits(decimal_int(m), decimal_int(n)),
{
    lemma_int_chars(m);
    lemma_int_chars(n);
    let (u, v) = (decimal_int(m), decimal_int(n));
    assert forall|s: Seq<char>, t: Seq<char>|
        #![trigger u + s, v + t]
        delimited(s) && delimited(t) && u + s == v + t implies u == v by {
        let x = u + s;
        let y = v + t;
        if u.len() < v.len() {
            assert(y[u.len() as int] == v[u.len() as int]);
            assert(x[u.len() as int] == s[0]);
        } else if v.len() < u.len() {
            assert(x[v.len() as int] == u[v.len() as int]);
            assert(y[v.len() as int] == t[0]);
        } else {
            assert(u =~= x.take(u.len() as int));
            assert(v =~= y.take(v.len() as int));
        }
    }
}

/// A list of texts begins with its first text.
proof fn lemma_join_front(parts: Seq<Seq<char>>, sep: Seq<char>)
    requires
        parts.len() >= 2,
    ensures
        join_spec(parts, sep) == parts[0] + sep + join_spec(parts.skip(1), sep),
    decreases parts.len(),
{
    let front = parts.drop_last();
    let rest = parts.skip(1);
    if parts.len() == 2 {
        assert(join_spec(front, sep) == parts[0]);
        assert(join_spec(rest, sep) == parts[1]);
    } else {
        lemma_join_front(front, sep);
        assert(front.skip(1) =~= rest.drop_last());
        assert(rest.last() == parts.last());
        assert(join_spec(parts, sep) =~= parts[0] + sep + join_spec(rest, sep));
    }
}

/// What follows the first of some texts up to the closing bracket and beyond.
spec fn rest_text(parts: Seq<Seq<char>>, close: char, s: Seq<char>) -> Seq<char> {
    if parts.len() == 1 {
        seq![close] + s
    } else {
        seq![','] + (join_spec(parts.skip(1), seq![',']) + (seq![close] + s))
    }
}

proof fn lemma_rest_text(parts: Seq<Seq<char>>, close: char, s: Seq<char>)
    requires
        parts.len() > 0,
        close == ']' || close == '}',
    ensures
        join_spec(parts, seq![',']) + (seq![close] + s) == parts[0] + rest_text(parts, close, s),
        delimited(rest_text(parts, close, s)),
        parts.len() == 1 <==> rest_text(parts, close, s)[0] == close,
{
    if parts.len() > 1 {
        lemma_join_front(parts, seq![',']);
        assert(join_spec(parts, seq![',']) + (seq![close] + s) =~= parts[0] + rest_text(parts, close, s));
    }
}

/// A bracketed list of texts shows where each of them ends.
proof fn lemma_join_unique(us: Seq<Seq<char>>, vs: Seq<Seq<char>>, close: char, s: Seq<char>, t: Seq<char>)
    requires
        close == ']' || close == '}',
        forall|i: int| 0 <= i < us.len() ==> (#[trigger] us[i]).len() > 0 && us[i][0] != close,
        forall|j: int| 0 <= j < vs.len() ==> (#[trigger] vs[j]).len() > 0 && vs[j][0] != close,
        forall|i: int, j: int|
            0 <= i < us.len() && 0 <= j < vs.len() ==> splits(#[trigger] us[i], #[trigger] vs[j]),
        join_spec(us, seq![',']) + (seq![close] + s) == join_spec(vs, seq![',']) + (seq![close] + t),
    ensures
        us == vs,
    decreases us.len(),
{
    let x = join_spec(us, seq![',']) + (seq![close] + s);
    let y = join_spec(vs, seq![',']) + (seq![close] + t);
    if us.len() > 0 {
        lemma_rest_text(us, close, s);
        assert(x[0] == us[0][0]);
    } else {
        assert(x[0] == close);
    }
    if vs.len() > 0 {
        lemma_rest_text(vs, close, t);
        assert(y[0] == vs[0][0]);
    } else {
        assert(y[0] == close);
    }
    if us.len() > 0 {
        let p = rest_text(us, close, s);
        let q = rest_text(vs, close, t);
        assert(splits(us[0], vs[0]));
        assert(us[0] + p == vs[0] + q);
        assert(us[0] == vs[0]);
        lemma_cancel_front(us[0], p, q);
        if us.len() == 1 {
            assert(us =~= vs);
        } else {
            let (us1, vs1) = (us.skip(1), vs.skip(1));
            lemma_cancel_front(
                seq![','],
                join_spec(us1, seq![',']) + (seq![close] + s),
                join_spec(vs1, seq![',']) + (seq![close] + t),
            );
            assert forall|i: int, j: int| 0 <= i < us1.len() && 0 <= j < vs1.len() implies splits(
                #[trigger] us1[i],
                #[trigger] vs1[j],
            ) by {
                assert(us1[i] == us[i + 1] && vs1[j] == vs[j + 1]);
            }
            assert forall|i: int| 0 <= i < us1.len() implies (#[trigger] us1[i]).len() > 0 && us1[i][0] != close by {
                assert(us1[i] == us[i + 1]);
            }
            assert forall|j: int| 0 <= j < vs1.len() implies (#[trigger] vs1[j]).len() > 0 && vs1[j][0] != close by {
                assert(vs1[j] == vs[j + 1]);
            }
            lemma_join_unique(us1, vs1, close, s, t);
            assert(us =~= seq![us[0]] + us1);
            assert(vs =~= seq![vs[0]] + vs1);
        }
    } else {
        assert(us =~= vs);
    }
}

/// The first character of a text shows which kind of value it is of.
spec fn first_char(v: JsonView) -> char {
    match v {
        JsonView::Null => 'n',
        JsonView::Bool(b) => if b {
            't'
        } else {
            'f'
        },
        JsonView::Number(_) => canonical(v)[0],
        JsonView::Str(_) => '"',
        JsonView::Array(_) => '[',
        JsonView::Object(_) => '{',
    }
}

proof fn lemma_first_char(v: JsonView)
    requires
        float_free(v),
    ensures
        canonical(v).len() > 0,
        canonical(v)[0] == first_char(v),
        v is Number ==> is_digit(first_char(v)) || first_char(v) == '-',
{
    reveal_strlit("null");
    reveal_strlit("true");
    reveal_strlit("false");
    if let JsonView::Number(NumberView::Int(n)) = v {
        lemma_int_chars(n);
    }
}

/// The text of an entry: the quoted key, a colon, the value.
spec fn entry_text(e: Entry) -> Seq<char> {
    quoted(e.0) + seq![':'] + e.1
}

proof fn lemma_entry_splits(d: Entry, e: Entry)
    requires
        splits(d.1, e.1),
    ensures
        splits(entry_text(d), entry_text(e)),
        entry_text(d) == entry_text(e) ==> d == e,
        entry_text(d).len() > 0,
        entry_text(d)[0] == '"',
{
    let (u, v) = (entry_text(d), entry_text(e));
    assert forall|s: Seq<char>, t: Seq<char>|
        #![trigger u + s, v + t]
        delimited(s) && delimited(t) && u + s == v + t implies u == v by {
        let (p, q) = (d.1 + s, e.1 + t);
        assert(u + s =~= quoted(d.0) + (seq![':'] + p));
        assert(v + t =~= quoted(e.0) + (seq![':'] + q));
        lemma_quoted_unique(d.0, e.0, seq![':'] + p, seq![':'] + q);
        lemma_cancel_front(seq![':'], p, q);
        assert(d.1 + s == e.1 + t);
    }
    if u == v {
        assert(u =~= quoted(d.0) + (seq![':'] + d.1));
        assert(v =~= quoted(e.0) + (seq![':'] + e.1));
        lemma_quoted_unique(d.0, e.0, seq![':'] + d.1, seq![':'] + e.1);
        lemma_cancel_front(seq![':'], d.1, e.1);
    }
}

/// A bracketed list of entries shows each of them.
proof fn lemma_entries_unique(es: Seq<Entry>, fs: Seq<Entry>, s: Seq<char>, t: Seq<char>)
    requires
        forall|i: int, j: int|
            0 <= i < es.len() && 0 <= j < fs.len() ==> splits((#[trigger] es[i]).1, (#[trigger] fs[j]).1),
        join_spec(entry_texts(es), seq![',']) + (seq!['}'] + s) == join_spec(entry_texts(fs), seq![',']) + (seq!['}']
            + t),
    ensures
        es == fs,
{
    let (us, vs) = (entry_texts(es), entry_texts(fs));
    assert forall|i: int, j: int| 0 <= i < us.len() && 0 <= j < vs.len() implies splits(
        #[trigger] us[i],
        #[trigger] vs[j],
    ) by {
        assert(splits(es[i].1, fs[j].1));
        lemma_entry_splits(es[i], fs[j]);
    }
    assert forall|i: int| 0 <= i < us.len() implies (#[trigger] us[i]).len() > 0 && us[i][0] != '}' by {
        assert(us[i][0] == '"');
    }
    assert forall|j: int| 0 <= j < vs.len() implies (#[trigger] vs[j]).len() > 0 && vs[j][0] != '}' by {
        assert(vs[j][0] == '"');
    }
    lemma_join_unique(us, vs, '}', s, t);
    assert forall|i: int| 0 <= i < es.len() implies es[i] == fs[i] by {
        assert(us[i] == vs[i]);
        assert(splits(es[i].1, fs[i].1));
        lemma_entry_splits(es[i], fs[i]);
    }
    assert(es =~= fs);
}

/// The entries of an object come from its members.
proof fn lemma_sorted_entries(members: Members)
    requires
        distinct_keys(members),
    ensures
        sort_entries(entries(members)).len() == members.len(),
        forall|k: int|
            0 <= k < members.len() ==> exists|i: int|
                0 <= i < members.len() && (#[trigger] sort_entries(entries(members))[k]).0 == (
                #[trigger] members[i]).0 && sort_entries(entries(members))[k].1 == canonical(members[i].1),
        forall|i: int|
            0 <= i < members.len() ==> sort_entries(entries(members)).contains(
                ((#[trigger] members[i]).0, canonical(members[i].1)),
            ),
{
    lemma_entries(members);
    let es = entries(members);
    assert forall|i: int, j: int| 0 <= i < es.len() && 0 <= j < es.len() && i != j implies (#[trigger] es[i]).0 != (
    #[trigger] es[j]).0 by {
        assert(members[i].0 != members[j].0);
    }
    lemma_sort(es);
    let sorted = sort_entries(es);
    assert forall|k: int| 0 <= k < members.len() implies exists|i: int|
        0 <= i < members.len() && (#[trigger] sorted[k]).0 == (#[trigger] members[i]).0 && sorted[k].1 == canonical(
            members[i].1,
        ) by {
        assert(sorted.contains(sorted[k]));
        let i = choose|i: int| 0 <= i < es.len() && es[i] == sorted[k];
        assert(es[i] == (members[i].0, canonical(members[i].1)));
    }
    assert forall|i: int| 0 <= i < members.len() implies sorted.contains(
        ((#[trigger] members[i]).0, canonical(members[i].1)),
    ) by {
        assert(es[i] == (members[i].0, canonical(members[i].1)));
        assert(es.contains(es[i]));
    }
}

/// The values of sorted entries split as those of the members do.
proof fn lemma_sorted_splits(x: Members, y: Members)
    requires
        distinct_keys(x),
        distinct_keys(y),
        forall|i: int, j: int|
            0 <= i < x.len() && 0 <= j < y.len() ==> splits(
                canonical((#[trigger] x[i]).1),
                canonical((#[trigger] y[j]).1),
            ),
    ensures
        forall|k: int, l: int|
            0 <= k < x.len() && 0 <= l < y.len() ==> splits(
                (#[trigger] sort_entries(entries(x))[k]).1,
                (#[trigger] sort_entries(entries(y))[l]).1,
            ),
{
    lemma_sorted_entries(x);
    lemma_sorted_entries(y);
    let (es, fs) = (sort_entries(entries(x)), sort_entries(entries(y)));
    assert forall|k: int, l: int| 0 <= k < x.len() && 0 <= l < y.len() implies splits(
        (#[trigger] es[k]).1,
        (#[trigger] fs[l]).1,
    ) by {
        let i = choose|i: int|
            0 <= i < x.len() && es[k].0 == (#[trigger] x[i]).0 && es[k].1 == canonical(x[i].1);
        let j = choose|j: int|
            0 <= j < y.len() && fs[l].0 == (#[trigger] y[j]).0 && fs[l].1 == canonical(y[j].1);
        assert(splits(canonical(x[i].1), canonical(y[j].1)));
    }
}

/// The text of a value shows where it ends.
proof fn lemma_canonical_splits(a: JsonView, b: JsonView)
    requires
        well_formed(a),
        well_formed(b),
        float_free(a),
        float_free(b),
    ensures
        splits(canonical(a), canonical(b)),
    decreases a,
{
    let (u, v) = (canonical(a), canonical(b));
    lemma_first_char(a);
    lemma_first_char(b);
    match (a, b) {
        (JsonView::Number(NumberView::Int(m)), JsonView::Number(NumberView::Int(n))) => {
            lemma_int_splits(m, n);
        },
        (JsonView::Str(c), JsonView::Str(d)) => {
            assert forall|s: Seq<char>, t: Seq<char>|
                #![trigger u + s, v + t]
                delimited(s) && delimited(t) && u + s == v + t implies u == v by {
                lemma_quoted_unique(c, d, s, t);
            }
        },
        (JsonView::Array(x), JsonView::Array(y)) => {
            let (us, vs) = (item_texts(x), item_texts(y));
            lemma_array_splits(x, y);
            lemma_array_parts(x);
            lemma_array_parts(y);
            lemma_item_texts(x);
            lemma_item_texts(y);
            assert forall|s: Seq<char>, t: Seq<char>|
                #![trigger u + s, v + t]
                delimited(s) && delimited(t) && u + s == v + t implies u == v by {
                let (p, q) = (
                    join_spec(us, seq![',']) + (seq![']'] + s),
                    join_spec(vs, seq![',']) + (seq![']'] + t),
                );
                assert(u + s =~= seq!['['] + p);
                assert(v + t =~= seq!['['] + q);
                lemma_cancel_front(seq!['['], p, q);
                lemma_join_unique(us, vs, ']', s, t);
            }
        },
        (JsonView::Object(x), JsonView::Object(y)) => {
            let (es, fs) = (sort_entries(entries(x)), sort_entries(entries(y)));
            lemma_object_splits(x, y);
            lemma_sorted_splits(x, y);
            lemma_sorted_entries(x);
            lemma_sorted_entries(y);
            assert forall|s: Seq<char>, t: Seq<char>|
                #![trigger u + s, v + t]
                delimited(s) && delimited(t) && u + s == v + t implies u == v by {
                let (p, q) = (
                    join_spec(entry_texts(es), seq![',']) + (seq!['}'] + s),
                    join_spec(entry_texts(fs), seq![',']) + (seq!['}'] + t),
                );
                assert(u + s =~= seq!['{'] + p);
                assert(v + t =~= seq!['{'] + q);
                lemma_cancel_front(seq!['{'], p, q);
                lemma_entries_unique(es, fs, s, t);
            }
        },
        _ => {
            assert forall|s: Seq<char>, t: Seq<char>|
                #![trigger u + s, v + t]
                delimited(s) && delimited(t) && u + s == v + t implies u == v by {
                assert((u + s)[0] == u[0] && (v + t)[0] == v[0]);
            }
        },
    }
}

proof fn lemma_array_splits(x: Seq<JsonView>, y: Seq<JsonView>)
    requires
        forall|i: int| 0 <= i < x.len() ==> well_formed(#[trigger] x[i]) && float_free(x[i]),
        forall|j: int| 0 <= j < y.len() ==> well_formed(#[trigger] y[j]) && float_free(y[j]),
    ensures
        forall|i: int, j: int|
            0 <= i < x.len() && 0 <= j < y.len() ==> splits(
                #[trigger] item_texts(x)[i],
                #[trigger] item_texts(y)[j],
            ),
    decreases x,
{
    lemma_item_texts(x);
    lemma_item_texts(y);
    assert forall|i: int, j: int| 0 <= i < x.len() && 0 <= j < y.len() implies splits(
        #[trigger] item_texts(x)[i],
        #[trigger] item_texts(y)[j],
    ) by {
        lemma_canonical_splits(x[i], y[j]);
    }
}

proof fn lemma_object_splits(x: Members, y: Members)
    requires
        forall|i: int| 0 <= i < x.len() ==> well_formed((#[trigger] x[i]).1) && float_free(x[i].1),
        forall|j: int| 0 <= j < y.len() ==> well_formed((#[trigger] y[j]).1) && float_free(y[j].1),
    ensures
        forall|i: int, j: int|
            0 <= i < x.len() && 0 <= j < y.len() ==> splits(
                canonical((#[trigger] x[i]).1),
                canonical((#[trigger] y[j]).1),
            ),
    decreases x,
{
    assert forall|i: int, j: int| 0 <= i < x.len() && 0 <= j < y.len() implies splits(
        canonical((#[trigger] x[i]).1),
        canonical((#[trigger] y[j]).1),
    ) by {
        lemma_canonical_splits(x[i].1, y[j].1);
    }
}

/// The texts of items are not empty and do not begin with a closing bracket.
proof fn lemma_array_parts(x: Seq<JsonView>)
    requires
        forall|i: int| 0 <= i < x.len() ==> float_free(#[trigger] x[i]),
    ensures
        forall|i: int|
            0 <= i < item_texts(x).len() ==> (#[trigger] item_texts(x)[i]).len() > 0 && item_texts(x)[i][0] != ']',
{
    lemma_item_texts(x);
    assert forall|i: int| 0 <= i < item_texts(x).len() implies (#[trigger] item_texts(x)[i]).len() > 0
        && item_texts(x)[i][0] != ']' by {
        lemma_first_char(x[i]);
    }
}

/// Two values without floating-point numbers that have the same canonical text
/// are the same, up to the order of members.
pub proof fn law_canonical_tells_values_apart(a: JsonView, b: JsonView)
    requires
        well_formed(a),
        well_formed(b),
        float_free(a),
        float_free(b),
        canonical(a) == canonical(b),
    ensures
        same_value(a, b),
    decreases a,
{
    let none = Seq::<char>::empty();
    lemma_first_char(a);
    lemma_first_char(b);
    match (a, b) {
        (JsonView::Number(NumberView::Int(m)), JsonView::Number(NumberView::Int(n))) => {
            lemma_int_unique(m, n);
        },
        (JsonView::Str(c), JsonView::Str(d)) => {
            assert(quoted(c) + none =~= quoted(d) + none);
            lemma_quoted_unique(c, d, none, none);
        },
        (JsonView::Array(x), JsonView::Array(y)) => {
            let (us, vs) = (item_texts(x), item_texts(y));
            lemma_array_splits(x, y);
            lemma_array_parts(x);
            lemma_array_parts(y);
            let (p, q) = (
                join_spec(us, seq![',']) + (seq![']'] + none),
                join_spec(vs, seq![',']) + (seq![']'] + none),
            );
            assert(canonical(a) =~= seq!['['] + p);
            assert(canonical(b) =~= seq!['['] + q);
            lemma_cancel_front(seq!['['], p, q);
            lemma_item_texts(x);
            lemma_item_texts(y);
            lemma_join_unique(us, vs, ']', none, none);
            assert forall|i: int| 0 <= i < x.len() implies same_value(#[trigger] x[i], y[i]) by {
                assert(us[i] == vs[i]);
                law_canonical_tells_values_apart(x[i], y[i]);
            }
        },
        (JsonView::Object(x), JsonView::Object(y)) => {
            let (es, fs) = (sort_entries(entries(x)), sort_entries(entries(y)));
            lemma_object_splits(x, y);
            lemma_sorted_splits(x, y);
            lemma_sorted_entries(x);
            lemma_sorted_entries(y);
            let (p, q) = (
                join_spec(entry_texts(es), seq![',']) + (seq!['}'] + none),
                join_spec(entry_texts(fs), seq![',']) + (seq!['}'] + none),
            );
            assert(canonical(a) =~= seq!['{'] + p);
            assert(canonical(b) =~= seq!['{'] + q);
            lemma_cancel_front(seq!['{'], p, q);
            lemma_entries_unique(es, fs, none, none);
            assert forall|i: int| 0 <= i < x.len() implies exists|j: int|
                0 <= j < y.len() && (#[trigger] x[i]).0 == (#[trigger] y[j]).0 && same_value(x[i].1, y[j].1) by {
                let e = (x[i].0, canonical(x[i].1));
                assert(es.contains(e));
                let k = choose|k: int| 0 <= k < fs.len() && fs[k] == e;
                let j = choose|j: int|
                    0 <= j < y.len() && fs[k].0 == (#[trigger] y[j]).0 && fs[k].1 == canonical(y[j].1);
                law_canonical_tells_values_apart(x[i].1, y[j].1);
            }
        },
        _ => {},
    }
}

} // verus!
