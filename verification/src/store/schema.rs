//! The records that pass between ingest, storage and queries, and the identity
//! of a metric series.

use vstd::prelude::*;
use vstd::utf8::encode_utf8;

use crate::json::{
    canonical, canonical_json, float_free, law_canonical_ignores_order, law_canonical_tells_values_apart, same_value,
    well_formed, Json, JsonView,
};
use crate::time::{wrap_i64, wrapped, Timestamp};

verus! {

/// A metric series: a name, a resource, a set of attributes, and a kind.
pub struct Series {
    pub name: String,
    pub resource: Json,
    pub attributes: Json,
    pub kind: String,
    pub unit: Option<String>,
}

/// The value of a scalar data point, in the bits of doubles.
#[derive(Clone, Copy, Debug, PartialEq, Eq, Structural)]
pub enum PointValue {
    /// The value itself.
    Given(u64),
    /// The difference `to - from`.
    Rise { from: u64, to: u64 },
}

/// A scalar metric data point.
pub struct MetricPoint {
    pub series_id: i64,
    pub ts: Timestamp,
    pub value: PointValue,
    /// The trace that was sampled when the point was measured.
    pub exemplar_trace_id: Option<String>,
    /// The span that goes with the trace.
    pub exemplar_span_id: Option<String>,
}

/// A histogram data point.
pub struct HistogramPoint {
    pub series_id: i64,
    pub ts: Timestamp,
    /// The bits of the sum.
    pub sum: Option<u64>,
    pub count: Option<i64>,
    /// The bucket counts, a JSON array of integers.
    pub bucket_counts: Option<Json>,
    /// The explicit bounds, a JSON array of numbers.
    pub bounds: Option<Json>,
}

/// A log record.
pub struct LogRecord {
    pub ts: Timestamp,
    pub severity_number: Option<i32>,
    pub severity_text: Option<String>,
    pub body: Option<String>,
    pub trace_id: Option<String>,
    pub span_id: Option<String>,
    pub resource: Json,
    pub attributes: Json,
}

/// A span of a distributed trace.
pub struct SpanRecord {
    pub trace_id: String,
    pub span_id: String,
    pub parent_span_id: Option<String>,
    pub name: String,
    pub kind: Option<String>,
    pub service_name: Option<String>,
    pub scope_name: Option<String>,
    pub start_time: Timestamp,
    pub end_time: Timestamp,
    pub duration_ns: i64,
    pub status_code: Option<String>,
    pub status_message: Option<String>,
    pub resource: Json,
    pub attributes: Json,
    pub events: Json,
    pub links: Json,
}

/// What identifies a metric series: its name and kind, and its attributes in
/// canonical form.
#[derive(Debug, Clone, PartialEq, Eq, Hash)]
pub struct SeriesKey {
    pub name: String,
    pub kind: String,
    /// The canonical text of the resource attributes.
    pub resource_canonical: String,
    /// The canonical text of the data point attributes.
    pub attributes_canonical: String,
}

/// What a series key stands for.
#[verifier::ext_equal]
pub struct KeyView {
    pub name: Seq<char>,
    pub kind: Seq<char>,
    pub resource: Seq<char>,
    pub attributes: Seq<char>,
}

/// The key of a series.
pub open spec fn key_of(name: Seq<char>, kind: Seq<char>, resource: JsonView, attributes: JsonView) -> KeyView {
    KeyView { name, kind, resource: canonical(resource), attributes: canonical(attributes) }
}

impl SeriesKey {
    pub open spec fn view(&self) -> KeyView {
        KeyView {
            name: self.name@,
            kind: self.kind@,
            resource: self.resource_canonical@,
            attributes: self.attributes_canonical@,
        }
    }

    /// The key of a series, with both sets of attributes in canonical form.
    pub fn new(name: &str, kind: &str, resource: &Json, attributes: &Json) -> (r: SeriesKey)
        ensures
            r@ == key_of(name@, kind@, resource@, attributes@),
    {
        SeriesKey {
            name: name.to_owned(),
            kind: kind.to_owned(),
            resource_canonical: canonical_json(resource),
            attributes_canonical: canonical_json(attributes),
        }
    }
}

impl Series {
    /// The key of the series.
    pub open spec fn spec_key(&self) -> KeyView {
        key_of(self.name@, self.kind@, self.resource@, self.attributes@)
    }

    /// The key of the series.
    pub fn key(&self) -> (r: SeriesKey)
        ensures
            r@ == self.spec_key(),
    {
        SeriesKey::new(self.name.as_str(), self.kind.as_str(), &self.resource, &self.attributes)
    }
}

// ---------------------------------------------------------------------------
// Series identifiers
// ---------------------------------------------------------------------------

pub const FNV_OFFSET: u64 = 14_695_981_039_346_656_037;

pub const FNV_PRIME: u64 = 1_099_511_628_211;

/// The 64-bit FNV-1a hash of bytes, from a starting state.
pub open spec fn fnv1a(h: u64, bytes: Seq<u8>) -> u64
    decreases bytes.len(),
{
    if bytes.len() == 0 {
        h
    } else {
        ((fnv1a(h, bytes.drop_last()) ^ (bytes.last() as u64)) as u64).wrapping_mul(FNV_PRIME)
    }
}

/// The bytes that identify a series: its parts, with zero bytes between them.
pub open spec fn key_bytes(key: KeyView) -> Seq<u8> {
    encode_utf8(key.name) + seq![0u8] + encode_utf8(key.kind) + seq![0u8] + encode_utf8(key.resource) + seq![0u8]
        + encode_utf8(key.attributes)
}

/// The identifier of a series: the FNV-1a hash of its key, read as a signed
/// number.
pub open spec fn series_id(key: KeyView) -> int {
    wrapped(fnv1a(FNV_OFFSET, key_bytes(key)))
}

/// Hashing goes on where it stopped.
proof fn lemma_fnv_concat(h: u64, a: Seq<u8>, b: Seq<u8>)
    ensures
        fnv1a(h, a + b) == fnv1a(fnv1a(h, a), b),
    decreases b.len(),
{
    if b.len() == 0 {
        assert(a + b =~= a);
    } else {
        assert((a + b).drop_last() =~= a + b.drop_last());
        lemma_fnv_concat(h, a, b.drop_last());
    }
}

fn fnv_bytes(h: u64, bytes: &[u8]) -> (r: u64)
    ensures
        r == fnv1a(h, bytes@),
{
    let mut r: u64 = h;
    let mut i: usize = 0;
    assert(bytes@.take(0) =~= Seq::<u8>::empty());
    while i < bytes.len()
        invariant
            i <= bytes.len(),
            r == fnv1a(h, bytes@.take(i as int)),
        decreases bytes.len() - i,
    {
        assert(bytes@.take(i + 1).drop_last() =~= bytes@.take(i as int));
        r = (r ^ (bytes[i] as u64)).wrapping_mul(FNV_PRIME);
        i += 1;
    }
    assert(bytes@.take(bytes.len() as int) =~= bytes@);
    r
}

fn fnv_separator(h: u64) -> (r: u64)
    ensures
        r == fnv1a(h, seq![0u8]),
{
    proof {
        assert(seq![0u8].drop_last() =~= Seq::<u8>::empty());
        reveal_with_fuel(fnv1a, 2);
    }
    (h ^ 0u64).wrapping_mul(FNV_PRIME)
}

/// The identifier of a series. It depends on the key alone, in every process.
pub fn hash_series_key(key: &SeriesKey) -> (id: i64)
    ensures
        id == series_id(key@),
{
    let mut h: u64 = fnv_bytes(FNV_OFFSET, key.name.as_str().as_bytes());
    h = fnv_separator(h);
    h = fnv_bytes(h, key.kind.as_str().as_bytes());
    h = fnv_separator(h);
    h = fnv_bytes(h, key.resource_canonical.as_str().as_bytes());
    h = fnv_separator(h);
    h = fnv_bytes(h, key.attributes_canonical.as_str().as_bytes());
    proof {
        let k = key@;
        let b1 = encode_utf8(k.name);
        let b2 = b1 + seq![0u8];
        let b3 = b2 + encode_utf8(k.kind);
        let b4 = b3 + seq![0u8];
        let b5 = b4 + encode_utf8(k.resource);
        let b6 = b5 + seq![0u8];
        lemma_fnv_concat(FNV_OFFSET, b1, seq![0u8]);
        lemma_fnv_concat(FNV_OFFSET, b2, encode_utf8(k.kind));
        lemma_fnv_concat(FNV_OFFSET, b3, seq![0u8]);
        lemma_fnv_concat(FNV_OFFSET, b4, encode_utf8(k.resource));
        lemma_fnv_concat(FNV_OFFSET, b5, seq![0u8]);
        lemma_fnv_concat(FNV_OFFSET, b6, encode_utf8(k.attributes));
    }
    wrap_i64(h)
}

/// The order in which attributes were added changes neither the key of a
/// series nor its identifier.
pub proof fn law_series_ignores_order(
    name: Seq<char>,
    kind: Seq<char>,
    resource: JsonView,
    attributes: JsonView,
    resource2: JsonView,
    attributes2: JsonView,
)
    requires
        well_formed(resource),
        well_formed(resource2),
        well_formed(attributes),
        well_formed(attributes2),
        same_value(resource, resource2),
        same_value(attributes, attributes2),
    ensures
        key_of(name, kind, resource, attributes) == key_of(name, kind, resource2, attributes2),
        series_id(key_of(name, kind, resource, attributes)) == series_id(
            key_of(name, kind, resource2, attributes2),
        ),
{
    law_canonical_ignores_order(resource, resource2);
    law_canonical_ignores_order(attributes, attributes2);
}

/// Two series without floating-point attributes that have the same key are the
/// same series, up to the order of attributes.
pub proof fn law_key_is_unique(
    name: Seq<char>,
    kind: Seq<char>,
    resource: JsonView,
    attributes: JsonView,
    name2: Seq<char>,
    kind2: Seq<char>,
    resource2: JsonView,
    attributes2: JsonView,
)
    requires
        well_formed(resource),
        well_formed(resource2),
        well_formed(attributes),
        well_formed(attributes2),
        float_free(resource),
        float_free(resource2),
        float_free(attributes),
        float_free(attributes2),
        key_of(name, kind, resource, attributes) == key_of(name2, kind2, resource2, attributes2),
    ensures
        name == name2,
        kind == kind2,
        same_value(resource, resource2),
        same_value(attributes, attributes2),
{
    law_canonical_tells_values_apart(resource, resource2);
    law_canonical_tells_values_apart(attributes, attributes2);
}

/// Multiplying by the FNV prime loses nothing: the prime has an inverse among
/// the 64-bit numbers.
proof fn lemma_prime_injective(x: u64, y: u64)
    requires
        x.wrapping_mul(FNV_PRIME) == y.wrapping_mul(FNV_PRIME),
    ensures
        x == y,
{
    let words: int = 0x1_0000_0000_0000_0000;
    let p: int = 1_099_511_628_211;
    let a = x as int * p;
    let b = y as int * p;
    assert(a % words == b % words);
    let d = x as int - y as int;
    let m = a / words - b / words;
    assert(a == words * (a / words) + a % words && b == words * (b / words) + b % words);
    assert(d * p == words * m);
    let inverse: int = 14_886_173_955_864_302_971;
    let k: int = 887_285_111_055;
    assert(p * inverse == 1 + k * words);
    assert(d + words * (k * d) == d * (p * inverse)) by (nonlinear_arith)
        requires
            p * inverse == 1 + k * words,
    ;
    assert(d * (p * inverse) == (d * p) * inverse) by (nonlinear_arith);
    assert((words * m) * inverse == words * (m * inverse)) by (nonlinear_arith);
    let q = m * inverse - k * d;
    assert(d == words * q);
}

/// One step of the hash tells states apart, and bytes.
proof fn lemma_step_injective(x: u64, y: u64, b: u8, c: u8)
    ensures
        ((x ^ (b as u64)) as u64).wrapping_mul(FNV_PRIME) == ((y ^ (b as u64)) as u64).wrapping_mul(FNV_PRIME)
            ==> x == y,
        ((x ^ (b as u64)) as u64).wrapping_mul(FNV_PRIME) == ((x ^ (c as u64)) as u64).wrapping_mul(FNV_PRIME)
            ==> b == c,
{
    let (u, v) = (b as u64, c as u64);
    if ((x ^ u) as u64).wrapping_mul(FNV_PRIME) == ((y ^ u) as u64).wrapping_mul(FNV_PRIME) {
        lemma_prime_injective(x ^ u, y ^ u);
        assert(x ^ u == y ^ u ==> x == y) by (bit_vector);
    }
    if ((x ^ u) as u64).wrapping_mul(FNV_PRIME) == ((x ^ v) as u64).wrapping_mul(FNV_PRIME) {
        lemma_prime_injective(x ^ u, x ^ v);
        assert(x ^ u == x ^ v ==> u == v) by (bit_vector);
    }
}

/// Two lists of bytes of one length that differ at one place alone.
pub open spec fn apart_at(a: Seq<u8>, b: Seq<u8>, p: int) -> bool {
    &&& a.len() == b.len()
    &&& 0 <= p < a.len()
    &&& a[p] != b[p]
    &&& forall|i: int| 0 <= i < a.len() && i != p ==> #[trigger] a[i] == b[i]
}

/// Bytes that differ at one place have different hashes.
proof fn lemma_fnv_apart(h: u64, a: Seq<u8>, b: Seq<u8>, p: int)
    requires
        apart_at(a, b, p),
    ensures
        fnv1a(h, a) != fnv1a(h, b),
    decreases a.len(),
{
    let (x, y) = (a.drop_last(), b.drop_last());
    if p == a.len() - 1 {
        assert(x =~= y);
        lemma_step_injective(fnv1a(h, x), fnv1a(h, x), a.last(), b.last());
    } else {
        assert(x[p] == a[p] && y[p] == b[p]);
        assert forall|i: int| 0 <= i < x.len() && i != p implies #[trigger] x[i] == y[i] by {
            assert(a[i] == b[i]);
        }
        lemma_fnv_apart(h, x, y, p);
        assert(a[a.len() - 1] == b[a.len() - 1]);
        lemma_step_injective(fnv1a(h, x), fnv1a(h, y), a.last(), a.last());
    }
}

/// Two keys whose parts have the same numbers of bytes, and that differ in one
/// byte of one part, at a place of it.
pub open spec fn one_byte_apart_at(a: KeyView, b: KeyView, p: int) -> bool {
    ||| (apart_at(encode_utf8(a.name), encode_utf8(b.name), p) && a.kind == b.kind && a.resource == b.resource
        && a.attributes == b.attributes)
    ||| (a.name == b.name && apart_at(encode_utf8(a.kind), encode_utf8(b.kind), p) && a.resource == b.resource
        && a.attributes == b.attributes)
    ||| (a.name == b.name && a.kind == b.kind && apart_at(encode_utf8(a.resource), encode_utf8(b.resource), p)
        && a.attributes == b.attributes)
    ||| (a.name == b.name && a.kind == b.kind && a.resource == b.resource && apart_at(
        encode_utf8(a.attributes),
        encode_utf8(b.attributes),
        p,
    ))
}

/// Two keys whose parts have the same numbers of bytes, and that differ in one
/// byte of one part.
pub open spec fn one_byte_apart(a: KeyView, b: KeyView) -> bool {
    exists|p: int| #[trigger] one_byte_apart_at(a, b, p)
}

/// What stands around two lists does not change where they differ.
proof fn lemma_apart_inside(front: Seq<u8>, a: Seq<u8>, b: Seq<u8>, behind: Seq<u8>, p: int)
    requires
        apart_at(a, b, p),
    ensures
        apart_at(front + a + behind, front + b + behind, front.len() + p),
{
    let x = front + a + behind;
    let y = front + b + behind;
    assert(x[front.len() + p] == a[p] && y[front.len() + p] == b[p]);
    assert forall|i: int| 0 <= i < x.len() && i != front.len() + p implies #[trigger] x[i] == y[i] by {
        if front.len() <= i < front.len() + a.len() {
            assert(a[i - front.len()] == b[i - front.len()]);
        }
    }
}

/// Keys that differ in one byte never share an identifier.
pub proof fn law_one_byte_changes_the_identifier(a: KeyView, b: KeyView)
    requires
        one_byte_apart(a, b),
    ensures
        series_id(a) != series_id(b),
{
    let none = Seq::<u8>::empty();
    let zero = seq![0u8];
    let (n, k, r, t) = (
        encode_utf8(a.name),
        encode_utf8(a.kind),
        encode_utf8(a.resource),
        encode_utf8(a.attributes),
    );
    let (n2, k2, r2, t2) = (
        encode_utf8(b.name),
        encode_utf8(b.kind),
        encode_utf8(b.resource),
        encode_utf8(b.attributes),
    );
    let p = choose|p: int| #[trigger] one_byte_apart_at(a, b, p);
    let (x, y) = (key_bytes(a), key_bytes(b));
    let q = if apart_at(n, n2, p) && a.kind == b.kind && a.resource == b.resource && a.attributes == b.attributes {
        let behind = zero + k + zero + r + zero + t;
        lemma_apart_inside(none, n, n2, behind, p);
        assert(x =~= none + n + behind && y =~= none + n2 + behind);
        p
    } else if apart_at(k, k2, p) && a.resource == b.resource && a.attributes == b.attributes {
        let (front, behind) = (n + zero, zero + r + zero + t);
        lemma_apart_inside(front, k, k2, behind, p);
        assert(x =~= front + k + behind && y =~= front + k2 + behind);
        front.len() + p
    } else if apart_at(r, r2, p) && a.attributes == b.attributes {
        let (front, behind) = (n + zero + k + zero, zero + t);
        lemma_apart_inside(front, r, r2, behind, p);
        assert(x =~= front + r + behind && y =~= front + r2 + behind);
        front.len() + p
    } else {
        let front = n + zero + k + zero + r + zero;
        lemma_apart_inside(front, t, t2, none, p);
        assert(x =~= front + t + none && y =~= front + t2 + none);
        front.len() + p
    };
    lemma_fnv_apart(FNV_OFFSET, x, y, q);
}

/// The key of a series is made of its own name, kind, resource and attributes.
pub proof fn law_series_has_the_key_of_its_parts(s: Series, k: SeriesKey)
    ensures
        s.spec_key() == key_of(s.name@, s.kind@, s.resource@, s.attributes@),
        k@.name == k.name@ && k@.kind == k.kind@,
        k@.resource == k.resource_canonical@ && k@.attributes == k.attributes_canonical@,
{
}

} // verus!
