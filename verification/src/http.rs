//! Answers to HTTP requests, as plain values.

use vstd::prelude::*;

use crate::text::chars_of;

verus! {

/// An answer: its status, its headers in order, and its body.
pub struct Reply {
    pub status: u16,
    pub headers: Vec<(&'static str, String)>,
    pub body: String,
}

/// What a header stands for.
pub type HeaderView = (Seq<char>, Seq<char>);

/// What the headers stand for.
pub open spec fn header_views(headers: Seq<(&'static str, String)>) -> Seq<HeaderView> {
    Seq::new(headers.len(), |i: int| (headers[i].0@, headers[i].1@))
}

impl Reply {
    pub open spec fn spec_headers(&self) -> Seq<HeaderView> {
        header_views(self.headers@)
    }
}

/// A reply with one header and a body.
pub fn reply_with(status: u16, header: &'static str, value: &str, body: String) -> (r: Reply)
    ensures
        r.status == status,
        r.spec_headers() == seq![(header@, value@)],
        r.body == body,
{
    let mut headers: Vec<(&'static str, String)> = Vec::new();
    headers.push((header, value.to_owned()));
    let r = Reply { status, headers, body };
    assert(r.spec_headers() =~= seq![(header@, value@)]);
    r
}

/// The reply to a request that cannot be taken as it is.
pub fn bad_request(message: &str) -> (r: Reply)
    ensures
        r.status == 400,
        r.spec_headers() == Seq::<HeaderView>::empty(),
        r.body@ == message@,
{
    let r = Reply { status: 400, headers: Vec::new(), body: message.to_owned() };
    assert(r.spec_headers() =~= Seq::<HeaderView>::empty());
    r
}

/// The reply when the store does not take what was sent: the sender is asked
/// to come back after five seconds.
pub fn service_unavailable() -> (r: Reply)
    ensures
        r.status == 503,
        r.spec_headers() == seq![("retry-after"@, "5"@)],
        r.body@ == "write timeout — retry after 5 seconds"@,
{
    reply_with(503, "retry-after", "5", "write timeout — retry after 5 seconds".to_owned())
}

// ---------------------------------------------------------------------------
// Cross-origin requests
// ---------------------------------------------------------------------------

/// The reply to a preflight request on an ingest route.
pub fn cors_preflight(cors_origin: &str) -> (r: Reply)
    ensures
        r.status == 204,
        r.spec_headers() == seq![
            ("Access-Control-Allow-Origin"@, cors_origin@),
            ("Access-Control-Allow-Headers"@, "content-type, authorization"@),
            ("Access-Control-Allow-Methods"@, "POST, OPTIONS"@),
        ],
        r.body@ == ""@,
{
    let mut headers: Vec<(&'static str, String)> = Vec::new();
    headers.push(("Access-Control-Allow-Origin", cors_origin.to_owned()));
    headers.push(("Access-Control-Allow-Headers", "content-type, authorization".to_owned()));
    headers.push(("Access-Control-Allow-Methods", "POST, OPTIONS".to_owned()));
    let r = Reply { status: 204, headers, body: "".to_owned() };
    assert(r.spec_headers() =~= seq![
        ("Access-Control-Allow-Origin"@, cors_origin@),
        ("Access-Control-Allow-Headers"@, "content-type, authorization"@),
        ("Access-Control-Allow-Methods"@, "POST, OPTIONS"@),
    ]);
    r
}

/// A text that can stand as the value of a header: no control character but
/// the tab.
pub open spec fn header_safe(s: Seq<char>) -> bool {
    forall|i: int| 0 <= i < s.len() ==> (#[trigger] s[i]) as int >= 32 && s[i] as int != 127 || s[i] == '\t'
}

/// `http::HeaderValue::from_str`, which `axum` re-exports: whether a text can
/// stand as the value of a header.
#[verifier::external_body]
fn is_header_value(s: &str) -> (r: bool)
    ensures
        r == header_safe(s@),
{
    axum::http::HeaderValue::from_str(s).is_ok()
}

/// The origin that is allowed: the configured one, or any where that cannot
/// stand in a header.
pub open spec fn allowed_origin(cors_origin: Seq<char>) -> Seq<char> {
    if header_safe(cors_origin) {
        cors_origin
    } else {
        "*"@
    }
}

/// The number of a letter in lower case, or of any other character as it is.
pub open spec fn lower(c: char) -> int {
    if 'A' as int <= c as int <= 'Z' as int {
        c as int + 32
    } else {
        c as int
    }
}

/// Two names of one header: case does not matter.
pub open spec fn same_name(a: Seq<char>, b: Seq<char>) -> bool {
    a.len() == b.len() && forall|i: int| 0 <= i < a.len() ==> lower(#[trigger] a[i]) == lower(b[i])
}

/// The headers but for those of a name.
pub open spec fn without_header(headers: Seq<HeaderView>, name: Seq<char>) -> Seq<HeaderView>
    decreases headers.len(),
{
    if headers.len() == 0 {
        Seq::empty()
    } else if same_name(headers.last().0, name) {
        without_header(headers.drop_last(), name)
    } else {
        without_header(headers.drop_last(), name).push(headers.last())
    }
}

fn lower_code(c: char) -> (n: u32)
    ensures
        n == lower(c),
{
    let n: u32 = c as u32;
    if 65 <= n && n <= 90 {
        n + 32
    } else {
        n
    }
}

fn is_same_name(a: &str, b: &str) -> (r: bool)
    ensures
        r == same_name(a@, b@),
{
    let x = chars_of(a);
    let y = chars_of(b);
    if x.len() != y.len() {
        return false;
    }
    let mut i: usize = 0;
    while i < x.len()
        invariant
            i <= x.len(),
            x.len() == y.len(),
            x@ == a@,
            y@ == b@,
            forall|j: int| 0 <= j < i ==> lower(#[trigger] a@[j]) == lower(b@[j]),
        decreases x.len() - i,
    {
        if lower_code(x[i]) != lower_code(y[i]) {
            assert(lower(a@[i as int]) != lower(b@[i as int]));
            return false;
        }
        i += 1;
    }
    true
}

/// The reply with the header that allows the configured origin, in place of any
/// such header that it had.
pub fn with_cors(reply: Reply, cors_origin: &str) -> (r: Reply)
    ensures
        r.status == reply.status,
        r.body == reply.body,
        r.spec_headers() == without_header(reply.spec_headers(), "Access-Control-Allow-Origin"@).push(
            ("Access-Control-Allow-Origin"@, allowed_origin(cors_origin@)),
        ),
{
    let name: &'static str = "Access-Control-Allow-Origin";
    let ghost all = reply.spec_headers();
    let mut headers: Vec<(&'static str, String)> = Vec::new();
    let mut i: usize = 0;
    assert(header_views(headers@) =~= without_header(all.take(0), name@));
    while i < reply.headers.len()
        invariant
            i <= reply.headers.len(),
            all == reply.spec_headers(),
            header_views(headers@) == without_header(all.take(i as int), name@),
        decreases reply.headers.len() - i,
    {
        let ghost before = header_views(headers@);
        assert(all.take(i + 1).drop_last() =~= all.take(i as int));
        assert(all.take(i + 1).last() == all[i as int]);
        let key: &'static str = reply.headers[i].0;
        if !is_same_name(key, name) {
            headers.push((key, reply.headers[i].1.clone()));
            assert(header_views(headers@) =~= before.push(all[i as int]));
        }
        i += 1;
    }
    assert(all.take(all.len() as int) =~= all);
    let ghost kept = header_views(headers@);
    let value: String = if is_header_value(cors_origin) {
        cors_origin.to_owned()
    } else {
        "*".to_owned()
    };
    headers.push((name, value));
    let r = Reply { status: reply.status, headers, body: reply.body };
    assert(r.spec_headers() =~= kept.push((name@, allowed_origin(cors_origin@))));
    r
}

/// The headers but for those of a name are the others, all of them and in order.
pub proof fn law_other_headers_stay(headers: Seq<HeaderView>, name: Seq<char>)
    ensures
        without_header(headers, name) == headers.filter(|h: HeaderView| !same_name(h.0, name)),
    decreases headers.len(),
{
    reveal(Seq::filter);
    if headers.len() > 0 {
        law_other_headers_stay(headers.drop_last(), name);
    }
}

/// The case of letters does not matter for the name of a header, and nothing else
/// is overlooked: a name is the same as itself, as any other in which only the case
/// of letters differs, and as no other.
pub proof fn law_only_case_is_overlooked(a: Seq<char>, b: Seq<char>)
    ensures
        same_name(a, b) <==> a.len() == b.len() && forall|i: int|
            0 <= i < a.len() ==> (#[trigger] a[i] == b[i] || ('A' <= a[i] <= 'Z' && b[i] as int == a[i] as int + 32) || (
            'A' <= b[i] <= 'Z' && a[i] as int == b[i] as int + 32)),
        same_name(a, b) == same_name(b, a),
{
    if same_name(a, b) {
        assert forall|i: int| 0 <= i < a.len() implies (#[trigger] a[i] == b[i] || ('A' <= a[i] <= 'Z' && b[i] as int
            == a[i] as int + 32) || ('A' <= b[i] <= 'Z' && a[i] as int == b[i] as int + 32)) by {
            assert(lower(a[i]) == lower(b[i]));
        }
    }
    if a.len() == b.len() && forall|i: int|
        0 <= i < a.len() ==> (#[trigger] a[i] == b[i] || ('A' <= a[i] <= 'Z' && b[i] as int == a[i] as int + 32) || ('A'
            <= b[i] <= 'Z' && a[i] as int == b[i] as int + 32)) {
        assert forall|i: int| 0 <= i < a.len() implies lower(#[trigger] a[i]) == lower(b[i]) by {}
    }
    if same_name(a, b) {
        assert forall|i: int| 0 <= i < b.len() implies lower(#[trigger] b[i]) == lower(a[i]) by {
            assert(lower(a[i]) == lower(b[i]));
        }
    }
    if same_name(b, a) {
        assert forall|i: int| 0 <= i < a.len() implies lower(#[trigger] a[i]) == lower(b[i]) by {
            assert(lower(b[i]) == lower(a[i]));
        }
    }
}

/// The origin that is set is the one that is allowed, unless a control character
/// other than the tab stands in it: then any is.
pub proof fn law_configured_origin_is_allowed(origin: Seq<char>)
    ensures
        (forall|i: int| 0 <= i < origin.len() ==> (#[trigger] origin[i]) as int >= 32 && origin[i] as int != 127)
            ==> allowed_origin(origin) == origin,
        (exists|i: int| 0 <= i < origin.len() && (#[trigger] origin[i]) as int == 10) ==> allowed_origin(origin) == "*"@,
        allowed_origin(origin) == origin || allowed_origin(origin) == "*"@,
{
    if exists|i: int| 0 <= i < origin.len() && (#[trigger] origin[i]) as int == 10 {
        let i = choose|i: int| 0 <= i < origin.len() && (#[trigger] origin[i]) as int == 10;
        assert(!(origin[i] as int >= 32 && origin[i] as int != 127 || origin[i] == '\t'));
        assert(!header_safe(origin));
    }
}

} // verus!
