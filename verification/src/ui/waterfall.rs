//! The traces page: the spans of a trace, each under the span that called it.

use vstd::prelude::*;
use vstd::utf8::{encode_utf8, is_char_boundary};

use crate::http::{lower, same_name};
use crate::text::{byte_len, byte_slice, str_eq};
use crate::ui::badge::Badge;

verus! {

// ---------------------------------------------------------------------------
// Colours
// ---------------------------------------------------------------------------

/// One step of the hash of a name, in machine words of the given width.
pub open spec fn hash_step(h: nat, b: u8, words: nat) -> nat {
    (h * 33 + b) as nat % words
}

/// The hash of a name.
pub open spec fn hash_of(bytes: Seq<u8>, words: nat) -> nat
    decreases bytes.len(),
{
    if bytes.len() == 0 {
        5381
    } else {
        hash_step(hash_of(bytes.drop_last(), words), bytes.last(), words)
    }
}

/// The palette.
pub open spec fn palette(i: int) -> Seq<char> {
    if i == 0 {
        "#3b82f6"@
    } else if i == 1 {
        "#8b5cf6"@
    } else if i == 2 {
        "#10b981"@
    } else if i == 3 {
        "#f59e0b"@
    } else if i == 4 {
        "#ec4899"@
    } else if i == 5 {
        "#14b8a6"@
    } else if i == 6 {
        "#f43f5e"@
    } else {
        "#6366f1"@
    }
}

/// The colour of a service.
pub fn service_color_hex(service: &str) -> (s: &'static str)
    ensures
        s@ == palette((hash_of(encode_utf8(service@), usize::MAX as nat + 1) % 8) as int),
{
    let bytes = service.as_bytes();
    let mut h: usize = 5381;
    let mut i: usize = 0;
    assert(bytes@.take(0) =~= Seq::empty());
    while i < bytes.len()
        invariant
            i <= bytes.len(),
            h == hash_of(bytes@.take(i as int), usize::MAX as nat + 1),
        decreases bytes.len() - i,
    {
        assert(bytes@.take(i + 1).drop_last() =~= bytes@.take(i as int));
        let ghost before = h;
        h = h.wrapping_mul(33).wrapping_add(bytes[i] as usize);
        proof {
            lemma_wrapping_step(before as nat, bytes@[i as int], usize::MAX as nat + 1);
        }
        i += 1;
    }
    assert(bytes@.take(bytes.len() as int) =~= bytes@);
    let at: usize = h % 8;
    if at == 0 {
        "#3b82f6"
    } else if at == 1 {
        "#8b5cf6"
    } else if at == 2 {
        "#10b981"
    } else if at == 3 {
        "#f59e0b"
    } else if at == 4 {
        "#ec4899"
    } else if at == 5 {
        "#14b8a6"
    } else if at == 6 {
        "#f43f5e"
    } else {
        "#6366f1"
    }
}

proof fn lemma_wrapping_step(h: nat, b: u8, words: nat)
    requires
        words > 256,
    ensures
        ((h * 33) % words + b) % words as int == hash_step(h, b, words),
{
    vstd::arithmetic::div_mod::lemma_add_mod_noop((h * 33) as int, b as int, words as int);
    vstd::arithmetic::div_mod::lemma_small_mod(b as nat, words);
}

/// A status that says that something failed, in whatever case.
pub open spec fn says_error(s: Seq<char>) -> bool {
    &&& s.len() == 5
    &&& s[0] == 'e' || s[0] == 'E'
    &&& s[1] == 'r' || s[1] == 'R'
    &&& s[2] == 'r' || s[2] == 'R'
    &&& s[3] == 'o' || s[3] == 'O'
    &&& s[4] == 'r' || s[4] == 'R'
}

/// Whether a span failed.
pub fn is_error(status_code: Option<&str>) -> (r: bool)
    ensures
        r == (status_code matches Some(s) && says_error(s@)),
{
    match status_code {
        Some(s) => {
            let cs = crate::text::chars_of(s);
            cs.len() == 5 && (cs[0] == 'e' || cs[0] == 'E') && (cs[1] == 'r' || cs[1] == 'R') && (cs[2] == 'r' || cs[2]
                == 'R') && (cs[3] == 'o' || cs[3] == 'O') && (cs[4] == 'r' || cs[4] == 'R')
        },
        None => false,
    }
}

/// The colour of the bar of a span.
pub fn bar_color(status_code: Option<&str>, service: &str) -> (s: &'static str)
    ensures
        s@ == if status_code matches Some(s) && says_error(s@) {
            "#ef4444"@
        } else {
            palette((hash_of(encode_utf8(service@), usize::MAX as nat + 1) % 8) as int)
        },
{
    if is_error(status_code) {
        "#ef4444"
    } else {
        service_color_hex(service)
    }
}

/// The badge of the status of a trace.
pub fn status_badge(status: &str) -> (b: Badge)
    ensures
        b == (if status@ == "error"@ {
            Badge::Destructive
        } else {
            Badge::Success
        }),
{
    if str_eq(status, "error") {
        Badge::Destructive
    } else {
        Badge::Success
    }
}

/// What is said of a span when it is pointed at.
pub fn span_title(name: &str, service: &str, span_id: &str) -> (s: String)
    ensures
        s@ == name@ + " ("@ + service@ + ") ["@ + span_id@ + "]"@,
{
    let mut s = name.to_owned();
    s.push_str(" (");
    s.push_str(service);
    s.push_str(") [");
    s.push_str(span_id);
    s.push_str("]");
    s
}

/// The start of a trace identifier, at most sixteen bytes.
pub fn short_trace_id(id: &str) -> (s: String)
    requires
        encode_utf8(id@).len() > 16 ==> is_char_boundary(encode_utf8(id@), 16),
    ensures
        encode_utf8(id@).len() <= 16 ==> s@ == id@,
        encode_utf8(id@).len() > 16 ==> encode_utf8(s@) == encode_utf8(id@).subrange(0, 16),
{
    if byte_len(id) > 16 {
        proof {
            vstd::utf8::encode_utf8_valid_utf8(id@);
            vstd::utf8::is_char_boundary_start_end_of_seq(encode_utf8(id@));
        }
        byte_slice(id, 0, 16)
    } else {
        id.to_owned()
    }
}

// ---------------------------------------------------------------------------
// Depths
// ---------------------------------------------------------------------------

/// A span and the span that called it, by their identifiers.
pub struct SpanNode {
    pub span_id: String,
    pub parent_span_id: Option<String>,
}

/// The last span with this identifier that names a parent, or -1.
pub open spec fn owner(spans: Seq<SpanNode>, id: Seq<char>) -> int
    decreases spans.len(),
{
    if spans.len() == 0 {
        -1
    } else if spans.last().span_id@ == id && spans.last().parent_span_id is Some {
        spans.len() - 1
    } else {
        owner(spans.drop_last(), id)
    }
}

/// How many of the spans were not passed yet.
pub open spec fn unseen(seen: Seq<bool>) -> nat
    decreases seen.len(),
{
    if seen.len() == 0 {
        0
    } else {
        unseen(seen.drop_last()) + (if seen.last() {
            0nat
        } else {
            1nat
        })
    }
}

/// How many spans stand above a span: the steps from parent to parent, up to a
/// span without a parent or to one that was passed before.
pub open spec fn climb(spans: Seq<SpanNode>, id: Seq<char>, seen: Seq<bool>) -> nat
    decreases unseen(seen),
{
    let i = owner(spans, id);
    if 0 <= i < seen.len() && !seen[i] && spans[i].parent_span_id is Some {
        proof {
            lemma_mark(seen, i);
        }
        1 + climb(spans, spans[i].parent_span_id->0@, seen.update(i, true))
    } else {
        0
    }
}

/// None of the spans was passed.
pub open spec fn none_seen(n: nat) -> Seq<bool> {
    Seq::new(n, |i: int| false)
}

/// The depth of the span with an identifier: zero for a root.
pub open spec fn depth_of(spans: Seq<SpanNode>, id: Seq<char>) -> nat {
    climb(spans, id, none_seen(spans.len()))
}

/// Passing a span leaves one fewer to pass.
pub proof fn lemma_mark(seen: Seq<bool>, i: int)
    requires
        0 <= i < seen.len(),
        !seen[i],
    ensures
        unseen(seen.update(i, true)) + 1 == unseen(seen),
    decreases seen.len(),
{
    let after = seen.update(i, true);
    if i == seen.len() - 1 {
        assert(after.drop_last() =~= seen.drop_last());
    } else {
        lemma_mark(seen.drop_last(), i);
        assert(after.drop_last() =~= seen.drop_last().update(i, true));
    }
}

proof fn lemma_unseen_bound(seen: Seq<bool>)
    ensures
        unseen(seen) <= seen.len(),
    decreases seen.len(),
{
    if seen.len() > 0 {
        lemma_unseen_bound(seen.drop_last());
    }
}

proof fn lemma_owner(spans: Seq<SpanNode>, id: Seq<char>)
    ensures
        -1 <= owner(spans, id) < spans.len(),
        owner(spans, id) >= 0 ==> spans[owner(spans, id)].span_id@ == id && spans[owner(spans, id)].parent_span_id is Some,
        owner(spans, id) < 0 ==> forall|i: int|
            0 <= i < spans.len() ==> (#[trigger] spans[i]).span_id@ != id || spans[i].parent_span_id is None,
    decreases spans.len(),
{
    if spans.len() > 0 && !(spans.last().span_id@ == id && spans.last().parent_span_id is Some) {
        let before = spans.drop_last();
        lemma_owner(before, id);
        assert forall|i: int| owner(spans, id) < 0 && 0 <= i < spans.len() implies (#[trigger] spans[i]).span_id@ != id
            || spans[i].parent_span_id is None by {
            if i < spans.len() - 1 {
                assert(before[i] == spans[i]);
            }
        }
    }
}

fn find_owner(spans: &Vec<SpanNode>, id: &str) -> (r: Option<usize>)
    ensures
        match r {
            Some(i) => i == owner(spans@, id@) && i < spans.len() && spans@[i as int].parent_span_id is Some,
            None => owner(spans@, id@) < 0,
        },
{
    let mut i: usize = spans.len();
    assert(spans@.take(spans.len() as int) =~= spans@);
    while i > 0
        invariant
            i <= spans.len(),
            owner(spans@, id@) == owner(spans@.take(i as int), id@),
        decreases i,
    {
        i -= 1;
        assert(spans@.take(i + 1).drop_last() =~= spans@.take(i as int));
        assert(spans@.take(i + 1).last() == spans@[i as int]);
        if spans[i].parent_span_id.is_some() && str_eq(spans[i].span_id.as_str(), id) {
            return Some(i);
        }
    }
    None
}

/// The depth of one span.
fn depth(spans: &Vec<SpanNode>, id: &str) -> (d: usize)
    ensures
        d == depth_of(spans@, id@),
{
    let n: usize = spans.len();
    let mut seen: Vec<bool> = Vec::new();
    let mut k: usize = 0;
    while k < n
        invariant
            k <= n,
            seen.len() == k,
            forall|j: int| 0 <= j < k ==> !(#[trigger] seen@[j]),
        decreases n - k,
    {
        seen.push(false);
        k += 1;
    }
    assert(seen@ =~= none_seen(spans@.len()));
    proof {
        lemma_unseen_bound(seen@);
    }
    let mut d: usize = 0;
    let mut cur: &str = id;
    loop
        invariant
            n == spans.len(),
            seen.len() == n,
            d + climb(spans@, cur@, seen@) == depth_of(spans@, id@),
            d + unseen(seen@) <= n,
        ensures
            d == depth_of(spans@, id@),
        decreases unseen(seen@),
    {
        let i: usize = match find_owner(spans, cur) {
            Some(i) => i,
            None => {
                break;
            },
        };
        if seen[i] {
            break;
        }
        proof {
            lemma_mark(seen@, i as int);
        }
        let ghost before = seen@;
        seen.set(i, true);
        assert(seen@ == before.update(i as int, true));
        d += 1;
        match &spans[i].parent_span_id {
            Some(p) => {
                cur = p.as_str();
            },
            None => {},
        }
    }
    d
}

/// The depths of the spans, in order.
pub fn compute_depths(spans: &Vec<SpanNode>) -> (r: Vec<usize>)
    ensures
        r.len() == spans.len(),
        forall|i: int| 0 <= i < spans.len() ==> #[trigger] r@[i] == depth_of(spans@, spans@[i].span_id@),
{
    let mut r: Vec<usize> = Vec::new();
    let mut i: usize = 0;
    while i < spans.len()
        invariant
            i <= spans.len(),
            r.len() == i,
            forall|j: int| 0 <= j < i ==> #[trigger] r@[j] == depth_of(spans@, spans@[j].span_id@),
        decreases spans.len() - i,
    {
        r.push(depth(spans, spans[i].span_id.as_str()));
        i += 1;
    }
    r
}

// ---------------------------------------------------------------------------
// Laws
// ---------------------------------------------------------------------------

/// A span whose parent is not named stands at the top.
pub proof fn law_roots_are_at_the_top(spans: Seq<SpanNode>, id: Seq<char>)
    requires
        forall|i: int|
            0 <= i < spans.len() ==> (#[trigger] spans[i]).span_id@ != id || spans[i].parent_span_id is None,
    ensures
        depth_of(spans, id) == 0,
{
    lemma_owner(spans, id);
}

/// No span is deeper than there are spans, even where parents form a circle.
pub proof fn law_depth_is_bounded(spans: Seq<SpanNode>, id: Seq<char>)
    ensures
        depth_of(spans, id) <= spans.len(),
{
    lemma_climb_bound(spans, id, none_seen(spans.len()));
    lemma_unseen_bound(none_seen(spans.len()));
}

proof fn lemma_climb_bound(spans: Seq<SpanNode>, id: Seq<char>, seen: Seq<bool>)
    ensures
        climb(spans, id, seen) <= unseen(seen),
    decreases unseen(seen),
{
    let i = owner(spans, id);
    if 0 <= i < seen.len() && !seen[i] && spans[i].parent_span_id is Some {
        lemma_mark(seen, i);
        lemma_climb_bound(spans, spans[i].parent_span_id->0@, seen.update(i, true));
    }
}

/// The identifier some steps above another, from parent to parent, unless the
/// way ends before.
pub open spec fn above(spans: Seq<SpanNode>, id: Seq<char>, steps: nat) -> Option<Seq<char>>
    decreases steps,
{
    if steps == 0 {
        Some(id)
    } else {
        match above(spans, id, (steps - 1) as nat) {
            Some(below) => if owner(spans, below) >= 0 {
                Some(spans[owner(spans, below)].parent_span_id->0@)
            } else {
                None
            },
            None => None,
        }
    }
}

/// The way up from a span leads back to it.
pub open spec fn on_circle(spans: Seq<SpanNode>, id: Seq<char>) -> bool {
    exists|steps: nat| steps > 0 && #[trigger] above(spans, id, steps) == Some(id)
}

/// A span that is on no circle of parents stands one deeper than its parent.
pub proof fn law_child_is_one_deeper(spans: Seq<SpanNode>, id: Seq<char>)
    requires
        owner(spans, id) >= 0,
        !on_circle(spans, id),
    ensures
        depth_of(spans, id) == 1 + depth_of(spans, spans[owner(spans, id)].parent_span_id->0@),
{
    let i = owner(spans, id);
    let seen = none_seen(spans.len());
    lemma_owner(spans, id);
    let p = spans[i].parent_span_id->0@;
    assert(above(spans, id, 0) == Some(id));
    assert(above(spans, id, 1) == Some(p));
    lemma_passed_below(spans, id, 1, p, seen);
}

/// A span that is never met on the way up may as well have been passed.
proof fn lemma_passed_below(spans: Seq<SpanNode>, id: Seq<char>, steps: nat, cur: Seq<char>, seen: Seq<bool>)
    requires
        owner(spans, id) >= 0,
        !on_circle(spans, id),
        steps > 0,
        above(spans, id, steps) == Some(cur),
        seen.len() == spans.len(),
        !seen[owner(spans, id)],
    ensures
        climb(spans, cur, seen.update(owner(spans, id), true)) == climb(spans, cur, seen),
    decreases unseen(seen),
{
    let t = owner(spans, id);
    let i = owner(spans, cur);
    lemma_owner(spans, id);
    lemma_owner(spans, cur);
    if i >= 0 {
        assert(i != t);
        if !seen[i] {
            lemma_mark(seen, i);
            let p = spans[i].parent_span_id->0@;
            assert(above(spans, id, steps + 1) == Some(p));
            lemma_passed_below(spans, id, steps + 1, p, seen.update(i, true));
            assert(seen.update(i, true).update(t, true) =~= seen.update(t, true).update(i, true));
        }
    }
}

/// A status says that something failed exactly where it is `error`, whatever the
/// case of its letters.
pub proof fn law_errors_are_told_in_any_case(s: Seq<char>)
    ensures
        says_error(s) <==> same_name(s, "error"@),
{
    let e = "error"@;
    reveal_strlit("error");
    assert(e.len() == 5 && e[0] == 'e' && e[1] == 'r' && e[2] == 'r' && e[3] == 'o' && e[4] == 'r');
    if same_name(s, e) {
        assert(lower(s[0]) == lower(e[0]) && lower(s[1]) == lower(e[1]) && lower(s[2]) == lower(e[2]) && lower(s[3])
            == lower(e[3]) && lower(s[4]) == lower(e[4]));
    }
    if says_error(s) {
        assert forall|i: int| 0 <= i < s.len() implies lower(#[trigger] s[i]) == lower(e[i]) by {
            assert(i == 0 || i == 1 || i == 2 || i == 3 || i == 4);
        }
    }
}

/// The parent of a span is the one that the last span with its identifier names,
/// of those that name one.
pub proof fn law_parent_is_the_last_one_named(spans: Seq<SpanNode>, id: Seq<char>, i: int)
    requires
        0 <= i < spans.len(),
        spans[i].span_id@ == id,
        spans[i].parent_span_id is Some,
        forall|j: int|
            i < j < spans.len() ==> (#[trigger] spans[j]).span_id@ != id || spans[j].parent_span_id is None,
    ensures
        owner(spans, id) == i,
    decreases spans.len(),
{
    if i < spans.len() - 1 {
        let front = spans.drop_last();
        assert(spans[spans.len() - 1] == spans.last());
        assert(front[i] == spans[i]);
        assert forall|j: int| i < j < front.len() implies (#[trigger] front[j]).span_id@ != id
            || front[j].parent_span_id is None by {
            assert(front[j] == spans[j]);
        }
        law_parent_is_the_last_one_named(front, id, i);
    }
}

/// The palette has eight colours, no two of them the same.
pub proof fn law_colours_differ(i: int, j: int)
    requires
        0 <= i < j < 8,
    ensures
        palette(i) != palette(j),
{
    reveal_strlit("#3b82f6");
    reveal_strlit("#8b5cf6");
    reveal_strlit("#10b981");
    reveal_strlit("#f59e0b");
    reveal_strlit("#ec4899");
    reveal_strlit("#14b8a6");
    reveal_strlit("#f43f5e");
    reveal_strlit("#6366f1");
    assert("#3b82f6"@[1] == '3' && "#8b5cf6"@[1] == '8' && "#10b981"@[1] == '1' && "#f59e0b"@[1] == 'f'
        && "#ec4899"@[1] == 'e' && "#14b8a6"@[1] == '1' && "#f43f5e"@[1] == 'f' && "#6366f1"@[1] == '6');
    assert("#10b981"@[2] == '0' && "#14b8a6"@[2] == '4' && "#f59e0b"@[2] == '5' && "#f43f5e"@[2] == '4');
}

} // verus!
