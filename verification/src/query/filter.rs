//! Attribute filters: `key="value",key2="value2"`.

use vstd::prelude::*;

use crate::json::{
    distinct_keys, lemma_object_view, lemma_with_member, lookup, member, member_views, set_member, with_member, Json,
    JsonView, Members,
};
use crate::text::{
    chars_of, find_char, first_index, is_space, lemma_first_index, split_at_char, string_of, trim_end, trim_range,
    trim_start, trimmed,
};

verus! {

/// A text without the double quotes around it, if it has both.
pub open spec fn unquoted(v: Seq<char>) -> Seq<char> {
    if v.len() >= 2 && v[0] == '"' && v.last() == '"' {
        v.subrange(1, v.len() - 1)
    } else {
        v
    }
}

/// The key and the value of one part of a filter, if it has an equals sign.
pub open spec fn filter_part(part: Seq<char>) -> Option<(Seq<char>, Seq<char>)> {
    let p = trimmed(part);
    let eq = first_index(p, '=');
    if eq < p.len() {
        Some((trimmed(p.take(eq)), unquoted(trimmed(p.skip(eq + 1)))))
    } else {
        None
    }
}

/// The members that the parts ask for. Of two with one key the later counts.
pub open spec fn filter_members(parts: Seq<Seq<char>>) -> Option<Members>
    decreases parts.len(),
{
    if parts.len() == 0 {
        Some(Seq::empty())
    } else {
        match (filter_members(parts.drop_last()), filter_part(parts.last())) {
            (Some(members), Some((key, value))) => Some(with_member(members, key, JsonView::Str(value))),
            _ => None,
        }
    }
}

/// The attributes that a filter asks for. There is no filter where the text is
/// empty, nor where a part of it has no equals sign.
pub open spec fn filter_of(s: Seq<char>) -> Option<JsonView> {
    if trimmed(s).len() == 0 {
        None
    } else {
        match filter_members(split_at_char(trimmed(s), ',')) {
            Some(members) => Some(JsonView::Object(members)),
            None => None,
        }
    }
}

/// The filter of a query, if it has one.
pub open spec fn wanted(filter: Option<String>) -> Option<JsonView> {
    match filter {
        Some(s) => filter_of(s@),
        None => None,
    }
}

fn part_range(cs: &Vec<char>, from: usize, to: usize) -> (r: Option<(String, String)>)
    requires
        from <= to <= cs.len(),
    ensures
        match r {
            Some((k, v)) => filter_part(cs@.subrange(from as int, to as int)) == Some((k@, v@)),
            None => filter_part(cs@.subrange(from as int, to as int)) is None,
        },
{
    let (a, b) = trim_range(cs, from, to);
    let part = string_of(cs, a, b);
    let ps = chars_of(part.as_str());
    let eq: usize = find_char(&ps, 0, '=');
    assert(ps@.skip(0) =~= ps@);
    if eq == ps.len() {
        return None;
    }
    let (ka, kb) = trim_range(&ps, 0, eq);
    assert(ps@.subrange(0, eq as int) =~= ps@.take(eq as int));
    let (va, vb) = trim_range(&ps, eq + 1, ps.len());
    assert(ps@.subrange(eq + 1, ps.len() as int) =~= ps@.skip(eq + 1));
    let ghost value = ps@.subrange(va as int, vb as int);
    let key = string_of(&ps, ka, kb);
    if vb - va >= 2 && ps[va] == '"' && ps[vb - 1] == '"' {
        let text = string_of(&ps, va + 1, vb - 1);
        assert(text@ =~= value.subrange(1, value.len() - 1));
        assert(value[0] == ps@[va as int] && value.last() == ps@[vb - 1]);
        Some((key, text))
    } else {
        let text = string_of(&ps, va, vb);
        assert(value.len() >= 2 ==> value[0] == ps@[va as int] && value.last() == ps@[vb - 1]);
        Some((key, text))
    }
}

/// Splitting goes on behind each separator.
proof fn lemma_split_step(s: Seq<char>, sep: char, p: int)
    requires
        0 <= p < s.len(),
        first_index(s, sep) == p,
    ensures
        split_at_char(s, sep) == seq![s.take(p)] + split_at_char(s.skip(p + 1), sep),
{
}

/// The members of more parts build on those of the first ones.
proof fn lemma_members_prefix(done: Seq<Seq<char>>, rest: Seq<Seq<char>>)
    requires
        filter_members(done) is None,
    ensures
        filter_members(done + rest) is None,
    decreases rest.len(),
{
    if rest.len() == 0 {
        assert(done + rest =~= done);
    } else {
        assert((done + rest).drop_last() =~= done + rest.drop_last());
        lemma_members_prefix(done, rest.drop_last());
    }
}

/// The attributes that a filter asks for.
pub fn parse_filter(filter: &Option<String>) -> (r: Option<Json>)
    ensures
        match r {
            Some(j) => wanted(*filter) == Some(j@),
            None => wanted(*filter) is None,
        },
{
    match filter {
        None => None,
        Some(s) => parse_filter_text(s.as_str()),
    }
}

/// The attributes that the text of a filter asks for.
pub fn parse_filter_text(s: &str) -> (r: Option<Json>)
    ensures
        match r {
            Some(j) => filter_of(s@) == Some(j@),
            None => filter_of(s@) is None,
        },
{
    let cs = chars_of(s);
    assert(cs@.subrange(0, cs.len() as int) =~= s@);
    let (a, b) = trim_range(&cs, 0, cs.len());
    if a == b {
        return None;
    }
    let text = string_of(&cs, a, b);
    let ts = chars_of(text.as_str());
    let ghost whole = trimmed(s@);
    let ghost parts = split_at_char(whole, ',');
    let mut members: Vec<(String, Json)> = Vec::new();
    let mut from: usize = 0;
    let ghost mut done: Seq<Seq<char>> = Seq::empty();
    proof {
        assert(member_views(members@) =~= Seq::empty());
        assert(whole.skip(0) =~= whole);
        assert(parts =~= done + split_at_char(whole.skip(0), ','));
    }
    loop
        invariant
            from <= ts.len(),
            ts@ == whole,
            whole == trimmed(s@),
            whole.len() > 0,
            parts == split_at_char(whole, ','),
            parts == done + split_at_char(whole.skip(from as int), ','),
            filter_members(done) == Some(member_views(members@)),
        decreases ts.len() - from,
    {
        let to: usize = find_char(&ts, from, ',');
        let ghost tail = whole.skip(from as int);
        let ghost part = ts@.subrange(from as int, to as int);
        proof {
            assert(part =~= tail.take(to - from));
            assert(done.push(part).drop_last() =~= done);
            if to < ts.len() {
                lemma_split_step(tail, ',', to - from);
                assert(tail.skip(to - from + 1) =~= whole.skip(to + 1));
                assert(parts =~= done.push(part) + split_at_char(whole.skip(to + 1), ','));
            } else {
                assert(part =~= tail);
                assert(parts =~= done.push(part));
            }
        }
        match part_range(&ts, from, to) {
            None => {
                proof {
                    assert(filter_members(done.push(part)) is None);
                    if to < ts.len() {
                        lemma_members_prefix(done.push(part), split_at_char(whole.skip(to + 1), ','));
                    }
                }
                return None;
            },
            Some((k, v)) => {
                set_member(&mut members, k, Json::Str(v));
            },
        }
        proof {
            done = done.push(part);
        }
        if to == ts.len() {
            proof {
                lemma_object_view(members);
            }
            return Some(Json::Object(members));
        }
        from = to + 1;
    }
}

// ---------------------------------------------------------------------------
// Laws
// ---------------------------------------------------------------------------

/// A key and a value.
pub type Pair = (Seq<char>, Seq<char>);

/// A key can be written in a filter as it is: it has no white space at either
/// end and none of the signs that part a filter.
pub open spec fn is_plain_key(key: Seq<char>) -> bool {
    &&& key.len() > 0 ==> !is_space(key[0]) && !is_space(key.last())
    &&& !key.contains('=')
    &&& !key.contains(',')
}

/// A key with its value in quotes.
pub open spec fn pair_text(pair: Pair) -> Seq<char> {
    pair.0 + seq!['=', '"'] + pair.1 + seq!['"']
}

/// A filter that asks for pairs.
pub open spec fn filter_text(pairs: Seq<Pair>) -> Seq<char>
    decreases pairs.len(),
{
    if pairs.len() == 0 {
        Seq::empty()
    } else if pairs.len() == 1 {
        pair_text(pairs[0])
    } else {
        pair_text(pairs[0]) + seq![','] + filter_text(pairs.skip(1))
    }
}

/// The members that pairs stand for. Of two with one key the later counts.
pub open spec fn members_of(pairs: Seq<Pair>) -> Members
    decreases pairs.len(),
{
    if pairs.len() == 0 {
        Seq::empty()
    } else {
        with_member(members_of(pairs.drop_last()), pairs.last().0, JsonView::Str(pairs.last().1))
    }
}

proof fn lemma_nothing_to_trim(s: Seq<char>)
    requires
        s.len() > 0 ==> !is_space(s[0]) && !is_space(s.last()),
    ensures
        trimmed(s) == s,
{
}

proof fn lemma_pair_part(pair: Pair)
    requires
        is_plain_key(pair.0),
        !pair.1.contains(','),
    ensures
        pair_text(pair).len() > 0,
        !is_space(pair_text(pair)[0]),
        !is_space(pair_text(pair).last()),
        !pair_text(pair).contains(','),
        filter_part(pair_text(pair)) == Some(pair),
{
    let (key, value) = pair;
    let p = pair_text(pair);
    let quoted = seq!['"'] + value + seq!['"'];
    assert(p =~= key + seq!['='] + quoted);
    assert(p[0] == if key.len() > 0 {
        key[0]
    } else {
        '='
    });
    assert forall|i: int| 0 <= i < p.len() implies p[i] != ',' by {
        if i < key.len() {
            assert(key.contains(key[i]));
        } else if key.len() + 2 <= i < p.len() - 1 {
            assert(value.contains(value[i - key.len() - 2]));
        }
    }
    lemma_nothing_to_trim(p);
    assert forall|i: int| 0 <= i < key.len() implies p[i] != '=' by {
        assert(key.contains(key[i]));
    }
    lemma_first_index(p, '=', key.len() as int);
    assert(p.take(key.len() as int) =~= key);
    lemma_nothing_to_trim(key);
    assert(p.skip(key.len() as int + 1) =~= quoted);
    lemma_nothing_to_trim(quoted);
    assert(quoted.subrange(1, quoted.len() - 1) =~= value);
}

/// The parts of a filter that asks for pairs.
proof fn lemma_filter_parts(pairs: Seq<Pair>)
    requires
        pairs.len() > 0,
        forall|i: int|
            0 <= i < pairs.len() ==> is_plain_key((#[trigger] pairs[i]).0) && !pairs[i].1.contains(','),
    ensures
        filter_text(pairs).len() > 0,
        !is_space(filter_text(pairs)[0]),
        !is_space(filter_text(pairs).last()),
        split_at_char(filter_text(pairs), ',') == Seq::new(pairs.len(), |i: int| pair_text(pairs[i])),
    decreases pairs.len(),
{
    let head = pair_text(pairs[0]);
    let whole = filter_text(pairs);
    lemma_pair_part(pairs[0]);
    assert forall|i: int| 0 <= i < head.len() implies head[i] != ',' by {
        assert(head.contains(head[i]));
    }
    if pairs.len() == 1 {
        lemma_first_index(whole, ',', head.len() as int);
        assert(split_at_char(whole, ',') =~= Seq::new(pairs.len(), |i: int| pair_text(pairs[i])));
    } else {
        let rest = pairs.skip(1);
        assert forall|i: int| 0 <= i < rest.len() implies is_plain_key((#[trigger] rest[i]).0) && !rest[i].1.contains(
            ',',
        ) by {
            assert(rest[i] == pairs[i + 1]);
        }
        lemma_filter_parts(rest);
        lemma_first_index(whole, ',', head.len() as int);
        assert(whole.take(head.len() as int) =~= head);
        assert(whole.skip(head.len() as int + 1) =~= filter_text(rest));
        assert(whole[0] == head[0] && whole.last() == filter_text(rest).last());
        assert(seq![head] + Seq::new(rest.len(), |i: int| pair_text(rest[i])) =~= Seq::new(
            pairs.len(),
            |i: int| pair_text(pairs[i]),
        ));
    }
}

proof fn lemma_pair_members(pairs: Seq<Pair>)
    requires
        forall|i: int|
            0 <= i < pairs.len() ==> is_plain_key((#[trigger] pairs[i]).0) && !pairs[i].1.contains(','),
    ensures
        filter_members(Seq::new(pairs.len(), |i: int| pair_text(pairs[i]))) == Some(members_of(pairs)),
    decreases pairs.len(),
{
    if pairs.len() > 0 {
        let parts = Seq::new(pairs.len(), |i: int| pair_text(pairs[i]));
        let before = pairs.drop_last();
        assert forall|i: int| 0 <= i < before.len() implies is_plain_key((#[trigger] before[i]).0)
            && !before[i].1.contains(',') by {
            assert(before[i] == pairs[i]);
        }
        lemma_pair_members(before);
        assert(parts.drop_last() =~= Seq::new(before.len(), |i: int| pair_text(before[i])));
        lemma_pair_part(pairs[pairs.len() - 1]);
    }
}

/// A filter asks for the pairs that were written in it: for each value as it
/// is, whatever it holds but a comma.
pub proof fn law_filter_asks_for_its_pairs(pairs: Seq<Pair>)
    requires
        pairs.len() > 0,
        forall|i: int|
            0 <= i < pairs.len() ==> is_plain_key((#[trigger] pairs[i]).0) && !pairs[i].1.contains(','),
    ensures
        filter_of(filter_text(pairs)) == Some(JsonView::Object(members_of(pairs))),
{
    lemma_filter_parts(pairs);
    lemma_nothing_to_trim(filter_text(pairs));
    lemma_pair_members(pairs);
}

/// The pairs can be written in a filter.
pub open spec fn can_be_written(pairs: Seq<Pair>) -> bool {
    &&& pairs.len() > 0
    &&& forall|i: int| 0 <= i < pairs.len() ==> is_plain_key((#[trigger] pairs[i]).0) && !pairs[i].1.contains(',')
}

/// The last pair with a key stands at a place.
pub open spec fn is_last_pair(pairs: Seq<Pair>, key: Seq<char>, i: int) -> bool {
    &&& 0 <= i < pairs.len()
    &&& pairs[i].0 == key
    &&& forall|j: int| i < j < pairs.len() ==> (#[trigger] pairs[j]).0 != key
}

/// What is asked for are attributes in which looking up a key gives the value of
/// the last pair with that key, and nothing for a key that no pair has.
pub open spec fn asks_for(asked: Option<JsonView>, pairs: Seq<Pair>) -> bool {
    &&& asked is Some
    &&& asked->0 is Object
    &&& forall|key: Seq<char>, i: int| #[trigger]
        is_last_pair(pairs, key, i) ==> member(asked->0, key) == Some(JsonView::Str(pairs[i].1))
    &&& forall|key: Seq<char>|
        (forall|i: int| 0 <= i < pairs.len() ==> (#[trigger] pairs[i]).0 != key) ==> #[trigger] member(asked->0, key) is None
}

proof fn lemma_members_of(pairs: Seq<Pair>)
    ensures
        distinct_keys(members_of(pairs)),
        forall|key: Seq<char>, i: int| #[trigger]
            is_last_pair(pairs, key, i) ==> lookup(members_of(pairs), key) == Some(JsonView::Str(pairs[i].1)),
        forall|key: Seq<char>|
            (forall|i: int| 0 <= i < pairs.len() ==> (#[trigger] pairs[i]).0 != key) ==> #[trigger] lookup(
                members_of(pairs),
                key,
            ) is None,
    decreases pairs.len(),
{
    if pairs.len() > 0 {
        let front = pairs.drop_last();
        let n = pairs.len() - 1;
        lemma_members_of(front);
        lemma_with_member(members_of(front), pairs.last().0, JsonView::Str(pairs.last().1));
        assert forall|key: Seq<char>, i: int| #[trigger] is_last_pair(pairs, key, i) implies lookup(
            members_of(pairs),
            key,
        ) == Some(JsonView::Str(pairs[i].1)) by {
            if i < n {
                assert(pairs[n].0 != key);
                assert forall|j: int| i < j < front.len() implies (#[trigger] front[j]).0 != key by {
                    assert(front[j] == pairs[j]);
                }
                assert(is_last_pair(front, key, i));
            }
        }
        assert forall|key: Seq<char>|
            (forall|i: int| 0 <= i < pairs.len() ==> (#[trigger] pairs[i]).0 != key) implies #[trigger] lookup(
            members_of(pairs),
            key,
        ) is None by {
            assert(pairs[n].0 != key);
            assert forall|i: int| 0 <= i < front.len() implies (#[trigger] front[i]).0 != key by {
                assert(front[i] == pairs[i]);
            }
        }
    }
}

/// A filter made of pairs asks for attributes in which each key has the value
/// that was written for it, the last where there are several; the same text asks
/// for the same wherever it stands.
pub proof fn law_filter_can_be_looked_up(pairs: Seq<Pair>)
    requires
        can_be_written(pairs),
    ensures
        asks_for(filter_of(filter_text(pairs)), pairs),
        forall|s: String| s@ == filter_text(pairs) ==> asks_for(#[trigger] wanted(Some(s)), pairs),
        wanted(None) is None,
{
    law_filter_asks_for_its_pairs(pairs);
    lemma_members_of(pairs);
}

/// A text of white space alone asks for nothing in particular.
pub proof fn law_blank_filter_asks_for_nothing(s: Seq<char>)
    requires
        forall|i: int| 0 <= i < s.len() ==> is_space(#[trigger] s[i]),
    ensures
        filter_of(s) is None,
    decreases s.len(),
{
    if s.len() > 0 {
        let rest = s.skip(1);
        assert forall|i: int| 0 <= i < rest.len() implies is_space(#[trigger] rest[i]) by {
            assert(rest[i] == s[i + 1]);
        }
        law_blank_filter_asks_for_nothing(rest);
        assert(is_space(s[0]));
    }
}

/// A text without an equals sign is no filter.
pub proof fn law_filter_needs_an_equals_sign(s: Seq<char>)
    requires
        !s.contains('='),
    ensures
        filter_of(s) is None,
{
    let t = trimmed(s);
    if t.len() > 0 {
        lemma_trimmed_lacks(s, '=');
        let parts = split_at_char(t, ',');
        lemma_parts_lack(t, ',', '=');
        let last = parts.last();
        assert(parts[parts.len() - 1] == last);
        lemma_trimmed_lacks(last, '=');
        let p = trimmed(last);
        assert forall|i: int| 0 <= i < p.len() implies p[i] != '=' by {
            assert(p.contains(p[i]));
        }
        lemma_first_index(p, '=', p.len() as int);
    }
}

proof fn lemma_trimmed_lacks(s: Seq<char>, c: char)
    requires
        !s.contains(c),
    ensures
        !trimmed(s).contains(c),
{
    lemma_start_lacks(s, c);
    lemma_end_lacks(trim_start(s), c);
}

proof fn lemma_start_lacks(s: Seq<char>, c: char)
    requires
        !s.contains(c),
    ensures
        !trim_start(s).contains(c),
    decreases s.len(),
{
    if s.len() > 0 && is_space(s[0]) {
        assert forall|i: int| 0 <= i < s.skip(1).len() implies s.skip(1)[i] != c by {
            assert(s.contains(s[i + 1]));
        }
        lemma_start_lacks(s.skip(1), c);
    }
}

proof fn lemma_end_lacks(s: Seq<char>, c: char)
    requires
        !s.contains(c),
    ensures
        !trim_end(s).contains(c),
    decreases s.len(),
{
    if s.len() > 0 && is_space(s.last()) {
        assert forall|i: int| 0 <= i < s.drop_last().len() implies s.drop_last()[i] != c by {
            assert(s.contains(s[i]));
        }
        lemma_end_lacks(s.drop_last(), c);
    }
}

proof fn lemma_parts_lack(s: Seq<char>, sep: char, c: char)
    requires
        !s.contains(c),
    ensures
        split_at_char(s, sep).len() > 0,
        forall|i: int| 0 <= i < split_at_char(s, sep).len() ==> !(#[trigger] split_at_char(s, sep)[i]).contains(c),
    decreases s.len(),
{
    let p = first_index(s, sep);
    if 0 <= p < s.len() {
        let (head, rest) = (s.take(p), s.skip(p + 1));
        assert forall|i: int| 0 <= i < head.len() implies head[i] != c by {
            assert(s.contains(s[i]));
        }
        assert forall|i: int| 0 <= i < rest.len() implies rest[i] != c by {
            assert(s.contains(s[p + 1 + i]));
        }
        lemma_parts_lack(rest, sep, c);
        let parts = split_at_char(s, sep);
        assert forall|i: int| 0 <= i < parts.len() implies !(#[trigger] parts[i]).contains(c) by {
            if i > 0 {
                assert(parts[i] == split_at_char(rest, sep)[i - 1]);
            }
        }
    }
}

} // verus!
