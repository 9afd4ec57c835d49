//! The cache of resolved series.
//!
//! A series is known by its key. The cache keeps the identifiers of the series
//! that were used last, and for a counter the last cumulative value seen.

use vstd::prelude::*;

use crate::store::schema::{hash_series_key, series_id, KeyView, Series, SeriesKey};

verus! {

/// How many series the cache keeps.
pub const CACHE_CAPACITY: usize = 100_000;

/// The parts of a series key.
pub type CacheKey = (String, String, String, String);

/// A series identifier, and the bits of the last cumulative value.
pub type CacheValue = (i64, Option<u64>);

pub type Cache = lru::LruCache<CacheKey, CacheValue>;

/// The hash builder that `lru` uses unless told otherwise.
#[verifier::external_type_specification]
#[verifier::external_body]
pub struct ExDefaultHasher(lru::DefaultHasher);

/// A cache of `lru`, which drops the entry that was used least recently.
#[verifier::external_type_specification]
#[verifier::external_body]
#[verifier::reject_recursive_types(K)]
#[verifier::reject_recursive_types(V)]
#[verifier::reject_recursive_types(S)]
pub struct ExLruCache<K, V, S>(lru::LruCache<K, V, S>);

/// What the cache keeps of a series.
#[derive(Clone, Copy, Debug, PartialEq, Eq, Structural)]
pub struct CachedSeries {
    pub series_id: i64,
    /// The bits of the last cumulative value, if one was seen.
    pub last_cumulative: Option<u64>,
}

/// The entries of a cache, the one used last in front.
pub type Entries = Seq<(KeyView, CachedSeries)>;

/// The entries of a cache, the one used last in front.
pub uninterp spec fn cache_entries(c: Cache) -> Seq<(KeyView, CachedSeries)>;

/// How many entries a cache holds at most.
pub uninterp spec fn cache_capacity(c: Cache) -> nat;

/// Where a key stands among the entries, or -1.
pub open spec fn entry_index(es: Entries, key: KeyView) -> int
    decreases es.len(),
{
    if es.len() == 0 {
        -1
    } else if es.last().0 == key {
        es.len() - 1
    } else {
        entry_index(es.drop_last(), key)
    }
}

/// What the entries hold for a key.
pub open spec fn cached(es: Entries, key: KeyView) -> Option<CachedSeries> {
    let i = entry_index(es, key);
    if i < 0 {
        None
    } else {
        Some(es[i].1)
    }
}

/// The entries after a key was looked up: its entry is the one used last.
pub open spec fn touched(es: Entries, key: KeyView) -> Entries {
    let i = entry_index(es, key);
    if i < 0 {
        es
    } else {
        seq![es[i]] + es.remove(i)
    }
}

/// The entries after one was put in: it takes the place of an earlier one with
/// its key, or that of the one used least recently if there is no room.
pub open spec fn with_entry(es: Entries, capacity: nat, key: KeyView, value: CachedSeries) -> Entries {
    let i = entry_index(es, key);
    if i >= 0 {
        seq![(key, value)] + es.remove(i)
    } else if es.len() == capacity {
        seq![(key, value)] + es.drop_last()
    } else {
        seq![(key, value)] + es
    }
}

/// No key occurs twice.
pub open spec fn distinct(es: Entries) -> bool {
    forall|i: int, j: int|
        0 <= i < es.len() && 0 <= j < es.len() && i != j ==> (#[trigger] es[i]).0 != (#[trigger] es[j]).0
}

pub open spec fn cache_key_view(k: CacheKey) -> KeyView {
    KeyView { name: k.0@, kind: k.1@, resource: k.2@, attributes: k.3@ }
}

/// `lru::LruCache::new`: an empty cache with room for `capacity` entries.
#[verifier::external_body]
fn cache_new(capacity: usize) -> (c: Cache)
    requires
        0 < capacity <= CACHE_CAPACITY,
    ensures
        cache_entries(c) == Seq::<(KeyView, CachedSeries)>::empty(),
        cache_capacity(c) == capacity,
{
    lru::LruCache::new(std::num::NonZeroUsize::new(capacity).expect("capacity is not zero"))
}

/// `lru::LruCache::get`: what the cache holds for a key, whose entry then is
/// the one used last.
#[verifier::external_body]
fn cache_get(c: &mut Cache, key: &CacheKey) -> (r: Option<CachedSeries>)
    ensures
        r == cached(cache_entries(*old(c)), cache_key_view(*key)),
        cache_entries(*final(c)) == touched(cache_entries(*old(c)), cache_key_view(*key)),
        cache_capacity(*final(c)) == cache_capacity(*old(c)),
{
    c.get(key).map(|v| CachedSeries { series_id: v.0, last_cumulative: v.1 })
}

/// `lru::LruCache::put`: puts an entry in front. It replaces the entry of the
/// same key, or else, in a full cache, the one used least recently.
#[verifier::external_body]
fn cache_put(c: &mut Cache, key: CacheKey, value: CachedSeries)
    ensures
        cache_entries(*final(c)) == with_entry(
            cache_entries(*old(c)),
            cache_capacity(*old(c)),
            cache_key_view(key),
            value,
        ),
        cache_capacity(*final(c)) == cache_capacity(*old(c)),
{
    c.put(key, (value.series_id, value.last_cumulative));
}

/// The outcome of looking a series up.
pub enum Resolution {
    /// The cache knows the series.
    Known(i64),
    /// The store has to be asked. A new row for the series gets `candidate_id`.
    Unknown { key: SeriesKey, candidate_id: i64 },
}

/// The series that were used last.
pub struct SeriesCache {
    inner: Cache,
}

fn cache_key(key: &SeriesKey) -> (k: CacheKey)
    ensures
        cache_key_view(k) == key@,
{
    (
        key.name.clone(),
        key.kind.clone(),
        key.resource_canonical.clone(),
        key.attributes_canonical.clone(),
    )
}

impl SeriesCache {
    /// The series that the cache knows, the one used last in front.
    pub closed spec fn view(&self) -> Entries {
        cache_entries(self.inner)
    }

    /// How many series the cache keeps at most.
    pub closed spec fn capacity(&self) -> nat {
        cache_capacity(self.inner)
    }

    /// Each series is known once, and there is room for all of them.
    pub open spec fn well_formed(&self) -> bool {
        distinct(self@) && self@.len() <= self.capacity() && 0 < self.capacity()
    }

    /// An empty cache.
    pub fn new() -> (r: SeriesCache)
        ensures
            r.well_formed(),
            r@ == Seq::<(KeyView, CachedSeries)>::empty(),
            r.capacity() == CACHE_CAPACITY,
    {
        SeriesCache::with_capacity(CACHE_CAPACITY)
    }

    /// An empty cache that keeps at most `capacity` series.
    pub fn with_capacity(capacity: usize) -> (r: SeriesCache)
        requires
            0 < capacity <= CACHE_CAPACITY,
        ensures
            r.well_formed(),
            r@ == Seq::<(KeyView, CachedSeries)>::empty(),
            r.capacity() == capacity,
    {
        SeriesCache { inner: cache_new(capacity) }
    }

    /// What the cache holds for a key.
    pub fn get(&mut self, key: &SeriesKey) -> (r: Option<CachedSeries>)
        requires
            old(self).well_formed(),
        ensures
            final(self).well_formed(),
            final(self).capacity() == old(self).capacity(),
            r == cached(old(self)@, key@),
            final(self)@ == touched(old(self)@, key@),
    {
        let k = cache_key(key);
        proof {
            lemma_touched(self@, key@);
        }
        cache_get(&mut self.inner, &k)
    }

    /// The identifier of a series if the cache knows it, or else the key to ask
    /// the store for.
    pub fn resolve(&mut self, series: &Series) -> (r: Resolution)
        requires
            old(self).well_formed(),
        ensures
            final(self).well_formed(),
            final(self).capacity() == old(self).capacity(),
            final(self)@ == touched(old(self)@, series.spec_key()),
            match r {
                Resolution::Known(id) => cached(old(self)@, series.spec_key()) matches Some(c) && c.series_id == id,
                Resolution::Unknown { key, candidate_id } => cached(old(self)@, series.spec_key()) is None && key@
                    == series.spec_key() && candidate_id == series_id(series.spec_key()),
            },
    {
        let key = series.key();
        match self.get(&key) {
            Some(c) => Resolution::Known(c.series_id),
            None => {
                let candidate_id: i64 = hash_series_key(&key);
                Resolution::Unknown { key, candidate_id }
            },
        }
    }

    /// Keeps the identifier that the store has for a series, with no cumulative
    /// value yet.
    pub fn remember(&mut self, key: &SeriesKey, series_id: i64)
        requires
            old(self).well_formed(),
        ensures
            final(self).well_formed(),
            final(self).capacity() == old(self).capacity(),
            final(self)@ == with_entry(
                old(self)@,
                old(self).capacity(),
                key@,
                (CachedSeries { series_id, last_cumulative: None }),
            ),
    {
        let k = cache_key(key);
        let value = CachedSeries { series_id, last_cumulative: None };
        proof {
            lemma_with_entry(self@, self.capacity(), key@, value);
        }
        cache_put(&mut self.inner, k, value);
    }

    /// The last cumulative value of a series, which `new_value` replaces. Of a
    /// series that the cache does not know there is none, and none is kept.
    pub fn swap_cumulative(&mut self, key: &SeriesKey, new_value: u64) -> (r: Option<u64>)
        requires
            old(self).well_formed(),
        ensures
            final(self).well_formed(),
            final(self).capacity() == old(self).capacity(),
            r == last_cumulative(old(self)@, key@),
            final(self)@ == with_cumulative(old(self)@, key@, new_value),
    {
        let ghost before = self@;
        match self.get(key) {
            Some(c) => {
                let k = cache_key(key);
                let value = CachedSeries { series_id: c.series_id, last_cumulative: Some(new_value) };
                proof {
                    lemma_touched(before, key@);
                    lemma_entry_index(before, key@);
                    lemma_entry_index(self@, key@);
                    lemma_with_entry(self@, self.capacity(), key@, value);
                    assert(self@[0].0 == key@);
                    let i = entry_index(before, key@);
                    assert(self@.remove(0) =~= before.remove(i));
                }
                cache_put(&mut self.inner, k, value);
                c.last_cumulative
            },
            None => None,
        }
    }
}

/// The last cumulative value that the entries hold for a key.
pub open spec fn last_cumulative(es: Entries, key: KeyView) -> Option<u64> {
    match cached(es, key) {
        Some(c) => c.last_cumulative,
        None => None,
    }
}

/// The entries after a cumulative value was seen: the entry of the key, if
/// there is one, has it and is the one used last.
pub open spec fn with_cumulative(es: Entries, key: KeyView, value: u64) -> Entries {
    let i = entry_index(es, key);
    if i < 0 {
        es
    } else {
        seq![(key, CachedSeries { series_id: es[i].1.series_id, last_cumulative: Some(value) })] + es.remove(i)
    }
}

// ---------------------------------------------------------------------------
// Laws
// ---------------------------------------------------------------------------

proof fn lemma_entry_index(es: Entries, key: KeyView)
    ensures
        -1 <= entry_index(es, key) < es.len(),
        entry_index(es, key) >= 0 ==> es[entry_index(es, key)].0 == key,
        forall|j: int| entry_index(es, key) < j < es.len() ==> (#[trigger] es[j]).0 != key,
    decreases es.len(),
{
    if es.len() > 0 && es.last().0 != key {
        lemma_entry_index(es.drop_last(), key);
        assert forall|j: int| entry_index(es, key) < j < es.len() implies (#[trigger] es[j]).0 != key by {
            if j < es.len() - 1 {
                assert(es.drop_last()[j] == es[j]);
            }
        }
    }
}

/// Where keys are distinct, the one place of a key is the one that has it.
proof fn lemma_entry_at(es: Entries, key: KeyView, i: int)
    requires
        distinct(es),
        0 <= i < es.len(),
        es[i].0 == key,
    ensures
        entry_index(es, key) == i,
{
    lemma_entry_index(es, key);
}

proof fn lemma_touched(es: Entries, key: KeyView)
    requires
        distinct(es),
    ensures
        touched(es, key).len() == es.len(),
        distinct(touched(es, key)),
        forall|k: KeyView| #[trigger] cached(touched(es, key), k) == cached(es, k),
{
    lemma_entry_index(es, key);
    let i = entry_index(es, key);
    let r = touched(es, key);
    if i >= 0 {
        lemma_front(es.remove(i), es[i], key);
        assert forall|k: KeyView| #[trigger] cached(r, k) == cached(es, k) by {
            lemma_moved(es, i, es[i].1, k);
        }
    }
}

/// Putting an entry in front of others that do not have its key keeps keys
/// distinct.
proof fn lemma_front(rest: Entries, e: (KeyView, CachedSeries), key: KeyView)
    requires
        distinct(rest),
        e.0 == key,
        forall|j: int| 0 <= j < rest.len() ==> (#[trigger] rest[j]).0 != key,
    ensures
        distinct(seq![e] + rest),
{
    let r = seq![e] + rest;
    assert forall|i: int, j: int| 0 <= i < r.len() && 0 <= j < r.len() && i != j implies (#[trigger] r[i]).0 != (
    #[trigger] r[j]).0 by {
        if i > 0 && j > 0 {
            assert(r[i] == rest[i - 1] && r[j] == rest[j - 1]);
        } else if i > 0 {
            assert(r[i] == rest[i - 1]);
        } else {
            assert(r[j] == rest[j - 1]);
        }
    }
}

/// Moving the entry of a key to the front, with a value, changes what is held
/// for that key alone.
proof fn lemma_moved(es: Entries, i: int, value: CachedSeries, k: KeyView)
    requires
        distinct(es),
        0 <= i < es.len(),
    ensures
        cached(seq![(es[i].0, value)] + es.remove(i), k) == (if k == es[i].0 {
            Some(value)
        } else {
            cached(es, k)
        }),
{
    let rest = es.remove(i);
    let r = seq![(es[i].0, value)] + rest;
    assert forall|a: int, b: int| 0 <= a < rest.len() && 0 <= b < rest.len() && a != b implies (#[trigger] rest[a]).0
        != (#[trigger] rest[b]).0 by {
        let a2 = if a < i {
            a
        } else {
            a + 1
        };
        let b2 = if b < i {
            b
        } else {
            b + 1
        };
        assert(rest[a] == es[a2] && rest[b] == es[b2]);
    }
    assert forall|a: int| 0 <= a < rest.len() implies (#[trigger] rest[a]).0 != es[i].0 by {
        let a2 = if a < i {
            a
        } else {
            a + 1
        };
        assert(rest[a] == es[a2]);
    }
    lemma_front(rest, (es[i].0, value), es[i].0);
    lemma_entry_index(es, k);
    lemma_entry_index(r, k);
    if k == es[i].0 {
        lemma_entry_at(r, k, 0);
    } else {
        let j = entry_index(es, k);
        if j >= 0 {
            let j2 = if j < i {
                j + 1
            } else {
                j
            };
            assert(r[j2] == es[j]);
            lemma_entry_at(r, k, j2);
        } else {
            let q = entry_index(r, k);
            if q >= 0 {
                assert(q > 0);
                let q2 = if q - 1 < i {
                    q - 1
                } else {
                    q
                };
                assert(r[q] == es[q2]);
            }
        }
    }
}

proof fn lemma_with_entry(es: Entries, capacity: nat, key: KeyView, value: CachedSeries)
    requires
        distinct(es),
        es.len() <= capacity,
        0 < capacity,
    ensures
        with_entry(es, capacity, key, value).len() <= capacity,
        distinct(with_entry(es, capacity, key, value)),
{
    lemma_entry_index(es, key);
    let i = entry_index(es, key);
    if i >= 0 {
        let rest = es.remove(i);
        assert forall|a: int, b: int| 0 <= a < rest.len() && 0 <= b < rest.len() && a != b implies (
        #[trigger] rest[a]).0 != (#[trigger] rest[b]).0 by {
            let a2 = if a < i {
                a
            } else {
                a + 1
            };
            let b2 = if b < i {
                b
            } else {
                b + 1
            };
            assert(rest[a] == es[a2] && rest[b] == es[b2]);
        }
        assert forall|a: int| 0 <= a < rest.len() implies (#[trigger] rest[a]).0 != key by {
            let a2 = if a < i {
                a
            } else {
                a + 1
            };
            assert(rest[a] == es[a2]);
        }
        lemma_front(rest, (key, value), key);
    } else {
        let rest = if es.len() == capacity {
            es.drop_last()
        } else {
            es
        };
        assert forall|a: int, b: int| 0 <= a < rest.len() && 0 <= b < rest.len() && a != b implies (
        #[trigger] rest[a]).0 != (#[trigger] rest[b]).0 by {
            assert(rest[a] == es[a] && rest[b] == es[b]);
        }
        assert forall|a: int| 0 <= a < rest.len() implies (#[trigger] rest[a]).0 != key by {
            assert(rest[a] == es[a]);
        }
        lemma_front(rest, (key, value), key);
    }
}

/// Looking a series up changes what is known of none.
pub proof fn law_lookup_keeps_all(es: Entries, key: KeyView, k: KeyView)
    requires
        distinct(es),
    ensures
        cached(touched(es, key), k) == cached(es, k),
{
    lemma_touched(es, key);
}

/// What was remembered is known. Every other series stays known as it was,
/// except that a full cache forgets the one used least recently for a new one.
pub proof fn law_remembered_is_known(es: Entries, capacity: nat, key: KeyView, value: CachedSeries, k: KeyView)
    requires
        distinct(es),
        es.len() <= capacity,
        0 < capacity,
    ensures
        cached(with_entry(es, capacity, key, value), key) == Some(value),
        k != key && !(cached(es, key) is None && es.len() == capacity && k == es.last().0) ==> cached(
            with_entry(es, capacity, key, value),
            k,
        ) == cached(es, k),
{
    let r = with_entry(es, capacity, key, value);
    lemma_with_entry(es, capacity, key, value);
    lemma_entry_at(r, key, 0);
    lemma_entry_index(es, key);
    let i = entry_index(es, key);
    if i >= 0 {
        lemma_moved(es, i, value, k);
    } else if k != key {
        lemma_entry_index(es, k);
        lemma_entry_index(r, k);
        let j = entry_index(es, k);
        let q = entry_index(r, k);
        if q >= 0 {
            assert(r[q] == es[q - 1]);
        }
        if j >= 0 && !(es.len() == capacity && k == es.last().0) {
            assert(j < es.len() - 1 || es.len() < capacity) by {
                if j == es.len() - 1 && es.len() == capacity {
                    assert(es.last().0 == k);
                }
            }
            assert(r[j + 1] == es[j]);
            lemma_entry_at(r, k, j + 1);
        }
    }
}

/// A cumulative value that was put in comes back, the identifier of the series
/// stays, and other series are not concerned.
pub proof fn law_swapped_value_comes_back(es: Entries, key: KeyView, value: u64, k: KeyView)
    requires
        distinct(es),
        cached(es, key) is Some,
    ensures
        last_cumulative(with_cumulative(es, key, value), key) == Some(value),
        cached(with_cumulative(es, key, value), key)->0.series_id == cached(es, key)->0.series_id,
        k != key ==> cached(with_cumulative(es, key, value), k) == cached(es, k),
{
    lemma_entry_index(es, key);
    let i = entry_index(es, key);
    let entry = CachedSeries { series_id: es[i].1.series_id, last_cumulative: Some(value) };
    lemma_moved(es, i, entry, key);
    lemma_moved(es, i, entry, k);
}

} // verus!
