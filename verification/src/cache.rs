//! A bounded, recency-ordered snapshot cache: discrete time keys map to
//! previously computed snapshot payloads, a hit refreshes recency, and an
//! insertion into a full cache evicts exactly the least recently used
//! entry. The recency list itself is the `lru` crate's; its behaviour is
//! modelled as a sequence of entries, most recently used first. A capacity
//! of zero disables the cache: every lookup misses and nothing is kept.

use vstd::prelude::*;
use crate::time::Timestamp;

verus! {

/// A snapshot key: the discrete instant a snapshot describes, as plain
/// seconds and nanoseconds. Equality is exact; nearby instants are
/// distinct keys.
pub type SnapKey = (i64, u32);

/// The key a timestamp names.
pub open spec fn key_of(t: Timestamp) -> SnapKey {
    (t.secs, t.nanos)
}

#[verifier::external_type_specification]
#[verifier::external_body]
#[verifier::reject_recursive_types(K)]
#[verifier::reject_recursive_types(V)]
#[verifier::reject_recursive_types(S)]
pub struct ExLruCache<K, V, S>(lru::LruCache<K, V, S>);

/// The cache instantiation the snapshot cache keeps: plain tuple keys,
/// string payloads, and the standard library's hasher.
pub type SnapLru = lru::LruCache<SnapKey, String, std::collections::hash_map::RandomState>;

/// What the cache holds, most recently used first.
pub uninterp spec fn lru_entries(c: SnapLru) -> Seq<(SnapKey, Seq<char>)>;

/// The fixed capacity the cache was created with.
pub uninterp spec fn lru_cap(c: SnapLru) -> nat;

/// No key occurs twice.
pub open spec fn distinct_keys(s: Seq<(SnapKey, Seq<char>)>) -> bool {
    forall|i: int, j: int| 0 <= i < j < s.len() ==> s[i].0 != s[j].0
}

/// Index of the first entry for `k`, or a negative number when absent.
pub open spec fn find_key(s: Seq<(SnapKey, Seq<char>)>, k: SnapKey) -> int
    decreases s.len(),
{
    if s.len() == 0 {
        -1
    } else if s[0].0 == k {
        0
    } else {
        if find_key(s.drop_first(), k) < 0 {
            -1
        } else {
            find_key(s.drop_first(), k) + 1
        }
    }
}

/// Whether some entry carries `k`.
pub open spec fn has_key(s: Seq<(SnapKey, Seq<char>)>, k: SnapKey) -> bool {
    find_key(s, k) >= 0
}

/// The payload stored under `k`, if any.
pub open spec fn lookup(s: Seq<(SnapKey, Seq<char>)>, k: SnapKey) -> Option<Seq<char>> {
    if find_key(s, k) >= 0 {
        Some(s[find_key(s, k)].1)
    } else {
        None
    }
}

/// A hit's recency refresh: the entry for `k` moves to the front; a miss
/// changes nothing.
pub open spec fn bump(s: Seq<(SnapKey, Seq<char>)>, k: SnapKey) -> Seq<(SnapKey, Seq<char>)> {
    if find_key(s, k) >= 0 {
        seq![s[find_key(s, k)]] + s.remove(find_key(s, k))
    } else {
        s
    }
}

/// An insertion under capacity `cap`: an existing entry for `k` is
/// replaced and moved to the front; otherwise the new entry takes the
/// front, evicting the least recently used entry when the cache is full.
pub open spec fn after_put(
    s: Seq<(SnapKey, Seq<char>)>,
    k: SnapKey,
    v: Seq<char>,
    cap: nat,
) -> Seq<(SnapKey, Seq<char>)> {
    if find_key(s, k) >= 0 {
        seq![(k, v)] + s.remove(find_key(s, k))
    } else if s.len() < cap {
        seq![(k, v)] + s
    } else {
        seq![(k, v)] + s.drop_last()
    }
}

pub proof fn lemma_find_key(s: Seq<(SnapKey, Seq<char>)>, k: SnapKey)
    ensures
        find_key(s, k) >= 0 ==> 0 <= find_key(s, k) < s.len() && s[find_key(s, k)].0 == k,
        find_key(s, k) < 0 ==> forall|i: int| 0 <= i < s.len() ==> s[i].0 != k,
    decreases s.len(),
{
    if s.len() == 0 {
    } else if s[0].0 == k {
    } else {
        lemma_find_key(s.drop_first(), k);
        let r = find_key(s.drop_first(), k);
        if r >= 0 {
            assert(s.drop_first()[r] == s[r + 1]);
        } else {
            assert forall|i: int| 0 <= i < s.len() implies s[i].0 != k by {
                if i >= 1 {
                    assert(s.drop_first()[i - 1] == s[i]);
                }
            }
        }
    }
}

/// An entry list stays well formed across an insertion: keys stay
/// distinct and the length stays within the capacity.
pub proof fn lemma_after_put_wf(s: Seq<(SnapKey, Seq<char>)>, k: SnapKey, v: Seq<char>, cap: nat)
    requires
        distinct_keys(s),
        s.len() <= cap,
        cap >= 1,
    ensures
        distinct_keys(after_put(s, k, v, cap)),
        after_put(s, k, v, cap).len() <= cap,
        after_put(s, k, v, cap)[0] == (k, v),
{
    lemma_find_key(s, k);
    let s2 = after_put(s, k, v, cap);
    let f = find_key(s, k);
    if f >= 0 {
        let rest = s.remove(f);
        assert(forall|i: int| 0 <= i < rest.len() ==> rest[i] == (if i < f {
            s[i]
        } else {
            s[i + 1]
        }));
        assert(forall|i: int| 0 <= i < rest.len() ==> rest[i].0 != k);
        assert(forall|i: int, j: int| 0 <= i < j < rest.len() ==> rest[i].0 != rest[j].0);
        assert(distinct_keys(s2));
    } else if s.len() < cap {
        assert(forall|i: int| 0 <= i < s.len() ==> s2[i + 1] == s[i]);
        assert(distinct_keys(s2));
    } else {
        let rest = s.drop_last();
        assert(forall|i: int| 0 <= i < rest.len() ==> rest[i] == s[i]);
        assert(distinct_keys(s2));
    }
}

/// A recency refresh keeps the entry list well formed and its contents.
pub proof fn lemma_bump_wf(s: Seq<(SnapKey, Seq<char>)>, k: SnapKey)
    requires
        distinct_keys(s),
    ensures
        distinct_keys(bump(s, k)),
        bump(s, k).len() == s.len(),
        has_key(s, k) ==> bump(s, k)[0].0 == k && bump(s, k)[0].1 == lookup(s, k)->0,
{
    lemma_find_key(s, k);
    let f = find_key(s, k);
    if f >= 0 {
        let rest = s.remove(f);
        assert(forall|i: int| 0 <= i < rest.len() ==> rest[i] == (if i < f {
            s[i]
        } else {
            s[i + 1]
        }));
        assert(forall|i: int| 0 <= i < rest.len() ==> rest[i].0 != k);
        assert(forall|i: int, j: int| 0 <= i < j < rest.len() ==> rest[i].0 != rest[j].0);
        assert(distinct_keys(bump(s, k)));
    }
}

/// Relies on `lru::LruCache::with_hasher` (`new` with the hasher made
/// explicit): an empty cache with the given capacity.
#[verifier::external_body]
fn lru_new(cap: usize) -> (c: SnapLru)
    requires
        1 <= cap,
    ensures
        lru_entries(c) == Seq::<(SnapKey, Seq<char>)>::empty(),
        lru_cap(c) == cap as nat,
{
    lru::LruCache::with_hasher(
        std::num::NonZeroUsize::new(cap).unwrap(),
        std::collections::hash_map::RandomState::new(),
    )
}

/// Relies on `lru::LruCache::put`: an existing key's entry is updated and
/// moved to the head, returning the old value; otherwise the new entry
/// takes the head and, at capacity, the tail entry is evicted.
#[verifier::external_body]
fn lru_put(c: &mut SnapLru, k: SnapKey, v: String) -> (r: Option<String>)
    ensures
        lru_cap(*final(c)) == lru_cap(*old(c)),
        lru_entries(*final(c)) == after_put(lru_entries(*old(c)), k, v@, lru_cap(*old(c))),
        r is Some <==> has_key(lru_entries(*old(c)), k),
        r matches Some(x) ==> Some(x@) == lookup(lru_entries(*old(c)), k),
{
    c.put(k, v)
}

/// Relies on `lru::LruCache::get`: a hit returns the stored value and
/// moves its entry to the head; a miss changes nothing.
#[verifier::external_body]
fn lru_get(c: &mut SnapLru, k: &SnapKey) -> (r: Option<String>)
    ensures
        lru_cap(*final(c)) == lru_cap(*old(c)),
        lru_entries(*final(c)) == bump(lru_entries(*old(c)), *k),
        r is Some <==> has_key(lru_entries(*old(c)), *k),
        r matches Some(x) ==> Some(x@) == lookup(lru_entries(*old(c)), *k),
{
    c.get(k).cloned()
}

/// The bounded snapshot cache. Entries are modelled most recently used
/// first; a capacity of zero disables caching entirely (every lookup
/// misses, insertions are dropped), which only costs recomputation.
///
/// The cache itself is sequential; concurrent callers share it behind
/// one lock and keep the lock only for these bookkeeping calls, never
/// for the snapshot computation itself.
pub struct SnapshotCache {
    cap: usize,
    inner: Option<SnapLru>,
}

impl SnapshotCache {
    /// The entries, most recently used first.
    pub closed spec fn entries(self) -> Seq<(SnapKey, Seq<char>)> {
        match self.inner {
            Some(c) => lru_entries(c),
            None => Seq::empty(),
        }
    }

    /// The fixed capacity given at construction.
    pub closed spec fn capacity(self) -> nat {
        self.cap as nat
    }

    /// Whether caching is enabled at all.
    pub open spec fn enabled(self) -> bool {
        self.capacity() > 0
    }

    /// Keys are distinct and the entry count never exceeds the capacity.
    pub closed spec fn wf(self) -> bool {
        &&& match self.inner {
            Some(c) => lru_cap(c) == self.cap as nat && self.cap >= 1,
            None => self.cap == 0,
        }
        &&& self.entries().len() <= self.capacity()
        &&& distinct_keys(self.entries())
    }

    /// An empty cache of the given capacity; zero disables caching.
    pub fn new(cap: usize) -> (c: SnapshotCache)
        ensures
            c.wf(),
            c.capacity() == cap as nat,
            c.entries() == Seq::<(SnapKey, Seq<char>)>::empty(),
    {
        if cap == 0 {
            SnapshotCache { cap, inner: None }
        } else {
            SnapshotCache { cap, inner: Some(lru_new(cap)) }
        }
    }

    /// Looks a key up; a hit returns the stored payload and refreshes the
    /// entry's recency.
    pub fn get(&mut self, k: &Timestamp) -> (r: Option<String>)
        requires
            old(self).wf(),
        ensures
            final(self).wf(),
            final(self).capacity() == old(self).capacity(),
            final(self).entries() == bump(old(self).entries(), key_of(*k)),
            r is Some <==> has_key(old(self).entries(), key_of(*k)),
            r matches Some(v) ==> Some(v@) == lookup(old(self).entries(), key_of(*k)),
    {
        proof {
            lemma_bump_wf(old(self).entries(), key_of(*k));
        }
        match &mut self.inner {
            Some(c) => lru_get(c, &(k.secs, k.nanos)),
            None => None,
        }
    }

    /// Stores a payload under a key: the entry takes the front of the
    /// recency order, evicting the least recently used entry when the
    /// cache is full. With caching disabled nothing is kept.
    pub fn insert(&mut self, k: &Timestamp, v: String)
        requires
            old(self).wf(),
        ensures
            final(self).wf(),
            final(self).capacity() == old(self).capacity(),
            old(self).enabled() ==> final(self).entries() == after_put(
                old(self).entries(),
                key_of(*k),
                v@,
                old(self).capacity(),
            ),
            !old(self).enabled() ==> final(self).entries() == old(self).entries(),
    {
        proof {
            if old(self).enabled() {
                lemma_after_put_wf(
                    old(self).entries(),
                    key_of(*k),
                    v@,
                    old(self).capacity(),
                );
            }
        }
        match &mut self.inner {
            Some(c) => {
                let _ = lru_put(c, (k.secs, k.nanos), v);
            },
            None => {},
        }
    }

    /// Returns the cached payload for `k`, or computes, stores and
    /// returns a fresh one. A hit refreshes recency and never invokes
    /// the computation; on a miss the result is exactly what the
    /// computation produced, and a failed computation is never cached —
    /// the next caller for the key computes again.
    pub fn get_or_insert<F, E>(&mut self, k: &Timestamp, compute: F) -> (r: Result<String, E>) where
        F: FnOnce() -> Result<String, E>,

        requires
            old(self).wf(),
            call_requires(compute, ()),
        ensures
            final(self).wf(),
            final(self).capacity() == old(self).capacity(),
            has_key(old(self).entries(), key_of(*k)) ==> (r matches Ok(v) && Some(v@) == lookup(
                old(self).entries(),
                key_of(*k),
            ) && final(self).entries() == bump(old(self).entries(), key_of(*k))),
            !has_key(old(self).entries(), key_of(*k)) ==> call_ensures(compute, (), r) && (
            match r {
                Ok(v) => (old(self).enabled() ==> final(self).entries() == after_put(
                    old(self).entries(),
                    key_of(*k),
                    v@,
                    old(self).capacity(),
                )) && (!old(self).enabled() ==> final(self).entries() == old(self).entries()),
                Err(_) => final(self).entries() == old(self).entries(),
            }),
    {
        let hit = self.get(k);
        match hit {
            Some(v) => Ok(v),
            None => {
                proof {
                    lemma_find_key(old(self).entries(), key_of(*k));
                }
                match compute() {
                    Ok(v) => {
                        let stored = v.clone();
                        self.insert(k, stored);
                        Ok(v)
                    },
                    Err(e) => Err(e),
                }
            },
        }
    }
}

/// A computed snapshot is found again: after an insertion of `v` under a
/// missing key `k`, looking `k` up yields exactly `v` — a subsequent
/// `get` returns the stored payload with no recomputation.
pub proof fn lemma_cached_after_insert(
    s: Seq<(SnapKey, Seq<char>)>,
    k: SnapKey,
    v: Seq<char>,
    cap: nat,
)
    requires
        distinct_keys(s),
        s.len() <= cap,
        cap >= 1,
    ensures
        lookup(after_put(s, k, v, cap), k) == Some(v),
{
    lemma_after_put_wf(s, k, v, cap);
    let s2 = after_put(s, k, v, cap);
    assert(s2[0] == (k, v));
    assert(find_key(s2, k) == 0);
}

/// A full cache evicts exactly its least recently used entry when a new
/// key arrives: the tail key is gone, every other key survives, and the
/// new key is present.
pub proof fn lemma_lru_eviction(s: Seq<(SnapKey, Seq<char>)>, k: SnapKey, v: Seq<char>, cap: nat)
    requires
        distinct_keys(s),
        s.len() == cap,
        cap >= 1,
        !has_key(s, k),
    ensures
        !has_key(after_put(s, k, v, cap), s.last().0),
        forall|i: int| 0 <= i < s.len() - 1 ==> has_key(after_put(s, k, v, cap), s[i].0),
        has_key(after_put(s, k, v, cap), k),
{
    lemma_find_key(s, k);
    let s2 = after_put(s, k, v, cap);
    assert(s2 =~= seq![(k, v)] + s.drop_last());
    assert(s2[0] == (k, v));
    assert(find_key(s2, k) == 0);
    lemma_find_key(s2, s.last().0);
    assert forall|i: int| 0 <= i < s.len() - 1 implies has_key(s2, s[i].0) by {
        assert(s2[i + 1] == s[i]);
        lemma_find_key(s2, s[i].0);
    }
    if has_key(s2, s.last().0) {
        let f = find_key(s2, s.last().0);
        assert(s2[f].0 == s.last().0);
        if f == 0 {
            assert(k == s.last().0);
            assert(s[s.len() - 1].0 == k);
        } else {
            assert(s2[f] == s[f - 1]);
            assert(s[f - 1].0 == s.last().0);
            assert(s[f - 1].0 == s[s.len() - 1].0);
        }
        assert(false);
    }
}

/// A hit protects an entry from the next eviction: after a lookup of
/// `k2` refreshes its recency, inserting a fresh key into a full cache
/// of at least two entries evicts some other entry, never `k2`.
pub proof fn lemma_recency_refresh(
    s: Seq<(SnapKey, Seq<char>)>,
    k2: SnapKey,
    k: SnapKey,
    v: Seq<char>,
    cap: nat,
)
    requires
        distinct_keys(s),
        s.len() == cap,
        cap >= 2,
        has_key(s, k2),
        !has_key(s, k),
    ensures
        has_key(after_put(bump(s, k2), k, v, cap), k2),
{
    lemma_find_key(s, k2);
    lemma_find_key(s, k);
    lemma_bump_wf(s, k2);
    let b = bump(s, k2);
    assert(b[0].0 == k2);
    if has_key(b, k) {
        lemma_find_key(b, k);
        let f = find_key(b, k);
        assert(b[f].0 == k);
        if f == 0 {
            assert(k == k2);
            assert(s[find_key(s, k2)].0 == k);
            assert(false);
        } else {
            let rest = s.remove(find_key(s, k2));
            assert(b[f] == rest[f - 1]);
            assert(forall|i: int| 0 <= i < rest.len() ==> rest[i] == (if i < find_key(s, k2) {
                s[i]
            } else {
                s[i + 1]
            }));
            assert(false);
        }
    }
    let s2 = after_put(b, k, v, cap);
    assert(s2 =~= seq![(k, v)] + b.drop_last());
    assert(s2[1] == b.drop_last()[0]);
    assert(b.drop_last()[0] == b[0]);
    assert(s2[1].0 == k2);
    lemma_find_key(s2, k2);
    if find_key(s2, k2) < 0 {
        assert(s2[1].0 != k2);
        assert(false);
    }
}

} // verus!
