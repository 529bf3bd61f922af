//! The single-threaded cache: a store of entries and a list of expiration
//! candidates.

use std::collections::HashMap;
use std::hash::Hash;
use std::time::Instant;
use vstd::prelude::*;
use vstd::std_specs::hash::obeys_key_model;

use crate::expiration::{key_expired, Entry, ExpireMeta, Expiration, RetryThreshold};
use crate::outside::{clock_now, nanos_since, sample_indices};
use crate::sweep::{
    compact, lemma_compact_by_key, lemma_compact_counts, lemma_compact_len, lemma_full_sample, thinned,
    lemma_marks_against_samples,
    compact_prefix,
};

verus! {

/// The value that the store holds for `k`, if any.
pub open spec fn value_of<K, V>(store: Map<K, Entry<V>>, k: K) -> Option<V> {
    if store.contains_key(k) {
        Some(store[k].value)
    } else {
        None
    }
}

/// The positions of `cands` that a pass sampling `samples` marks for removal:
/// sampled, and holding a key that is expired for the store.
pub open spec fn pass_marks<K, V>(
    cands: Seq<K>,
    samples: Seq<usize>,
    store: Map<K, Entry<V>>,
    now: int,
) -> Seq<bool> {
    Seq::new(
        cands.len(),
        |i: int| samples.contains(i as usize) && key_expired(store, cands[i], now),
    )
}

/// The keys held at the marked positions.
pub open spec fn marked_keys<K>(cands: Seq<K>, marks: Seq<bool>) -> Set<K> {
    Set::new(|k: K| exists|i: int| 0 <= i < cands.len() && marks[i] && cands[i] == k)
}

/// What a vacuum with sample size `count` at time `now` leaves of a store and
/// candidate list, whatever the sampler draws:
/// entries only leave, and only expired entries named by a candidate do;
/// live keys keep every candidate position and expired ones may lose some,
/// a position going only with its key's entry; a sample size of zero, or an
/// empty list, changes nothing; a list of expired keys ends empty; and a
/// sample size that covers the list removes exactly the expired candidates
/// and their entries.
pub open spec fn vacuumed<K, V>(
    old_store: Map<K, Entry<V>>,
    old_cands: Seq<K>,
    new_store: Map<K, Entry<V>>,
    new_cands: Seq<K>,
    count: int,
    now: int,
) -> bool {
    &&& forall|k: K| #[trigger]
        new_store.contains_key(k) ==> old_store.contains_key(k) && new_store[k] == old_store[k]
    &&& forall|k: K|
        old_store.contains_key(k) && !key_expired(old_store, k, now) ==> #[trigger] new_store.contains_key(k)
    &&& forall|k: K| #[trigger]
        old_store.contains_key(k) && !new_store.contains_key(k) ==> old_cands.contains(k)
    &&& thinned(old_cands, new_cands, |k: K| key_expired(old_store, k, now))
    &&& forall|k: K| #[trigger]
        new_cands.to_multiset().count(k) < old_cands.to_multiset().count(k) ==> !new_store.contains_key(k)
    &&& (count == 0 || old_cands.len() == 0) ==> new_store == old_store && new_cands == old_cands
    &&& (count > 0 && forall|i: int| 0 <= i < old_cands.len() ==> key_expired(old_store, old_cands[i], now))
        ==> new_cands.len() == 0
    &&& count >= old_cands.len() ==> new_cands == old_cands.filter(|k: K| !key_expired(old_store, k, now))
    &&& count >= old_cands.len() ==> new_store == old_store.remove_keys(
        Set::new(|k: K| old_cands.contains(k) && key_expired(old_store, k, now)),
    )
}

/// Whether `key` is expired in `store` at time `now`.
pub fn expired_in<K: Hash + Eq, V>(store: &HashMap<K, Entry<V>>, key: &K, now: u128) -> (r: bool)
    requires
        obeys_key_model::<K>(),
    ensures
        r == key_expired(store@, *key, now as int),
{
    match store.get(key) {
        Some(e) => e.expires.expired_at(now),
        None => true,
    }
}

/// Stores `value` under `key` with the expiration state `expires`, and
/// returns the value it replaces.
pub fn store_entry<K: Hash + Eq, V>(
    store: &mut HashMap<K, Entry<V>>,
    key: K,
    value: V,
    expires: ExpireMeta,
) -> (r: Option<V>)
    requires
        obeys_key_model::<K>(),
    ensures
        final(store)@ == old(store)@.insert(key, (Entry { value, expires })),
        r == value_of(old(store)@, key),
{
    match store.insert(key, Entry { value, expires }) {
        Some(e) => Some(e.value),
        None => None,
    }
}

/// Calls `f` with the value stored under `key` where that entry is live at
/// time `now`, and says whether it did.
pub fn visit_live<K: Hash + Eq, V, F: Fn(&V)>(
    store: &HashMap<K, Entry<V>>,
    key: &K,
    now: u128,
    f: F,
) -> (r: bool)
    requires
        obeys_key_model::<K>(),
        forall|v: &V| f.requires((v,)),
    ensures
        r == !key_expired(store@, *key, now as int),
        r ==> f.ensures((&store@[*key].value,), ()),
{
    match store.get(key) {
        Some(e) => {
            if e.expires.expired_at(now) {
                false
            } else {
                f(&e.value);
                true
            }
        },
        None => false,
    }
}

/// Checks `key` at time `now` and, where it is expired, removes its entry, as
/// one step on the store.
pub fn remove_if_expired<K: Hash + Eq, V>(store: &mut HashMap<K, Entry<V>>, key: &K, now: u128) -> (r:
    bool)
    requires
        obeys_key_model::<K>(),
    ensures
        r == key_expired(old(store)@, *key, now as int),
        final(store)@ == if r {
            old(store)@.remove(*key)
        } else {
            old(store)@
        },
{
    let expired = expired_in(store, key, now);
    if expired {
        store.remove(key);
    }
    expired
}

/// A cache backed by a hash map, with a list of the keys stored with a
/// time-to-live. The list may repeat a key, and may name keys that the store
/// no longer holds.
pub struct HashCache<K: Hash + Eq + Copy, V> {
    store: HashMap<K, Entry<V>>,
    expiring: Vec<K>,
    epoch: Instant,
}

impl<K: Hash + Eq + Copy, V> HashCache<K, V> {
    /// The entries of the store.
    pub closed spec fn store_view(&self) -> Map<K, Entry<V>> {
        self.store@
    }

    /// The expiration candidates, in order.
    pub closed spec fn candidates(&self) -> Seq<K> {
        self.expiring@
    }

    /// An empty cache, whose clock starts now.
    pub fn new() -> (r: HashCache<K, V>)
        ensures
            r.store_view() == Map::<K, Entry<V>>::empty(),
            r.candidates() == Seq::<K>::empty(),
    {
        HashCache { store: HashMap::new(), expiring: Vec::new(), epoch: clock_now() }
    }

    /// Nanoseconds since this cache was made.
    pub fn now(&self) -> u128 {
        nanos_since(&self.epoch)
    }

    /// Whether `key` is expired at time `now`; a key without an entry is.
    pub fn expired_at(&self, key: &K, now: u128) -> (r: bool)
        requires
            obeys_key_model::<K>(),
        ensures
            r == key_expired(self.store_view(), *key, now as int),
    {
        expired_in(&self.store, key, now)
    }

    /// Whether `key` is expired at the clock's current reading.
    pub fn expired(&self, key: &K) -> (r: bool)
        requires
            obeys_key_model::<K>(),
        ensures
            !self.store_view().contains_key(*key) ==> r,
            self.store_view().contains_key(*key) && self.store_view()[*key].expires
                == ExpireMeta::Persistent ==> !r,
    {
        let now = self.now();
        self.expired_at(key, now)
    }

    /// Stores `value` under `key` with no expiration, and returns the value it
    /// replaces. The candidate list is left as it is.
    pub fn insert(&mut self, key: K, value: V) -> (r: Option<V>)
        requires
            obeys_key_model::<K>(),
        ensures
            final(self).store_view() == old(self).store_view().insert(
                key,
                (Entry { value, expires: ExpireMeta::Persistent }),
            ),
            final(self).candidates() == old(self).candidates(),
            r == value_of(old(self).store_view(), key),
    {
        store_entry(&mut self.store, key, value, ExpireMeta::Persistent)
    }

    /// Appends `key` to the candidate list, stores `value` under it to expire
    /// `ttl` nanoseconds after `now`, and returns the value it replaces.
    pub fn insert_ttl_at(&mut self, key: K, value: V, ttl: u128, now: u128) -> (r: Option<V>)
        requires
            obeys_key_model::<K>(),
        ensures
            final(self).store_view() == old(self).store_view().insert(
                key,
                (Entry { value, expires: ExpireMeta::Expires(Expiration { inserted: now, ttl }) }),
            ),
            final(self).candidates() == old(self).candidates().push(key),
            r == value_of(old(self).store_view(), key),
    {
        self.expiring.push(key);
        store_entry(&mut self.store, key, value, ExpireMeta::Expires(Expiration { inserted: now, ttl }))
    }

    /// `insert_ttl_at` at the clock's current reading.
    pub fn insert_ttl(&mut self, key: K, value: V, ttl: u128) -> (r: Option<V>)
        requires
            obeys_key_model::<K>(),
        ensures
            exists|t: u128|
                final(self).store_view() == old(self).store_view().insert(
                    key,
                    (Entry { value, expires: ExpireMeta::Expires(Expiration { inserted: t, ttl }) }),
                ),
            final(self).candidates() == old(self).candidates().push(key),
            r == value_of(old(self).store_view(), key),
    {
        let now = self.now();
        self.insert_ttl_at(key, value, ttl, now)
    }

    /// Looks `key` up at time `now`. A missing or expired key is a miss: its
    /// entry, if any, leaves the store and `f` is not called. On a hit `f` is
    /// called with the stored value. The candidate list is left as it is.
    pub fn get_at<F: Fn(&V)>(&mut self, key: K, now: u128, f: F) -> (r: bool)
        requires
            obeys_key_model::<K>(),
            forall|v: &V| f.requires((v,)),
        ensures
            r == !key_expired(old(self).store_view(), key, now as int),
            r ==> final(self).store_view() == old(self).store_view(),
            r ==> f.ensures((&old(self).store_view()[key].value,), ()),
            !r ==> final(self).store_view() == old(self).store_view().remove(key),
            final(self).candidates() == old(self).candidates(),
    {
        if remove_if_expired(&mut self.store, &key, now) {
            return false;
        }
        visit_live(&self.store, &key, now, f)
    }

    /// `get_at` at the clock's current reading: a persistent entry is always
    /// a hit, a missing key always a miss.
    pub fn get<F: Fn(&V)>(&mut self, key: K, f: F) -> (r: bool)
        requires
            obeys_key_model::<K>(),
            forall|v: &V| f.requires((v,)),
        ensures
            r ==> old(self).store_view().contains_key(key),
            r ==> final(self).store_view() == old(self).store_view(),
            r ==> f.ensures((&old(self).store_view()[key].value,), ()),
            !r ==> final(self).store_view() == old(self).store_view().remove(key),
            old(self).store_view().contains_key(key) && old(self).store_view()[key].expires
                == ExpireMeta::Persistent ==> r,
            final(self).candidates() == old(self).candidates(),
    {
        let now = self.now();
        self.get_at(key, now, f)
    }

    /// One vacuum pass over the sampled positions `samples` at time `now`:
    /// each sampled position whose key is expired (or absent from the store)
    /// is marked, the store drops the marked keys, and the candidate list
    /// drops the marked positions. Returns how many positions were dropped.
    pub fn vacuum_pass(&mut self, samples: &Vec<usize>, now: u128) -> (removed: usize)
        requires
            obeys_key_model::<K>(),
            forall|j: int| 0 <= j < samples@.len() ==> samples@[j] < old(self).candidates().len(),
        ensures
            ({
                let marks = pass_marks(
                    old(self).candidates(),
                    samples@,
                    old(self).store_view(),
                    now as int,
                );
                &&& final(self).store_view() == old(self).store_view().remove_keys(
                    marked_keys(old(self).candidates(), marks),
                )
                &&& final(self).candidates() == compact(old(self).candidates(), marks)
            }),
            removed == old(self).candidates().len() - final(self).candidates().len(),
    {
        let ghost cands = self.expiring@;
        let ghost store0 = self.store@;
        let n = self.expiring.len();
        let mut marks: Vec<bool> = Vec::new();
        let mut i: usize = 0;
        while i < n
            invariant
                i <= n,
                n == cands.len(),
                marks@ == Seq::new(i as nat, |x: int| false),
            decreases n - i,
        {
            marks.push(false);
            i = i + 1;
        }
        assert(marks@ =~= pass_marks(cands, samples@.take(0), store0, now as int));
        let mut j: usize = 0;
        while j < samples.len()
            invariant
                0 <= j <= samples@.len(),
                n == cands.len(),
                self.expiring@ == cands,
                forall|jj: int| 0 <= jj < samples@.len() ==> samples@[jj] < n,
                marks@ == pass_marks(cands, samples@.take(j as int), store0, now as int),
                self.store@ == store0.remove_keys(marked_keys(cands, marks@)),
                obeys_key_model::<K>(),
            decreases samples@.len() - j,
        {
            let ghost before = marks@;
            let idx = samples[j];
            let key = self.expiring[idx];
            let ghost swept = marked_keys(cands, before);
            proof {
                if swept.contains(key) {
                    let w = choose|w: int| 0 <= w < cands.len() && before[w] && cands[w] == key;
                    assert(key_expired(store0, cands[w], now as int));
                }
            }
            assert(samples@.take(j + 1) =~= samples@.take(j as int).push(idx));
            if self.expired_at(&key, now) {
                assert(key_expired(store0, key, now as int));
                self.store.remove(&key);
                marks.set(idx, true);
                let ghost t0 = samples@.take(j as int);
                let ghost t1 = samples@.take(j + 1);
                assert forall|x: int| 0 <= x < n implies marks@[x] == (t1.contains(x as usize)
                    && key_expired(store0, cands[x], now as int)) by {
                    if x == idx as int {
                        assert(t1[j as int] == idx);
                    } else if t0.contains(x as usize) {
                        let w = choose|w: int| 0 <= w < t0.len() && t0[w] == x as usize;
                        assert(t1[w] == x as usize);
                    } else if t1.contains(x as usize) {
                        let w = choose|w: int| 0 <= w < t1.len() && t1[w] == x as usize;
                        if w < j {
                            assert(t0[w] == x as usize);
                        }
                    }
                }
                assert(marks@ =~= pass_marks(cands, t1, store0, now as int));
                assert(marked_keys(cands, marks@) =~= swept.insert(key)) by {
                    assert(marks@[idx as int] && cands[idx as int] == key);
                    assert forall|k: K| #[trigger] swept.contains(k) implies marked_keys(
                        cands,
                        marks@,
                    ).contains(k) by {
                        let w = choose|w: int| 0 <= w < cands.len() && before[w] && cands[w] == k;
                        assert(marks@[w]);
                    }
                    assert forall|k: K| #[trigger] marked_keys(cands, marks@).contains(k) implies (
                    swept.contains(k) || k == key) by {
                        let w = choose|w: int| 0 <= w < cands.len() && marks@[w] && cands[w] == k;
                        if w != idx as int {
                            assert(before[w]);
                        }
                    }
                }
                assert(self.store@ =~= store0.remove_keys(marked_keys(cands, marks@)));
            } else {
                assert(!key_expired(store0, key, now as int));
                assert(marks@ =~= pass_marks(cands, samples@.take(j + 1), store0, now as int));
            }
            j = j + 1;
        }
        assert(samples@.take(samples@.len() as int) =~= samples@);
        let kept = compact_prefix(&self.expiring, &marks);
        assert(cands.take(n as int) =~= cands);
        assert(kept@ =~= compact(cands, marks@));
        let removed = n - kept.len();
        self.expiring = kept;
        removed
    }

    /// Vacuums at time `now`: a pass samples `min(count, len)` distinct
    /// positions of the candidate list uniformly and evicts the expired keys
    /// found there; passes repeat while the fraction of sampled positions
    /// evicted exceeds `threshold`. What is left is described by `vacuumed`.
    pub fn vacuum_at(&mut self, count: usize, threshold: RetryThreshold, now: u128)
        requires
            obeys_key_model::<K>(),
            threshold.valid(),
        ensures
            vacuumed(
                old(self).store_view(),
                old(self).candidates(),
                final(self).store_view(),
                final(self).candidates(),
                count as int,
                now as int,
            ),
    {
        broadcast use vstd::seq_lib::group_to_multiset_ensures;

        let ghost s0 = self.store@;
        let ghost c0 = self.expiring@;
        let ghost dead = |k: K| key_expired(s0, k, now as int);
        let ghost live = |k: K| !key_expired(s0, k, now as int);
        let ghost full = count >= c0.len();
        let ghost idle = count == 0 || c0.len() == 0;
        let ghost all_dead = count > 0 && forall|i: int| 0 <= i < c0.len() ==> dead(c0[i]);
        let ghost mut passed = false;
        let mut again = true;
        while again
            invariant
                obeys_key_model::<K>(),
                threshold.valid(),
                full == (count >= c0.len()),
                idle == (count == 0 || c0.len() == 0),
                all_dead == (count > 0 && forall|i: int| 0 <= i < c0.len() ==> dead(c0[i])),
                dead == (|k: K| key_expired(s0, k, now as int)),
                live == (|k: K| !key_expired(s0, k, now as int)),
                forall|k: K| #[trigger]
                    self.store@.contains_key(k) ==> s0.contains_key(k) && self.store@[k] == s0[k],
                forall|k: K| s0.contains_key(k) && !dead(k) ==> #[trigger] self.store@.contains_key(k),
                forall|k: K| #[trigger]
                    s0.contains_key(k) && !self.store@.contains_key(k) ==> c0.contains(k),
                thinned(c0, self.expiring@, dead),
                forall|k: K| #[trigger]
                    self.expiring@.to_multiset().count(k) < c0.to_multiset().count(k)
                        ==> !self.store@.contains_key(k),
                idle ==> self.store@ == s0 && self.expiring@ == c0,
                all_dead && !again ==> self.expiring@.len() == 0,
                !again ==> passed,
                full && passed ==> self.expiring@ == c0.filter(live),
                full && passed ==> self.store@ == s0.remove_keys(
                    Set::new(|k: K| c0.contains(k) && key_expired(s0, k, now as int)),
                ),
                full && !passed ==> self.expiring@ == c0 && self.store@ == s0,
            decreases self.expiring@.len() + if again { 1int } else { 0int },
        {
            let ghost c1 = self.expiring@;
            let ghost s1 = self.store@;
            let n = self.expiring.len();
            let amount = if count < n { count } else { n };
            let samples = sample_indices(n, amount);
            let removed = self.vacuum_pass(&samples, now);
            let ghost marks = pass_marks(c1, samples@, s1, now as int);
            proof {
                broadcast use vstd::seq_lib::group_filter_ensures;

                lemma_compact_len(c1, marks);
                c1.to_multiset_ensures();
                c0.to_multiset_ensures();
                assert forall|k: K| c1.contains(k) implies c0.contains(k) by {
                    assert(c1.to_multiset().count(k) > 0);
                    assert(c1.to_multiset().count(k) <= c0.to_multiset().count(k));
                }
                assert forall|i: int| 0 <= i < c1.len() && marks[i] implies dead(c1[i]) by {
                    let k = c1[i];
                    assert(key_expired(s1, k, now as int));
                    if s1.contains_key(k) {
                        assert(s0.contains_key(k) && s1[k] == s0[k]);
                    } else if s0.contains_key(k) && !dead(k) {
                        assert(s1.contains_key(k));
                    }
                }
                assert forall|k: K| #[trigger] marked_keys(c1, marks).contains(k) implies dead(k)
                    && c1.contains(k) by {
                    let w = choose|w: int| 0 <= w < c1.len() && marks[w] && c1[w] == k;
                    assert(dead(c1[w]));
                }
                assert forall|k: K| #[trigger] self.expiring@.to_multiset().count(k) <= c0.to_multiset().count(k) by {
                    lemma_compact_counts(c1, marks, k);
                }
                assert forall|k: K| !dead(k) implies #[trigger] self.expiring@.to_multiset().count(k)
                    == c0.to_multiset().count(k) by {
                    lemma_compact_counts(c1, marks, k);
                }
                assert forall|k: K| #[trigger]
                    s0.contains_key(k) && !self.store@.contains_key(k) implies c0.contains(k) by {
                    if s1.contains_key(k) {
                        assert(marked_keys(c1, marks).contains(k));
                    }
                }
                assert forall|k: K| #[trigger]
                    self.expiring@.to_multiset().count(k) < c0.to_multiset().count(k)
                        implies !self.store@.contains_key(k) by {
                    lemma_compact_counts(c1, marks, k);
                    if self.expiring@.to_multiset().count(k) < c1.to_multiset().count(k) {
                        let w = choose|w: int| 0 <= w < c1.len() && c1[w] == k && marks[w];
                        assert(marked_keys(c1, marks).contains(k));
                    }
                }
                if idle {
                    assert forall|i: int| 0 <= i < c1.len() implies !marks[i] by {
                        assert(!samples@.contains(i as usize));
                    }
                    lemma_compact_len(c1, marks);
                    assert(marked_keys(c1, marks) =~= Set::<K>::empty());
                    assert(self.store@ =~= s1);
                }
                if all_dead {
                    assert forall|j: int| 0 <= j < samples@.len() implies marks[samples@[j] as int] by {
                        let i = samples@[j] as int;
                        let k = c1[i];
                        assert(c1.contains(k));
                        let w = choose|w: int| 0 <= w < c0.len() && c0[w] == k;
                        assert(dead(c0[w]));
                        assert(samples@.contains(i as usize));
                        if s1.contains_key(k) {
                            assert(s0.contains_key(k) && s1[k] == s0[k]);
                        }
                    }
                    lemma_marks_against_samples(marks, samples@);
                }
                if full && !passed {
                    lemma_full_sample(samples@, n as nat);
                    assert forall|i: int| 0 <= i < c0.len() implies marks[i] == dead(c0[i]) by {
                        assert(samples@.contains(i as usize));
                    }
                    lemma_compact_by_key(c0, marks, dead);
                    assert(c0.filter(|k: K| !dead(k)) == c0.filter(live)) by {
                        assert((|k: K| !dead(k)) =~= live);
                    }
                    assert(marked_keys(c1, marks) =~= Set::new(
                        |k: K| c0.contains(k) && key_expired(s0, k, now as int),
                    )) by {
                        assert forall|k: K| c0.contains(k) && key_expired(s0, k, now as int) implies
                            #[trigger] marked_keys(c1, marks).contains(k) by {
                            let w = choose|w: int| 0 <= w < c0.len() && c0[w] == k;
                            assert(marks[w]);
                        }
                    }
                }
                if full && passed {
                    assert forall|i: int| 0 <= i < c1.len() implies !marks[i] by {
                        assert(live(c1[i]));
                    }
                    lemma_compact_len(c1, marks);
                    assert(marked_keys(c1, marks) =~= Set::<K>::empty());
                    assert(self.store@ =~= s1);
                }
            }
            again = threshold.exceeded(removed, amount);
            proof {
                passed = true;
                if again {
                    assert(removed > 0) by (nonlinear_arith)
                        requires
                            amount > 0,
                            threshold.numerator > 0,
                            removed * threshold.denominator > threshold.numerator * amount;
                }
                if all_dead && amount > 0 {
                    assert(removed * threshold.denominator > threshold.numerator * amount)
                        by (nonlinear_arith)
                        requires
                            amount > 0,
                            removed >= amount,
                            threshold.numerator < threshold.denominator;
                }
            }
        }
    }

    /// `vacuum_at` at the clock's current reading.
    pub fn vacuum(&mut self, count: usize, threshold: RetryThreshold)
        requires
            obeys_key_model::<K>(),
            threshold.valid(),
        ensures
            exists|t: u128|
                vacuumed(
                    old(self).store_view(),
                    old(self).candidates(),
                    final(self).store_view(),
                    final(self).candidates(),
                    count as int,
                    t as int,
                ),
    {
        let now = self.now();
        self.vacuum_at(count, threshold, now);
    }

    /// How many positions the candidate list has.
    pub fn candidate_count(&self) -> (r: usize)
        ensures
            r == self.candidates().len(),
    {
        self.expiring.len()
    }

    /// How many entries the store holds, expired ones included.
    pub fn store_len(&self) -> (r: usize)
        requires
            obeys_key_model::<K>(),
        ensures
            r == self.store_view().len(),
    {
        self.store.len()
    }

    /// Whether the store holds an entry for `key`, expired or not.
    pub fn contains_key(&self, key: &K) -> (r: bool)
        requires
            obeys_key_model::<K>(),
        ensures
            r == self.store_view().contains_key(*key),
    {
        self.store.contains_key(key)
    }
}

} // verus!
