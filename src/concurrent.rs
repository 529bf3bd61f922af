//! The cache for concurrent use: the store and the candidate list each sit
//! behind a reader/writer lock of their own.

use std::collections::HashMap;
use std::hash::Hash;
use std::time::Instant;
use vstd::prelude::*;
use vstd::rwlock::{RwLock, RwLockPredicate};
use vstd::std_specs::hash::obeys_key_model;

use crate::cache::{expired_in, remove_if_expired, store_entry, visit_live};
use crate::expiration::{Entry, ExpireMeta, Expiration, RetryThreshold};
use crate::outside::{clock_now, nanos_since, sample_indices};
use crate::sweep::{compact_prefix, lemma_marks_against_samples};

verus! {

/// A lock predicate that admits every value.
pub struct Unconstrained;

impl<T> RwLockPredicate<T> for Unconstrained {
    open spec fn inv(self, v: T) -> bool {
        true
    }
}

/// The candidate list, with the number of compactions it has been through.
/// A vacuum pass compacts only a list whose generation has not moved since
/// it sampled it: positions then still name what they named, as inserts only
/// append.
pub struct CandidateList<K> {
    keys: Vec<K>,
    generation: u64,
}

/// A cache for concurrent use. Lookups take only the store's lock; inserts
/// with a time-to-live and vacuums take the candidate list's lock too. A
/// vacuum checks and removes each sampled key under one write lock of the
/// store, so a key that another thread stores again in the meantime is not
/// evicted.
pub struct ThreadSafeHashCache<K: Hash + Eq + Copy, V> {
    store: RwLock<HashMap<K, Entry<V>>, Unconstrained>,
    expiring: RwLock<CandidateList<K>, Unconstrained>,
    epoch: Instant,
}

impl<K: Hash + Eq + Copy, V> ThreadSafeHashCache<K, V> {
    /// An empty cache, whose clock starts now.
    pub fn new() -> (r: ThreadSafeHashCache<K, V>) {
        ThreadSafeHashCache {
            store: RwLock::new(HashMap::new(), Ghost(Unconstrained)),
            expiring: RwLock::new(CandidateList { keys: Vec::new(), generation: 0 }, Ghost(Unconstrained)),
            epoch: clock_now(),
        }
    }

    /// Nanoseconds since this cache was made.
    pub fn now(&self) -> u128 {
        nanos_since(&self.epoch)
    }

    /// Whether `key` is expired at time `now`, as the store stands when the
    /// lock is taken; a key without an entry is.
    pub fn expired_at(&self, key: &K, now: u128) -> bool
        requires
            obeys_key_model::<K>(),
    {
        let handle = self.store.acquire_read();
        let r = expired_in(handle.borrow(), key, now);
        handle.release_read();
        r
    }

    /// Whether `key` is expired at the clock's current reading.
    pub fn expired(&self, key: &K) -> bool
        requires
            obeys_key_model::<K>(),
    {
        let now = self.now();
        self.expired_at(key, now)
    }

    /// Stores `value` under `key` with no expiration, and returns the value it
    /// replaces.
    pub fn insert(&self, key: K, value: V) -> Option<V>
        requires
            obeys_key_model::<K>(),
    {
        let (mut store, handle) = self.store.acquire_write();
        let r = store_entry(&mut store, key, value, ExpireMeta::Persistent);
        handle.release_write(store);
        r
    }

    /// Appends `key` to the candidate list, then stores `value` under it to
    /// expire `ttl` nanoseconds after `now`; returns the value it replaces.
    pub fn insert_ttl_at(&self, key: K, value: V, ttl: u128, now: u128) -> Option<V>
        requires
            obeys_key_model::<K>(),
    {
        let (mut list, handle) = self.expiring.acquire_write();
        list.keys.push(key);
        handle.release_write(list);
        let (mut store, handle) = self.store.acquire_write();
        let expires = ExpireMeta::Expires(Expiration { inserted: now, ttl });
        let r = store_entry(&mut store, key, value, expires);
        handle.release_write(store);
        r
    }

    /// `insert_ttl_at` at the clock's current reading.
    pub fn insert_ttl(&self, key: K, value: V, ttl: u128) -> Option<V>
        requires
            obeys_key_model::<K>(),
    {
        let now = self.now();
        self.insert_ttl_at(key, value, ttl, now)
    }

    /// Looks `key` up at time `now`. On a hit `f` is called with the stored
    /// value under the store's read lock. On a miss `f` is not called, and the
    /// entry is removed under the write lock if it is still expired then.
    /// The lock does not poison: should `f` panic, its read lock is never
    /// released and every later writer of the store waits forever, so `f`
    /// must not panic.
    pub fn get_at<F: Fn(&V)>(&self, key: K, now: u128, f: F) -> (r: bool)
        requires
            obeys_key_model::<K>(),
            forall|v: &V| f.requires((v,)),
        ensures
            r ==> exists|v: V| f.ensures((&v,), ()),
    {
        let handle = self.store.acquire_read();
        let hit = visit_live(handle.borrow(), &key, now, f);
        handle.release_read();
        if !hit {
            let (mut store, handle) = self.store.acquire_write();
            remove_if_expired(&mut store, &key, now);
            handle.release_write(store);
        }
        hit
    }

    /// `get_at` at the clock's current reading.
    pub fn get<F: Fn(&V)>(&self, key: K, f: F) -> (r: bool)
        requires
            obeys_key_model::<K>(),
            forall|v: &V| f.requires((v,)),
        ensures
            r ==> exists|v: V| f.ensures((&v,), ()),
    {
        let now = self.now();
        self.get_at(key, now, f)
    }

    /// Checks and, where expired, evicts the key at each sampled position of
    /// `keys`, each under one write lock of the store. Marks exactly the
    /// positions whose key was evicted, so only sampled positions.
    fn mark_expired(&self, keys: &Vec<K>, samples: &Vec<usize>, now: u128) -> (marks: Vec<bool>)
        requires
            obeys_key_model::<K>(),
            forall|j: int| 0 <= j < samples@.len() ==> samples@[j] < keys@.len(),
        ensures
            marks@.len() == keys@.len(),
            forall|i: int| 0 <= i < marks@.len() && marks@[i] ==> samples@.contains(i as usize),
    {
        let n = keys.len();
        let mut marks: Vec<bool> = Vec::new();
        let mut i: usize = 0;
        while i < n
            invariant
                i <= n,
                marks@ == Seq::new(i as nat, |x: int| false),
            decreases n - i,
        {
            marks.push(false);
            i = i + 1;
        }
        let mut j: usize = 0;
        while j < samples.len()
            invariant
                j <= samples@.len(),
                n == keys@.len(),
                marks@.len() == n,
                forall|jj: int| 0 <= jj < samples@.len() ==> samples@[jj] < n,
                forall|x: int| 0 <= x < n && marks@[x] ==> samples@.take(j as int).contains(x as usize),
                obeys_key_model::<K>(),
            decreases samples@.len() - j,
        {
            let idx = samples[j];
            let key = keys[idx];
            let (mut store, handle) = self.store.acquire_write();
            let expired = remove_if_expired(&mut store, &key, now);
            handle.release_write(store);
            let ghost before = marks@;
            if expired {
                marks.set(idx, true);
            }
            assert forall|x: int| 0 <= x < n && marks@[x] implies samples@.take(j + 1).contains(
                x as usize,
            ) by {
                if x == idx as int {
                    assert(samples@.take(j + 1)[j as int] == idx);
                } else {
                    assert(before[x]);
                    let w = choose|w: int|
                        0 <= w < j && samples@.take(j as int)[w] == x as usize;
                    assert(samples@.take(j + 1)[w] == x as usize);
                }
            }
            j = j + 1;
        }
        assert(samples@.take(samples@.len() as int) =~= samples@);
        marks
    }

    /// One vacuum pass at time `now`: samples `min(count, len)` positions of
    /// the candidate list, evicts each sampled key that is expired, and drops
    /// the evicted positions from the list, unless another pass compacted
    /// the list meanwhile. Returns the sample size and how many positions
    /// were dropped, which is at most the sample size.
    fn vacuum_sample(&self, count: usize, now: u128) -> (r: (usize, usize))
        requires
            obeys_key_model::<K>(),
        ensures
            r.0 <= count,
            r.1 <= r.0,
    {
        let read = self.expiring.acquire_read();
        let list = read.borrow();
        let n = list.keys.len();
        let generation = list.generation;
        let amount = if count < n { count } else { n };
        let samples = sample_indices(n, amount);
        let marks = self.mark_expired(&list.keys, &samples, now);
        read.release_read();
        proof {
            lemma_marks_against_samples(marks@, samples@);
        }
        let (mut list, handle) = self.expiring.acquire_write();
        let mut removed: usize = 0;
        if list.generation == generation && list.keys.len() >= n {
            let before = list.keys.len();
            let kept = compact_prefix(&list.keys, &marks);
            removed = before - kept.len();
            list = CandidateList { keys: kept, generation: generation.wrapping_add(1) };
        }
        handle.release_write(list);
        (amount, removed)
    }

    /// Vacuums at time `now`: passes as in `vacuum_sample` repeat while the
    /// fraction of sampled positions dropped exceeds `threshold`. As other
    /// threads may keep appending, the passes are capped at one more than
    /// the length the list had at the start, which a lone vacuum never needs,
    /// since each repeated pass drops at least one position.
    pub fn vacuum_at(&self, count: usize, threshold: RetryThreshold, now: u128)
        requires
            obeys_key_model::<K>(),
            threshold.valid(),
    {
        let start = self.candidate_count();
        let mut passes_left: usize = if start < usize::MAX {
            start + 1
        } else {
            start
        };
        let mut again = true;
        while again && passes_left > 0
            invariant
                obeys_key_model::<K>(),
                threshold.valid(),
            decreases passes_left,
        {
            let (amount, removed) = self.vacuum_sample(count, now);
            again = threshold.exceeded(removed, amount);
            passes_left = passes_left - 1;
        }
    }

    /// `vacuum_at` at the clock's current reading.
    pub fn vacuum(&self, count: usize, threshold: RetryThreshold)
        requires
            obeys_key_model::<K>(),
            threshold.valid(),
    {
        let now = self.now();
        self.vacuum_at(count, threshold, now);
    }

    /// How many positions the candidate list has.
    pub fn candidate_count(&self) -> usize {
        let handle = self.expiring.acquire_read();
        let n = handle.borrow().keys.len();
        handle.release_read();
        n
    }

    /// How many entries the store holds, expired ones included.
    pub fn store_len(&self) -> usize {
        let handle = self.store.acquire_read();
        let n = handle.borrow().len();
        handle.release_read();
        n
    }

    /// Whether the store holds an entry for `key`, expired or not.
    pub fn contains_key(&self, key: &K) -> bool {
        let handle = self.store.acquire_read();
        let r = handle.borrow().contains_key(key);
        handle.release_read();
        r
    }
}

} // verus!
