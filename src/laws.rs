//! Laws that relate the cache's operations to one another.

use vstd::prelude::*;

use crate::cache::value_of;
use crate::expiration::{key_expired, Entry, ExpireMeta, Expiration};

verus! {

/// After `insert(k, v)` a lookup of `k` is a hit with exactly `v`, whatever
/// the time, until `k` is stored again.
pub proof fn law_persistent_entry_always_hits<K, V>(store: Map<K, Entry<V>>, k: K, v: V, now: int)
    ensures
        ({
            let after = store.insert(k, (Entry { value: v, expires: ExpireMeta::Persistent }));
            &&& !key_expired(after, k, now)
            &&& value_of(after, k) == Some(v)
        }),
{
}

/// After `insert_ttl(k, v, ttl)` at time `inserted`, a lookup of `k` is a hit
/// with `v` while no more than `ttl` has passed, and a miss once more has;
/// the miss takes `k` out of the store and leaves the candidate list alone.
pub proof fn law_ttl_entry_window<K, V>(
    store: Map<K, Entry<V>>,
    k: K,
    v: V,
    inserted: u128,
    ttl: u128,
    now: int,
)
    ensures
        ({
            let after = store.insert(
                k,
                (Entry { value: v, expires: ExpireMeta::Expires(Expiration { inserted, ttl }) }),
            );
            &&& now - inserted <= ttl ==> !key_expired(after, k, now) && value_of(after, k) == Some(v)
            &&& now - inserted > ttl ==> key_expired(after, k, now)
                && !after.remove(k).contains_key(k)
        }),
{
}

/// Once a lookup of `k` has missed, every later lookup of `k` misses too and
/// changes nothing further, until `k` is stored again.
pub proof fn law_miss_is_idempotent<K, V>(store: Map<K, Entry<V>>, k: K, now: int, later: int)
    requires
        key_expired(store, k, now),
    ensures
        key_expired(store.remove(k), k, later),
        store.remove(k).remove(k) == store.remove(k),
{
    assert(store.remove(k).remove(k) =~= store.remove(k));
}

} // verus!
