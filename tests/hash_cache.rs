use std::cell::Cell;
use ttl_cache::{HashCache, RetryThreshold};

const SECOND: u128 = 1_000_000_000;

fn quarter() -> RetryThreshold {
    RetryThreshold::new(1, 4).unwrap()
}

#[test]
fn store_retrieve() {
    let mut cache: HashCache<&str, &str> = HashCache::new();
    cache.insert("id", "secret");
    assert_eq!(true, cache.get("id", |v| assert_eq!(*v, "secret")));
    assert_eq!(false, cache.get("nope", |_| panic!("expected none")));
}

#[test]
fn expire_key() {
    let mut cache: HashCache<&str, &str> = HashCache::new();
    cache.insert_ttl_at("id", "secret", SECOND, 0);
    assert_eq!(cache.candidate_count(), 1);

    // initial get should work
    assert_eq!(true, cache.get_at("id", 0, |v| assert_eq!(*v, "secret")));

    // fetch after ttl should be none
    assert_eq!(false, cache.get_at("id", SECOND + 1000, |_| panic!("expected none")));

    // the miss took the entry out of the store, but the key is still a
    // candidate until a vacuum runs
    assert_eq!(cache.candidate_count(), 1);
    assert_eq!(cache.store_len(), 0);
}

#[test]
fn vacuum() {
    let mut cache: HashCache<&str, &str> = HashCache::new();
    cache.insert_ttl_at("id", "secret", SECOND, 0);
    assert_eq!(cache.candidate_count(), 1);

    assert_eq!(true, cache.get_at("id", 0, |v| assert_eq!(*v, "secret")));
    cache.vacuum_at(10, quarter(), 0);
    assert!(cache.contains_key(&"id"));
    assert_eq!(cache.candidate_count(), 1);

    cache.vacuum_at(10, quarter(), SECOND + 1000);

    if cache.contains_key(&"id") {
        panic!("expected store to no longer have key")
    }
    assert_eq!(cache.candidate_count(), 0)
}

#[test]
fn vacuum_sampling_retry() {
    let mut cache: HashCache<&str, &str> = HashCache::new();
    cache.insert_ttl_at("id", "secret", SECOND, 0);
    cache.insert_ttl_at("id2", "secret2", SECOND, 0);
    assert_eq!(cache.candidate_count(), 2);

    // one sample out of one is expired, which exceeds a quarter, so the
    // vacuum samples again and catches the second key
    cache.vacuum_at(1, quarter(), SECOND + 1000);

    if cache.contains_key(&"id") {
        panic!("expected store to no longer have key")
    }
    assert!(!cache.contains_key(&"id2"));
    assert_eq!(cache.candidate_count(), 0)
}

#[test]
fn vacuum_sampling_no_retry() {
    let mut cache: HashCache<&str, &str> = HashCache::new();
    cache.insert_ttl_at("id", "secret", SECOND, 0);
    cache.insert_ttl_at("id2", "secret2", SECOND, 0);
    cache.insert_ttl_at("id3", "secret", 2 * SECOND, 0);
    cache.insert_ttl_at("id4", "secret2", 2 * SECOND, 0);
    assert_eq!(cache.candidate_count(), 4);

    // half of the four samples are expired, under the threshold of 0.60
    cache.vacuum_at(4, RetryThreshold::new(60, 100).unwrap(), SECOND + 1000);

    assert_eq!(2, cache.candidate_count());
}

#[test]
fn vacuum_one_sample_per_pass_still_clears_all_expired() {
    let mut cache: HashCache<&str, &str> = HashCache::new();
    cache.insert_ttl_at("a", "1", SECOND, 0);
    cache.insert_ttl_at("b", "2", SECOND, 0);
    cache.vacuum_at(1, quarter(), 2 * SECOND);
    assert_eq!(cache.candidate_count(), 0);
    assert_eq!(cache.store_len(), 0);
}

#[test]
fn vacuum_at_boundary_ratio_runs_once() {
    let mut cache: HashCache<&str, &str> = HashCache::new();
    cache.insert_ttl_at("id", "secret", SECOND, 0);
    cache.insert_ttl_at("id2", "secret2", SECOND, 0);
    cache.insert_ttl_at("id3", "secret", 2 * SECOND, 0);
    cache.insert_ttl_at("id4", "secret2", 2 * SECOND, 0);
    cache.vacuum_at(2, RetryThreshold::new(60, 100).unwrap(), SECOND + 1);
    // a draw of the two live keys evicts nothing and ends at once
    let left = cache.candidate_count();
    assert!(2 <= left && left <= 4, "left {}", left);
    assert!(cache.contains_key(&"id3"));
    assert!(cache.contains_key(&"id4"));
}

#[test]
fn boundary_ratio_draw_with_one_expired_stops_after_one_pass() {
    let mut cache: HashCache<&str, &str> = HashCache::new();
    cache.insert_ttl_at("id", "secret", SECOND, 0);
    cache.insert_ttl_at("id2", "secret2", SECOND, 0);
    cache.insert_ttl_at("id3", "secret", 2 * SECOND, 0);
    cache.insert_ttl_at("id4", "secret2", 2 * SECOND, 0);
    let threshold = RetryThreshold::new(60, 100).unwrap();
    // the draw holds one expired and one live position
    let removed = cache.vacuum_pass(&vec![0, 2], SECOND + 1);
    assert_eq!(removed, 1);
    assert!(!threshold.exceeded(removed, 2));
    assert_eq!(cache.candidate_count(), 3);
}

#[test]
fn persistent_entry_hits_at_any_time() {
    let mut cache: HashCache<&str, &str> = HashCache::new();
    assert_eq!(cache.insert("k", "v"), None);
    for t in [0u128, SECOND, u128::MAX] {
        assert!(cache.get_at("k", t, |v| assert_eq!(*v, "v")));
    }
    assert_eq!(cache.insert("k", "w"), Some("v"));
    assert!(cache.get_at("k", u128::MAX, |v| assert_eq!(*v, "w")));
    assert_eq!(cache.candidate_count(), 0);
}

#[test]
fn ttl_entry_lives_through_its_last_instant() {
    let mut cache: HashCache<&str, &str> = HashCache::new();
    assert_eq!(cache.insert_ttl_at("k", "v", 10, 5), None);
    assert!(cache.get_at("k", 14, |v| assert_eq!(*v, "v")));
    assert!(cache.get_at("k", 15, |v| assert_eq!(*v, "v")));
    assert!(!cache.get_at("k", 16, |_| panic!("expected none")));
    assert!(!cache.contains_key(&"k"));
    assert_eq!(cache.candidate_count(), 1);
}

#[test]
fn zero_ttl_expires_at_the_next_instant() {
    let mut cache: HashCache<&str, &str> = HashCache::new();
    cache.insert_ttl_at("k", "v", 0, 7);
    assert!(cache.get_at("k", 7, |v| assert_eq!(*v, "v")));
    assert!(!cache.get_at("k", 8, |_| panic!("expected none")));
}

#[test]
fn repeated_miss_never_calls_consumer() {
    let mut cache: HashCache<&str, &str> = HashCache::new();
    cache.insert_ttl_at("k", "v", 1, 0);
    let calls = Cell::new(0u32);
    for t in [5u128, 6, 100, 3] {
        assert!(!cache.get_at("k", t, |_| calls.set(calls.get() + 1)));
        assert!(!cache.get_at("absent", t, |_| calls.set(calls.get() + 1)));
    }
    assert_eq!(calls.get(), 0);
    assert_eq!(cache.store_len(), 0);
}

#[test]
fn insert_ttl_returns_replaced_value() {
    let mut cache: HashCache<&str, &str> = HashCache::new();
    assert_eq!(cache.insert("k", "a"), None);
    assert_eq!(cache.insert_ttl_at("k", "b", 5, 0), Some("a"));
    assert_eq!(cache.insert_ttl_at("k", "c", 5, 0), Some("b"));
    assert_eq!(cache.candidate_count(), 2);
}

#[test]
fn vacuum_keeps_live_entries() {
    let mut cache: HashCache<&str, &str> = HashCache::new();
    cache.insert("p", "1");
    cache.insert_ttl_at("long", "2", 100, 0);
    cache.insert_ttl_at("edge", "3", 50, 0);
    cache.insert_ttl_at("gone", "4", 10, 0);
    cache.vacuum_at(10, quarter(), 50);
    assert!(cache.contains_key(&"p"));
    assert!(cache.contains_key(&"long"));
    assert!(cache.contains_key(&"edge"));
    assert!(!cache.contains_key(&"gone"));
    assert_eq!(cache.candidate_count(), 2);
}

#[test]
fn full_count_vacuum_removes_exactly_the_expired() {
    let mut cache: HashCache<&str, &str> = HashCache::new();
    cache.insert_ttl_at("a", "1", 10, 0);
    cache.insert_ttl_at("b", "2", 100, 0);
    cache.insert_ttl_at("c", "3", 10, 0);
    cache.insert_ttl_at("d", "4", 100, 0);
    cache.insert_ttl_at("e", "5", 10, 0);
    cache.vacuum_at(5, RetryThreshold::new(1, 2).unwrap(), 20);
    assert_eq!(cache.candidate_count(), 2);
    assert_eq!(cache.store_len(), 2);
    assert!(cache.contains_key(&"b") && cache.contains_key(&"d"));
}

#[test]
fn vacuum_drops_stale_and_duplicate_candidates() {
    let mut cache: HashCache<&str, &str> = HashCache::new();
    cache.insert_ttl_at("k", "1", 10, 0);
    cache.insert_ttl_at("k", "2", 10, 0);
    cache.insert_ttl_at("x", "3", 10, 0);
    assert!(!cache.get_at("x", 50, |_| panic!("expected none")));
    cache.insert("k", "persistent");
    assert_eq!(cache.candidate_count(), 3);
    cache.vacuum_at(3, quarter(), 50);
    // "x" is absent and goes; "k" is now persistent and stays
    assert_eq!(cache.candidate_count(), 2);
    assert!(cache.contains_key(&"k"));
}

#[test]
fn vacuum_on_empty_list_returns() {
    let mut cache: HashCache<u64, u64> = HashCache::new();
    cache.vacuum_at(0, quarter(), 0);
    cache.vacuum_at(10, quarter(), 0);
    assert_eq!(cache.candidate_count(), 0);
}

#[test]
fn vacuum_pass_on_given_samples() {
    let mut cache: HashCache<&str, &str> = HashCache::new();
    cache.insert_ttl_at("a", "1", 10, 0);
    cache.insert_ttl_at("b", "2", 100, 0);
    cache.insert_ttl_at("c", "3", 10, 0);
    let removed = cache.vacuum_pass(&vec![2, 1], 20);
    assert_eq!(removed, 1);
    assert!(cache.contains_key(&"a"));
    assert!(!cache.contains_key(&"c"));
    assert_eq!(cache.candidate_count(), 2);
}

#[test]
fn clock_readings_drive_the_plain_operations() {
    let mut cache: HashCache<&str, &str> = HashCache::new();
    cache.insert_ttl("short", "v", 0);
    cache.insert_ttl("long", "w", 3600 * SECOND);
    assert!(cache.get("long", |v| assert_eq!(*v, "w")));
    assert!(cache.expired(&"absent"));
    assert!(!cache.expired(&"long"));
    let start = cache.now();
    while cache.now() == start {}
    cache.vacuum(10, quarter());
    assert!(!cache.contains_key(&"short"));
    assert!(cache.contains_key(&"long"));
    assert_eq!(cache.candidate_count(), 1);
}

#[test]
fn vacuum_with_zero_count_changes_nothing() {
    let mut cache: HashCache<&str, &str> = HashCache::new();
    cache.insert_ttl_at("a", "1", 1, 0);
    cache.insert_ttl_at("b", "2", 1, 0);
    cache.vacuum_at(0, quarter(), 100);
    assert_eq!(cache.candidate_count(), 2);
    assert_eq!(cache.store_len(), 2);
}
