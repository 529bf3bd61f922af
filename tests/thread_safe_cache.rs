use std::sync::Arc;
use ttl_cache::{RetryThreshold, ThreadSafeHashCache};

const SECOND: u128 = 1_000_000_000;

#[test]
fn threadsafe_cache_e2e() {
    let cache: Arc<ThreadSafeHashCache<&str, &str>> = Arc::new(ThreadSafeHashCache::new());
    let c = cache.clone();
    c.insert_ttl_at("id", "secret", SECOND, 0);
    cache.vacuum_at(10, RetryThreshold::new(1, 4).unwrap(), 0);
    assert_eq!(1, c.candidate_count());
    cache.vacuum_at(10, RetryThreshold::new(1, 4).unwrap(), 2 * SECOND);
    assert_eq!(0, c.candidate_count());
    assert!(!c.contains_key(&"id"));
}

#[test]
fn threadsafe_get_and_insert() {
    let cache: ThreadSafeHashCache<&str, &str> = ThreadSafeHashCache::new();
    assert_eq!(cache.insert("id", "secret"), None);
    assert!(cache.get("id", |v| assert_eq!(*v, "secret")));
    assert!(!cache.get("nope", |_| panic!("expected none")));
    assert_eq!(cache.insert_ttl_at("id", "other", 10, 0), Some("secret"));
    assert!(cache.get_at("id", 10, |v| assert_eq!(*v, "other")));
    assert!(!cache.get_at("id", 11, |_| panic!("expected none")));
    assert_eq!(cache.store_len(), 0);
    assert_eq!(cache.candidate_count(), 1);
    assert!(cache.expired_at(&"id", 0));
}

#[test]
fn threadsafe_vacuum_retries_and_keeps_live() {
    let cache: ThreadSafeHashCache<&str, &str> = ThreadSafeHashCache::new();
    cache.insert_ttl_at("a", "1", 10, 0);
    cache.insert_ttl_at("b", "2", 10, 0);
    cache.insert_ttl_at("c", "3", 1000, 0);
    cache.insert("p", "4");
    cache.vacuum_at(1, RetryThreshold::new(1, 4).unwrap(), 20);
    assert!(cache.contains_key(&"c"));
    assert!(cache.contains_key(&"p"));
    assert!(cache.candidate_count() >= 1);
    cache.vacuum_at(3, RetryThreshold::new(1, 4).unwrap(), 20);
    assert_eq!(cache.candidate_count(), 1);
    assert_eq!(cache.store_len(), 2);
}
