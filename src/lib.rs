//! An in-memory key/value cache whose entries may carry a time-to-live.
//!
//! Expired entries leave the cache in two ways: lazily, when a lookup finds
//! them expired, and actively, when `vacuum` samples the list of keys that
//! were stored with a time-to-live and evicts the expired ones it finds.
//! Times are plain nanosecond counts since the cache's own epoch.
//!
//! The contracts speak of the store as a map of keys to entries; they hold
//! for key types whose hashing, equality and copies behave as vstd's hash
//! table model asks (`obeys_key_model`), as the integer types do.

pub mod expiration;
pub mod sweep;
mod outside;
pub mod cache;
pub mod laws;
pub mod concurrent;

pub use expiration::{Entry, ExpireMeta, Expiration, RetryThreshold};
pub use cache::HashCache;
pub use concurrent::ThreadSafeHashCache;
