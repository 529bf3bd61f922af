//! Entries, their expiration state, and the retry ratio of a vacuum.

use vstd::prelude::*;

verus! {

/// The expiration data of an entry: when it was stored and how long it lives,
/// both in nanoseconds.
#[derive(Clone, Copy, Debug, PartialEq, Eq, Structural)]
pub struct Expiration {
    pub inserted: u128,
    pub ttl: u128,
}

/// An entry either never expires, or expires once its time-to-live has passed.
#[derive(Clone, Copy, Debug, PartialEq, Eq, Structural)]
pub enum ExpireMeta {
    Persistent,
    Expires(Expiration),
}

/// A stored value together with its expiration state.
pub struct Entry<V> {
    pub value: V,
    pub expires: ExpireMeta,
}

impl Expiration {
    /// Expired once strictly more than `ttl` has passed since insertion.
    pub open spec fn spec_expired_at(self, now: int) -> bool {
        now - self.inserted > self.ttl
    }

    pub fn expired_at(&self, now: u128) -> (r: bool)
        ensures
            r == self.spec_expired_at(now as int),
    {
        now > self.inserted && now - self.inserted > self.ttl
    }
}

impl ExpireMeta {
    pub open spec fn spec_expired_at(self, now: int) -> bool {
        match self {
            ExpireMeta::Persistent => false,
            ExpireMeta::Expires(e) => e.spec_expired_at(now),
        }
    }

    pub fn expired_at(&self, now: u128) -> (r: bool)
        ensures
            r == self.spec_expired_at(now as int),
    {
        match self {
            ExpireMeta::Persistent => false,
            ExpireMeta::Expires(e) => e.expired_at(now),
        }
    }
}

/// A key is expired for the store when the store holds no entry for it, or
/// its entry's time-to-live has run out.
pub open spec fn key_expired<K, V>(store: Map<K, Entry<V>>, k: K, now: int) -> bool {
    !store.contains_key(k) || store[k].expires.spec_expired_at(now)
}

/// The fraction `numerator / denominator` of expired samples above which a
/// vacuum samples again.
#[derive(Clone, Copy, Debug, PartialEq, Eq, Structural)]
pub struct RetryThreshold {
    pub numerator: u64,
    pub denominator: u64,
}

impl RetryThreshold {
    /// A threshold lies strictly between zero and one.
    pub open spec fn valid(self) -> bool {
        0 < self.numerator < self.denominator
    }

    /// The threshold `numerator / denominator`, or `None` where it does not
    /// lie strictly between zero and one.
    pub fn new(numerator: u64, denominator: u64) -> (r: Option<RetryThreshold>)
        ensures
            r is Some <==> 0 < numerator < denominator,
            r matches Some(t) ==> t.numerator == numerator && t.denominator == denominator,
    {
        if 0 < numerator && numerator < denominator {
            Some(RetryThreshold { numerator, denominator })
        } else {
            None
        }
    }

    /// Whether `removed` expired keys out of `amount` samples is a ratio
    /// strictly above the threshold.
    pub open spec fn spec_exceeded(self, removed: int, amount: int) -> bool {
        amount > 0 && removed * self.denominator > self.numerator * amount
    }

    pub fn exceeded(&self, removed: usize, amount: usize) -> (r: bool)
        ensures
            r == self.spec_exceeded(removed as int, amount as int),
    {
        if amount == 0 {
            return false;
        }
        let r: u128 = removed as u128;
        let a: u128 = amount as u128;
        let d: u128 = self.denominator as u128;
        let n: u128 = self.numerator as u128;
        proof {
            assert(r * d <= u64::MAX * u64::MAX) by (nonlinear_arith)
                requires r <= u64::MAX, d <= u64::MAX;
            assert(n * a <= u64::MAX * u64::MAX) by (nonlinear_arith)
                requires a <= u64::MAX, n <= u64::MAX;
        }
        let lhs: u128 = r * d;
        let rhs: u128 = n * a;
        lhs > rhs
    }
}

} // verus!
