use vstd::prelude::*;

verus! {

/// A cached value and the instant, in milliseconds, after which it is stale.
#[derive(Debug, Clone)]
pub struct CacheEntry<T> {
    pub data: T,
    pub expires_at: u64,
}

impl<T> CacheEntry<T> {
    /// An entry made at `now` that lives for `ttl` milliseconds.
    pub fn new(data: T, ttl: u64, now: u64) -> (r: Self)
        requires
            now + ttl <= u64::MAX,
        ensures
            r.data == data,
            r.expires_at == now + ttl,
    {
        CacheEntry { data, expires_at: now + ttl }
    }

    /// The entry is stale at `now`.
    pub fn is_expired(&self, now: u64) -> (r: bool)
        ensures
            r == (now > self.expires_at),
    {
        now > self.expires_at
    }
}

} // verus!
