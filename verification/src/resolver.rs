//! Configuration of the peer resolver that keeps the network addresses of
//! known peers fresh. Only the retry policy is decided here; resolution
//! itself is the network layer's work. Intervals are carried in seconds.

use vstd::prelude::*;

verus! {

/// The resolver's retry policy.
#[derive(Debug, Clone, Copy)]
pub struct PeerResolverConfig {
    pub max_parallel_resolve_requests: usize,
    pub min_ttl_sec: u32,
    pub update_before_sec: u32,
    pub fast_retry_count: u32,
    pub min_retry_interval: u64,
    pub max_retry_interval: u64,
    pub stale_retry_interval: u64,
}

/// Builds a peer resolver's configuration.
#[derive(Debug, Clone, Copy)]
pub struct PeerResolverBuilder {
    pub inner: PeerResolverConfig,
}

impl PeerResolverBuilder {
    /// The documented defaults: a 600-second minimal TTL, updates 1200
    /// seconds before expiry, 10 fast retries between 1 and 120 seconds,
    /// and stale retries every 600 seconds.
    pub fn new() -> (r: PeerResolverBuilder)
        ensures
            r.inner.max_parallel_resolve_requests == 100,
            r.inner.min_ttl_sec == 600,
            r.inner.update_before_sec == 1200,
            r.inner.fast_retry_count == 10,
            r.inner.min_retry_interval == 1,
            r.inner.max_retry_interval == 120,
            r.inner.stale_retry_interval == 600,
    {
        PeerResolverBuilder {
            inner: PeerResolverConfig {
                max_parallel_resolve_requests: 100,
                min_ttl_sec: 600,
                update_before_sec: 1200,
                fast_retry_count: 10,
                min_retry_interval: 1,
                max_retry_interval: 120,
                stale_retry_interval: 600,
            },
        }
    }

    /// The built configuration.
    pub fn build_config(self) -> (r: PeerResolverConfig)
        ensures
            r == self.inner,
    {
        self.inner
    }

    /// Minimal time-to-live for the resolved peer info.
    pub fn with_min_ttl_sec(self, ttl_sec: u32) -> (r: Self)
        ensures
            r.inner == (PeerResolverConfig { min_ttl_sec: ttl_sec, ..self.inner }),
    {
        let mut inner = self.inner;
        inner.min_ttl_sec = ttl_sec;
        PeerResolverBuilder { inner }
    }

    /// Time before the expiration when the peer info should be updated.
    pub fn with_update_before_sec(self, update_before_sec: u32) -> (r: Self)
        ensures
            r.inner == (PeerResolverConfig { update_before_sec, ..self.inner }),
    {
        let mut inner = self.inner;
        inner.update_before_sec = update_before_sec;
        PeerResolverBuilder { inner }
    }

    /// Number of fast retries before switching to the stale retry
    /// interval.
    pub fn with_fast_retry_count(self, fast_retry_count: u32) -> (r: Self)
        ensures
            r.inner == (PeerResolverConfig { fast_retry_count, ..self.inner }),
    {
        let mut inner = self.inner;
        inner.fast_retry_count = fast_retry_count;
        PeerResolverBuilder { inner }
    }

    /// Minimal interval between the fast retries, in seconds.
    pub fn with_min_retry_interval(self, min_retry_interval: u64) -> (r: Self)
        ensures
            r.inner == (PeerResolverConfig { min_retry_interval, ..self.inner }),
    {
        let mut inner = self.inner;
        inner.min_retry_interval = min_retry_interval;
        PeerResolverBuilder { inner }
    }

    /// Maximal interval between the fast retries, in seconds.
    pub fn with_max_retry_interval(self, max_retry_interval: u64) -> (r: Self)
        ensures
            r.inner == (PeerResolverConfig { max_retry_interval, ..self.inner }),
    {
        let mut inner = self.inner;
        inner.max_retry_interval = max_retry_interval;
        PeerResolverBuilder { inner }
    }

    /// Interval between the stale retries, in seconds.
    pub fn with_stale_retry_interval(self, stale_retry_interval: u64) -> (r: Self)
        ensures
            r.inner == (PeerResolverConfig { stale_retry_interval, ..self.inner }),
    {
        let mut inner = self.inner;
        inner.stale_retry_interval = stale_retry_interval;
        PeerResolverBuilder { inner }
    }
}

} // verus!
