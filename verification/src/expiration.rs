use vstd::prelude::*;
use crate::clock;

verus! {

/// Per-entry time-to-live bookkeeping: the second the entry was inserted and
/// how many seconds it lives. Immutable once created.
#[derive(Clone, Copy, Debug, PartialEq, Eq, Structural)]
pub struct Expiration {
    pub insertion_time: u64,
    pub ttl_secs: u64,
}

/// An expiration has elapsed once at least `ttl_secs` seconds have passed
/// since its insertion time.
pub open spec fn spec_expired(e: Expiration, now: u64) -> bool {
    now - e.insertion_time >= e.ttl_secs
}

impl Expiration {
    /// Stamps a fresh expiration with the engine clock.
    pub fn new(ttl: usize) -> (r: Expiration)
        ensures
            r.ttl_secs == ttl as u64,
    {
        Expiration::new_at(clock::now_seconds(), ttl as u64)
    }

    /// Stamps an expiration at an explicit time, for callers that carry
    /// their own clock reading.
    pub fn new_at(now: u64, ttl_secs: u64) -> (r: Expiration)
        ensures
            r == (Expiration { insertion_time: now, ttl_secs }),
    {
        Expiration { insertion_time: now, ttl_secs }
    }

    /// Checks expiry against the engine clock. The clock value is not
    /// promised, so the result is pinned for some clock reading;
    /// `is_expired_at` carries the exact contract.
    pub fn is_expired(&self) -> (r: bool)
        ensures
            exists|now: u64| r == spec_expired(*self, now),
    {
        let now = clock::now_seconds();
        let r = self.is_expired_at(now);
        proof {
            assert(r == spec_expired(*self, now));
        }
        r
    }

    /// Checks expiry against an explicit clock reading.
    pub fn is_expired_at(&self, now: u64) -> (r: bool)
        ensures
            r == spec_expired(*self, now),
    {
        now >= self.insertion_time && now - self.insertion_time >= self.ttl_secs
    }
}

} // verus!
