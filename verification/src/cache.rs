//! The snapshot cache gate: a stored snapshot carries the time it was
//! fetched, and a lookup within the time-to-live of that fetch reuses
//! it; a lookup at or past the time-to-live refreshes.
//!
//! Reading and writing the stored envelope is the caller's concern;
//! this module decides, from the stored fetch time and the current
//! time, whether the payload may be reused.

use vstd::prelude::*;

verus! {

/// The default time-to-live of a snapshot, in seconds: one hour.
pub const CACHE_THRESHOLD: u64 = 60 * 60;

/// A stored snapshot: the payload and the time it was fetched, in
/// seconds since the epoch. An entry is replaced wholesale on refresh,
/// never partially mutated.
#[derive(Debug)]
pub struct Cache<T> {
    pub fetch_time: i64,
    pub data: T,
}

impl<T> Cache<T> {
    /// The entry was fetched at a valid time no later than `now`, and
    /// less than `ttl` seconds before it.
    pub open spec fn spec_fresh(&self, now: u64, ttl: u64) -> bool {
        0 <= self.fetch_time <= now && now - self.fetch_time < ttl
    }

    /// Decides `spec_fresh`.
    pub fn is_fresh(&self, now: u64, ttl: u64) -> (r: bool)
        ensures
            r == self.spec_fresh(now, ttl),
    {
        if self.fetch_time < 0 {
            return false;
        }
        let ft = self.fetch_time as u64;
        ft <= now && now - ft < ttl
    }
}

/// What the cache tells its caller to do for one lookup.
#[derive(Debug, Clone, Copy, PartialEq, Eq, Structural)]
pub enum CacheAction {
    /// A fresh entry exists: return its payload, do not refresh.
    UseStored,
    /// No entry, or a stale one: refresh, store the result, return it.
    Refresh,
}

/// Decides one cache lookup: reuse the stored entry exactly when one
/// exists and is fresh; otherwise refresh. A refresh failure is the
/// caller's to propagate: a stale entry is never served.
pub fn cache_decision<T>(entry: &Option<Cache<T>>, now: u64, ttl: u64) -> (d: CacheAction)
    ensures
        d == CacheAction::UseStored <==> (entry is Some && entry->0.spec_fresh(now, ttl)),
{
    match entry {
        Some(c) => {
            if c.is_fresh(now, ttl) {
                CacheAction::UseStored
            } else {
                CacheAction::Refresh
            }
        },
        None => CacheAction::Refresh,
    }
}

/// Builds the entry a successful refresh stores: the payload under the
/// current time.
pub fn store_entry<T>(data: T, now: u64) -> (c: Cache<T>)
    requires
        now <= i64::MAX,
    ensures
        c.fetch_time == now,
        c.data == data,
{
    Cache { fetch_time: now as i64, data }
}

/// A lookup within the time-to-live of a successful refresh reuses the
/// stored payload and never refreshes again; a lookup at or past the
/// time-to-live refreshes.
pub proof fn lemma_cache_ttl_gate<T>(entry: Cache<T>, refreshed_at: u64, now: u64, ttl: u64)
    requires
        entry.fetch_time == refreshed_at,
        refreshed_at <= now,
    ensures
        now - refreshed_at < ttl ==> entry.spec_fresh(now, ttl),
        now - refreshed_at >= ttl ==> !entry.spec_fresh(now, ttl),
{
}

/// Relies on `std::time::SystemTime::now` and `duration_since`: the
/// number of whole seconds since the Unix epoch. Panics only if the
/// clock reads a time before the epoch. Nothing can be promised of the
/// clock's reading.
#[verifier::external_body]
fn system_seconds() -> u64 {
    std::time::SystemTime::now()
        .duration_since(std::time::UNIX_EPOCH)
        .expect("Time went backwards")
        .as_secs()
}

/// The current timestamp in seconds since the Unix epoch, as read from
/// the system clock; no two reads are related by any contract.
pub fn timestamp() -> u64 {
    system_seconds()
}

} // verus!
