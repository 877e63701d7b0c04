//! The pool of RPC endpoints: the blockhashes they gave and how fast they were.

use crate::cache::{added, is_fresh, later, BlockhashCache, CacheEntry, TIME_TO_LIVE};
use crate::clock::max_duration_nanos;
use crate::latency::RpcLatencyTracker;
use vstd::prelude::*;

verus! {

/// The milliseconds from the start of a round to that of the next: each endpoint
/// is asked once a second.
pub const ROUND_INTERVAL_MILLIS: u64 = 1_000;

/// The milliseconds from the start of a round of the monitor to that of the next.
pub const MONITOR_INTERVAL_MILLIS: u64 = 3_000;

/// What the pool knows of its endpoints.
pub struct RpcPool {
    pub cache: BlockhashCache,
    pub latency_tracker: RpcLatencyTracker,
}

/// The cached blockhashes after an endpoint answered at `now`, with a blockhash
/// or without one.
pub open spec fn answered(entries: Seq<CacheEntry>, blockhash: Option<String>, now: int) -> Seq<
    CacheEntry,
> {
    match blockhash {
        Some(blockhash) => added(entries, blockhash@, now),
        None => entries,
    }
}

impl Clone for RpcPool {
    fn clone(&self) -> (copy: Self)
        ensures
            copy.cache@ == self.cache@,
            copy.cache.clock() == self.cache.clock(),
            copy.cache.latest() == self.cache.latest(),
            copy.latency_tracker@ == self.latency_tracker@,
            self.wf() ==> copy.wf(),
    {
        RpcPool { cache: self.cache.clone(), latency_tracker: self.latency_tracker.clone() }
    }
}

impl RpcPool {
    /// Both parts of the pool are well formed.
    pub open spec fn wf(&self) -> bool {
        &&& self.cache.wf()
        &&& self.latency_tracker.wf()
    }

    /// A pool that knows of no endpoint yet.
    pub fn new() -> (pool: Self)
        ensures
            pool.wf(),
            pool.cache@ == Seq::<CacheEntry>::empty(),
            pool.latency_tracker@ == Map::<Seq<char>, int>::empty(),
    {
        RpcPool { cache: BlockhashCache::default(), latency_tracker: RpcLatencyTracker::default() }
    }

    /// Starts a round: drops the expired blockhashes.
    pub fn start_round(&mut self)
        requires
            old(self).wf(),
        ensures
            final(self).wf(),
            final(self).cache.clock() == old(self).cache.clock(),
            final(self).cache.latest() >= old(self).cache.latest(),
            final(self).cache.latest() == old(self).cache.latest() || final(self).cache.latest()
                <= max_duration_nanos(),
            final(self).cache@ == old(self).cache@.filter(is_fresh(final(self).cache.latest())),
            final(self).latency_tracker@ == old(self).latency_tracker@,
    {
        self.cache.prune();
    }

    /// Takes the answer of an endpoint to the question for its latest blockhash:
    /// the blockhash, or none where the endpoint failed, and the nanoseconds
    /// that it took. The latency counts either way.
    pub fn record_answer(&mut self, url: String, blockhash: Option<String>, latency: u128)
        requires
            old(self).wf(),
        ensures
            final(self).wf(),
            final(self).cache.clock() == old(self).cache.clock(),
            final(self).cache.latest() >= old(self).cache.latest(),
            final(self).cache.latest() == old(self).cache.latest() || final(self).cache.latest()
                <= max_duration_nanos(),
            final(self).cache@ == answered(
                old(self).cache@,
                blockhash,
                final(self).cache.latest(),
            ),
            match blockhash {
                Some(given) => final(self).cache@ == added(
                    old(self).cache@,
                    given@,
                    final(self).cache.latest(),
                ),
                None => final(self).cache@ == old(self).cache@,
            },
            final(self).latency_tracker@ == old(self).latency_tracker@.insert(
                url@,
                latency as int,
            ),
    {
        let now = self.cache.now();
        self.record_answer_at(url, blockhash, latency, now);
    }

    /// Takes the answer of an endpoint that came in at `now`. A time before the
    /// latest change of the cache counts as that.
    pub fn record_answer_at(
        &mut self,
        url: String,
        blockhash: Option<String>,
        latency: u128,
        now: u128,
    )
        requires
            old(self).wf(),
            now + TIME_TO_LIVE <= u128::MAX,
        ensures
            final(self).wf(),
            final(self).cache.clock() == old(self).cache.clock(),
            final(self).cache.latest() == if blockhash is Some {
                later(now as int, old(self).cache.latest())
            } else {
                old(self).cache.latest()
            },
            final(self).cache@ == answered(
                old(self).cache@,
                blockhash,
                final(self).cache.latest(),
            ),
            match blockhash {
                Some(given) => final(self).cache@ == added(
                    old(self).cache@,
                    given@,
                    final(self).cache.latest(),
                ),
                None => final(self).cache@ == old(self).cache@,
            },
            final(self).latency_tracker@ == old(self).latency_tracker@.insert(
                url@,
                latency as int,
            ),
    {
        if let Some(blockhash) = blockhash {
            self.cache.add_at(blockhash, now);
        }
        self.latency_tracker.update(url, latency);
    }
}

/// An answer with a blockhash adds it; one without leaves the cache as it is.
pub proof fn law_answer_adds_its_blockhash(
    entries: Seq<CacheEntry>,
    blockhash: String,
    now: int,
)
    ensures
        answered(entries, Some(blockhash), now) == added(entries, blockhash@, now),
        answered(entries, None, now) == entries,
{
}

/// A pool is well formed if and only if both its parts are.
pub proof fn law_well_formed_pool(pool: &RpcPool)
    ensures
        pool.wf() <==> pool.cache.wf() && pool.latency_tracker.wf(),
{
}

} // verus!
