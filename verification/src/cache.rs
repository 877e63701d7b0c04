//! A cache of the most recent blockhashes.

use crate::clock::{elapsed_nanos, instant_now, max_duration_nanos};
use crate::latency::NANOS_PER_MILLI;
use std::collections::VecDeque;
use std::time::Instant;
use vstd::prelude::*;

verus! {

broadcast use vstd::std_specs::vecdeque::group_vec_dequeue_axioms;

/// The number of blockhashes that a cache holds at most.
pub const CAPACITY: usize = 10;

/// The nanoseconds for which a blockhash stays usable: thirty seconds.
pub const TIME_TO_LIVE: u128 = 30_000_000_000;

/// A fetched blockhash along with its expiry, in nanoseconds of the clock of the
/// cache that holds it.
#[derive(Debug)]
pub struct CachedBlockhash {
    pub blockhash: String,
    pub expiry: u128,
}

/// What a `CachedBlockhash` holds.
pub struct CacheEntry {
    pub blockhash: Seq<char>,
    pub expiry: int,
}

impl View for CachedBlockhash {
    type V = CacheEntry;

    open spec fn view(&self) -> CacheEntry {
        CacheEntry { blockhash: self.blockhash@, expiry: self.expiry as int }
    }
}

impl Clone for CachedBlockhash {
    fn clone(&self) -> (copy: Self)
        ensures
            copy@ == self@,
    {
        CachedBlockhash { blockhash: self.blockhash.clone(), expiry: self.expiry }
    }
}

/// What each of `hashes` holds.
pub open spec fn entries_of(hashes: Seq<CachedBlockhash>) -> Seq<CacheEntry> {
    Seq::new(hashes.len(), |i: int| hashes[i]@)
}

/// Whether `entries` has an entry for `blockhash`.
pub open spec fn holds(entries: Seq<CacheEntry>, blockhash: Seq<char>) -> bool {
    exists|i: int| 0 <= i < entries.len() && #[trigger] entries[i].blockhash == blockhash
}

/// Whether no blockhash has two entries.
pub open spec fn unique(entries: Seq<CacheEntry>) -> bool {
    forall|i: int, j: int|
        0 <= i < j < entries.len() ==> (#[trigger] entries[i]).blockhash != (
        #[trigger] entries[j]).blockhash
}

/// The entries after `blockhash` has come in at `now`: unchanged if it was
/// there already; else with a new last entry, and without the oldest one where
/// that would be one too many.
pub open spec fn added(entries: Seq<CacheEntry>, blockhash: Seq<char>, now: int) -> Seq<
    CacheEntry,
> {
    let grown = entries.push(CacheEntry { blockhash, expiry: now + TIME_TO_LIVE });
    if holds(entries, blockhash) {
        entries
    } else if grown.len() > CAPACITY {
        grown.drop_first()
    } else {
        grown
    }
}

/// Whether `entries` expire in their order.
pub open spec fn in_order(entries: Seq<CacheEntry>) -> bool {
    forall|i: int, j: int|
        0 <= i < j < entries.len() ==> (#[trigger] entries[i]).expiry <= (
        #[trigger] entries[j]).expiry
}

/// Whether all of `entries` have expired once it is later than `time`.
pub open spec fn expire_by(entries: Seq<CacheEntry>, time: int) -> bool {
    forall|i: int| 0 <= i < entries.len() ==> (#[trigger] entries[i]).expiry <= time
}

/// Whether an entry is usable at `now`.
pub open spec fn is_fresh(now: int) -> spec_fn(CacheEntry) -> bool {
    |entry: CacheEntry| entry.expiry > now
}

/// The later of two times.
pub open spec fn later(one: int, other: int) -> int {
    if one < other {
        other
    } else {
        one
    }
}

/// The entries left once those at the front that have expired by `now` are gone.
pub open spec fn pruned(entries: Seq<CacheEntry>, now: int) -> Seq<CacheEntry>
    decreases entries.len(),
{
    if entries.len() > 0 && entries[0].expiry <= now {
        pruned(entries.drop_first(), now)
    } else {
        entries
    }
}

/// A simple cache that stores up to 10 unique blockhashes that expire after 30
/// seconds. Its clock counts from the making of the cache and never runs back.
pub struct BlockhashCache {
    hashes: VecDeque<CachedBlockhash>,
    origin: Instant,
    latest: u128,
}

impl View for BlockhashCache {
    type V = Seq<CacheEntry>;

    closed spec fn view(&self) -> Seq<CacheEntry> {
        entries_of(self.hashes@)
    }
}

impl Default for BlockhashCache {
    /// An empty cache.
    fn default() -> (cache: Self)
        ensures
            cache@ == Seq::<CacheEntry>::empty(),
            cache.latest() == 0,
            cache.wf(),
    {
        let cache = BlockhashCache { hashes: VecDeque::new(), origin: instant_now(), latest: 0 };
        assert(cache@ =~= Seq::<CacheEntry>::empty());
        cache
    }
}

impl Clone for BlockhashCache {
    /// A cache with the same entries and the same clock.
    fn clone(&self) -> (copy: Self)
        ensures
            copy@ == self@,
            copy.clock() == self.clock(),
            copy.latest() == self.latest(),
    {
        let mut hashes: VecDeque<CachedBlockhash> = VecDeque::new();
        let mut i: usize = 0;
        while i < self.hashes.len()
            invariant
                i == hashes@.len() <= self.hashes@.len(),
                forall|k: int| 0 <= k < i ==> (#[trigger] hashes@[k])@ == self.hashes@[k]@,
            decreases self.hashes@.len() - i,
        {
            hashes.push_back(self.hashes[i].clone());
            i += 1;
        }
        let copy = BlockhashCache { hashes, origin: self.origin, latest: self.latest };
        assert(copy@ =~= self@);
        copy
    }
}

impl BlockhashCache {
    /// The cache holds no blockhash twice and no more than its capacity; its
    /// entries expire in their order, none later than one that is added now.
    pub open spec fn wf(&self) -> bool {
        &&& self@.len() <= CAPACITY
        &&& unique(self@)
        &&& in_order(self@)
        &&& expire_by(self@, self.latest() + TIME_TO_LIVE)
        &&& 0 <= self.latest() <= u128::MAX - TIME_TO_LIVE
    }

    /// The reading that the clock of the cache counts from.
    pub closed spec fn clock(&self) -> Instant {
        self.origin
    }

    /// The latest time at which the cache was changed, in nanoseconds of its clock.
    pub closed spec fn latest(&self) -> int {
        self.latest as int
    }

    /// The nanoseconds since the cache was made: what its clock reads, or the time
    /// of its latest change where that is later.
    pub fn now(&self) -> (now: u128)
        ensures
            now >= self.latest(),
            now == self.latest() || now <= max_duration_nanos(),
    {
        self.not_before_latest(elapsed_nanos(&self.origin))
    }

    /// `now`, or the time of the latest change where that is later.
    fn not_before_latest(&self, now: u128) -> (time: u128)
        ensures
            time == later(now as int, self.latest()),
    {
        if now < self.latest {
            self.latest
        } else {
            now
        }
    }

    /// Adds a new blockhash if it is not already present.
    pub fn add(&mut self, blockhash: String)
        requires
            old(self).wf(),
        ensures
            final(self).wf(),
            final(self).clock() == old(self).clock(),
            final(self).latest() >= old(self).latest(),
            final(self).latest() == old(self).latest() || final(self).latest()
                <= max_duration_nanos(),
            final(self)@ == added(old(self)@, blockhash@, final(self).latest()),
    {
        let now = self.now();
        self.add_at(blockhash, now);
    }

    /// Adds a blockhash that came in at `now` if it is not already present. A time
    /// before the latest change counts as that.
    pub fn add_at(&mut self, blockhash: String, now: u128)
        requires
            old(self).wf(),
            now + TIME_TO_LIVE <= u128::MAX,
        ensures
            final(self).wf(),
            final(self).clock() == old(self).clock(),
            final(self).latest() == later(now as int, old(self).latest()),
            final(self)@ == added(old(self)@, blockhash@, final(self).latest()),
    {
        self.latest = self.not_before_latest(now);
        let expiry: u128 = self.latest + TIME_TO_LIVE;
        let ghost before = self@;
        proof {
            law_entries_stay_in_order(before, blockhash@, self.latest());
        }
        if !self.contains(&blockhash) {
            self.hashes.push_back(CachedBlockhash { blockhash, expiry });
            let ghost grown = before.push(
                CacheEntry { blockhash: blockhash@, expiry: expiry as int },
            );
            assert(self@ =~= grown);
            if self.hashes.len() > CAPACITY {
                let _ = self.hashes.pop_front();
                assert(self@ =~= grown.drop_first());
            }
        }
    }

    /// Whether the cache holds `blockhash`.
    fn contains(&self, blockhash: &String) -> (found: bool)
        ensures
            found == holds(self@, blockhash@),
    {
        let mut i: usize = 0;
        while i < self.hashes.len()
            invariant
                i <= self.hashes@.len(),
                forall|k: int| 0 <= k < i ==> (#[trigger] self@[k]).blockhash != blockhash@,
            decreases self.hashes@.len() - i,
        {
            if self.hashes[i].blockhash == *blockhash {
                assert(self@[i as int].blockhash == blockhash@);
                return true;
            }
            i += 1;
        }
        false
    }

    /// Removes expired blockhashes from the cache.
    pub fn prune(&mut self)
        requires
            old(self).wf(),
        ensures
            final(self).wf(),
            final(self).clock() == old(self).clock(),
            final(self).latest() >= old(self).latest(),
            final(self).latest() == old(self).latest() || final(self).latest()
                <= max_duration_nanos(),
            final(self)@ == old(self)@.filter(is_fresh(final(self).latest())),
    {
        let now = self.now();
        self.prune_at(now);
    }

    /// Removes the blockhashes that have expired by `now`. A time before the latest
    /// change counts as that.
    pub fn prune_at(&mut self, now: u128)
        requires
            old(self).wf(),
            now + TIME_TO_LIVE <= u128::MAX,
        ensures
            final(self).wf(),
            final(self).clock() == old(self).clock(),
            final(self).latest() == later(now as int, old(self).latest()),
            final(self)@ == old(self)@.filter(is_fresh(final(self).latest())),
    {
        self.latest = self.not_before_latest(now);
        proof {
            law_prune_leaves_the_fresh(self@, self.latest());
        }
        while self.hashes.len() > 0 && self.hashes[0].expiry <= self.latest
            invariant
                self.wf(),
                self.clock() == old(self).clock(),
                self.latest() == later(now as int, old(self).latest()),
                pruned(self@, self.latest()) == pruned(old(self)@, self.latest()),
            decreases self.hashes@.len(),
        {
            let ghost before = self@;
            let _ = self.hashes.pop_front();
            assert(self@ =~= before.drop_first());
        }
    }

    /// Returns all currently cached blockhashes, oldest first.
    pub fn get_all(&self) -> (all: Vec<CachedBlockhash>)
        ensures
            entries_of(all@) == self@,
    {
        let mut all: Vec<CachedBlockhash> = Vec::new();
        let mut i: usize = 0;
        while i < self.hashes.len()
            invariant
                i == all@.len() <= self.hashes@.len(),
                forall|k: int| 0 <= k < i ==> (#[trigger] all@[k])@ == self.hashes@[k]@,
            decreases self.hashes@.len() - i,
        {
            all.push(self.hashes[i].clone());
            i += 1;
        }
        assert(entries_of(all@) =~= self@);
        all
    }
}

impl CachedBlockhash {
    /// The milliseconds until the blockhash expires, when its cache's clock
    /// shows `now`: none once it has.
    pub fn remaining_millis(&self, now: u128) -> (millis: u128)
        ensures
            millis == if self@.expiry > now {
                (self@.expiry - now) / NANOS_PER_MILLI as int
            } else {
                0
            },
    {
        if self.expiry > now {
            (self.expiry - now) / NANOS_PER_MILLI
        } else {
            0
        }
    }
}

/// A blockhash that is there already does not change the cache; its expiry is
/// not put off.
pub proof fn law_present_blockhash_changes_nothing(
    entries: Seq<CacheEntry>,
    blockhash: Seq<char>,
    first: int,
    second: int,
)
    ensures
        added(added(entries, blockhash, first), blockhash, second) == added(
            entries,
            blockhash,
            first,
        ),
{
    let once = added(entries, blockhash, first);
    if !holds(entries, blockhash) {
        assert(once[once.len() - 1].blockhash == blockhash);
    }
    assert(holds(once, blockhash));
}

/// A blockhash that was added is there, as the newest one if it was not there
/// before.
pub proof fn law_added_blockhash_is_held(
    entries: Seq<CacheEntry>,
    blockhash: Seq<char>,
    now: int,
)
    ensures
        holds(added(entries, blockhash, now), blockhash),
        !holds(entries, blockhash) ==> added(entries, blockhash, now).last() == (CacheEntry {
            blockhash,
            expiry: now + TIME_TO_LIVE,
        }),
{
    let once = added(entries, blockhash, now);
    if !holds(entries, blockhash) {
        assert(once[once.len() - 1].blockhash == blockhash);
    }
}

/// As long as the clock does not run back, the entries expire in their order.
pub proof fn law_entries_stay_in_order(entries: Seq<CacheEntry>, blockhash: Seq<char>, now: int)
    requires
        in_order(entries),
        expire_by(entries, now + TIME_TO_LIVE),
    ensures
        in_order(added(entries, blockhash, now)),
        expire_by(added(entries, blockhash, now), now + TIME_TO_LIVE),
        in_order(pruned(entries, now)),
        expire_by(pruned(entries, now), now + TIME_TO_LIVE),
{
    lemma_pruned_is_suffix(entries, now);
}

/// Pruning takes entries from the front alone.
proof fn lemma_pruned_is_suffix(entries: Seq<CacheEntry>, now: int)
    ensures
        pruned(entries, now).len() <= entries.len(),
        pruned(entries, now) == entries.skip(entries.len() - pruned(entries, now).len()),
    decreases entries.len(),
{
    if entries.len() > 0 && entries[0].expiry <= now {
        let rest = entries.drop_first();
        lemma_pruned_is_suffix(rest, now);
        assert(rest.skip(rest.len() - pruned(rest, now).len()) =~= entries.skip(
            entries.len() - pruned(rest, now).len(),
        ));
    } else {
        assert(entries.skip(0) =~= entries);
    }
}

/// Where the entries expire in their order, pruning leaves exactly those that
/// have not expired.
pub proof fn law_prune_leaves_the_fresh(entries: Seq<CacheEntry>, now: int)
    requires
        in_order(entries),
    ensures
        pruned(entries, now) == entries.filter(is_fresh(now)),
    decreases entries.len(),
{
    reveal(Seq::filter);
    if entries.len() > 0 {
        if entries[0].expiry <= now {
            let rest = entries.drop_first();
            law_prune_leaves_the_fresh(rest, now);
            lemma_filter_drops_first(entries, is_fresh(now));
        } else {
            lemma_filter_keeps_all(entries, is_fresh(now));
        }
    }
}

/// A first element that a filter drops can be left out before.
proof fn lemma_filter_drops_first(entries: Seq<CacheEntry>, keep: spec_fn(CacheEntry) -> bool)
    requires
        entries.len() > 0,
        !keep(entries[0]),
    ensures
        entries.filter(keep) == entries.drop_first().filter(keep),
    decreases entries.len(),
{
    reveal(Seq::filter);
    if entries.len() > 1 {
        lemma_filter_drops_first(entries.drop_last(), keep);
        assert(entries.drop_first().drop_last() =~= entries.drop_last().drop_first());
    } else {
        assert(entries.drop_last().filter(keep) =~= Seq::<CacheEntry>::empty());
        assert(entries.drop_first().filter(keep) =~= Seq::<CacheEntry>::empty());
    }
}

/// A filter that drops nothing changes nothing.
proof fn lemma_filter_keeps_all(entries: Seq<CacheEntry>, keep: spec_fn(CacheEntry) -> bool)
    requires
        forall|i: int| 0 <= i < entries.len() ==> keep(#[trigger] entries[i]),
    ensures
        entries.filter(keep) == entries,
    decreases entries.len(),
{
    reveal(Seq::filter);
    if entries.len() > 0 {
        lemma_filter_keeps_all(entries.drop_last(), keep);
        assert(entries.drop_last().push(entries.last()) =~= entries);
    } else {
        assert(entries.filter(keep) =~= entries);
    }
}

/// The entries of a new cache to which `hashes` were added in their order, each
/// at its time.
pub open spec fn all_added(hashes: Seq<Seq<char>>, times: Seq<int>) -> Seq<CacheEntry>
    decreases hashes.len(),
{
    if hashes.len() == 0 {
        Seq::empty()
    } else {
        added(all_added(hashes.drop_last(), times), hashes.last(), times[hashes.len() - 1])
    }
}

/// Of blockhashes that all differ, the cache holds the ten most recent, in their
/// order.
pub proof fn law_cache_holds_the_most_recent(hashes: Seq<Seq<char>>, times: Seq<int>)
    requires
        hashes.no_duplicates(),
    ensures
        ({
            let entries = all_added(hashes, times);
            let skipped = hashes.len() - entries.len();
            &&& entries.len() == if hashes.len() <= CAPACITY {
                hashes.len() as int
            } else {
                CAPACITY as int
            }
            &&& forall|i: int|
                0 <= i < entries.len() ==> (#[trigger] entries[i]) == (CacheEntry {
                    blockhash: hashes[skipped + i],
                    expiry: times[skipped + i] + TIME_TO_LIVE,
                })
        }),
    decreases hashes.len(),
{
    if hashes.len() > 0 {
        let before = all_added(hashes.drop_last(), times);
        law_cache_holds_the_most_recent(hashes.drop_last(), times);
        assert(!holds(before, hashes.last())) by {
            if holds(before, hashes.last()) {
                let i = choose|i: int|
                    0 <= i < before.len() && #[trigger] before[i].blockhash == hashes.last();
                let k = hashes.len() - 1 - before.len() + i;
                assert(hashes.drop_last()[k] == hashes[k]);
                assert(hashes[k] == hashes[hashes.len() - 1]);
            }
        }
    }
}

/// A blockhash that is there leaves the cache as it is. A new one goes to the end,
/// to expire thirty seconds later, and of the others the nine most recent stay, in
/// their order.
pub proof fn law_new_blockhash_goes_to_the_end(
    entries: Seq<CacheEntry>,
    blockhash: Seq<char>,
    now: int,
)
    requires
        entries.len() <= 10,
    ensures
        ({
            let after = added(entries, blockhash, now);
            let held = exists|i: int|
                0 <= i < entries.len() && (#[trigger] entries[i]).blockhash == blockhash;
            &&& held ==> after == entries
            &&& !held ==> {
                let stay = if entries.len() < 10 {
                    entries.len() as int
                } else {
                    9
                };
                after == entries.skip(entries.len() - stay).push(
                    CacheEntry { blockhash, expiry: now + 30_000_000_000 },
                )
            }
        }),
{
    let after = added(entries, blockhash, now);
    if !holds(entries, blockhash) {
        let stay = if entries.len() < 10 {
            entries.len() as int
        } else {
            9
        };
        assert(after =~= entries.skip(entries.len() - stay).push(
            CacheEntry { blockhash, expiry: now + 30_000_000_000 },
        ));
    }
}

/// Of entries that expire in their order, pruning leaves the last ones: those that
/// expire after the time, every one of them, and no other.
pub proof fn law_prune_takes_what_has_expired(entries: Seq<CacheEntry>, now: int)
    requires
        forall|i: int, j: int|
            0 <= i < j < entries.len() ==> (#[trigger] entries[i]).expiry <= (
            #[trigger] entries[j]).expiry,
    ensures
        ({
            let left = entries.filter(is_fresh(now));
            let gone = entries.len() - left.len();
            &&& 0 <= gone
            &&& left == entries.skip(gone)
            &&& forall|i: int|
                0 <= i < entries.len() ==> ((#[trigger] entries[i]).expiry <= now <==> i < gone)
        }),
{
    law_prune_leaves_the_fresh(entries, now);
    lemma_pruned_is_suffix(entries, now);
    lemma_pruned_are_expired(entries, now);
}

/// What pruning takes has expired, and where it stops, nothing behind has.
proof fn lemma_pruned_are_expired(entries: Seq<CacheEntry>, now: int)
    requires
        in_order(entries),
    ensures
        pruned(entries, now).len() <= entries.len(),
        forall|i: int|
            0 <= i < entries.len() ==> ((#[trigger] entries[i]).expiry <= now <==> i < entries.len()
                - pruned(entries, now).len()),
    decreases entries.len(),
{
    if entries.len() > 0 && entries[0].expiry <= now {
        let rest = entries.drop_first();
        lemma_pruned_are_expired(rest, now);
        assert forall|i: int| 0 <= i < entries.len() implies ((#[trigger] entries[i]).expiry <= now
            <==> i < entries.len() - pruned(entries, now).len()) by {
            if i > 0 {
                assert(rest[i - 1] == entries[i]);
            } else {
                lemma_pruned_is_suffix(rest, now);
            }
        }
    }
}

/// An entry is usable as long as its expiry has not come.
pub proof fn law_usable_until_expiry(entry: CacheEntry, now: int)
    ensures
        is_fresh(now)(entry) <==> now < entry.expiry,
{
}

/// Of two times the later is one of them, and neither is later than that.
pub proof fn law_later_of_two_times(one: int, other: int)
    ensures
        later(one, other) == one || later(one, other) == other,
        one <= later(one, other),
        other <= later(one, other),
{
}

/// A list of cached blockhashes is told entry by entry, in its order.
pub proof fn law_entries_are_told_in_order(hashes: Seq<CachedBlockhash>)
    ensures
        entries_of(hashes).len() == hashes.len(),
        forall|i: int|
            0 <= i < hashes.len() ==> (#[trigger] entries_of(hashes)[i]).blockhash
                == hashes[i].blockhash@ && entries_of(hashes)[i].expiry == hashes[i].expiry,
{
}

/// A cache that is well formed holds ten blockhashes at most, no two the same, which
/// expire in their order, the last of them no more than thirty seconds after the
/// latest change.
pub proof fn law_well_formed_cache(cache: &BlockhashCache)
    requires
        cache.wf(),
    ensures
        cache@.len() <= 10,
        forall|i: int, j: int|
            0 <= i < j < cache@.len() ==> (#[trigger] cache@[i]).blockhash != (
            #[trigger] cache@[j]).blockhash && cache@[i].expiry <= cache@[j].expiry,
        forall|i: int|
            0 <= i < cache@.len() ==> (#[trigger] cache@[i]).expiry <= cache.latest()
                + 30_000_000_000,
{
}

/// The clock of a cache counts from one reading, which is its own.
proof fn lemma_clock_counts_from_the_origin(cache: &BlockhashCache)
    ensures
        cache.clock() == cache.origin,
        cache.latest() == cache.latest,
{
}

} // verus!
