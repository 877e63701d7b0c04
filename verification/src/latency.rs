//! How fast the RPC endpoints answer.

use vstd::prelude::*;

verus! {

/// The nanoseconds of a millisecond.
pub const NANOS_PER_MILLI: u128 = 1_000_000;

/// The latest latency of each RPC endpoint, in nanoseconds.
pub struct RpcLatencyTracker {
    latencies: Vec<(String, u128)>,
}

/// Whether `latencies` has an entry for `url`.
spec fn listed(latencies: Seq<(String, u128)>, url: Seq<char>) -> bool {
    exists|i: int| 0 <= i < latencies.len() && (#[trigger] latencies[i]).0@ == url
}

/// The latency of `url` in `latencies`.
spec fn latency_of(latencies: Seq<(String, u128)>, url: Seq<char>) -> int {
    let at = choose|i: int| 0 <= i < latencies.len() && (#[trigger] latencies[i]).0@ == url;
    latencies[at].1 as int
}

/// The texts of `urls`.
pub open spec fn texts(urls: Seq<String>) -> Seq<Seq<char>> {
    Seq::new(urls.len(), |i: int| urls[i]@)
}

/// Whether `urls` are those that have a latency, each once, the fastest first.
pub open spec fn fastest_first(urls: Seq<Seq<char>>, latencies: Map<Seq<char>, int>) -> bool {
    &&& urls.no_duplicates()
    &&& forall|url: Seq<char>|
        #![trigger urls.contains(url)]
        #![trigger latencies.contains_key(url)]
        urls.contains(url) <==> latencies.contains_key(url)
    &&& forall|i: int, j: int|
        0 <= i < j < urls.len() ==> latencies[#[trigger] urls[i]] <= latencies[#[trigger] urls[j]]
}

impl View for RpcLatencyTracker {
    type V = Map<Seq<char>, int>;

    closed spec fn view(&self) -> Map<Seq<char>, int> {
        Map::new(
            |url: Seq<char>| listed(self.latencies@, url),
            |url: Seq<char>| latency_of(self.latencies@, url),
        )
    }
}

impl Default for RpcLatencyTracker {
    /// A tracker without endpoints.
    fn default() -> (tracker: Self)
        ensures
            tracker@ == Map::<Seq<char>, int>::empty(),
            tracker.wf(),
    {
        let tracker = RpcLatencyTracker { latencies: Vec::new() };
        assert(tracker@ =~= Map::<Seq<char>, int>::empty());
        tracker
    }
}

impl Clone for RpcLatencyTracker {
    fn clone(&self) -> (copy: Self)
        ensures
            copy@ == self@,
            self.wf() ==> copy.wf(),
    {
        let mut latencies: Vec<(String, u128)> = Vec::new();
        let mut i: usize = 0;
        while i < self.latencies.len()
            invariant
                i == latencies@.len() <= self.latencies@.len(),
                latencies@ == self.latencies@.take(i as int),
            decreases self.latencies@.len() - i,
        {
            latencies.push((self.latencies[i].0.clone(), self.latencies[i].1));
            assert(latencies@ =~= self.latencies@.take(i + 1));
            i += 1;
        }
        assert(self.latencies@.take(i as int) =~= self.latencies@);
        RpcLatencyTracker { latencies }
    }
}

impl RpcLatencyTracker {
    /// No endpoint is listed twice.
    pub closed spec fn wf(&self) -> bool {
        forall|i: int, j: int|
            0 <= i < j < self.latencies@.len() ==> (#[trigger] self.latencies@[i]).0@ != (
            #[trigger] self.latencies@[j]).0@
    }

    /// What the tracker says of the endpoint at a place of its list.
    proof fn lemma_listed(&self, at: int)
        requires
            self.wf(),
            0 <= at < self.latencies@.len(),
        ensures
            self@.contains_key(self.latencies@[at].0@),
            self@[self.latencies@[at].0@] == self.latencies@[at].1,
    {
        let url = self.latencies@[at].0@;
        assert(listed(self.latencies@, url));
        let chosen = choose|i: int|
            0 <= i < self.latencies@.len() && (#[trigger] self.latencies@[i]).0@ == url;
        assert(chosen == at);
    }

    /// Updates the latency for a given RPC URL.
    pub fn update(&mut self, url: String, latency: u128)
        requires
            old(self).wf(),
        ensures
            final(self).wf(),
            final(self)@ == old(self)@.insert(url@, latency as int),
    {
        let ghost before = *self;
        let mut i: usize = 0;
        while i < self.latencies.len()
            invariant
                *self == before,
                before == *old(self),
                self.wf(),
                i <= self.latencies@.len(),
                forall|k: int| 0 <= k < i ==> (#[trigger] self.latencies@[k]).0@ != url@,
            decreases self.latencies@.len() - i,
        {
            if self.latencies[i].0 == url {
                self.latencies.set(i, (url, latency));
                proof {
                    self.lemma_changed(&before, url@, latency as int, i as int);
                }
                return;
            }
            i += 1;
        }
        self.latencies.push((url, latency));
        proof {
            self.lemma_changed(&before, url@, latency as int, i as int);
        }
    }

    /// A list that differs from another at one place, which it has for `url`,
    /// tells of the other endpoints what the other does.
    proof fn lemma_changed(&self, before: &Self, url: Seq<char>, latency: int, at: int)
        requires
            before.wf(),
            0 <= at < self.latencies@.len(),
            at <= before.latencies@.len(),
            self.latencies@.len() == if at == before.latencies@.len() {
                at + 1
            } else {
                before.latencies@.len() as int
            },
            self.latencies@[at].0@ == url,
            self.latencies@[at].1 == latency,
            at < before.latencies@.len() ==> before.latencies@[at].0@ == url,
            at == before.latencies@.len() ==> !listed(before.latencies@, url),
            forall|k: int|
                0 <= k < self.latencies@.len() && k != at ==> self.latencies@[k]
                    == before.latencies@[k],
        ensures
            self.wf(),
            self@ == before@.insert(url, latency),
    {
        assert(self.wf()) by {
            assert forall|i: int, j: int| 0 <= i < j < self.latencies@.len() implies (
            #[trigger] self.latencies@[i]).0@ != (#[trigger] self.latencies@[j]).0@ by {
                if i != at {
                    assert(self.latencies@[i] == before.latencies@[i]);
                }
                if j != at {
                    assert(self.latencies@[j] == before.latencies@[j]);
                }
            }
        }
        let after = before@.insert(url, latency);
        assert forall|key: Seq<char>| self@.contains_key(key) == after.contains_key(key) by {
            if self@.contains_key(key) && key != url {
                let i = choose|i: int|
                    0 <= i < self.latencies@.len() && (#[trigger] self.latencies@[i]).0@ == key;
                assert(before.latencies@[i].0@ == key);
            }
            if before@.contains_key(key) && key != url {
                let i = choose|i: int|
                    0 <= i < before.latencies@.len() && (#[trigger] before.latencies@[i]).0@ == key;
                assert(self.latencies@[i].0@ == key);
            }
            if key == url {
                self.lemma_listed(at);
            }
        }
        assert forall|key: Seq<char>| self@.contains_key(key) implies self@[key] == after[key] by {
            let i = choose|i: int|
                0 <= i < self.latencies@.len() && (#[trigger] self.latencies@[i]).0@ == key;
            self.lemma_listed(i);
            if key != url {
                assert(self.latencies@[i] == before.latencies@[i]);
                before.lemma_listed(i);
            } else {
                self.lemma_listed(at);
            }
        }
        assert(self@ =~= after);
    }

    /// The places of the list, the fastest endpoint first; those that are
    /// equally fast in the order of the list.
    fn sorted_places(&self) -> (places: Vec<usize>)
        ensures
            places@.len() == self.latencies@.len(),
            places@.no_duplicates(),
            forall|k: int| 0 <= k < places@.len() ==> #[trigger] places@[k] < self.latencies@.len(),
            forall|p: usize| p < self.latencies@.len() ==> places@.contains(p),
            forall|i: int, j: int|
                0 <= i < j < places@.len() ==> self.latencies@[#[trigger] places@[i] as int].1
                    <= self.latencies@[#[trigger] places@[j] as int].1,
    {
        let mut places: Vec<usize> = Vec::new();
        let mut next: usize = 0;
        while next < self.latencies.len()
            invariant
                next == places@.len() <= self.latencies@.len(),
                places@.no_duplicates(),
                forall|k: int| 0 <= k < places@.len() ==> #[trigger] places@[k] < next,
                forall|p: usize| p < next ==> places@.contains(p),
                forall|i: int, j: int|
                    0 <= i < j < places@.len() ==> self.latencies@[#[trigger] places@[i] as int].1
                        <= self.latencies@[#[trigger] places@[j] as int].1,
            decreases self.latencies@.len() - next,
        {
            let latency = self.latencies[next].1;
            let mut at: usize = places.len();
            while at > 0 && self.latencies[places[at - 1]].1 > latency
                invariant
                    next < self.latencies@.len(),
                    latency == self.latencies@[next as int].1,
                    next == places@.len(),
                    at <= places@.len(),
                    forall|k: int| 0 <= k < places@.len() ==> #[trigger] places@[k] < next,
                    forall|k: int|
                        at <= k < places@.len() ==> self.latencies@[#[trigger] places@[k] as int].1
                            > latency,
                decreases at,
            {
                at -= 1;
            }
            let ghost before = places@;
            places.insert(at, next);
            proof {
                assert forall|p: usize| p < next + 1 implies places@.contains(p) by {
                    if p == next {
                        assert(places@[at as int] == p);
                    } else {
                        assert(before.contains(p));
                        let k = choose|k: int| 0 <= k < before.len() && before[k] == p;
                        if k < at {
                            assert(places@[k] == p);
                        } else {
                            assert(places@[k + 1] == p);
                        }
                    }
                }
            }
            next += 1;
        }
        places
    }

    /// Returns the RPC URLs sorted by lowest latency.
    pub fn get_sorted_rpcs(&self) -> (urls: Vec<String>)
        requires
            self.wf(),
        ensures
            fastest_first(texts(urls@), self@),
            forall|i: int, j: int|
                0 <= i < j < urls@.len() ==> self@[(#[trigger] urls@[i])@] <= self@[(
                #[trigger] urls@[j])@] && urls@[i]@ != urls@[j]@,
            forall|i: int| 0 <= i < urls@.len() ==> self@.contains_key((#[trigger] urls@[i])@),
            forall|url: Seq<char>| #[trigger]
                self@.contains_key(url) ==> exists|i: int|
                    0 <= i < urls@.len() && (#[trigger] urls@[i])@ == url,
    {
        let places = self.sorted_places();
        let mut urls: Vec<String> = Vec::new();
        let mut i: usize = 0;
        while i < places.len()
            invariant
                i == urls@.len() <= places@.len(),
                forall|k: int|
                    0 <= k < places@.len() ==> #[trigger] places@[k] < self.latencies@.len(),
                forall|k: int|
                    0 <= k < i ==> (#[trigger] urls@[k])@ == self.latencies@[places@[k] as int].0@,
            decreases places@.len() - i,
        {
            urls.push(self.latencies[places[i]].0.clone());
            i += 1;
        }
        proof {
            self.lemma_sorted(places@, texts(urls@));
            law_sorted_endpoints_are_all_of_them(texts(urls@), self@);
            assert forall|i: int, j: int| 0 <= i < j < urls@.len() implies self@[(
            #[trigger] urls@[i])@] <= self@[(#[trigger] urls@[j])@] && urls@[i]@ != urls@[j]@ by {
                assert(texts(urls@)[i] == urls@[i]@ && texts(urls@)[j] == urls@[j]@);
            }
            assert forall|i: int| 0 <= i < urls@.len() implies self@.contains_key(
                (#[trigger] urls@[i])@,
            ) by {
                assert(texts(urls@)[i] == urls@[i]@);
            }
            assert forall|url: Seq<char>| #[trigger] self@.contains_key(url) implies exists|i: int|
                0 <= i < urls@.len() && (#[trigger] urls@[i])@ == url by {
                let i = choose|i: int| 0 <= i < texts(urls@).len() && texts(urls@)[i] == url;
                assert(urls@[i]@ == url);
            }
        }
        urls
    }

    /// The endpoints at sorted places are sorted.
    proof fn lemma_sorted(&self, places: Seq<usize>, urls: Seq<Seq<char>>)
        requires
            self.wf(),
            places.len() == urls.len(),
            places.no_duplicates(),
            forall|k: int| 0 <= k < places.len() ==> #[trigger] places[k] < self.latencies@.len(),
            forall|p: usize| p < self.latencies@.len() ==> places.contains(p),
            forall|i: int, j: int|
                0 <= i < j < places.len() ==> self.latencies@[#[trigger] places[i] as int].1
                    <= self.latencies@[#[trigger] places[j] as int].1,
            forall|k: int|
                0 <= k < urls.len() ==> #[trigger] urls[k] == self.latencies@[places[k] as int].0@,
        ensures
            fastest_first(urls, self@),
    {
        assert forall|k: int| 0 <= k < urls.len() implies self@.contains_key(#[trigger] urls[k])
            && self@[urls[k]] == self.latencies@[places[k] as int].1 by {
            self.lemma_listed(places[k] as int);
        }
        assert forall|url: Seq<char>| self@.contains_key(url) implies urls.contains(url) by {
            let at = choose|i: int|
                0 <= i < self.latencies@.len() && (#[trigger] self.latencies@[i]).0@ == url;
            assert(self.latencies.len() == self.latencies@.len());
            let p = at as usize;
            assert(places.contains(p));
            let k = choose|k: int| 0 <= k < places.len() && places[k] == p;
            assert(urls[k] == url);
        }
    }

    /// Reports the current latencies in milliseconds, the fastest endpoint first.
    pub fn log_latencies(&self) -> (report: Vec<(String, u128)>)
        requires
            self.wf(),
        ensures
            fastest_first(Seq::new(report@.len(), |i: int| report@[i].0@), self@),
            forall|i: int|
                0 <= i < report@.len() ==> (#[trigger] report@[i]).1 == self@[report@[i].0@]
                    / NANOS_PER_MILLI as int,
    {
        let places = self.sorted_places();
        let mut report: Vec<(String, u128)> = Vec::new();
        let mut i: usize = 0;
        while i < places.len()
            invariant
                i == report@.len() <= places@.len(),
                forall|k: int|
                    0 <= k < places@.len() ==> #[trigger] places@[k] < self.latencies@.len(),
                forall|k: int|
                    0 <= k < i ==> (#[trigger] report@[k]).0@ == self.latencies@[places@[k] as int].0@
                        && report@[k].1 == self.latencies@[places@[k] as int].1 / NANOS_PER_MILLI,
            decreases places@.len() - i,
        {
            let entry = &self.latencies[places[i]];
            report.push((entry.0.clone(), entry.1 / NANOS_PER_MILLI));
            i += 1;
        }
        proof {
            self.lemma_sorted(places@, Seq::new(report@.len(), |i: int| report@[i].0@));
            assert forall|i: int| 0 <= i < report@.len() implies (#[trigger] report@[i]).1
                == self@[report@[i].0@] / NANOS_PER_MILLI as int by {
                self.lemma_listed(places@[i] as int);
            }
        }
        report
    }
}

/// Whether no two endpoints are equally fast.
pub open spec fn all_differ(latencies: Map<Seq<char>, int>) -> bool {
    forall|one: Seq<char>, other: Seq<char>|
        latencies.contains_key(one) && latencies.contains_key(other) && one != other
            ==> #[trigger] latencies[one] != #[trigger] latencies[other]
}

/// Whether each of `urls` is faster than those behind it.
spec fn ascending(urls: Seq<Seq<char>>, latencies: Map<Seq<char>, int>) -> bool {
    forall|i: int, j: int|
        0 <= i < j < urls.len() ==> latencies[#[trigger] urls[i]] < latencies[#[trigger] urls[j]]
}

/// Whether an endpoint is faster than `latency`.
pub open spec fn is_faster(latencies: Map<Seq<char>, int>, latency: int) -> spec_fn(
    Seq<char>,
) -> bool {
    |url: Seq<char>| latencies[url] < latency
}

/// Where no two endpoints are equally fast, each is faster than those behind it.
proof fn lemma_ascending(urls: Seq<Seq<char>>, latencies: Map<Seq<char>, int>)
    requires
        fastest_first(urls, latencies),
        all_differ(latencies),
    ensures
        ascending(urls, latencies),
{
    assert forall|i: int, j: int| 0 <= i < j < urls.len() implies latencies[#[trigger] urls[i]]
        < latencies[#[trigger] urls[j]] by {
        assert(urls.contains(urls[i]) && urls.contains(urls[j]));
        assert(latencies.contains_key(urls[i]) && latencies.contains_key(urls[j]));
    }
}

/// Ascending lists of the same endpoints are the same.
proof fn lemma_same_order(
    one: Seq<Seq<char>>,
    other: Seq<Seq<char>>,
    latencies: Map<Seq<char>, int>,
)
    requires
        ascending(one, latencies),
        ascending(other, latencies),
        forall|url: Seq<char>| #[trigger] one.contains(url) <==> other.contains(url),
    ensures
        one == other,
    decreases one.len(),
{
    if one.len() == 0 {
        if other.len() > 0 {
            assert(other.contains(other[0]));
            assert(one.contains(other[0]));
        }
        assert(one =~= other);
    } else {
        let last = one.len() - 1;
        assert(one.contains(one[last]));
        let k = choose|k: int| 0 <= k < other.len() && other[k] == one[last];
        let end = other.len() - 1;
        assert(other.contains(other[end]));
        assert(one.contains(other[end]));
        let j = choose|j: int| 0 <= j < one.len() && one[j] == other[end];
        assert(k == end) by {
            if k < end {
                assert(latencies[other[k]] < latencies[other[end]]);
                assert(latencies[one[j]] <= latencies[one[last]]);
            }
        }
        let one_rest = one.drop_last();
        let other_rest = other.drop_last();
        assert forall|url: Seq<char>| #[trigger] one_rest.contains(url) implies other_rest.contains(
            url,
        ) by {
            let i = choose|i: int| 0 <= i < one_rest.len() && one_rest[i] == url;
            assert(one[i] == url && latencies[one[i]] < latencies[one[last]]);
            assert(one.contains(url));
            let at = choose|at: int| 0 <= at < other.len() && other[at] == url;
            assert(at != end);
            assert(other_rest[at] == url);
        }
        assert forall|url: Seq<char>| #[trigger] other_rest.contains(url) implies one_rest.contains(
            url,
        ) by {
            let i = choose|i: int| 0 <= i < other_rest.len() && other_rest[i] == url;
            assert(other[i] == url && latencies[other[i]] < latencies[other[end]]);
            assert(other.contains(url));
            assert(one.contains(url));
            let at = choose|at: int| 0 <= at < one.len() && one[at] == url;
            assert(at != last);
            assert(one_rest[at] == url);
        }
        lemma_same_order(one_rest, other_rest, latencies);
        assert(one =~= one_rest.push(one[last]));
        assert(other =~= other_rest.push(other[end]));
    }
}

/// Of an ascending list, those faster than a latency are the first ones.
proof fn lemma_faster_come_first(
    urls: Seq<Seq<char>>,
    latencies: Map<Seq<char>, int>,
    latency: int,
)
    requires
        ascending(urls, latencies),
    ensures
        urls.filter(is_faster(latencies, latency)).len() <= urls.len(),
        forall|i: int|
            0 <= i < urls.len() ==> (latencies[#[trigger] urls[i]] < latency <==> i < urls.filter(
                is_faster(latencies, latency),
            ).len()),
    decreases urls.len(),
{
    reveal(Seq::filter);
    if urls.len() > 0 {
        let rest = urls.drop_last();
        let last = urls.len() - 1;
        let count = rest.filter(is_faster(latencies, latency)).len();
        lemma_faster_come_first(rest, latencies, latency);
        assert forall|i: int| 0 <= i < last implies (latencies[#[trigger] urls[i]] < latency <==> i
            < count) && latencies[urls[i]] < latencies[urls[last]] by {
            assert(rest[i] == urls[i]);
        }
        if latencies[urls[last]] < latency && count < last {
            assert(latencies[urls[count as int]] < latencies[urls[last]]);
        }
    }
}

/// Where no two endpoints are equally fast, their order rests on the latencies
/// alone, not on how they came to be known.
pub proof fn law_order_rests_on_latencies_alone(
    one: Seq<Seq<char>>,
    other: Seq<Seq<char>>,
    latencies: Map<Seq<char>, int>,
)
    requires
        fastest_first(one, latencies),
        fastest_first(other, latencies),
        all_differ(latencies),
    ensures
        one == other,
{
    lemma_ascending(one, latencies);
    lemma_ascending(other, latencies);
    assert forall|url: Seq<char>| #[trigger] one.contains(url) <==> other.contains(url) by {
        assert(one.contains(url) <==> latencies.contains_key(url));
        assert(other.contains(url) <==> latencies.contains_key(url));
    }
    lemma_same_order(one, other, latencies);
}

/// Where no two endpoints are equally fast, a new one goes in behind those that
/// are faster, and the others keep their order.
pub proof fn law_new_endpoint_goes_in_at_its_rank(
    before: Seq<Seq<char>>,
    after: Seq<Seq<char>>,
    latencies: Map<Seq<char>, int>,
    url: Seq<char>,
    latency: int,
)
    requires
        fastest_first(before, latencies),
        fastest_first(after, latencies.insert(url, latency)),
        !latencies.contains_key(url),
        all_differ(latencies.insert(url, latency)),
    ensures
        ({
            let rank = before.filter(is_faster(latencies, latency)).len();
            &&& rank <= before.len()
            &&& after == before.insert(rank as int, url)
        }),
{
    let updated = latencies.insert(url, latency);
    let rank = before.filter(is_faster(latencies, latency)).len() as int;
    assert forall|i: int| 0 <= i < before.len() implies latencies.contains_key(
        #[trigger] before[i],
    ) && before[i] != url && updated[before[i]] == latencies[before[i]] by {
        assert(before.contains(before[i]));
    }
    assert(all_differ(latencies)) by {
        assert forall|one: Seq<char>, other: Seq<char>|
            latencies.contains_key(one) && latencies.contains_key(other) && one != other implies
            #[trigger] latencies[one] != #[trigger] latencies[other] by {
            assert(updated[one] != updated[other]);
        }
    }
    lemma_ascending(before, latencies);
    lemma_ascending(after, updated);
    lemma_faster_come_first(before, latencies, latency);
    let placed = before.insert(rank, url);
    assert forall|i: int| 0 <= i < before.len() implies updated[#[trigger] before[i]] != latency by {
        assert(updated.contains_key(before[i]) && updated.contains_key(url));
        assert(updated[before[i]] != updated[url]);
    }
    assert forall|i: int, j: int| 0 <= i < j < placed.len() implies updated[#[trigger] placed[i]]
        < updated[#[trigger] placed[j]] by {
        let from = if i < rank {
            i
        } else {
            i - 1
        };
        let to = if j < rank {
            j
        } else {
            j - 1
        };
        if i != rank {
            assert(placed[i] == before[from]);
        }
        if j != rank {
            assert(placed[j] == before[to]);
        }
    }
    assert forall|key: Seq<char>| #[trigger] after.contains(key) <==> placed.contains(key) by {
        assert(after.contains(key) <==> updated.contains_key(key));
        assert(before.contains(key) <==> latencies.contains_key(key));
        if before.contains(key) {
            let i = choose|i: int| 0 <= i < before.len() && before[i] == key;
            assert(placed[if i < rank { i } else { i + 1 }] == key);
        }
        assert(placed[rank] == url);
        if placed.contains(key) && key != url {
            let i = choose|i: int| 0 <= i < placed.len() && placed[i] == key;
            assert(before[if i < rank { i } else { i - 1 }] == key);
        }
    }
    lemma_same_order(after, placed, updated);
}

/// The sorted endpoints are all of those that have a latency and no others, no two
/// the same, and none comes before a faster one, whether or not some are equally
/// fast.
pub proof fn law_sorted_endpoints_are_all_of_them(
    urls: Seq<Seq<char>>,
    latencies: Map<Seq<char>, int>,
)
    ensures
        fastest_first(urls, latencies) <==> {
            &&& forall|i: int, j: int|
                0 <= i < j < urls.len() ==> #[trigger] urls[i] != #[trigger] urls[j]
                    && latencies[urls[i]] <= latencies[urls[j]]
            &&& forall|i: int| 0 <= i < urls.len() ==> latencies.contains_key(#[trigger] urls[i])
            &&& forall|url: Seq<char>| #[trigger]
                latencies.contains_key(url) ==> exists|i: int|
                    0 <= i < urls.len() && #[trigger] urls[i] == url
        },
{
    if fastest_first(urls, latencies) {
        assert forall|i: int| 0 <= i < urls.len() implies latencies.contains_key(
            #[trigger] urls[i],
        ) by {
            assert(urls.contains(urls[i]));
        }
        assert forall|url: Seq<char>| #[trigger] latencies.contains_key(url) implies exists|i: int|
            0 <= i < urls.len() && #[trigger] urls[i] == url by {
            assert(urls.contains(url));
        }
    }
}

/// A list of texts is told text by text, in its order.
pub proof fn law_texts_are_told_in_order(urls: Seq<String>)
    ensures
        texts(urls).len() == urls.len(),
        forall|i: int| 0 <= i < urls.len() ==> #[trigger] texts(urls)[i] == urls[i]@,
{
}

} // verus!
