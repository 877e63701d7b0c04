use tx_submission::cache::{BlockhashCache, CachedBlockhash, CAPACITY, TIME_TO_LIVE};
use tx_submission::endpoints::{parse_endpoints, parse_named_endpoints, split_endpoints};
use tx_submission::latency::RpcLatencyTracker;
use tx_submission::pool::{RpcPool, MONITOR_INTERVAL_MILLIS, ROUND_INTERVAL_MILLIS};

const SECOND: u128 = 1_000_000_000;

fn names(cache: &BlockhashCache) -> Vec<String> {
    cache.get_all().into_iter().map(|entry| entry.blockhash).collect()
}

fn expiries(cache: &BlockhashCache) -> Vec<u128> {
    cache.get_all().into_iter().map(|entry| entry.expiry).collect()
}

#[test]
fn new_cache_is_empty() {
    assert!(BlockhashCache::default().get_all().is_empty());
}

#[test]
fn added_blockhash_expires_after_thirty_seconds() {
    let mut cache = BlockhashCache::default();
    cache.add_at("a".to_string(), 5 * SECOND);
    assert_eq!(names(&cache), ["a"]);
    assert_eq!(expiries(&cache), [35 * SECOND]);
    assert_eq!(TIME_TO_LIVE, 30 * SECOND);
}

#[test]
fn blockhash_that_is_present_keeps_its_expiry() {
    let mut cache = BlockhashCache::default();
    cache.add_at("a".to_string(), 0);
    cache.add_at("b".to_string(), SECOND);
    cache.add_at("a".to_string(), 2 * SECOND);
    assert_eq!(names(&cache), ["a", "b"]);
    assert_eq!(expiries(&cache), [30 * SECOND, 31 * SECOND]);
}

#[test]
fn eleventh_blockhash_drives_out_the_oldest() {
    let mut cache = BlockhashCache::default();
    for i in 0..11u128 {
        cache.add_at(format!("hash {}", i), i);
    }
    let expected: Vec<String> = (1..11).map(|i| format!("hash {}", i)).collect();
    assert_eq!(names(&cache), expected);
    assert_eq!(names(&cache).len(), CAPACITY);
}

#[test]
fn prune_removes_what_has_expired() {
    let mut cache = BlockhashCache::default();
    cache.add_at("a".to_string(), 0);
    cache.add_at("b".to_string(), SECOND);
    cache.add_at("c".to_string(), 2 * SECOND);
    cache.prune_at(31 * SECOND);
    assert_eq!(names(&cache), ["c"]);
    cache.prune_at(32 * SECOND - 1);
    assert_eq!(names(&cache), ["c"]);
    cache.prune_at(32 * SECOND);
    assert!(cache.get_all().is_empty());
    cache.prune_at(33 * SECOND);
    assert!(cache.get_all().is_empty());
}

#[test]
fn clock_does_not_run_back() {
    let mut cache = BlockhashCache::default();
    cache.add_at("one".to_string(), 10 * SECOND);
    cache.add_at("two".to_string(), 0);
    assert_eq!(expiries(&cache), [40 * SECOND, 40 * SECOND]);
    assert!(cache.now() >= 10 * SECOND);
    cache.prune_at(40 * SECOND);
    assert!(cache.get_all().is_empty());
    cache.add_at("three".to_string(), 0);
    assert_eq!(expiries(&cache), [70 * SECOND]);
    cache.prune_at(0);
    assert_eq!(names(&cache), ["three"]);
    assert!(cache.clone().now() >= 40 * SECOND);
}

#[test]
fn entries_expire_in_their_order() {
    let mut cache = BlockhashCache::default();
    for i in 0..30u128 {
        cache.add_at(format!("hash {}", i % 14), i * SECOND);
        cache.prune_at(i * SECOND);
        let expiries = expiries(&cache);
        assert!(expiries.windows(2).all(|pair| pair[0] <= pair[1]));
        assert!(expiries.iter().all(|expiry| *expiry > i * SECOND));
        assert!(expiries.len() <= CAPACITY);
    }
}

#[test]
fn cache_reads_its_own_clock() {
    let mut cache = BlockhashCache::default();
    let before = cache.now();
    cache.add("a".to_string());
    let after = cache.now();
    cache.prune();
    let all = cache.get_all();
    assert_eq!(all.len(), 1);
    assert!(before + TIME_TO_LIVE <= all[0].expiry);
    assert!(all[0].expiry <= after + TIME_TO_LIVE);
    assert!(before <= after && after < 20 * SECOND);
}

#[test]
fn clock_goes_on_through_every_change() {
    let mut cache = BlockhashCache::default();
    while cache.now() < SECOND / 100 {}
    cache.add("a".to_string());
    cache.prune();
    let copy = cache.clone();
    assert!(cache.now() >= SECOND / 100);
    assert!(copy.now() >= SECOND / 100);
}

#[test]
fn cloned_cache_goes_its_own_way() {
    let mut cache = BlockhashCache::default();
    cache.add_at("a".to_string(), 0);
    let copy = cache.clone();
    cache.add_at("b".to_string(), 0);
    assert_eq!(names(&copy), ["a"]);
    assert_eq!(names(&cache), ["a", "b"]);
}

#[test]
fn remaining_time_is_in_milliseconds() {
    let entry = CachedBlockhash { blockhash: "a".to_string(), expiry: 30 * SECOND };
    assert_eq!(entry.remaining_millis(0), 30_000);
    assert_eq!(entry.remaining_millis(30 * SECOND - 1_500_000), 1);
    assert_eq!(entry.remaining_millis(30 * SECOND), 0);
    assert_eq!(entry.remaining_millis(31 * SECOND), 0);
}

#[test]
fn endpoints_are_sorted_by_latency() {
    let mut tracker = RpcLatencyTracker::default();
    assert!(tracker.get_sorted_rpcs().is_empty());
    tracker.update("slow".to_string(), 90_000_000);
    tracker.update("fast".to_string(), 10_999_999);
    tracker.update("middle".to_string(), 50_000_000);
    assert_eq!(tracker.get_sorted_rpcs(), ["fast", "middle", "slow"]);
    assert_eq!(
        tracker.log_latencies(),
        [("fast".to_string(), 10), ("middle".to_string(), 50), ("slow".to_string(), 90)]
    );
}

#[test]
fn order_rests_on_latencies_alone() {
    let urls = ["a", "b", "c", "d"];
    let latencies = [40, 10, 30, 20];
    let mut one = RpcLatencyTracker::default();
    let mut other = RpcLatencyTracker::default();
    for i in 0..4 {
        one.update(urls[i].to_string(), latencies[i]);
        other.update(urls[3 - i].to_string(), 99);
    }
    for i in 0..4 {
        other.update(urls[3 - i].to_string(), latencies[3 - i]);
    }
    assert_eq!(one.get_sorted_rpcs(), ["b", "d", "c", "a"]);
    assert_eq!(other.get_sorted_rpcs(), one.get_sorted_rpcs());
}

#[test]
fn new_endpoint_goes_in_at_its_rank() {
    for (latency, rank) in [(5, 0), (15, 1), (25, 2), (35, 3)] {
        let mut tracker = RpcLatencyTracker::default();
        tracker.update("a".to_string(), 30);
        tracker.update("b".to_string(), 10);
        tracker.update("c".to_string(), 20);
        let mut expected = tracker.get_sorted_rpcs();
        assert_eq!(expected, ["b", "c", "a"]);
        tracker.update("new".to_string(), latency);
        expected.insert(rank, "new".to_string());
        assert_eq!(tracker.get_sorted_rpcs(), expected);
    }
}

#[test]
fn later_latency_replaces_the_earlier() {
    let mut tracker = RpcLatencyTracker::default();
    tracker.update("a".to_string(), 1);
    tracker.update("b".to_string(), 2);
    tracker.update("a".to_string(), 3);
    assert_eq!(tracker.get_sorted_rpcs(), ["b", "a"]);
    let copy = tracker.clone();
    tracker.update("b".to_string(), 4);
    assert_eq!(tracker.get_sorted_rpcs(), ["a", "b"]);
    assert_eq!(copy.get_sorted_rpcs(), ["b", "a"]);
}

#[test]
fn endpoints_are_split_and_trimmed() {
    assert_eq!(
        parse_endpoints(" https://a , https://b,\t,https://c\n"),
        ["https://a", "https://b", "", "https://c"]
    );
    assert_eq!(parse_endpoints("one"), ["one"]);
    assert_eq!(parse_endpoints(""), [""]);
    assert_eq!(parse_endpoints(","), ["", ""]);
    assert_eq!(parse_endpoints("\u{a0}a b\u{2003}"), ["a b"]);
}

#[test]
fn white_space_is_what_is_trimmed() {
    for c in (0..0x3100u32).filter_map(char::from_u32).filter(|c| *c != ',') {
        let white = matches!(
            c,
            '\u{9}'..='\u{d}'
                | '\u{20}'
                | '\u{85}'
                | '\u{a0}'
                | '\u{1680}'
                | '\u{2000}'..='\u{200a}'
                | '\u{2028}'
                | '\u{2029}'
                | '\u{202f}'
                | '\u{205f}'
                | '\u{3000}'
        );
        assert_eq!(parse_endpoints(&c.to_string())[0].is_empty(), white);
    }
    for c in (0x3100..=0x10ffffu32).filter_map(char::from_u32) {
        assert!(!c.is_whitespace());
    }
}

#[test]
fn only_the_given_blanks_are_trimmed() {
    assert_eq!(split_endpoints("-a-b-, -c", &vec!['-']), ["a-b", " -c"]);
    assert_eq!(split_endpoints("- -,--", &vec!['-', ' ']), ["", ""]);
    assert_eq!(split_endpoints(" a ", &vec![]), [" a "]);
}

#[test]
fn pieces_join_to_the_list() {
    for text in ["a,b", ",a,,b,", "", "no comma", ", ,"] {
        let pieces = split_endpoints(text, &vec![]);
        assert!(pieces.iter().all(|piece| !piece.contains(',')));
        assert_eq!(pieces.join(","), text);
    }
}

#[test]
fn nameless_endpoints_are_dropped() {
    assert_eq!(
        parse_named_endpoints(" https://a , ,https://b,"),
        ["https://a", "https://b"]
    );
    assert!(parse_named_endpoints(" , ").is_empty());
    assert!(parse_named_endpoints("").is_empty());
}

#[test]
fn endpoints_are_what_std_makes_of_the_text() {
    for text in ["a,b,c", " a , b ", ",,", "  ", "ä,\u{3000}ö\u{3000},ü", "x, y z ,"] {
        let expected: Vec<String> = text.split(',').map(|s| s.trim().to_string()).collect();
        assert_eq!(parse_endpoints(text), expected);
    }
}

#[test]
fn endpoints_are_asked_every_second() {
    assert_eq!(ROUND_INTERVAL_MILLIS, 1_000);
    assert_eq!(MONITOR_INTERVAL_MILLIS, 3_000);
}

#[test]
fn new_pool_knows_nothing() {
    let pool = RpcPool::new();
    assert!(pool.cache.get_all().is_empty());
    assert!(pool.latency_tracker.get_sorted_rpcs().is_empty());
}

#[test]
fn answer_brings_blockhash_and_latency() {
    let mut pool = RpcPool::new();
    pool.record_answer_at("a".to_string(), Some("hash".to_string()), 7, SECOND);
    assert_eq!(names(&pool.cache), ["hash"]);
    assert_eq!(expiries(&pool.cache), [31 * SECOND]);
    assert_eq!(pool.latency_tracker.get_sorted_rpcs(), ["a"]);
}

#[test]
fn failed_endpoint_still_has_a_latency() {
    let mut pool = RpcPool::new();
    pool.record_answer("a".to_string(), Some("hash".to_string()), 7);
    pool.record_answer("b".to_string(), None, 5);
    pool.start_round();
    assert_eq!(names(&pool.cache), ["hash"]);
    assert_eq!(pool.latency_tracker.get_sorted_rpcs(), ["b", "a"]);
    let copy = pool.clone();
    assert_eq!(names(&copy.cache), ["hash"]);
    assert_eq!(copy.latency_tracker.get_sorted_rpcs(), ["b", "a"]);
}
