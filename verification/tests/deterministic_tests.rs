//! Tests of the instant-taking operations, with every timestamp chosen by
//! hand so that each expected value is exact.

use memory_cache::time::{TimeSpan, Timestamp};
use memory_cache::MemoryCache;

#[test]
fn insert_at_then_get_at_exact_boundary() {
    let t0 = Timestamp::from_millis(1_000);
    let mut cache = MemoryCache::new_at(t0);

    assert_eq!(cache.insert_at("k", 5, Some(TimeSpan::from_millis(50)), t0), None);

    assert_eq!(cache.get_at(&"k", Timestamp::from_millis(1_049)), Some(&5));
    assert!(cache.contains_key_at(&"k", Timestamp::from_millis(1_049)));

    // expiry is reached exactly at the boundary instant
    assert_eq!(cache.get_at(&"k", Timestamp::from_millis(1_050)), None);
    assert!(!cache.contains_key_at(&"k", Timestamp::from_millis(1_050)));
}

#[test]
fn insert_at_zero_lifetime_absent_at_once() {
    let mut cache = MemoryCache::new();
    let t0 = Timestamp::from_millis(700);
    cache.insert_at("k", 5, Some(TimeSpan::from_millis(0)), t0);
    assert_eq!(cache.get_at(&"k", t0), None);
    assert!(!cache.contains_key_at(&"k", t0));
}

#[test]
fn insert_at_over_expired_entry_returns_none() {
    let mut cache = MemoryCache::new();
    cache.insert_at("k", 1, Some(TimeSpan::from_millis(10)), Timestamp::from_millis(100));
    // the first value expired at 110, so the overwrite surrenders nothing
    let r = cache.insert_at("k", 2, None, Timestamp::from_millis(110));
    assert_eq!(r, None);
    // the second value is live and is surrendered by a later overwrite
    let r2 = cache.insert_at("k", 3, None, Timestamp::from_millis(111));
    assert_eq!(r2, Some(2));
}

#[test]
fn remove_at_live_entry_returns_value() {
    let mut cache = MemoryCache::new();
    cache.insert_at("k", 8, Some(TimeSpan::from_millis(10)), Timestamp::from_millis(100));
    assert_eq!(cache.remove_at(&"k", Timestamp::from_millis(105)), Some(8));
    assert_eq!(cache.remove_at(&"k", Timestamp::from_millis(105)), None);
}

#[test]
fn remove_at_expired_entry_returns_none() {
    let mut cache = MemoryCache::new();
    cache.insert_at("k", 8, Some(TimeSpan::from_millis(10)), Timestamp::from_millis(100));
    // physically present, semantically gone
    assert_eq!(cache.remove_at(&"k", Timestamp::from_millis(110)), None);
    assert!(!cache.contains_key_at(&"k", Timestamp::from_millis(110)));
}

#[test]
fn get_or_insert_at_keeps_live_value() {
    let mut cache = MemoryCache::new();
    let t0 = Timestamp::from_millis(100);
    let v = *cache.get_or_insert_at("k", || 1, Some(TimeSpan::from_millis(50)), t0);
    assert_eq!(v, 1);
    // still live at 149: the existing value is returned
    let v2 = *cache.get_or_insert_at("k", || 2, None, Timestamp::from_millis(149));
    assert_eq!(v2, 1);
    // expired at 150: the factory value replaces it
    let v3 = *cache.get_or_insert_at("k", || 3, None, Timestamp::from_millis(150));
    assert_eq!(v3, 3);
}

#[test]
fn no_lifetime_entry_never_expires() {
    let mut cache = MemoryCache::new();
    cache.insert_at("k", 6, None, Timestamp::from_millis(100));
    // live however far the clock travels, even at the saturation point
    assert_eq!(cache.get_at(&"k", Timestamp::from_millis(u128::MAX)), Some(&6));
    assert!(cache.contains_key_at(&"k", Timestamp::from_millis(u128::MAX)));
}

#[test]
fn zero_frequency_scan_records_instant() {
    let mut cache = MemoryCache::with_full_scan(TimeSpan::from_millis(0));
    let t0 = Timestamp::from_millis(42);
    cache.insert_at("k", 1, None, t0);
    assert_eq!(cache.get_last_scan_time(), Some(t0));

    let t1 = Timestamp::from_millis(77);
    cache.insert_at("k2", 2, None, t1);
    assert_eq!(cache.get_last_scan_time(), Some(t1));
}

#[test]
fn due_scan_purges_expired_entries_only() {
    let mut cache = MemoryCache::with_full_scan(TimeSpan::from_millis(0));
    cache.insert_at("gone", 1, Some(TimeSpan::from_millis(5)), Timestamp::from_millis(100));
    cache.insert_at("kept", 2, None, Timestamp::from_millis(100));
    // this sweep runs at 200, where "gone" is expired and "kept" is not
    cache.remove_at(&"other", Timestamp::from_millis(200));
    assert!(!cache.contains_key_at(&"gone", Timestamp::from_millis(200)));
    assert!(cache.contains_key_at(&"kept", Timestamp::from_millis(200)));
}

#[test]
fn hourly_scan_at_not_due_within_interval() {
    let hour = TimeSpan::from_secs(3600);
    let t0 = Timestamp::from_millis(1_000);
    let mut cache = MemoryCache::with_full_scan_at(hour, t0);

    cache.insert_at("a", 1, Some(TimeSpan::from_millis(0)), t0);
    cache.insert_at("b", 2, None, t0);

    assert!(!cache.contains_key_at(&"a", t0));
    assert!(cache.contains_key_at(&"b", t0));
    // the interval has not elapsed since creation, so no sweep has run
    assert_eq!(cache.get_last_scan_time(), None);

    // one millisecond short of the interval: still no sweep
    let almost = Timestamp::from_millis(1_000 + 3_600_000 - 1);
    cache.insert_at("c", 3, None, almost);
    assert_eq!(cache.get_last_scan_time(), None);

    // at the boundary the sweep becomes due
    let due = Timestamp::from_millis(1_000 + 3_600_000);
    cache.insert_at("d", 4, None, due);
    assert_eq!(cache.get_last_scan_time(), Some(due));
}

#[test]
fn backwards_clock_counts_as_zero_elapsed() {
    // creation at 1_000; later readings of 500 and 400 lie before the sweep
    // baseline and must count as zero elapsed time, not panic or sweep
    let mut cache = MemoryCache::with_full_scan_at(TimeSpan::from_millis(100), Timestamp::from_millis(1_000));
    assert_eq!(cache.insert_at("k", 1, Some(TimeSpan::from_millis(1)), Timestamp::from_millis(500)), None);
    assert_eq!(cache.get_last_scan_time(), None);
    assert!(cache.remove_at(&"k", Timestamp::from_millis(400)).is_some());
}
