use memory_cache::time::TimeSpan;
use memory_cache::MemoryCache;
use std::cell::Cell;

#[test]
fn contains_key_expired_entry() {
    // Arrange
    let mut cache = MemoryCache::new();
    let key: &'static str = "key";

    // Act
    cache.insert(key, 1, Some(TimeSpan::default()));

    // Assert
    assert!(!cache.contains_key(&key));
}

#[test]
fn get_expired_entry() {
    // Arrange
    let mut cache = MemoryCache::new();
    let key: &'static str = "key";

    // Act
    cache.insert(key, 1, Some(TimeSpan::default()));

    // Assert
    assert_eq!(cache.get(&key), None);
}

#[test]
fn insert_return_old_value() {
    // Arrange
    let mut cache = MemoryCache::new();
    let key: &'static str = "key";

    // Act
    let result_1 = cache.insert(key, 1, Some(TimeSpan::default()));
    let result_2 = cache.insert(key, 2, None);
    let result_3 = cache.insert(key, 3, None);

    // Assert
    assert_eq!(result_1, None);
    assert_eq!(result_2, None);
    assert_eq!(result_3, Some(2));
}

#[test]
fn get_or_insert_expired_entry() {
    // Arrange
    let mut cache = MemoryCache::new();
    let key: &'static str = "key";

    // Act
    cache.get_or_insert(key, || 1, Some(TimeSpan::default()));
    let value = cache.get_or_insert(key, || 2, None);

    // Assert
    assert_eq!(value, &2);
}

#[test]
fn remove_expired_entry() {
    // Arrange
    let mut cache = MemoryCache::new();
    let key: &'static str = "key";

    // Act
    cache.insert(key, 1, Some(TimeSpan::default()));
    let value = cache.remove(&key);

    // Assert
    assert_eq!(value, None);
}

#[test]
fn update_last_scan_time() {
    // Arrange
    let scan_frequency = TimeSpan::default();
    let mut cache = MemoryCache::with_full_scan(scan_frequency);
    let key: &'static str = "key";

    // Act
    cache.insert(key, 1, None);
    let last_scan_time = cache.get_last_scan_time();

    // Assert
    assert!(last_scan_time.is_some())
}

#[test]
fn insert_then_get_returns_value() {
    let mut cache = MemoryCache::new();
    cache.insert("key", 41, None);
    assert_eq!(cache.get(&"key"), Some(&41));
    assert!(cache.contains_key(&"key"));
}

#[test]
fn insert_live_entry_returns_previous_value() {
    let mut cache = MemoryCache::new();
    assert_eq!(cache.insert("key", 1, Some(TimeSpan::from_secs(3600))), None);
    assert_eq!(cache.insert("key", 2, None), Some(1));
}

#[test]
fn remove_live_entry_returns_value() {
    let mut cache = MemoryCache::new();
    cache.insert("key", 9, None);
    assert_eq!(cache.remove(&"key"), Some(9));
    assert!(!cache.contains_key(&"key"));
    assert_eq!(cache.remove(&"key"), None);
}

#[test]
fn get_or_insert_calls_factory_at_most_once() {
    let mut cache = MemoryCache::new();
    let calls = Cell::new(0);

    let first = *cache.get_or_insert(
        "key",
        || {
            calls.set(calls.get() + 1);
            7
        },
        None,
    );
    assert_eq!(first, 7);
    assert_eq!(calls.get(), 1);

    // a live entry exists, so the factory must not run again
    let second = *cache.get_or_insert(
        "key",
        || {
            calls.set(calls.get() + 1);
            8
        },
        None,
    );
    assert_eq!(second, 7);
    assert_eq!(calls.get(), 1);
}

#[test]
fn hourly_scan_not_due_immediately() {
    let mut cache = MemoryCache::with_full_scan(TimeSpan::from_secs(3600));

    cache.insert("a", 1, Some(TimeSpan::from_secs(0)));
    cache.insert("b", 2, None);

    assert!(!cache.contains_key(&"a"));
    assert!(cache.contains_key(&"b"));
    assert_eq!(cache.get_last_scan_time(), None);
}

#[test]
fn zero_frequency_scan_purges_everything() {
    let mut cache = MemoryCache::with_full_scan(TimeSpan::from_millis(0));

    for i in 0..100 {
        cache.insert(i, i, Some(TimeSpan::from_millis(0)));
    }
    // one more mutating call: its sweep is due at once and purges the rest
    cache.insert(100, 100, None);

    for i in 0..100 {
        assert!(!cache.contains_key(&i));
        assert_eq!(cache.get(&i), None);
    }
    assert!(cache.contains_key(&100));
    assert!(cache.get_last_scan_time().is_some());
}

#[test]
fn get_full_scan_frequency_reports_configuration() {
    let scan_frequency = TimeSpan::from_secs(60);
    let cache: MemoryCache<&str, i32> = MemoryCache::with_full_scan(scan_frequency);
    assert_eq!(cache.get_full_scan_frequency(), Some(scan_frequency));

    let plain: MemoryCache<&str, i32> = MemoryCache::new();
    assert_eq!(plain.get_full_scan_frequency(), None);
    assert_eq!(plain.get_last_scan_time(), None);
}
