use memory_cache::entry::CacheEntry;
use memory_cache::time::{TimeSpan, Timestamp};

#[test]
fn is_expired() {
    // Arrange
    let now = Timestamp::now();

    let entry_expired = CacheEntry::new(1, Some(TimeSpan::from_secs(0)));
    let entry_not_expired = CacheEntry::new(1, Some(TimeSpan::from_secs(1)));
    let entry_none_duration = CacheEntry::new(1, None);

    // Act and Assert
    assert!(entry_expired.is_expired(now));
    assert!(!entry_not_expired.is_expired(now));
    assert!(!entry_none_duration.is_expired(now));
}

#[test]
fn new_at_computes_absolute_expiration() {
    let now = Timestamp::from_millis(1_000);

    let entry = CacheEntry::new_at(7, Some(TimeSpan::from_millis(250)), now);
    assert_eq!(entry.value, 7);
    assert_eq!(entry.expiration_time, Some(Timestamp::from_millis(1_250)));

    let forever = CacheEntry::new_at(7, None, now);
    assert_eq!(forever.expiration_time, None);
}

#[test]
fn new_at_saturates_at_largest_instant() {
    let now = Timestamp::from_millis(5);
    let entry = CacheEntry::new_at(1, Some(TimeSpan::from_millis(u128::MAX)), now);
    assert_eq!(entry.expiration_time, Some(Timestamp::from_millis(u128::MAX)));
    // even a saturated expiration is reached at the boundary itself
    assert!(entry.is_expired(Timestamp::from_millis(u128::MAX)));
    assert!(!entry.is_expired(Timestamp::from_millis(u128::MAX - 1)));
}

#[test]
fn is_expired_exactly_at_boundary() {
    let entry = CacheEntry::new_at(1, Some(TimeSpan::from_millis(100)), Timestamp::from_millis(400));
    assert!(!entry.is_expired(Timestamp::from_millis(499)));
    assert!(entry.is_expired(Timestamp::from_millis(500)));
    assert!(entry.is_expired(Timestamp::from_millis(501)));
}

#[test]
fn time_span_constructors() {
    assert_eq!(TimeSpan::from_secs(2).millis, 2_000);
    assert_eq!(TimeSpan::from_millis(35).millis, 35);
    assert_eq!(TimeSpan::default().millis, 0);
    assert_eq!(Timestamp::from_millis(17).millis, 17);
}
