//! General properties of the cache, stated over the abstract model and
//! proved once for all keys, values and instants.

use vstd::prelude::*;

use crate::entry::CacheEntry;
use crate::time::{TimeSpan, Timestamp};
use crate::CacheModel;

verus! {

/// A value inserted with a zero lifetime is already absent to every read at
/// the insertion instant itself: expiry uses `>=`, so an age-zero entry is
/// born expired.
pub proof fn lemma_insert_zero_lifetime_absent<A, B>(
    m: CacheModel<A, B>,
    key: A,
    value: B,
    lifetime: TimeSpan,
    now: Timestamp,
)
    requires
        lifetime.millis == 0,
    ensures
        !m.after_insert(key, value, Some(lifetime), now).live(key, now),
        m.after_insert(key, value, Some(lifetime), now).lookup(key, now) is None,
{
}

/// A value inserted without a lifetime never expires: it is live, and reads
/// back unchanged, at every instant, however much time passes.
pub proof fn lemma_insert_no_lifetime_never_expires<A, B>(
    m: CacheModel<A, B>,
    key: A,
    value: B,
    now: Timestamp,
    later: Timestamp,
)
    ensures
        m.after_insert(key, value, None, now).live(key, later),
        m.after_insert(key, value, None, now).lookup(key, later) == Some(value),
{
}

/// Inserting and immediately reading back at the same instant yields the
/// just-inserted value, provided the lifetime is absent or strictly
/// positive and the insertion instant is below the clock's saturation
/// point.
pub proof fn lemma_insert_then_get<A, B>(
    m: CacheModel<A, B>,
    key: A,
    value: B,
    lifetime: Option<TimeSpan>,
    now: Timestamp,
)
    requires
        lifetime matches Some(span) ==> span.millis > 0,
        now.millis < u128::MAX,
    ensures
        m.after_insert(key, value, lifetime, now).live(key, now),
        m.after_insert(key, value, lifetime, now).lookup(key, now) == Some(value),
{
}

/// What overwriting a key surrenders is decided by the first value's own
/// expiry: a second insertion at `t2` over an entry stored at `t1` yields
/// that entry's value exactly when it has not yet expired, and nothing
/// otherwise — an expired value is semantically gone.
pub proof fn lemma_overwrite_surrenders_live_value<A, B>(
    m: CacheModel<A, B>,
    key: A,
    first_value: B,
    lifetime: Option<TimeSpan>,
    t1: Timestamp,
    t2: Timestamp,
)
    ensures
        m.after_insert(key, first_value, lifetime, t1).lookup(key, t2) == (if !CacheEntry::spec_new(
            first_value,
            lifetime,
            t1,
        ).spec_is_expired(t2) {
            Some(first_value)
        } else {
            None
        }),
{
}

/// Removing a key whose entry has expired yields nothing, even though the
/// key was physically present right up to the removal; afterwards the key is
/// gone outright.
pub proof fn lemma_remove_expired_yields_nothing<A, B>(
    m: CacheModel<A, B>,
    key: A,
    now: Timestamp,
)
    requires
        m.entries.contains_key(key),
        m.entries[key].spec_is_expired(now),
    ensures
        m.lookup(key, now) is None,
        !m.after_remove(key, now).entries.contains_key(key),
{
}

/// Whenever the throttled sweep actually runs, it leaves no expired entry
/// behind and records the sweep instant.
pub proof fn lemma_due_scan_purges_all_expired<A, B>(m: CacheModel<A, B>, now: Timestamp)
    requires
        m.scan_due(now),
    ensures
        forall|k: A| #[trigger]
            m.after_scan(now).entries.contains_key(k) ==> !m.after_scan(
                now,
            ).entries[k].spec_is_expired(now),
        m.after_scan(now).last_scan_time == Some(now),
{
}

/// Before the configured interval has elapsed since the reference point
/// (the last sweep, or creation if none has run), no sweep is due: the
/// throttled sweep leaves the state untouched, and in particular a mutating
/// call changes nothing but its own key and records no sweep.
pub proof fn lemma_scan_not_yet_due<A, B>(m: CacheModel<A, B>, now: Timestamp)
    requires
        m.full_scan_frequency matches Some(frequency) && now.spec_millis_since(m.scan_reference())
            < frequency.millis,
    ensures
        !m.scan_due(now),
        m.after_scan(now) == m,
{
}

/// An insertion before the configured interval has elapsed sweeps nothing:
/// the sweep bookkeeping is untouched — the last-scan time in particular
/// stays as it was — and every other key keeps its entry verbatim.
pub proof fn lemma_insert_within_interval_no_scan<A, B>(
    m: CacheModel<A, B>,
    key: A,
    value: B,
    lifetime: Option<TimeSpan>,
    now: Timestamp,
)
    requires
        m.full_scan_frequency matches Some(frequency) && now.spec_millis_since(m.scan_reference())
            < frequency.millis,
    ensures
        m.after_insert(key, value, lifetime, now).last_scan_time == m.last_scan_time,
        m.after_insert(key, value, lifetime, now).created_time == m.created_time,
        m.after_insert(key, value, lifetime, now).full_scan_frequency == m.full_scan_frequency,
        m.after_insert(key, value, lifetime, now).entries == m.entries.insert(
            key,
            CacheEntry::spec_new(value, lifetime, now),
        ),
{
}

/// With a zero sweep frequency a sweep is due at every instant, whatever the
/// clock reads: elapsed time is never negative.
pub proof fn lemma_zero_frequency_always_due<A, B>(m: CacheModel<A, B>, now: Timestamp)
    requires
        m.full_scan_frequency matches Some(frequency) && frequency.millis == 0,
    ensures
        m.scan_due(now),
{
}

} // verus!
