//! A single cache slot: a stored value together with its optional absolute
//! expiration instant.

use vstd::prelude::*;

use crate::time::{Timestamp, TimeSpan, spec_saturating_add};

verus! {

/// A stored value and the instant after which it counts as expired.
///
/// `expiration_time` is fixed at construction; when a value under a key is
/// updated, the whole entry is replaced, never mutated in place.
pub struct CacheEntry<B> {
    /// The cached payload.
    pub value: B,

    /// The instant at which the entry expires; `None` keeps it forever.
    pub expiration_time: Option<Timestamp>,
}

impl<B> CacheEntry<B> {
    /// The entry that an insertion at `now` with the given lifetime creates:
    /// its expiration is `now + lifetime` (saturating), or absent.
    pub open spec fn spec_new(value: B, lifetime: Option<TimeSpan>, now: Timestamp) -> CacheEntry<
        B,
    > {
        CacheEntry {
            value,
            expiration_time: match lifetime {
                Some(span) => Some(
                    Timestamp { millis: spec_saturating_add(now.millis, span.millis) },
                ),
                None => None,
            },
        }
    }

    /// Whether the entry counts as expired at `current_time`: expiration is
    /// reached exactly at the boundary instant (`>=`), and an entry without
    /// an expiration never expires.
    pub open spec fn spec_is_expired(self, current_time: Timestamp) -> bool {
        match self.expiration_time {
            Some(expiration) => current_time.millis >= expiration.millis,
            None => false,
        }
    }

    /// Builds an entry whose expiration is computed from the clock reading
    /// taken inside this call.
    pub fn new(value: B, lifetime: Option<TimeSpan>) -> (r: CacheEntry<B>)
        ensures
            exists|now: Timestamp| r == CacheEntry::spec_new(value, lifetime, now),
            r.expiration_time is None <==> lifetime is None,
    {
        let now = Timestamp::now();
        Self::new_at(value, lifetime, now)
    }

    /// Builds the entry that an insertion at the given instant creates.
    pub fn new_at(value: B, lifetime: Option<TimeSpan>, now: Timestamp) -> (r: CacheEntry<B>)
        ensures
            r == CacheEntry::spec_new(value, lifetime, now),
    {
        let expiration_time = match lifetime {
            Some(span) => Some(now.add_span(span)),
            None => None,
        };
        CacheEntry { value, expiration_time }
    }

    /// Checks whether the entry is expired at `current_time`.
    pub fn is_expired(&self, current_time: Timestamp) -> (r: bool)
        ensures
            r == self.spec_is_expired(current_time),
    {
        match &self.expiration_time {
            Some(expiration) => current_time.millis >= expiration.millis,
            None => false,
        }
    }
}

/// An entry stored without a lifetime never expires, at any instant.
pub proof fn lemma_no_lifetime_never_expires<B>(entry: CacheEntry<B>, at: Timestamp)
    requires
        entry.expiration_time is None,
    ensures
        !entry.spec_is_expired(at),
{
}

/// An entry stored with a zero lifetime is already expired at the instant of
/// its own creation: expiration uses `>=`, so an age-zero entry is gone.
pub proof fn lemma_zero_lifetime_expired_at_once<B>(value: B, now: Timestamp, span: TimeSpan)
    requires
        span.millis == 0,
    ensures
        CacheEntry::spec_new(value, Some(span), now).spec_is_expired(now),
{
}

} // verus!
