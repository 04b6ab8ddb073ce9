//! A local in-memory key-value cache in which every stored value carries an
//! optional time-to-live. An expired value is treated as absent on every
//! read, and expired entries are reclaimed lazily by a throttled full scan
//! that runs inside mutating calls.

use vstd::prelude::*;

pub mod entry;
pub mod laws;
pub mod time;

use crate::entry::CacheEntry;
use crate::time::{TimeSpan, Timestamp};
use std::hash::Hash;
use vstd::std_specs::cmp::PartialEqSpec;

verus! {

/// Key comparison behaves like logical equality: `==` on `A` is known to the
/// verifier and coincides with structural equality. All reasoning about which
/// key a table slot belongs to rests on this.
pub open spec fn obeys_structural_eq<A: PartialEq>() -> bool {
    &&& A::obeys_eq_spec()
    &&& forall|x: A, y: A| #[trigger] x.eq_spec(&y) <==> x == y
}

/// The abstract state of a cache: the mathematical map of keys to entries,
/// together with the sweep bookkeeping. Every contract of [`MemoryCache`]
/// speaks of this model, reached through `@`.
#[verifier::ext_equal]
#[verifier::reject_recursive_types(A)]
pub ghost struct CacheModel<A, B> {
    /// Keys mapped to their current entries, expired ones too: expiry is
    /// judged at read time, not eagerly.
    pub entries: Map<A, CacheEntry<B>>,

    /// Minimum interval between full sweeps; `None` disables sweeping.
    pub full_scan_frequency: Option<TimeSpan>,

    /// When the cache was created: the baseline for the first sweep check.
    pub created_time: Timestamp,

    /// When the last sweep ran; `None` until a first sweep happens.
    pub last_scan_time: Option<Timestamp>,
}

impl<A, B> CacheModel<A, B> {
    /// The key maps to an entry that has not expired by `now`.
    pub open spec fn live(self, key: A, now: Timestamp) -> bool {
        self.entries.contains_key(key) && !self.entries[key].spec_is_expired(now)
    }

    /// What a read of `key` at `now` observes: the stored value if its entry
    /// is live, absent otherwise.
    pub open spec fn lookup(self, key: A, now: Timestamp) -> Option<B> {
        if self.live(key, now) {
            Some(self.entries[key].value)
        } else {
            None
        }
    }

    /// The reference point for the sweep-throttle check: the last sweep, or
    /// creation if none has run.
    pub open spec fn scan_reference(self) -> Timestamp {
        match self.last_scan_time {
            Some(t) => t,
            None => self.created_time,
        }
    }

    /// Whether a full sweep is due at `now`: a frequency is configured and at
    /// least that much time has passed since the reference point. A clock
    /// reading before the reference point counts as zero elapsed time.
    pub open spec fn scan_due(self, now: Timestamp) -> bool {
        match self.full_scan_frequency {
            Some(frequency) => now.spec_millis_since(self.scan_reference()) >= frequency.millis,
            None => false,
        }
    }

    /// The state after an unconditional full sweep at `now`: every entry
    /// expired at `now` is removed, and the sweep is recorded.
    pub open spec fn purged(self, now: Timestamp) -> CacheModel<A, B> {
        CacheModel {
            entries: Map::new(
                |k: A| self.entries.contains_key(k) && !self.entries[k].spec_is_expired(now),
                |k: A| self.entries[k],
            ),
            last_scan_time: Some(now),
            ..self
        }
    }

    /// The state after the throttled sweep at `now`: a full sweep if one is
    /// due, otherwise unchanged.
    pub open spec fn after_scan(self, now: Timestamp) -> CacheModel<A, B> {
        if self.scan_due(now) {
            self.purged(now)
        } else {
            self
        }
    }

    /// The state after `insert(key, value, lifetime)` at `now`: the throttled
    /// sweep, then the key bound to a fresh entry, replacing any occupant.
    pub open spec fn after_insert(
        self,
        key: A,
        value: B,
        lifetime: Option<TimeSpan>,
        now: Timestamp,
    ) -> CacheModel<A, B> {
        let swept = self.after_scan(now);
        CacheModel {
            entries: swept.entries.insert(key, CacheEntry::spec_new(value, lifetime, now)),
            ..swept
        }
    }

    /// The state after `remove(key)` at `now`: the throttled sweep, then the
    /// key removed unconditionally.
    pub open spec fn after_remove(self, key: A, now: Timestamp) -> CacheModel<A, B> {
        let swept = self.after_scan(now);
        CacheModel { entries: swept.entries.remove(key), ..swept }
    }
}

/// Some slot of `s` holds `key`.
spec fn table_has_key<A, B>(s: Seq<(A, CacheEntry<B>)>, key: A) -> bool {
    exists|i: int| 0 <= i < s.len() && s[i].0 == key
}

/// The slot of `s` that holds `key`, provided one exists.
spec fn table_index_of<A, B>(s: Seq<(A, CacheEntry<B>)>, key: A) -> int {
    choose|i: int| 0 <= i < s.len() && s[i].0 == key
}

/// The mapping that the slots of `s` spell out.
spec fn table_model<A, B>(s: Seq<(A, CacheEntry<B>)>) -> Map<A, CacheEntry<B>> {
    Map::new(|k: A| table_has_key(s, k), |k: A| s[table_index_of(s, k)].1)
}

/// No two slots of `s` hold the same key.
spec fn table_unique_keys<A, B>(s: Seq<(A, CacheEntry<B>)>) -> bool {
    forall|i: int, j: int| 0 <= i < j < s.len() ==> s[i].0 != s[j].0
}

/// Under unique keys, each slot's pair is exactly what the table model maps
/// its key to.
proof fn lemma_table_model_at<A, B>(s: Seq<(A, CacheEntry<B>)>, i: int)
    requires
        table_unique_keys(s),
        0 <= i < s.len(),
    ensures
        table_model(s).contains_key(s[i].0),
        table_model(s)[s[i].0] == s[i].1,
{
    let key = s[i].0;
    assert(table_has_key(s, key));
    let j = table_index_of(s, key);
    assert(0 <= j < s.len() && s[j].0 == key);
    if i != j {
        assert(s[i].0 != s[j].0);
    }
}

/// Appending a pair under a fresh key inserts it into the table model.
proof fn lemma_table_model_push<A, B>(s: Seq<(A, CacheEntry<B>)>, key: A, e: CacheEntry<B>)
    requires
        table_unique_keys(s),
        !table_has_key(s, key),
    ensures
        table_unique_keys(s.push((key, e))),
        table_model(s.push((key, e))) =~= table_model(s).insert(key, e),
{
    let s2 = s.push((key, e));
    assert forall|i: int, j: int| 0 <= i < j < s2.len() implies s2[i].0 != s2[j].0 by {
        if j == s.len() {
            assert(s2[i] == s[i]);
            if s[i].0 == key {
                assert(table_has_key(s, key));
            }
        } else {
            assert(s2[i] == s[i] && s2[j] == s[j]);
        }
    }
    assert forall|k: A| #[trigger] table_model(s2).contains_key(k) implies table_model(
        s,
    ).insert(key, e).contains_key(k) && table_model(s2)[k] == table_model(s).insert(key, e)[k] by {
        let i = table_index_of(s2, k);
        assert(0 <= i < s2.len() && s2[i].0 == k);
        lemma_table_model_at(s2, i);
        if i == s.len() {
            assert(k == key && s2[i].1 == e);
        } else {
            assert(s2[i] == s[i]);
            assert(table_has_key(s, k));
            lemma_table_model_at(s, i);
            if k == key {
                assert(table_has_key(s, key));
            }
        }
    }
    assert forall|k: A| #[trigger]
        table_model(s).insert(key, e).contains_key(k) implies table_model(s2).contains_key(k) by {
        if k == key {
            assert(s2[s.len() as int].0 == key);
            assert(table_has_key(s2, k));
        } else {
            let i = table_index_of(s, k);
            assert(0 <= i < s.len() && s[i].0 == k);
            assert(s2[i].0 == k);
            assert(table_has_key(s2, k));
        }
    }
}

/// Replacing the entry of slot `i`, key kept, updates the table model at
/// that slot's key.
proof fn lemma_table_model_set_entry<A, B>(s: Seq<(A, CacheEntry<B>)>, i: int, e: CacheEntry<B>)
    requires
        table_unique_keys(s),
        0 <= i < s.len(),
    ensures
        table_unique_keys(s.update(i, (s[i].0, e))),
        table_model(s.update(i, (s[i].0, e))) =~= table_model(s).insert(s[i].0, e),
{
    let key = s[i].0;
    let s2 = s.update(i, (key, e));
    assert forall|x: int, y: int| 0 <= x < y < s2.len() implies s2[x].0 != s2[y].0 by {
        assert(s2[x].0 == s[x].0 && s2[y].0 == s[y].0);
    }
    assert forall|k: A| #[trigger] table_model(s2).contains_key(k) implies table_model(
        s,
    ).insert(key, e).contains_key(k) && table_model(s2)[k] == table_model(s).insert(key, e)[k] by {
        let x = table_index_of(s2, k);
        assert(0 <= x < s2.len() && s2[x].0 == k);
        lemma_table_model_at(s2, x);
        assert(s[x].0 == k);
        assert(table_has_key(s, k));
        lemma_table_model_at(s, x);
        if x == i {
            assert(k == key && s2[x].1 == e);
        } else {
            assert(k != key);
            assert(s2[x] == s[x]);
        }
    }
    assert forall|k: A| #[trigger]
        table_model(s).insert(key, e).contains_key(k) implies table_model(s2).contains_key(k) by {
        if k == key {
            assert(s2[i].0 == key);
            assert(table_has_key(s2, k));
        } else {
            let x = table_index_of(s, k);
            assert(0 <= x < s.len() && s[x].0 == k);
            assert(x != i);
            assert(s2[x].0 == k);
            assert(table_has_key(s2, k));
        }
    }
}

/// Swap-removing slot `i` removes exactly that slot's key from the table
/// model. The removed slot is overwritten by the last one, which is then
/// dropped.
proof fn lemma_table_model_swap_remove<A, B>(s: Seq<(A, CacheEntry<B>)>, i: int)
    requires
        table_unique_keys(s),
        0 <= i < s.len(),
    ensures
        table_unique_keys(s.update(i, s.last()).drop_last()),
        table_model(s.update(i, s.last()).drop_last()) =~= table_model(s).remove(s[i].0),
{
    let key = s[i].0;
    let s2 = s.update(i, s.last()).drop_last();
    assert(s2.len() == s.len() - 1);
    assert forall|x: int, y: int| 0 <= x < y < s2.len() implies s2[x].0 != s2[y].0 by {
        let sx: int = if x == i {
            s.len() - 1
        } else {
            x
        };
        let sy: int = if y == i {
            s.len() - 1
        } else {
            y
        };
        assert(s2[x] == s[sx] && s2[y] == s[sy]);
    }
    assert forall|k: A| #[trigger] table_model(s2).contains_key(k) implies table_model(
        s,
    ).remove(key).contains_key(k) && table_model(s2)[k] == table_model(s).remove(key)[k] by {
        let x = table_index_of(s2, k);
        assert(0 <= x < s2.len() && s2[x].0 == k);
        lemma_table_model_at(s2, x);
        let sx: int = if x == i {
            s.len() - 1
        } else {
            x
        };
        assert(s2[x] == s[sx]);
        assert(table_has_key(s, k));
        lemma_table_model_at(s, sx);
        assert(sx != i);
        assert(k != key);
    }
    assert forall|k: A| #[trigger]
        table_model(s).remove(key).contains_key(k) implies table_model(s2).contains_key(k) by {
        let x = table_index_of(s, k);
        assert(0 <= x < s.len() && s[x].0 == k);
        assert(x != i);
        if x == s.len() - 1 {
            assert(i < s.len() - 1);
            assert(s2[i] == s[x]);
            assert(table_has_key(s2, k));
        } else {
            assert(s2[x] == s[x]);
            assert(table_has_key(s2, k));
        }
    }
}

/// A local in-memory cache. Each stored value carries an optional lifetime;
/// an expired value is absent on every read, and mutating operations run a
/// throttled full sweep that purges every expired entry at most once per
/// configured interval.
pub struct MemoryCache<A, B> {
    cache_table: Vec<(A, CacheEntry<B>)>,
    full_scan_frequency: Option<TimeSpan>,
    created_time: Timestamp,
    last_scan_time: Option<Timestamp>,
}

impl<A, B> View for MemoryCache<A, B> {
    type V = CacheModel<A, B>;

    closed spec fn view(&self) -> CacheModel<A, B> {
        CacheModel {
            entries: table_model(self.cache_table@),
            full_scan_frequency: self.full_scan_frequency,
            created_time: self.created_time,
            last_scan_time: self.last_scan_time,
        }
    }
}

/// The throttled sweep changes no surviving entry: what it keeps it keeps
/// verbatim, it never drops an entry that is live at the sweep instant, and
/// liveness at that instant is unaffected.
proof fn lemma_after_scan_entries<A, B>(m: CacheModel<A, B>, now: Timestamp)
    ensures
        forall|k: A| #[trigger]
            m.after_scan(now).entries.contains_key(k) ==> m.entries.contains_key(k)
                && m.after_scan(now).entries[k] == m.entries[k],
        forall|k: A| #[trigger] m.after_scan(now).live(k, now) <==> m.live(k, now),
        m.after_scan(now).full_scan_frequency == m.full_scan_frequency,
        m.after_scan(now).created_time == m.created_time,
{
}

impl<A: Hash + Eq, B> MemoryCache<A, B> {
    /// The cache's internal invariant: no key occupies two table slots.
    /// Every constructor establishes it and every operation preserves it.
    pub closed spec fn wf(self) -> bool {
        table_unique_keys(self.cache_table@)
    }

    /// Creates an empty cache that never sweeps, recording the given instant
    /// as its creation time.
    pub fn new_at(now: Timestamp) -> (c: Self)
        ensures
            c.wf(),
            c@.entries == Map::<A, CacheEntry<B>>::empty(),
            c@.full_scan_frequency is None,
            c@.created_time == now,
            c@.last_scan_time is None,
    {
        let c = MemoryCache {
            cache_table: Vec::new(),
            full_scan_frequency: None,
            created_time: now,
            last_scan_time: None,
        };
        proof {
            assert(table_model(c.cache_table@) =~= Map::<A, CacheEntry<B>>::empty());
        }
        c
    }

    /// Creates an empty cache that never sweeps: expired entries are only
    /// dropped when read or overwritten. The creation time is the clock
    /// reading taken inside this call.
    pub fn new() -> (c: Self)
        ensures
            c.wf(),
            c@.entries == Map::<A, CacheEntry<B>>::empty(),
            c@.full_scan_frequency is None,
            c@.last_scan_time is None,
    {
        Self::new_at(Timestamp::now())
    }

    /// Creates an empty cache that purges all expired entries during a
    /// mutating call, at most once per `full_scan_frequency`, recording the
    /// given instant as its creation time: the baseline for the first
    /// sweep-due check.
    pub fn with_full_scan_at(full_scan_frequency: TimeSpan, now: Timestamp) -> (c: Self)
        ensures
            c.wf(),
            c@.entries == Map::<A, CacheEntry<B>>::empty(),
            c@.full_scan_frequency == Some(full_scan_frequency),
            c@.created_time == now,
            c@.last_scan_time is None,
    {
        let c = MemoryCache {
            cache_table: Vec::new(),
            full_scan_frequency: Some(full_scan_frequency),
            created_time: now,
            last_scan_time: None,
        };
        proof {
            assert(table_model(c.cache_table@) =~= Map::<A, CacheEntry<B>>::empty());
        }
        c
    }

    /// Creates an empty cache that purges all expired entries during a
    /// mutating call, at most once per `full_scan_frequency`. The creation
    /// time — the baseline for the first sweep-due check — is the clock
    /// reading taken inside this call.
    pub fn with_full_scan(full_scan_frequency: TimeSpan) -> (c: Self)
        ensures
            c.wf(),
            c@.entries == Map::<A, CacheEntry<B>>::empty(),
            c@.full_scan_frequency == Some(full_scan_frequency),
            c@.last_scan_time is None,
    {
        Self::with_full_scan_at(full_scan_frequency, Timestamp::now())
    }

    /// Gets the instant of the last full sweep; absent if none has run.
    pub fn get_last_scan_time(&self) -> (r: Option<Timestamp>)
        ensures
            r == self@.last_scan_time,
    {
        self.last_scan_time
    }

    /// Gets the configured minimum interval between full sweeps.
    pub fn get_full_scan_frequency(&self) -> (r: Option<TimeSpan>)
        ensures
            r == self@.full_scan_frequency,
    {
        self.full_scan_frequency
    }

    /// The throttled sweep: if a frequency is configured and at least that
    /// much time has passed since the last sweep (or since creation), drop
    /// every entry that is expired at `current_time` and record the sweep.
    fn try_full_scan_expired_items(&mut self, current_time: Timestamp)
        requires
            old(self).wf(),
            obeys_structural_eq::<A>(),
        ensures
            final(self).wf(),
            final(self)@ == old(self)@.after_scan(current_time),
    {
        if let Some(frequency) = self.full_scan_frequency {
            let reference = match self.last_scan_time {
                Some(t) => t,
                None => self.created_time,
            };
            let since = current_time.millis_since(reference);
            if since >= frequency.millis {
                let mut i: usize = 0;
                while i < self.cache_table.len()
                    invariant
                        obeys_structural_eq::<A>(),
                        table_unique_keys(self.cache_table@),
                        i <= self.cache_table@.len(),
                        self.full_scan_frequency == old(self).full_scan_frequency,
                        self.created_time == old(self).created_time,
                        self.last_scan_time == old(self).last_scan_time,
                        forall|j: int|
                            0 <= j < i ==> !self.cache_table@[j].1.spec_is_expired(current_time),
                        forall|k: A| #[trigger]
                            table_model(self.cache_table@).contains_key(k) ==> old(
                                self,
                            )@.entries.contains_key(k) && table_model(self.cache_table@)[k] == old(
                                self,
                            )@.entries[k],
                        forall|k: A|
                            old(self)@.entries.contains_key(k) && !old(
                                self,
                            )@.entries[k].spec_is_expired(current_time) ==> #[trigger] table_model(
                                self.cache_table@,
                            ).contains_key(k),
                    decreases self.cache_table@.len() - i,
                {
                    if self.cache_table[i].1.is_expired(current_time) {
                        proof {
                            lemma_table_model_at(self.cache_table@, i as int);
                            lemma_table_model_swap_remove(self.cache_table@, i as int);
                        }
                        let _ = self.cache_table.swap_remove(i);
                    } else {
                        proof {
                            lemma_table_model_at(self.cache_table@, i as int);
                        }
                        i += 1;
                    }
                }
                self.last_scan_time = Some(current_time);
                proof {
                    let purged = old(self)@.purged(current_time);
                    assert forall|k: A| #[trigger]
                        table_model(self.cache_table@).contains_key(
                            k,
                        ) implies purged.entries.contains_key(k) && table_model(
                        self.cache_table@,
                    )[k] == purged.entries[k] by {
                        let s = self.cache_table@;
                        let x = table_index_of(s, k);
                        assert(0 <= x < s.len() && s[x].0 == k);
                        lemma_table_model_at(s, x);
                    }
                    assert(table_model(self.cache_table@) =~= purged.entries);
                    assert(self@ =~= old(self)@.after_scan(current_time));
                }
            } else {
                proof {
                    assert(self@ =~= old(self)@.after_scan(current_time));
                }
            }
        } else {
            proof {
                assert(self@ =~= old(self)@.after_scan(current_time));
            }
        }
    }

    /// The slot holding `key`, if any.
    fn find_index(&self, key: &A) -> (r: Option<usize>)
        requires
            obeys_structural_eq::<A>(),
        ensures
            match r {
                Some(i) => i < self.cache_table@.len() && self.cache_table@[i as int].0 == *key,
                None => !table_has_key(self.cache_table@, *key),
            },
    {
        let len = self.cache_table.len();
        let mut i: usize = 0;
        while i < len
            invariant
                obeys_structural_eq::<A>(),
                len == self.cache_table@.len(),
                i <= len,
                forall|j: int| 0 <= j < i ==> self.cache_table@[j].0 != *key,
            decreases len - i,
        {
            if self.cache_table[i].0 == *key {
                return Some(i);
            }
            i += 1;
        }
        None
    }

    /// Inserts `value` under `key` with the given lifetime, judging expiry
    /// and the sweep throttle at the given instant. Any occupant of the key
    /// is replaced; the previous value comes back only if it was still live,
    /// since an expired value is semantically gone.
    pub fn insert_at(&mut self, key: A, value: B, lifetime: Option<TimeSpan>, now: Timestamp) -> (r:
        Option<B>)
        requires
            old(self).wf(),
            obeys_structural_eq::<A>(),
        ensures
            final(self).wf(),
            final(self)@ == old(self)@.after_insert(key, value, lifetime, now),
            r == old(self)@.lookup(key, now),
    {
        proof {
            lemma_after_scan_entries(old(self)@, now);
        }
        self.try_full_scan_expired_items(now);
        let ghost swept = old(self)@.after_scan(now);
        let entry = CacheEntry::new_at(value, lifetime, now);
        match self.find_index(&key) {
            Some(i) => {
                proof {
                    lemma_table_model_at(self.cache_table@, i as int);
                    assert(swept.entries[key] == self.cache_table@[i as int].1);
                    assert(swept.live(key, now) == old(self)@.live(key, now));
                    lemma_table_model_swap_remove(self.cache_table@, i as int);
                }
                let pair = self.cache_table.swap_remove(i);
                proof {
                    assert(old(self)@.live(key, now) <==> !pair.1.spec_is_expired(now));
                    assert(old(self)@.live(key, now) ==> old(self)@.entries[key] == pair.1);
                    lemma_table_model_push(self.cache_table@, key, entry);
                    assert(table_model(self.cache_table@.push((key, entry))) =~= old(
                        self,
                    )@.after_insert(key, value, lifetime, now).entries);
                }
                self.cache_table.push((key, entry));
                proof {
                    assert(self@ =~= old(self)@.after_insert(key, value, lifetime, now));
                }
                if pair.1.is_expired(now) {
                    None
                } else {
                    Some(pair.1.value)
                }
            },
            None => {
                proof {
                    if old(self)@.live(key, now) {
                        assert(swept.live(key, now));
                        assert(table_has_key(self.cache_table@, key));
                    }
                    lemma_table_model_push(self.cache_table@, key, entry);
                    assert(table_model(self.cache_table@.push((key, entry))) =~= old(
                        self,
                    )@.after_insert(key, value, lifetime, now).entries);
                }
                self.cache_table.push((key, entry));
                proof {
                    assert(self@ =~= old(self)@.after_insert(key, value, lifetime, now));
                }
                None
            },
        }
    }

    /// Removes `key` unconditionally, judging expiry and the sweep throttle
    /// at the given instant. The removed value comes back only if it was
    /// still live at that instant.
    pub fn remove_at(&mut self, key: &A, now: Timestamp) -> (r: Option<B>)
        requires
            old(self).wf(),
            obeys_structural_eq::<A>(),
        ensures
            final(self).wf(),
            final(self)@ == old(self)@.after_remove(*key, now),
            r == old(self)@.lookup(*key, now),
    {
        proof {
            lemma_after_scan_entries(old(self)@, now);
        }
        self.try_full_scan_expired_items(now);
        match self.find_index(key) {
            Some(i) => {
                proof {
                    lemma_table_model_at(self.cache_table@, i as int);
                    lemma_table_model_swap_remove(self.cache_table@, i as int);
                }
                let pair = self.cache_table.swap_remove(i);
                proof {
                    assert(self@ =~= old(self)@.after_remove(*key, now));
                }
                if pair.1.is_expired(now) {
                    None
                } else {
                    Some(pair.1.value)
                }
            },
            None => {
                proof {
                    assert(table_model(self.cache_table@).remove(*key) =~= table_model(
                        self.cache_table@,
                    ));
                    assert(self@ =~= old(self)@.after_remove(*key, now));
                }
                None
            },
        }
    }

    /// Gets the value under `key` if a live entry exists at the given
    /// instant; otherwise computes `factory()`, installs it under the given
    /// lifetime (replacing any expired occupant), and returns it. `factory`
    /// is called only when no live entry exists.
    pub fn get_or_insert_at<F: Fn() -> B>(
        &mut self,
        key: A,
        factory: F,
        lifetime: Option<TimeSpan>,
        now: Timestamp,
    ) -> (r: &B)
        requires
            old(self).wf(),
            obeys_structural_eq::<A>(),
            !old(self)@.live(key, now) ==> call_requires(factory, ()),
        ensures
            final(self).wf(),
            old(self)@.live(key, now) ==> final(self)@ == old(self)@.after_scan(now) && *r == old(
                self,
            )@.entries[key].value,
            !old(self)@.live(key, now) ==> call_ensures(factory, (), *r) && final(self)@ == old(
                self,
            )@.after_insert(key, *r, lifetime, now),
    {
        proof {
            lemma_after_scan_entries(old(self)@, now);
        }
        self.try_full_scan_expired_items(now);
        match self.find_index(&key) {
            Some(i) => {
                proof {
                    lemma_table_model_at(self.cache_table@, i as int);
                }
                if self.cache_table[i].1.is_expired(now) {
                    let entry = CacheEntry::new_at(factory(), lifetime, now);
                    proof {
                        lemma_table_model_swap_remove(self.cache_table@, i as int);
                    }
                    let _ = self.cache_table.swap_remove(i);
                    proof {
                        lemma_table_model_push(self.cache_table@, key, entry);
                        assert(table_model(self.cache_table@.push((key, entry))) =~= old(
                            self,
                        )@.after_insert(key, entry.value, lifetime, now).entries);
                    }
                    self.cache_table.push((key, entry));
                    proof {
                        assert(self@ =~= old(self)@.after_insert(key, entry.value, lifetime, now));
                    }
                    let n = self.cache_table.len();
                    &self.cache_table[n - 1].1.value
                } else {
                    &self.cache_table[i].1.value
                }
            },
            None => {
                proof {
                    if old(self)@.live(key, now) {
                        assert(old(self)@.after_scan(now).live(key, now));
                        assert(table_has_key(self.cache_table@, key));
                    }
                }
                let entry = CacheEntry::new_at(factory(), lifetime, now);
                proof {
                    lemma_table_model_push(self.cache_table@, key, entry);
                    assert(table_model(self.cache_table@.push((key, entry))) =~= old(
                        self,
                    )@.after_insert(key, entry.value, lifetime, now).entries);
                }
                self.cache_table.push((key, entry));
                proof {
                    assert(self@ =~= old(self)@.after_insert(key, entry.value, lifetime, now));
                }
                let n = self.cache_table.len();
                &self.cache_table[n - 1].1.value
            },
        }
    }

    /// Determines whether the cache holds a live entry under `key`, judged
    /// at the clock reading taken inside this call. Does not mutate and
    /// never triggers a sweep.
    pub fn contains_key(&self, key: &A) -> (r: bool)
        requires
            self.wf(),
            obeys_structural_eq::<A>(),
        ensures
            exists|now: Timestamp| r == self@.live(*key, now),
            r ==> self@.entries.contains_key(*key),
            self@.entries.contains_key(*key) && self@.entries[*key].expiration_time is None ==> r,
    {
        let now = Timestamp::now();
        self.contains_key_at(key, now)
    }

    /// Gets the value stored under `key` if its entry is live at the clock
    /// reading taken inside this call. Does not mutate and never triggers a
    /// sweep.
    pub fn get(&self, key: &A) -> (r: Option<&B>)
        requires
            self.wf(),
            obeys_structural_eq::<A>(),
        ensures
            r matches Some(value) ==> self@.entries.contains_key(*key) && *value
                == self@.entries[*key].value,
            exists|now: Timestamp| (r is Some <==> self@.live(*key, now)),
            self@.entries.contains_key(*key) && self@.entries[*key].expiration_time is None ==> r
                is Some,
    {
        let now = Timestamp::now();
        self.get_at(key, now)
    }

    /// Inserts `value` under `key` with the given lifetime, at the clock
    /// reading taken inside this call. Triggers the throttled sweep first.
    /// The previous value comes back only if it had not yet expired.
    pub fn insert(&mut self, key: A, value: B, lifetime: Option<TimeSpan>) -> (r: Option<B>)
        requires
            old(self).wf(),
            obeys_structural_eq::<A>(),
        ensures
            final(self).wf(),
            exists|now: Timestamp|
                #![auto]
                final(self)@ == old(self)@.after_insert(key, value, lifetime, now) && r == old(
                    self,
                )@.lookup(key, now),
            !old(self)@.entries.contains_key(key) ==> r is None,
            old(self)@.entries.contains_key(key) && old(self)@.entries[key].expiration_time is None
                ==> r == Some(old(self)@.entries[key].value),
            final(self)@.entries.contains_key(key) && final(self)@.entries[key].value == value,
    {
        let now = Timestamp::now();
        self.insert_at(key, value, lifetime, now)
    }

    /// Removes `key` unconditionally, at the clock reading taken inside this
    /// call. Triggers the throttled sweep first. The removed value comes
    /// back only if it had not yet expired.
    pub fn remove(&mut self, key: &A) -> (r: Option<B>)
        requires
            old(self).wf(),
            obeys_structural_eq::<A>(),
        ensures
            final(self).wf(),
            exists|now: Timestamp|
                #![auto]
                final(self)@ == old(self)@.after_remove(*key, now) && r == old(self)@.lookup(
                    *key,
                    now,
                ),
            !old(self)@.entries.contains_key(*key) ==> r is None,
            old(self)@.entries.contains_key(*key) && old(self)@.entries[*key].expiration_time
                is None ==> r == Some(old(self)@.entries[*key].value),
            !final(self)@.entries.contains_key(*key),
    {
        let now = Timestamp::now();
        self.remove_at(key, now)
    }

    /// Gets the value under `key` if a live entry exists at the clock
    /// reading taken inside this call; otherwise computes `factory()` and
    /// installs it under the given lifetime. Triggers the throttled sweep
    /// first. `factory` is called only when no live entry exists; in
    /// particular it is never called while the key holds an entry that
    /// cannot expire.
    pub fn get_or_insert<F: Fn() -> B>(
        &mut self,
        key: A,
        factory: F,
        lifetime: Option<TimeSpan>,
    ) -> (r: &B)
        requires
            old(self).wf(),
            obeys_structural_eq::<A>(),
            !(old(self)@.entries.contains_key(key) && old(self)@.entries[key].expiration_time
                is None) ==> call_requires(factory, ()),
        ensures
            final(self).wf(),
            exists|now: Timestamp|
                #![auto]
                (old(self)@.live(key, now) ==> final(self)@ == old(self)@.after_scan(now) && *r
                    == old(self)@.entries[key].value) && (!old(self)@.live(key, now)
                    ==> call_ensures(factory, (), *r) && final(self)@ == old(self)@.after_insert(
                    key,
                    *r,
                    lifetime,
                    now,
                )),
            old(self)@.entries.contains_key(key) && old(self)@.entries[key].expiration_time is None
                ==> *r == old(self)@.entries[key].value,
            final(self)@.entries.contains_key(key) && final(self)@.entries[key].value == *r,
    {
        let now = Timestamp::now();
        proof {
            lemma_after_scan_entries(old(self)@, now);
        }
        self.get_or_insert_at(key, factory, lifetime, now)
    }

    /// Determines whether the cache holds a live entry under `key` at the
    /// given instant.
    pub fn contains_key_at(&self, key: &A, now: Timestamp) -> (r: bool)
        requires
            self.wf(),
            obeys_structural_eq::<A>(),
        ensures
            r == self@.live(*key, now),
    {
        match self.find_index(key) {
            Some(i) => {
                proof {
                    lemma_table_model_at(self.cache_table@, i as int);
                }
                !self.cache_table[i].1.is_expired(now)
            },
            None => false,
        }
    }

    /// Gets the value stored under `key` if its entry is live at the given
    /// instant.
    pub fn get_at(&self, key: &A, now: Timestamp) -> (r: Option<&B>)
        requires
            self.wf(),
            obeys_structural_eq::<A>(),
        ensures
            match r {
                Some(value) => self@.live(*key, now) && *value == self@.entries[*key].value,
                None => !self@.live(*key, now),
            },
    {
        match self.find_index(key) {
            Some(i) => {
                proof {
                    lemma_table_model_at(self.cache_table@, i as int);
                }
                if self.cache_table[i].1.is_expired(now) {
                    None
                } else {
                    Some(&self.cache_table[i].1.value)
                }
            },
            None => None,
        }
    }
}

} // verus!

