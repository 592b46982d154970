//! TTL cache slot: a read-through cache for one upstream value, holding at
//! most one cached value with its fetch timestamp. Callers first check
//! freshness under a shared section, then re-check under an exclusive
//! section, and only fetch when both checks miss; a failed fetch leaves the
//! previous entry (or its absence) untouched. The lock itself lives with the
//! caller; this module holds the slot's state and the decisions about it.

use vstd::prelude::*;

verus! {

/// One cached value together with the time it was fetched, in the caller's
/// monotonic clock ticks.
pub struct CacheEntry<T> {
    pub value: T,
    pub fetched_at: u64,
}

/// A cache slot: at most one entry, a fixed time-to-live, and a counter of
/// how many upstream fetches have been recorded against this slot.
pub struct TtlSlot<T> {
    pub entry: Option<CacheEntry<T>>,
    pub ttl: u64,
    pub fetches: u64,
}

/// Increment that stops at the largest representable count.
pub open spec fn sat_inc(n: u64) -> u64 {
    if n < u64::MAX {
        (n + 1) as u64
    } else {
        n
    }
}

impl<T> TtlSlot<T> {
    /// The entry is present and its age at time `now` is under the TTL.
    pub open spec fn is_fresh_at(self, now: u64) -> bool {
        match self.entry {
            Some(e) => now < e.fetched_at + self.ttl,
            None => false,
        }
    }

    /// An empty slot with the given TTL.
    pub fn new(ttl: u64) -> (r: Self)
        ensures
            r.entry is None,
            r.ttl == ttl,
            r.fetches == 0,
    {
        TtlSlot { entry: None, ttl, fetches: 0 }
    }

    pub fn ttl(&self) -> (r: u64)
        ensures
            r == self.ttl,
    {
        self.ttl
    }

    /// How many fetches this slot has recorded.
    pub fn fetch_count(&self) -> (r: u64)
        ensures
            r == self.fetches,
    {
        self.fetches
    }

    /// The freshness check made under the shared section, and again under the
    /// exclusive section: returns the cached value exactly when the entry is
    /// present and not yet expired at `now`.
    pub fn get_fresh(&self, now: u64) -> (r: Option<&T>)
        ensures
            match r {
                Some(v) => self.is_fresh_at(now) && *v == self.entry->Some_0.value,
                None => !self.is_fresh_at(now),
            },
    {
        match &self.entry {
            Some(e) => {
                if now < e.fetched_at {
                    // The caller's clock is monotonic, but a slot must answer
                    // for every pair of timestamps: an entry stamped after
                    // `now` has age zero and is fresh.
                    Some(&e.value)
                } else if now - e.fetched_at < self.ttl {
                    Some(&e.value)
                } else {
                    None
                }
            },
            None => None,
        }
    }

    /// The end of the exclusive section after a fetch was made: record the
    /// fetch; on success store the new entry, on failure leave the slot's
    /// entry exactly as it was and hand the error back.
    pub fn complete_refresh<E>(&mut self, now: u64, outcome: Result<T, E>) -> (r: Result<(), E>)
        ensures
            final (self).ttl == old(self).ttl,
            final (self).fetches == sat_inc(old(self).fetches),
            match outcome {
                Ok(v) => final (self).entry matches Some(e) && e.value == v && e.fetched_at == now
                    && r is Ok,
                Err(e) => final (self).entry == old(self).entry && (r matches Err(err) && err
                    == e),
            },
    {
        if self.fetches < u64::MAX {
            self.fetches = self.fetches + 1;
        }
        match outcome {
            Ok(v) => {
                self.entry = Some(CacheEntry { value: v, fetched_at: now });
                Ok(())
            },
            Err(e) => Err(e),
        }
    }
}

/// One serialized pass through the exclusive section at time `now`, modelled
/// on the slot's state: a caller that still sees a fresh entry changes
/// nothing, and one that sees a stale or absent entry fetches (here the value
/// `fetched` stands for what the upstream would return) and stores it.
pub open spec fn exclusive_step<T>(s: TtlSlot<T>, now: u64, fetched: T) -> TtlSlot<T> {
    if s.is_fresh_at(now) {
        s
    } else {
        TtlSlot {
            entry: Some(CacheEntry { value: fetched, fetched_at: now }),
            ttl: s.ttl,
            fetches: sat_inc(s.fetches),
        }
    }
}

/// Several callers' exclusive sections, serialized in arrival order, all at
/// time `now`; `vs[i]` is the value the i-th caller would fetch if it did.
pub open spec fn run_sections<T>(s: TtlSlot<T>, now: u64, vs: Seq<T>) -> TtlSlot<T>
    decreases vs.len(),
{
    if vs.len() == 0 {
        s
    } else {
        run_sections(exclusive_step(s, now, vs[0]), now, vs.drop_first())
    }
}

/// A fresh slot is left untouched by any number of serialized exclusive
/// sections: nobody fetches while the entry is within its TTL.
pub proof fn lemma_fresh_slot_unchanged<T>(s: TtlSlot<T>, now: u64, vs: Seq<T>)
    requires
        s.is_fresh_at(now),
    ensures
        run_sections(s, now, vs) == s,
    decreases vs.len(),
{
    if vs.len() > 0 {
        lemma_fresh_slot_unchanged(s, now, vs.drop_first());
    }
}

/// Idempotent read: while the elapsed time since the last successful refresh
/// is under the TTL, a repeated read returns the identical cached value and
/// no fetch happens, however many callers go through the exclusive section.
pub proof fn lemma_idempotent_read<T>(s: TtlSlot<T>, elapsed: u64, vs: Seq<T>)
    requires
        s.entry is Some,
        elapsed < s.ttl,
        s.entry->Some_0.fetched_at + elapsed <= u64::MAX,
    ensures
        s.is_fresh_at((s.entry->Some_0.fetched_at + elapsed) as u64),
        run_sections(s, (s.entry->Some_0.fetched_at + elapsed) as u64, vs) == s,
{
    let now = (s.entry->Some_0.fetched_at + elapsed) as u64;
    lemma_fresh_slot_unchanged(s, now, vs);
}

/// Stampede bound: once the entry has expired, any number of concurrent
/// callers, serialized through the exclusive section at the same instant,
/// cause exactly one fetch; the first caller's value is stored and every
/// later caller reads it.
pub proof fn lemma_stampede_bound<T>(s: TtlSlot<T>, now: u64, vs: Seq<T>)
    requires
        !s.is_fresh_at(now),
        s.ttl > 0,
        s.fetches < u64::MAX,
        vs.len() >= 1,
    ensures
        run_sections(s, now, vs).fetches == s.fetches + 1,
        run_sections(s, now, vs).entry matches Some(e) && e.value == vs[0] && e.fetched_at == now,
        run_sections(s, now, vs).ttl == s.ttl,
{
    let s1 = exclusive_step(s, now, vs[0]);
    assert(s1.is_fresh_at(now));
    lemma_fresh_slot_unchanged(s1, now, vs.drop_first());
}

} // verus!
