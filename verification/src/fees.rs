//! Daemon-derived caches: the fee-estimate map with its time-to-live, and
//! the memoized relay fee.
//!
//! Fee rates are carried in millisatoshi per virtual byte so that the cache
//! and its contracts stay in integer arithmetic.

use vstd::prelude::*;

verus! {

/// How long a stored fee-estimate map stays fresh, in milliseconds.
pub const FEE_ESTIMATES_TTL_MS: u64 = 60_000;

/// TTL-bounded cache over the fee-estimate map, and the memoized relay fee.
pub struct FeeCache {
    /// (confirmation target, fee rate in millisatoshi per vbyte).
    pub map: Vec<(u16, u64)>,
    /// When the map was stored, in milliseconds of the caller's clock.
    pub stamp: Option<u64>,
    /// Relay fee in millisatoshi per vbyte, once observed.
    pub relayfee: Option<u64>,
}

/// The cache is fresh exactly when a map was stored less than the TTL ago.
pub open spec fn cache_fresh(c: &FeeCache, now_ms: u64) -> bool {
    match c.stamp {
        Some(t) => t <= now_ms && now_ms - t < FEE_ESTIMATES_TTL_MS,
        None => false,
    }
}

/// The first rate stored for a confirmation target.
pub open spec fn rate_for(map: Seq<(u16, u64)>, target: u16) -> Option<u64>
    decreases map.len(),
{
    if map.len() == 0 {
        None
    } else if map[0].0 == target {
        Some(map[0].1)
    } else {
        rate_for(map.skip(1), target)
    }
}

impl FeeCache {
    pub fn empty() -> (r: FeeCache)
        ensures
            r.map@.len() == 0,
            r.stamp is None,
            r.relayfee is None,
    {
        FeeCache { map: Vec::new(), stamp: None, relayfee: None }
    }

    /// Whether a reader at `now_ms` may use the stored map.
    pub fn is_fresh(&self, now_ms: u64) -> (r: bool)
        requires
            match self.stamp {
                Some(t) => t <= now_ms,
                None => true,
            },
        ensures
            r == cache_fresh(self, now_ms),
    {
        match self.stamp {
            Some(t) => now_ms - t < FEE_ESTIMATES_TTL_MS,
            None => false,
        }
    }

    /// The cached rate for a confirmation target.
    pub fn rate(&self, target: u16) -> (r: Option<u64>)
        ensures
            r == rate_for(self.map@, target),
    {
        let mut i: usize = 0;
        proof {
            assert(self.map@.skip(0) =~= self.map@);
        }
        while i < self.map.len()
            invariant
                i <= self.map@.len(),
                rate_for(self.map@, target) == rate_for(self.map@.skip(i as int), target),
            decreases self.map@.len() - i,
        {
            proof {
                let rest = self.map@.skip(i as int);
                assert(rest[0] == self.map@[i as int]);
                assert(rest.skip(1) =~= self.map@.skip(i + 1));
            }
            let (t, v) = self.map[i];
            if t == target {
                return Some(v);
            }
            i = i + 1;
        }
        None
    }

    /// Store a freshly fetched estimate map. A failed refresh stores
    /// nothing, so the stale map stays.
    pub fn store(&mut self, map: Vec<(u16, u64)>, now_ms: u64)
        ensures
            final(self).map@ == map@,
            final(self).stamp == Some(now_ms),
            final(self).relayfee == old(self).relayfee,
    {
        self.map = map;
        self.stamp = Some(now_ms);
    }

    /// Memoize the relay fee for the life of the cache.
    pub fn set_relayfee(&mut self, rate: u64)
        ensures
            final(self).relayfee == Some(rate),
            final(self).map@ == old(self).map@,
            final(self).stamp == old(self).stamp,
    {
        self.relayfee = Some(rate);
    }

    pub fn cached_relayfee(&self) -> (r: Option<u64>)
        ensures
            r == self.relayfee,
    {
        self.relayfee
    }
}

/// Once a map is stored, any read within the TTL is served from the cache:
/// no second daemon call happens inside the window.
pub proof fn lemma_fee_cache_single_refresh(c: FeeCache, stored_at: u64, now_ms: u64)
    requires
        c.stamp == Some(stored_at),
        stored_at <= now_ms,
        now_ms - stored_at < FEE_ESTIMATES_TTL_MS,
    ensures
        cache_fresh(&c, now_ms),
{
}


/// The recognized confirmation-target set: every target from 1 to 25, then
/// the day, half-week-of-blocks and week marks.
pub fn conf_targets() -> (r: Vec<u16>)
    ensures
        r@.len() == 28,
        forall|i: int| 0 <= i < 25 ==> #[trigger] r@[i] == i + 1,
        r@[25] == 144u16,
        r@[26] == 504u16,
        r@[27] == 1008u16,
{
    let mut r: Vec<u16> = Vec::new();
    let mut t: u16 = 1;
    while t <= 25
        invariant
            1 <= t <= 26,
            r@.len() == t - 1,
            forall|i: int| 0 <= i < t - 1 ==> #[trigger] r@[i] == i + 1,
        decreases 26 - t,
    {
        r.push(t);
        t = t + 1;
    }
    r.push(144);
    r.push(504);
    r.push(1008);
    r
}


/// Membership in the recognized confirmation-target set.
pub open spec fn is_recognized_target(t: u16) -> bool {
    (1 <= t <= 25) || t == 144 || t == 504 || t == 1008
}

/// The entries of an estimate map whose targets are recognized, in order.
pub open spec fn recognized_entries(map: Seq<(u16, u64)>) -> Seq<(u16, u64)>
    decreases map.len(),
{
    if map.len() == 0 {
        Seq::empty()
    } else if is_recognized_target(map[0].0) {
        seq![map[0]] + recognized_entries(map.skip(1))
    } else {
        recognized_entries(map.skip(1))
    }
}

/// Keep only the entries for recognized confirmation targets, so that the
/// cache's domain stays within the set whatever the daemon answered.
pub fn retain_recognized(map: Vec<(u16, u64)>) -> (r: Vec<(u16, u64)>)
    ensures
        r@ == recognized_entries(map@),
        forall|k: int| 0 <= k < r@.len() ==> is_recognized_target((#[trigger] r@[k]).0),
{
    let ghost whole = map@;
    let mut r: Vec<(u16, u64)> = Vec::new();
    let mut i: usize = 0;
    proof {
        assert(whole.skip(0) =~= whole);
        assert(r@ + recognized_entries(whole) =~= recognized_entries(whole));
    }
    while i < map.len()
        invariant
            i <= map@.len(),
            whole == map@,
            recognized_entries(whole) == r@ + recognized_entries(whole.skip(i as int)),
            forall|k: int| 0 <= k < r@.len() ==> is_recognized_target((#[trigger] r@[k]).0),
        decreases map@.len() - i,
    {
        let ghost rest = whole.skip(i as int);
        proof {
            assert(rest[0] == whole[i as int]);
            assert(rest.skip(1) =~= whole.skip(i + 1));
        }
        let (t, v) = map[i];
        if (1 <= t && t <= 25) || t == 144 || t == 504 || t == 1008 {
            r.push((t, v));
            proof {
                assert(r@ =~= r@.drop_last() + seq![whole[i as int]]);
                assert(r@.drop_last() + (seq![rest[0]] + recognized_entries(rest.skip(1))) =~= r@
                    + recognized_entries(whole.skip(i + 1)));
            }
        }
        i = i + 1;
    }
    proof {
        assert(recognized_entries(whole.skip(i as int)) =~= Seq::<(u16, u64)>::empty());
        assert(r@ + Seq::<(u16, u64)>::empty() =~= r@);
    }
    r
}

} // verus!
