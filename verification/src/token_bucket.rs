//! A single-resource token bucket driven by a [`Quota`].
//!
//! The bucket holds a current token count and the timestamp of its last
//! refresh. Checking is read-only; taking first refreshes the count from the
//! elapsed time, then checks, then commits. A failed operation reports the
//! absolute instant at which the requested weight is expected to be
//! available.
//!
//! Timestamps are microseconds on a caller-supplied monotonic clock: every
//! operation that reads or advances the clock takes `now` explicitly.
//!
//! A freshly constructed bucket starts full (`tokens == max_burst`), so its
//! whole burst allowance is immediately usable.

use vstd::prelude::*;

use crate::quota::Quota;

verus! {

/// The absolute instant (microseconds on the caller's monotonic clock) at
/// which a reported deficit is expected to be resolved.
pub type NotUntil = u64;

/// Clamp a non-negative mathematical instant onto the `u64` clock axis.
pub open spec fn sat_u64(x: int) -> u64 {
    if x > u64::MAX {
        u64::MAX
    } else {
        x as u64
    }
}

/// Single-resource rate-limiter state: a token count in
/// `[0, quota.max_burst]` and the instant of the last refresh.
#[derive(Clone, Copy, PartialEq, Eq, Structural, Debug)]
pub struct TokenBucket {
    /// The immutable configuration this bucket is bound to.
    pub quota: Quota,
    /// Units currently available, as of `last_update`.
    pub tokens: u32,
    /// Instant (microseconds) at which `tokens` was last brought current.
    pub last_update: u64,
}

impl TokenBucket {
    /// Well-formedness: the quota is well-formed and the token count never
    /// exceeds the burst size.
    pub open spec fn wf(self) -> bool {
        &&& self.quota.wf()
        &&& self.tokens <= self.quota.max_burst
    }

    /// The instant at which a deficit of `deficit` units, counted from
    /// `self.last_update`, is replenished; saturates at the end of the clock
    /// axis.
    pub open spec fn spec_deadline(self, deficit: int) -> u64 {
        sat_u64(self.last_update + self.quota.replenish_micros * deficit)
    }

    /// What [`TokenBucket::check_n`] returns: success if the recorded count
    /// covers `n`, or if the deficit's deadline has already passed; otherwise
    /// the deadline itself.
    pub open spec fn spec_check(self, n: u32, now: u64) -> Result<(), NotUntil> {
        if n <= self.tokens {
            Ok(())
        } else if now < self.spec_deadline(n - self.tokens) {
            Err(self.spec_deadline(n - self.tokens))
        } else {
            Ok(())
        }
    }

    /// Whole units earned back between `self.last_update` and `now`.
    pub open spec fn spec_earned(self, now: u64) -> int {
        (now - self.last_update) / (self.quota.replenish_micros as int)
    }

    /// The token count after refreshing at `now`: earned units are added and
    /// the total is capped at the burst size.
    pub open spec fn spec_refreshed_tokens(self, now: u64) -> int {
        let filled = self.tokens + self.spec_earned(now);
        if filled >= self.quota.max_burst {
            self.quota.max_burst as int
        } else {
            filled
        }
    }

    /// The bucket state after refreshing at `now` (no units taken).
    pub open spec fn spec_refreshed(self, now: u64) -> TokenBucket {
        TokenBucket {
            tokens: self.spec_refreshed_tokens(now) as u32,
            last_update: now,
            ..self
        }
    }

    /// Whether a take of `n` at `now` succeeds: the refreshed count covers
    /// `n`.
    pub open spec fn take_ok(self, n: u32, now: u64) -> bool {
        n <= self.spec_refreshed_tokens(now)
    }

    /// What [`TokenBucket::try_take_n`] returns: success, or the deadline of
    /// the deficit that remains after the refresh.
    pub open spec fn spec_take_result(self, n: u32, now: u64) -> Result<(), NotUntil> {
        if self.take_ok(n, now) {
            Ok(())
        } else {
            Err(sat_u64(now + self.quota.replenish_micros * (n - self.spec_refreshed_tokens(now))))
        }
    }

    /// The bucket state after [`TokenBucket::try_take_n`] at `now`: refreshed
    /// in every case, and debited by `n` exactly when the take succeeds.
    pub open spec fn spec_after_take(self, n: u32, now: u64) -> TokenBucket {
        let refreshed = self.spec_refreshed(now);
        if self.take_ok(n, now) {
            TokenBucket { tokens: (refreshed.tokens - n) as u32, ..refreshed }
        } else {
            refreshed
        }
    }

    /// Create a bucket bound to `quota`, starting full at instant `now`.
    pub fn new(quota: Quota, now: u64) -> (b: TokenBucket)
        requires
            quota.wf(),
        ensures
            b == (TokenBucket { quota, tokens: quota.max_burst, last_update: now }),
            b.wf(),
    {
        TokenBucket { quota, tokens: quota.max_burst, last_update: now }
    }

    /// Read-only admission check for `n` units at instant `now`.
    ///
    /// Does not refresh the token count: if the recorded count falls short,
    /// the deficit's deadline is computed from `last_update`, and the check
    /// fails exactly when that deadline still lies in the future. A request
    /// for zero units always succeeds. Because no refresh happens, the
    /// reported deadline can be pessimistic when time has passed since the
    /// last take; use [`TokenBucket::try_take_n`] for up-to-date accounting.
    pub fn check_n(&self, n: u32, now: u64) -> (r: Result<(), NotUntil>)
        requires
            self.wf(),
        ensures
            r == self.spec_check(n, now),
    {
        if n <= self.tokens {
            return Ok(());
        }
        let deficit = n - self.tokens;
        let deadline = saturating_deadline(self.last_update, self.quota.replenish_micros, deficit);
        if now < deadline {
            Err(deadline)
        } else {
            Ok(())
        }
    }

    /// Refresh, then check, then commit a take of `n` units at instant `now`.
    ///
    /// The refresh happens unconditionally, even when the subsequent check
    /// fails, so repeated failed attempts keep the bucket's clock current. On
    /// success the refreshed count is debited by `n`; on failure the count is
    /// left at its refreshed value and the deficit's deadline is reported.
    pub fn try_take_n(&mut self, n: u32, now: u64) -> (r: Result<(), NotUntil>)
        requires
            old(self).wf(),
            now >= old(self).last_update,
        ensures
            r == old(self).spec_take_result(n, now),
            *final(self) == old(self).spec_after_take(n, now),
            final(self).wf(),
    {
        let interval = self.quota.replenish_micros;
        let burst = self.quota.max_burst;
        let earned: u64 = (now - self.last_update) / interval;
        let new_tokens: u32 = if earned >= burst as u64 {
            burst
        } else {
            let filled = self.tokens as u64 + earned;
            if filled >= burst as u64 {
                burst
            } else {
                filled as u32
            }
        };
        self.tokens = new_tokens;
        self.last_update = now;
        if n <= self.tokens {
            self.tokens = self.tokens - n;
            Ok(())
        } else {
            let deficit = n - self.tokens;
            Err(saturating_deadline(now, interval, deficit))
        }
    }
}

/// The total weight of a sequence of take requests.
pub open spec fn sum_of(ns: Seq<u32>) -> int
    decreases ns.len(),
{
    if ns.len() == 0 {
        0
    } else {
        ns[0] + sum_of(ns.drop_first())
    }
}

/// The bucket state after applying a sequence of takes, all at instant
/// `now`, in order.
pub open spec fn take_seq(b: TokenBucket, ns: Seq<u32>, now: u64) -> TokenBucket
    decreases ns.len(),
{
    if ns.len() == 0 {
        b
    } else {
        take_seq(b.spec_after_take(ns[0], now), ns.drop_first(), now)
    }
}

/// Whether every take in the sequence, applied in order at instant `now`,
/// succeeds.
pub open spec fn all_takes_ok(b: TokenBucket, ns: Seq<u32>, now: u64) -> bool
    decreases ns.len(),
{
    ns.len() == 0 || (b.take_ok(ns[0], now) && all_takes_ok(
        b.spec_after_take(ns[0], now),
        ns.drop_first(),
        now,
    ))
}

/// Law: a request for zero units always succeeds, whatever the bucket state:
/// both the read-only check and the mutating take report success.
pub proof fn lemma_zero_always_succeeds(b: TokenBucket, now: u64)
    requires
        b.wf(),
        now >= b.last_update,
    ensures
        b.spec_check(0, now) == Ok::<(), NotUntil>(()),
        b.spec_take_result(0, now) == Ok::<(), NotUntil>(()),
{
    let elapsed = now - b.last_update;
    let interval = b.quota.replenish_micros as int;
    assert(elapsed / interval >= 0) by (nonlinear_arith)
        requires
            elapsed >= 0,
            interval >= 1,
    ;
    assert(b.spec_earned(now) == elapsed / interval);
}

/// Law: waiting exactly `k` replenish intervals with no intervening take
/// increases the available token count by `k`, capped at the burst size.
pub proof fn lemma_refill_exact_intervals(b: TokenBucket, k: u64, now: u64)
    requires
        b.wf(),
        now == b.last_update + k * b.quota.replenish_micros,
    ensures
        b.spec_refreshed_tokens(now) == if b.tokens + k >= b.quota.max_burst {
            b.quota.max_burst as int
        } else {
            b.tokens + k
        },
{
    assert((k as int * b.quota.replenish_micros as int) / b.quota.replenish_micros as int
        == k as int) by (nonlinear_arith)
        requires
            b.quota.replenish_micros >= 1,
    ;
}

/// Law (progress; the core of livelock freedom): a failed take reports a
/// deadline at which a retry is guaranteed to succeed. If `try_take_n(n,
/// now)` fails, `n` is within the burst size, the reported deadline lies on
/// the clock axis, and no other consumption intervenes, then a take of `n`
/// at any instant past the deadline succeeds.
pub proof fn lemma_retry_at_deadline_succeeds(b: TokenBucket, n: u32, now: u64, now2: u64)
    requires
        b.wf(),
        now >= b.last_update,
        n <= b.quota.max_burst,
        !b.take_ok(n, now),
        now + b.quota.replenish_micros * (n - b.spec_refreshed_tokens(now)) <= u64::MAX,
        now2 >= now + b.quota.replenish_micros * (n - b.spec_refreshed_tokens(now)),
    ensures
        b.spec_take_result(n, now) == Err::<(), NotUntil>(
            (now + b.quota.replenish_micros * (n - b.spec_refreshed_tokens(now))) as u64,
        ),
        b.spec_after_take(n, now).take_ok(n, now2),
{
    let interval = b.quota.replenish_micros as int;
    let after = b.spec_after_take(n, now);
    let deficit = n - b.spec_refreshed_tokens(now);
    let elapsed = now - b.last_update;
    assert(elapsed / interval >= 0) by (nonlinear_arith)
        requires
            elapsed >= 0,
            interval >= 1,
    ;
    assert(b.spec_earned(now) == elapsed / interval);
    assert(after.tokens == b.spec_refreshed_tokens(now));
    assert(after.last_update == now);
    assert((now2 - now) / interval >= deficit) by (nonlinear_arith)
        requires
            now2 - now >= interval * deficit,
            interval >= 1,
            deficit >= 0,
    ;
    assert(after.spec_refreshed_tokens(now2) >= n);
}

/// Law (round trip): from a full bucket, any sequence of takes at one
/// instant `t` whose weights sum to exactly the burst size all succeed and
/// drain the bucket; a subsequent one-unit check fails at every instant
/// before `t` plus one replenish interval, and succeeds from that instant
/// on.
pub proof fn lemma_drain_then_refill_round_trip(q: Quota, ns: Seq<u32>, t: u64, now: u64)
    requires
        q.wf(),
        sum_of(ns) == q.max_burst,
        t + q.replenish_micros <= u64::MAX,
    ensures
        all_takes_ok(TokenBucket { quota: q, tokens: q.max_burst, last_update: t }, ns, t),
        ({
            let drained = take_seq(
                TokenBucket { quota: q, tokens: q.max_burst, last_update: t },
                ns,
                t,
            );
            &&& drained.tokens == 0
            &&& now < t + q.replenish_micros ==> drained.spec_check(1, now) == Err::<
                (),
                NotUntil,
            >((t + q.replenish_micros) as u64)
            &&& now >= t + q.replenish_micros ==> drained.spec_check(1, now) == Ok::<
                (),
                NotUntil,
            >(())
        }),
{
    let full = TokenBucket { quota: q, tokens: q.max_burst, last_update: t };
    lemma_same_instant_takes(full, ns, t);
    let drained = take_seq(full, ns, t);
    assert(drained.tokens == 0);
    assert(drained.spec_deadline(1) == t + q.replenish_micros);
}

/// Helper for the round-trip law: at the very instant of the last refresh,
/// a sequence of takes whose total weight is covered by the current count
/// succeeds as a whole and debits exactly its sum.
proof fn lemma_same_instant_takes(b: TokenBucket, ns: Seq<u32>, now: u64)
    requires
        b.wf(),
        b.last_update == now,
        sum_of(ns) <= b.tokens,
    ensures
        all_takes_ok(b, ns, now),
        take_seq(b, ns, now) == (TokenBucket {
            quota: b.quota,
            tokens: (b.tokens - sum_of(ns)) as u32,
            last_update: now,
        }),
    decreases ns.len(),
{
    if ns.len() == 0 {
    } else {
        assert(sum_of(ns.drop_first()) >= 0) by {
            lemma_sum_of_nonneg(ns.drop_first());
        }
        assert(b.spec_earned(now) == 0);
        assert(b.spec_refreshed_tokens(now) == b.tokens);
        assert(b.take_ok(ns[0], now));
        let next = b.spec_after_take(ns[0], now);
        assert(next.tokens == b.tokens - ns[0]);
        lemma_same_instant_takes(next, ns.drop_first(), now);
    }
}

/// The total weight of a request sequence is never negative.
proof fn lemma_sum_of_nonneg(ns: Seq<u32>)
    ensures
        sum_of(ns) >= 0,
    decreases ns.len(),
{
    if ns.len() != 0 {
        lemma_sum_of_nonneg(ns.drop_first());
    }
}

/// `base + interval * deficit` on the `u64` clock axis, saturating at
/// `u64::MAX`.
fn saturating_deadline(base: u64, interval: u64, deficit: u32) -> (r: u64)
    ensures
        r == sat_u64(base + interval * deficit),
{
    proof {
        assert(base as int + interval as int * deficit as int <= u128::MAX as int)
            by (nonlinear_arith)
            requires
                base <= u64::MAX,
                interval <= u64::MAX,
                deficit <= u32::MAX,
        ;
    }
    let sum: u128 = base as u128 + (interval as u128) * (deficit as u128);
    if sum > u64::MAX as u128 {
        u64::MAX
    } else {
        sum as u64
    }
}

} // verus!
