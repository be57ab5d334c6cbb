//! A fixed-size collection of token buckets with atomic check and take
//! across all of them at once.
//!
//! The store is built in one step from `N` quotas (`N >= 2`, fixed at the
//! type level), and every operation addresses all `N` buckets positionally:
//! `ns[i]` is the weight requested from bucket `i`. `try_take_ns` is an
//! all-or-nothing transaction: either every bucket is debited by its
//! requested weight, or the store is left exactly as it was, untouched
//! refill clocks included.

use vstd::prelude::*;

use crate::token_bucket::NotUntil;
use crate::token_bucket::TokenBucket;
use crate::quota::Quota;

verus! {

/// The outcome of checking `ns` against the buckets `bs` pairwise, in
/// order: the first failing check's error, or success if every check
/// passes. Mirrors a logical AND over the independent per-bucket checks.
pub open spec fn spec_check_ns(bs: Seq<TokenBucket>, ns: Seq<u32>, now: u64) -> Result<
    (),
    NotUntil,
>
    decreases bs.len(),
{
    if bs.len() == 0 {
        Ok(())
    } else if bs[0].spec_check(ns[0], now) is Err {
        bs[0].spec_check(ns[0], now)
    } else {
        spec_check_ns(bs.drop_first(), ns.drop_first(), now)
    }
}

/// The outcome of taking `ns` from the buckets `bs` pairwise, in order, on
/// a working copy: the first failing take's error, or success if every take
/// succeeds. The buckets are independent, so earlier takes in the order do
/// not change later outcomes.
pub open spec fn spec_take_ns_result(bs: Seq<TokenBucket>, ns: Seq<u32>, now: u64) -> Result<
    (),
    NotUntil,
>
    decreases bs.len(),
{
    if bs.len() == 0 {
        Ok(())
    } else if bs[0].take_ok(ns[0], now) {
        spec_take_ns_result(bs.drop_first(), ns.drop_first(), now)
    } else {
        bs[0].spec_take_result(ns[0], now)
    }
}

/// Law: the combined check succeeds exactly when every per-bucket check
/// succeeds.
pub proof fn lemma_check_ns_ok_iff(bs: Seq<TokenBucket>, ns: Seq<u32>, now: u64)
    requires
        bs.len() == ns.len(),
    ensures
        spec_check_ns(bs, ns, now) is Ok <==> (forall|i: int|
            0 <= i < bs.len() ==> bs[i].spec_check(ns[i], now) is Ok),
    decreases bs.len(),
{
    if bs.len() != 0 {
        lemma_check_ns_ok_iff(bs.drop_first(), ns.drop_first(), now);
        assert forall|i: int| 1 <= i < bs.len() implies bs.drop_first()[i - 1] == bs[i]
            && ns.drop_first()[i - 1] == ns[i] by {}
    }
}

/// Law: the combined take succeeds exactly when every per-bucket take
/// succeeds.
pub proof fn lemma_take_ns_ok_iff(bs: Seq<TokenBucket>, ns: Seq<u32>, now: u64)
    requires
        bs.len() == ns.len(),
    ensures
        spec_take_ns_result(bs, ns, now) is Ok <==> (forall|i: int|
            0 <= i < bs.len() ==> bs[i].take_ok(ns[i], now)),
    decreases bs.len(),
{
    if bs.len() != 0 {
        lemma_take_ns_ok_iff(bs.drop_first(), ns.drop_first(), now);
        assert forall|i: int| 1 <= i < bs.len() implies bs.drop_first()[i - 1] == bs[i]
            && ns.drop_first()[i - 1] == ns[i] by {}
    }
}

/// `N` token buckets addressed positionally, checked and taken from as one
/// unit.
#[derive(Debug)]
pub struct TokenBucketMultipleSync<const N: usize> {
    /// The buckets, in construction order; always exactly `N` of them.
    pub buckets: Vec<TokenBucket>,
}

impl<const N: usize> TokenBucketMultipleSync<N> {
    /// Well-formedness: at least two buckets, exactly `N` of them, each
    /// well-formed.
    pub open spec fn wf(self) -> bool {
        &&& N >= 2
        &&& self.buckets@.len() == N
        &&& forall|i: int| 0 <= i < N ==> self.buckets@[i].wf()
    }

    /// Build the store from one quota per bucket, all starting full at
    /// instant `now`. A store of fewer than two buckets is a precondition
    /// violation.
    pub fn new(quotas: [Quota; N], now: u64) -> (s: Self)
        requires
            N >= 2,
            forall|i: int| 0 <= i < N ==> quotas@[i].wf(),
        ensures
            s.wf(),
            forall|i: int|
                0 <= i < N ==> s.buckets@[i] == (TokenBucket {
                    quota: quotas@[i],
                    tokens: quotas@[i].max_burst,
                    last_update: now,
                }),
    {
        let mut buckets: Vec<TokenBucket> = Vec::new();
        let mut i: usize = 0;
        while i < N
            invariant
                i <= N,
                buckets@.len() == i,
                forall|j: int| 0 <= j < N ==> quotas@[j].wf(),
                forall|j: int|
                    0 <= j < i ==> buckets@[j] == (TokenBucket {
                        quota: quotas@[j],
                        tokens: quotas@[j].max_burst,
                        last_update: now,
                    }),
            decreases N - i,
        {
            buckets.push(TokenBucket::new(quotas[i], now));
            i += 1;
        }
        TokenBucketMultipleSync { buckets }
    }

    /// Non-mutating combined check: every bucket must cover its requested
    /// weight; the first failing deadline in positional order is surfaced.
    ///
    /// Like [`TokenBucket::check_n`], this does not refresh, so success is a
    /// lower bound: it does not guarantee that a subsequent take succeeds.
    pub fn check_ns(&self, ns: [u32; N], now: u64) -> (r: Result<(), NotUntil>)
        requires
            self.wf(),
        ensures
            r == spec_check_ns(self.buckets@, ns@, now),
    {
        let ghost bs = self.buckets@;
        proof {
            assert(bs.skip(0) =~= bs);
            assert(ns@.skip(0) =~= ns@);
        }
        let mut i: usize = 0;
        while i < N
            invariant
                self.wf(),
                bs == self.buckets@,
                i <= N,
                ns@.len() == N,
                spec_check_ns(bs.skip(i as int), ns@.skip(i as int), now) == spec_check_ns(
                    bs,
                    ns@,
                    now,
                ),
            decreases N - i,
        {
            let r = self.buckets[i].check_n(ns[i], now);
            proof {
                assert(bs.skip(i as int)[0] == bs[i as int]);
                assert(ns@.skip(i as int)[0] == ns@[i as int]);
                assert(bs.skip(i as int).drop_first() =~= bs.skip(i as int + 1));
                assert(ns@.skip(i as int).drop_first() =~= ns@.skip(i as int + 1));
            }
            if let Err(deadline) = r {
                return Err(deadline);
            }
            i += 1;
        }
        proof {
            assert(bs.skip(N as int).len() == 0);
        }
        Ok(())
    }

    /// Atomic combined take: apply [`TokenBucket::try_take_n`] to each
    /// bucket in positional order on a working copy; commit the copy only if
    /// every take succeeds.
    ///
    /// Either every bucket is debited by its requested weight, or the live
    /// state — refill clocks included — is left exactly as it was, and the
    /// first failing deadline in positional order is surfaced.
    pub fn try_take_ns(&mut self, ns: [u32; N], now: u64) -> (r: Result<(), NotUntil>)
        requires
            old(self).wf(),
            forall|i: int| 0 <= i < N ==> now >= old(self).buckets@[i].last_update,
        ensures
            r == spec_take_ns_result(old(self).buckets@, ns@, now),
            r is Ok ==> final(self).buckets@.len() == N && (forall|i: int|
                0 <= i < N ==> final(self).buckets@[i] == old(self).buckets@[i].spec_after_take(
                    ns@[i],
                    now,
                )),
            r is Err ==> *final(self) == *old(self),
            final(self).wf(),
    {
        let ghost bs = old(self).buckets@;
        proof {
            assert(bs.skip(0) =~= bs);
            assert(ns@.skip(0) =~= ns@);
        }
        let mut updated: Vec<TokenBucket> = Vec::new();
        let mut i: usize = 0;
        while i < N
            invariant
                *self == *old(self),
                self.wf(),
                bs == self.buckets@,
                i <= N,
                ns@.len() == N,
                forall|j: int| 0 <= j < N ==> now >= bs[j].last_update,
                updated@.len() == i,
                forall|j: int| 0 <= j < i ==> bs[j].take_ok(ns@[j], now),
                forall|j: int| 0 <= j < i ==> updated@[j] == bs[j].spec_after_take(ns@[j], now),
                spec_take_ns_result(bs.skip(i as int), ns@.skip(i as int), now)
                    == spec_take_ns_result(bs, ns@, now),
            decreases N - i,
        {
            let mut b = self.buckets[i];
            let r = b.try_take_n(ns[i], now);
            proof {
                assert(bs.skip(i as int)[0] == bs[i as int]);
                assert(ns@.skip(i as int)[0] == ns@[i as int]);
                assert(bs.skip(i as int).drop_first() =~= bs.skip(i as int + 1));
                assert(ns@.skip(i as int).drop_first() =~= ns@.skip(i as int + 1));
            }
            if let Err(deadline) = r {
                return Err(deadline);
            }
            updated.push(b);
            i += 1;
        }
        proof {
            assert(bs.skip(N as int).len() == 0);
        }
        self.buckets = updated;
        Ok(())
    }
}

} // verus!
