//! A multi-resource store over a closed, enumerable key set.
//!
//! The key type implements [`QuotasTrait`]: a finite set of keys, each
//! carrying its own quota, enumerable by position. The store is built in one
//! step by enumerating the whole key set, so every key is registered by
//! construction and "unknown key" cannot arise at runtime. This is the
//! preferred variant of the keyed store; see
//! [`crate::token_multi_ultimate`] for the open, string-keyed one.
//!
//! `try_take_n` is an atomic transaction across the requested keys: either
//! every requested bucket is debited by its requested weight, or the store
//! is left exactly as it was.

use core::marker::PhantomData;

use vstd::prelude::*;

use crate::jitter::JITTER_BOUND_MICROS;
use crate::jitter::sample_jitter;
use crate::quota::Quota;
use crate::token_bucket::NotUntil;
use crate::token_bucket::TokenBucket;

verus! {

/// A closed key space for a multi-resource store: finitely many keys, each
/// bound to its own quota, enumerable by position.
///
/// The positions `0 .. spec_count()` and the keys are in bijection:
/// `lemma_index_roundtrip` obliges every implementation to place each key at
/// a position of its own.
pub trait QuotasTrait: Sized + Copy {
    /// How many keys the key space has.
    spec fn spec_count() -> int;

    /// The position of this key in the enumeration.
    spec fn spec_index(&self) -> int;

    /// The key at a given position.
    spec fn spec_key_of(i: int) -> Self;

    /// The quota attached to this key.
    spec fn spec_quota(&self) -> Quota;

    /// Every key sits at a valid position, and is the key of its position.
    proof fn lemma_index_roundtrip(&self)
        ensures
            0 <= self.spec_index() < Self::spec_count(),
            Self::spec_key_of(self.spec_index()) == *self,
    ;

    /// The number of keys; a key space has at least one.
    fn count() -> (n: usize)
        ensures
            n as int == Self::spec_count(),
            n >= 1,
    ;

    /// The position of this key.
    fn index(&self) -> (i: usize)
        ensures
            i as int == self.spec_index(),
            0 <= self.spec_index() < Self::spec_count(),
    ;

    /// The key at position `i`.
    fn from_index(i: usize) -> (k: Self)
        requires
            (i as int) < Self::spec_count(),
        ensures
            k == Self::spec_key_of(i as int),
            k.spec_index() == i as int,
    ;

    /// Produce this key's quota; it must be well-formed.
    fn get_quota(&self) -> (q: Quota)
        ensures
            q == self.spec_quota(),
            q.wf(),
    ;
}

/// No two pairs request the same key.
pub open spec fn distinct_keys<T: QuotasTrait>(pairs: Seq<(T, u32)>) -> bool {
    forall|i: int, j: int|
        0 <= i < j < pairs.len() ==> pairs[i].0.spec_index() != pairs[j].0.spec_index()
}

/// Whether one of the first `n` pairs addresses the bucket at position `k`.
pub open spec fn prefix_touches<T: QuotasTrait>(pairs: Seq<(T, u32)>, n: int, k: int) -> bool {
    exists|i: int| 0 <= i < n && pairs[i].0.spec_index() == k
}

/// The outcome of checking every pair against the buckets `bs` (indexed by
/// key position), in pair order: the first failing check's error, or
/// success if every check passes.
pub open spec fn spec_check_pairs<T: QuotasTrait>(
    bs: Seq<TokenBucket>,
    pairs: Seq<(T, u32)>,
    now: u64,
) -> Result<(), NotUntil>
    decreases pairs.len(),
{
    if pairs.len() == 0 {
        Ok(())
    } else {
        let b = bs[pairs[0].0.spec_index()];
        if b.spec_check(pairs[0].1, now) is Err {
            b.spec_check(pairs[0].1, now)
        } else {
            spec_check_pairs(bs, pairs.drop_first(), now)
        }
    }
}

/// The outcome of taking every pair's weight from the buckets `bs`, in pair
/// order: the first failing take's error, or success if every take
/// succeeds. For pairs with distinct keys the takes are independent, so
/// each outcome is stated against the original bucket states.
pub open spec fn spec_take_pairs_result<T: QuotasTrait>(
    bs: Seq<TokenBucket>,
    pairs: Seq<(T, u32)>,
    now: u64,
) -> Result<(), NotUntil>
    decreases pairs.len(),
{
    if pairs.len() == 0 {
        Ok(())
    } else {
        let b = bs[pairs[0].0.spec_index()];
        if b.take_ok(pairs[0].1, now) {
            spec_take_pairs_result(bs, pairs.drop_first(), now)
        } else {
            b.spec_take_result(pairs[0].1, now)
        }
    }
}

/// Law: the combined check succeeds exactly when every pair's own check
/// succeeds.
pub proof fn lemma_check_pairs_ok_iff<T: QuotasTrait>(
    bs: Seq<TokenBucket>,
    pairs: Seq<(T, u32)>,
    now: u64,
)
    ensures
        spec_check_pairs(bs, pairs, now) is Ok <==> (forall|i: int|
            0 <= i < pairs.len() ==> bs[#[trigger] pairs[i].0.spec_index()].spec_check(
                pairs[i].1,
                now,
            ) is Ok),
    decreases pairs.len(),
{
    if pairs.len() != 0 {
        lemma_check_pairs_ok_iff(bs, pairs.drop_first(), now);
        assert forall|i: int| 1 <= i < pairs.len() implies pairs.drop_first()[i - 1]
            == pairs[i] by {}
    }
}

/// Law: the combined take succeeds exactly when every pair's own take
/// succeeds.
pub proof fn lemma_take_pairs_ok_iff<T: QuotasTrait>(
    bs: Seq<TokenBucket>,
    pairs: Seq<(T, u32)>,
    now: u64,
)
    ensures
        spec_take_pairs_result(bs, pairs, now) is Ok <==> (forall|i: int|
            0 <= i < pairs.len() ==> bs[#[trigger] pairs[i].0.spec_index()].take_ok(
                pairs[i].1,
                now,
            )),
    decreases pairs.len(),
{
    if pairs.len() != 0 {
        lemma_take_pairs_ok_iff(bs, pairs.drop_first(), now);
        assert forall|i: int| 1 <= i < pairs.len() implies pairs.drop_first()[i - 1]
            == pairs[i] by {}
    }
}

/// A multi-resource store with one token bucket per key of the closed key
/// space `T`, held at the key's position.
pub struct TokenBucketUltimate<T: QuotasTrait> {
    /// One bucket per key, at the key's position.
    pub buckets: Vec<TokenBucket>,
    /// The key space the store is indexed by.
    pub key_space: PhantomData<T>,
}

impl<T: QuotasTrait> TokenBucketUltimate<T> {
    /// Well-formedness: one well-formed bucket per key of the key space.
    pub open spec fn wf(self) -> bool {
        &&& self.buckets@.len() == T::spec_count()
        &&& forall|i: int| 0 <= i < self.buckets@.len() ==> self.buckets@[i].wf()
    }

    /// Build the store by enumerating the whole key space, every bucket
    /// bound to its key's quota and starting full at instant `now`.
    pub fn new(now: u64) -> (s: Self)
        ensures
            s.wf(),
            forall|i: int|
                0 <= i < T::spec_count() ==> s.buckets@[i] == (TokenBucket {
                    quota: T::spec_key_of(i).spec_quota(),
                    tokens: T::spec_key_of(i).spec_quota().max_burst,
                    last_update: now,
                }),
    {
        let n = T::count();
        let mut buckets: Vec<TokenBucket> = Vec::new();
        let mut i: usize = 0;
        while i < n
            invariant
                n as int == T::spec_count(),
                i <= n,
                buckets@.len() == i,
                forall|j: int| 0 <= j < i ==> buckets@[j].wf(),
                forall|j: int|
                    0 <= j < i ==> buckets@[j] == (TokenBucket {
                        quota: T::spec_key_of(j).spec_quota(),
                        tokens: T::spec_key_of(j).spec_quota().max_burst,
                        last_update: now,
                    }),
            decreases n - i,
        {
            let key = T::from_index(i);
            let quota = key.get_quota();
            buckets.push(TokenBucket::new(quota, now));
            i += 1;
        }
        TokenBucketUltimate { buckets, key_space: PhantomData }
    }

    /// Non-mutating combined check: every pair's key must cover its
    /// requested weight; the first failing deadline in pair order is
    /// surfaced.
    ///
    /// Like [`TokenBucket::check_n`], this does not refresh, so success
    /// does not guarantee that a subsequent take succeeds.
    pub fn check_n(&self, pairs: &[(T, u32)], now: u64) -> (r: Result<(), NotUntil>)
        requires
            self.wf(),
        ensures
            r == spec_check_pairs(self.buckets@, pairs@, now),
    {
        let ghost bs = self.buckets@;
        let ghost ps = pairs@;
        proof {
            assert(ps.skip(0) =~= ps);
        }
        let mut i: usize = 0;
        while i < pairs.len()
            invariant
                self.wf(),
                bs == self.buckets@,
                ps == pairs@,
                i <= ps.len(),
                spec_check_pairs(bs, ps.skip(i as int), now) == spec_check_pairs(bs, ps, now),
            decreases ps.len() - i,
        {
            let (key, n) = pairs[i];
            let k = key.index();
            let r = self.buckets[k].check_n(n, now);
            proof {
                assert(ps.skip(i as int)[0] == ps[i as int]);
                assert(ps.skip(i as int).drop_first() =~= ps.skip(i as int + 1));
            }
            if let Err(deadline) = r {
                return Err(deadline);
            }
            i += 1;
        }
        proof {
            assert(ps.skip(ps.len() as int).len() == 0);
        }
        Ok(())
    }

    /// Atomic combined take: apply [`TokenBucket::try_take_n`] for each
    /// pair, in pair order, on a working copy of the whole bucket table;
    /// commit the copy only if every take succeeds.
    ///
    /// Either every requested bucket is debited by its requested weight, or
    /// the live state — untouched refill clocks included — is left exactly
    /// as it was, and the first failing deadline in pair order is surfaced.
    pub fn try_take_n(&mut self, pairs: &[(T, u32)], now: u64) -> (r: Result<(), NotUntil>)
        requires
            old(self).wf(),
            distinct_keys(pairs@),
            forall|i: int|
                0 <= i < old(self).buckets@.len() ==> now >= old(self).buckets@[i].last_update,
        ensures
            r == spec_take_pairs_result(old(self).buckets@, pairs@, now),
            r is Err ==> *final(self) == *old(self),
            r is Ok ==> {
                &&& final(self).buckets@.len() == old(self).buckets@.len()
                &&& forall|i: int|
                    0 <= i < pairs@.len() ==> final(self).buckets@[pairs@[i].0.spec_index()]
                        == old(self).buckets@[pairs@[i].0.spec_index()].spec_after_take(
                        pairs@[i].1,
                        now,
                    )
                &&& forall|k: int|
                    0 <= k < old(self).buckets@.len() && !prefix_touches(
                        pairs@,
                        pairs@.len() as int,
                        k,
                    ) ==> final(self).buckets@[k] == old(self).buckets@[k]
            },
            final(self).wf(),
    {
        let ghost bs = old(self).buckets@;
        let ghost ps = pairs@;
        proof {
            assert(ps.skip(0) =~= ps);
        }
        let mut updated = copy_buckets(&self.buckets);
        let mut i: usize = 0;
        while i < pairs.len()
            invariant
                *self == *old(self),
                self.wf(),
                bs == self.buckets@,
                ps == pairs@,
                distinct_keys(ps),
                forall|j: int| 0 <= j < bs.len() ==> now >= bs[j].last_update,
                i <= ps.len(),
                updated@.len() == bs.len(),
                forall|k: int| 0 <= k < updated@.len() ==> updated@[k].wf(),
                forall|j: int| 0 <= j < i ==> 0 <= #[trigger] ps[j].0.spec_index() < bs.len(),
                forall|j: int|
                    0 <= j < i ==> #[trigger] bs[ps[j].0.spec_index()].take_ok(ps[j].1, now),
                forall|j: int|
                    0 <= j < i ==> updated@[ps[j].0.spec_index()] == bs[
                        ps[j].0.spec_index()
                    ].spec_after_take(ps[j].1, now),
                forall|k: int|
                    0 <= k < bs.len() && !prefix_touches(ps, i as int, k) ==> updated@[k] == bs[k],
                spec_take_pairs_result(bs, ps.skip(i as int), now) == spec_take_pairs_result(
                    bs,
                    ps,
                    now,
                ),
            decreases ps.len() - i,
        {
            let (key, n) = pairs[i];
            let k = key.index();
            proof {
                assert(!prefix_touches(ps, i as int, k as int));
                assert(updated@[k as int] == bs[k as int]);
                assert(ps.skip(i as int)[0] == ps[i as int]);
                assert(ps.skip(i as int).drop_first() =~= ps.skip(i as int + 1));
            }
            let mut b = updated[k];
            let r = b.try_take_n(n, now);
            if let Err(deadline) = r {
                return Err(deadline);
            }
            updated[k] = b;
            proof {
                assert forall|c: int|
                    0 <= c < bs.len() && !prefix_touches(ps, i as int + 1, c) implies updated@[c]
                    == bs[c] by {
                    assert(!prefix_touches(ps, i as int, c));
                }
            }
            i += 1;
        }
        proof {
            assert(ps.skip(ps.len() as int).len() == 0);
        }
        self.buckets = updated;
        Ok(())
    }

    /// Whether every pair's requested weight fits within its key's burst
    /// size. A pair whose weight exceeds the burst size can never be
    /// satisfied, no matter how long the caller waits: a retry loop must
    /// reject such a request up front instead of retrying forever.
    pub fn satisfiable(&self, pairs: &[(T, u32)]) -> (r: bool)
        requires
            self.wf(),
        ensures
            r == (forall|i: int|
                0 <= i < pairs@.len() ==> pairs@[i].1 <= self.buckets@[
                    pairs@[i].0.spec_index()
                ].quota.max_burst),
    {
        let ghost ps = pairs@;
        let mut i: usize = 0;
        while i < pairs.len()
            invariant
                self.wf(),
                ps == pairs@,
                i <= ps.len(),
                forall|j: int|
                    0 <= j < i ==> ps[j].1 <= self.buckets@[ps[j].0.spec_index()].quota.max_burst,
            decreases ps.len() - i,
        {
            let (key, n) = pairs[i];
            let k = key.index();
            if n > self.buckets[k].quota.max_burst {
                return false;
            }
            i += 1;
        }
        true
    }

    /// One attempt of the waiting take: try the atomic combined take, and
    /// on failure turn the reported deadline into a wake-up instant by
    /// adding a fresh random jitter, bounded by
    /// [`JITTER_BOUND_MICROS`], to spread out competing retries.
    ///
    /// The store is mutated exactly as by [`TokenBucketUltimate::try_take_n`];
    /// only the reported instant differs.
    pub fn take_n_attempt(&mut self, pairs: &[(T, u32)], now: u64) -> (r: Result<(), NotUntil>)
        requires
            old(self).wf(),
            distinct_keys(pairs@),
            forall|i: int|
                0 <= i < old(self).buckets@.len() ==> now >= old(self).buckets@[i].last_update,
        ensures
            r is Ok <==> spec_take_pairs_result(old(self).buckets@, pairs@, now) is Ok,
            r is Err ==> *final(self) == *old(self),
            r matches Err(wake) ==> {
                let deadline = spec_take_pairs_result(old(self).buckets@, pairs@, now)->Err_0;
                &&& deadline <= wake
                &&& wake <= deadline + JITTER_BOUND_MICROS
            },
            r is Ok ==> {
                &&& final(self).buckets@.len() == old(self).buckets@.len()
                &&& forall|i: int|
                    0 <= i < pairs@.len() ==> final(self).buckets@[pairs@[i].0.spec_index()]
                        == old(self).buckets@[pairs@[i].0.spec_index()].spec_after_take(
                        pairs@[i].1,
                        now,
                    )
                &&& forall|k: int|
                    0 <= k < old(self).buckets@.len() && !prefix_touches(
                        pairs@,
                        pairs@.len() as int,
                        k,
                    ) ==> final(self).buckets@[k] == old(self).buckets@[k]
            },
            final(self).wf(),
    {
        match self.try_take_n(pairs, now) {
            Ok(()) => Ok(()),
            Err(deadline) => {
                let jitter = sample_jitter();
                if deadline > u64::MAX - jitter {
                    Err(u64::MAX)
                } else {
                    Err(deadline + jitter)
                }
            },
        }
    }
}

/// An element-for-element copy of a bucket table, used as the working copy
/// of a transaction.
fn copy_buckets(v: &Vec<TokenBucket>) -> (r: Vec<TokenBucket>)
    ensures
        r@ == v@,
{
    let mut r: Vec<TokenBucket> = Vec::new();
    let mut i: usize = 0;
    while i < v.len()
        invariant
            i <= v@.len(),
            r@ == v@.take(i as int),
        decreases v@.len() - i,
    {
        r.push(v[i]);
        proof {
            assert(r@ =~= v@.take(i as int + 1));
        }
        i += 1;
    }
    proof {
        assert(r@ =~= v@);
    }
    r
}

} // verus!
