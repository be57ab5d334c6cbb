//! A multi-resource store over an open string namespace.
//!
//! Keys are registered one by one with [`TokenBucketUltimate::insert`]
//! before use; referencing a key that was never inserted is a precondition
//! violation, not a recoverable error. Where the key set is known up front,
//! prefer the closed variant in [`crate::token_multi_ultimate_enum`], which
//! rules unknown keys out by construction.
//!
//! `try_take_n` is an atomic transaction across the requested keys: either
//! every requested bucket is debited by its requested weight, or the store
//! is left exactly as it was.

use vstd::pervasive::unreached;
use vstd::prelude::*;

use crate::jitter::JITTER_BOUND_MICROS;
use crate::jitter::sample_jitter;
use crate::quota::Quota;
use crate::token_bucket::NotUntil;
use crate::token_bucket::TokenBucket;

verus! {

/// Whether some entry holds the key `key`.
pub open spec fn has_key(es: Seq<(String, TokenBucket)>, key: Seq<char>) -> bool {
    exists|i: int| 0 <= i < es.len() && es[i].0@ == key
}

/// The position of the entry holding `key` (unique in a well-formed
/// store).
pub open spec fn index_of_key(es: Seq<(String, TokenBucket)>, key: Seq<char>) -> int {
    choose|i: int| 0 <= i < es.len() && es[i].0@ == key
}

/// The bucket registered under `key`.
pub open spec fn bucket_for(es: Seq<(String, TokenBucket)>, key: Seq<char>) -> TokenBucket {
    es[index_of_key(es, key)].1
}

/// No two pairs request the same key.
pub open spec fn distinct_pair_keys(pairs: Seq<(&str, u32)>) -> bool {
    forall|i: int, j: int| 0 <= i < j < pairs.len() ==> pairs[i].0@ != pairs[j].0@
}

/// Every pair's key is registered in the store.
pub open spec fn pairs_registered(es: Seq<(String, TokenBucket)>, pairs: Seq<(&str, u32)>) -> bool {
    forall|i: int| 0 <= i < pairs.len() ==> has_key(es, #[trigger] pairs[i].0@)
}

/// The outcome of checking every pair against its registered bucket, in
/// pair order: the first failing check's error, or success if every check
/// passes.
pub open spec fn spec_check_pairs(
    es: Seq<(String, TokenBucket)>,
    pairs: Seq<(&str, u32)>,
    now: u64,
) -> Result<(), NotUntil>
    decreases pairs.len(),
{
    if pairs.len() == 0 {
        Ok(())
    } else {
        let b = bucket_for(es, pairs[0].0@);
        if b.spec_check(pairs[0].1, now) is Err {
            b.spec_check(pairs[0].1, now)
        } else {
            spec_check_pairs(es, pairs.drop_first(), now)
        }
    }
}

/// The outcome of taking every pair's weight from its registered bucket,
/// in pair order: the first failing take's error, or success if every take
/// succeeds. For pairs with distinct keys the takes are independent, so
/// each outcome is stated against the original bucket states.
pub open spec fn spec_take_pairs_result(
    es: Seq<(String, TokenBucket)>,
    pairs: Seq<(&str, u32)>,
    now: u64,
) -> Result<(), NotUntil>
    decreases pairs.len(),
{
    if pairs.len() == 0 {
        Ok(())
    } else {
        let b = bucket_for(es, pairs[0].0@);
        if b.take_ok(pairs[0].1, now) {
            spec_take_pairs_result(es, pairs.drop_first(), now)
        } else {
            b.spec_take_result(pairs[0].1, now)
        }
    }
}

/// Law: the combined check succeeds exactly when every pair's own check
/// succeeds.
pub proof fn lemma_check_pairs_ok_iff(
    es: Seq<(String, TokenBucket)>,
    pairs: Seq<(&str, u32)>,
    now: u64,
)
    ensures
        spec_check_pairs(es, pairs, now) is Ok <==> (forall|i: int|
            0 <= i < pairs.len() ==> bucket_for(es, #[trigger] pairs[i].0@).spec_check(
                pairs[i].1,
                now,
            ) is Ok),
    decreases pairs.len(),
{
    if pairs.len() != 0 {
        lemma_check_pairs_ok_iff(es, pairs.drop_first(), now);
        assert forall|i: int| 1 <= i < pairs.len() implies pairs.drop_first()[i - 1]
            == pairs[i] by {}
    }
}

/// Law: the combined take succeeds exactly when every pair's own take
/// succeeds.
pub proof fn lemma_take_pairs_ok_iff(
    es: Seq<(String, TokenBucket)>,
    pairs: Seq<(&str, u32)>,
    now: u64,
)
    ensures
        spec_take_pairs_result(es, pairs, now) is Ok <==> (forall|i: int|
            0 <= i < pairs.len() ==> bucket_for(es, #[trigger] pairs[i].0@).take_ok(
                pairs[i].1,
                now,
            )),
    decreases pairs.len(),
{
    if pairs.len() != 0 {
        lemma_take_pairs_ok_iff(es, pairs.drop_first(), now);
        assert forall|i: int| 1 <= i < pairs.len() implies pairs.drop_first()[i - 1]
            == pairs[i] by {}
    }
}

/// Whether one of the first `n` pairs addresses the entry at position `k`
/// of `es`.
pub open spec fn prefix_touches(
    es: Seq<(String, TokenBucket)>,
    pairs: Seq<(&str, u32)>,
    n: int,
    k: int,
) -> bool {
    exists|i: int| 0 <= i < n && index_of_key(es, #[trigger] pairs[i].0@) == k
}

/// A multi-resource store mapping registered string keys to token buckets.
pub struct TokenBucketUltimate {
    /// The registered keys and their buckets, in registration order, keys
    /// pairwise distinct.
    pub entries: Vec<(String, TokenBucket)>,
}

impl TokenBucketUltimate {
    /// Well-formedness: keys are pairwise distinct and every bucket is
    /// well-formed.
    pub open spec fn wf(self) -> bool {
        &&& forall|i: int, j: int|
            0 <= i < j < self.entries@.len() ==> self.entries@[i].0@ != self.entries@[j].0@
        &&& forall|i: int| 0 <= i < self.entries@.len() ==> self.entries@[i].1.wf()
    }

    /// An empty store: no keys registered yet.
    pub fn new() -> (s: Self)
        ensures
            s.wf(),
            s.entries@.len() == 0,
    {
        TokenBucketUltimate { entries: Vec::new() }
    }

    /// The position of the entry holding `key`, scanning in registration
    /// order.
    fn find(&self, key: &str) -> (r: Option<usize>)
        requires
            self.wf(),
        ensures
            match r {
                Some(i) => i < self.entries@.len() && self.entries@[i as int].0@ == key@ && i
                    == index_of_key(self.entries@, key@),
                None => !has_key(self.entries@, key@),
            },
    {
        let ghost es = self.entries@;
        let mut i: usize = 0;
        while i < self.entries.len()
            invariant
                self.wf(),
                es == self.entries@,
                i <= es.len(),
                forall|j: int| 0 <= j < i ==> es[j].0@ != key@,
            decreases es.len() - i,
        {
            if str_eq(self.entries[i].0.as_str(), key) {
                proof {
                    let w = index_of_key(es, key@);
                    assert(es[i as int].0@ == key@);
                    assert(0 <= w < es.len() && es[w].0@ == key@);
                }
                return Some(i);
            }
            i += 1;
        }
        None
    }

    /// Register `key` with a fresh, full bucket bound to `quota` at
    /// instant `now`. Registering a key again replaces its bucket,
    /// discarding the old bucket's state.
    pub fn insert(&mut self, key: String, quota: Quota, now: u64)
        requires
            old(self).wf(),
            quota.wf(),
        ensures
            final(self).wf(),
            has_key(old(self).entries@, key@) ==> final(self).entries@ == old(
                self,
            ).entries@.update(
                index_of_key(old(self).entries@, key@),
                (key, TokenBucket { quota, tokens: quota.max_burst, last_update: now }),
            ),
            !has_key(old(self).entries@, key@) ==> final(self).entries@ == old(
                self,
            ).entries@.push(
                (key, TokenBucket { quota, tokens: quota.max_burst, last_update: now }),
            ),
    {
        let bucket = TokenBucket::new(quota, now);
        let r = self.find(key.as_str());
        match r {
            Some(i) => {
                self.entries[i] = (key, bucket);
            },
            None => {
                self.entries.push((key, bucket));
            },
        }
    }

    /// Non-mutating combined check: every pair's registered bucket must
    /// cover its requested weight; the first failing deadline in pair order
    /// is surfaced.
    ///
    /// Like [`TokenBucket::check_n`], this does not refresh, so success
    /// does not guarantee that a subsequent take succeeds. Every requested
    /// key must be registered.
    pub fn check_n(&self, pairs: &[(&str, u32)], now: u64) -> (r: Result<(), NotUntil>)
        requires
            self.wf(),
            pairs_registered(self.entries@, pairs@),
        ensures
            r == spec_check_pairs(self.entries@, pairs@, now),
    {
        let ghost es = self.entries@;
        let ghost ps = pairs@;
        proof {
            assert(ps.skip(0) =~= ps);
        }
        let mut i: usize = 0;
        while i < pairs.len()
            invariant
                self.wf(),
                es == self.entries@,
                ps == pairs@,
                pairs_registered(es, ps),
                i <= ps.len(),
                spec_check_pairs(es, ps.skip(i as int), now) == spec_check_pairs(es, ps, now),
            decreases ps.len() - i,
        {
            let (key, n) = pairs[i];
            let found = self.find(key);
            proof {
                assert(has_key(es, ps[i as int].0@));
                assert(ps.skip(i as int)[0] == ps[i as int]);
                assert(ps.skip(i as int).drop_first() =~= ps.skip(i as int + 1));
            }
            let idx = match found {
                Some(ix) => ix,
                None => {
                    proof {
                        assert(false);
                    }
                    unreached()
                },
            };
            let r = self.entries[idx].1.check_n(n, now);
            if let Err(deadline) = r {
                return Err(deadline);
            }
            i += 1;
        }
        proof {
            assert(ps.skip(ps.len() as int).len() == 0);
        }
        Ok(())
    }

    /// Atomic combined take: apply [`TokenBucket::try_take_n`] for each
    /// pair, in pair order, on a working copy of the whole table; commit
    /// the copy only if every take succeeds.
    ///
    /// Either every requested bucket is debited by its requested weight, or
    /// the live state — untouched refill clocks included — is left exactly
    /// as it was, and the first failing deadline in pair order is surfaced.
    /// Every requested key must be registered, and no key may be requested
    /// twice.
    pub fn try_take_n(&mut self, pairs: &[(&str, u32)], now: u64) -> (r: Result<(), NotUntil>)
        requires
            old(self).wf(),
            pairs_registered(old(self).entries@, pairs@),
            distinct_pair_keys(pairs@),
            forall|i: int|
                0 <= i < old(self).entries@.len() ==> now >= old(self).entries@[i].1.last_update,
        ensures
            r == spec_take_pairs_result(old(self).entries@, pairs@, now),
            r is Err ==> *final(self) == *old(self),
            r is Ok ==> {
                &&& final(self).entries@.len() == old(self).entries@.len()
                &&& forall|j: int|
                    0 <= j < old(self).entries@.len() ==> #[trigger] final(self).entries@[j].0
                        == old(self).entries@[j].0
                &&& forall|i: int|
                    0 <= i < pairs@.len() ==> bucket_for(
                        final(self).entries@,
                        #[trigger] pairs@[i].0@,
                    ) == bucket_for(old(self).entries@, pairs@[i].0@).spec_after_take(
                        pairs@[i].1,
                        now,
                    )
                &&& forall|k: int|
                    0 <= k < old(self).entries@.len() && !prefix_touches(
                        old(self).entries@,
                        pairs@,
                        pairs@.len() as int,
                        k,
                    ) ==> final(self).entries@[k] == old(self).entries@[k]
            },
            final(self).wf(),
    {
        let ghost es = old(self).entries@;
        let ghost ps = pairs@;
        proof {
            assert(ps.skip(0) =~= ps);
        }
        let mut updated = copy_entries(&self.entries);
        let mut i: usize = 0;
        while i < pairs.len()
            invariant
                *self == *old(self),
                self.wf(),
                es == self.entries@,
                ps == pairs@,
                pairs_registered(es, ps),
                distinct_pair_keys(ps),
                forall|j: int| 0 <= j < es.len() ==> now >= es[j].1.last_update,
                i <= ps.len(),
                updated@.len() == es.len(),
                forall|k: int| 0 <= k < updated@.len() ==> updated@[k].1.wf(),
                forall|k: int| 0 <= k < updated@.len() ==> #[trigger] updated@[k].0 == es[k].0,
                forall|j: int|
                    0 <= j < i ==> #[trigger] bucket_for(es, ps[j].0@).take_ok(ps[j].1, now),
                forall|j: int|
                    0 <= j < i ==> updated@[index_of_key(es, #[trigger] ps[j].0@)].1 == bucket_for(
                        es,
                        ps[j].0@,
                    ).spec_after_take(ps[j].1, now),
                forall|k: int|
                    0 <= k < es.len() && !prefix_touches(es, ps, i as int, k) ==> updated@[k]
                        == es[k],
                spec_take_pairs_result(es, ps.skip(i as int), now) == spec_take_pairs_result(
                    es,
                    ps,
                    now,
                ),
            decreases ps.len() - i,
        {
            let (key, n) = pairs[i];
            let found = self.find(key);
            proof {
                assert(has_key(es, ps[i as int].0@));
                assert(ps.skip(i as int)[0] == ps[i as int]);
                assert(ps.skip(i as int).drop_first() =~= ps.skip(i as int + 1));
            }
            let idx = match found {
                Some(ix) => ix,
                None => {
                    proof {
                        assert(false);
                    }
                    unreached()
                },
            };
            proof {
                assert(!prefix_touches(es, ps, i as int, idx as int));
                assert(updated@[idx as int] == es[idx as int]);
            }
            let mut b = updated[idx].1;
            let r = b.try_take_n(n, now);
            if let Err(deadline) = r {
                return Err(deadline);
            }
            let stored_key = copy_string(&updated[idx].0);
            updated[idx] = (stored_key, b);
            proof {
                assert forall|c: int|
                    0 <= c < es.len() && !prefix_touches(es, ps, i as int + 1, c) implies updated@[c]
                    == es[c] by {
                    assert(!prefix_touches(es, ps, i as int, c));
                }
                assert forall|j: int|
                    0 <= j < i + 1 implies updated@[index_of_key(es, #[trigger] ps[j].0@)].1
                    == bucket_for(es, ps[j].0@).spec_after_take(ps[j].1, now) by {
                    if j < i {
                        assert(index_of_key(es, ps[j].0@) != idx as int);
                    }
                }
            }
            i += 1;
        }
        proof {
            assert(ps.skip(ps.len() as int).len() == 0);
        }
        self.entries = updated;
        proof {
            assert forall|i: int|
                0 <= i < ps.len() implies bucket_for(final(self).entries@, #[trigger] ps[i].0@)
                == bucket_for(es, ps[i].0@).spec_after_take(ps[i].1, now) by {
                let w = index_of_key(es, ps[i].0@);
                assert(has_key(es, ps[i].0@));
                assert(final(self).entries@[w].0@ == ps[i].0@);
                assert(has_key(final(self).entries@, ps[i].0@));
                let w2 = index_of_key(final(self).entries@, ps[i].0@);
                assert(final(self).entries@[w2].0@ == ps[i].0@);
                assert(w2 == w);
            }
        }
        Ok(())
    }

    /// Whether every pair's requested weight fits within its key's burst
    /// size. A pair whose weight exceeds the burst size can never be
    /// satisfied, no matter how long the caller waits: a retry loop must
    /// reject such a request up front instead of retrying forever. Every
    /// requested key must be registered.
    pub fn satisfiable(&self, pairs: &[(&str, u32)]) -> (r: bool)
        requires
            self.wf(),
            pairs_registered(self.entries@, pairs@),
        ensures
            r == (forall|i: int|
                0 <= i < pairs@.len() ==> pairs@[i].1 <= bucket_for(
                    self.entries@,
                    #[trigger] pairs@[i].0@,
                ).quota.max_burst),
    {
        let ghost es = self.entries@;
        let ghost ps = pairs@;
        let mut i: usize = 0;
        while i < pairs.len()
            invariant
                self.wf(),
                es == self.entries@,
                ps == pairs@,
                pairs_registered(es, ps),
                i <= ps.len(),
                forall|j: int|
                    0 <= j < i ==> ps[j].1 <= bucket_for(es, #[trigger] ps[j].0@).quota.max_burst,
            decreases ps.len() - i,
        {
            let (key, n) = pairs[i];
            let found = self.find(key);
            proof {
                assert(has_key(es, ps[i as int].0@));
            }
            let idx = match found {
                Some(ix) => ix,
                None => {
                    proof {
                        assert(false);
                    }
                    unreached()
                },
            };
            if n > self.entries[idx].1.quota.max_burst {
                return false;
            }
            i += 1;
        }
        true
    }

    /// One attempt of the waiting take: try the atomic combined take, and
    /// on failure turn the reported deadline into a wake-up instant by
    /// adding a fresh random jitter, bounded by [`JITTER_BOUND_MICROS`], to
    /// spread out competing retries.
    ///
    /// The store is mutated exactly as by
    /// [`TokenBucketUltimate::try_take_n`]; only the reported instant
    /// differs.
    pub fn take_n_attempt(&mut self, pairs: &[(&str, u32)], now: u64) -> (r: Result<(), NotUntil>)
        requires
            old(self).wf(),
            pairs_registered(old(self).entries@, pairs@),
            distinct_pair_keys(pairs@),
            forall|i: int|
                0 <= i < old(self).entries@.len() ==> now >= old(self).entries@[i].1.last_update,
        ensures
            r is Ok <==> spec_take_pairs_result(old(self).entries@, pairs@, now) is Ok,
            r is Err ==> *final(self) == *old(self),
            r matches Err(wake) ==> {
                let deadline = spec_take_pairs_result(old(self).entries@, pairs@, now)->Err_0;
                &&& deadline <= wake
                &&& wake <= deadline + JITTER_BOUND_MICROS
            },
            r is Ok ==> {
                &&& final(self).entries@.len() == old(self).entries@.len()
                &&& forall|i: int|
                    0 <= i < pairs@.len() ==> bucket_for(
                        final(self).entries@,
                        #[trigger] pairs@[i].0@,
                    ) == bucket_for(old(self).entries@, pairs@[i].0@).spec_after_take(
                        pairs@[i].1,
                        now,
                    )
            },
            final(self).wf(),
    {
        match self.try_take_n(pairs, now) {
            Ok(()) => Ok(()),
            Err(deadline) => {
                let jitter = sample_jitter();
                if deadline > u64::MAX - jitter {
                    Err(u64::MAX)
                } else {
                    Err(deadline + jitter)
                }
            },
        }
    }
}

/// An element-for-element copy of the entry table, used as the working
/// copy of a transaction.
fn copy_entries(v: &Vec<(String, TokenBucket)>) -> (r: Vec<(String, TokenBucket)>)
    ensures
        r@ == v@,
{
    let mut r: Vec<(String, TokenBucket)> = Vec::new();
    let mut i: usize = 0;
    while i < v.len()
        invariant
            i <= v@.len(),
            r@ == v@.take(i as int),
        decreases v@.len() - i,
    {
        let key = copy_string(&v[i].0);
        let entry = (key, v[i].1);
        proof {
            assert(entry == v@[i as int]);
        }
        r.push(entry);
        proof {
            assert(r@ =~= v@.take(i as int + 1));
        }
        i += 1;
    }
    proof {
        assert(r@ =~= v@);
    }
    r
}

/// A copy of one string key.
fn copy_string(s: &String) -> (r: String)
    ensures
        r == *s,
{
    s.clone()
}

/// Relies on `str`'s `PartialEq`: two string slices compare equal exactly
/// when their character sequences are equal.
#[verifier::external_body]
fn str_eq(a: &str, b: &str) -> (r: bool)
    ensures
        r == (a@ == b@),
{
    a == b
}

} // verus!
