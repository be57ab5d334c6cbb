//! A ready-made closed key space with two rate-limited resources, used by
//! the demonstration program and the tests of the enum-keyed store.

use vstd::prelude::*;

use crate::quota::Quota;
use crate::token_multi_ultimate_enum::QuotasTrait;

verus! {

/// Two resources: one replenishing ten units per second, one twenty.
#[derive(Clone, Copy, PartialEq, Eq, Structural, Hash, Debug)]
pub enum Quotas {
    /// Ten units per second, burst size ten.
    Ten,
    /// Twenty units per second, burst size twenty.
    Twenty,
}

impl QuotasTrait for Quotas {
    open spec fn spec_count() -> int {
        2
    }

    open spec fn spec_index(&self) -> int {
        match *self {
            Quotas::Ten => 0,
            Quotas::Twenty => 1,
        }
    }

    open spec fn spec_key_of(i: int) -> Quotas {
        if i == 0 {
            Quotas::Ten
        } else {
            Quotas::Twenty
        }
    }

    open spec fn spec_quota(&self) -> Quota {
        match *self {
            Quotas::Ten => Quota { max_burst: 10, replenish_micros: 100_000 },
            Quotas::Twenty => Quota { max_burst: 20, replenish_micros: 50_000 },
        }
    }

    proof fn lemma_index_roundtrip(&self) {
    }

    fn count() -> (n: usize) {
        2
    }

    fn index(&self) -> (i: usize) {
        match *self {
            Quotas::Ten => 0,
            Quotas::Twenty => 1,
        }
    }

    fn from_index(i: usize) -> (k: Quotas) {
        if i == 0 {
            Quotas::Ten
        } else {
            Quotas::Twenty
        }
    }

    fn get_quota(&self) -> (q: Quota) {
        match *self {
            Quotas::Ten => Quota::per_second(10),
            Quotas::Twenty => Quota::per_second(20),
        }
    }
}

} // verus!
