//! An in-process admission-control (rate-limiting) library built on token
//! buckets.
//!
//! Callers reserve "weight" against one or more independently configured
//! quotas before proceeding with a protected operation. The core is the
//! token-bucket refill/check/take algorithm ([`token_bucket::TokenBucket`]),
//! generalized to an atomic multi-resource reservation: a caller can request
//! weight against several named quotas at once, with an all-or-nothing
//! guarantee across them ([`token_bucket_multiple_sync`],
//! [`token_multi_ultimate`], [`token_multi_ultimate_enum`]).
//!
//! Time is modelled as a monotonic timestamp in microseconds, passed to every
//! operation by the caller; the library itself never reads a clock, which
//! keeps the whole algorithm verifiable and deterministic under test.

pub mod jitter;
pub mod quota;
pub mod quotas;
pub mod token_bucket;
pub mod token_bucket_multiple_sync;
pub mod token_multi_ultimate;
pub mod token_multi_ultimate_enum;
