//! A rate-limiting quota: immutable configuration pairing a maximum burst
//! size with the time needed to replenish a single unit.
//!
//! A quota given as `Quota::per_second(1)` lets, on average, as many units
//! through as `Quota::per_minute(60)`, but the latter has a burst size of 60:
//! it can accommodate 60 units at once, after which the equivalent of a
//! minute of inactivity is required before the burst allowance is fully
//! restored. All durations are held as whole microseconds; the per-period
//! constructors divide the period by the burst size with truncation, which is
//! the source of small rate inaccuracies for large burst sizes.

use vstd::prelude::*;

verus! {

/// Dividing a period by a burst size no larger than it leaves a positive
/// per-unit interval.
proof fn lemma_period_div_pos(period: int, burst: int)
    requires
        1 <= burst <= period,
    ensures
        period / burst >= 1,
{
    assert(period / burst >= 1) by (nonlinear_arith)
        requires
            1 <= burst <= period,
    ;
}

/// Microseconds in one second.
pub const MICROS_PER_SECOND: u64 = 1_000_000;

/// Microseconds in one minute.
pub const MICROS_PER_MINUTE: u64 = 60_000_000;

/// Microseconds in one hour.
pub const MICROS_PER_HOUR: u64 = 3_600_000_000;

/// A rate-limiting quota: at most `max_burst` units may be held at once, and
/// one unit regenerates every `replenish_micros` microseconds.
///
/// A quota is immutable once built; [`Quota::allow_burst`] returns a new
/// value rather than mutating. Neither field may be zero in a well-formed
/// quota (see [`Quota::wf`]).
#[derive(Clone, Copy, PartialEq, Eq, Structural, Debug)]
pub struct Quota {
    /// The maximum number of units that can be allowed in one burst.
    pub max_burst: u32,
    /// The time to regenerate exactly one unit, in microseconds.
    pub replenish_micros: u64,
}

impl Quota {
    /// Well-formedness: a quota holds at least one unit and replenishes it in
    /// a positive amount of time.
    pub open spec fn wf(self) -> bool {
        &&& self.max_burst >= 1
        &&& self.replenish_micros >= 1
    }

    /// Construct a quota for a number of units per second. The given number
    /// of units is also the maximum burst size.
    ///
    /// The burst size may not exceed one million, so that the truncated
    /// per-unit replenish interval stays positive.
    pub fn per_second(max_burst: u32) -> (q: Quota)
        requires
            1 <= max_burst,
            max_burst as u64 <= MICROS_PER_SECOND,
        ensures
            q.max_burst == max_burst,
            q.replenish_micros == MICROS_PER_SECOND as int / max_burst as int,
            q.wf(),
    {
        proof {
            lemma_period_div_pos(MICROS_PER_SECOND as int, max_burst as int);
        }
        Quota { max_burst, replenish_micros: MICROS_PER_SECOND / (max_burst as u64) }
    }

    /// Construct a quota for a number of units per 60-second period. The
    /// given number of units is also the maximum burst size.
    pub fn per_minute(max_burst: u32) -> (q: Quota)
        requires
            1 <= max_burst,
            max_burst as u64 <= MICROS_PER_MINUTE,
        ensures
            q.max_burst == max_burst,
            q.replenish_micros == MICROS_PER_MINUTE as int / max_burst as int,
            q.wf(),
    {
        proof {
            lemma_period_div_pos(MICROS_PER_MINUTE as int, max_burst as int);
        }
        Quota { max_burst, replenish_micros: MICROS_PER_MINUTE / (max_burst as u64) }
    }

    /// Construct a quota for a number of units per 60-minute (3600-second)
    /// period. The given number of units is also the maximum burst size.
    pub fn per_hour(max_burst: u32) -> (q: Quota)
        requires
            1 <= max_burst,
            max_burst as u64 <= MICROS_PER_HOUR,
        ensures
            q.max_burst == max_burst,
            q.replenish_micros == MICROS_PER_HOUR as int / max_burst as int,
            q.wf(),
    {
        proof {
            lemma_period_div_pos(MICROS_PER_HOUR as int, max_burst as int);
        }
        Quota { max_burst, replenish_micros: MICROS_PER_HOUR / (max_burst as u64) }
    }

    /// Construct a quota that replenishes one unit in the given interval,
    /// for refresh periods longer than one unit per hour.
    ///
    /// Returns `None` exactly when the interval is zero.
    pub fn with_period(replenish_micros: u64) -> (r: Option<Quota>)
        ensures
            r == if replenish_micros == 0 {
                None::<Quota>
            } else {
                Some(Quota { max_burst: 1, replenish_micros })
            },
            r is Some ==> r->Some_0.wf(),
    {
        if replenish_micros == 0 {
            None
        } else {
            Some(Quota { max_burst: 1, replenish_micros })
        }
    }

    /// Adjust the maximum burst size, keeping the replenish interval.
    pub fn allow_burst(self, max_burst: u32) -> (q: Quota)
        requires
            1 <= max_burst,
        ensures
            q == (Quota { max_burst, replenish_micros: self.replenish_micros }),
            self.wf() ==> q.wf(),
    {
        Quota { max_burst, replenish_micros: self.replenish_micros }
    }

    /// The time it takes an exhausted bucket to replenish a single unit, in
    /// microseconds.
    pub fn replenish_interval(&self) -> (r: u64)
        ensures
            r == self.replenish_micros,
    {
        self.replenish_micros
    }

    /// The maximum number of units that can be allowed in one burst.
    pub fn burst_size(&self) -> (r: u32)
        ensures
            r == self.max_burst,
    {
        self.max_burst
    }

    /// The time it takes to replenish the entire maximum burst size, in
    /// microseconds, saturating at `u64::MAX`.
    pub fn burst_size_replenished_in(&self) -> (r: u64)
        ensures
            self.replenish_micros * self.max_burst <= u64::MAX ==> r == self.replenish_micros
                * self.max_burst,
            self.replenish_micros * self.max_burst > u64::MAX ==> r == u64::MAX,
    {
        proof {
            assert(self.replenish_micros as int * self.max_burst as int <= u128::MAX as int)
                by (nonlinear_arith)
                requires
                    self.replenish_micros <= u64::MAX,
                    self.max_burst <= u32::MAX,
            ;
        }
        let fill: u128 = (self.replenish_micros as u128) * (self.max_burst as u128);
        if fill > u64::MAX as u128 {
            u64::MAX
        } else {
            fill as u64
        }
    }
}

} // verus!
