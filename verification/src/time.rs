//! Points and lengths of time. The clock itself is read outside the library.
use vstd::arithmetic::power2::{lemma_pow2_pos, pow2};
use vstd::prelude::*;

use crate::binary64::bounds::{
    law_quotient_against, law_small_whole_numbers_are_exact, law_sum_against, law_whole_against,
};
use crate::binary64::constants::law_whole_constants;
use crate::binary64::laws::{
    law_from_u64_is_finite, law_from_u64_sign, law_plus_zero, law_quotient_of_positive_numbers,
    law_zero_over, law_zero_plus_zero,
};
use crate::binary64::order::law_order_is_numeric;
use crate::binary64::Binary64;

verus! {

/// Nanoseconds in a second.
pub const NANOS_PER_SEC: u64 = 1_000_000_000;

/// A length of time.
#[derive(Copy, Clone, Debug, PartialEq, Eq, Structural)]
pub struct Duration {
    pub nanos: u128,
}

/// A point on the monotonic clock, in nanoseconds.
#[derive(Copy, Clone, Debug, PartialEq, Eq, Structural)]
pub struct Instant {
    pub nanos: u64,
}

/// A point on the calendar: seconds and nanoseconds since the start of 1970, UTC.
#[derive(Copy, Clone, Debug, PartialEq, Eq, Structural)]
pub struct UnixTime {
    pub secs: u64,
    pub nanos: u32,
}

impl Duration {
    /// No time at all.
    #[verifier::allow_in_spec]
    pub fn zero() -> Duration
        returns
            (Duration { nanos: 0 }),
    {
        Duration { nanos: 0 }
    }

    /// A length of `secs` seconds.
    pub fn from_secs(secs: u64) -> (r: Duration)
        ensures
            r.nanos == secs * NANOS_PER_SEC,
    {
        assert(secs * NANOS_PER_SEC <= u128::MAX) by (nonlinear_arith)
            requires
                secs <= u64::MAX,
                NANOS_PER_SEC == 1_000_000_000,
        ;
        Duration { nanos: secs as u128 * NANOS_PER_SEC as u128 }
    }

    /// A length of `millis` milliseconds.
    pub fn from_millis(millis: u64) -> (r: Duration)
        ensures
            r.nanos == millis * 1_000_000,
    {
        Duration { nanos: millis as u128 * 1_000_000 }
    }

    /// Whole seconds, or the largest number of them that fits.
    pub open spec fn as_secs_spec(self) -> u64 {
        let s = self.nanos / 1_000_000_000;
        if s <= u64::MAX {
            s as u64
        } else {
            u64::MAX
        }
    }

    /// Whole seconds, or the largest number of them that fits.
    pub fn as_secs(self) -> (r: u64)
        ensures
            r == self.as_secs_spec(),
    {
        let s: u128 = self.nanos / 1_000_000_000;
        if s <= u64::MAX as u128 {
            s as u64
        } else {
            u64::MAX
        }
    }

    /// Seconds: the whole ones plus the nanoseconds left over them.
    pub open spec fn as_secs_f64_spec(self) -> Binary64 {
        Binary64::from_u64_spec(self.as_secs_spec()).plus_spec(
            Binary64::from_u64_spec((self.nanos % 1_000_000_000) as u64).over_spec(
                Binary64::billion(),
            ),
        )
    }

    /// Seconds: the whole ones plus the nanoseconds left over them.
    pub fn as_secs_f64(self) -> (r: Binary64)
        ensures
            r == self.as_secs_f64_spec(),
    {
        let rest: u64 = (self.nanos % 1_000_000_000) as u64;
        Binary64::from_u64(self.as_secs()).plus(
            Binary64::from_u64(rest).over(Binary64::billion()),
        )
    }
}

impl Instant {
    /// The time from `earlier` to `self`, or none if `earlier` is later.
    pub open spec fn since(self, earlier: Instant) -> Duration {
        if self.nanos >= earlier.nanos {
            Duration { nanos: (self.nanos - earlier.nanos) as u128 }
        } else {
            Duration { nanos: 0 }
        }
    }

    /// The time from `earlier` to `self`, or none if `earlier` is later.
    pub fn duration_since(self, earlier: Instant) -> (r: Duration)
        ensures
            r == self.since(earlier),
    {
        if self.nanos >= earlier.nanos {
            Duration { nanos: (self.nanos - earlier.nanos) as u128 }
        } else {
            Duration { nanos: 0 }
        }
    }
}

/// A length given in seconds is read back in seconds.
pub proof fn law_seconds_round_trip(secs: u64, d: Duration)
    requires
        d.nanos == secs * NANOS_PER_SEC,
    ensures
        d.as_secs_spec() == secs,
{
    vstd::arithmetic::div_mod::lemma_div_by_multiple(secs as int, 1_000_000_000);
}

/// The time between two points is their distance in nanoseconds, and none if the second one
/// is not later.
pub proof fn law_time_between(earlier: Instant, later: Instant)
    ensures
        earlier.nanos <= later.nanos ==> later.since(earlier).nanos == later.nanos
            - earlier.nanos,
        earlier.nanos >= later.nanos ==> later.since(earlier).nanos == 0,
{
}

/// A whole number of seconds that a double can hold is that number of seconds exactly.
pub proof fn law_whole_seconds_are_exact(d: Duration, c: Binary64)
    requires
        c.finite() && !c.negative(),
        c.value() * NANOS_PER_SEC == d.nanos * pow2(1074),
        d.nanos % 1_000_000_000 == 0,
        d.nanos / 1_000_000_000 <= u64::MAX,
    ensures
        d.as_secs_f64_spec() == c,
{
    let n = d.as_secs_spec();
    let p = pow2(1074) as int;
    let zero = Binary64::zero();
    let whole = Binary64::from_u64_spec(n);
    assert(d.nanos == n * 1_000_000_000);
    assert(c.value() == n * p) by (nonlinear_arith)
        requires
            c.value() * 1_000_000_000 == d.nanos * p,
            d.nanos == n * 1_000_000_000,
    ;
    law_whole_against(n, c);
    law_from_u64_sign(n);
    law_from_u64_sign(0);
    law_zero_over(Binary64::billion());
    assert(whole == c);
    if whole.mag() == 0 {
        law_zero_plus_zero();
    } else {
        law_plus_zero(whole);
    }
}

/// Seconds are the whole ones plus the rest: where the rest is at least `f` seconds, and the
/// whole ones and `f` together at least `c`, they are at least `c`; and the same for at most.
pub proof fn law_seconds_against(d: Duration, w: Binary64, f: Binary64, c: Binary64)
    requires
        w.finite() && f.finite() && c.finite(),
        w.value() == (d.nanos / 1_000_000_000) * pow2(1074),
        d.nanos / 1_000_000_000 <= u64::MAX,
    ensures
        ({
            let rest = (d.nanos % 1_000_000_000) * pow2(1074);
            let secs = d.as_secs_f64_spec();
            &&& rest >= f.value() * 1_000_000_000 && w.value() + f.value() >= c.value()
                ==> c.le_spec(secs)
            &&& rest <= f.value() * 1_000_000_000 && w.value() + f.value() <= c.value()
                ==> secs.le_spec(c)
        }),
{
    let n = d.as_secs_spec();
    let k = (d.nanos % 1_000_000_000) as u64;
    let p = pow2(1074) as int;
    let whole = Binary64::from_u64_spec(n);
    let count = Binary64::from_u64_spec(k);
    let part = count.over_spec(Binary64::billion());
    law_whole_constants();
    law_whole_against(n, w);
    law_from_u64_sign(n);
    law_from_u64_sign(k);
    law_from_u64_is_finite(n);
    law_from_u64_is_finite(k);
    law_order_is_numeric(whole, w);
    law_order_is_numeric(w, whole);
    assert(whole.value() == w.value());
    law_small_whole_numbers_are_exact(k);
    law_quotient_against(count, Binary64::billion(), f);
    law_quotient_of_positive_numbers(count, Binary64::billion());
    let x = f.value();
    let b = 1_000_000_000 * p;
    lemma_pow2_pos(1074);
    assert(k * p >= x * 1_000_000_000 ==> (k * p) * p >= x * b) by (nonlinear_arith)
        requires
            b == 1_000_000_000 * p,
            p > 0,
    ;
    assert(k * p <= x * 1_000_000_000 ==> (k * p) * p <= x * b) by (nonlinear_arith)
        requires
            b == 1_000_000_000 * p,
            p > 0,
    ;
    law_quotient_against(count, Binary64::billion(), Binary64::one());
    assert((k * p) * p <= p * b) by (nonlinear_arith)
        requires
            k < 1_000_000_000,
            b == 1_000_000_000 * p,
            p > 0,
    ;
    assert(part.le_spec(Binary64::one()));
    law_order_is_numeric(f, part);
    law_order_is_numeric(part, f);
    law_sum_against(whole, part, c);
}

/// Whole seconds are the nanoseconds that make full ones, up to the most that 64 bits hold.
pub proof fn law_whole_seconds_are_full_ones(d: Duration)
    ensures
        d.as_secs_spec() * 1_000_000_000 <= d.nanos,
        d.as_secs_spec() < u64::MAX ==> d.nanos < (d.as_secs_spec() + 1) * 1_000_000_000,
{
}

} // verus!
