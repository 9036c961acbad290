//! Traffic rates: what was counted between two snapshots, per second.
use vstd::arithmetic::power2::pow2;
use vstd::prelude::*;

use crate::binary64::bounds::{law_quotient_against, law_small_whole_numbers_are_exact};
use crate::binary64::laws::{
    law_from_u64_is_finite, law_from_u64_sign, law_nanoseconds_count, law_quotient_of_positive_numbers,
    law_sum_of_positive_numbers, law_zero_over, law_zero_plus_zero,
};
use crate::binary64::Binary64;
use crate::time::Instant;

pub mod compute;
pub mod model;
pub mod port_scan_compute;
pub mod ranking;
pub mod synflood_compute;

verus! {

/// How far a counter has moved; not at all if it went back.
pub open spec fn counter_delta(curr: u64, prev: u64) -> u64 {
    if curr >= prev {
        (curr - prev) as u64
    } else {
        0
    }
}

/// A counter's movement per second.
pub open spec fn rate_spec(curr: u64, prev: u64, dt: Binary64) -> Binary64 {
    Binary64::from_u64_spec(counter_delta(curr, prev)).over_spec(dt)
}

/// A counter's movement per second.
pub fn rate(curr: u64, prev: u64, dt: Binary64) -> (r: Binary64)
    ensures
        r == rate_spec(curr, prev, dt),
{
    Binary64::from_u64(curr.saturating_sub(prev)).over(dt)
}

/// Seconds between two points in time; `None` if no time has passed.
pub open spec fn dt_secs_spec(prev: Instant, curr: Instant) -> Option<Binary64> {
    let dt = curr.since(prev).as_secs_f64_spec();
    if Binary64::zero().lt_spec(dt) {
        Some(dt)
    } else {
        None
    }
}

/// Seconds between two points in time; `None` if no time has passed.
pub fn dt_secs(prev: Instant, curr: Instant) -> (r: Option<Binary64>)
    ensures
        r == dt_secs_spec(prev, curr),
{
    let dt: Binary64 = curr.duration_since(prev).as_secs_f64();
    if Binary64::zero().lt(dt) {
        Some(dt)
    } else {
        None
    }
}

/// There are seconds between two points in time exactly if the second one is later.
pub proof fn law_dt_needs_time_to_pass(prev: Instant, curr: Instant)
    ensures
        dt_secs_spec(prev, curr) is Some <==> curr.nanos > prev.nanos,
{
    let d = curr.since(prev);
    let secs = d.as_secs_spec();
    let rest = (d.nanos % 1_000_000_000) as u64;
    let a = Binary64::from_u64_spec(secs);
    let b = Binary64::from_u64_spec(rest).over_spec(Binary64::billion());
    law_from_u64_sign(secs);
    law_from_u64_sign(rest);
    law_quotient_of_positive_numbers(Binary64::from_u64_spec(rest), Binary64::billion());
    law_sum_of_positive_numbers(a, b);
    if curr.nanos > prev.nanos {
        if rest > 0 {
            law_nanoseconds_count(rest);
        } else {
            assert(secs > 0);
        }
    } else {
        law_zero_over(Binary64::billion());
        law_zero_plus_zero();
    }
}

/// A rate over a time that has passed is a number, and not a negative one: a very short time
/// makes it very large at worst.
pub proof fn law_rates_are_numbers(curr: u64, prev: u64, t0: Instant, t1: Instant)
    requires
        t1.nanos > t0.nanos,
    ensures
        !rate_spec(curr, prev, t1.since(t0).as_secs_f64_spec()).nan(),
        !rate_spec(curr, prev, t1.since(t0).as_secs_f64_spec()).negative(),
{
    let a = Binary64::from_u64_spec(counter_delta(curr, prev));
    let dt = t1.since(t0).as_secs_f64_spec();
    law_dt_needs_time_to_pass(t0, t1);
    law_from_u64_sign(counter_delta(curr, prev));
    law_from_u64_is_finite(counter_delta(curr, prev));
    if dt.finite() {
        law_quotient_of_positive_numbers(a, dt);
    } else {
        reveal(Binary64::over_spec);
    }
}

/// A counter that grows has moved by the difference, one that went back not at all.
pub proof fn law_counters_move_forward(curr: u64, prev: u64)
    ensures
        curr >= prev ==> counter_delta(curr, prev) == curr - prev,
        curr < prev ==> counter_delta(curr, prev) == 0,
{
}

/// A rate is what the counter moved by, per second: where the movement is at least `c` times
/// the seconds, it is at least `c`; where it is at most that, it is at most `c`. A counter
/// that did not move, or went back, has a rate of 0.
pub proof fn law_rate_is_movement_per_second(curr: u64, prev: u64, dt: Binary64, c: Binary64)
    requires
        dt.finite() && dt.rank() > 0,
        c.finite(),
        curr - prev <= 0x20_0000_0000_0000,
    ensures
        curr > prev ==> {
            let moved = (curr - prev) * pow2(1074) * pow2(1074);
            &&& moved >= c.value() * dt.value() ==> c.le_spec(rate_spec(curr, prev, dt))
            &&& moved <= c.value() * dt.value() ==> rate_spec(curr, prev, dt).le_spec(c)
        },
        curr <= prev ==> rate_spec(curr, prev, dt) == Binary64::zero(),
{
    if curr > prev {
        let n = (curr - prev) as u64;
        law_small_whole_numbers_are_exact(n);
        law_quotient_against(Binary64::from_u64_spec(n), dt, c);
    } else {
        law_from_u64_sign(0);
        law_zero_over(dt);
    }
}

} // verus!
