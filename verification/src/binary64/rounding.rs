//! Rounding an exact result to the nearest double.
use vstd::arithmetic::power2::{
    lemma2_to64, lemma_pow2_adds, lemma_pow2_pos, lemma_pow2_strictly_increases, lemma_pow2_unfold,
    pow2,
};
use vstd::prelude::*;

use super::{excess, is_nearest, nearest, units, Exact, BINADE, INFINITY_MAG};

verus! {

/// Whether `x` is a well-formed non-negative number.
pub open spec fn valid(x: Exact) -> bool {
    match x {
        Exact::Ratio { n, d } => n >= 0 && d > 0,
        Exact::Root { n } => n >= 0,
    }
}

/// The magnitude `e` binades up with significand `q` has size `q * 2^e`.
pub proof fn lemma_units_of_parts(e: nat, q: int)
    requires
        0 <= q <= 2 * BINADE,
        e > 0 ==> q >= BINADE,
    ensures
        units(e * BINADE + q) == q * pow2(e),
{
    lemma2_to64();
    let b = BINADE as int;
    let m = e * b + q;
    if e == 0 && q < b {
    } else if q < 2 * b {
        assert(m / b == e + 1 && m % b == q - b) by (nonlinear_arith)
            requires
                m == e * b + q,
                b <= q < 2 * b,
                b == 0x10_0000_0000_0000,
                e >= 0,
        ;
        assert(m >= b) by (nonlinear_arith)
            requires
                m == e * b + q,
                b <= q,
                b > 0,
                e >= 0,
        ;
    } else {
        assert(m / b == e + 2 && m % b == 0) by (nonlinear_arith)
            requires
                m == e * b + q,
                q == 2 * b,
                b == 0x10_0000_0000_0000,
                e >= 0,
        ;
        assert(m >= b) by (nonlinear_arith)
            requires
                m == e * b + q,
                b <= q,
                b > 0,
                e >= 0,
        ;
        lemma_pow2_unfold((e + 1) as nat);
        assert(b * pow2((e + 1) as nat) == q * pow2(e)) by (nonlinear_arith)
            requires
                pow2((e + 1) as nat) == 2 * pow2(e),
                q == 2 * b,
        ;
    }
}

/// Sizes grow with magnitudes.
pub proof fn lemma_units_step(m: int)
    requires
        0 <= m,
    ensures
        units(m) < units(m + 1),
        units(m) >= 0,
{
    lemma2_to64();
    let b = BINADE as int;
    if m < b {
        if m + 1 == b {
            lemma_units_of_parts(0, b);
        }
    } else {
        let e = (m / b - 1) as nat;
        let q = m % b + b;
        assert(m == e * b + q) by (nonlinear_arith)
            requires
                e == m / b - 1,
                q == m % b + b,
                b > 0,
        ;
        lemma_units_of_parts(e, q);
        lemma_units_of_parts(e, q + 1);
        lemma_pow2_pos(e);
        assert(q * pow2(e) < (q + 1) * pow2(e)) by (nonlinear_arith)
            requires
                pow2(e) > 0,
        ;
        assert(q * pow2(e) >= 0) by (nonlinear_arith)
            requires
                pow2(e) > 0,
                q >= 0,
        ;
    }
}

pub proof fn lemma_units_monotonic(a: int, b: int)
    requires
        0 <= a <= b,
    ensures
        0 <= units(a) <= units(b),
        a < b ==> units(a) < units(b),
    decreases b - a,
{
    lemma_units_step(a);
    if a < b {
        lemma_units_monotonic(a + 1, b);
    }
}

/// A larger midpoint leaves a smaller excess.
pub proof fn lemma_excess_decreases(x: Exact, s: int, t: int)
    requires
        valid(x),
        0 <= s < t,
    ensures
        excess(x, s) > excess(x, t),
{
    match x {
        Exact::Ratio { n, d } => {
            assert(s * d < t * d) by (nonlinear_arith)
                requires
                    s < t,
                    d > 0,
            ;
        },
        Exact::Root { n } => {
            assert(s * s < t * t) by (nonlinear_arith)
                requires
                    0 <= s < t,
            ;
        },
    }
}

/// At most one magnitude is nearest.
pub proof fn lemma_nearest_is_unique(x: Exact, m1: int, m2: int)
    requires
        valid(x),
        is_nearest(x, m1),
        is_nearest(x, m2),
    ensures
        m1 == m2,
{
    lemma_nearest_ordered(x, m1, m2);
    lemma_nearest_ordered(x, m2, m1);
}

proof fn lemma_nearest_ordered(x: Exact, m1: int, m2: int)
    requires
        valid(x),
        is_nearest(x, m1),
        is_nearest(x, m2),
    ensures
        m2 <= m1,
{
    if m1 < m2 {
        lemma_units_monotonic(m1, m1 + 1);
        lemma_units_monotonic(m2 - 1, m2);
        lemma_units_monotonic(m1, m2 - 1);
        lemma_units_monotonic(m1 + 1, m2);
        if m1 + 1 < m2 {
            lemma_excess_decreases(x, units(m1) + units(m1 + 1), units(m2 - 1) + units(m2));
        }
    }
}

/// A magnitude that is nearest is the one that [`nearest`] names.
pub proof fn lemma_nearest(x: Exact, m: int)
    requires
        valid(x),
        is_nearest(x, m),
    ensures
        nearest(x) == m,
{
    lemma_nearest_is_unique(x, nearest(x), m);
}

/// Rounding within one binade: `x` is in `[q, q + 1) * 2^e`, and where it
/// stands to the midpoint decides.
pub proof fn lemma_pick(x: Exact, e: nat, q: int, up: bool)
    requires
        valid(x),
        0 <= q < 2 * BINADE,
        e > 0 ==> q >= BINADE,
        e * BINADE + q < INFINITY_MAG,
        excess(x, 2 * q * pow2(e)) >= 0,
        excess(x, (2 * q + 2) * pow2(e)) < 0,
        up ==> excess(x, (2 * q + 1) * pow2(e)) >= 0,
        !up ==> excess(x, (2 * q + 1) * pow2(e)) <= 0,
        excess(x, (2 * q + 1) * pow2(e)) == 0 ==> up == (q % 2 != 0),
    ensures
        is_nearest(x, e * BINADE + q + (if up { 1int } else { 0 })),
{
    let b = BINADE as int;
    let p = pow2(e) as int;
    let r0 = e * b + q;
    lemma_pow2_pos(e);
    lemma_units_of_parts(e, q);
    lemma_units_of_parts(e, q + 1);
    assert(r0 >= 0) by (nonlinear_arith)
        requires
            r0 == e * b + q,
            e >= 0,
            b > 0,
            q >= 0,
    ;
    assert(r0 % 2 == q % 2) by (nonlinear_arith)
        requires
            r0 == e * b + q,
            b == 2 * 0x8_0000_0000_0000,
    ;
    assert(units(r0) + units(r0 + 1) == (2 * q + 1) * p) by (nonlinear_arith)
        requires
            units(r0) == q * p,
            units(r0 + 1) == (q + 1) * p,
    ;
    assert(2 * q * p == 2 * units(r0)) by (nonlinear_arith)
        requires
            units(r0) == q * p,
    ;
    assert((2 * q + 2) * p == 2 * units(r0 + 1)) by (nonlinear_arith)
        requires
            units(r0 + 1) == (q + 1) * p,
    ;
    if up {
        let r = r0 + 1;
        if r < INFINITY_MAG {
            lemma_units_step(r);
            lemma_units_step(r0);
            lemma_excess_decreases(x, 2 * units(r), units(r) + units(r + 1));
        }
    } else {
        if r0 > 0 {
            lemma_units_step(r0 - 1);
            lemma_excess_decreases(x, units(r0 - 1) + units(r0), 2 * units(r0));
        }
    }
}

/// What is at least as large as infinity's slot rounds to infinity.
pub proof fn lemma_overflow(x: Exact, e: nat, q: int)
    requires
        valid(x),
        BINADE <= q < 2 * BINADE,
        e * BINADE + q >= INFINITY_MAG,
        excess(x, 2 * q * pow2(e)) >= 0,
    ensures
        is_nearest(x, INFINITY_MAG as int),
{
    let r = INFINITY_MAG as int;
    let m = e * BINADE + q;
    lemma_units_of_parts(e, q);
    lemma_units_monotonic(r, m);
    lemma_units_step(r - 1);
    assert(2 * q * pow2(e) == 2 * units(m)) by (nonlinear_arith)
        requires
            units(m) == q * pow2(e),
    ;
    lemma_excess_decreases(x, units(r - 1) + units(r), 2 * units(m));
}

/// Added to exponents so that powers of two stay whole.
pub open spec fn headroom() -> int {
    4096
}

/// How `x` compares with half of `c * 2^f`, told from `m` and `e`.
pub open spec fn compares(x: Exact, m: int, e: int, inexact: bool, c: int, f: nat) -> bool {
    let p = pow2((e + headroom()) as nat) as int;
    let d = 2 * m * p - c * pow2((f + headroom()) as nat);
    let y = excess(x, c * pow2(f));
    if inexact {
        &&& d >= 0 ==> y > 0
        &&& d <= -2 * p ==> y < 0
    } else {
        &&& d > 0 <==> y > 0
        &&& d < 0 <==> y < 0
    }
}

/// Whether `x` is `m * 2^e`, or strictly between `m * 2^e` and `(m + 1) * 2^e`
/// if `inexact`.
pub open spec fn brackets(x: Exact, m: int, e: int, inexact: bool) -> bool {
    &&& valid(x)
    &&& -headroom() <= e
    &&& forall|c: int, f: nat| c >= 0 ==> #[trigger] compares(x, m, e, inexact, c, f)
}

/// The three comparisons that rounding to a multiple of `2^(s + e)` needs.
proof fn lemma_compare_parts(
    x: Exact,
    m: int,
    e: int,
    inexact: bool,
    s: nat,
    q: int,
    rem: int,
)
    requires
        brackets(x, m, e, inexact),
        s >= 1,
        s + e >= 0,
        q >= 0,
        m == q * pow2(s) + rem,
        0 <= rem < pow2(s),
    ensures
        excess(x, 2 * q * pow2((s + e) as nat)) >= 0,
        excess(x, (2 * q + 2) * pow2((s + e) as nat)) < 0,
        2 * rem < pow2(s) ==> excess(x, (2 * q + 1) * pow2((s + e) as nat)) < 0,
        2 * rem > pow2(s) ==> excess(x, (2 * q + 1) * pow2((s + e) as nat)) > 0,
        2 * rem == pow2(s) && inexact ==> excess(x, (2 * q + 1) * pow2((s + e) as nat)) > 0,
        2 * rem == pow2(s) && !inexact ==> excess(x, (2 * q + 1) * pow2((s + e) as nat)) == 0,
{
    let g = (s + e) as nat;
    let p = pow2((e + headroom()) as nat) as int;
    let w = pow2(s) as int;
    lemma_pow2_pos((e + headroom()) as nat);
    lemma_pow2_adds(s, (e + headroom()) as nat);
    assert(s + (e + headroom()) as nat == (g + headroom()) as nat);
    lemma_pow2_unfold(s);
    let half = pow2((s - 1) as nat) as int;
    assert(pow2((g + headroom()) as nat) == w * p);
    assert(compares(x, m, e, inexact, 2 * q, g));
    assert(compares(x, m, e, inexact, 2 * q + 1, g));
    assert(compares(x, m, e, inexact, 2 * q + 2, g));
    assert(2 * m * p - (2 * q) * (w * p) == 2 * rem * p) by (nonlinear_arith)
        requires
            m == q * w + rem,
    ;
    assert(2 * m * p - (2 * q + 1) * (w * p) == 2 * (rem - half) * p) by (nonlinear_arith)
        requires
            m == q * w + rem,
            w == 2 * half,
    ;
    assert(2 * m * p - (2 * q + 2) * (w * p) == -2 * (w - rem) * p) by (nonlinear_arith)
        requires
            m == q * w + rem,
    ;
    assert(2 * rem * p >= 0) by (nonlinear_arith)
        requires
            rem >= 0,
            p > 0,
    ;
    assert(-2 * (w - rem) * p <= -2 * p) by (nonlinear_arith)
        requires
            w - rem >= 1,
            p > 0,
    ;
    assert(rem > half ==> 2 * (rem - half) * p > 0) by (nonlinear_arith)
        requires
            p > 0,
    ;
    assert(rem < half ==> 2 * (rem - half) * p <= -2 * p) by (nonlinear_arith)
        requires
            p > 0,
    ;
    assert(rem == half ==> 2 * (rem - half) * p == 0) by (nonlinear_arith);
}

/// `2^s`.
pub fn two_to(s: u32) -> (r: u128)
    requires
        s <= 127,
    ensures
        r == pow2(s as nat),
{
    let mut r: u128 = 1;
    let mut i: u32 = 0;
    proof {
        lemma2_to64();
        lemma_pow2_127();
    }
    while i < s
        invariant
            i <= s <= 127,
            r == pow2(i as nat),
            pow2(127) == 0x8000_0000_0000_0000_0000_0000_0000_0000,
        decreases s - i,
    {
        proof {
            lemma_pow2_unfold((i + 1) as nat);
            if i + 1 < 127 {
                lemma_pow2_strictly_increases((i + 1) as nat, 127);
            }
        }
        r = r * 2;
        i = i + 1;
    }
    r
}

proof fn lemma_pow2_127()
    ensures
        pow2(127) == 0x8000_0000_0000_0000_0000_0000_0000_0000,
        pow2(128) == 0x1_0000_0000_0000_0000_0000_0000_0000_0000,
        pow2(75) == 0x800_0000_0000_0000_0000,
{
    lemma2_to64();
    lemma_pow2_adds(64, 11);
    lemma_pow2_adds(64, 64);
    lemma_pow2_unfold(128);
}

/// The magnitude nearest to an exact result of which `m` holds the leading bits.
pub fn round(m: u128, e: i32, inexact: bool, Ghost(x): Ghost<Exact>) -> (r: u64)
    requires
        m >= 2 * BINADE,
        e <= 4000,
        brackets(x, m as int, e as int, inexact),
    ensures
        r == nearest(x),
        r <= INFINITY_MAG,
{
    // The smallest `s` that leaves a significand of at most 53 bits.
    let mut s: u32 = 0;
    let mut w: u128 = 1;
    let top: u128 = 2 * (BINADE as u128);
    proof {
        lemma2_to64();
        lemma_pow2_127();
    }
    while m / w >= top
        invariant
            s <= 75,
            top == 2 * BINADE,
            w == pow2(s as nat),
            1 <= w <= 0x8000_0000_0000_0000_0000_0000_0000_0000,
            s >= 1 ==> 2 * (m as int) >= top * w,
            pow2(127) == 0x8000_0000_0000_0000_0000_0000_0000_0000,
            pow2(75) == 0x800_0000_0000_0000_0000,
        decreases 75 - s,
    {
        proof {
            let q = m as int / w as int;
            vstd::arithmetic::div_mod::lemma_fundamental_div_mod(m as int, w as int);
            assert(top * w <= m) by (nonlinear_arith)
                requires
                    m == w * q + m as int % w as int,
                    0 <= m as int % w as int,
                    q >= top,
                    w >= 1,
            ;
            assert(s < 75) by {
                if s == 75 {
                    assert(top * w == top * 0x800_0000_0000_0000_0000);
                }
            }
            assert(top * (w * 2) == 2 * (top * w)) by (nonlinear_arith);
            lemma_pow2_unfold((s + 1) as nat);
            lemma_pow2_strictly_increases((s + 1) as nat, 127);
        }
        w = w * 2;
        s = s + 1;
    }
    proof {
        vstd::arithmetic::div_mod::lemma_fundamental_div_mod(m as int, w as int);
        vstd::arithmetic::div_mod::lemma_small_div_converse(m as int, w as int);
    }
    assert(s >= 1) by {
        if s == 0 {
            assert(m as int / 1 == m);
        }
    }
    if e + (s as i32) < 0 {
        let t: u32 = (-e) as u32;
        proof {
            lemma_subnormal_quotient(m as int, s as nat, t as nat);
        }
        round_at(m, e, inexact, t, Ghost(x))
    } else {
        proof {
            lemma_normal_quotient(m as int, w as int);
        }
        round_at(m, e, inexact, s, Ghost(x))
    }
}

/// Dropping more bits than a 53-bit significand asks for leaves fewer than 53.
proof fn lemma_subnormal_quotient(m: int, s: nat, t: nat)
    requires
        0 <= m,
        s <= t,
        m / (pow2(s) as int) < 2 * BINADE,
    ensures
        m / (pow2(t) as int) < 2 * BINADE,
{
    lemma_pow2_pos(s);
    if s < t {
        lemma_pow2_strictly_increases(s, t);
    }
    vstd::arithmetic::div_mod::lemma_div_is_ordered_by_denominator(m, pow2(s) as int, pow2(t) as int);
}

/// The shortest shift that fits 53 bits leaves a full significand.
proof fn lemma_normal_quotient(m: int, w: int)
    requires
        w > 0,
        2 * m >= 2 * BINADE * w,
    ensures
        m / w >= BINADE,
{
    let q = m / w;
    vstd::arithmetic::div_mod::lemma_fundamental_div_mod(m, w);
    let b = BINADE as int;
    assert(2 * BINADE * w == 2 * (b * w)) by (nonlinear_arith)
        requires
            b == BINADE,
    ;
    assert(q >= b) by (nonlinear_arith)
        requires
            m == w * q + m % w,
            m % w < w,
            w > 0,
            m >= b * w,
    ;
}

/// Rounds to a multiple of `2^(s + e)`.
fn round_at(m: u128, e: i32, inexact: bool, s: u32, Ghost(x): Ghost<Exact>) -> (r: u64)
    requires
        brackets(x, m as int, e as int, inexact),
        1 <= s <= 8096,
        0 <= s + e <= 4096,
        m as int / (pow2(s as nat) as int) < 2 * BINADE,
        s + e > 0 ==> m as int / (pow2(s as nat) as int) >= BINADE,
    ensures
        r == nearest(x),
        r <= INFINITY_MAG,
{
    let q: u64;
    let up: bool;
    let ghost rem: int;
    proof {
        lemma_pow2_127();
        lemma_pow2_pos(s as nat);
        vstd::arithmetic::div_mod::lemma_fundamental_div_mod(m as int, pow2(s as nat) as int);
    }
    if s > 128 {
        proof {
            lemma_pow2_strictly_increases(128, s as nat);
            if s > 129 {
                lemma_pow2_strictly_increases(129, s as nat);
            }
            lemma_pow2_unfold(129);
            rem = m as int;
            vstd::arithmetic::div_mod::lemma_basic_div(m as int, pow2(s as nat) as int);
        }
        q = 0;
        up = false;
    } else if s == 128 {
        proof {
            rem = m as int;
            vstd::arithmetic::div_mod::lemma_basic_div(m as int, pow2(s as nat) as int);
        }
        let half: u128 = 0x8000_0000_0000_0000_0000_0000_0000_0000;
        q = 0;
        up = m > half || (m == half && inexact);
    } else {
        let w: u128 = two_to(s);
        let half: u128 = w / 2;
        proof {
            lemma_pow2_unfold(s as nat);
            rem = m as int % w as int;
        }
        q = (m / w) as u64;
        let left: u128 = m % w;
        up = left > half || (left == half && (inexact || q % 2 == 1));
    }
    proof {
        assert(m == q * pow2(s as nat) + rem) by (nonlinear_arith)
            requires
                m == pow2(s as nat) * q + rem,
        ;
        lemma_compare_parts(x, m as int, e as int, inexact, s as nat, q as int, rem);
    }
    let g: u64 = (s as i64 + e as i64) as u64;
    if g >= 2046 {
        proof {
            lemma_overflow(x, g as nat, q as int);
            lemma_nearest(x, INFINITY_MAG as int);
        }
        return INFINITY_MAG;
    }
    proof {
        lemma_pick(x, g as nat, q as int, up);
        lemma_nearest(x, g * BINADE + q + (if up { 1int } else { 0 }));
    }
    let base: u64 = g * BINADE + q;
    if up {
        base + 1
    } else {
        base
    }
}

/// Larger magnitudes are larger numbers.
pub proof fn lemma_units_order(a: int, b: int)
    requires
        0 <= a,
        0 <= b,
    ensures
        units(a) >= 0,
        units(a) < units(b) <==> a < b,
        units(a) == units(b) <==> a == b,
{
    if a < b {
        lemma_units_monotonic(a, b);
    } else if b < a {
        lemma_units_monotonic(b, a);
    }
    if a > 0 {
        lemma_units_monotonic(0, a);
    }
}

} // verus!
