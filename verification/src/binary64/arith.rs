//! Arithmetic on doubles, by exact integer arithmetic and one rounding.
use vstd::arithmetic::power2::{
    lemma2_to64, lemma_pow2_adds, lemma_pow2_pos, lemma_pow2_strictly_increases, lemma_pow2_unfold,
    pow2,
};
use vstd::prelude::*;

use super::rounding::{
    brackets, compares, headroom, lemma_nearest, lemma_units_of_parts, lemma_units_monotonic,
    lemma_units_order, lemma_units_step, round,
};
use super::{
    excess, is_nearest, nearest, not_a_number, signed, units, Binary64, Exact, BINADE, INFINITY_MAG,
    SIGN_BIT,
};

verus! {

/// Splits a finite magnitude into significand and exponent.
pub fn parts(mag: u64) -> (r: (u64, u32))
    requires
        mag < INFINITY_MAG,
    ensures
        units(mag as int) == r.0 * pow2(r.1 as nat),
        r.0 < 2 * BINADE,
        r.1 <= 2045,
        r.1 > 0 ==> r.0 >= BINADE,
        mag == r.1 * BINADE + r.0,
        mag > 0 ==> r.0 > 0,
{
    if mag < BINADE {
        proof {
            lemma_units_of_parts(0, mag as int);
        }
        (mag, 0)
    } else {
        let e: u32 = (mag / BINADE - 1) as u32;
        let s: u64 = mag % BINADE + BINADE;
        proof {
            lemma_units_of_parts(e as nat, s as int);
        }
        (s, e)
    }
}

/// `n / d` is `m * 2^e` with a remainder `rest` of the last place.
proof fn lemma_ratio_brackets(n: int, d: int, m: int, e: int, rest: int)
    requires
        n >= 0,
        d > 0,
        -headroom() <= e,
        0 <= rest < d,
        n * pow2(headroom() as nat) == (d * m + rest) * pow2((e + headroom()) as nat),
    ensures
        brackets(Exact::Ratio { n, d }, m, e, rest != 0),
{
    let x = Exact::Ratio { n, d };
    let inexact = rest != 0;
    let p = pow2((e + headroom()) as nat) as int;
    let h = pow2(headroom() as nat) as int;
    lemma_pow2_pos((e + headroom()) as nat);
    lemma_pow2_pos(headroom() as nat);
    assert forall|c: int, f: nat| c >= 0 implies #[trigger] compares(x, m, e, inexact, c, f) by {
        let t = c * pow2(f);
        let y = excess(x, t);
        let g = pow2((f + headroom()) as nat) as int;
        let z = 2 * m * p - c * g;
        lemma_pow2_adds(f, headroom() as nat);
        assert(g == pow2(f) * h);
        assert(h * y == 2 * (n * h) - t * d * h) by (nonlinear_arith)
            requires
                y == 2 * n - t * d,
        ;
        assert(2 * (n * h) == d * (2 * m * p) + 2 * rest * p) by (nonlinear_arith)
            requires
                n * h == (d * m + rest) * p,
        ;
        assert(t * d * h == d * (c * g)) by (nonlinear_arith)
            requires
                t == c * pow2(f),
                g == pow2(f) * h,
        ;
        assert(d * z == d * (2 * m * p) - d * (c * g)) by (nonlinear_arith)
            requires
                z == 2 * m * p - c * g,
        ;
        assert(2 * rest * p == 2 * (rest * p)) by (nonlinear_arith);
        assert(y > 0 <==> h * y > 0) by (nonlinear_arith)
            requires
                h > 0,
        ;
        assert(y < 0 <==> h * y < 0) by (nonlinear_arith)
            requires
                h > 0,
        ;
        if rest == 0 {
            assert(rest * p == 0) by (nonlinear_arith)
                requires
                    rest == 0,
            ;
            assert(z > 0 <==> d * z > 0) by (nonlinear_arith)
                requires
                    d > 0,
            ;
            assert(z < 0 <==> d * z < 0) by (nonlinear_arith)
                requires
                    d > 0,
            ;
        } else {
            assert(rest * p > 0) by (nonlinear_arith)
                requires
                    rest > 0,
                    p > 0,
            ;
            assert(z >= 0 ==> d * z >= 0) by (nonlinear_arith)
                requires
                    d > 0,
            ;
            assert(z <= -2 * p ==> d * z + 2 * rest * p < 0) by (nonlinear_arith)
                requires
                    d > 0,
                    p > 0,
                    rest < d,
            ;
        }
    }
}

/// Moving a factor of two between the two parts changes nothing.
proof fn lemma_brackets_doubled(x: Exact, m: int, e: int)
    requires
        brackets(x, m, e, false),
        -headroom() < e,
    ensures
        brackets(x, 2 * m, e - 1, false),
{
    let p = pow2((e + headroom()) as nat) as int;
    let q = pow2((e - 1 + headroom()) as nat) as int;
    lemma_pow2_unfold((e + headroom()) as nat);
    assert(p == 2 * q);
    assert forall|c: int, f: nat| c >= 0 implies #[trigger] compares(
        x,
        2 * m,
        e - 1,
        false,
        c,
        f,
    ) by {
        assert(compares(x, m, e, false, c, f));
        assert(2 * (2 * m) * q == 2 * m * p) by (nonlinear_arith)
            requires
                p == 2 * q,
        ;
    }
}

/// The magnitude nearest to `m * 2^e`.
fn round_exact(m: u128, e: i32, Ghost(x): Ghost<Exact>) -> (r: u64)
    requires
        m > 0,
        -3000 <= e <= 4000,
        brackets(x, m as int, e as int, false),
    ensures
        r == nearest(x),
        r <= INFINITY_MAG,
{
    let mut m: u128 = m;
    let mut e: i32 = e;
    let ghost e0 = e as int;
    let top: u128 = 2 * (BINADE as u128);
    proof {
        lemma2_to64();
        lemma_pow2_adds(32, 21);
    }
    while m < top
        invariant
            m > 0,
            top == 2 * BINADE,
            top == pow2(53),
            e <= e0 <= 4000,
            e0 >= -3000,
            e0 - e <= 53,
            m >= pow2((e0 - e) as nat),
            brackets(x, m as int, e as int, false),
        decreases 53 - (e0 - e),
    {
        proof {
            lemma_brackets_doubled(x, m as int, e as int);
            lemma_pow2_unfold((e0 - e + 1) as nat);
        }
        m = m * 2;
        e = e - 1;
    }
    round(m, e, false, Ghost(x))
}

/// The nearest double to `a + b`, for two magnitudes of one sign.
fn add_mags(a: u64, b: u64) -> (r: u64)
    requires
        a < INFINITY_MAG,
        b < INFINITY_MAG,
        a > 0 || b > 0,
    ensures
        r == nearest(Exact::Ratio { n: units(a as int) + units(b as int), d: 1 }),
        r <= INFINITY_MAG,
{
    let hi: u64 = if a >= b { a } else { b };
    let lo: u64 = if a >= b { b } else { a };
    let (sh, eh) = parts(hi);
    let (sl, el) = parts(lo);
    let ghost x = Exact::Ratio { n: units(a as int) + units(b as int), d: 1 };
    proof {
        lemma_parts_ordered(hi as int, sh as int, eh as int, lo as int, sl as int, el as int);
    }
    let gap: u32 = eh - el;
    if gap > 64 {
        proof {
            lemma_absorbed(hi as int, sh as int, eh as nat, sl as int, el as nat, units(lo as int));
            lemma_nearest(x, hi as int);
        }
        return hi;
    }
    let m: u128 = align(sh, gap) + sl as u128;
    proof {
        lemma_aligned(sh as int, eh as nat, sl as int, el as nat);
        assert(m * pow2(el as nat) == units(hi as int) + units(lo as int)) by (nonlinear_arith)
            requires
                m == sh * pow2(gap as nat) + sl,
                sh * pow2(gap as nat) * pow2(el as nat) == units(hi as int),
                sl * pow2(el as nat) == units(lo as int),
        ;
        lemma_pow2_pos(gap as nat);
        assert(sh * pow2(gap as nat) > 0) by (nonlinear_arith)
            requires
                sh > 0,
                pow2(gap as nat) > 0,
        ;
        lemma_whole_brackets(units(a as int) + units(b as int), m as int, el as nat);
    }
    round_exact(m, el as i32, Ghost(x))
}

/// The nearest double to `a - b`, for magnitudes with `a > b`.
fn sub_mags(a: u64, b: u64) -> (r: u64)
    requires
        b < a < INFINITY_MAG,
    ensures
        r == nearest(Exact::Ratio { n: units(a as int) - units(b as int), d: 1 }),
        r <= INFINITY_MAG,
{
    let (sh, eh) = parts(a);
    let (sl, el) = parts(b);
    let ghost x = Exact::Ratio { n: units(a as int) - units(b as int), d: 1 };
    proof {
        lemma_parts_ordered(a as int, sh as int, eh as int, b as int, sl as int, el as int);
        lemma_units_monotonic(b as int, a as int);
    }
    let gap: u32 = eh - el;
    if gap > 64 {
        proof {
            lemma_absorbed(a as int, sh as int, eh as nat, sl as int, el as nat, -units(b as int));
            lemma_nearest(x, a as int);
        }
        return a;
    }
    let big: u128 = align(sh, gap);
    proof {
        lemma_aligned(sh as int, eh as nat, sl as int, el as nat);
        lemma_pow2_pos(el as nat);
        assert(big > sl) by (nonlinear_arith)
            requires
                big * pow2(el as nat) == units(a as int),
                sl * pow2(el as nat) == units(b as int),
                units(a as int) > units(b as int),
                pow2(el as nat) > 0,
        ;
    }
    let m: u128 = big - sl as u128;
    proof {
        assert(m * pow2(el as nat) == units(a as int) - units(b as int)) by (nonlinear_arith)
            requires
                m == big - sl,
                big * pow2(el as nat) == units(a as int),
                sl * pow2(el as nat) == units(b as int),
        ;
        lemma_whole_brackets(units(a as int) - units(b as int), m as int, el as nat);
    }
    round_exact(m, el as i32, Ghost(x))
}

/// `s * 2^gap`.
fn align(s: u64, gap: u32) -> (r: u128)
    requires
        gap <= 64,
        s < 2 * BINADE,
    ensures
        r == s * pow2(gap as nat),
        r < 0x20_0000_0000_0000_0000_0000_0000_0000,
{
    let mut r: u128 = s as u128;
    let mut i: u32 = 0;
    let mut bound: u128 = 0x20_0000_0000_0000;
    proof {
        lemma2_to64();
    }
    while i < gap
        invariant
            i <= gap <= 64,
            r == s * pow2(i as nat),
            r < bound,
            bound == 0x20_0000_0000_0000 * pow2(i as nat),
            bound <= 0x20_0000_0000_0000_0000_0000_0000_0000,
            pow2(64) == 0x1_0000_0000_0000_0000,
        decreases gap - i,
    {
        proof {
            lemma_pow2_unfold((i + 1) as nat);
            let q = pow2(i as nat) as int;
            let q2 = pow2((i + 1) as nat) as int;
            if i + 1 < 64 {
                lemma_pow2_strictly_increases((i + 1) as nat, 64);
            }
            assert(q2 == 2 * q && q2 <= 0x1_0000_0000_0000_0000);
            assert(s * q2 == 2 * (s * q)) by (nonlinear_arith)
                requires
                    q2 == 2 * q,
            ;
        }
        r = r * 2;
        bound = bound * 2;
        i = i + 1;
    }
    r
}

proof fn lemma_aligned(sh: int, eh: nat, sl: int, el: nat)
    requires
        el <= eh,
    ensures
        sh * pow2((eh - el) as nat) * pow2(el) == sh * pow2(eh),
{
    lemma_pow2_adds((eh - el) as nat, el);
    assert(sh * pow2((eh - el) as nat) * pow2(el) == sh * (pow2((eh - el) as nat) * pow2(el)))
        by (nonlinear_arith);
}

/// The exponent of the larger magnitude is not the smaller one.
proof fn lemma_parts_ordered(hi: int, sh: int, eh: int, lo: int, sl: int, el: int)
    requires
        lo <= hi,
        hi == eh * BINADE + sh,
        lo == el * BINADE + sl,
        0 <= sh < 2 * BINADE,
        0 <= sl < 2 * BINADE,
        el > 0 ==> sl >= BINADE,
        eh >= 0,
        el >= 0,
    ensures
        el <= eh,
{
    assert(el <= eh) by (nonlinear_arith)
        requires
            lo <= hi,
            hi == eh * BINADE + sh,
            lo == el * BINADE + sl,
            0 <= sh < 2 * BINADE,
            0 <= sl,
            el > 0 ==> sl >= BINADE,
            eh >= 0,
            el >= 0,
            BINADE == 0x10_0000_0000_0000,
    ;
}

/// A whole number of units is its own bracket.
proof fn lemma_whole_brackets(n: int, m: int, e: nat)
    requires
        n >= 0,
        n == m * pow2(e),
    ensures
        brackets(Exact::Ratio { n, d: 1 }, m, e as int, false),
{
    lemma_pow2_adds(e, headroom() as nat);
    let h = pow2(headroom() as nat) as int;
    assert(n * h == (1 * m + 0) * (pow2(e) * h)) by (nonlinear_arith)
        requires
            n == m * pow2(e),
    ;
    lemma_ratio_brackets(n, 1, m, e as int, 0);
}

/// An addend more than 64 binades down does not move the sum.
proof fn lemma_absorbed(hi: int, sh: int, eh: nat, sl: int, el: nat, delta: int)
    requires
        0 < hi < INFINITY_MAG,
        units(hi) == sh * pow2(eh),
        hi == eh * BINADE + sh,
        BINADE <= sh < 2 * BINADE,
        0 <= sl < 2 * BINADE,
        eh > el + 64,
        delta == sl * pow2(el) || delta == -(sl * pow2(el)),
    ensures
        is_nearest(Exact::Ratio { n: units(hi) + delta, d: 1 }, hi),
        units(hi) + delta >= 0,
{
    let x = Exact::Ratio { n: units(hi) + delta, d: 1 };
    let pe = pow2(el) as int;
    let ph = pow2(eh) as int;
    let b = BINADE as int;
    lemma2_to64();
    lemma_pow2_pos(el);
    lemma_pow2_adds(el, 64);
    lemma_pow2_strictly_increases(el + 64, eh);
    lemma_pow2_unfold(eh);
    let half = pow2((eh - 1) as nat) as int;
    assert(sl * pe < 2 * b * pe) by (nonlinear_arith)
        requires
            sl < 2 * b,
            pe > 0,
    ;
    assert(sl * pe >= 0) by (nonlinear_arith)
        requires
            sl >= 0,
            pe > 0,
    ;
    assert(8 * (2 * b * pe) <= pe * 0x1_0000_0000_0000_0000) by (nonlinear_arith)
        requires
            b == 0x10_0000_0000_0000,
            pe > 0,
    ;
    lemma_units_of_parts(eh, sh);
    lemma_units_of_parts(eh, sh + 1);
    assert((sh + 1) * ph == sh * ph + ph) by (nonlinear_arith);
    assert(sh * ph >= ph) by (nonlinear_arith)
        requires
            sh >= 1,
            ph > 0,
    ;
    // The neighbour below is at least half a step away.
    assert(units(hi) - units(hi - 1) >= half) by {
        if sh > b {
            lemma_units_of_parts(eh, sh - 1);
            assert((sh - 1) * ph == sh * ph - ph) by (nonlinear_arith);
        } else {
            assert(hi - 1 == (eh - 1) * b + (2 * b - 1)) by (nonlinear_arith)
                requires
                    hi == eh * b + sh,
                    sh == b,
            ;
            lemma_units_of_parts((eh - 1) as nat, 2 * b - 1);
            assert(sh * ph - (2 * b - 1) * half == half) by (nonlinear_arith)
                requires
                    sh == b,
                    ph == 2 * half,
            ;
        }
    }
}

/// Nothing rounds to nothing.
proof fn lemma_zero_rounds_to_zero(d: int)
    requires
        d > 0,
    ensures
        nearest(Exact::Ratio { n: 0, d }) == 0,
{
    let x = Exact::Ratio { n: 0, d };
    assert(is_nearest(x, 0)) by {
        assert(units(0) + units(1) == 1);
    }
    lemma_nearest(x, 0);
}

/// The nearest double to `a * b`.
fn mul_mags(a: u64, b: u64) -> (r: u64)
    requires
        a < INFINITY_MAG,
        b < INFINITY_MAG,
    ensures
        r == nearest(
            Exact::Ratio { n: units(a as int) * units(b as int), d: pow2(1074) as int },
        ),
        r <= INFINITY_MAG,
{
    proof {
        lemma_pow2_pos(1074);
    }
    if a == 0 || b == 0 {
        proof {
            lemma_zero_rounds_to_zero(pow2(1074) as int);
            assert(units(a as int) * units(b as int) == 0) by (nonlinear_arith)
                requires
                    units(a as int) == 0 || units(b as int) == 0,
            ;
        }
        return 0;
    }
    let (sa, ea) = parts(a);
    let (sb, eb) = parts(b);
    proof {
        assert(0 < sa * sb < 0x400_0000_0000_0000_0000_0000_0000) by (nonlinear_arith)
            requires
                0 < sa < 0x20_0000_0000_0000,
                0 < sb < 0x20_0000_0000_0000,
        ;
    }
    let m: u128 = (sa as u128) * (sb as u128);
    let e: i32 = ea as i32 + eb as i32 - 1074;
    let ghost n = units(a as int) * units(b as int);
    let ghost d = pow2(1074) as int;
    proof {
        let h = pow2(headroom() as nat) as int;
        let pa = pow2(ea as nat) as int;
        let pb = pow2(eb as nat) as int;
        let p = pow2((e + headroom()) as nat) as int;
        lemma_pow2_adds(ea as nat, eb as nat);
        lemma_pow2_adds((ea + eb) as nat, headroom() as nat);
        lemma_pow2_adds(1074, (e + headroom()) as nat);
        assert(((ea + eb) as nat) + headroom() as nat == 1074 + (e + headroom()) as nat);
        assert(pa * pb * h == d * p);
        lemma_pow2_pos(ea as nat);
        lemma_pow2_pos(eb as nat);
        assert(n == m * (pa * pb)) by (nonlinear_arith)
            requires
                n == (sa * pa) * (sb * pb),
                m == sa * sb,
        ;
        assert(n * h == m * (pa * pb * h)) by (nonlinear_arith)
            requires
                n == m * (pa * pb),
        ;
        assert(m * (d * p) == (d * m + 0) * p) by (nonlinear_arith);
        assert(n >= 0) by (nonlinear_arith)
            requires
                n == m * (pa * pb),
                m > 0,
                pa > 0,
                pb > 0,
        ;
        lemma_ratio_brackets(n, d, m as int, e as int, 0);
    }
    round_exact(m, e, Ghost(Exact::Ratio { n, d }))
}

/// The nearest double to `a / b`.
fn div_mags(a: u64, b: u64) -> (r: u64)
    requires
        a < INFINITY_MAG,
        0 < b < INFINITY_MAG,
    ensures
        r == nearest(
            Exact::Ratio { n: units(a as int) * pow2(1074), d: units(b as int) },
        ),
        r <= INFINITY_MAG,
{
    let ghost n = units(a as int) * pow2(1074);
    let ghost d = units(b as int);
    proof {
        lemma_units_step(b - 1);
    }
    if a == 0 {
        proof {
            lemma_zero_rounds_to_zero(d);
            assert(units(0) * pow2(1074) == 0) by (nonlinear_arith)
                requires
                    units(0) == 0,
            ;
        }
        return 0;
    }
    let (sa, ea) = parts(a);
    let (sb, eb) = parts(b);
    let mut num: u128 = sa as u128;
    let mut k: u32 = 0;
    proof {
        lemma2_to64();
        lemma_pow2_adds(31, 31);
        lemma_pow2_adds(64, 62);
        assert(pow2(64) * pow2(62) == 0x4000_0000_0000_0000_0000_0000_0000_0000)
            by (nonlinear_arith)
            requires
                pow2(64) == 0x1_0000_0000_0000_0000,
                pow2(62) == 0x4000_0000_0000_0000,
        ;
    }
    while num < 0x4000_0000_0000_0000_0000_0000_0000_0000
        invariant
            num > 0,
            num == sa * pow2(k as nat),
            sa >= 1,
            num >= pow2(k as nat),
            k <= 126,
            pow2(126) == 0x4000_0000_0000_0000_0000_0000_0000_0000,
        decreases 126 - k,
    {
        proof {
            lemma_pow2_unfold((k + 1) as nat);
            assert(sa * pow2((k + 1) as nat) == 2 * (sa * pow2(k as nat))) by (nonlinear_arith)
                requires
                    pow2((k + 1) as nat) == 2 * pow2(k as nat),
            ;
        }
        num = num * 2;
        k = k + 1;
    }
    let q: u128 = num / sb as u128;
    let left: u128 = num % sb as u128;
    let e: i32 = ea as i32 - eb as i32 + 1074 - k as i32;
    proof {
        let h = pow2(headroom() as nat) as int;
        let pa = pow2(ea as nat) as int;
        let pb = pow2(eb as nat) as int;
        let pk = pow2(k as nat) as int;
        let p = pow2((e + headroom()) as nat) as int;
        vstd::arithmetic::div_mod::lemma_fundamental_div_mod(num as int, sb as int);
        lemma_pow2_pos(eb as nat);
        lemma_pow2_pos(ea as nat);
        lemma_pow2_pos(1074);
        // pa * 2^1074 * h == pb * pk * p
        lemma_pow2_adds(ea as nat, 1074);
        lemma_pow2_adds((ea + 1074) as nat, headroom() as nat);
        lemma_pow2_adds(eb as nat, k as nat);
        lemma_pow2_adds((eb + k) as nat, (e + headroom()) as nat);
        assert(((ea + 1074) as nat) + headroom() as nat == ((eb + k) as nat) + (e + headroom()) as nat);
        let c = pow2(1074) as int;
        assert(pa * c * h == pb * pk * p);
        let rest = left * pb;
        assert(n * h == sa * (pa * c * h)) by (nonlinear_arith)
            requires
                n == (sa * pa) * c,
        ;
        assert(sa * (pb * pk * p) == (num * pb) * p) by (nonlinear_arith)
            requires
                num == sa * pk,
        ;
        assert(num * pb == d * q + rest) by (nonlinear_arith)
            requires
                num == sb * q + left,
                d == sb * pb,
                rest == left * pb,
        ;
        assert(0 <= rest < d) by (nonlinear_arith)
            requires
                rest == left * pb,
                d == sb * pb,
                0 <= left < sb,
                pb > 0,
        ;
        assert(rest != 0 <==> left != 0) by (nonlinear_arith)
            requires
                rest == left * pb,
                pb > 0,
        ;
        assert(n >= 0) by (nonlinear_arith)
            requires
                n == (sa * pa) * c,
                sa >= 0,
                pa > 0,
                c > 0,
        ;
        lemma_ratio_brackets(n, d, q as int, e as int, rest);
        assert(q >= 0x20_0000_0000_0000) by (nonlinear_arith)
            requires
                num == sb * q + left,
                left < sb,
                sb < 0x20_0000_0000_0000,
                num >= 0x4000_0000_0000_0000_0000_0000_0000_0000,
        ;
    }
    round(q, e, left != 0, Ghost(Exact::Ratio { n, d }))
}

/// The whole part of the square root of `s`.
fn whole_root(s: u128) -> (w: u128)
    requires
        s < 0x1000_0000_0000_0000_0000_0000_0000,
    ensures
        w * w <= s < (w + 1) * (w + 1),
        w < 0x100_0000_0000_0000,
{
    let mut w: u128 = 0;
    let mut step: u128 = 0x80_0000_0000_0000;
    let mut i: u32 = 55;
    proof {
        lemma2_to64();
        lemma_pow2_adds(32, 23);
        assert(s < (w + 2 * step) * (w + 2 * step)) by (nonlinear_arith)
            requires
                w == 0,
                step == 0x80_0000_0000_0000,
                s < 0x1000_0000_0000_0000_0000_0000_0000,
        ;
    }
    while step > 0
        invariant
            step == 0 || (i <= 55 && step == pow2(i as nat)),
            step > 0 ==> w + 2 * step <= 0x100_0000_0000_0000,
            step == 0 ==> w + 1 <= 0x100_0000_0000_0000,
            w * w <= s,
            step > 0 ==> s < (w + 2 * step) * (w + 2 * step),
            step == 0 ==> s < (w + 1) * (w + 1),
        decreases step,
    {
        let c: u128 = w + step;
        assert(c * c <= 0x1_0000_0000_0000_0000_0000_0000_0000) by (nonlinear_arith)
            requires
                0 <= c <= 0x100_0000_0000_0000,
        ;
        proof {
            if i > 0 {
                lemma_pow2_unfold(i as nat);
                lemma_pow2_pos((i - 1) as nat);
            } else {
                lemma2_to64();
            }
        }
        if c * c <= s {
            w = c;
        }
        step = step / 2;
        if i > 0 {
            i = i - 1;
        }
    }
    w
}

/// The square root of `s * 2^(2 * e)` has leading bits `w`.
proof fn lemma_root_brackets(n: int, s: int, w: int, e: nat)
    requires
        n == s * pow2(2 * e),
        0 <= w,
        w * w <= s < (w + 1) * (w + 1),
    ensures
        brackets(Exact::Root { n }, w, e as int, w * w != s),
{
    let x = Exact::Root { n };
    let inexact = w * w != s;
    let g = pow2(e) as int;
    let h = pow2(headroom() as nat) as int;
    let r = s - w * w;
    lemma_pow2_pos(e);
    lemma_pow2_pos(headroom() as nat);
    lemma_pow2_adds(e, e);
    lemma_pow2_adds(e, headroom() as nat);
    assert(pow2(2 * e) == g * g);
    assert(0 <= r <= 2 * w) by (nonlinear_arith)
        requires
            r == s - w * w,
            w * w <= s,
            s < (w + 1) * (w + 1),
    ;
    assert(n >= 0) by (nonlinear_arith)
        requires
            n == s * (g * g),
            s >= 0,
    ;
    assert forall|c: int, f: nat| c >= 0 implies #[trigger] compares(
        x,
        w,
        e as int,
        inexact,
        c,
        f,
    ) by {
        let t = c * pow2(f);
        let p = pow2((e as int + headroom()) as nat) as int;
        let a = 2 * w * g;
        let y = excess(x, t);
        let z = 2 * w * p - c * pow2((f + headroom()) as nat);
        lemma_pow2_adds(f, headroom() as nat);
        assert(p == g * h);
        assert(z == h * (a - t)) by (nonlinear_arith)
            requires
                z == 2 * w * p - c * (pow2(f) * h),
                p == g * h,
                a == 2 * w * g,
                t == c * pow2(f),
        ;
        assert(a >= 0) by (nonlinear_arith)
            requires
                a == 2 * w * g,
                w >= 0,
                g > 0,
        ;
        assert(t >= 0) by (nonlinear_arith)
            requires
                t == c * pow2(f),
                c >= 0,
        ;
        assert(y == a * a + 4 * (r * (g * g)) - t * t) by {
            assert(4 * n == a * a + 4 * (r * (g * g))) by (nonlinear_arith)
                requires
                    n == s * (g * g),
                    a == 2 * w * g,
                    s == w * w + r,
            ;
        }
        let rr = r * (g * g);
        assert(r > 0 ==> rr > 0) by (nonlinear_arith)
            requires
                rr == r * (g * g),
                g > 0,
        ;
        assert(r == 0 ==> rr == 0) by (nonlinear_arith)
            requires
                rr == r * (g * g),
        ;
        assert(z > 0 <==> a > t) by (nonlinear_arith)
            requires
                z == h * (a - t),
                h > 0,
        ;
        assert(z < 0 <==> a < t) by (nonlinear_arith)
            requires
                z == h * (a - t),
                h > 0,
        ;
        if !inexact {
            assert(a > t ==> a * a > t * t) by (nonlinear_arith)
                requires
                    a >= 0,
                    t >= 0,
            ;
            assert(a < t ==> a * a < t * t) by (nonlinear_arith)
                requires
                    a >= 0,
                    t >= 0,
            ;
        } else {
            assert(a >= t ==> a * a >= t * t) by (nonlinear_arith)
                requires
                    a >= 0,
                    t >= 0,
            ;
            if z <= -2 * p {
                assert(t >= a + 2 * g) by (nonlinear_arith)
                    requires
                        z == h * (a - t),
                        z <= -2 * p,
                        p == g * h,
                        h > 0,
                ;
                assert(t * t >= a * a + 4 * (a * g) + 4 * (g * g)) by (nonlinear_arith)
                    requires
                        t >= a + 2 * g,
                        a >= 0,
                        g > 0,
                ;
                assert(a * g == 2 * (w * (g * g))) by (nonlinear_arith)
                    requires
                        a == 2 * w * g,
                ;
                assert(rr <= 2 * (w * (g * g))) by (nonlinear_arith)
                    requires
                        rr == r * (g * g),
                        r <= 2 * w,
                        g > 0,
                ;
                assert(w * (g * g) >= 0) by (nonlinear_arith)
                    requires
                        w >= 0,
                        g > 0,
                ;
                assert(g * g > 0) by (nonlinear_arith)
                    requires
                        g > 0,
                ;
            }
        }
    }
}

/// The nearest double to the square root of `a`.
fn sqrt_mag(a: u64) -> (r: u64)
    requires
        0 < a < INFINITY_MAG,
    ensures
        r == nearest(Exact::Root { n: units(a as int) * pow2(1074) }),
        r <= INFINITY_MAG,
{
    let ghost n = units(a as int) * pow2(1074);
    let (sa, ea) = parts(a);
    let mut s: u128 = sa as u128;
    let mut e: u32 = ea + 1074;
    let ghost k: nat = 0;
    proof {
        lemma2_to64();
        lemma_pow2_adds(32, 10);
        lemma_pow2_adds(64, 42);
        assert(pow2(64) * pow2(42) == 0x400_0000_0000_0000_0000_0000_0000) by (nonlinear_arith)
            requires
                pow2(64) == 0x1_0000_0000_0000_0000,
                pow2(42) == 0x400_0000_0000,
        ;
        lemma_pow2_adds(ea as nat, 1074);
        assert(s * pow2(e as nat) == n) by (nonlinear_arith)
            requires
                n == (sa * pow2(ea as nat)) * pow2(1074),
                pow2(e as nat) == pow2(ea as nat) * pow2(1074),
                s == sa,
        ;
    }
    while s < 0x400_0000_0000_0000_0000_0000_0000 || e % 2 != 0
        invariant
            s > 0,
            s < 0x1000_0000_0000_0000_0000_0000_0000,
            s >= 0x800_0000_0000_0000_0000_0000_0000 ==> e % 2 == 0,
            s >= pow2(k),
            k <= 107,
            k + e == ea + 1074,
            ea <= 2045,
            s * pow2(e as nat) == n,
            pow2(106) == 0x400_0000_0000_0000_0000_0000_0000,
        decreases 107 - k,
    {
        proof {
            if k >= 107 {
                lemma_pow2_unfold(107);
            }
            lemma_pow2_unfold(k + 1);
            lemma_pow2_unfold(e as nat);
            assert((s * 2) * pow2((e - 1) as nat) == n) by (nonlinear_arith)
                requires
                    s * pow2(e as nat) == n,
                    pow2(e as nat) == 2 * pow2((e - 1) as nat),
            ;
            k = k + 1;
        }
        s = s * 2;
        e = e - 1;
    }
    let w: u128 = whole_root(s);
    let e2: u32 = e / 2;
    proof {
        assert(2 * (e2 as nat) == e as nat);
        lemma_root_brackets(n, s as int, w as int, e2 as nat);
        assert(w >= 0x20_0000_0000_0000) by (nonlinear_arith)
            requires
                s < (w + 1) * (w + 1),
                s >= 0x400_0000_0000_0000_0000_0000_0000,
                w >= 0,
        ;
        assert(w * w <= s);
    }
    round(w, e2 as i32, w * w != s, Ghost(Exact::Root { n }))
}

/// The nearest double to a whole number.
fn whole_mag(v: u64) -> (r: u64)
    ensures
        r == nearest(Exact::Ratio { n: v * pow2(1074), d: 1 }),
        r <= INFINITY_MAG,
{
    if v == 0 {
        proof {
            lemma_zero_rounds_to_zero(1);
        }
        return 0;
    }
    proof {
        lemma_pow2_pos(1074);
        assert(v * pow2(1074) >= 0) by (nonlinear_arith)
            requires
                v >= 0,
                pow2(1074) > 0,
        ;
        lemma_whole_brackets(v * pow2(1074), v as int, 1074);
    }
    round_exact(v as u128, 1074, Ghost(Exact::Ratio { n: v * pow2(1074), d: 1 }))
}

impl Binary64 {
    /// The number with the given sign and magnitude.
    fn with_sign(negative: bool, mag: u64) -> (r: Binary64)
        requires
            mag < SIGN_BIT,
        ensures
            r == signed(negative, mag as int),
    {
        if negative {
            Binary64 { bits: SIGN_BIT + mag }
        } else {
            Binary64 { bits: mag }
        }
    }

    /// The result of every invalid operation.
    fn invalid() -> (r: Binary64)
        ensures
            r == not_a_number(),
    {
        Binary64 { bits: 0x7ff8_0000_0000_0000 }
    }

    /// The correctly rounded sum.
    pub fn plus(self, other: Binary64) -> (r: Binary64)
        ensures
            r == self.plus_spec(other),
    {
        proof {
            reveal(Binary64::plus_spec);
        }
        let a: u64 = self.magnitude();
        let b: u64 = other.magnitude();
        let na: bool = self.is_sign_negative();
        let nb: bool = other.is_sign_negative();
        if a > INFINITY_MAG || b > INFINITY_MAG {
            Self::invalid()
        } else if a == INFINITY_MAG {
            if b == INFINITY_MAG && na != nb {
                Self::invalid()
            } else {
                self
            }
        } else if b == INFINITY_MAG {
            other
        } else {
            proof {
                lemma_units_order(a as int, b as int);
                lemma_units_order(b as int, a as int);
                lemma_units_order(0, a as int);
                lemma_units_order(0, b as int);
            }
            if na == nb {
                if a == 0 && b == 0 {
                    Self::with_sign(na, 0)
                } else {
                    Self::with_sign(na, add_mags(a, b))
                }
            } else if a == b {
                Self::with_sign(false, 0)
            } else if a > b {
                Self::with_sign(na, sub_mags(a, b))
            } else {
                Self::with_sign(nb, sub_mags(b, a))
            }
        }
    }

    /// The correctly rounded difference.
    pub fn minus(self, other: Binary64) -> (r: Binary64)
        ensures
            r == self.minus_spec(other),
    {
        proof {
            reveal(Binary64::minus_spec);
        }
        if other.is_nan() {
            Self::invalid()
        } else {
            self.plus(other.neg())
        }
    }

    /// The correctly rounded product.
    pub fn times(self, other: Binary64) -> (r: Binary64)
        ensures
            r == self.times_spec(other),
    {
        proof {
            reveal(Binary64::times_spec);
        }
        let a: u64 = self.magnitude();
        let b: u64 = other.magnitude();
        let negative: bool = self.is_sign_negative() != other.is_sign_negative();
        if a > INFINITY_MAG || b > INFINITY_MAG {
            Self::invalid()
        } else if a == INFINITY_MAG || b == INFINITY_MAG {
            if a == 0 || b == 0 {
                Self::invalid()
            } else {
                Self::with_sign(negative, INFINITY_MAG)
            }
        } else {
            Self::with_sign(negative, mul_mags(a, b))
        }
    }

    /// The correctly rounded quotient.
    pub fn over(self, other: Binary64) -> (r: Binary64)
        ensures
            r == self.over_spec(other),
    {
        proof {
            reveal(Binary64::over_spec);
        }
        let a: u64 = self.magnitude();
        let b: u64 = other.magnitude();
        let negative: bool = self.is_sign_negative() != other.is_sign_negative();
        if a > INFINITY_MAG || b > INFINITY_MAG {
            Self::invalid()
        } else if a == INFINITY_MAG {
            if b == INFINITY_MAG {
                Self::invalid()
            } else {
                Self::with_sign(negative, INFINITY_MAG)
            }
        } else if b == INFINITY_MAG {
            Self::with_sign(negative, 0)
        } else if b == 0 {
            if a == 0 {
                Self::invalid()
            } else {
                Self::with_sign(negative, INFINITY_MAG)
            }
        } else {
            Self::with_sign(negative, div_mags(a, b))
        }
    }

    /// The correctly rounded square root.
    pub fn sqrt(self) -> (r: Binary64)
        ensures
            r == self.sqrt_spec(),
    {
        proof {
            reveal(Binary64::sqrt_spec);
        }
        let a: u64 = self.magnitude();
        if a > INFINITY_MAG {
            Self::invalid()
        } else if a == 0 {
            self
        } else if self.is_sign_negative() {
            Self::invalid()
        } else if a == INFINITY_MAG {
            self
        } else {
            Self::with_sign(false, sqrt_mag(a))
        }
    }

    /// The double nearest to a whole number.
    pub fn from_u64(n: u64) -> (r: Binary64)
        ensures
            r == Self::from_u64_spec(n),
    {
        proof {
            reveal(Binary64::from_u64_spec);
        }
        Self::with_sign(false, whole_mag(n))
    }
}

} // verus!
