//! How rounded results stand to the exact ones.
//!
//! A rounded result is on the same side of every double as the exact result. The laws below
//! say so of each operation, on the whole numbers of units that the doubles stand for.
use vstd::arithmetic::power2::{lemma_pow2_pos, lemma_pow2_unfold, pow2};
use vstd::prelude::*;

use super::laws::{
    lemma_exact_values_stay, lemma_nearest_at_least, lemma_nearest_at_most, lemma_nearest_exists,
};
use super::order::law_order_is_numeric;
use super::rounding::{lemma_units_of_parts, lemma_units_order, valid};
use super::{excess, nearest, signed, units, Binary64, Exact, BINADE, INFINITY_MAG};

verus! {

/// Where a rounded result stands to `c`, told from where the exact result stands to it.
proof fn lemma_rounded_against(negative: bool, x: Exact, c: Binary64)
    requires
        valid(x),
        !c.nan(),
    ensures
        ({
            let r = signed(negative, nearest(x));
            let side = excess(x, 2 * units(c.mag()));
            &&& !r.nan()
            &&& r.negative() == negative
            &&& r.mag() == nearest(x)
            &&& !negative && c.negative() ==> c.le_spec(r)
            &&& !negative && side >= 0 ==> c.le_spec(r)
            &&& !negative && side <= 0 && (!c.negative() || c.mag() == 0) ==> r.le_spec(c)
            &&& negative && !c.negative() ==> r.le_spec(c)
            &&& negative && side >= 0 ==> r.le_spec(c)
            &&& negative && side <= 0 && (c.negative() || c.mag() == 0) ==> c.le_spec(r)
        }),
{
    lemma_nearest_exists(x);
    if excess(x, 2 * units(c.mag())) >= 0 {
        lemma_nearest_at_least(x, c.mag());
    }
    if excess(x, 2 * units(c.mag())) <= 0 {
        lemma_nearest_at_most(x, c.mag());
    }
}

/// A sum is on the same side of every double as the exact sum.
pub proof fn law_sum_against(a: Binary64, b: Binary64, c: Binary64)
    requires
        a.finite(),
        b.finite(),
        c.finite(),
    ensures
        a.value() + b.value() >= c.value() ==> c.le_spec(a.plus_spec(b)),
        a.value() + b.value() <= c.value() ==> a.plus_spec(b).le_spec(c),
{
    reveal(Binary64::plus_spec);
    let v = a.value() + b.value();
    lemma_units_order(0, c.mag());
    lemma_units_order(c.mag(), 0);
    if v < 0 {
        lemma_rounded_against(true, Exact::Ratio { n: -v, d: 1 }, c);
    } else if v > 0 {
        lemma_rounded_against(false, Exact::Ratio { n: v, d: 1 }, c);
    }
}

/// A difference is on the same side of every double as the exact difference.
pub proof fn law_difference_against(a: Binary64, b: Binary64, c: Binary64)
    requires
        a.finite(),
        b.finite(),
        c.finite(),
    ensures
        a.value() - b.value() >= c.value() ==> c.le_spec(a.minus_spec(b)),
        a.value() - b.value() <= c.value() ==> a.minus_spec(b).le_spec(c),
{
    reveal(Binary64::minus_spec);
    law_sum_against(a, b.neg_spec(), c);
}

/// The sizes of a product's factors have the sign that its factors' signs give it.
proof fn lemma_product_of_values(a: Binary64, b: Binary64)
    ensures
        a.negative() != b.negative() ==> a.value() * b.value() == -(units(a.mag()) * units(
            b.mag(),
        )),
        a.negative() == b.negative() ==> a.value() * b.value() == units(a.mag()) * units(b.mag()),
        units(a.mag()) * units(b.mag()) >= 0,
{
    lemma_units_order(0, a.mag());
    lemma_units_order(0, b.mag());
    let p = units(a.mag());
    let q = units(b.mag());
    assert((-p) * q == -(p * q)) by (nonlinear_arith);
    assert(p * (-q) == -(p * q)) by (nonlinear_arith);
    assert((-p) * (-q) == p * q) by (nonlinear_arith);
    assert(p * q >= 0) by (nonlinear_arith)
        requires
            p >= 0,
            q >= 0,
    ;
}

/// A product is on the same side of every double as the exact product.
pub proof fn law_product_against(a: Binary64, b: Binary64, c: Binary64)
    requires
        a.finite(),
        b.finite(),
        c.finite(),
    ensures
        a.value() * b.value() >= c.value() * pow2(1074) ==> c.le_spec(a.times_spec(b)),
        a.value() * b.value() <= c.value() * pow2(1074) ==> a.times_spec(b).le_spec(c),
{
    reveal(Binary64::times_spec);
    lemma_pow2_pos(1074);
    lemma_product_of_values(a, b);
    lemma_units_order(0, c.mag());
    let n = units(a.mag()) * units(b.mag());
    let d = pow2(1074) as int;
    let u = units(c.mag());
    let x = Exact::Ratio { n, d };
    lemma_rounded_against(a.negative() != b.negative(), x, c);
    assert(excess(x, 2 * u) == 2 * n - 2 * (u * d)) by (nonlinear_arith)
        requires
            excess(x, 2 * u) == 2 * n - (2 * u) * d,
    ;
    assert((-u) * d == -(u * d)) by (nonlinear_arith);
    assert(u * d >= 0) by (nonlinear_arith)
        requires
            u >= 0,
            d > 0,
    ;
    if u > 0 {
        assert(u * d > 0) by (nonlinear_arith)
            requires
                u > 0,
                d > 0,
        ;
    }
}

/// A quotient by a number above zero is on the same side of every double as the exact
/// quotient.
pub proof fn law_quotient_against(a: Binary64, b: Binary64, c: Binary64)
    requires
        a.finite(),
        b.finite(),
        b.rank() > 0,
        c.finite(),
    ensures
        a.value() * pow2(1074) >= c.value() * b.value() ==> c.le_spec(a.over_spec(b)),
        a.value() * pow2(1074) <= c.value() * b.value() ==> a.over_spec(b).le_spec(c),
{
    reveal(Binary64::over_spec);
    lemma_pow2_pos(1074);
    lemma_units_order(0, a.mag());
    lemma_units_order(0, b.mag());
    lemma_units_order(0, c.mag());
    let p = pow2(1074) as int;
    let w = units(a.mag());
    let n = w * p;
    let d = units(b.mag());
    let u = units(c.mag());
    let x = Exact::Ratio { n, d };
    assert(n >= 0) by (nonlinear_arith)
        requires
            n == w * p,
            w >= 0,
            p > 0,
    ;
    lemma_rounded_against(a.negative(), x, c);
    assert(excess(x, 2 * u) == 2 * n - 2 * (u * d)) by (nonlinear_arith)
        requires
            excess(x, 2 * u) == 2 * n - (2 * u) * d,
    ;
    assert((-u) * d == -(u * d)) by (nonlinear_arith);
    assert((-w) * p == -n) by (nonlinear_arith)
        requires
            n == w * p,
    ;
    assert(u * d >= 0) by (nonlinear_arith)
        requires
            u >= 0,
            d > 0,
    ;
    if u > 0 {
        assert(u * d > 0) by (nonlinear_arith)
            requires
                u > 0,
                d > 0,
        ;
    }
}

/// A square root is on the same side of every double as the exact root, and no double is
/// nearer to it: the exact root lies between the midpoints that part the result from its
/// neighbours.
pub proof fn law_root_against(a: Binary64, c: Binary64)
    requires
        a.finite(),
        a.value() >= 0,
        c.finite(),
        !c.negative(),
    ensures
        a.sqrt_spec().finite(),
        a.value() * pow2(1074) >= c.value() * c.value() ==> c.le_spec(a.sqrt_spec()),
        a.value() * pow2(1074) <= c.value() * c.value() ==> a.sqrt_spec().le_spec(c),
        a.sqrt_spec().rank() >= 0,
        ({
            let s = a.sqrt_spec();
            let below = units(s.mag() - 1) + units(s.mag());
            let above = units(s.mag()) + units(s.mag() + 1);
            &&& s.mag() > 0 ==> below * below <= 4 * (a.value() * pow2(1074))
            &&& 4 * (a.value() * pow2(1074)) <= above * above
        }),
{
    reveal(Binary64::sqrt_spec);
    lemma_pow2_pos(1074);
    lemma_units_order(0, a.mag());
    lemma_units_order(0, c.mag());
    let p = pow2(1074) as int;
    let w = units(a.mag());
    let u = units(c.mag());
    assert(w * p >= 0) by (nonlinear_arith)
        requires
            w >= 0,
            p > 0,
    ;
    assert(u * u >= 0) by (nonlinear_arith);
    if a.mag() == 0 {
        lemma_units_order(0, 1);
        assert(w * p == 0) by (nonlinear_arith)
            requires
                w == 0,
        ;
        if u > 0 {
            assert(u * u > 0) by (nonlinear_arith)
                requires
                    u > 0,
            ;
        }
        let t = units(0) + units(1);
        assert(t * t >= 0) by (nonlinear_arith);
    } else {
        let x = Exact::Root { n: w * p };
        lemma_rounded_against(false, x, c);
        lemma_nearest_exists(x);
        assert((2 * u) * (2 * u) == 4 * (u * u)) by (nonlinear_arith);
        lemma_root_is_finite(a);
    }
}

/// The root of a larger number is no smaller.
pub proof fn law_root_is_monotonic(a: Binary64, b: Binary64)
    requires
        a.finite() && b.finite(),
        0 <= a.value() <= b.value(),
    ensures
        a.sqrt_spec().le_spec(b.sqrt_spec()),
{
    law_root_against(a, Binary64::zero());
    law_root_against(b, Binary64::zero());
    let x = a.sqrt_spec().mag();
    let y = b.sqrt_spec().mag();
    if x > y {
        let p = pow2(1074) as int;
        let below = units(x - 1) + units(x);
        let above = units(y) + units(y + 1);
        lemma_pow2_pos(1074);
        lemma_units_order(y, x - 1);
        lemma_units_order(y + 1, x);
        lemma_units_order(0, y);
        lemma_units_order(0, y + 1);
        assert(above * above <= below * below) by (nonlinear_arith)
            requires
                0 <= above <= below,
        ;
        assert(a.value() == b.value()) by (nonlinear_arith)
            requires
                a.value() <= b.value(),
                4 * (b.value() * p) <= 4 * (a.value() * p),
                p > 0,
        ;
        lemma_units_order(0, a.mag());
        lemma_units_order(0, b.mag());
        lemma_units_order(a.mag(), b.mag());
        reveal(Binary64::sqrt_spec);
    }
}

/// The root of a finite number is finite.
proof fn lemma_root_is_finite(a: Binary64)
    requires
        a.finite(),
        !a.negative(),
        a.mag() > 0,
    ensures
        a.sqrt_spec().finite(),
{
    reveal(Binary64::sqrt_spec);
    lemma_pow2_pos(1074);
    let p = pow2(1074) as int;
    let top = INFINITY_MAG - 1;
    let w = units(a.mag());
    let u = units(top);
    lemma_units_order(a.mag(), top);
    lemma_units_order(0, a.mag());
    super::laws::lemma_units_of_small_numbers();
    lemma_units_order(Binary64::one().mag(), top);
    let x = Exact::Root { n: w * p };
    assert(w * p >= 0) by (nonlinear_arith)
        requires
            w >= 0,
            p > 0,
    ;
    assert(4 * (w * p) - (2 * u) * (2 * u) <= 0) by (nonlinear_arith)
        requires
            0 <= w <= u,
            0 < p <= u,
    ;
    lemma_nearest_at_most(x, top);
    lemma_nearest_exists(x);
}

/// A whole number is turned into a double on the same side of every double as itself.
pub proof fn law_whole_against(n: u64, c: Binary64)
    requires
        c.finite(),
    ensures
        n * pow2(1074) >= c.value() ==> c.le_spec(Binary64::from_u64_spec(n)),
        n * pow2(1074) <= c.value() ==> Binary64::from_u64_spec(n).le_spec(c),
{
    reveal(Binary64::from_u64_spec);
    lemma_pow2_pos(1074);
    lemma_units_order(0, c.mag());
    assert(n * pow2(1074) >= 0) by (nonlinear_arith);
    lemma_rounded_against(false, Exact::Ratio { n: n * pow2(1074), d: 1 }, c);
}

/// Rounding keeps the order of whole numbers of units.
proof fn lemma_nearest_is_monotonic(m: int, n: int, d: int)
    requires
        0 <= m <= n,
        d > 0,
    ensures
        nearest(Exact::Ratio { n: m, d }) <= nearest(Exact::Ratio { n, d }),
{
    let x = Exact::Ratio { n: m, d };
    let y = Exact::Ratio { n, d };
    lemma_nearest_exists(x);
    lemma_nearest_exists(y);
    let j = nearest(x);
    let k = nearest(y);
    if j > k {
        let below = units(j - 1) + units(j);
        let above = units(k) + units(k + 1);
        lemma_units_order(k, j - 1);
        lemma_units_order(k + 1, j);
        assert(above * d <= below * d) by (nonlinear_arith)
            requires
                above <= below,
                d > 0,
        ;
        assert(m == n);
    }
}

/// Of two sums with the same number, that of the larger number is no smaller.
pub proof fn law_sum_is_monotonic(a: Binary64, b: Binary64, c: Binary64)
    requires
        a.finite() && b.finite() && c.finite(),
        a.value() <= b.value(),
    ensures
        a.plus_spec(c).le_spec(b.plus_spec(c)),
{
    reveal(Binary64::plus_spec);
    let v = a.value() + c.value();
    let w = b.value() + c.value();
    if v > 0 {
        lemma_nearest_is_monotonic(v, w, 1);
    }
    if w < 0 {
        lemma_nearest_is_monotonic(-w, -v, 1);
    }
    lemma_nearest_exists(
        Exact::Ratio {
            n: if v < 0 {
                -v
            } else {
                v
            },
            d: 1,
        },
    );
    lemma_nearest_exists(
        Exact::Ratio {
            n: if w < 0 {
                -w
            } else {
                w
            },
            d: 1,
        },
    );
}

/// Of two differences to the same number, that of the larger number is no smaller.
pub proof fn law_difference_is_monotonic(a: Binary64, b: Binary64, c: Binary64)
    requires
        a.finite() && b.finite() && c.finite(),
        a.value() <= b.value(),
    ensures
        a.minus_spec(c).le_spec(b.minus_spec(c)),
{
    reveal(Binary64::minus_spec);
    law_sum_is_monotonic(a, b, c.neg_spec());
}

/// Of two quotients by the same number above zero, that of the larger number is no smaller.
pub proof fn law_quotient_is_monotonic(a: Binary64, b: Binary64, c: Binary64)
    requires
        a.finite() && b.finite() && c.finite(),
        c.rank() > 0,
        a.value() <= b.value(),
    ensures
        a.over_spec(c).le_spec(b.over_spec(c)),
{
    reveal(Binary64::over_spec);
    lemma_pow2_pos(1074);
    lemma_units_order(0, a.mag());
    lemma_units_order(0, b.mag());
    lemma_units_order(0, c.mag());
    let p = pow2(1074) as int;
    let x = units(a.mag());
    let y = units(b.mag());
    let v = x * p;
    let w = y * p;
    assert(v >= 0 && w >= 0 && (x <= y ==> v <= w) && (y <= x ==> w <= v)) by (nonlinear_arith)
        requires
            v == x * p,
            w == y * p,
            x >= 0,
            y >= 0,
            p > 0,
    ;
    if x <= y {
        lemma_nearest_is_monotonic(v, w, units(c.mag()));
    }
    if y <= x {
        lemma_nearest_is_monotonic(w, v, units(c.mag()));
    }
    if a.negative() != b.negative() && x == 0 {
        lemma_exact_values_stay(0, Exact::Ratio { n: v, d: units(c.mag()) });
    }
    if a.negative() != b.negative() && y == 0 {
        lemma_exact_values_stay(0, Exact::Ratio { n: w, d: units(c.mag()) });
    }
    lemma_nearest_exists(Exact::Ratio { n: v, d: units(c.mag()) });
    lemma_nearest_exists(Exact::Ratio { n: w, d: units(c.mag()) });
}

/// A multiple of a power of two that has few enough digits is a magnitude.
proof fn lemma_has_a_magnitude(q: int, e: nat) -> (m: int)
    requires
        0 <= q <= 2 * BINADE,
    ensures
        0 <= m <= e * BINADE + q,
        units(m) == q * pow2(e),
    decreases e,
{
    if q >= BINADE || e == 0 {
        lemma_units_of_parts(e, q);
        assert(e * BINADE >= 0) by (nonlinear_arith);
        e * BINADE + q
    } else {
        let d = (e - 1) as nat;
        lemma_pow2_unfold(e);
        assert(q * pow2(e) == (2 * q) * pow2(d)) by (nonlinear_arith)
            requires
                pow2(e) == 2 * pow2(d),
        ;
        let m = lemma_has_a_magnitude(2 * q, d);
        assert(d * BINADE + 2 * q <= e * BINADE + q) by (nonlinear_arith)
            requires
                d == e - 1,
                q <= BINADE,
        ;
        m
    }
}

/// Whole numbers of up to 53 bits are turned into doubles without rounding.
pub proof fn law_small_whole_numbers_are_exact(n: u64)
    requires
        n <= 0x20_0000_0000_0000,
    ensures
        Binary64::from_u64_spec(n).finite(),
        Binary64::from_u64_spec(n).value() == n * pow2(1074),
{
    reveal(Binary64::from_u64_spec);
    let m = lemma_has_a_magnitude(n as int, 1074);
    assert(m < INFINITY_MAG);
    let x = Exact::Ratio { n: n * pow2(1074), d: 1 };
    assert(n * pow2(1074) >= 0) by (nonlinear_arith);
    lemma_exact_values_stay(m, x);
    lemma_nearest_exists(x);
}

/// What comparing, choosing and changing sign do to finite numbers, on the numbers that they
/// stand for.
pub proof fn law_choices_are_numeric(a: Binary64, b: Binary64, c: Binary64)
    requires
        a.finite() && b.finite() && c.finite(),
        b.value() <= c.value(),
    ensures
        a.max_spec(b).finite() && a.max_spec(b).value() == (if a.value() < b.value() {
            b.value()
        } else {
            a.value()
        }),
        a.min_spec(b).finite() && a.min_spec(b).value() == (if b.value() < a.value() {
            b.value()
        } else {
            a.value()
        }),
        a.clamp_spec(b, c).finite() && a.clamp_spec(b, c).value() == (if a.value() < b.value() {
            b.value()
        } else if a.value() > c.value() {
            c.value()
        } else {
            a.value()
        }),
        a.neg_spec().finite() && a.neg_spec().value() == -a.value(),
        a.abs_spec().finite() && a.abs_spec().value() == (if a.value() < 0 {
            -a.value()
        } else {
            a.value()
        }),
{
    law_order_is_numeric(a, b);
    law_order_is_numeric(b, a);
    law_order_is_numeric(c, a);
    lemma_units_order(0, a.mag());
}

/// What is not a number gives way to one that is, in either place, and is neither smaller nor
/// larger than anything.
pub proof fn law_not_a_number_gives_way(a: Binary64, b: Binary64)
    requires
        a.nan(),
        !b.nan(),
    ensures
        a.max_spec(b) == b && b.max_spec(a) == b,
        a.min_spec(b) == b && b.min_spec(a) == b,
        !a.lt_spec(b) && !b.lt_spec(a) && !a.le_spec(b) && !b.le_spec(a),
        a.clamp_spec(b, b) == a,
{
}

} // verus!
