//! What holds of every rounded result.
use vstd::arithmetic::power2::{lemma2_to64, lemma_pow2_adds, lemma_pow2_pos, lemma_pow2_unfold, pow2};
use vstd::prelude::*;

use super::rounding::{
    lemma_excess_decreases, lemma_units_of_parts, lemma_units_order, valid,
};
use super::{
    excess, is_nearest, nearest, signed, units, Binary64, Exact, BINADE, INFINITY_MAG,
};

verus! {

/// Every exact result rounds to some magnitude.
pub proof fn lemma_nearest_exists(x: Exact)
    requires
        valid(x),
    ensures
        is_nearest(x, nearest(x)),
        0 <= nearest(x) <= INFINITY_MAG,
{
    lemma_search(x, 0);
    let m = choose|m: int| is_nearest(x, m);
    assert(is_nearest(x, m));
}

/// A magnitude that `x` rounds to, at `m` or above.
proof fn lemma_search(x: Exact, m: int)
    requires
        valid(x),
        0 <= m <= INFINITY_MAG,
        m > 0 ==> {
            ||| excess(x, units(m - 1) + units(m)) > 0
            ||| excess(x, units(m - 1) + units(m)) == 0 && m % 2 == 0
        },
    ensures
        exists|k: int| is_nearest(x, k),
    decreases INFINITY_MAG - m,
{
    let t = excess(x, units(m) + units(m + 1));
    if m == INFINITY_MAG || t < 0 || (t == 0 && m % 2 == 0) {
        assert(is_nearest(x, m));
    } else {
        lemma_search(x, m + 1);
    }
}

/// A product of two numbers above zero is at least zero, and is a number.
pub proof fn law_product_of_positive_numbers(a: Binary64, b: Binary64)
    requires
        !a.nan(),
        !b.nan(),
        a.rank() > 0,
        b.rank() > 0,
    ensures
        !a.times_spec(b).nan(),
        !a.times_spec(b).negative(),
{
    reveal(Binary64::times_spec);
    if a.finite() && b.finite() {
        lemma_units_order(0, a.mag());
        lemma_units_order(0, b.mag());
        lemma_pow2_pos(1074);
        assert(units(a.mag()) * units(b.mag()) >= 0) by (nonlinear_arith)
            requires
                units(a.mag()) >= 0,
                units(b.mag()) >= 0,
        ;
        lemma_nearest_exists(
            Exact::Ratio { n: units(a.mag()) * units(b.mag()), d: pow2(1074) as int },
        );
    }
}

/// A quotient of a number that is at least zero by a finite number above zero is a
/// number, and is at least zero.
pub proof fn law_quotient_of_positive_numbers(a: Binary64, b: Binary64)
    requires
        !a.nan(),
        !a.negative(),
        b.finite(),
        b.rank() > 0,
    ensures
        !a.over_spec(b).nan(),
        !a.over_spec(b).negative(),
{
    reveal(Binary64::over_spec);
    if a.finite() {
        lemma_units_order(0, a.mag());
        lemma_units_order(0, b.mag());
        lemma_pow2_pos(1074);
        assert(units(a.mag()) * pow2(1074) >= 0) by (nonlinear_arith)
            requires
                units(a.mag()) >= 0,
        ;
        lemma_nearest_exists(
            Exact::Ratio { n: units(a.mag()) * pow2(1074), d: units(b.mag()) },
        );
    }
}

/// The sizes of 1.0 and 2.0.
pub proof fn lemma_units_of_small_numbers()
    ensures
        units(Binary64::one().mag()) == pow2(1074),
        units(Binary64::two().mag()) == 2 * pow2(1074),
{
    lemma2_to64();
    lemma_pow2_adds(32, 20);
    lemma_pow2_adds(52, 1022);
    lemma_pow2_unfold(1075);
    lemma_pow2_adds(52, 1023);
    lemma_units_of_parts(1022, BINADE as int);
    lemma_units_of_parts(1023, BINADE as int);
}

/// A number that is at least as large as the magnitude `m` rounds to `m` or more.
pub proof fn lemma_nearest_at_least(x: Exact, m: int)
    requires
        valid(x),
        0 <= m <= INFINITY_MAG,
        excess(x, 2 * units(m)) >= 0,
    ensures
        nearest(x) >= m,
{
    lemma_nearest_exists(x);
    let k = nearest(x);
    if k < m {
        lemma_units_order(k, m);
        lemma_units_order(k + 1, m);
        lemma_units_order(k, k + 1);
        lemma_units_order(0, k);
        lemma_excess_decreases(x, units(k) + units(k + 1), 2 * units(m));
    }
}

/// A number that is at most as large as the magnitude `m` rounds to `m` or less.
pub proof fn lemma_nearest_at_most(x: Exact, m: int)
    requires
        valid(x),
        0 <= m <= INFINITY_MAG,
        excess(x, 2 * units(m)) <= 0,
    ensures
        nearest(x) <= m,
{
    lemma_nearest_exists(x);
    let k = nearest(x);
    if k > m {
        lemma_units_order(m, k);
        lemma_units_order(m, k - 1);
        lemma_units_order(k - 1, k);
        lemma_units_order(0, m);
        lemma_excess_decreases(x, 2 * units(m), units(k - 1) + units(k));
    }
}

/// A number that has a magnitude of its own rounds to it.
pub proof fn lemma_exact_values_stay(m: int, x: Exact)
    requires
        valid(x),
        0 <= m <= INFINITY_MAG,
        excess(x, 2 * units(m)) == 0,
    ensures
        nearest(x) == m,
{
    lemma_nearest_at_least(x, m);
    lemma_nearest_at_most(x, m);
}

/// Zero added to a finite number that is not zero leaves it as it is.
pub proof fn law_plus_zero(a: Binary64)
    requires
        a.finite(),
        a.mag() != 0,
    ensures
        a.plus_spec(Binary64::zero()) == a,
{
    reveal(Binary64::plus_spec);
    lemma_units_order(0, a.mag());
    lemma_exact_values_stay(a.mag(), Exact::Ratio { n: units(a.mag()), d: 1 });
}

/// A finite number less itself is zero.
pub proof fn law_minus_self(a: Binary64)
    requires
        a.finite(),
    ensures
        a.minus_spec(a) == Binary64::zero(),
{
    reveal(Binary64::plus_spec);
    reveal(Binary64::minus_spec);
}

/// Whole numbers are at least zero, and are zero only where the number is.
pub proof fn law_from_u64_sign(n: u64)
    ensures
        !Binary64::from_u64_spec(n).nan(),
        !Binary64::from_u64_spec(n).negative(),
        n == 0 ==> Binary64::from_u64_spec(n) == Binary64::zero(),
        n > 0 ==> Binary64::one().le_spec(Binary64::from_u64_spec(n)),
{
    reveal(Binary64::from_u64_spec);
    let x = Exact::Ratio { n: n * pow2(1074), d: 1 };
    lemma_pow2_pos(1074);
    assert(n * pow2(1074) >= 0) by (nonlinear_arith);
    lemma_nearest_exists(x);
    if n == 0 {
        assert(n * pow2(1074) == 0) by (nonlinear_arith)
            requires
                n == 0,
        ;
        lemma_exact_values_stay(0, x);
    } else {
        lemma_units_of_small_numbers();
        assert(n * pow2(1074) >= pow2(1074)) by (nonlinear_arith)
            requires
                n >= 1,
        ;
        lemma_nearest_at_least(x, Binary64::one().mag());
    }
}

/// A quotient by a finite number above zero is a number wherever the dividend is one.
pub proof fn law_quotient_is_a_number(a: Binary64, b: Binary64)
    requires
        !a.nan(),
        b.finite(),
        b.rank() > 0,
    ensures
        !a.over_spec(b).nan(),
        a.mag() > 0 ==> a.over_spec(b).negative() == a.negative(),
{
    reveal(Binary64::over_spec);
    if a.finite() {
        lemma_units_order(0, a.mag());
        lemma_units_order(0, b.mag());
        assert(units(a.mag()) * pow2(1074) >= 0) by (nonlinear_arith)
            requires
                units(a.mag()) >= 0,
        ;
        lemma_nearest_exists(
            Exact::Ratio { n: units(a.mag()) * pow2(1074), d: units(b.mag()) },
        );
    }
}

/// A sum of a number and a finite number is a number.
pub proof fn law_sum_is_a_number(a: Binary64, b: Binary64)
    requires
        !a.nan(),
        b.finite(),
    ensures
        !a.plus_spec(b).nan(),
        !a.minus_spec(b).nan(),
{
    lemma_sum_is_a_number(a, b);
    lemma_sum_is_a_number(a, b.neg_spec());
    reveal(Binary64::minus_spec);
}

proof fn lemma_sum_is_a_number(a: Binary64, b: Binary64)
    requires
        !a.nan(),
        b.finite(),
    ensures
        !a.plus_spec(b).nan(),
{
    reveal(Binary64::plus_spec);
    let v = a.value() + b.value();
    if a.finite() && v != 0 {
        let n = if v < 0 {
            -v
        } else {
            v
        };
        lemma_nearest_exists(Exact::Ratio { n, d: 1 });
    }
}

/// A sum of numbers that are not negative is at least as large as either.
pub proof fn law_sum_of_positive_numbers(a: Binary64, b: Binary64)
    requires
        !a.nan() && !a.negative(),
        !b.nan() && !b.negative(),
    ensures
        a.le_spec(a.plus_spec(b)),
        b.le_spec(a.plus_spec(b)),
{
    reveal(Binary64::plus_spec);
    if a.finite() && b.finite() {
        lemma_units_order(0, a.mag());
        lemma_units_order(0, b.mag());
        let v = a.value() + b.value();
        if v != 0 {
            let x = Exact::Ratio { n: v, d: 1 };
            lemma_nearest_exists(x);
            lemma_nearest_at_least(x, a.mag());
            lemma_nearest_at_least(x, b.mag());
        }
    }
}

/// A whole number of nanoseconds that is not zero is not zero seconds either.
pub proof fn law_nanoseconds_count(n: u64)
    requires
        n > 0,
    ensures
        Binary64::zero().lt_spec(Binary64::from_u64_spec(n).over_spec(Binary64::billion())),
{
    law_from_u64_sign(n);
    let a = Binary64::from_u64_spec(n);
    let b = Binary64::billion();
    law_quotient_of_positive_numbers(a, b);
    reveal(Binary64::over_spec);
    if a.finite() {
        lemma_units_of_small_numbers();
        lemma_units_order(Binary64::one().mag(), a.mag());
        lemma_units_order(0, b.mag());
        lemma2_to64();
        lemma_pow2_adds(32, 20);
        lemma_pow2_adds(20, 2);
        let e: nat = 1051;
        let q = b.mag() - e * BINADE;
        lemma_units_of_parts(e, q);
        lemma_pow2_adds(1051, 23);
        lemma_pow2_pos(1051);
        lemma_pow2_pos(1074);
        let p = pow2(1074) as int;
        assert(units(b.mag()) <= p * pow2(30)) by {
            lemma_pow2_adds(1051, 53);
            lemma_pow2_adds(1074, 30);
            lemma_pow2_adds(32, 21);
            assert(q * pow2(1051) <= pow2(53) * pow2(1051)) by (nonlinear_arith)
                requires
                    q <= pow2(53),
            ;
            assert(pow2(53) * pow2(1051) == pow2(1051) * pow2(53)) by (nonlinear_arith);
        }
        lemma_pow2_adds(30, 1044);
        lemma_pow2_pos(1044);
        assert(pow2(30) <= p) by (nonlinear_arith)
            requires
                p == pow2(30) * pow2(1044),
                pow2(1044) >= 1,
        ;
        let n0 = units(a.mag()) * p;
        let d0 = units(b.mag());
        assert(n0 >= d0) by (nonlinear_arith)
            requires
                n0 == units(a.mag()) * p,
                units(a.mag()) >= p,
                p >= pow2(30),
                d0 <= p * pow2(30),
                p >= 0,
        ;
        let x = Exact::Ratio { n: n0, d: d0 };
        lemma_units_of_parts(0, 1);
        assert(pow2(0) == 1);
        assert(units(1) == 1);
        assert(excess(x, 2 * units(1)) >= 0);
        lemma_nearest_at_least(x, 1);
        lemma_nearest_exists(x);
        assert(a.over_spec(b) == signed(false, nearest(x)));
    }
}

/// Zero divided by a positive finite number is zero.
pub proof fn law_zero_over(b: Binary64)
    requires
        b.finite(),
        b.rank() > 0,
    ensures
        Binary64::zero().over_spec(b) == Binary64::zero(),
{
    reveal(Binary64::over_spec);
    lemma_units_order(0, b.mag());
    lemma_units_of_parts(0, 0);
    assert(units(0) * pow2(1074) == 0) by (nonlinear_arith)
        requires
            units(0) == 0,
    ;
    lemma_exact_values_stay(0, Exact::Ratio { n: units(0) * pow2(1074), d: units(b.mag()) });
}

/// Zero plus zero is zero.
pub proof fn law_zero_plus_zero()
    ensures
        Binary64::zero().plus_spec(Binary64::zero()) == Binary64::zero(),
{
    reveal(Binary64::plus_spec);
    lemma_units_of_parts(0, 0);
}

/// Every whole number of 64 bits rounds to a finite number.
pub proof fn law_from_u64_is_finite(n: u64)
    ensures
        Binary64::from_u64_spec(n).finite(),
{
    reveal(Binary64::from_u64_spec);
    lemma2_to64();
    lemma_pow2_adds(32, 20);
    lemma_pow2_adds(52, 1086);
    lemma_pow2_adds(64, 1074);
    let e: nat = 1086;
    let m = e * BINADE + BINADE;
    lemma_units_of_parts(e, BINADE as int);
    let x = Exact::Ratio { n: n * pow2(1074), d: 1 };
    assert(n * pow2(1074) >= 0) by (nonlinear_arith);
    assert(n * pow2(1074) <= pow2(64) * pow2(1074)) by (nonlinear_arith)
        requires
            n <= pow2(64),
    ;
    lemma_nearest_exists(x);
    lemma_nearest_at_most(x, m);
}

} // verus!
