//! The constants that the detectors use.
use vstd::arithmetic::power2::{lemma2_to64, lemma_pow2_adds, lemma_pow2_pos, lemma_pow2_unfold, pow2};
use vstd::prelude::*;

use super::rounding::{lemma_units_of_parts, lemma_units_order};
use super::{is_nearest, units, Binary64, Exact, BINADE};

verus! {

impl Binary64 {
    /// 0.0
    #[verifier::allow_in_spec]
    pub fn zero() -> Binary64
        returns
            (Binary64 { bits: 0 }),
    {
        Binary64 { bits: 0 }
    }

    /// 1.0
    #[verifier::allow_in_spec]
    pub fn one() -> Binary64
        returns
            (Binary64 { bits: 0x3ff0_0000_0000_0000 }),
    {
        Binary64 { bits: 0x3ff0_0000_0000_0000 }
    }

    /// 2.0
    #[verifier::allow_in_spec]
    pub fn two() -> Binary64
        returns
            (Binary64 { bits: 0x4000_0000_0000_0000 }),
    {
        Binary64 { bits: 0x4000_0000_0000_0000 }
    }

    /// 3.0
    #[verifier::allow_in_spec]
    pub fn three() -> Binary64
        returns
            (Binary64 { bits: 0x4008_0000_0000_0000 }),
    {
        Binary64 { bits: 0x4008_0000_0000_0000 }
    }

    /// 6.0
    #[verifier::allow_in_spec]
    pub fn six() -> Binary64
        returns
            (Binary64 { bits: 0x4018_0000_0000_0000 }),
    {
        Binary64 { bits: 0x4018_0000_0000_0000 }
    }

    /// 10.0
    #[verifier::allow_in_spec]
    pub fn ten() -> Binary64
        returns
            (Binary64 { bits: 0x4024_0000_0000_0000 }),
    {
        Binary64 { bits: 0x4024_0000_0000_0000 }
    }

    /// 100.0
    #[verifier::allow_in_spec]
    pub fn hundred() -> Binary64
        returns
            (Binary64 { bits: 0x4059_0000_0000_0000 }),
    {
        Binary64 { bits: 0x4059_0000_0000_0000 }
    }

    /// 1e9
    #[verifier::allow_in_spec]
    pub fn billion() -> Binary64
        returns
            (Binary64 { bits: 0x41cd_cd65_0000_0000 }),
    {
        Binary64 { bits: 0x41cd_cd65_0000_0000 }
    }

    /// 1e-3
    #[verifier::allow_in_spec]
    pub fn thousandth() -> Binary64
        returns
            (Binary64 { bits: 0x3f50_624d_d2f1_a9fc }),
    {
        Binary64 { bits: 0x3f50_624d_d2f1_a9fc }
    }

    /// 1e-6
    #[verifier::allow_in_spec]
    pub fn millionth() -> Binary64
        returns
            (Binary64 { bits: 0x3eb0_c6f7_a0b5_ed8d }),
    {
        Binary64 { bits: 0x3eb0_c6f7_a0b5_ed8d }
    }

    /// 1e-9
    #[verifier::allow_in_spec]
    pub fn billionth() -> Binary64
        returns
            (Binary64 { bits: 0x3e11_2e0b_e826_d695 }),
    {
        Binary64 { bits: 0x3e11_2e0b_e826_d695 }
    }

    /// 0.25
    #[verifier::allow_in_spec]
    pub fn quarter() -> Binary64
        returns
            (Binary64 { bits: 0x3fd0_0000_0000_0000 }),
    {
        Binary64 { bits: 0x3fd0_0000_0000_0000 }
    }

    /// 0.4
    #[verifier::allow_in_spec]
    pub fn two_fifths() -> Binary64
        returns
            (Binary64 { bits: 0x3fd9_9999_9999_999a }),
    {
        Binary64 { bits: 0x3fd9_9999_9999_999a }
    }

    /// 0.6
    #[verifier::allow_in_spec]
    pub fn three_fifths() -> Binary64
        returns
            (Binary64 { bits: 0x3fe3_3333_3333_3333 }),
    {
        Binary64 { bits: 0x3fe3_3333_3333_3333 }
    }

    /// 1.4826, the ratio of standard deviation to mean absolute deviation that
    /// the robust estimate assumes.
    #[verifier::allow_in_spec]
    pub fn mad_factor() -> Binary64
        returns
            (Binary64 { bits: 0x3ff7_b8ba_c710_cb29 }),
    {
        Binary64 { bits: 0x3ff7_b8ba_c710_cb29 }
    }
}

/// The whole constants are the numbers that they are named after.
pub proof fn law_whole_constants()
    ensures
        Binary64::zero().value() == 0,
        Binary64::one().value() == 1 * pow2(1074),
        Binary64::two().value() == 2 * pow2(1074),
        Binary64::three().value() == 3 * pow2(1074),
        Binary64::six().value() == 6 * pow2(1074),
        Binary64::ten().value() == 10 * pow2(1074),
        Binary64::hundred().value() == 100 * pow2(1074),
        Binary64::billion().value() == 1000000000 * pow2(1074),
{
    lemma_whole_one();
    lemma_whole_two();
    lemma_whole_three();
    lemma_whole_six();
    lemma_whole_ten();
    lemma_whole_hundred();
    lemma_whole_billion();
}

proof fn lemma_whole_one()
    ensures
        Binary64::one().value() == 1 * pow2(1074),
{
    lemma2_to64();
    lemma_pow2_adds(32, 20);
    lemma_pow2_adds(52, 1022);
    lemma_units_of_parts(1022, 4503599627370496);
    assert(1022 * BINADE + 4503599627370496 == Binary64::one().mag());
    assert(4503599627370496 * pow2(1022) == 1 * (4503599627370496 * pow2(1022))) by (nonlinear_arith);
}

proof fn lemma_whole_two()
    ensures
        Binary64::two().value() == 2 * pow2(1074),
{
    lemma2_to64();
    lemma_pow2_adds(32, 19);
    lemma_pow2_adds(51, 1023);
    lemma_units_of_parts(1023, 4503599627370496);
    assert(1023 * BINADE + 4503599627370496 == Binary64::two().mag());
    assert(4503599627370496 * pow2(1023) == 2 * (2251799813685248 * pow2(1023))) by (nonlinear_arith);
}

proof fn lemma_whole_three()
    ensures
        Binary64::three().value() == 3 * pow2(1074),
{
    lemma2_to64();
    lemma_pow2_adds(32, 19);
    lemma_pow2_adds(51, 1023);
    lemma_units_of_parts(1023, 6755399441055744);
    assert(1023 * BINADE + 6755399441055744 == Binary64::three().mag());
    assert(6755399441055744 * pow2(1023) == 3 * (2251799813685248 * pow2(1023))) by (nonlinear_arith);
}

proof fn lemma_whole_six()
    ensures
        Binary64::six().value() == 6 * pow2(1074),
{
    lemma2_to64();
    lemma_pow2_adds(32, 18);
    lemma_pow2_adds(50, 1024);
    lemma_units_of_parts(1024, 6755399441055744);
    assert(1024 * BINADE + 6755399441055744 == Binary64::six().mag());
    assert(6755399441055744 * pow2(1024) == 6 * (1125899906842624 * pow2(1024))) by (nonlinear_arith);
}

proof fn lemma_whole_ten()
    ensures
        Binary64::ten().value() == 10 * pow2(1074),
{
    lemma2_to64();
    lemma_pow2_adds(32, 17);
    lemma_pow2_adds(49, 1025);
    lemma_units_of_parts(1025, 5629499534213120);
    assert(1025 * BINADE + 5629499534213120 == Binary64::ten().mag());
    assert(5629499534213120 * pow2(1025) == 10 * (562949953421312 * pow2(1025))) by (nonlinear_arith);
}

proof fn lemma_whole_hundred()
    ensures
        Binary64::hundred().value() == 100 * pow2(1074),
{
    lemma2_to64();
    lemma_pow2_adds(32, 14);
    lemma_pow2_adds(46, 1028);
    lemma_units_of_parts(1028, 7036874417766400);
    assert(1028 * BINADE + 7036874417766400 == Binary64::hundred().mag());
    assert(7036874417766400 * pow2(1028) == 100 * (70368744177664 * pow2(1028))) by (nonlinear_arith);
}

proof fn lemma_whole_billion()
    ensures
        Binary64::billion().value() == 1000000000 * pow2(1074),
{
    lemma2_to64();
    lemma_pow2_adds(23, 1051);
    lemma_units_of_parts(1051, 8388608000000000);
    assert(1051 * BINADE + 8388608000000000 == Binary64::billion().mag());
    assert(8388608000000000 * pow2(1051) == 1000000000 * (8388608 * pow2(1051))) by (nonlinear_arith);
}

/// The other constants are the doubles nearest to the numbers that they are named after.
pub proof fn law_fractional_constants()
    ensures
        is_nearest(Exact::Ratio { n: 1 * pow2(1074) as int, d: 1000 }, Binary64::thousandth().mag()),
        !Binary64::thousandth().negative(),
        is_nearest(Exact::Ratio { n: 1 * pow2(1074) as int, d: 1000000 }, Binary64::millionth().mag()),
        !Binary64::millionth().negative(),
        is_nearest(Exact::Ratio { n: 1 * pow2(1074) as int, d: 1000000000 }, Binary64::billionth().mag()),
        !Binary64::billionth().negative(),
        is_nearest(Exact::Ratio { n: 1 * pow2(1074) as int, d: 4 }, Binary64::quarter().mag()),
        !Binary64::quarter().negative(),
        is_nearest(Exact::Ratio { n: 4 * pow2(1074) as int, d: 10 }, Binary64::two_fifths().mag()),
        !Binary64::two_fifths().negative(),
        is_nearest(Exact::Ratio { n: 6 * pow2(1074) as int, d: 10 }, Binary64::three_fifths().mag()),
        !Binary64::three_fifths().negative(),
        is_nearest(Exact::Ratio { n: 14826 * pow2(1074) as int, d: 10000 }, Binary64::mad_factor().mag()),
        !Binary64::mad_factor().negative(),
{
    lemma_fraction_thousandth();
    lemma_fraction_millionth();
    lemma_fraction_billionth();
    lemma_fraction_quarter();
    lemma_fraction_two_fifths();
    lemma_fraction_three_fifths();
    lemma_fraction_mad_factor();
}

proof fn lemma_fraction_thousandth()
    ensures
        is_nearest(Exact::Ratio { n: 1 * pow2(1074) as int, d: 1000 }, Binary64::thousandth().mag()),
{
    lemma2_to64();
    lemma_pow2_adds(32, 30);
    lemma_pow2_adds(62, 1012);
    lemma_pow2_pos(1012);
    lemma_units_of_parts(1012, 4611686018427388);
    lemma_units_of_parts(1012, 4611686018427389);
    lemma_units_of_parts(1012, 4611686018427387);
    let m = Binary64::thousandth().mag();
    let h = pow2(1012) as int;
    assert(1012 * BINADE + 4611686018427388 == m);
    assert(pow2(1074) == 4611686018427387904 * h);
    assert(units(m) == 4611686018427388 * h);
    assert(units(m + 1) == 4611686018427389 * h);
    assert(units(m - 1) == 4611686018427387 * h);
    assert((units(m - 1) + units(m)) * 1000 < 2 * (1 * (4611686018427387904 * h))) by (nonlinear_arith)
        requires
            units(m) == 4611686018427388 * h,
            units(m - 1) == 4611686018427387 * h,
            h > 0,
    ;
    assert((units(m) + units(m + 1)) * 1000 > 2 * (1 * (4611686018427387904 * h))) by (nonlinear_arith)
        requires
            units(m) == 4611686018427388 * h,
            units(m + 1) == 4611686018427389 * h,
            h > 0,
    ;
}

proof fn lemma_fraction_millionth()
    ensures
        is_nearest(Exact::Ratio { n: 1 * pow2(1074) as int, d: 1000000 }, Binary64::millionth().mag()),
{
    lemma2_to64();
    lemma_pow2_adds(64, 8);
    lemma_pow2_adds(72, 1002);
    lemma_pow2_pos(1002);
    lemma_units_of_parts(1002, 4722366482869645);
    lemma_units_of_parts(1002, 4722366482869646);
    lemma_units_of_parts(1002, 4722366482869644);
    let m = Binary64::millionth().mag();
    let h = pow2(1002) as int;
    assert(1002 * BINADE + 4722366482869645 == m);
    assert(pow2(1074) == 4722366482869645213696 * h);
    assert(units(m) == 4722366482869645 * h);
    assert(units(m + 1) == 4722366482869646 * h);
    assert(units(m - 1) == 4722366482869644 * h);
    assert((units(m - 1) + units(m)) * 1000000 < 2 * (1 * (4722366482869645213696 * h))) by (nonlinear_arith)
        requires
            units(m) == 4722366482869645 * h,
            units(m - 1) == 4722366482869644 * h,
            h > 0,
    ;
    assert((units(m) + units(m + 1)) * 1000000 > 2 * (1 * (4722366482869645213696 * h))) by (nonlinear_arith)
        requires
            units(m) == 4722366482869645 * h,
            units(m + 1) == 4722366482869646 * h,
            h > 0,
    ;
}

proof fn lemma_fraction_billionth()
    ensures
        is_nearest(Exact::Ratio { n: 1 * pow2(1074) as int, d: 1000000000 }, Binary64::billionth().mag()),
{
    lemma2_to64();
    lemma_pow2_adds(64, 18);
    lemma_pow2_adds(82, 992);
    lemma_pow2_pos(992);
    lemma_units_of_parts(992, 4835703278458517);
    lemma_units_of_parts(992, 4835703278458518);
    lemma_units_of_parts(992, 4835703278458516);
    let m = Binary64::billionth().mag();
    let h = pow2(992) as int;
    assert(992 * BINADE + 4835703278458517 == m);
    assert(pow2(1074) == 4835703278458516698824704 * h);
    assert(units(m) == 4835703278458517 * h);
    assert(units(m + 1) == 4835703278458518 * h);
    assert(units(m - 1) == 4835703278458516 * h);
    assert((units(m - 1) + units(m)) * 1000000000 < 2 * (1 * (4835703278458516698824704 * h))) by (nonlinear_arith)
        requires
            units(m) == 4835703278458517 * h,
            units(m - 1) == 4835703278458516 * h,
            h > 0,
    ;
    assert((units(m) + units(m + 1)) * 1000000000 > 2 * (1 * (4835703278458516698824704 * h))) by (nonlinear_arith)
        requires
            units(m) == 4835703278458517 * h,
            units(m + 1) == 4835703278458518 * h,
            h > 0,
    ;
}

proof fn lemma_fraction_quarter()
    ensures
        is_nearest(Exact::Ratio { n: 1 * pow2(1074) as int, d: 4 }, Binary64::quarter().mag()),
{
    lemma2_to64();
    lemma_pow2_adds(32, 22);
    lemma_pow2_adds(54, 1020);
    lemma_pow2_pos(1020);
    lemma_units_of_parts(1020, 4503599627370496);
    lemma_units_of_parts(1020, 4503599627370497);
    lemma_units_of_parts(1019, 9007199254740991);
    lemma_pow2_unfold(1020);
    lemma_units_order(1020 * BINADE + 4503599627370496 - 1, 1020 * BINADE + 4503599627370496);
    let m = Binary64::quarter().mag();
    let h = pow2(1020) as int;
    assert(1020 * BINADE + 4503599627370496 == m);
    assert(pow2(1074) == 18014398509481984 * h);
    assert(units(m) == 4503599627370496 * h);
    assert(units(m + 1) == 4503599627370497 * h);
    assert(units(m - 1) < 4503599627370496 * h);
    assert((units(m - 1) + units(m)) * 4 < 2 * (1 * (18014398509481984 * h))) by (nonlinear_arith)
        requires
            units(m) == 4503599627370496 * h,
            units(m - 1) < 4503599627370496 * h,
            h > 0,
    ;
    assert((units(m) + units(m + 1)) * 4 > 2 * (1 * (18014398509481984 * h))) by (nonlinear_arith)
        requires
            units(m) == 4503599627370496 * h,
            units(m + 1) == 4503599627370497 * h,
            h > 0,
    ;
}

proof fn lemma_fraction_two_fifths()
    ensures
        is_nearest(Exact::Ratio { n: 4 * pow2(1074) as int, d: 10 }, Binary64::two_fifths().mag()),
{
    lemma2_to64();
    lemma_pow2_adds(32, 22);
    lemma_pow2_adds(54, 1020);
    lemma_pow2_pos(1020);
    lemma_units_of_parts(1020, 7205759403792794);
    lemma_units_of_parts(1020, 7205759403792795);
    lemma_units_of_parts(1020, 7205759403792793);
    let m = Binary64::two_fifths().mag();
    let h = pow2(1020) as int;
    assert(1020 * BINADE + 7205759403792794 == m);
    assert(pow2(1074) == 18014398509481984 * h);
    assert(units(m) == 7205759403792794 * h);
    assert(units(m + 1) == 7205759403792795 * h);
    assert(units(m - 1) == 7205759403792793 * h);
    assert((units(m - 1) + units(m)) * 10 < 2 * (4 * (18014398509481984 * h))) by (nonlinear_arith)
        requires
            units(m) == 7205759403792794 * h,
            units(m - 1) == 7205759403792793 * h,
            h > 0,
    ;
    assert((units(m) + units(m + 1)) * 10 > 2 * (4 * (18014398509481984 * h))) by (nonlinear_arith)
        requires
            units(m) == 7205759403792794 * h,
            units(m + 1) == 7205759403792795 * h,
            h > 0,
    ;
}

proof fn lemma_fraction_three_fifths()
    ensures
        is_nearest(Exact::Ratio { n: 6 * pow2(1074) as int, d: 10 }, Binary64::three_fifths().mag()),
{
    lemma2_to64();
    lemma_pow2_adds(32, 21);
    lemma_pow2_adds(53, 1021);
    lemma_pow2_pos(1021);
    lemma_units_of_parts(1021, 5404319552844595);
    lemma_units_of_parts(1021, 5404319552844596);
    lemma_units_of_parts(1021, 5404319552844594);
    let m = Binary64::three_fifths().mag();
    let h = pow2(1021) as int;
    assert(1021 * BINADE + 5404319552844595 == m);
    assert(pow2(1074) == 9007199254740992 * h);
    assert(units(m) == 5404319552844595 * h);
    assert(units(m + 1) == 5404319552844596 * h);
    assert(units(m - 1) == 5404319552844594 * h);
    assert((units(m - 1) + units(m)) * 10 < 2 * (6 * (9007199254740992 * h))) by (nonlinear_arith)
        requires
            units(m) == 5404319552844595 * h,
            units(m - 1) == 5404319552844594 * h,
            h > 0,
    ;
    assert((units(m) + units(m + 1)) * 10 > 2 * (6 * (9007199254740992 * h))) by (nonlinear_arith)
        requires
            units(m) == 5404319552844595 * h,
            units(m + 1) == 5404319552844596 * h,
            h > 0,
    ;
}

proof fn lemma_fraction_mad_factor()
    ensures
        is_nearest(Exact::Ratio { n: 14826 * pow2(1074) as int, d: 10000 }, Binary64::mad_factor().mag()),
{
    lemma2_to64();
    lemma_pow2_adds(32, 20);
    lemma_pow2_adds(52, 1022);
    lemma_pow2_pos(1022);
    lemma_units_of_parts(1022, 6677036807539497);
    lemma_units_of_parts(1022, 6677036807539498);
    lemma_units_of_parts(1022, 6677036807539496);
    let m = Binary64::mad_factor().mag();
    let h = pow2(1022) as int;
    assert(1022 * BINADE + 6677036807539497 == m);
    assert(pow2(1074) == 4503599627370496 * h);
    assert(units(m) == 6677036807539497 * h);
    assert(units(m + 1) == 6677036807539498 * h);
    assert(units(m - 1) == 6677036807539496 * h);
    assert((units(m - 1) + units(m)) * 10000 < 2 * (14826 * (4503599627370496 * h))) by (nonlinear_arith)
        requires
            units(m) == 6677036807539497 * h,
            units(m - 1) == 6677036807539496 * h,
            h > 0,
    ;
    assert((units(m) + units(m + 1)) * 10000 > 2 * (14826 * (4503599627370496 * h))) by (nonlinear_arith)
        requires
            units(m) == 6677036807539497 * h,
            units(m + 1) == 6677036807539498 * h,
            h > 0,
    ;
}

} // verus!
