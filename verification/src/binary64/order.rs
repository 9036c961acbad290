//! Sign and order of doubles.
use vstd::prelude::*;
use vstd::std_specs::cmp::PartialEqSpecImpl;

use super::rounding::lemma_units_order;
use super::{Binary64, INFINITY_MAG, SIGN_BIT};

verus! {

impl Binary64 {
    /// The number with the given bit pattern.
    pub fn from_bits(bits: u64) -> (r: Binary64)
        ensures
            r.bits == bits,
    {
        Binary64 { bits }
    }

    /// The bit pattern.
    pub fn to_bits(self) -> (r: u64)
        ensures
            r == self.bits,
    {
        self.bits
    }

    /// Whether the sign bit is set.
    pub fn is_sign_negative(self) -> (r: bool)
        ensures
            r == self.negative(),
    {
        self.bits >= SIGN_BIT
    }

    /// The pattern without its sign bit.
    pub fn magnitude(self) -> (r: u64)
        ensures
            r == self.mag(),
            r < SIGN_BIT,
    {
        if self.bits >= SIGN_BIT {
            self.bits - SIGN_BIT
        } else {
            self.bits
        }
    }

    /// Whether this is not a number.
    pub fn is_nan(self) -> (r: bool)
        ensures
            r == self.nan(),
    {
        self.magnitude() > INFINITY_MAG
    }

    /// Whether this is a real number.
    pub fn is_finite(self) -> (r: bool)
        ensures
            r == self.finite(),
    {
        self.magnitude() < INFINITY_MAG
    }

    /// `self < other`; false if either is not a number.
    pub fn lt(self, other: Binary64) -> (r: bool)
        ensures
            r == self.lt_spec(other),
    {
        let a: u64 = self.magnitude();
        let b: u64 = other.magnitude();
        if a > INFINITY_MAG || b > INFINITY_MAG {
            false
        } else if self.is_sign_negative() {
            if other.is_sign_negative() {
                a > b
            } else {
                a > 0 || b > 0
            }
        } else if other.is_sign_negative() {
            false
        } else {
            a < b
        }
    }

    /// `self <= other`; false if either is not a number.
    pub fn le(self, other: Binary64) -> (r: bool)
        ensures
            r == self.le_spec(other),
    {
        !self.is_nan() && !other.is_nan() && !other.lt(self)
    }

    /// `self > other`; false if either is not a number.
    pub fn gt(self, other: Binary64) -> (r: bool)
        ensures
            r == other.lt_spec(self),
    {
        other.lt(self)
    }

    /// `self >= other`; false if either is not a number.
    pub fn ge(self, other: Binary64) -> (r: bool)
        ensures
            r == other.le_spec(self),
    {
        other.le(self)
    }

    /// The size of `self`.
    pub fn abs(self) -> (r: Binary64)
        ensures
            r == self.abs_spec(),
    {
        Binary64 { bits: self.magnitude() }
    }

    /// `self` with the other sign.
    pub fn neg(self) -> (r: Binary64)
        ensures
            r == self.neg_spec(),
    {
        if self.is_sign_negative() {
            Binary64 { bits: self.bits - SIGN_BIT }
        } else {
            Binary64 { bits: self.bits + SIGN_BIT }
        }
    }

    /// The larger of two numbers; the other one where one is not a number.
    pub fn max(self, other: Binary64) -> (r: Binary64)
        ensures
            r == self.max_spec(other),
    {
        if self.is_nan() || self.lt(other) {
            other
        } else {
            self
        }
    }

    /// The smaller of two numbers; the other one where one is not a number.
    pub fn min(self, other: Binary64) -> (r: Binary64)
        ensures
            r == self.min_spec(other),
    {
        if self.is_nan() || other.lt(self) {
            other
        } else {
            self
        }
    }

    /// `self` moved into `[low, high]`; not-a-number stays as it is.
    pub fn clamp(self, low: Binary64, high: Binary64) -> (r: Binary64)
        requires
            low.le_spec(high),
        ensures
            r == self.clamp_spec(low, high),
    {
        if self.lt(low) {
            low
        } else if high.lt(self) {
            high
        } else {
            self
        }
    }
}

impl PartialEq for Binary64 {
    /// Equality of numbers: both zeros are equal, and not-a-number equals nothing.
    fn eq(&self, other: &Self) -> (r: bool) {
        let a: u64 = self.magnitude();
        let b: u64 = other.magnitude();
        a <= INFINITY_MAG && b <= INFINITY_MAG && (self.bits == other.bits || (a == 0 && b == 0))
    }
}

impl PartialEqSpecImpl for Binary64 {
    open spec fn obeys_eq_spec() -> bool {
        true
    }

    open spec fn eq_spec(&self, other: &Self) -> bool {
        !self.nan() && !other.nan() && self.rank() == other.rank()
    }
}

/// The order of finite doubles is the order of the numbers they stand for.
pub proof fn law_order_is_numeric(a: Binary64, b: Binary64)
    requires
        a.finite(),
        b.finite(),
    ensures
        a.lt_spec(b) <==> a.value() < b.value(),
        a.le_spec(b) <==> a.value() <= b.value(),
{
    lemma_units_order(a.mag(), b.mag());
    lemma_units_order(b.mag(), a.mag());
    lemma_units_order(0, a.mag());
    lemma_units_order(0, b.mag());
}

} // verus!
