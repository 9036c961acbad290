//! Double-precision numbers as values the verifier can reason about.
//!
//! A [`Binary64`] is the 64-bit pattern of an IEEE 754 double. Every finite
//! double is a whole number of *units* of 2^-1074, so the specification below
//! needs only integers: [`units`] gives the size of a magnitude, and
//! [`is_nearest`] says which magnitude an exact result rounds to (the nearest
//! one, and the even one of two equally near).
use vstd::arithmetic::power2::pow2;
use vstd::prelude::*;

pub mod arith;
pub mod bounds;
pub mod constants;
pub mod laws;
pub mod order;
pub mod rounding;

verus! {

/// Magnitude of infinity; larger magnitudes are not numbers.
pub const INFINITY_MAG: u64 = 0x7ff0_0000_0000_0000;

/// The bit that tells negative from positive.
pub const SIGN_BIT: u64 = 0x8000_0000_0000_0000;

/// Number of magnitudes in one binade: 2^52.
pub const BINADE: u64 = 0x10_0000_0000_0000;

/// An IEEE 754 double-precision number, held as its bit pattern.
#[derive(Clone, Copy, Debug)]
pub struct Binary64 {
    pub bits: u64,
}

/// Size of the magnitude `m`, in units of 2^-1074.
pub open spec fn units(m: int) -> int {
    if m < BINADE {
        m
    } else {
        (BINADE + m % (BINADE as int)) * pow2((m / (BINADE as int) - 1) as nat)
    }
}

/// A non-negative real number, in units of 2^-1074.
pub enum Exact {
    /// `n / d`, with `d` positive.
    Ratio { n: int, d: int },
    /// The square root of `n`.
    Root { n: int },
}

/// A number whose sign is that of `2 * x - t`.
pub open spec fn excess(x: Exact, t: int) -> int {
    match x {
        Exact::Ratio { n, d } => 2 * n - t * d,
        Exact::Root { n } => 4 * n - t * t,
    }
}

/// Whether `x` rounds to the magnitude `m`: `x` lies between the midpoints that
/// part `m` from its two neighbours, and lies on one of them only if `m` is even.
/// Infinity counts as the magnitude after the largest finite one.
pub open spec fn is_nearest(x: Exact, m: int) -> bool {
    &&& 0 <= m <= INFINITY_MAG
    &&& m > 0 ==> {
        ||| excess(x, units(m - 1) + units(m)) > 0
        ||| excess(x, units(m - 1) + units(m)) == 0 && m % 2 == 0
    }
    &&& m < INFINITY_MAG ==> {
        ||| excess(x, units(m) + units(m + 1)) < 0
        ||| excess(x, units(m) + units(m + 1)) == 0 && m % 2 == 0
    }
}

/// The magnitude that `x` rounds to.
pub open spec fn nearest(x: Exact) -> int {
    choose|m: int| is_nearest(x, m)
}

/// The number with the given sign and magnitude.
pub open spec fn signed(negative: bool, m: int) -> Binary64 {
    Binary64 {
        bits: if negative {
            (SIGN_BIT + m) as u64
        } else {
            m as u64
        },
    }
}

/// The result of every invalid operation.
pub open spec fn not_a_number() -> Binary64 {
    Binary64 { bits: 0x7ff8_0000_0000_0000 }
}

impl Binary64 {
    /// Whether the sign bit is set.
    pub open spec fn negative(self) -> bool {
        self.bits >= SIGN_BIT
    }

    /// The pattern without its sign bit.
    pub open spec fn mag(self) -> int {
        if self.bits >= SIGN_BIT {
            self.bits - SIGN_BIT
        } else {
            self.bits as int
        }
    }

    /// Whether this is not a number.
    pub open spec fn nan(self) -> bool {
        self.mag() > INFINITY_MAG
    }

    /// Whether this is one of the two infinities.
    pub open spec fn infinite(self) -> bool {
        self.mag() == INFINITY_MAG
    }

    /// Whether this is a real number.
    pub open spec fn finite(self) -> bool {
        self.mag() < INFINITY_MAG
    }

    /// The exact value of a finite number, in units of 2^-1074.
    pub open spec fn value(self) -> int {
        if self.negative() {
            -units(self.mag())
        } else {
            units(self.mag())
        }
    }

    /// Position on the extended number line; both zeros are at 0.
    pub open spec fn rank(self) -> int {
        if self.negative() {
            -self.mag()
        } else {
            self.mag()
        }
    }

    /// `self < other` as IEEE 754 compares: false if either is not a number.
    pub open spec fn lt_spec(self, other: Binary64) -> bool {
        !self.nan() && !other.nan() && self.rank() < other.rank()
    }

    /// `self <= other` as IEEE 754 compares.
    pub open spec fn le_spec(self, other: Binary64) -> bool {
        !self.nan() && !other.nan() && self.rank() <= other.rank()
    }

    /// The magnitude of `self`, as a positive number.
    pub open spec fn abs_spec(self) -> Binary64 {
        signed(false, self.mag())
    }

    /// `self` with the other sign.
    pub open spec fn neg_spec(self) -> Binary64 {
        signed(!self.negative(), self.mag())
    }

    /// The larger of two numbers; the other one where one is not a number.
    pub open spec fn max_spec(self, other: Binary64) -> Binary64 {
        if self.nan() || self.lt_spec(other) {
            other
        } else {
            self
        }
    }

    /// The smaller of two numbers; the other one where one is not a number.
    pub open spec fn min_spec(self, other: Binary64) -> Binary64 {
        if self.nan() || other.lt_spec(self) {
            other
        } else {
            self
        }
    }

    /// `self` moved into `[low, high]`; not-a-number stays as it is.
    pub open spec fn clamp_spec(self, low: Binary64, high: Binary64) -> Binary64 {
        if self.lt_spec(low) {
            low
        } else if high.lt_spec(self) {
            high
        } else {
            self
        }
    }

    /// The correctly rounded sum.
    #[verifier::opaque]
    pub open spec fn plus_spec(self, other: Binary64) -> Binary64 {
        if self.nan() || other.nan() {
            not_a_number()
        } else if self.infinite() {
            if other.infinite() && self.negative() != other.negative() {
                not_a_number()
            } else {
                self
            }
        } else if other.infinite() {
            other
        } else {
            let v = self.value() + other.value();
            if v == 0 {
                signed(self.negative() && other.negative(), 0)
            } else if v < 0 {
                signed(true, nearest(Exact::Ratio { n: -v, d: 1 }))
            } else {
                signed(false, nearest(Exact::Ratio { n: v, d: 1 }))
            }
        }
    }

    /// The correctly rounded difference.
    #[verifier::opaque]
    pub open spec fn minus_spec(self, other: Binary64) -> Binary64 {
        if other.nan() {
            not_a_number()
        } else {
            self.plus_spec(other.neg_spec())
        }
    }

    /// The correctly rounded product.
    #[verifier::opaque]
    pub open spec fn times_spec(self, other: Binary64) -> Binary64 {
        let negative = self.negative() != other.negative();
        if self.nan() || other.nan() {
            not_a_number()
        } else if self.infinite() || other.infinite() {
            if self.mag() == 0 || other.mag() == 0 {
                not_a_number()
            } else {
                signed(negative, INFINITY_MAG as int)
            }
        } else {
            signed(
                negative,
                nearest(
                    Exact::Ratio {
                        n: units(self.mag()) * units(other.mag()),
                        d: pow2(1074) as int,
                    },
                ),
            )
        }
    }

    /// The correctly rounded quotient.
    #[verifier::opaque]
    pub open spec fn over_spec(self, other: Binary64) -> Binary64 {
        let negative = self.negative() != other.negative();
        if self.nan() || other.nan() {
            not_a_number()
        } else if self.infinite() {
            if other.infinite() {
                not_a_number()
            } else {
                signed(negative, INFINITY_MAG as int)
            }
        } else if other.infinite() {
            signed(negative, 0)
        } else if other.mag() == 0 {
            if self.mag() == 0 {
                not_a_number()
            } else {
                signed(negative, INFINITY_MAG as int)
            }
        } else {
            signed(
                negative,
                nearest(
                    Exact::Ratio {
                        n: units(self.mag()) * pow2(1074),
                        d: units(other.mag()),
                    },
                ),
            )
        }
    }

    /// The correctly rounded square root.
    #[verifier::opaque]
    pub open spec fn sqrt_spec(self) -> Binary64 {
        if self.nan() {
            not_a_number()
        } else if self.mag() == 0 {
            self
        } else if self.negative() {
            not_a_number()
        } else if self.infinite() {
            self
        } else {
            signed(false, nearest(Exact::Root { n: units(self.mag()) * pow2(1074) }))
        }
    }

    /// The double nearest to a whole number.
    #[verifier::opaque]
    pub open spec fn from_u64_spec(n: u64) -> Binary64 {
        signed(false, nearest(Exact::Ratio { n: n * pow2(1074), d: 1 }))
    }
}

} // verus!
