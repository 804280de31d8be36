//! Exact rational scalars.
//!
//! The engine never uses machine floating point: every coordinate, scale
//! factor and force component is a rational number held as a numerator and a
//! positive denominator.  `Ratio` is the mathematical model (unbounded
//! integers); `Rational` is the executable value.

use vstd::prelude::*;

verus! {

/// Mathematical model of a rational number: an unbounded numerator over an
/// unbounded denominator.  A value is well formed when its denominator is
/// positive; equality of values is cross-multiplication, so two well-formed
/// ratios may be equivalent without being identical.
pub struct Ratio {
    pub num: int,
    pub den: int,
}

impl Ratio {
    /// A well-formed ratio has a positive denominator.
    pub open spec fn wf(self) -> bool {
        self.den > 0
    }

    /// The whole number `n`, as a ratio.
    pub open spec fn from_int(n: int) -> Ratio {
        Ratio { num: n, den: 1 }
    }

    /// `self` and `other` denote the same rational number.
    pub open spec fn equiv(self, other: Ratio) -> bool {
        self.num * other.den == other.num * self.den
    }

    /// `self <= other`, read as rational numbers (both well formed).
    pub open spec fn lte(self, other: Ratio) -> bool {
        self.num * other.den <= other.num * self.den
    }

    /// Exact product.
    pub open spec fn times(self, other: Ratio) -> Ratio {
        Ratio { num: self.num * other.num, den: self.den * other.den }
    }

    /// Exact sum.
    pub open spec fn plus(self, other: Ratio) -> Ratio {
        Ratio { num: self.num * other.den + other.num * self.den, den: self.den * other.den }
    }

    /// Exact difference.
    pub open spec fn minus(self, other: Ratio) -> Ratio {
        Ratio { num: self.num * other.den - other.num * self.den, den: self.den * other.den }
    }

    /// Absolute value.
    pub open spec fn abs_val(self) -> Ratio {
        Ratio { num: if self.num >= 0 { self.num } else { -self.num }, den: self.den }
    }

    /// Exact half.
    pub open spec fn half(self) -> Ratio {
        Ratio { num: self.num, den: 2 * self.den }
    }
}

/// Executable rational scalar.  The fields are public so that embedding code
/// and tests can build values directly; every engine function requires the
/// denominators of its arguments to be positive.
#[derive(Clone, Copy, Debug, PartialEq, Eq, Structural)]
pub struct Rational {
    pub num: i128,
    pub den: i128,
}

impl View for Rational {
    type V = Ratio;

    open spec fn view(&self) -> Ratio {
        Ratio { num: self.num as int, den: self.den as int }
    }
}

impl Rational {
    /// Builds the rational `num / den`.
    pub fn new(num: i128, den: i128) -> (r: Rational)
        requires
            den > 0,
        ensures
            r@ == (Ratio { num: num as int, den: den as int }),
            r@.wf(),
    {
        Rational { num, den }
    }

    /// Builds the whole number `n`.
    pub fn from_int(n: i128) -> (r: Rational)
        ensures
            r@ == Ratio::from_int(n as int),
            r@.wf(),
    {
        Rational { num: n, den: 1 }
    }

    /// Decides whether `self` and `other` denote the same rational number.
    pub fn equiv(&self, other: &Rational) -> (r: bool)
        requires
            self.num * other.den <= i128::MAX,
            self.num * other.den >= i128::MIN,
            other.num * self.den <= i128::MAX,
            other.num * self.den >= i128::MIN,
        ensures
            r == self@.equiv(other@),
    {
        self.num * other.den == other.num * self.den
    }
}

} // verus!
