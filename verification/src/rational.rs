//! Exact rational numbers with a bounded executable representation.
//!
//! The language's numeric values are rationals: a decimal literal such as
//! `3.14` is exactly `314/100`, and the four arithmetic operators stay inside
//! the rationals. The executable type holds an `i64` numerator and a positive
//! `i64` denominator; an operation whose exact result does not fit reports
//! that instead of returning a rounded value.

use vstd::prelude::*;

verus! {

/// A mathematical rational, at the specification level: `num / den`.
pub ghost struct Rat {
    pub num: int,
    pub den: int,
}

/// Exact sum: `a/b + c/d == (a*d + c*b) / (b*d)`.
pub open spec fn rat_add(a: Rat, b: Rat) -> Rat {
    Rat { num: a.num * b.den + b.num * a.den, den: a.den * b.den }
}

/// Exact difference: `a/b - c/d == (a*d - c*b) / (b*d)`.
pub open spec fn rat_sub(a: Rat, b: Rat) -> Rat {
    Rat { num: a.num * b.den - b.num * a.den, den: a.den * b.den }
}

/// Exact product.
pub open spec fn rat_mul(a: Rat, b: Rat) -> Rat {
    Rat { num: a.num * b.num, den: a.den * b.den }
}

/// Exact quotient, with the sign moved into the numerator so that the
/// denominator stays positive. Meaningful only for `b.num != 0`.
pub open spec fn rat_div(a: Rat, b: Rat) -> Rat {
    if b.num >= 0 {
        Rat { num: a.num * b.den, den: a.den * b.num }
    } else {
        Rat { num: -(a.num * b.den), den: -(a.den * b.num) }
    }
}

/// Whether a mathematical rational fits the executable representation:
/// numerator and denominator within `i64` range, symmetric about zero.
pub open spec fn rat_fits(r: Rat) -> bool {
    &&& -(i64::MAX as int) <= r.num <= i64::MAX as int
    &&& 1 <= r.den <= i64::MAX as int
}

proof fn lemma_mul_in_box(a: int, b: int, m: int)
    by (nonlinear_arith)
    requires
        0 <= m,
        -m <= a <= m,
        -m <= b <= m,
    ensures
        -(m * m) <= a * b <= m * m,
{
}

proof fn lemma_mul_pos(a: int, b: int)
    by (nonlinear_arith)
    requires
        a >= 1,
        b >= 1,
    ensures
        a * b >= 1,
        a * b >= a,
        a * b >= b,
{
}

proof fn lemma_mul_neg_pos(a: int, b: int)
    by (nonlinear_arith)
    requires
        a >= 1,
        b <= -1,
    ensures
        a * b <= -1,
{
}

/// Executable exact rational: `num / den` with `den >= 1`.
///
/// The numerator stays strictly above `i64::MIN`, so that products of two
/// representable values, and sums of two such products, fit in `i128`.
#[derive(Clone, Copy, Debug, PartialEq, Eq)]
pub struct Rational {
    pub num: i64,
    pub den: i64,
}

impl View for Rational {
    type V = Rat;

    open spec fn view(&self) -> Rat {
        Rat { num: self.num as int, den: self.den as int }
    }
}

impl Rational {
    /// The representation invariant: positive denominator, numerator within
    /// the symmetric `i64` range.
    pub open spec fn inv(self) -> bool {
        &&& self.den >= 1
        &&& self.num > i64::MIN
    }

    /// The rational `n / 1`.
    pub fn from_int(n: i64) -> (r: Rational)
        requires
            n > i64::MIN,
        ensures
            r.inv(),
            r@ == (Rat { num: n as int, den: 1 }),
    {
        Rational { num: n, den: 1 }
    }

    /// Whether the value is exactly zero.
    pub fn is_zero(&self) -> (r: bool)
        requires
            self.inv(),
        ensures
            r <==> self@.num == 0,
    {
        self.num == 0
    }

    /// Exact sum, or `None` when the result does not fit.
    pub fn checked_add(self, other: Rational) -> (r: Option<Rational>)
        requires
            self.inv(),
            other.inv(),
        ensures
            match r {
                Some(v) => v.inv() && v@ == rat_add(self@, other@) && rat_fits(
                    rat_add(self@, other@),
                ),
                None => !rat_fits(rat_add(self@, other@)),
            },
    {
        proof {
            lemma_mul_in_box(self.num as int, other.den as int, i64::MAX as int);
            lemma_mul_in_box(other.num as int, self.den as int, i64::MAX as int);
            lemma_mul_pos(self.den as int, other.den as int);
            lemma_mul_in_box(self.den as int, other.den as int, i64::MAX as int);
        }
        let n: i128 = self.num as i128 * other.den as i128 + other.num as i128 * self.den as i128;
        let d: i128 = self.den as i128 * other.den as i128;
        if -(i64::MAX as i128) <= n && n <= i64::MAX as i128 && d <= i64::MAX as i128 {
            Some(Rational { num: n as i64, den: d as i64 })
        } else {
            None
        }
    }

    /// Exact difference, or `None` when the result does not fit.
    pub fn checked_sub(self, other: Rational) -> (r: Option<Rational>)
        requires
            self.inv(),
            other.inv(),
        ensures
            match r {
                Some(v) => v.inv() && v@ == rat_sub(self@, other@) && rat_fits(
                    rat_sub(self@, other@),
                ),
                None => !rat_fits(rat_sub(self@, other@)),
            },
    {
        proof {
            lemma_mul_in_box(self.num as int, other.den as int, i64::MAX as int);
            lemma_mul_in_box(other.num as int, self.den as int, i64::MAX as int);
            lemma_mul_pos(self.den as int, other.den as int);
            lemma_mul_in_box(self.den as int, other.den as int, i64::MAX as int);
        }
        let n: i128 = self.num as i128 * other.den as i128 - other.num as i128 * self.den as i128;
        let d: i128 = self.den as i128 * other.den as i128;
        if -(i64::MAX as i128) <= n && n <= i64::MAX as i128 && d <= i64::MAX as i128 {
            Some(Rational { num: n as i64, den: d as i64 })
        } else {
            None
        }
    }

    /// Exact product, or `None` when the result does not fit.
    pub fn checked_mul(self, other: Rational) -> (r: Option<Rational>)
        requires
            self.inv(),
            other.inv(),
        ensures
            match r {
                Some(v) => v.inv() && v@ == rat_mul(self@, other@) && rat_fits(
                    rat_mul(self@, other@),
                ),
                None => !rat_fits(rat_mul(self@, other@)),
            },
    {
        proof {
            lemma_mul_in_box(self.num as int, other.num as int, i64::MAX as int);
            lemma_mul_pos(self.den as int, other.den as int);
            lemma_mul_in_box(self.den as int, other.den as int, i64::MAX as int);
        }
        let n: i128 = self.num as i128 * other.num as i128;
        let d: i128 = self.den as i128 * other.den as i128;
        if -(i64::MAX as i128) <= n && n <= i64::MAX as i128 && d <= i64::MAX as i128 {
            Some(Rational { num: n as i64, den: d as i64 })
        } else {
            None
        }
    }

    /// Exact quotient by a non-zero rational, or `None` when the result does
    /// not fit.
    pub fn checked_div(self, other: Rational) -> (r: Option<Rational>)
        requires
            self.inv(),
            other.inv(),
            other@.num != 0,
        ensures
            match r {
                Some(v) => v.inv() && v@ == rat_div(self@, other@) && rat_fits(
                    rat_div(self@, other@),
                ),
                None => !rat_fits(rat_div(self@, other@)),
            },
    {
        proof {
            lemma_mul_in_box(self.num as int, other.den as int, i64::MAX as int);
            lemma_mul_in_box(self.den as int, other.num as int, i64::MAX as int);
            if other.num >= 1 {
                lemma_mul_pos(self.den as int, other.num as int);
            } else {
                lemma_mul_neg_pos(self.den as int, other.num as int);
            }
        }
        let (n, d): (i128, i128) = if other.num > 0 {
            (self.num as i128 * other.den as i128, self.den as i128 * other.num as i128)
        } else {
            (-(self.num as i128 * other.den as i128), -(self.den as i128 * other.num as i128))
        };
        if -(i64::MAX as i128) <= n && n <= i64::MAX as i128 && d <= i64::MAX as i128 {
            Some(Rational { num: n as i64, den: d as i64 })
        } else {
            None
        }
    }
}

} // verus!
