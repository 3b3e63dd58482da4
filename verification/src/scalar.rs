//! Exact rational scalars: the entry type of every matrix.
//!
//! A `Scalar` is a fraction `num / den` of two `i64` values with a strictly
//! positive denominator.  Fractions are not reduced; two scalars stand for
//! the same number exactly when cross-multiplication agrees, which is what
//! `frac_eqv` states and what the executable `eqv` decides.
//!
//! The mathematical model of a scalar is a pair of unbounded integers
//! `(int, int)`; the spec functions below define the field operations on
//! that model, and every executable operation is proved to return exactly
//! the modelled fraction.

use vstd::prelude::*;

verus! {

/// A fraction is well formed when its denominator is strictly positive.
pub open spec fn frac_wf(a: (int, int)) -> bool {
    a.1 > 0
}

/// Two fractions stand for the same rational number.
pub open spec fn frac_eqv(a: (int, int), b: (int, int)) -> bool {
    a.0 * b.1 == b.0 * a.1
}

/// Exact sum of two fractions.
pub open spec fn frac_add(a: (int, int), b: (int, int)) -> (int, int) {
    (a.0 * b.1 + b.0 * a.1, a.1 * b.1)
}

/// Exact difference of two fractions.
pub open spec fn frac_sub(a: (int, int), b: (int, int)) -> (int, int) {
    (a.0 * b.1 - b.0 * a.1, a.1 * b.1)
}

/// Exact product of two fractions.
pub open spec fn frac_mul(a: (int, int), b: (int, int)) -> (int, int) {
    (a.0 * b.0, a.1 * b.1)
}

/// Exact quotient of two fractions; the sign moves into the numerator so
/// that the denominator stays positive whenever the divisor is nonzero.
pub open spec fn frac_div(a: (int, int), b: (int, int)) -> (int, int) {
    if b.0 >= 0 {
        (a.0 * b.1, a.1 * b.0)
    } else {
        (-(a.0 * b.1), -(a.1 * b.0))
    }
}

/// The value fits in a machine word.
pub open spec fn fits(x: int) -> bool {
    (i64::MIN as int) <= x && x <= (i64::MAX as int)
}

/// Both components of the fraction fit in machine words.
pub open spec fn frac_fits(a: (int, int)) -> bool {
    fits(a.0) && fits(a.1)
}

/// An exact rational number: `num / den` with `den > 0`.
#[derive(Clone, Copy, PartialEq, Eq, Structural, Debug)]
pub struct Scalar {
    pub num: i64,
    pub den: i64,
}

impl Scalar {
    /// The denominator is strictly positive.
    pub open spec fn wf(self) -> bool {
        self.den > 0
    }

    /// Mathematical model: the pair of unbounded integers.
    pub open spec fn frac(self) -> (int, int) {
        (self.num as int, self.den as int)
    }

    /// The fraction `num / den`; rejects a non-positive denominator.
    pub fn new(num: i64, den: i64) -> (r: Option<Scalar>)
        ensures
            r is Some <==> den > 0,
            r is Some ==> r->Some_0.wf() && r->Some_0.frac() == (num as int, den as int),
    {
        if den > 0 {
            Some(Scalar { num, den })
        } else {
            None
        }
    }

    /// The integer `v` as a scalar.
    pub fn from_int(v: i64) -> (r: Scalar)
        ensures
            r.wf(),
            r.frac() == (v as int, 1int),
    {
        Scalar { num: v, den: 1 }
    }

    /// The scalar zero.
    pub fn zero() -> (r: Scalar)
        ensures
            r.wf(),
            r.frac() == (0int, 1int),
    {
        Scalar { num: 0, den: 1 }
    }

    /// The scalar one.
    pub fn one() -> (r: Scalar)
        ensures
            r.wf(),
            r.frac() == (1int, 1int),
    {
        Scalar { num: 1, den: 1 }
    }

    /// Exact addition.
    pub fn add(self, rhs: Scalar) -> (r: Scalar)
        requires
            self.wf(),
            rhs.wf(),
            frac_fits(frac_add(self.frac(), rhs.frac())),
        ensures
            r.wf(),
            r.frac() == frac_add(self.frac(), rhs.frac()),
    {
        proof {
            lemma_prod_fits_wide(self.num as int, rhs.den as int);
            lemma_prod_fits_wide(rhs.num as int, self.den as int);
            lemma_prod_fits_wide(self.den as int, rhs.den as int);
            lemma_pos_prod_pos(self.den as int, rhs.den as int);
            lemma_combo_fits_wide(self.num as int, self.den as int, rhs.num as int, rhs.den as int);
        }
        let n: i128 = (self.num as i128) * (rhs.den as i128) + (rhs.num as i128) * (self.den as i128);
        let d: i128 = (self.den as i128) * (rhs.den as i128);
        Scalar { num: n as i64, den: d as i64 }
    }

    /// Exact subtraction.
    pub fn sub(self, rhs: Scalar) -> (r: Scalar)
        requires
            self.wf(),
            rhs.wf(),
            frac_fits(frac_sub(self.frac(), rhs.frac())),
        ensures
            r.wf(),
            r.frac() == frac_sub(self.frac(), rhs.frac()),
    {
        proof {
            lemma_prod_fits_wide(self.num as int, rhs.den as int);
            lemma_prod_fits_wide(rhs.num as int, self.den as int);
            lemma_prod_fits_wide(self.den as int, rhs.den as int);
            lemma_pos_prod_pos(self.den as int, rhs.den as int);
            lemma_combo_fits_wide(self.num as int, self.den as int, rhs.num as int, rhs.den as int);
        }
        let n: i128 = (self.num as i128) * (rhs.den as i128) - (rhs.num as i128) * (self.den as i128);
        let d: i128 = (self.den as i128) * (rhs.den as i128);
        Scalar { num: n as i64, den: d as i64 }
    }

    /// Exact multiplication.
    pub fn mul(self, rhs: Scalar) -> (r: Scalar)
        requires
            self.wf(),
            rhs.wf(),
            frac_fits(frac_mul(self.frac(), rhs.frac())),
        ensures
            r.wf(),
            r.frac() == frac_mul(self.frac(), rhs.frac()),
    {
        proof {
            lemma_prod_fits_wide(self.num as int, rhs.num as int);
            lemma_prod_fits_wide(self.den as int, rhs.den as int);
            lemma_pos_prod_pos(self.den as int, rhs.den as int);
        }
        let n: i128 = (self.num as i128) * (rhs.num as i128);
        let d: i128 = (self.den as i128) * (rhs.den as i128);
        Scalar { num: n as i64, den: d as i64 }
    }

    /// Exact division by a nonzero scalar.
    pub fn div(self, rhs: Scalar) -> (r: Scalar)
        requires
            self.wf(),
            rhs.wf(),
            rhs.num != 0,
            frac_fits(frac_div(self.frac(), rhs.frac())),
        ensures
            r.wf(),
            r.frac() == frac_div(self.frac(), rhs.frac()),
    {
        proof {
            lemma_prod_fits_wide(self.num as int, rhs.den as int);
            lemma_prod_fits_wide(self.den as int, rhs.num as int);
        }
        let n: i128 = (self.num as i128) * (rhs.den as i128);
        let d: i128 = (self.den as i128) * (rhs.num as i128);
        if rhs.num >= 0 {
            proof {
                lemma_pos_prod_pos(self.den as int, rhs.num as int);
            }
            Scalar { num: n as i64, den: d as i64 }
        } else {
            proof {
                lemma_neg_prod_pos(self.den as int, rhs.num as int);
            }
            Scalar { num: (-n) as i64, den: (-d) as i64 }
        }
    }

    /// Decides whether the two scalars stand for the same rational number.
    pub fn eqv(self, rhs: Scalar) -> (r: bool)
        ensures
            r == frac_eqv(self.frac(), rhs.frac()),
    {
        proof {
            lemma_prod_fits_wide(self.num as int, rhs.den as int);
            lemma_prod_fits_wide(rhs.num as int, self.den as int);
        }
        (self.num as i128) * (rhs.den as i128) == (rhs.num as i128) * (self.den as i128)
    }

    /// Whether the scalar is exactly zero.
    pub fn is_zero(self) -> (r: bool)
        ensures
            r == (self.num == 0),
    {
        self.num == 0
    }
}

/// A product of two positive integers is positive.
proof fn lemma_pos_prod_pos(a: int, b: int)
    by (nonlinear_arith)
    requires
        a > 0,
        b > 0,
    ensures
        a * b > 0,
{
}

/// A product of a positive and a negative integer is negative.
proof fn lemma_neg_prod_pos(a: int, b: int)
    by (nonlinear_arith)
    requires
        a > 0,
        b < 0,
    ensures
        a * b < 0,
{
}

/// A product of two values that fit in `i64` fits in `i128`.
proof fn lemma_prod_fits_wide(a: int, b: int)
    by (nonlinear_arith)
    requires
        fits(a),
        fits(b),
    ensures
        (i128::MIN as int) <= a * b <= (i128::MAX as int),
{
}

/// A sum or difference of two cross-products of `i64` numerators with
/// positive `i64` denominators fits in `i128`.
proof fn lemma_combo_fits_wide(an: int, ad: int, bn: int, bd: int)
    by (nonlinear_arith)
    requires
        fits(an),
        fits(bn),
        0 < ad <= (i64::MAX as int),
        0 < bd <= (i64::MAX as int),
    ensures
        (i128::MIN as int) <= an * bd + bn * ad <= (i128::MAX as int),
        (i128::MIN as int) <= an * bd - bn * ad <= (i128::MAX as int),
{
}

} // verus!
