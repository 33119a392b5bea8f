//! The crate's complex scalar: a pair of fixed-point reals.
//!
//! Every operation is specified exactly, component by component, over the
//! mantissa arithmetic of [`crate::fixed`].

use crate::fixed::{
    add_m, div_m, half_m, mul_m, neg_m, sat_m, sqrt_m, sub_m, Real, MANT_MAX_FINITE,
    MANT_MIN_FINITE, SCALE,
};
use vstd::prelude::*;

verus! {

/// Real part of a complex product.
pub open spec fn cmul_re_m(ar: int, ai: int, br: int, bi: int) -> int {
    sub_m(mul_m(ar, br), mul_m(ai, bi))
}

/// Imaginary part of a complex product.
pub open spec fn cmul_im_m(ar: int, ai: int, br: int, bi: int) -> int {
    add_m(mul_m(ar, bi), mul_m(ai, br))
}

/// Squared magnitude.
pub open spec fn cnorm2_m(ar: int, ai: int) -> int {
    add_m(mul_m(ar, ar), mul_m(ai, ai))
}

/// Magnitude: the exact hypotenuse of the two part mantissas, so that
/// magnitudes below the resolution of a squared value are not lost.
pub open spec fn cabs_m(ar: int, ai: int) -> int {
    crate::fixed::hypot_m(ar, ai)
}

/// Real part of a complex quotient `a / b`: `a` times the conjugate of
/// `b`, divided by the squared magnitude of `b`.
pub open spec fn cdiv_re_m(ar: int, ai: int, br: int, bi: int) -> int {
    div_m(add_m(mul_m(ar, br), mul_m(ai, bi)), cnorm2_m(br, bi))
}

/// Imaginary part of a complex quotient.
pub open spec fn cdiv_im_m(ar: int, ai: int, br: int, bi: int) -> int {
    div_m(sub_m(mul_m(ai, br), mul_m(ar, bi)), cnorm2_m(br, bi))
}

/// Clamp a mantissa from below at zero; the square-root arguments in the
/// complex square root are non-negative up to rounding, and are clamped so
/// the root is always defined.
pub open spec fn max0_m(a: int) -> int {
    if a < 0 {
        0
    } else {
        a
    }
}

/// Real part of the principal complex square root.
pub open spec fn csqrt_re_m(ar: int, ai: int) -> int {
    if ai == 0 {
        if ar >= 0 {
            sqrt_m(ar)
        } else {
            0
        }
    } else {
        sqrt_m(max0_m(half_m(add_m(cabs_m(ar, ai), ar))))
    }
}

/// Imaginary part of the principal complex square root; its sign follows
/// the sign of the imaginary part of the argument.
pub open spec fn csqrt_im_m(ar: int, ai: int) -> int {
    if ai == 0 {
        if ar >= 0 {
            0
        } else {
            sqrt_m(neg_m(ar))
        }
    } else {
        let d = sqrt_m(max0_m(half_m(sub_m(cabs_m(ar, ai), ar))));
        if ai >= 0 {
            d
        } else {
            neg_m(d)
        }
    }
}

/// The crate's complex scalar.
#[derive(Clone, Copy, Debug, PartialEq, Eq, Structural)]
pub struct Complex {
    /// Real part.
    pub re: Real,
    /// Imaginary part.
    pub im: Real,
}

impl Complex {
    /// Build from the two parts.
    pub fn new(re: Real, im: Real) -> (r: Complex)
        ensures
            r.re == re,
            r.im == im,
    {
        Complex { re, im }
    }

    /// Zero.
    pub fn zero() -> (r: Complex)
        ensures
            r.re.mant() == 0,
            r.im.mant() == 0,
    {
        Complex { re: Real::zero(), im: Real::zero() }
    }

    /// One.
    pub fn one() -> (r: Complex)
        ensures
            r.re.mant() == SCALE as int,
            r.im.mant() == 0,
    {
        Complex { re: Real::one(), im: Real::zero() }
    }

    /// A real value viewed as a complex one.
    pub fn from_real(x: Real) -> (r: Complex)
        ensures
            r.re == x,
            r.im.mant() == 0,
    {
        Complex { re: x, im: Real::zero() }
    }

    /// The complex value of a small integer.
    pub fn from_int(v: i64) -> (r: Complex)
        ensures
            r.re.mant() == sat_m(v as int * SCALE as int),
            r.im.mant() == 0,
    {
        Complex { re: Real::from_int(v), im: Real::zero() }
    }

    /// Complex conjugate.
    pub fn conj(self) -> (r: Complex)
        ensures
            r.re == self.re,
            r.im.mant() == neg_m(self.im.mant()),
    {
        Complex { re: self.re, im: self.im.neg() }
    }

    /// Whether both parts are finite.
    pub fn is_finite(self) -> (r: bool)
        ensures
            r == (MANT_MIN_FINITE as int <= self.re.mant() <= MANT_MAX_FINITE as int
                && MANT_MIN_FINITE as int <= self.im.mant() <= MANT_MAX_FINITE as int),
    {
        self.re.is_finite() && self.im.is_finite()
    }

    /// Component-wise saturating sum.
    pub fn add(self, o: Complex) -> (r: Complex)
        ensures
            r.re.mant() == add_m(self.re.mant(), o.re.mant()),
            r.im.mant() == add_m(self.im.mant(), o.im.mant()),
    {
        Complex { re: self.re.add(o.re), im: self.im.add(o.im) }
    }

    /// Component-wise saturating difference.
    pub fn sub(self, o: Complex) -> (r: Complex)
        ensures
            r.re.mant() == sub_m(self.re.mant(), o.re.mant()),
            r.im.mant() == sub_m(self.im.mant(), o.im.mant()),
    {
        Complex { re: self.re.sub(o.re), im: self.im.sub(o.im) }
    }

    /// Component-wise saturating negation.
    pub fn neg(self) -> (r: Complex)
        ensures
            r.re.mant() == neg_m(self.re.mant()),
            r.im.mant() == neg_m(self.im.mant()),
    {
        Complex { re: self.re.neg(), im: self.im.neg() }
    }

    /// Complex product.
    pub fn mul(self, o: Complex) -> (r: Complex)
        ensures
            r.re.mant() == cmul_re_m(self.re.mant(), self.im.mant(), o.re.mant(), o.im.mant()),
            r.im.mant() == cmul_im_m(self.re.mant(), self.im.mant(), o.re.mant(), o.im.mant()),
    {
        Complex {
            re: self.re.mul(o.re).sub(self.im.mul(o.im)),
            im: self.re.mul(o.im).add(self.im.mul(o.re)),
        }
    }

    /// Complex quotient: multiply by the conjugate of the divisor and
    /// divide by its squared magnitude.  A zero divisor saturates through
    /// the division rule of [`div_m`].
    pub fn div(self, o: Complex) -> (r: Complex)
        ensures
            r.re.mant() == cdiv_re_m(self.re.mant(), self.im.mant(), o.re.mant(), o.im.mant()),
            r.im.mant() == cdiv_im_m(self.re.mant(), self.im.mant(), o.re.mant(), o.im.mant()),
    {
        let n = o.re.mul(o.re).add(o.im.mul(o.im));
        Complex {
            re: self.re.mul(o.re).add(self.im.mul(o.im)).div(n),
            im: self.im.mul(o.re).sub(self.re.mul(o.im)).div(n),
        }
    }

    /// Magnitude.
    pub fn abs(self) -> (r: Real)
        ensures
            r.mant() == cabs_m(self.re.mant(), self.im.mant()),
            r.mant() >= 0,
    {
        Real::hypot(self.re, self.im)
    }

    /// Principal square root.  The radicands `(|z| + re) / 2` and
    /// `(|z| - re) / 2` are non-negative up to rounding and are clamped at
    /// zero.
    pub fn sqrt(self) -> (r: Complex)
        ensures
            r.re.mant() == csqrt_re_m(self.re.mant(), self.im.mant()),
            r.im.mant() == csqrt_im_m(self.re.mant(), self.im.mant()),
    {
        if self.im.mantissa() == 0 {
            if self.re.is_sign_positive() {
                Complex { re: self.re.sqrt(), im: Real::zero() }
            } else {
                Complex { re: Real::zero(), im: self.re.neg().sqrt() }
            }
        } else {
            let r = self.abs();
            let g = max0(r.add(self.re).half()).sqrt();
            let d = max0(r.sub(self.re).half()).sqrt();
            if self.im.is_sign_positive() {
                Complex { re: g, im: d }
            } else {
                Complex { re: g, im: d.neg() }
            }
        }
    }
}

/// Clamp from below at zero.
pub fn max0(x: Real) -> (r: Real)
    ensures
        r.mant() == max0_m(x.mant()),
        r.mant() >= 0,
{
    if x.is_sign_negative() {
        Real::zero()
    } else {
        x
    }
}

} // verus!
