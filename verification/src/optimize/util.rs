//! Small numeric helpers shared by the solvers.

use crate::complex::Complex;
use crate::fixed::Real;
use crate::odr::polynomial::PolynomialCoef;
use vstd::prelude::*;

verus! {

/// A scalar with a smallest positive value, used as the additive guard in
/// the solvers' divisions.  The real guard is one unit in the last place;
/// the complex guard carries it in both parts, as a float complex epsilon
/// carries the float epsilon.
pub trait Espilon: PolynomialCoef {
    /// Real mantissa of the guard.
    spec fn eps_re() -> int;

    /// Imaginary mantissa of the guard.
    spec fn eps_im() -> int;

    /// The guard value.
    fn epsilon() -> (r: Self)
        ensures
            r.re_m() == Self::eps_re(),
            r.im_m() == Self::eps_im(),
    ;
}

impl Espilon for Real {
    open spec fn eps_re() -> int {
        1
    }

    open spec fn eps_im() -> int {
        0
    }

    fn epsilon() -> (r: Self) {
        Real::epsilon()
    }
}

impl Espilon for Complex {
    open spec fn eps_re() -> int {
        1
    }

    open spec fn eps_im() -> int {
        1
    }

    fn epsilon() -> (r: Self) {
        Complex::new(Real::epsilon(), Real::epsilon())
    }
}

} // verus!
