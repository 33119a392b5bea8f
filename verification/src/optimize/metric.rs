//! Norms: turning a candidate value (real or complex) into one
//! non-negative real usable for tolerance comparison.
//!
//! For a scalar candidate the element count is one, so every p-norm
//! collapses to the magnitude; the power sum and the mean square keep
//! their powers.

use crate::fixed::{lemma_rnd_div_exact, mul_m, rnd_div, sat_m, Real, SCALE};
use crate::odr::polynomial::PolynomialCoef;
use crate::complex::Complex;
use vstd::prelude::*;

verus! {

/// The scalar type tolerances are measured in.  The crate measures every
/// norm in [`Real`].
pub trait Metric {

}

impl Metric for Real {

}

/// The ways a candidate can be turned into a metric.
#[derive(Clone, Copy, Debug, PartialEq, Eq, Structural)]
pub enum MetricType {
    /// The sum of the `p`-th powers of the element magnitudes.
    PowerSum(u32),
    /// The L1 norm.
    L1Norm,
    /// The L2 norm.
    L2Norm,
    /// The p norm.
    PNorm(u32),
    /// The mean square.
    MS,
    /// The root mean square.
    RMS,
}

/// Mantissa of the `p`-th power of a mantissa, one rounded product at a
/// time.
pub open spec fn pow_m(b: int, p: nat) -> int
    decreases p,
{
    if p == 0 {
        SCALE as int
    } else {
        mul_m(pow_m(b, (p - 1) as nat), b)
    }
}

/// The metric of a scalar candidate with magnitude mantissa `a`: every
/// plain norm of a single element is its magnitude, the power sum is the
/// `p`-th power, and the mean square is the square.
pub open spec fn metric_m(a: int, m: MetricType) -> int {
    match m {
        MetricType::PowerSum(p) => pow_m(a, p as nat),
        MetricType::L1Norm => a,
        MetricType::L2Norm => a,
        MetricType::PNorm(_) => a,
        MetricType::MS => pow_m(a, 2),
        MetricType::RMS => a,
    }
}

/// The metric of a candidate value, over its model.
pub open spec fn metric_of<T: PolynomialCoef>(v: T, m: MetricType) -> int {
    metric_m(T::abs_of(v.re_m(), v.im_m()), m)
}

/// The `p`-th power of a real scalar by repeated saturating products.
fn pow_real(b: Real, p: u32) -> (r: Real)
    ensures
        r.mant() == pow_m(b.mant(), p as nat),
{
    let mut acc = Real::one();
    let mut i: u32 = 0;
    while i < p
        invariant
            i <= p,
            acc.mant() == pow_m(b.mant(), i as nat),
        decreases p - i,
    {
        acc = acc.mul(b);
        i += 1;
    }
    acc
}

/// Dividing a mantissa by one is exact.
proof fn lemma_div_m_one(a: int)
    requires
        crate::fixed::MANT_NEG_INF as int <= a <= crate::fixed::MANT_POS_INF as int,
    ensures
        crate::fixed::div_m(a, SCALE as int) == a,
{
    lemma_rnd_div_exact(a, SCALE as int);
    assert(a * SCALE == SCALE * a) by (nonlinear_arith);
}

/// A candidate that can be measured: the norm interface shared by the
/// real and the complex scalar.
pub trait IntoMetric: PolynomialCoef {
    /// The number of elements in the candidate; one for a scalar.
    fn n(&self) -> (r: Real)
        ensures
            r.mant() == SCALE as int,
    ;

    /// The sum of the `p`-th powers of the element magnitudes.
    fn power_sum(&self, p: u32) -> (r: Real)
        ensures
            r.mant() == pow_m(Self::abs_of(self.re_m(), self.im_m()), p as nat),
    ;

    /// The L1 norm: for a scalar, the magnitude.
    fn l1_norm(&self) -> (r: Real)
        ensures
            r.mant() == Self::abs_of(self.re_m(), self.im_m()),
    ;

    /// The L2 norm: for a scalar, the magnitude.
    fn l2_norm(&self) -> (r: Real)
        ensures
            r.mant() == Self::abs_of(self.re_m(), self.im_m()),
    ;

    /// The p norm: for a scalar, the magnitude, whatever `p`.
    fn p_norm(&self, p: u32) -> (r: Real)
        ensures
            r.mant() == Self::abs_of(self.re_m(), self.im_m()),
    ;

    /// The mean square: the squared magnitude over the element count.
    fn ms(&self) -> (r: Real)
        ensures
            r.mant() == pow_m(Self::abs_of(self.re_m(), self.im_m()), 2),
    ;

    /// The root mean square: for a scalar, the magnitude.
    fn rms(&self) -> (r: Real)
        ensures
            r.mant() == Self::abs_of(self.re_m(), self.im_m()),
    ;

    /// Measure by the chosen metric type.
    fn eval(&self, m: &MetricType) -> (r: Real)
        ensures
            r.mant() == metric_of(*self, *m),
    ;
}

impl IntoMetric for Real {
    fn n(&self) -> (r: Real) {
        Real::one()
    }

    fn power_sum(&self, p: u32) -> (r: Real) {
        pow_real(self.abs(), p)
    }

    fn l1_norm(&self) -> (r: Real) {
        self.abs()
    }

    fn l2_norm(&self) -> (r: Real) {
        self.abs()
    }

    fn p_norm(&self, p: u32) -> (r: Real) {
        self.abs()
    }

    fn ms(&self) -> (r: Real) {
        let s = self.power_sum(2);
        proof {
            lemma_div_m_one(s.mant());
        }
        s.div(self.n())
    }

    fn rms(&self) -> (r: Real) {
        self.abs()
    }

    fn eval(&self, m: &MetricType) -> (r: Real) {
        match m {
            MetricType::PowerSum(p) => self.power_sum(*p),
            MetricType::L1Norm => self.l1_norm(),
            MetricType::L2Norm => self.l2_norm(),
            MetricType::PNorm(p) => self.p_norm(*p),
            MetricType::MS => self.ms(),
            MetricType::RMS => self.rms(),
        }
    }
}

impl IntoMetric for Complex {
    fn n(&self) -> (r: Real) {
        Real::one()
    }

    fn power_sum(&self, p: u32) -> (r: Real) {
        pow_real(PolynomialCoef::abs(*self), p)
    }

    fn l1_norm(&self) -> (r: Real) {
        PolynomialCoef::abs(*self)
    }

    fn l2_norm(&self) -> (r: Real) {
        PolynomialCoef::abs(*self)
    }

    fn p_norm(&self, p: u32) -> (r: Real) {
        PolynomialCoef::abs(*self)
    }

    fn ms(&self) -> (r: Real) {
        let s = self.power_sum(2);
        proof {
            lemma_div_m_one(s.mant());
        }
        s.div(self.n())
    }

    fn rms(&self) -> (r: Real) {
        PolynomialCoef::abs(*self)
    }

    fn eval(&self, m: &MetricType) -> (r: Real) {
        match m {
            MetricType::PowerSum(p) => self.power_sum(*p),
            MetricType::L1Norm => self.l1_norm(),
            MetricType::L2Norm => self.l2_norm(),
            MetricType::PNorm(p) => self.p_norm(*p),
            MetricType::MS => self.ms(),
            MetricType::RMS => self.rms(),
        }
    }
}

} // verus!
