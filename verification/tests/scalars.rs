use sciport_rs::complex::Complex;
use sciport_rs::fixed::{Real, MANT_NEG_INF, MANT_POS_INF, SCALE};
use sciport_rs::odr::polynomial::PolynomialCoef;
use sciport_rs::optimize::metric::{IntoMetric, MetricType};

fn r(x: f64) -> Real {
    Real::from_mantissa((x * 4294967296.0).round() as i64)
}

fn to_f64(x: Real) -> f64 {
    x.mantissa() as f64 / 4294967296.0
}

fn z(re: f64, im: f64) -> Complex {
    Complex::new(r(re), r(im))
}

/// Exact fixed-point arithmetic on representable values.
#[test]
fn real_arithmetic_exact() {
    assert_eq!(r(1.5).add(r(2.25)).mantissa(), r(3.75).mantissa());
    assert_eq!(r(1.5).sub(r(2.0)).mantissa(), r(-0.5).mantissa());
    assert_eq!(r(1.5).mul(r(2.0)).mantissa(), r(3.0).mantissa());
    assert_eq!(r(3.0).div(r(2.0)).mantissa(), r(1.5).mantissa());
    assert_eq!(r(-2.5).abs().mantissa(), r(2.5).mantissa());
    assert_eq!(r(-3.0).neg().mantissa(), r(3.0).mantissa());
    assert_eq!(r(2.25).sqrt().mantissa(), r(1.5).mantissa());
    assert_eq!(r(-5.0).half().mantissa(), r(-2.5).mantissa());
    assert_eq!(Real::from_int(7).mantissa(), 7 * SCALE);
}

/// Overflow saturates to the markers, and division by zero follows the
/// dividend's sign.
#[test]
fn real_saturation() {
    let big = Real::from_mantissa(MANT_POS_INF);
    assert!(!big.is_finite());
    assert!(!big.add(r(1.0)).is_finite());
    assert_eq!(r(1.0).div(r(0.0)).mantissa(), MANT_POS_INF);
    assert_eq!(r(-1.0).div(r(0.0)).mantissa(), MANT_NEG_INF);
    assert!(!Real::from_int(i64::MAX).is_finite());
}

/// Complex products, quotients and magnitudes on exact values.
#[test]
fn complex_arithmetic_exact() {
    let p = z(1.0, 2.0).mul(z(3.0, 4.0));
    assert_eq!(to_f64(p.re), -5.0);
    assert_eq!(to_f64(p.im), 10.0);

    assert_eq!(to_f64(z(3.0, 4.0).abs()), 5.0);

    let q = z(-5.0, 10.0).div(z(3.0, 4.0));
    assert!((to_f64(q.re) - 1.0).abs() < 1e-8);
    assert!((to_f64(q.im) - 2.0).abs() < 1e-8);

    let i = z(-1.0, 0.0).sqrt();
    assert_eq!(to_f64(i.re), 0.0);
    assert_eq!(to_f64(i.im), 1.0);

    let c = z(1.0, -2.0).conj();
    assert_eq!(to_f64(c.im), 2.0);

    let s = z(3.0, 4.0).sqrt();
    assert!((to_f64(s.re) - 2.0).abs() < 1e-4);
    assert!((to_f64(s.im) - 1.0).abs() < 1e-4);
}

/// Every scalar norm of a single real is its magnitude; the power sum
/// and mean square carry their powers.
#[test]
fn metric_real() {
    let x = r(-3.0);
    assert_eq!(to_f64(x.eval(&MetricType::L1Norm)), 3.0);
    assert_eq!(to_f64(x.eval(&MetricType::L2Norm)), 3.0);
    assert_eq!(to_f64(x.eval(&MetricType::PNorm(5))), 3.0);
    assert_eq!(to_f64(x.eval(&MetricType::RMS)), 3.0);
    assert_eq!(to_f64(x.eval(&MetricType::MS)), 9.0);
    assert_eq!(to_f64(x.eval(&MetricType::PowerSum(3))), 27.0);
    assert_eq!(to_f64(x.eval(&MetricType::PowerSum(0))), 1.0);
    assert_eq!(to_f64(x.n()), 1.0);
}

/// The complex norms degenerate to the magnitude the same way.
#[test]
fn metric_complex() {
    let w = z(3.0, 4.0);
    assert_eq!(to_f64(w.eval(&MetricType::L2Norm)), 5.0);
    assert_eq!(to_f64(w.eval(&MetricType::PNorm(3))), 5.0);
    assert_eq!(to_f64(w.eval(&MetricType::MS)), 25.0);
    assert_eq!(to_f64(w.eval(&MetricType::PowerSum(2))), 25.0);
}

/// The coefficient interface agrees with the scalar types underneath.
#[test]
fn coefficient_interface() {
    let two: Real = PolynomialCoef::from_u64(2);
    assert_eq!(two.mantissa(), 2 * SCALE);
    let zc: Complex = PolynomialCoef::from_u64(3);
    assert_eq!(to_f64(zc.re), 3.0);
    assert_eq!(to_f64(zc.im), 0.0);
    assert!(PolynomialCoef::is_zero(r(0.0)));
    assert!(!PolynomialCoef::is_zero(r(0.5)));
    assert!(r(-4.0).sqrt_checked().is_none());
    assert!(z(-4.0, 0.0).sqrt_checked().is_some());
}
