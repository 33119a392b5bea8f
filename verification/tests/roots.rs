use sciport_rs::complex::Complex;
use sciport_rs::fixed::Real;
use sciport_rs::odr::polynomial::Polynomial;
use sciport_rs::optimize::root_scalar::aberth::{
    aberth, campos_zeros, conjugate_symmetrize, polish_roots,
};
use sciport_rs::optimize::root_scalar::polynomial::{
    polynomial_roots, quadratic_root, RootsError,
};

fn r(x: f64) -> Real {
    Real::from_mantissa((x * 4294967296.0).round() as i64)
}

fn to_f64(x: Real) -> f64 {
    x.mantissa() as f64 / 4294967296.0
}

fn z(re: f64, im: f64) -> Complex {
    Complex::new(r(re), r(im))
}

fn rvec(xs: &[f64]) -> Vec<Real> {
    xs.iter().map(|&x| r(x)).collect()
}

/// Deflating the product of root factors once at the first root gives
/// back the product over the remaining roots, within `1e-8`.
#[test]
fn polynomial_round_trip_real() {
    let roots = [1.5, -2.25, 3.5];
    let k = r(2.0);
    let p = Polynomial::from_roots_k(&rvec(&roots), k);
    let (q, rem) = p.deflate(r(roots[0])).unwrap();
    let expect = Polynomial::from_roots_k(&rvec(&roots[1..]), k);
    assert!(to_f64(rem.abs()) < 1e-8, "remainder {}", to_f64(rem));
    assert_eq!(q.degree(), expect.degree());
    for (a, b) in q.coefs().iter().zip(expect.coefs().iter()) {
        assert!((to_f64(*a) - to_f64(*b)).abs() < 1e-8);
    }
}

/// The same round trip with complex roots.
#[test]
fn polynomial_round_trip_complex() {
    let roots = vec![z(1.25, 0.75), z(-0.5, 2.0), z(3.0, -1.0)];
    let k = z(1.0, 0.5);
    let p = Polynomial::from_roots_k(&roots, k);
    let (q, _rem) = p.deflate(roots[0]).unwrap();
    let expect = Polynomial::from_roots_k(&roots[1..].to_vec(), k);
    assert_eq!(q.degree(), expect.degree());
    for (a, b) in q.coefs().iter().zip(expect.coefs().iter()) {
        assert!((to_f64(a.re) - to_f64(b.re)).abs() < 1e-8);
        assert!((to_f64(a.im) - to_f64(b.im)).abs() < 1e-8);
    }
}

/// `x^3 - 6 x^2 + 11 x - 6` has the roots 1, 2 and 3; the degree-three
/// path must find all three with negligible imaginary parts.
#[test]
fn cubic_root_check() {
    let p = Polynomial::from_vec(rvec(&[-6.0, 11.0, -6.0, 1.0]));
    let roots = p.roots().unwrap();
    assert_eq!(roots.len(), 3);
    let mut res: Vec<f64> = roots
        .iter()
        .map(|c| {
            assert!(to_f64(c.im).abs() < 1e-6);
            to_f64(c.re)
        })
        .collect();
    res.sort_by(|a, b| a.partial_cmp(b).unwrap());
    assert!((res[0] - 1.0).abs() < 1e-6, "got {:?}", res);
    assert!((res[1] - 2.0).abs() < 1e-6, "got {:?}", res);
    assert!((res[2] - 3.0).abs() < 1e-6, "got {:?}", res);
}

/// Degrees zero and one take their closed forms.
#[test]
fn low_degree_roots() {
    let constant = Polynomial::from_vec(rvec(&[5.0]));
    assert_eq!(constant.roots().unwrap().len(), 0);

    let linear = Polynomial::from_vec(rvec(&[-3.0, 2.0]));
    let roots = linear.roots().unwrap();
    assert_eq!(roots.len(), 1);
    assert!((to_f64(roots[0].re) - 1.5).abs() < 1e-9);
    assert!(to_f64(roots[0].im).abs() < 1e-9);
}

/// A real quadratic with a negative discriminant has no real roots; the
/// complex instantiation always has both.
#[test]
fn quadratic_discriminant() {
    assert!(quadratic_root(r(1.0), r(0.0), r(1.0)).is_none());

    let v = quadratic_root(r(1.0), r(-5.0), r(6.0)).unwrap();
    let (mut a, mut b) = (to_f64(v[0]), to_f64(v[1]));
    if a > b {
        std::mem::swap(&mut a, &mut b);
    }
    assert!((a - 2.0).abs() < 1e-8);
    assert!((b - 3.0).abs() < 1e-8);

    let v = quadratic_root(z(1.0, 0.0), z(0.0, 0.0), z(1.0, 0.0)).unwrap();
    assert_eq!(v.len(), 2);
    assert!(to_f64(v[0].re).abs() < 1e-8 && (to_f64(v[0].im) - 1.0).abs() < 1e-8);
    assert!(to_f64(v[1].re).abs() < 1e-8 && (to_f64(v[1].im) + 1.0).abs() < 1e-8);
}

/// The simultaneous iteration solves the same cubic from spread-out
/// seeds, and the polish keeps the roots in place.
#[test]
fn aberth_cubic() {
    let p = Polynomial::from_vec(
        [-6.0, 11.0, -6.0, 1.0]
            .iter()
            .map(|&c| z(c, 0.0))
            .collect(),
    );
    let dp = p.differentiate();
    let f = |w: Complex| p.eval(w);
    let fp = |w: Complex| dp.eval(w);
    let seeds = vec![z(0.0, 1.0), z(1.5, -0.5), z(4.0, 0.5)];
    let roots = aberth(&f, &fp, &seeds).unwrap();
    assert_eq!(roots.len(), 3);
    let polished = polish_roots(&f, &fp, &roots);
    let mut res: Vec<f64> = polished
        .iter()
        .map(|c| {
            assert!(to_f64(c.im).abs() < 1e-5);
            to_f64(c.re)
        })
        .collect();
    res.sort_by(|a, b| a.partial_cmp(b).unwrap());
    assert!((res[0] - 1.0).abs() < 1e-5, "got {:?}", res);
    assert!((res[1] - 2.0).abs() < 1e-5, "got {:?}", res);
    assert!((res[2] - 3.0).abs() < 1e-5, "got {:?}", res);
}

/// A batch whose update drifts by a constant step never converges and
/// uses up the pass budget.
#[test]
fn aberth_no_convergence() {
    let f = |_w: Complex| z(1.0, 0.0);
    let fp = |_w: Complex| z(2.0, 0.0);
    let seeds = vec![z(0.0, 0.0)];
    assert_eq!(aberth(&f, &fp, &seeds), Err(RootsError::NoConvergence));
}

/// An update whose divisor collapses to zero saturates out of the
/// finite range, and the batch reports the non-finite update at once.
#[test]
fn aberth_non_finite() {
    let f = |_w: Complex| z(1.0, 0.0);
    let fp = |_w: Complex| Complex::new(Real::from_mantissa(1), Real::from_mantissa(0));
    let seeds = vec![z(0.0, 0.0)];
    assert_eq!(aberth(&f, &fp, &seeds), Err(RootsError::NonFiniteUpdate));
}

/// The seeding heuristic produces one seed per root.
#[test]
fn campos_seed_count() {
    assert_eq!(campos_zeros(0).len(), 1);
    assert_eq!(campos_zeros(1).len(), 1);
    assert_eq!(campos_zeros(5).len(), 5);
    for s in campos_zeros(5) {
        assert!(s.is_finite());
    }
}

/// The conjugate-mirror averaging of a symmetric list is exact.
#[test]
fn symmetrize_pairs() {
    let v = vec![z(1.0, 2.0), z(3.0, 0.0), z(1.0, -2.0)];
    let s = conjugate_symmetrize(&v);
    assert_eq!(s.len(), 3);
    assert!((to_f64(s[0].re) - 1.0).abs() < 1e-9);
    assert!((to_f64(s[0].im) - 2.0).abs() < 1e-9);
    assert!((to_f64(s[1].re) - 3.0).abs() < 1e-9);
    assert!(to_f64(s[1].im).abs() < 1e-9);
    assert!((to_f64(s[2].re) - 1.0).abs() < 1e-9);
    assert!((to_f64(s[2].im) + 2.0).abs() < 1e-9);
}

/// Solving through the generic entry point reports one root per degree.
#[test]
fn roots_length_matches_degree() {
    let p = Polynomial::from_roots_k(&rvec(&[0.5, -1.0, 2.0, 4.0]), r(1.0));
    let roots = polynomial_roots(&p).unwrap();
    assert_eq!(roots.len(), 4);
}
