use sciport_rs::complex::Complex;
use sciport_rs::fixed::Real;
use sciport_rs::odr::polynomial::Polynomial;

fn r(x: f64) -> Real {
    Real::from_mantissa((x * 4294967296.0).round() as i64)
}

fn to_f64(x: Real) -> f64 {
    x.mantissa() as f64 / 4294967296.0
}

fn rvec(xs: &[f64]) -> Vec<Real> {
    xs.iter().map(|&x| r(x)).collect()
}

fn polynomial_equal(p1: &Polynomial<Real>, p2: &Polynomial<Real>) -> bool {
    p1.degree() == p2.degree()
        && p1
            .coefs()
            .iter()
            .zip(p2.coefs().iter())
            .fold(true, |acc, (a, b)| {
                acc && (to_f64(*a) - to_f64(*b)).abs() < 1e-12
            })
}

#[test]
pub fn polynomial_test() {
    let p1 = Polynomial::from_vec(rvec(&[-3.0, 1.0]));
    let p2 = Polynomial::from_vec(rvec(&[-3.0, 1.0]));

    assert!(polynomial_equal(&p1, &p2));

    let p3 = Polynomial::from_vec(rvec(&[2.0, 3.0]));
    let p4 = Polynomial::from_vec(rvec(&[1.0, 1.0])).add(Polynomial::from_vec(rvec(&[1.0, 2.0])));
    let p5 = Polynomial::from_vec(rvec(&[3.0, 4.0])).sub(Polynomial::from_vec(rvec(&[1.0, 1.0])));

    assert!(polynomial_equal(&p3, &p4));
    assert!(polynomial_equal(&p3, &p5));

    let p6 = Polynomial::from_vec(rvec(&[1.0, 2.0, 1.0]));
    let p7 = Polynomial::from_vec(rvec(&[1.0, 1.0])).mul(Polynomial::from_vec(rvec(&[1.0, 1.0])));
    let p8 = Polynomial::from_vec(rvec(&[2.0, 4.0, 2.0])).scale(r(0.5));
    assert!(polynomial_equal(&p6, &p7));
    assert!(polynomial_equal(&p6, &p8));

    let p9 = Polynomial::from_vec(rvec(&[1.0, 2.0, 3.0]));
    let p10 = Polynomial::from_vec(rvec(&[1.0, 1.0, 1.0, 1.0])).differentiate();
    assert!(polynomial_equal(&p9, &p10));

    let p11 = Polynomial::from_roots_k(&rvec(&[1.0, 2.0, 3.0]), r(1.0));
    let p12 = Polynomial::from_vec(rvec(&[-1.0, 1.0]))
        .mul(Polynomial::from_vec(rvec(&[-2.0, 1.0])))
        .mul(Polynomial::from_vec(rvec(&[-3.0, 1.0])));
    assert!(polynomial_equal(&p11, &p12));

    let sol = p11.roots();
    println!("{:?}", sol);

    let roots = vec![
        Complex::new(r(1.0), r(2.0)),
        Complex::new(r(2.0), r(3.0)),
        Complex::new(r(-1.0), r(-2.0)),
    ];
    let k = Complex::new(r(1.0), r(0.0));
    let p13 = Polynomial::from_roots_k(&roots, k);
    let sol = p13.roots();
    println!("{:?}", sol);
}

/// Trailing zero coefficients are dropped, the zero polynomial stays
/// `[0]`, and degree follows the saturated length.
#[test]
fn saturation_and_degree() {
    let p = Polynomial::from_vec(rvec(&[1.0, 2.0, 0.0, 0.0]));
    assert_eq!(p.degree(), 1);
    assert_eq!(p.coefs().len(), 2);

    let zp = Polynomial::from_vec(rvec(&[0.0, 0.0, 0.0]));
    assert_eq!(zp.degree(), 0);
    assert_eq!(zp.coefs().len(), 1);
    assert_eq!(zp.coefs()[0].mantissa(), 0);

    let z2: Polynomial<Real> = Polynomial::zero();
    assert_eq!(z2.degree(), 0);
    let o: Polynomial<Real> = Polynomial::one();
    assert_eq!(o.degree(), 0);
    assert_eq!(to_f64(o.coefs()[0]), 1.0);
}

/// Horner evaluation, batch evaluation, and the power shift.
#[test]
fn eval_and_shift() {
    let p = Polynomial::from_vec(rvec(&[-6.0, 11.0, -6.0, 1.0]));
    assert_eq!(to_f64(p.eval(r(1.0))), 0.0);
    assert_eq!(to_f64(p.eval(r(4.0))), 6.0);

    let xs = rvec(&[1.0, 2.0, 3.0, 0.0]);
    let ys = p.eval_iter(&xs);
    assert_eq!(ys.len(), 4);
    assert_eq!(to_f64(ys[0]), 0.0);
    assert_eq!(to_f64(ys[1]), 0.0);
    assert_eq!(to_f64(ys[2]), 0.0);
    assert_eq!(to_f64(ys[3]), -6.0);

    let shifted = Polynomial::from_vec(rvec(&[2.0, 3.0])).mul_power(2);
    assert_eq!(shifted.degree(), 3);
    assert_eq!(to_f64(shifted.eval(r(1.0))), 5.0);
    assert_eq!(to_f64(shifted.coefs()[0]), 0.0);
    assert_eq!(to_f64(shifted.coefs()[2]), 2.0);
}

/// Synthetic division recovers quotient and remainder exactly on an
/// integer example: `x^2 - 5x + 6 = (x - 2)(x - 3)`.
#[test]
fn deflate_exact() {
    let p = Polynomial::from_vec(rvec(&[6.0, -5.0, 1.0]));
    let (q, rem) = p.deflate(r(2.0)).unwrap();
    assert_eq!(rem.mantissa(), 0);
    assert_eq!(q.degree(), 1);
    assert_eq!(to_f64(q.coefs()[0]), -3.0);
    assert_eq!(to_f64(q.coefs()[1]), 1.0);

    let (q1, rem1) = p.deflate(r(1.0)).unwrap();
    assert_eq!(to_f64(rem1), 2.0);
    assert_eq!(q1.degree(), 1);

    let c = Polynomial::from_vec(rvec(&[7.0]));
    let (q2, rem2) = c.deflate(r(10.0)).unwrap();
    assert_eq!(q2.degree(), 0);
    assert_eq!(q2.coefs()[0].mantissa(), 0);
    assert_eq!(to_f64(rem2), 7.0);
}
