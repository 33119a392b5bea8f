use sciport_rs::complex::Complex;
use sciport_rs::fixed::Real;
use sciport_rs::optimize::root_scalar::bracket::BracketMethod;
use sciport_rs::optimize::root_scalar::{
    fixed_point_method, halley_method, newton_method, secant_method, solve_from_bracket,
};
use sciport_rs::optimize::OptimizeCriteria;

fn r(x: f64) -> Real {
    Real::from_mantissa((x * 4294967296.0).round() as i64)
}

fn to_f64(x: Real) -> f64 {
    x.mantissa() as f64 / 4294967296.0
}

fn z(re: f64, im: f64) -> Complex {
    Complex::new(r(re), r(im))
}

fn print_divider(s: String) {
    println!("{}", "-".to_string().repeat(64));
    println!("| {:^60} |", s);
    println!("{}", "-".to_string().repeat(64));
}

#[test]
fn root_scalar() {
    let methods = [
        BracketMethod::Bisect,
        BracketMethod::RegularFalsi,
        BracketMethod::Ridder,
    ];
    let fun = |x: Real| {
        let x = to_f64(x);
        r(4.0 * x.powi(3) - 12.0 * x.powi(2) + 3.0 * x - 9.0)
    };
    let dfun = |x: Real| {
        let x = to_f64(x);
        r(12.0 * x.powi(2) - 24.0 * x + 3.0)
    };
    let ddfun = |x: Real| {
        let x = to_f64(x);
        r(24.0 * x - 24.0)
    };
    let x0 = r(10.0);
    let x1 = r(-50.0);
    let bracket = (r(-10.0), r(20.0));
    let criteria = Some(
        OptimizeCriteria::empty()
            .set_fltol(Some(r(1e-9)))
            .set_maxiter(Some(5000)),
    );

    for bracket_method in methods {
        print_divider(format!("{:?}", bracket_method));
        let res = solve_from_bracket(fun, &bracket_method, bracket, criteria);
        println!("{:?} after {} iterations", res.flag, res.iter);
    }

    print_divider("Secant".to_string());
    let res = secant_method(fun, x0, x1, criteria);
    println!("{:?} after {} iterations", res.flag, res.iter);

    print_divider("Newton".to_string());
    let res = newton_method(fun, dfun, x0, criteria);
    println!("{:?} after {} iterations", res.flag, res.iter);

    print_divider("Halley".to_string());
    let res = halley_method(fun, dfun, ddfun, x0, criteria);
    println!("{:?} after {} iterations", res.flag, res.iter);

    let zfun = |w: Complex| {
        let zr = to_f64(w.re);
        let zi = to_f64(w.im);
        let v = num_mul3(zr, zi);
        z(v.0, v.1)
    };
    let zdfun = |w: Complex| {
        let zr = to_f64(w.re);
        let zi = to_f64(w.im);
        let v = num_mul3_d(zr, zi);
        z(v.0, v.1)
    };
    let zddfun = |w: Complex| {
        let zr = to_f64(w.re);
        let zi = to_f64(w.im);
        let v = num_mul3_dd(zr, zi);
        z(v.0, v.1)
    };
    let zx0 = z(5.0, 10.0);
    let zx1 = z(-10.0, -20.0);
    let criteria = Some(
        OptimizeCriteria::empty()
            .set_fltol(Some(r(1e-12)))
            .set_maxiter(Some(1000)),
    );

    print_divider("Secant Complex".to_string());
    let res = secant_method(zfun, zx0, zx1, criteria);
    println!("{:?} after {} iterations", res.flag, res.iter);

    print_divider("Newton Complex".to_string());
    let res = newton_method(zfun, zdfun, zx0, criteria);
    println!("{:?} after {} iterations", res.flag, res.iter);

    print_divider("Halley Complex".to_string());
    let res = halley_method(zfun, zdfun, zddfun, zx0, criteria);
    println!("{:?} after {} iterations", res.flag, res.iter);

    let fun = |x: Real| r(to_f64(x).sin());
    let x0 = r(1.0);
    let criteria = Some(
        OptimizeCriteria::empty()
            .set_fltol(Some(r(1e-9)))
            .set_maxiter(Some(5000)),
    );

    print_divider("Fixed Point".to_string());
    let res = fixed_point_method(fun, x0, criteria);
    println!("{:?} after {} iterations", res.flag, res.iter);

    let zfun = |w: Complex| {
        let a = to_f64(w.re);
        let b = to_f64(w.im);
        z(a.sin() * b.cosh(), a.cos() * b.sinh())
    };
    let zx0 = z(0.5, 0.3);
    let criteria = Some(
        OptimizeCriteria::empty()
            .set_fltol(Some(r(1e-9)))
            .set_maxiter(Some(5000)),
    );

    print_divider("Fixed Point Complex".to_string());
    let res = fixed_point_method(zfun, zx0, criteria);
    println!("{:?} after {} iterations", res.flag, res.iter);
}

/// `2 z^3 - 10 z^2 + 3 z - 15` over f64 pairs.
fn num_mul3(a: f64, b: f64) -> (f64, f64) {
    let (z2r, z2i) = (a * a - b * b, 2.0 * a * b);
    let (z3r, z3i) = (z2r * a - z2i * b, z2r * b + z2i * a);
    (
        2.0 * z3r - 10.0 * z2r + 3.0 * a - 15.0,
        2.0 * z3i - 10.0 * z2i + 3.0 * b,
    )
}

/// Its derivative `6 z^2 - 20 z + 3`.
fn num_mul3_d(a: f64, b: f64) -> (f64, f64) {
    let (z2r, z2i) = (a * a - b * b, 2.0 * a * b);
    (6.0 * z2r - 20.0 * a + 3.0, 6.0 * z2i - 20.0 * b)
}

/// Its second derivative `12 z - 20`.
fn num_mul3_dd(a: f64, b: f64) -> (f64, f64) {
    (12.0 * a - 20.0, 12.0 * b)
}
