use sciport_rs::fixed::Real;
use sciport_rs::optimize::min_scalar::golden::golden_method;
use sciport_rs::optimize::OptimizeCriteria;

fn r(x: f64) -> Real {
    Real::from_mantissa((x * 4294967296.0).round() as i64)
}

#[test]
fn min_scalar() {
    let fun = |x: Real| {
        let v = x.mantissa() as f64 / 4294967296.0;
        r(v.powi(2))
    };

    let bracket = (r(-20.0), r(20.0));
    let criteria = Some(
        OptimizeCriteria::empty()
            .set_xatol(Some(r(1e-9)))
            .set_maxiter(Some(5000)),
    );

    let res = golden_method(fun, bracket, criteria);

    println!("{:?} after {} iterations", res.flag, res.iter);
}
