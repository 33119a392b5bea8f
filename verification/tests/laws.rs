use sciport_rs::fixed::Real;
use sciport_rs::optimize::root_scalar::bracket::BracketMethod;
use sciport_rs::optimize::root_scalar::{
    fixed_point_method, newton_method, secant_method, solve_from_bracket,
};
use sciport_rs::optimize::{BracketError, FailureReason, OptimizeCriteria, OptimizeResultFlag};

fn r(x: f64) -> Real {
    Real::from_mantissa((x * 4294967296.0).round() as i64)
}

fn to_f64(x: Real) -> f64 {
    x.mantissa() as f64 / 4294967296.0
}

/// A same-sign bracket fails every bracketing solver before iterating.
#[test]
fn bracket_validity_same_sign() {
    let methods = [
        BracketMethod::Bisect,
        BracketMethod::RegularFalsi,
        BracketMethod::Ridder,
        BracketMethod::Brent,
        BracketMethod::InverseCubic,
    ];
    let fun = |x: Real| {
        let v = to_f64(x);
        r(v * v + 1.0)
    };
    for method in methods {
        let res = solve_from_bracket(fun, &method, (r(-1.0), r(1.0)), None);
        assert_eq!(
            res.flag,
            OptimizeResultFlag::Failure(FailureReason::InvalidBracket(BracketError::SameSign))
        );
        assert_eq!(res.iter, 0);
    }
}

/// A non-finite endpoint, and a non-finite value, each name their rule.
#[test]
fn bracket_validity_non_finite() {
    let fun = |x: Real| x;
    let inf = Real::from_mantissa(i64::MAX);
    let res = solve_from_bracket(fun, &BracketMethod::Bisect, (inf, r(1.0)), None);
    assert_eq!(
        res.flag,
        OptimizeResultFlag::Failure(FailureReason::InvalidBracket(
            BracketError::NonFiniteBracket
        ))
    );

    let blowup = |x: Real| {
        if to_f64(x) < 0.0 {
            Real::from_mantissa(i64::MAX)
        } else {
            x
        }
    };
    let res = solve_from_bracket(blowup, &BracketMethod::Bisect, (r(-1.0), r(1.0)), None);
    assert_eq!(
        res.flag,
        OptimizeResultFlag::Failure(FailureReason::InvalidBracket(BracketError::NonFiniteValue))
    );
}

/// Bisection on a unit bracket with `xatol = 1e-6` succeeds within
/// `ceil(log2(1 / 1e-6)) + 2 = 22` iterations.
#[test]
fn bisection_convergence_bound() {
    let fun = |x: Real| r(to_f64(x) - 0.3);
    let criteria = Some(
        OptimizeCriteria::empty()
            .set_xatol(Some(r(1e-6)))
            .set_maxiter(Some(1000)),
    );
    let res = solve_from_bracket(fun, &BracketMethod::Bisect, (r(0.0), r(1.0)), criteria);
    assert!(matches!(res.flag, OptimizeResultFlag::Success(_)));
    assert!(res.iter <= 22, "took {} iterations", res.iter);
    let root = to_f64(res.sol_x.unwrap());
    assert!((root - 0.3).abs() < 1e-5);
}

/// Newton on `x^2 - 2` with the exact derivative squares its error each
/// step until the scalar's resolution is reached.
#[test]
fn newton_quadratic_convergence() {
    let fun = |x: Real| {
        let v = to_f64(x);
        r(v * v - 2.0)
    };
    let dfun = |x: Real| r(2.0 * to_f64(x));
    let sqrt2 = 2.0_f64.sqrt();
    let mut errs = Vec::new();
    for k in 1..4u64 {
        let criteria = Some(OptimizeCriteria::empty().set_maxiter(Some(k)));
        let res = newton_method(fun, dfun, r(1.5), criteria);
        assert_eq!(res.nfev, res.iter + 1);
        assert_eq!(res.njev, res.iter + 1);
        assert_eq!(res.nhev, 0);
        let xk = to_f64(res.sol_x.unwrap());
        errs.push((xk - sqrt2).abs());
    }
    let e0 = (1.5 - sqrt2).abs();
    assert!(errs[0] <= e0 * e0, "e1 = {}", errs[0]);
    assert!(errs[1] <= errs[0] * errs[0] * 1.5, "e2 = {}", errs[1]);
    assert!(errs[2] < 2e-9, "e3 = {}", errs[2]);
}

/// The secant method on `sin(x) - 0.5` from `0` and `1` finds `pi / 6`.
#[test]
fn secant_sin_half() {
    let fun = |x: Real| r(to_f64(x).sin() - 0.5);
    let criteria = Some(
        OptimizeCriteria::empty()
            .set_fltol(Some(r(1e-9)))
            .set_maxiter(Some(1000)),
    );
    let res = secant_method(fun, r(0.0), r(1.0), criteria);
    assert!(matches!(res.flag, OptimizeResultFlag::Success(_)));
    let root = to_f64(res.sol_x.unwrap());
    assert!(
        (root - std::f64::consts::FRAC_PI_6).abs() < 1e-6,
        "root = {}",
        root
    );
}

/// A constant nonzero objective can satisfy nothing: the run fails at
/// exactly the iteration bound.
#[test]
fn max_iteration_guarantee() {
    let one = |_x: Real| r(1.0);
    let criteria = Some(OptimizeCriteria::empty().set_maxiter(Some(50)));

    let res = fixed_point_method(one, r(0.0), criteria);
    assert_eq!(
        res.flag,
        OptimizeResultFlag::Failure(FailureReason::MaxIterReached(50))
    );
    assert_eq!(res.iter, 50);

    let res = secant_method(one, r(0.0), r(1.0), criteria);
    assert_eq!(
        res.flag,
        OptimizeResultFlag::Failure(FailureReason::MaxIterReached(50))
    );
    assert_eq!(res.iter, 50);
    assert_eq!(res.nfev, 2 + 2 * res.iter);
}
