use sciport_rs::fixed::Real;
use sciport_rs::optimize::criteria::{
    DEFAULT_FATOL_MANT, DEFAULT_MAXITER, DEFAULT_XATOL_MANT, DEFAULT_XRTOL_MANT,
};
use sciport_rs::optimize::metric::MetricType;
use sciport_rs::optimize::min_scalar::golden::golden_method;
use sciport_rs::optimize::min_scalar::MinScalarEvaluator;
use sciport_rs::optimize::{
    Evaluator, FailureReason, OptimizeCriteria, OptimizeResult, OptimizeResultFlag,
};

fn r(x: f64) -> Real {
    Real::from_mantissa((x * 4294967296.0).round() as i64)
}

fn to_f64(x: Real) -> f64 {
    x.mantissa() as f64 / 4294967296.0
}

/// The documented defaults.
#[test]
fn criteria_defaults() {
    let c: OptimizeCriteria = Default::default();
    assert_eq!(c.xatol.unwrap().mantissa(), DEFAULT_XATOL_MANT);
    assert_eq!(c.xrtol.unwrap().mantissa(), DEFAULT_XRTOL_MANT);
    assert_eq!(c.fatol.unwrap().mantissa(), DEFAULT_FATOL_MANT);
    assert_eq!(c.maxiter, Some(DEFAULT_MAXITER));
    assert_eq!(c.x_metric_type, MetricType::L2Norm);

    let e = OptimizeCriteria::empty();
    assert!(e.xatol.is_none());
    assert!(e.maxiter.is_none());
}

/// The builders replace exactly their field.
#[test]
fn criteria_builders() {
    let c = OptimizeCriteria::empty()
        .set_xatol(Some(r(0.25)))
        .set_xrtol(Some(r(0.5)))
        .set_fatol(Some(r(1.0)))
        .set_frtol(Some(r(2.0)))
        .set_fltol(Some(r(4.0)))
        .set_maxiter(Some(17))
        .set_x_metric_type(MetricType::MS)
        .set_f_metric_type(MetricType::L1Norm);
    assert_eq!(to_f64(c.xatol.unwrap()), 0.25);
    assert_eq!(to_f64(c.xrtol.unwrap()), 0.5);
    assert_eq!(to_f64(c.fatol.unwrap()), 1.0);
    assert_eq!(to_f64(c.frtol.unwrap()), 2.0);
    assert_eq!(to_f64(c.fltol.unwrap()), 4.0);
    assert_eq!(c.maxiter, Some(17));
    assert_eq!(c.x_metric_type, MetricType::MS);
    assert_eq!(c.f_metric_type, MetricType::L1Norm);
}

/// The accumulator recomputes its error terms each update and answers
/// the tolerance questions from them.
#[test]
fn result_update_and_tolerances() {
    let mut res: OptimizeResult<Real> = Default::default();
    res = res
        .set_criteria(
            OptimizeCriteria::empty()
                .set_xatol(Some(r(0.5)))
                .set_fatol(Some(r(10.0)))
                .set_maxiter(Some(3)),
        )
        .set_target_f(Some(r(0.0)));

    res.update((r(1.0), r(5.0), None, None));
    assert_eq!(res.iter, 1);
    assert!(res.err_xa.is_none());
    assert!(!res.satisfy_xatol());
    assert!(!res.overran());

    res.update((r(1.25), r(4.0), None, None));
    assert_eq!(res.iter, 2);
    assert_eq!(to_f64(res.err_xa.unwrap()), 0.25);
    assert_eq!(to_f64(res.err_fa.unwrap()), 1.0);
    assert_eq!(to_f64(res.err_fl.unwrap()), 4.0);
    assert!(res.satisfy_xatol());
    assert!(res.satisfy_fatol());
    assert!(!res.satisfy_fltol());
    assert!(res.satisfy_either());
    let sat = res.satisfied();
    assert!(sat.xatol && sat.fatol && !sat.fltol && !sat.xrtol && !sat.frtol);

    res.update((r(2.0), r(3.0), None, None));
    assert!(res.overran());

    res.fev();
    res.jev();
    res.hev();
    assert_eq!((res.nfev, res.njev, res.nhev), (1, 1, 1));
}

/// The flag helpers and setters.
#[test]
fn flag_transitions() {
    let mut res: OptimizeResult<Real> = Default::default();
    assert!(res.flag.is_running());
    res.set_failure(FailureReason::Diverged);
    assert!(res.flag.is_failure());
    assert!(!res.flag.is_success());
    let sat = res.satisfied();
    res.set_success(sat);
    assert!(res.flag.is_success());
}

/// The minimization evaluator fails a run whose objective rose.
#[test]
fn min_evaluator_divergence() {
    let mut res: OptimizeResult<Real> =
        <MinScalarEvaluator as Evaluator<Real>>::new(None);
    res.update((r(1.0), r(5.0), None, None));
    res.update((r(2.0), r(7.0), None, None));
    <MinScalarEvaluator as Evaluator<Real>>::eval(&mut res);
    assert_eq!(res.flag, OptimizeResultFlag::Failure(FailureReason::Diverged));
}

/// Golden-section search narrows onto the parabola's minimum.
#[test]
fn golden_parabola() {
    let fun = |x: Real| {
        let v = to_f64(x);
        r((v - 1.0) * (v - 1.0))
    };
    let criteria = Some(
        OptimizeCriteria::empty()
            .set_xatol(Some(r(1e-6)))
            .set_maxiter(Some(500)),
    );
    let res = golden_method(fun, (r(-10.0), r(10.0)), criteria);
    assert!(matches!(res.flag, OptimizeResultFlag::Success(_)), "{:?}", res.flag);
    let x = to_f64(res.sol_x.unwrap());
    assert!((x - 1.0).abs() < 1e-3, "minimum at {}", x);
}
