//! The convergence criteria: an immutable bundle of optional tolerances
//! and an optional iteration bound, built in builder style.

use crate::fixed::Real;
use crate::optimize::metric::MetricType;
use vstd::prelude::*;

verus! {

/// Default absolute tolerance on the candidate, about `1e-9`.
pub const DEFAULT_XATOL_MANT: i64 = 4;

/// Default relative tolerance on the candidate: one resolution unit,
/// so only an exact zero relative error meets the strict comparison
/// (the float default `1e-100` plays the same role).
pub const DEFAULT_XRTOL_MANT: i64 = 1;

/// Default absolute tolerance on the function value, about `1e-9`.
pub const DEFAULT_FATOL_MANT: i64 = 4;

/// Default relative tolerance on the function value; see
/// [`DEFAULT_XRTOL_MANT`].
pub const DEFAULT_FRTOL_MANT: i64 = 1;

/// Default tolerance against the target function value, about `1e-9`.
pub const DEFAULT_FLTOL_MANT: i64 = 4;

/// Default iteration bound.
pub const DEFAULT_MAXITER: u64 = 1000;

/// Convergence criteria.  A disabled tolerance (`None`) can never be
/// satisfied; if every tolerance is disabled, only the iteration bound
/// stops the loop, and keeping one is the caller's responsibility.
#[derive(Clone, Copy, Debug)]
pub struct OptimizeCriteria {
    /// Satisfied when `|x - x'| < xatol`.
    pub xatol: Option<Real>,
    /// Satisfied when `|x - x'| / |x| < xrtol`.
    pub xrtol: Option<Real>,
    /// Satisfied when `|f - f'| < fatol`.
    pub fatol: Option<Real>,
    /// Satisfied when `|f - f'| / |f| < frtol`.
    pub frtol: Option<Real>,
    /// Satisfied when `|f - target_f| < fltol`.
    pub fltol: Option<Real>,
    /// Fail once `iter >= maxiter`.
    pub maxiter: Option<u64>,
    /// How the candidate is measured.
    pub x_metric_type: MetricType,
    /// How the function value is measured.
    pub f_metric_type: MetricType,
}

impl OptimizeCriteria {
    /// Builder: set `xatol`.
    pub fn set_xatol(self, tol: Option<Real>) -> (r: Self)
        ensures
            r == (OptimizeCriteria { xatol: tol, ..self }),
    {
        OptimizeCriteria { xatol: tol, ..self }
    }

    /// Builder: set `xrtol`.
    pub fn set_xrtol(self, tol: Option<Real>) -> (r: Self)
        ensures
            r == (OptimizeCriteria { xrtol: tol, ..self }),
    {
        OptimizeCriteria { xrtol: tol, ..self }
    }

    /// Builder: set `fatol`.
    pub fn set_fatol(self, tol: Option<Real>) -> (r: Self)
        ensures
            r == (OptimizeCriteria { fatol: tol, ..self }),
    {
        OptimizeCriteria { fatol: tol, ..self }
    }

    /// Builder: set `frtol`.
    pub fn set_frtol(self, tol: Option<Real>) -> (r: Self)
        ensures
            r == (OptimizeCriteria { frtol: tol, ..self }),
    {
        OptimizeCriteria { frtol: tol, ..self }
    }

    /// Builder: set `fltol`.
    pub fn set_fltol(self, tol: Option<Real>) -> (r: Self)
        ensures
            r == (OptimizeCriteria { fltol: tol, ..self }),
    {
        OptimizeCriteria { fltol: tol, ..self }
    }

    /// Builder: set `maxiter`.
    pub fn set_maxiter(self, max: Option<u64>) -> (r: Self)
        ensures
            r == (OptimizeCriteria { maxiter: max, ..self }),
    {
        OptimizeCriteria { maxiter: max, ..self }
    }

    /// Builder: set how the candidate is measured.
    pub fn set_x_metric_type(self, metric_type: MetricType) -> (r: Self)
        ensures
            r == (OptimizeCriteria { x_metric_type: metric_type, ..self }),
    {
        OptimizeCriteria { x_metric_type: metric_type, ..self }
    }

    /// Builder: set how the function value is measured.
    pub fn set_f_metric_type(self, metric_type: MetricType) -> (r: Self)
        ensures
            r == (OptimizeCriteria { f_metric_type: metric_type, ..self }),
    {
        OptimizeCriteria { f_metric_type: metric_type, ..self }
    }

    /// Criteria with everything disabled and the default L2 measurement.
    pub fn empty() -> (r: Self)
        ensures
            r.xatol is None,
            r.xrtol is None,
            r.fatol is None,
            r.frtol is None,
            r.fltol is None,
            r.maxiter is None,
            r.x_metric_type == MetricType::L2Norm,
            r.f_metric_type == MetricType::L2Norm,
    {
        OptimizeCriteria {
            xatol: None,
            xrtol: None,
            fatol: None,
            frtol: None,
            fltol: None,
            maxiter: None,
            x_metric_type: MetricType::L2Norm,
            f_metric_type: MetricType::L2Norm,
        }
    }
}

/// The default criteria, as a specification value; [`Default`] returns
/// exactly this.
pub open spec fn spec_default_criteria() -> OptimizeCriteria {
    OptimizeCriteria {
        xatol: Some(Real { m: DEFAULT_XATOL_MANT }),
        xrtol: Some(Real { m: DEFAULT_XRTOL_MANT }),
        fatol: Some(Real { m: DEFAULT_FATOL_MANT }),
        frtol: Some(Real { m: DEFAULT_FRTOL_MANT }),
        fltol: Some(Real { m: DEFAULT_FLTOL_MANT }),
        maxiter: Some(DEFAULT_MAXITER),
        x_metric_type: MetricType::L2Norm,
        f_metric_type: MetricType::L2Norm,
    }
}

impl Default for OptimizeCriteria {
    /// The documented defaults: absolute tolerances of about `1e-9`,
    /// relative tolerances only an exact zero meets, and a bound of
    /// 1000 iterations.
    fn default() -> (r: Self)
        ensures
            r == spec_default_criteria(),
    {
        OptimizeCriteria {
            xatol: Some(Real::from_mantissa(DEFAULT_XATOL_MANT)),
            xrtol: Some(Real::from_mantissa(DEFAULT_XRTOL_MANT)),
            fatol: Some(Real::from_mantissa(DEFAULT_FATOL_MANT)),
            frtol: Some(Real::from_mantissa(DEFAULT_FRTOL_MANT)),
            fltol: Some(Real::from_mantissa(DEFAULT_FLTOL_MANT)),
            maxiter: Some(DEFAULT_MAXITER),
            x_metric_type: MetricType::L2Norm,
            f_metric_type: MetricType::L2Norm,
        }
    }
}

} // verus!
