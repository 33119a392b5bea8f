//! Golden-section search for a scalar minimum inside a bracket.

use crate::fixed::{add_m, div_m, mul_m, sub_m, Real, SCALE};
use crate::optimize::criteria::{spec_default_criteria, OptimizeCriteria};
use crate::optimize::min_scalar::MinScalarEvaluator;
use crate::optimize::root_scalar::secant::call_fun;
use crate::optimize::{
    eff_maxiter, iterative_optimize, Evaluator, FailureReason, IterativeSolver, OptimizeResult,
    OptimizeResultFlag,
};
use vstd::prelude::*;

verus! {

/// Mantissa of the golden ratio conjugate, about `0.618`.
pub const GOLDEN_RATIO_MANT: i64 = 2654435769;

/// The model of the section offset: the bracket width times the golden
/// ratio.
pub open spec fn golden_d_m(a: int, b: int) -> int {
    mul_m(sub_m(b, a), GOLDEN_RATIO_MANT as int)
}

/// Golden-section state: the bracket `a`, `b` with its values, and up
/// to two interior probes, each with its value once evaluated.
pub struct GoldenSolver {
    /// The lower bracket end.
    pub a: Real,
    /// The lower interior probe, once known.
    pub x: Option<Real>,
    /// The upper interior probe, once known.
    pub y: Option<Real>,
    /// The upper bracket end.
    pub b: Real,
    /// The value at `a`.
    pub fa: Real,
    /// The value at `x`.
    pub fx: Option<Real>,
    /// The value at `y`.
    pub fy: Option<Real>,
    /// The value at `b`.
    pub fb: Real,
}

/// The exact relation of one golden-section step, given the probes
/// `x <= y` it worked with: the wider side of the probe that lost is
/// cut off, and the surviving probe with its value is kept for the next
/// turn.
pub open spec fn golden_step_with(
    pre: GoldenSolver,
    post: GoldenSolver,
    r: (Real, Real, Option<Real>, Option<Real>),
    x: Real,
    fx: Real,
    y: Real,
    fy: Real,
) -> bool {
    let d = golden_d_m(pre.a.mant(), pre.b.mant());
    &&& (match pre.x {
        Some(px) => x == px,
        None => x.mant() == sub_m(pre.b.mant(), d),
    })
    &&& (match pre.y {
        Some(py) => y == py,
        None => y.mant() == add_m(pre.a.mant(), d),
    })
    &&& (match pre.fx {
        Some(pfx) => fx == pfx,
        None => true,
    })
    &&& (match pre.fy {
        Some(pfy) => fy == pfy,
        None => true,
    })
    &&& (fy.mant() < fx.mant() ==> post == (GoldenSolver {
        a: x,
        fa: fx,
        x: Some(y),
        fx: Some(fy),
        y: None,
        fy: None,
        ..pre
    }) && r == (y, fy, None::<Real>, None::<Real>))
    &&& (fy.mant() >= fx.mant() ==> post == (GoldenSolver {
        b: y,
        fb: fy,
        y: Some(x),
        fy: Some(fx),
        x: None,
        fx: None,
        ..pre
    }) && r == (x, fx, None::<Real>, None::<Real>))
}

/// The exact relation of one golden-section step, for some probes.
pub open spec fn golden_step_rel(pre: GoldenSolver, post: GoldenSolver, r: (
    Real,
    Real,
    Option<Real>,
    Option<Real>,
)) -> bool {
    exists|x: Real, fx: Real, y: Real, fy: Real|
        #[trigger] golden_step_with(pre, post, r, x, fx, y, fy)
}

impl<F: Fn(Real) -> Real> IterativeSolver<Real, F> for GoldenSolver {
    open spec fn prob_wf(p: &F) -> bool {
        forall|a: Real| call_requires(*p, (a,))
    }

    open spec fn state_wf(p: &F, s: &Self) -> bool {
        &&& (match (s.x, s.fx) {
            (Some(px), Some(pfx)) => call_ensures(*p, (px,), pfx),
            (None, None) => true,
            _ => false,
        })
        &&& (match (s.y, s.fy) {
            (Some(py), Some(pfy)) => call_ensures(*p, (py,), pfy),
            (None, None) => true,
            _ => false,
        })
    }

    open spec fn result_tied(p: &F, r: (Real, Real, Option<Real>, Option<Real>)) -> bool {
        &&& call_ensures(*p, (r.0,), r.1)
        &&& r.2 is None
        &&& r.3 is None
    }

    open spec fn step_cost() -> Option<(int, int, int)> {
        None
    }

    open spec fn step_rel(pre: Self, post: Self, r: (
        Real,
        Real,
        Option<Real>,
        Option<Real>,
    )) -> bool {
        golden_step_rel(pre, post, r)
    }

    fn new_solution(&mut self, prob: &F, res: &mut OptimizeResult<Real>) -> (r: (
        Real,
        Real,
        Option<Real>,
        Option<Real>,
    )) {
        let ghost pre = *self;
        let d = self.b.sub(self.a).mul(Real::from_mantissa(GOLDEN_RATIO_MANT));
        let x = match self.x {
            Some(x) => x,
            None => self.b.sub(d),
        };
        let fx = match self.fx {
            Some(fx) => fx,
            None => call_fun(prob, x, res),
        };
        let y = match self.y {
            Some(y) => y,
            None => self.a.add(d),
        };
        let fy = match self.fy {
            Some(fy) => fy,
            None => call_fun(prob, y, res),
        };
        let out: (Real, Real, Option<Real>, Option<Real>);
        if fy.lt(fx) {
            self.a = x;
            self.fa = fx;
            self.x = Some(y);
            self.fx = Some(fy);
            self.y = None;
            self.fy = None;
            out = (y, fy, None, None);
        } else {
            self.b = y;
            self.fb = fy;
            self.y = Some(x);
            self.fy = Some(fx);
            self.x = None;
            self.fx = None;
            out = (x, fx, None, None);
        }
        proof {
            assert(golden_step_with(pre, *self, out, x, fx, y, fy));
        }
        out
    }
}

/// Search the bracket for a minimum of `fun` by golden-section
/// narrowing.  The run stops with a flag that is never `Running`.
pub fn golden_method<F: Fn(Real) -> Real>(
    fun: F,
    bracket: (Real, Real),
    criteria: Option<OptimizeCriteria>,
) -> (r: OptimizeResult<Real>)
    requires
        forall|a: Real| call_requires(fun, (a,)),
    ensures
        !(r.flag is Running),
        r.criteria == (match criteria {
            Some(c) => c,
            None => spec_default_criteria(),
        }),
        r.iter as int <= eff_maxiter(r.criteria) + 1,
        r.target_f is None,
        (r.flag matches OptimizeResultFlag::Failure(FailureReason::MaxIterReached(_))) ==> (
        r.iter as int) == eff_maxiter(r.criteria) || r.iter == 1,
        match r.flag {
            OptimizeResultFlag::Failure(FailureReason::MaxIterReached(b)) => b as int
                == eff_maxiter(r.criteria),
            _ => true,
        },
        r.iter > 0,
        r.sol_x is Some && r.sol_f is Some,
        call_ensures(fun, (r.sol_x->Some_0,), r.sol_f->Some_0),
        match r.flag {
            OptimizeResultFlag::Success(sat) => sat == crate::optimize::satisfied_spec(r)
                && crate::optimize::satisfy_either_spec(r),
            _ => true,
        },
        crate::optimize::opt_mant(r.err_xa) == crate::optimize::err_xa_of(r),
        crate::optimize::opt_mant(r.err_xr) == crate::optimize::err_xr_of(r),
        crate::optimize::opt_mant(r.err_fa) == crate::optimize::err_fa_of(r),
        crate::optimize::opt_mant(r.err_fr) == crate::optimize::err_fr_of(r),
        crate::optimize::opt_mant(r.err_fl) == crate::optimize::err_fl_of(r),
{
    let mut ev = <MinScalarEvaluator as Evaluator<Real>>::new(criteria);
    let fa = call_fun(&fun, bracket.0, &mut ev);
    let fb = call_fun(&fun, bracket.1, &mut ev);
    let solver = GoldenSolver {
        a: bracket.0,
        x: None,
        y: None,
        b: bracket.1,
        fa,
        fx: None,
        fy: None,
        fb,
    };
    iterative_optimize::<Real, F, GoldenSolver, MinScalarEvaluator>(solver, &fun, ev)
}

} // verus!
