//! Fixed-point iteration: the supplied function is treated as the
//! negative increment, solving `g(x) = x` by root finding on
//! `g(x) - x`.

use crate::odr::polynomial::csub_p;
use crate::optimize::criteria::{spec_default_criteria, OptimizeCriteria};
use crate::optimize::metric::IntoMetric;
use crate::optimize::root_scalar::secant::call_fun;
use crate::optimize::root_scalar::RootScalarEvaluator;
use crate::optimize::util::Espilon;
use crate::optimize::{
    eff_maxiter, iterative_optimize, Evaluator, FailureReason, IterativeSolver, OptimizeResult,
    OptimizeResultFlag,
};
use vstd::prelude::*;

verus! {

/// The fixed-point solver's state: the current point and its value.
pub struct FixedPointSolver<C> {
    /// The current point.
    pub x0: C,
    /// The objective there.
    pub f0: C,
}

impl<C: IntoMetric + Espilon, F: Fn(C) -> C> IterativeSolver<C, F> for FixedPointSolver<C> {
    open spec fn prob_wf(p: &F) -> bool {
        forall|a: C| call_requires(*p, (a,))
    }

    open spec fn state_wf(p: &F, s: &Self) -> bool {
        true
    }

    open spec fn result_tied(p: &F, r: (C, C, Option<C>, Option<C>)) -> bool {
        &&& call_ensures(*p, (r.0,), r.1)
        &&& r.2 is None
        &&& r.3 is None
    }

    open spec fn step_cost() -> Option<(int, int, int)> {
        Some((1, 0, 0))
    }

    open spec fn step_rel(pre: Self, post: Self, r: (C, C, Option<C>, Option<C>)) -> bool {
        &&& (post.x0.re_m(), post.x0.im_m()) == csub_p(
            (pre.x0.re_m(), pre.x0.im_m()),
            (pre.f0.re_m(), pre.f0.im_m()),
        )
        &&& r == (post.x0, post.f0, None::<C>, None::<C>)
    }

    fn new_solution(&mut self, prob: &F, res: &mut OptimizeResult<C>) -> (r: (
        C,
        C,
        Option<C>,
        Option<C>,
    )) {
        self.x0 = self.x0.sub(self.f0);
        self.f0 = call_fun(prob, self.x0, res);
        (self.x0, self.f0, None, None)
    }
}

/// Iterate `x := x - f(x)` from the starting point.
pub fn fixed_point_method<F: Fn(C) -> C, C: IntoMetric + Espilon>(
    fun: F,
    x0: C,
    criteria: Option<OptimizeCriteria>,
) -> (r: OptimizeResult<C>)
    requires
        forall|a: C| call_requires(fun, (a,)),
    ensures
        !(r.flag is Running),
        r.criteria == (match criteria {
            Some(c) => c,
            None => spec_default_criteria(),
        }),
        r.iter as int <= eff_maxiter(r.criteria) + 1,
        match r.target_f {
            Some(t) => (t.re_m(), t.im_m()) == (0int, 0int),
            None => false,
        },
        (r.flag matches OptimizeResultFlag::Failure(FailureReason::MaxIterReached(_))) ==> (
        r.iter as int) == eff_maxiter(r.criteria) || r.iter == 1,
        match r.flag {
            OptimizeResultFlag::Failure(FailureReason::MaxIterReached(b)) => b as int
                == eff_maxiter(r.criteria),
            _ => true,
        },
        r.iter > 0,
        r.sol_x is Some && r.sol_f is Some,
        call_ensures(fun, (r.sol_x->Some_0,), r.sol_f->Some_0),
        match r.flag {
            OptimizeResultFlag::Success(sat) => sat == crate::optimize::satisfied_spec(r)
                && crate::optimize::satisfy_either_spec(r),
            _ => true,
        },
        crate::optimize::opt_mant(r.err_xa) == crate::optimize::err_xa_of(r),
        crate::optimize::opt_mant(r.err_xr) == crate::optimize::err_xr_of(r),
        crate::optimize::opt_mant(r.err_fa) == crate::optimize::err_fa_of(r),
        crate::optimize::opt_mant(r.err_fr) == crate::optimize::err_fr_of(r),
        crate::optimize::opt_mant(r.err_fl) == crate::optimize::err_fl_of(r),
        r.nfev as int == crate::optimize::satu64(1 + (r.iter as int)),
        r.njev == 0,
        r.nhev == 0,
{
    let mut ev = <RootScalarEvaluator as Evaluator<C>>::new(criteria);
    let f0 = call_fun(&fun, x0, &mut ev);
    let solver = FixedPointSolver { x0, f0 };
    iterative_optimize::<C, F, FixedPointSolver<C>, RootScalarEvaluator>(solver, &fun, ev)
}

} // verus!
