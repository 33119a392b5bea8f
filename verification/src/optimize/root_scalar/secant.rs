//! The secant method: a rolling window of the last two points.

use crate::optimize::criteria::{spec_default_criteria, OptimizeCriteria};
use crate::optimize::metric::IntoMetric;
use crate::optimize::root_scalar::RootScalarEvaluator;
use crate::optimize::util::Espilon;
use crate::optimize::{
    eff_maxiter, iterative_optimize, Evaluator, FailureReason, IterativeSolver, OptimizeResult,
    OptimizeResultFlag,
};
use crate::odr::polynomial::{cadd_p, cmul_p, csub_p};
use vstd::prelude::*;

verus! {

/// Count one objective evaluation and make the call.
pub fn call_fun<C: IntoMetric, F: Fn(C) -> C>(fun: &F, x: C, res: &mut OptimizeResult<C>) -> (r:
    C)
    requires
        call_requires(*fun, (x,)),
    ensures
        call_ensures(*fun, (x,), r),
        *final(res) == (OptimizeResult { nfev: final(res).nfev, ..*old(res) }),
        final(res).nfev as int == crate::optimize::satu64(old(res).nfev + 1),
{
    res.fev();
    fun(x)
}

/// The model of one secant step: the x-intercept of the secant line
/// through the two tracked points, the denominator guarded by the
/// scalar's epsilon.  The quotient is taken before the product with
/// the step, so that two values near zero are never multiplied.
pub open spec fn secant_next_m<C: IntoMetric + Espilon>(
    x0: (int, int),
    x1: (int, int),
    f0: (int, int),
    f1: (int, int),
) -> (int, int) {
    let den = cadd_p(csub_p(f1, f0), (C::eps_re(), C::eps_im()));
    let slope = C::div_of(f1.0, f1.1, den.0, den.1);
    csub_p(x1, cmul_p(slope, csub_p(x1, x0)))
}

/// The secant solver's state: the last two points and their values.
pub struct SecantSolver<C> {
    /// The older point of the window.
    pub x0: C,
    /// The newer point of the window.
    pub x1: C,
    /// The objective at the older point.
    pub f0: C,
    /// The objective at the newer point.
    pub f1: C,
}

impl<C: IntoMetric + Espilon> SecantSolver<C> {
    /// Evaluate the objective at both starting points and start the
    /// window there.
    pub fn new<F: Fn(C) -> C>(fun: &F, x0: C, x1: C, res: &mut OptimizeResult<C>) -> (r: Self)
        requires
            forall|a: C| call_requires(*fun, (a,)),
        ensures
            r.x0 == x0,
            r.x1 == x1,
            *final(res) == (OptimizeResult { nfev: final(res).nfev, ..*old(res) }),
            final(res).nfev as int == crate::optimize::satu64(old(res).nfev + 2),
    {
        let f0 = call_fun(fun, x0, res);
        let f1 = call_fun(fun, x1, res);
        SecantSolver { x0, x1, f0, f1 }
    }
}

impl<C: IntoMetric + Espilon, F: Fn(C) -> C> IterativeSolver<C, F> for SecantSolver<C> {
    open spec fn prob_wf(p: &F) -> bool {
        forall|a: C| call_requires(*p, (a,))
    }

    open spec fn state_wf(p: &F, s: &Self) -> bool {
        true
    }

    open spec fn result_tied(p: &F, r: (C, C, Option<C>, Option<C>)) -> bool {
        &&& call_ensures(*p, (r.0,), r.1)
        &&& r.2 is None
        &&& r.3 is None
    }

    open spec fn step_cost() -> Option<(int, int, int)> {
        Some((2, 0, 0))
    }

    open spec fn step_rel(pre: Self, post: Self, r: (C, C, Option<C>, Option<C>)) -> bool {
        &&& post.x0 == pre.x1
        &&& (post.x1.re_m(), post.x1.im_m()) == secant_next_m::<C>(
            (pre.x0.re_m(), pre.x0.im_m()),
            (pre.x1.re_m(), pre.x1.im_m()),
            (pre.f0.re_m(), pre.f0.im_m()),
            (pre.f1.re_m(), pre.f1.im_m()),
        )
        &&& r == (post.x1, post.f1, None::<C>, None::<C>)
    }

    fn new_solution(&mut self, prob: &F, res: &mut OptimizeResult<C>) -> (r: (
        C,
        C,
        Option<C>,
        Option<C>,
    )) {
        let den = self.f1.sub(self.f0).add(C::epsilon());
        let x2 = self.x1.sub(self.f1.div(den).mul(self.x1.sub(self.x0)));
        self.x0 = self.x1;
        self.x1 = x2;
        self.f0 = call_fun(prob, self.x0, res);
        self.f1 = call_fun(prob, self.x1, res);
        (self.x1, self.f1, None, None)
    }
}

/// Find a root of `fun` by the secant method from the two starting
/// points.  The run stops with a flag that is never `Running`: success
/// once an enabled tolerance is met, failure at the iteration bound.
pub fn secant_method<F: Fn(C) -> C, C: IntoMetric + Espilon>(
    fun: F,
    x0: C,
    x1: C,
    criteria: Option<OptimizeCriteria>,
) -> (r: OptimizeResult<C>)
    requires
        forall|a: C| call_requires(fun, (a,)),
    ensures
        !(r.flag is Running),
        r.criteria == (match criteria {
            Some(c) => c,
            None => spec_default_criteria(),
        }),
        r.iter as int <= eff_maxiter(r.criteria) + 1,
        match r.target_f {
            Some(t) => (t.re_m(), t.im_m()) == (0int, 0int),
            None => false,
        },
        (r.flag matches OptimizeResultFlag::Failure(FailureReason::MaxIterReached(_))) ==> (
        r.iter as int) == eff_maxiter(r.criteria) || r.iter == 1,
        match r.flag {
            OptimizeResultFlag::Failure(FailureReason::MaxIterReached(b)) => b as int
                == eff_maxiter(r.criteria),
            _ => true,
        },
        r.iter > 0,
        r.sol_x is Some && r.sol_f is Some,
        call_ensures(fun, (r.sol_x->Some_0,), r.sol_f->Some_0),
        match r.flag {
            OptimizeResultFlag::Success(sat) => sat == crate::optimize::satisfied_spec(r)
                && crate::optimize::satisfy_either_spec(r),
            _ => true,
        },
        crate::optimize::opt_mant(r.err_xa) == crate::optimize::err_xa_of(r),
        crate::optimize::opt_mant(r.err_xr) == crate::optimize::err_xr_of(r),
        crate::optimize::opt_mant(r.err_fa) == crate::optimize::err_fa_of(r),
        crate::optimize::opt_mant(r.err_fr) == crate::optimize::err_fr_of(r),
        crate::optimize::opt_mant(r.err_fl) == crate::optimize::err_fl_of(r),
        r.nfev as int == crate::optimize::satu64(2 + 2 * (r.iter as int)),
        r.njev == 0,
        r.nhev == 0,
{
    let mut ev = <RootScalarEvaluator as Evaluator<C>>::new(criteria);
    let solver = SecantSolver::new(&fun, x0, x1, &mut ev);
    iterative_optimize::<C, F, SecantSolver<C>, RootScalarEvaluator>(solver, &fun, ev)
}

} // verus!
