//! Newton's method, with a caller-supplied derivative or a
//! finite-difference approximation of it.

use crate::odr::polynomial::{cadd_p, cmul_p, csub_p};
use crate::optimize::criteria::{spec_default_criteria, OptimizeCriteria};
use crate::optimize::metric::IntoMetric;
use crate::optimize::root_scalar::secant::call_fun;
use crate::optimize::root_scalar::RootScalarEvaluator;
use crate::optimize::util::Espilon;
use crate::optimize::{
    eff_maxiter, iterative_optimize, Evaluator, FailureReason, IterativeSolver, OptimizeResult,
    OptimizeResultFlag,
};
use vstd::prelude::*;

verus! {

/// Mantissa of the finite-difference step: about `2^-11`, the cube root
/// of the scalar's resolution, as Newton's approximation rule asks.
pub const APPROX_DELTA_MANT: i64 = 0x20_0000;

/// Count one derivative evaluation and make the call.
pub fn call_dfun<C: IntoMetric, F: Fn(C) -> C>(fun: &F, x: C, res: &mut OptimizeResult<C>) -> (r:
    C)
    requires
        call_requires(*fun, (x,)),
    ensures
        call_ensures(*fun, (x,), r),
        *final(res) == (OptimizeResult { njev: final(res).njev, ..*old(res) }),
        final(res).njev as int == crate::optimize::satu64(old(res).njev + 1),
{
    res.jev();
    fun(x)
}

/// The model of one Newton step: `x - f / (f' + epsilon)`.
pub open spec fn newton_next_m<C: IntoMetric + Espilon>(
    x0: (int, int),
    f0: (int, int),
    j0: (int, int),
) -> (int, int) {
    let den = cadd_p(j0, (C::eps_re(), C::eps_im()));
    csub_p(x0, C::div_of(f0.0, f0.1, den.0, den.1))
}

/// `j` is a centered difference quotient of `fun` at `x` with step
/// [`APPROX_DELTA_MANT`]: for some sampled points one step left and
/// right of `x` (by model) and the objective's answers there, `j` is
/// their difference over twice the step.
pub open spec fn centered_quotient_tied<C: IntoMetric + Espilon, F: Fn(C) -> C>(
    fun: F,
    x: C,
    j: C,
) -> bool {
    exists|xp: C, xm: C, fp: C, fm: C|
        {
            let den = (
                crate::fixed::add_m(APPROX_DELTA_MANT as int, APPROX_DELTA_MANT as int),
                0int,
            );
            let num = (
                crate::fixed::sub_m(fp.re_m(), fm.re_m()),
                crate::fixed::sub_m(fp.im_m(), fm.im_m()),
            );
            &&& #[trigger] call_ensures(fun, (xp,), fp)
            &&& #[trigger] call_ensures(fun, (xm,), fm)
            &&& (xp.re_m(), xp.im_m()) == (
                crate::fixed::add_m(x.re_m(), APPROX_DELTA_MANT as int),
                crate::fixed::add_m(x.im_m(), 0),
            )
            &&& (xm.re_m(), xm.im_m()) == (
                crate::fixed::sub_m(x.re_m(), APPROX_DELTA_MANT as int),
                crate::fixed::sub_m(x.im_m(), 0),
            )
            &&& (j.re_m(), j.im_m()) == C::div_of(num.0, num.1, den.0, den.1)
        }
}

/// A Newton problem: the objective and its derivative.
pub struct NewtonProblem<F, FD> {
    /// The objective.
    pub fun: F,
    /// Its derivative.
    pub dfun: FD,
}

/// A Newton problem whose derivative is approximated by a centered
/// difference of the objective.
pub struct NewtonApproxProblem<F> {
    /// The objective.
    pub fun: F,
}

/// The Newton solver's state: the current point with its value and
/// derivative value.
pub struct NewtonSolver<C> {
    /// The current point.
    pub x0: C,
    /// The objective there.
    pub f0: C,
    /// The derivative there.
    pub j0: C,
}

impl<C: IntoMetric + Espilon, F: Fn(C) -> C, FD: Fn(C) -> C> IterativeSolver<
    C,
    NewtonProblem<F, FD>,
> for NewtonSolver<C> {
    open spec fn prob_wf(p: &NewtonProblem<F, FD>) -> bool {
        &&& forall|a: C| call_requires(p.fun, (a,))
        &&& forall|a: C| call_requires(p.dfun, (a,))
    }

    open spec fn state_wf(p: &NewtonProblem<F, FD>, s: &Self) -> bool {
        true
    }

    open spec fn result_tied(p: &NewtonProblem<F, FD>, r: (C, C, Option<C>, Option<C>)) -> bool {
        &&& call_ensures(p.fun, (r.0,), r.1)
        &&& r.2 is Some
        &&& call_ensures(p.dfun, (r.0,), r.2->Some_0)
        &&& r.3 is None
    }

    open spec fn step_cost() -> Option<(int, int, int)> {
        Some((1, 1, 0))
    }

    open spec fn step_rel(pre: Self, post: Self, r: (C, C, Option<C>, Option<C>)) -> bool {
        &&& (post.x0.re_m(), post.x0.im_m()) == newton_next_m::<C>(
            (pre.x0.re_m(), pre.x0.im_m()),
            (pre.f0.re_m(), pre.f0.im_m()),
            (pre.j0.re_m(), pre.j0.im_m()),
        )
        &&& r == (post.x0, post.f0, Some(post.j0), None::<C>)
    }

    fn new_solution(&mut self, prob: &NewtonProblem<F, FD>, res: &mut OptimizeResult<C>) -> (r: (
        C,
        C,
        Option<C>,
        Option<C>,
    )) {
        self.x0 = self.x0.sub(self.f0.div(self.j0.add(C::epsilon())));
        self.f0 = call_fun(&prob.fun, self.x0, res);
        self.j0 = call_dfun(&prob.dfun, self.x0, res);
        (self.x0, self.f0, Some(self.j0), None)
    }
}

impl<C: IntoMetric + Espilon, F: Fn(C) -> C> IterativeSolver<C, NewtonApproxProblem<F>>
    for NewtonSolver<C> {
    open spec fn prob_wf(p: &NewtonApproxProblem<F>) -> bool {
        forall|a: C| call_requires(p.fun, (a,))
    }

    open spec fn state_wf(p: &NewtonApproxProblem<F>, s: &Self) -> bool {
        true
    }

    open spec fn result_tied(p: &NewtonApproxProblem<F>, r: (C, C, Option<C>, Option<C>)) -> bool {
        &&& call_ensures(p.fun, (r.0,), r.1)
        &&& r.2 is Some
        &&& centered_quotient_tied(p.fun, r.0, r.2->Some_0)
        &&& r.3 is None
    }

    open spec fn step_cost() -> Option<(int, int, int)> {
        Some((3, 0, 0))
    }

    open spec fn step_rel(pre: Self, post: Self, r: (C, C, Option<C>, Option<C>)) -> bool {
        &&& (post.x0.re_m(), post.x0.im_m()) == newton_next_m::<C>(
            (pre.x0.re_m(), pre.x0.im_m()),
            (pre.f0.re_m(), pre.f0.im_m()),
            (pre.j0.re_m(), pre.j0.im_m()),
        )
        &&& r == (post.x0, post.f0, Some(post.j0), None::<C>)
    }

    fn new_solution(&mut self, prob: &NewtonApproxProblem<F>, res: &mut OptimizeResult<C>) -> (r:
        (C, C, Option<C>, Option<C>)) {
        self.x0 = self.x0.sub(self.f0.div(self.j0.add(C::epsilon())));
        self.f0 = call_fun(&prob.fun, self.x0, res);
        let delta = delta_of::<C>();
        let xp = self.x0.add(delta);
        let xm = self.x0.sub(delta);
        let fplus = call_fun(&prob.fun, xp, res);
        let fminus = call_fun(&prob.fun, xm, res);
        self.j0 = fplus.sub(fminus).div(delta.add(delta));
        proof {
            assert(call_ensures(prob.fun, (xp,), fplus));
            assert(call_ensures(prob.fun, (xm,), fminus));
        }
        (self.x0, self.f0, Some(self.j0), None)
    }
}

/// The finite-difference step as a scalar.
pub fn delta_of<C: IntoMetric + Espilon>() -> (r: C)
    ensures
        r.re_m() == APPROX_DELTA_MANT as int,
        r.im_m() == 0,
{
    C::from_real(crate::fixed::Real::from_mantissa(APPROX_DELTA_MANT))
}

/// Find a root of `fun` by Newton's method with the supplied derivative.
pub fn newton_method<F: Fn(C) -> C, FD: Fn(C) -> C, C: IntoMetric + Espilon>(
    fun: F,
    dfun: FD,
    x0: C,
    criteria: Option<OptimizeCriteria>,
) -> (r: OptimizeResult<C>)
    requires
        forall|a: C| call_requires(fun, (a,)),
        forall|a: C| call_requires(dfun, (a,)),
    ensures
        !(r.flag is Running),
        r.criteria == (match criteria {
            Some(c) => c,
            None => spec_default_criteria(),
        }),
        r.iter as int <= eff_maxiter(r.criteria) + 1,
        match r.target_f {
            Some(t) => (t.re_m(), t.im_m()) == (0int, 0int),
            None => false,
        },
        (r.flag matches OptimizeResultFlag::Failure(FailureReason::MaxIterReached(_))) ==> (
        r.iter as int) == eff_maxiter(r.criteria) || r.iter == 1,
        match r.flag {
            OptimizeResultFlag::Failure(FailureReason::MaxIterReached(b)) => b as int
                == eff_maxiter(r.criteria),
            _ => true,
        },
        r.iter > 0,
        r.sol_x is Some && r.sol_f is Some,
        call_ensures(fun, (r.sol_x->Some_0,), r.sol_f->Some_0),
        match r.flag {
            OptimizeResultFlag::Success(sat) => sat == crate::optimize::satisfied_spec(r)
                && crate::optimize::satisfy_either_spec(r),
            _ => true,
        },
        crate::optimize::opt_mant(r.err_xa) == crate::optimize::err_xa_of(r),
        crate::optimize::opt_mant(r.err_xr) == crate::optimize::err_xr_of(r),
        crate::optimize::opt_mant(r.err_fa) == crate::optimize::err_fa_of(r),
        crate::optimize::opt_mant(r.err_fr) == crate::optimize::err_fr_of(r),
        crate::optimize::opt_mant(r.err_fl) == crate::optimize::err_fl_of(r),
        r.nfev as int == crate::optimize::satu64(1 + (r.iter as int)),
        r.njev as int == crate::optimize::satu64(1 + (r.iter as int)),
        r.nhev == 0,
        r.sol_j is Some && call_ensures(dfun, (r.sol_x->Some_0,), r.sol_j->Some_0),
        r.sol_h is None,
{
    let mut ev = <RootScalarEvaluator as Evaluator<C>>::new(criteria);
    let f0 = call_fun(&fun, x0, &mut ev);
    let j0 = call_dfun(&dfun, x0, &mut ev);
    let solver = NewtonSolver { x0, f0, j0 };
    let prob = NewtonProblem { fun, dfun };
    iterative_optimize::<C, NewtonProblem<F, FD>, NewtonSolver<C>, RootScalarEvaluator>(
        solver,
        &prob,
        ev,
    )
}

/// Find a root of `fun` by Newton's method, approximating the derivative
/// by a centered difference with step [`APPROX_DELTA_MANT`].
pub fn newton_method_approx<F: Fn(C) -> C, C: IntoMetric + Espilon>(
    fun: F,
    x0: C,
    criteria: Option<OptimizeCriteria>,
) -> (r: OptimizeResult<C>)
    requires
        forall|a: C| call_requires(fun, (a,)),
    ensures
        !(r.flag is Running),
        r.criteria == (match criteria {
            Some(c) => c,
            None => spec_default_criteria(),
        }),
        r.iter as int <= eff_maxiter(r.criteria) + 1,
        match r.target_f {
            Some(t) => (t.re_m(), t.im_m()) == (0int, 0int),
            None => false,
        },
        (r.flag matches OptimizeResultFlag::Failure(FailureReason::MaxIterReached(_))) ==> (
        r.iter as int) == eff_maxiter(r.criteria) || r.iter == 1,
        match r.flag {
            OptimizeResultFlag::Failure(FailureReason::MaxIterReached(b)) => b as int
                == eff_maxiter(r.criteria),
            _ => true,
        },
        r.iter > 0,
        r.sol_x is Some && r.sol_f is Some,
        call_ensures(fun, (r.sol_x->Some_0,), r.sol_f->Some_0),
        match r.flag {
            OptimizeResultFlag::Success(sat) => sat == crate::optimize::satisfied_spec(r)
                && crate::optimize::satisfy_either_spec(r),
            _ => true,
        },
        crate::optimize::opt_mant(r.err_xa) == crate::optimize::err_xa_of(r),
        crate::optimize::opt_mant(r.err_xr) == crate::optimize::err_xr_of(r),
        crate::optimize::opt_mant(r.err_fa) == crate::optimize::err_fa_of(r),
        crate::optimize::opt_mant(r.err_fr) == crate::optimize::err_fr_of(r),
        crate::optimize::opt_mant(r.err_fl) == crate::optimize::err_fl_of(r),
        r.nfev as int == crate::optimize::satu64(3 + 3 * (r.iter as int)),
        r.njev == 0,
        r.nhev == 0,
        r.sol_j is Some && centered_quotient_tied(fun, r.sol_x->Some_0, r.sol_j->Some_0),
        r.sol_h is None,
{
    let mut ev = <RootScalarEvaluator as Evaluator<C>>::new(criteria);
    let f0 = call_fun(&fun, x0, &mut ev);
    let delta = delta_of::<C>();
    let fplus = call_fun(&fun, x0.add(delta), &mut ev);
    let fminus = call_fun(&fun, x0.sub(delta), &mut ev);
    let j0 = fplus.sub(fminus).div(delta.add(delta));
    let solver = NewtonSolver { x0, f0, j0 };
    let prob = NewtonApproxProblem { fun };
    let r = iterative_optimize::<C, NewtonApproxProblem<F>, NewtonSolver<C>, RootScalarEvaluator>(
        solver,
        &prob,
        ev,
    );
    proof {
        assert(0 * (r.iter as int - ev.iter as int) == 0) by (nonlinear_arith);
        assert(3 * (r.iter as int - ev.iter as int) == 3 * (r.iter as int)) by (nonlinear_arith)
            requires ev.iter == 0;
    }
    r
}

} // verus!
