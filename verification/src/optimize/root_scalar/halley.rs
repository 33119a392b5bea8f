//! Halley's method, with caller-supplied derivatives or
//! finite-difference approximations of them.

use crate::odr::polynomial::{cadd_p, cmul_p, csub_p};
use crate::optimize::root_scalar::newton::APPROX_DELTA_MANT;
use crate::optimize::criteria::{spec_default_criteria, OptimizeCriteria};
use crate::optimize::metric::IntoMetric;
use crate::optimize::root_scalar::newton::{call_dfun, delta_of};
use crate::optimize::root_scalar::secant::call_fun;
use crate::optimize::root_scalar::RootScalarEvaluator;
use crate::optimize::util::Espilon;
use crate::optimize::{
    eff_maxiter, iterative_optimize, Evaluator, FailureReason, IterativeSolver, OptimizeResult,
    OptimizeResultFlag,
};
use vstd::prelude::*;

verus! {

/// Count one second-derivative evaluation and make the call.
pub fn call_ddfun<C: IntoMetric, F: Fn(C) -> C>(fun: &F, x: C, res: &mut OptimizeResult<C>) -> (r:
    C)
    requires
        call_requires(*fun, (x,)),
    ensures
        call_ensures(*fun, (x,), r),
        *final(res) == (OptimizeResult { nhev: final(res).nhev, ..*old(res) }),
        final(res).nhev as int == crate::optimize::satu64(old(res).nhev + 1),
{
    res.hev();
    fun(x)
}

/// The model of one Halley step:
/// `x - 2 f f' / (2 f'^2 - f f'' + epsilon)`.
pub open spec fn halley_next_m<C: IntoMetric + Espilon>(
    x0: (int, int),
    f0: (int, int),
    j0: (int, int),
    h0: (int, int),
) -> (int, int) {
    let two = (2 * crate::fixed::SCALE as int, 0int);
    let num = cmul_p(cmul_p(two, f0), j0);
    let den = cadd_p(
        csub_p(cmul_p(two, cmul_p(j0, j0)), cmul_p(f0, h0)),
        (C::eps_re(), C::eps_im()),
    );
    csub_p(x0, C::div_of(num.0, num.1, den.0, den.1))
}

/// `h` is the centered second-difference of `fun` at the point whose
/// value there is `fval`: for some points one step left and right (by
/// model) and the objective's answers there, `h` is
/// `(f(x+d) - 2 fval + f(x-d)) / d / d` with step
/// [`APPROX_DELTA_MANT`].
pub open spec fn second_difference_tied<C: IntoMetric + Espilon, F: Fn(C) -> C>(
    fun: F,
    x: C,
    fval: C,
    h: C,
) -> bool {
    exists|xp: C, xm: C, fp: C, fm: C|
        {
            let delta = (APPROX_DELTA_MANT as int, 0int);
            let twice = cmul_p((fval.re_m(), fval.im_m()), (2 * crate::fixed::SCALE as int, 0int));
            let num = cadd_p(
                csub_p((fp.re_m(), fp.im_m()), twice),
                (fm.re_m(), fm.im_m()),
            );
            let once = C::div_of(num.0, num.1, delta.0, delta.1);
            &&& #[trigger] call_ensures(fun, (xp,), fp)
            &&& #[trigger] call_ensures(fun, (xm,), fm)
            &&& (xp.re_m(), xp.im_m()) == (
                crate::fixed::add_m(x.re_m(), APPROX_DELTA_MANT as int),
                crate::fixed::add_m(x.im_m(), 0),
            )
            &&& (xm.re_m(), xm.im_m()) == (
                crate::fixed::sub_m(x.re_m(), APPROX_DELTA_MANT as int),
                crate::fixed::sub_m(x.im_m(), 0),
            )
            &&& (h.re_m(), h.im_m()) == C::div_of(once.0, once.1, delta.0, delta.1)
        }
}

/// A Halley problem: the objective and its first two derivatives.
pub struct HalleyProblem<F, FD1, FD2> {
    /// The objective.
    pub fun: F,
    /// Its derivative.
    pub dfun: FD1,
    /// Its second derivative.
    pub ddfun: FD2,
}

/// A Halley problem whose derivatives are approximated by finite
/// differences of the objective.
pub struct HalleyApproxProblem<F> {
    /// The objective.
    pub fun: F,
}

/// The Halley solver's state: the current point with its value and both
/// derivative values.
pub struct NewtonSolver<C> {
    /// The current point.
    pub x0: C,
    /// The objective there.
    pub f0: C,
    /// The first derivative there.
    pub j0: C,
    /// The second derivative there.
    pub h0: C,
}

impl<C: IntoMetric + Espilon> NewtonSolver<C> {
    /// One Halley step from the tracked state.
    fn step(&self) -> (r: C)
        ensures
            (r.re_m(), r.im_m()) == halley_next_m::<C>(
                (self.x0.re_m(), self.x0.im_m()),
                (self.f0.re_m(), self.f0.im_m()),
                (self.j0.re_m(), self.j0.im_m()),
                (self.h0.re_m(), self.h0.im_m()),
            ),
    {
        let two = C::from_u64(2);
        let num = two.mul(self.f0).mul(self.j0);
        let den = two.mul(self.j0.mul(self.j0)).sub(self.f0.mul(self.h0)).add(C::epsilon());
        self.x0.sub(num.div(den))
    }
}

impl<C: IntoMetric + Espilon, F: Fn(C) -> C, FD1: Fn(C) -> C, FD2: Fn(C) -> C> IterativeSolver<
    C,
    HalleyProblem<F, FD1, FD2>,
> for NewtonSolver<C> {
    open spec fn prob_wf(p: &HalleyProblem<F, FD1, FD2>) -> bool {
        &&& forall|a: C| call_requires(p.fun, (a,))
        &&& forall|a: C| call_requires(p.dfun, (a,))
        &&& forall|a: C| call_requires(p.ddfun, (a,))
    }

    open spec fn state_wf(p: &HalleyProblem<F, FD1, FD2>, s: &Self) -> bool {
        true
    }

    open spec fn result_tied(
        p: &HalleyProblem<F, FD1, FD2>,
        r: (C, C, Option<C>, Option<C>),
    ) -> bool {
        &&& call_ensures(p.fun, (r.0,), r.1)
        &&& r.2 is Some
        &&& call_ensures(p.dfun, (r.0,), r.2->Some_0)
        &&& r.3 is Some
        &&& call_ensures(p.ddfun, (r.0,), r.3->Some_0)
    }

    open spec fn step_cost() -> Option<(int, int, int)> {
        Some((1, 1, 1))
    }

    open spec fn step_rel(pre: Self, post: Self, r: (C, C, Option<C>, Option<C>)) -> bool {
        &&& (post.x0.re_m(), post.x0.im_m()) == halley_next_m::<C>(
            (pre.x0.re_m(), pre.x0.im_m()),
            (pre.f0.re_m(), pre.f0.im_m()),
            (pre.j0.re_m(), pre.j0.im_m()),
            (pre.h0.re_m(), pre.h0.im_m()),
        )
        &&& r == (post.x0, post.f0, Some(post.j0), Some(post.h0))
    }

    fn new_solution(
        &mut self,
        prob: &HalleyProblem<F, FD1, FD2>,
        res: &mut OptimizeResult<C>,
    ) -> (r: (C, C, Option<C>, Option<C>)) {
        self.x0 = self.step();
        self.f0 = call_fun(&prob.fun, self.x0, res);
        self.j0 = call_dfun(&prob.dfun, self.x0, res);
        self.h0 = call_ddfun(&prob.ddfun, self.x0, res);
        (self.x0, self.f0, Some(self.j0), Some(self.h0))
    }
}

impl<C: IntoMetric + Espilon, F: Fn(C) -> C> IterativeSolver<C, HalleyApproxProblem<F>>
    for NewtonSolver<C> {
    open spec fn prob_wf(p: &HalleyApproxProblem<F>) -> bool {
        forall|a: C| call_requires(p.fun, (a,))
    }

    open spec fn state_wf(p: &HalleyApproxProblem<F>, s: &Self) -> bool {
        true
    }

    open spec fn result_tied(p: &HalleyApproxProblem<F>, r: (C, C, Option<C>, Option<C>)) -> bool {
        &&& call_ensures(p.fun, (r.0,), r.1)
        &&& r.2 is Some
        &&& crate::optimize::root_scalar::newton::centered_quotient_tied(p.fun, r.0, r.2->Some_0)
        &&& r.3 is Some
        &&& second_difference_tied(p.fun, r.0, r.1, r.3->Some_0)
    }

    open spec fn step_cost() -> Option<(int, int, int)> {
        Some((3, 0, 0))
    }

    open spec fn step_rel(pre: Self, post: Self, r: (C, C, Option<C>, Option<C>)) -> bool {
        &&& (post.x0.re_m(), post.x0.im_m()) == halley_next_m::<C>(
            (pre.x0.re_m(), pre.x0.im_m()),
            (pre.f0.re_m(), pre.f0.im_m()),
            (pre.j0.re_m(), pre.j0.im_m()),
            (pre.h0.re_m(), pre.h0.im_m()),
        )
        &&& r == (post.x0, post.f0, Some(post.j0), Some(post.h0))
    }

    fn new_solution(
        &mut self,
        prob: &HalleyApproxProblem<F>,
        res: &mut OptimizeResult<C>,
    ) -> (r: (C, C, Option<C>, Option<C>)) {
        self.x0 = self.step();
        self.f0 = call_fun(&prob.fun, self.x0, res);
        let delta = delta_of::<C>();
        let xp = self.x0.add(delta);
        let xm = self.x0.sub(delta);
        let fplus = call_fun(&prob.fun, xp, res);
        let fminus = call_fun(&prob.fun, xm, res);
        self.j0 = fplus.sub(fminus).div(delta.add(delta));
        self.h0 = fplus.sub(self.f0.mul(C::from_u64(2))).add(fminus).div(delta).div(delta);
        proof {
            assert(call_ensures(prob.fun, (xp,), fplus));
            assert(call_ensures(prob.fun, (xm,), fminus));
        }
        (self.x0, self.f0, Some(self.j0), Some(self.h0))
    }
}

/// Find a root of `fun` by Halley's method with the supplied
/// derivatives.
pub fn halley_method<F: Fn(C) -> C, FD1: Fn(C) -> C, FD2: Fn(C) -> C, C: IntoMetric + Espilon>(
    fun: F,
    dfun: FD1,
    ddfun: FD2,
    x0: C,
    criteria: Option<OptimizeCriteria>,
) -> (r: OptimizeResult<C>)
    requires
        forall|a: C| call_requires(fun, (a,)),
        forall|a: C| call_requires(dfun, (a,)),
        forall|a: C| call_requires(ddfun, (a,)),
    ensures
        !(r.flag is Running),
        r.criteria == (match criteria {
            Some(c) => c,
            None => spec_default_criteria(),
        }),
        r.iter as int <= eff_maxiter(r.criteria) + 1,
        match r.target_f {
            Some(t) => (t.re_m(), t.im_m()) == (0int, 0int),
            None => false,
        },
        (r.flag matches OptimizeResultFlag::Failure(FailureReason::MaxIterReached(_))) ==> (
        r.iter as int) == eff_maxiter(r.criteria) || r.iter == 1,
        match r.flag {
            OptimizeResultFlag::Failure(FailureReason::MaxIterReached(b)) => b as int
                == eff_maxiter(r.criteria),
            _ => true,
        },
        r.iter > 0,
        r.sol_x is Some && r.sol_f is Some,
        call_ensures(fun, (r.sol_x->Some_0,), r.sol_f->Some_0),
        match r.flag {
            OptimizeResultFlag::Success(sat) => sat == crate::optimize::satisfied_spec(r)
                && crate::optimize::satisfy_either_spec(r),
            _ => true,
        },
        crate::optimize::opt_mant(r.err_xa) == crate::optimize::err_xa_of(r),
        crate::optimize::opt_mant(r.err_xr) == crate::optimize::err_xr_of(r),
        crate::optimize::opt_mant(r.err_fa) == crate::optimize::err_fa_of(r),
        crate::optimize::opt_mant(r.err_fr) == crate::optimize::err_fr_of(r),
        crate::optimize::opt_mant(r.err_fl) == crate::optimize::err_fl_of(r),
        r.nfev as int == crate::optimize::satu64(1 + (r.iter as int)),
        r.njev as int == crate::optimize::satu64(1 + (r.iter as int)),
        r.nhev as int == crate::optimize::satu64(1 + (r.iter as int)),
        r.sol_j is Some && call_ensures(dfun, (r.sol_x->Some_0,), r.sol_j->Some_0),
        r.sol_h is Some && call_ensures(ddfun, (r.sol_x->Some_0,), r.sol_h->Some_0),
{
    let mut ev = <RootScalarEvaluator as Evaluator<C>>::new(criteria);
    let f0 = call_fun(&fun, x0, &mut ev);
    let j0 = call_dfun(&dfun, x0, &mut ev);
    let h0 = call_ddfun(&ddfun, x0, &mut ev);
    let solver = NewtonSolver { x0, f0, j0, h0 };
    let prob = HalleyProblem { fun, dfun, ddfun };
    iterative_optimize::<C, HalleyProblem<F, FD1, FD2>, NewtonSolver<C>, RootScalarEvaluator>(
        solver,
        &prob,
        ev,
    )
}

/// Find a root of `fun` by Halley's method, approximating both
/// derivatives by finite differences of the objective.
pub fn halley_method_approx<F: Fn(C) -> C, C: IntoMetric + Espilon>(
    fun: F,
    x0: C,
    criteria: Option<OptimizeCriteria>,
) -> (r: OptimizeResult<C>)
    requires
        forall|a: C| call_requires(fun, (a,)),
    ensures
        !(r.flag is Running),
        r.criteria == (match criteria {
            Some(c) => c,
            None => spec_default_criteria(),
        }),
        r.iter as int <= eff_maxiter(r.criteria) + 1,
        match r.target_f {
            Some(t) => (t.re_m(), t.im_m()) == (0int, 0int),
            None => false,
        },
        (r.flag matches OptimizeResultFlag::Failure(FailureReason::MaxIterReached(_))) ==> (
        r.iter as int) == eff_maxiter(r.criteria) || r.iter == 1,
        match r.flag {
            OptimizeResultFlag::Failure(FailureReason::MaxIterReached(b)) => b as int
                == eff_maxiter(r.criteria),
            _ => true,
        },
        r.iter > 0,
        r.sol_x is Some && r.sol_f is Some,
        call_ensures(fun, (r.sol_x->Some_0,), r.sol_f->Some_0),
        match r.flag {
            OptimizeResultFlag::Success(sat) => sat == crate::optimize::satisfied_spec(r)
                && crate::optimize::satisfy_either_spec(r),
            _ => true,
        },
        crate::optimize::opt_mant(r.err_xa) == crate::optimize::err_xa_of(r),
        crate::optimize::opt_mant(r.err_xr) == crate::optimize::err_xr_of(r),
        crate::optimize::opt_mant(r.err_fa) == crate::optimize::err_fa_of(r),
        crate::optimize::opt_mant(r.err_fr) == crate::optimize::err_fr_of(r),
        crate::optimize::opt_mant(r.err_fl) == crate::optimize::err_fl_of(r),
        r.nfev as int == crate::optimize::satu64(3 + 3 * (r.iter as int)),
        r.njev == 0,
        r.nhev == 0,
        r.sol_j is Some && crate::optimize::root_scalar::newton::centered_quotient_tied(
            fun,
            r.sol_x->Some_0,
            r.sol_j->Some_0,
        ),
        r.sol_h is Some && second_difference_tied(
            fun,
            r.sol_x->Some_0,
            r.sol_f->Some_0,
            r.sol_h->Some_0,
        ),
{
    let mut ev = <RootScalarEvaluator as Evaluator<C>>::new(criteria);
    let f0 = call_fun(&fun, x0, &mut ev);
    let delta = delta_of::<C>();
    let fplus = call_fun(&fun, x0.add(delta), &mut ev);
    let fminus = call_fun(&fun, x0.sub(delta), &mut ev);
    let j0 = fplus.sub(fminus).div(delta.add(delta));
    let h0 = fplus.sub(f0.mul(C::from_u64(2))).add(fminus).div(delta).div(delta);
    let solver = NewtonSolver { x0, f0, j0, h0 };
    let prob = HalleyApproxProblem { fun };
    let r = iterative_optimize::<C, HalleyApproxProblem<F>, NewtonSolver<C>, RootScalarEvaluator>(
        solver,
        &prob,
        ev,
    );
    proof {
        assert(0 * (r.iter as int - ev.iter as int) == 0) by (nonlinear_arith);
        assert(3 * (r.iter as int - ev.iter as int) == 3 * (r.iter as int)) by (nonlinear_arith)
            requires ev.iter == 0;
    }
    r
}

} // verus!
