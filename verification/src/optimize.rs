//! The iterative optimization engine: the result accumulator, the
//! solver and evaluator interfaces, and the drive loop that couples
//! them.
//!
//! The drive loop owns one [`OptimizeResult`] for the lifetime of a
//! solve: each turn it asks the solver for a new candidate tuple, feeds
//! the tuple to the accumulator, and lets the evaluator decide whether
//! the run goes on.  The loop never inspects algorithm-specific solver
//! state.

use crate::fixed::{div_m, sub_m, Real};
use vstd::prelude::*;

pub mod criteria;
pub mod metric;
pub mod min_scalar;
pub mod root_scalar;
pub mod util;

pub use criteria::OptimizeCriteria;
pub use metric::{IntoMetric, Metric, MetricType};
use metric::{metric_m, metric_of};

verus! {

/// Which tolerances a successful run satisfied, in the fixed evaluation
/// order.
#[derive(Clone, Copy, Debug, PartialEq, Eq, Structural)]
pub struct SatisfiedTols {
    /// The absolute tolerance on the candidate.
    pub xatol: bool,
    /// The relative tolerance on the candidate.
    pub xrtol: bool,
    /// The absolute tolerance on the function value.
    pub fatol: bool,
    /// The relative tolerance on the function value.
    pub frtol: bool,
    /// The tolerance against the target function value.
    pub fltol: bool,
}

/// Why a bracketing solver refused its bracket.
#[derive(Clone, Copy, Debug, PartialEq, Eq, Structural)]
pub enum BracketError {
    /// A bracket endpoint is not finite.
    NonFiniteBracket,
    /// The objective is not finite at an endpoint.
    NonFiniteValue,
    /// The objective has the same sign at both endpoints.
    SameSign,
}

/// Why a run failed.
#[derive(Clone, Copy, Debug, PartialEq, Eq, Structural)]
pub enum FailureReason {
    /// The bracket was rejected before iterating.
    InvalidBracket(BracketError),
    /// The iteration bound was reached; it is carried here.
    MaxIterReached(u64),
    /// The objective rose where the algorithm requires it to fall.
    Diverged,
}

/// Whether the run is still going, succeeded, or failed.
#[derive(Clone, Copy, Debug, PartialEq, Eq, Structural)]
pub enum OptimizeResultFlag {
    /// Still iterating.
    Running,
    /// A tolerance was satisfied.
    Success(SatisfiedTols),
    /// The run failed; see the reason.
    Failure(FailureReason),
}

impl OptimizeResultFlag {
    /// Whether the run is still going.
    pub fn is_running(&self) -> (r: bool)
        ensures
            r == (*self is Running),
    {
        match self {
            OptimizeResultFlag::Running => true,
            _ => false,
        }
    }

    /// Whether the run succeeded.
    pub fn is_success(&self) -> (r: bool)
        ensures
            r == (*self is Success),
    {
        match self {
            OptimizeResultFlag::Success(_) => true,
            _ => false,
        }
    }

    /// Whether the run failed.
    pub fn is_failure(&self) -> (r: bool)
        ensures
            r == (*self is Failure),
    {
        match self {
            OptimizeResultFlag::Failure(_) => true,
            _ => false,
        }
    }
}

/// The iteration bound the engine enforces: the criteria's bound where
/// one is set, else the range of the iteration counter.
pub open spec fn eff_maxiter(c: OptimizeCriteria) -> int {
    match c.maxiter {
        Some(m) => m as int,
        None => u64::MAX as int,
    }
}

/// A counter sum clamped into the counter's range.
pub open spec fn satu64(v: int) -> int {
    if v > u64::MAX {
        u64::MAX as int
    } else {
        v
    }
}

/// The mantissa of an optional measurement.
pub open spec fn opt_mant(o: Option<Real>) -> Option<int> {
    match o {
        Some(r) => Some(r.mant()),
        None => None,
    }
}

/// The state accumulated over one solve.
#[derive(Clone, Copy, Debug)]
pub struct OptimizeResult<C: IntoMetric> {
    /// The criteria the run is evaluated against.
    pub criteria: OptimizeCriteria,
    /// The candidate before the current one.
    pub old_x: Option<C>,
    /// The function value before the current one.
    pub old_f: Option<C>,
    /// The current candidate.
    pub sol_x: Option<C>,
    /// The current function value.
    pub sol_f: Option<C>,
    /// The current first-derivative value, where the solver supplies one.
    pub sol_j: Option<C>,
    /// The current second-derivative value, where the solver supplies one.
    pub sol_h: Option<C>,
    /// The function value aimed at, where there is one.
    pub target_f: Option<C>,
    /// Completed iterations.
    pub iter: u64,
    /// Objective evaluations.
    pub nfev: u64,
    /// First-derivative evaluations.
    pub njev: u64,
    /// Second-derivative evaluations.
    pub nhev: u64,
    /// `norm(x - x')`, once both exist.
    pub err_xa: Option<Real>,
    /// `norm(x - x') / norm(x)`, once both exist.
    pub err_xr: Option<Real>,
    /// `norm(f - f')`, once both exist.
    pub err_fa: Option<Real>,
    /// `norm(f - f') / norm(f)`, once both exist.
    pub err_fr: Option<Real>,
    /// `norm(f - target_f)`, once both exist.
    pub err_fl: Option<Real>,
    /// The run's status.
    pub flag: OptimizeResultFlag,
}

/// The model of the difference of two candidates.
pub open spec fn sub_model<C: crate::odr::polynomial::PolynomialCoef>(a: C, b: C) -> (int, int) {
    (sub_m(a.re_m(), b.re_m()), sub_m(a.im_m(), b.im_m()))
}

/// The absolute candidate error of a state: the measured difference of
/// the current and the previous candidate, where both exist.
pub open spec fn err_xa_of<C: IntoMetric>(r: OptimizeResult<C>) -> Option<int> {
    match (r.sol_x, r.old_x) {
        (Some(s), Some(o)) => Some(
            metric_m(C::abs_of(sub_model(s, o).0, sub_model(s, o).1), r.criteria.x_metric_type),
        ),
        _ => None,
    }
}

/// The relative candidate error: the absolute error over the measure of
/// the current candidate.
pub open spec fn err_xr_of<C: IntoMetric>(r: OptimizeResult<C>) -> Option<int> {
    match (err_xa_of(r), r.sol_x) {
        (Some(e), Some(s)) => Some(div_m(e, metric_of(s, r.criteria.x_metric_type))),
        _ => None,
    }
}

/// The absolute function-value error.
pub open spec fn err_fa_of<C: IntoMetric>(r: OptimizeResult<C>) -> Option<int> {
    match (r.sol_f, r.old_f) {
        (Some(s), Some(o)) => Some(
            metric_m(C::abs_of(sub_model(s, o).0, sub_model(s, o).1), r.criteria.f_metric_type),
        ),
        _ => None,
    }
}

/// The relative function-value error.
pub open spec fn err_fr_of<C: IntoMetric>(r: OptimizeResult<C>) -> Option<int> {
    match (err_fa_of(r), r.sol_f) {
        (Some(e), Some(s)) => Some(div_m(e, metric_of(s, r.criteria.f_metric_type))),
        _ => None,
    }
}

/// The distance of the current function value from the target.
pub open spec fn err_fl_of<C: IntoMetric>(r: OptimizeResult<C>) -> Option<int> {
    match (r.sol_f, r.target_f) {
        (Some(s), Some(o)) => Some(
            metric_m(C::abs_of(sub_model(s, o).0, sub_model(s, o).1), r.criteria.f_metric_type),
        ),
        _ => None,
    }
}

/// Whether the absolute candidate tolerance is enabled and satisfied:
/// the stored error is strictly below it.
pub open spec fn satisfy_xatol_spec<C: IntoMetric>(r: OptimizeResult<C>) -> bool {
    match (r.criteria.xatol, r.err_xa) {
        (Some(tol), Some(err)) => err.mant() < tol.mant(),
        _ => false,
    }
}

/// Whether the relative candidate tolerance is enabled and satisfied.
pub open spec fn satisfy_xrtol_spec<C: IntoMetric>(r: OptimizeResult<C>) -> bool {
    match (r.criteria.xrtol, r.err_xr) {
        (Some(tol), Some(err)) => err.mant() < tol.mant(),
        _ => false,
    }
}

/// Whether the absolute function-value tolerance is enabled and
/// satisfied.
pub open spec fn satisfy_fatol_spec<C: IntoMetric>(r: OptimizeResult<C>) -> bool {
    match (r.criteria.fatol, r.err_fa) {
        (Some(tol), Some(err)) => err.mant() < tol.mant(),
        _ => false,
    }
}

/// Whether the relative function-value tolerance is enabled and
/// satisfied.
pub open spec fn satisfy_frtol_spec<C: IntoMetric>(r: OptimizeResult<C>) -> bool {
    match (r.criteria.frtol, r.err_fr) {
        (Some(tol), Some(err)) => err.mant() < tol.mant(),
        _ => false,
    }
}

/// Whether the target tolerance is enabled and satisfied.
pub open spec fn satisfy_fltol_spec<C: IntoMetric>(r: OptimizeResult<C>) -> bool {
    match (r.criteria.fltol, r.err_fl) {
        (Some(tol), Some(err)) => err.mant() < tol.mant(),
        _ => false,
    }
}

/// All five tolerance verdicts at once.
pub open spec fn satisfied_spec<C: IntoMetric>(r: OptimizeResult<C>) -> SatisfiedTols {
    SatisfiedTols {
        xatol: satisfy_xatol_spec(r),
        xrtol: satisfy_xrtol_spec(r),
        fatol: satisfy_fatol_spec(r),
        frtol: satisfy_frtol_spec(r),
        fltol: satisfy_fltol_spec(r),
    }
}

/// Whether any enabled tolerance is satisfied.
pub open spec fn satisfy_either_spec<C: IntoMetric>(r: OptimizeResult<C>) -> bool {
    ||| satisfy_xatol_spec(r)
    ||| satisfy_xrtol_spec(r)
    ||| satisfy_fatol_spec(r)
    ||| satisfy_frtol_spec(r)
    ||| satisfy_fltol_spec(r)
}

/// Whether the criteria's own iteration bound is set and reached.
pub open spec fn overran_spec<C: IntoMetric>(r: OptimizeResult<C>) -> bool {
    match r.criteria.maxiter {
        Some(m) => r.iter >= m,
        None => false,
    }
}

impl<C: IntoMetric> Default for OptimizeResult<C> {
    /// A fresh accumulator: default criteria, nothing seen, counters at
    /// zero, still running.
    fn default() -> (r: Self)
        ensures
            r.criteria.maxiter == Some(criteria::DEFAULT_MAXITER),
            r.old_x is None,
            r.old_f is None,
            r.sol_x is None,
            r.sol_f is None,
            r.sol_j is None,
            r.sol_h is None,
            r.target_f is None,
            r.iter == 0,
            r.nfev == 0,
            r.njev == 0,
            r.nhev == 0,
            r.err_xa is None,
            r.err_xr is None,
            r.err_fa is None,
            r.err_fr is None,
            r.err_fl is None,
            r.flag is Running,
    {
        OptimizeResult {
            criteria: Default::default(),
            old_x: None,
            old_f: None,
            sol_x: None,
            sol_f: None,
            sol_j: None,
            sol_h: None,
            target_f: None,
            iter: 0,
            nfev: 0,
            njev: 0,
            nhev: 0,
            err_xa: None,
            err_xr: None,
            err_fa: None,
            err_fr: None,
            err_fl: None,
            flag: OptimizeResultFlag::Running,
        }
    }
}

impl<C: IntoMetric> OptimizeResult<C> {
    /// Builder: replace the criteria.
    pub fn set_criteria(self, criteria: OptimizeCriteria) -> (r: Self)
        ensures
            r == (OptimizeResult { criteria, ..self }),
    {
        OptimizeResult { criteria, ..self }
    }

    /// Builder: replace the target function value.
    pub fn set_target_f(self, target_f: Option<C>) -> (r: Self)
        ensures
            r == (OptimizeResult { target_f, ..self }),
    {
        OptimizeResult { target_f, ..self }
    }

    /// Count one objective evaluation; the counter saturates at its
    /// range instead of wrapping.
    pub fn fev(&mut self)
        ensures
            *final(self) == (OptimizeResult {
                nfev: if old(self).nfev < u64::MAX { (old(self).nfev + 1) as u64 } else {
                    u64::MAX
                },
                ..*old(self)
            }),
    {
        if self.nfev < u64::MAX {
            self.nfev = self.nfev + 1;
        }
    }

    /// Count one first-derivative evaluation.
    pub fn jev(&mut self)
        ensures
            *final(self) == (OptimizeResult {
                njev: if old(self).njev < u64::MAX { (old(self).njev + 1) as u64 } else {
                    u64::MAX
                },
                ..*old(self)
            }),
    {
        if self.njev < u64::MAX {
            self.njev = self.njev + 1;
        }
    }

    /// Count one second-derivative evaluation.
    pub fn hev(&mut self)
        ensures
            *final(self) == (OptimizeResult {
                nhev: if old(self).nhev < u64::MAX { (old(self).nhev + 1) as u64 } else {
                    u64::MAX
                },
                ..*old(self)
            }),
    {
        if self.nhev < u64::MAX {
            self.nhev = self.nhev + 1;
        }
    }

    /// `norm(x - x')`, computed from the current state.
    fn error_xa(&self) -> (r: Option<Real>)
        ensures
            opt_mant(r) == err_xa_of(*self),
    {
        match (self.sol_x, self.old_x) {
            (Some(s), Some(o)) => Some(s.sub(o).eval(&self.criteria.x_metric_type)),
            _ => None,
        }
    }

    /// `norm(x - x') / norm(x)`.
    fn error_xr(&self) -> (r: Option<Real>)
        ensures
            opt_mant(r) == err_xr_of(*self),
    {
        match (self.error_xa(), self.sol_x) {
            (Some(e), Some(s)) => Some(e.div(s.eval(&self.criteria.x_metric_type))),
            _ => None,
        }
    }

    /// `norm(f - f')`.
    fn error_fa(&self) -> (r: Option<Real>)
        ensures
            opt_mant(r) == err_fa_of(*self),
    {
        match (self.sol_f, self.old_f) {
            (Some(s), Some(o)) => Some(s.sub(o).eval(&self.criteria.f_metric_type)),
            _ => None,
        }
    }

    /// `norm(f - f') / norm(f)`.
    fn error_fr(&self) -> (r: Option<Real>)
        ensures
            opt_mant(r) == err_fr_of(*self),
    {
        match (self.error_fa(), self.sol_f) {
            (Some(e), Some(s)) => Some(e.div(s.eval(&self.criteria.f_metric_type))),
            _ => None,
        }
    }

    /// `norm(f - target_f)`.
    fn error_fl(&self) -> (r: Option<Real>)
        ensures
            opt_mant(r) == err_fl_of(*self),
    {
        match (self.sol_f, self.target_f) {
            (Some(s), Some(o)) => Some(s.sub(o).eval(&self.criteria.f_metric_type)),
            _ => None,
        }
    }

    /// Take a new candidate tuple from the solver: shift the current
    /// candidate into the previous slot, store the tuple, count the
    /// iteration, and recompute every error term from scratch.
    pub fn update(&mut self, new_solution: (C, C, Option<C>, Option<C>))
        requires
            old(self).iter < u64::MAX,
        ensures
            final(self).criteria == old(self).criteria,
            final(self).old_x == old(self).sol_x,
            final(self).old_f == old(self).sol_f,
            final(self).sol_x == Some(new_solution.0),
            final(self).sol_f == Some(new_solution.1),
            final(self).sol_j == new_solution.2,
            final(self).sol_h == new_solution.3,
            final(self).target_f == old(self).target_f,
            final(self).iter == old(self).iter + 1,
            final(self).nfev == old(self).nfev,
            final(self).njev == old(self).njev,
            final(self).nhev == old(self).nhev,
            final(self).flag == old(self).flag,
            opt_mant(final(self).err_xa) == err_xa_of(*final(self)),
            opt_mant(final(self).err_xr) == err_xr_of(*final(self)),
            opt_mant(final(self).err_fa) == err_fa_of(*final(self)),
            opt_mant(final(self).err_fr) == err_fr_of(*final(self)),
            opt_mant(final(self).err_fl) == err_fl_of(*final(self)),
    {
        self.old_x = self.sol_x;
        self.old_f = self.sol_f;
        self.sol_x = Some(new_solution.0);
        self.sol_f = Some(new_solution.1);
        self.sol_j = new_solution.2;
        self.sol_h = new_solution.3;
        self.iter = self.iter + 1;
        self.err_xa = self.error_xa();
        self.err_xr = self.error_xr();
        self.err_fa = self.error_fa();
        self.err_fr = self.error_fr();
        self.err_fl = self.error_fl();
    }

    /// Whether `xatol` is set and satisfied.
    pub fn satisfy_xatol(&self) -> (r: bool)
        ensures
            r == satisfy_xatol_spec(*self),
    {
        match (self.criteria.xatol, self.err_xa) {
            (Some(tol), Some(err)) => err.lt(tol),
            _ => false,
        }
    }

    /// Whether `xrtol` is set and satisfied.
    pub fn satisfy_xrtol(&self) -> (r: bool)
        ensures
            r == satisfy_xrtol_spec(*self),
    {
        match (self.criteria.xrtol, self.err_xr) {
            (Some(tol), Some(err)) => err.lt(tol),
            _ => false,
        }
    }

    /// Whether `fatol` is set and satisfied.
    pub fn satisfy_fatol(&self) -> (r: bool)
        ensures
            r == satisfy_fatol_spec(*self),
    {
        match (self.criteria.fatol, self.err_fa) {
            (Some(tol), Some(err)) => err.lt(tol),
            _ => false,
        }
    }

    /// Whether `frtol` is set and satisfied.
    pub fn satisfy_frtol(&self) -> (r: bool)
        ensures
            r == satisfy_frtol_spec(*self),
    {
        match (self.criteria.frtol, self.err_fr) {
            (Some(tol), Some(err)) => err.lt(tol),
            _ => false,
        }
    }

    /// Whether `fltol` is set and satisfied.
    pub fn satisfy_fltol(&self) -> (r: bool)
        ensures
            r == satisfy_fltol_spec(*self),
    {
        match (self.criteria.fltol, self.err_fl) {
            (Some(tol), Some(err)) => err.lt(tol),
            _ => false,
        }
    }

    /// Whether any enabled tolerance is satisfied.
    pub fn satisfy_either(&self) -> (r: bool)
        ensures
            r == satisfy_either_spec(*self),
    {
        self.satisfy_xatol() || self.satisfy_xrtol() || self.satisfy_fatol()
            || self.satisfy_frtol() || self.satisfy_fltol()
    }

    /// All five tolerance verdicts, in evaluation order.
    pub fn satisfied(&self) -> (r: SatisfiedTols)
        ensures
            r == satisfied_spec(*self),
    {
        SatisfiedTols {
            xatol: self.satisfy_xatol(),
            xrtol: self.satisfy_xrtol(),
            fatol: self.satisfy_fatol(),
            frtol: self.satisfy_frtol(),
            fltol: self.satisfy_fltol(),
        }
    }

    /// Whether the criteria's iteration bound is set and reached.
    pub fn overran(&self) -> (r: bool)
        ensures
            r == overran_spec(*self),
    {
        match self.criteria.maxiter {
            Some(maxiter) => self.iter >= maxiter,
            None => false,
        }
    }

    /// Mark the run successful.
    pub fn set_success(&mut self, sat: SatisfiedTols)
        ensures
            *final(self) == (OptimizeResult {
                flag: OptimizeResultFlag::Success(sat),
                ..*old(self)
            }),
    {
        self.flag = OptimizeResultFlag::Success(sat);
    }

    /// Mark the run failed.
    pub fn set_failure(&mut self, reason: FailureReason)
        ensures
            *final(self) == (OptimizeResult {
                flag: OptimizeResultFlag::Failure(reason),
                ..*old(self)
            }),
    {
        self.flag = OptimizeResultFlag::Failure(reason);
    }
}

/// A per-algorithm state machine that produces candidate tuples.  The
/// problem `P` bundles whatever callables the algorithm evaluates; the
/// step relation pins each algorithm's state change exactly, and the
/// tie relation says how the produced tuple answers to the problem's
/// callables.
pub trait IterativeSolver<C: IntoMetric, P>: Sized {
    /// What the solver demands of the problem (usually that its
    /// callables are total).
    spec fn prob_wf(p: &P) -> bool;

    /// What the solver state keeps true of the problem between steps:
    /// any cached evaluations really are the callables' answers.
    spec fn state_wf(p: &P, s: &Self) -> bool;

    /// The exact relation between the state before a step, the state
    /// after it, and the produced tuple.
    spec fn step_rel(pre: Self, post: Self, r: (C, C, Option<C>, Option<C>)) -> bool;

    /// How a produced tuple answers to the problem: the value (and any
    /// derivative values) are the callables' answers at the candidate.
    spec fn result_tied(p: &P, r: (C, C, Option<C>, Option<C>)) -> bool;

    /// The evaluations one step makes — objective, derivative, second
    /// derivative — where the count is the same every step.
    spec fn step_cost() -> Option<(int, int, int)>;

    /// Produce the next `(candidate, value, derivative, second
    /// derivative)` tuple.  Only the evaluation counters of `res` may
    /// change, and exactly by the step cost where one is fixed.
    fn new_solution(&mut self, prob: &P, res: &mut OptimizeResult<C>) -> (r: (
        C,
        C,
        Option<C>,
        Option<C>,
    ))
        requires
            Self::prob_wf(prob),
            Self::state_wf(prob, old(self)),
        ensures
            Self::step_rel(*old(self), *final(self), r),
            Self::state_wf(prob, final(self)),
            Self::result_tied(prob, r),
            *final(res) == (OptimizeResult {
                nfev: final(res).nfev,
                njev: final(res).njev,
                nhev: final(res).nhev,
                ..*old(res)
            }),
            final(res).nfev >= old(res).nfev,
            final(res).njev >= old(res).njev,
            final(res).nhev >= old(res).nhev,
            match Self::step_cost() {
                Some(c) => {
                    &&& c.0 >= 0 && c.1 >= 0 && c.2 >= 0
                    &&& final(res).nfev as int == satu64(old(res).nfev + c.0)
                    &&& final(res).njev as int == satu64(old(res).njev + c.1)
                    &&& final(res).nhev as int == satu64(old(res).nhev + c.2)
                },
                None => true,
            },
    ;
}

/// The policy that decides, after each update, whether the run goes on.
/// Its exact transition is the per-implementation `eval_rel`; on top of
/// it every evaluator only ever changes the flag, leaves a stopped run
/// stopped, and stops every run that has reached the engine's iteration
/// bound.
pub trait Evaluator<C: IntoMetric> {
    /// The exact flag transition this evaluator makes.
    spec fn eval_rel(pre: OptimizeResult<C>, post: OptimizeResult<C>) -> bool;

    /// The model of the target function value this evaluator starts a
    /// run with, where it sets one.
    spec fn target_model() -> Option<(int, int)>;

    /// A fresh accumulator for a run under the given criteria (the
    /// default criteria where none are given).
    fn new(criteria: Option<OptimizeCriteria>) -> (r: OptimizeResult<C>)
        ensures
            r.criteria == (match criteria {
                Some(c) => c,
                None => criteria::spec_default_criteria(),
            }),
            r.old_x is None,
            r.old_f is None,
            r.sol_x is None,
            r.sol_f is None,
            r.sol_j is None,
            r.sol_h is None,
            match (r.target_f, Self::target_model()) {
                (Some(t), Some(m)) => (t.re_m(), t.im_m()) == m,
                (None, None) => true,
                _ => false,
            },
            r.iter == 0,
            r.nfev == 0,
            r.njev == 0,
            r.nhev == 0,
            r.err_xa is None,
            r.err_xr is None,
            r.err_fa is None,
            r.err_fr is None,
            r.err_fl is None,
            r.flag is Running,
    ;

    /// Apply the transition rules to the state.
    fn eval(res: &mut OptimizeResult<C>)
        ensures
            Self::eval_rel(*old(res), *final(res)),
            *final(res) == (OptimizeResult { flag: final(res).flag, ..*old(res) }),
            !(old(res).flag is Running) ==> final(res).flag == old(res).flag,
            final(res).flag is Running ==> final(res).iter < eff_maxiter(final(res).criteria),
            old(res).flag is Running && (final(res).flag matches OptimizeResultFlag::Failure(
                FailureReason::MaxIterReached(_),
            )) ==> final(res).iter as int >= eff_maxiter(final(res).criteria),
            match final(res).flag {
                OptimizeResultFlag::Success(sat) => old(res).flag is Running ==> sat
                    == satisfied_spec(*final(res)) && satisfy_either_spec(*final(res)),
                _ => true,
            },
            match final(res).flag {
                OptimizeResultFlag::Failure(FailureReason::MaxIterReached(b)) => old(
                    res,
                ).flag is Running ==> b as int == eff_maxiter(final(res).criteria),
                _ => true,
            },
    ;
}

/// The drive loop: repeatedly ask the solver for a candidate, feed it to
/// the accumulator, and let the evaluator rule, until the run stops.  It
/// always terminates: the evaluator stops every run at the engine's
/// iteration bound, so the returned flag is never `Running`.
pub fn iterative_optimize<C: IntoMetric, P, S: IterativeSolver<C, P>, E: Evaluator<C>>(
    solver: S,
    prob: &P,
    evaluator: OptimizeResult<C>,
) -> (r: OptimizeResult<C>)
    requires
        S::prob_wf(prob),
        S::state_wf(prob, &solver),
        evaluator.iter as int <= eff_maxiter(evaluator.criteria),
        evaluator.iter < u64::MAX,
    ensures
        !(r.flag is Running),
        r.criteria == evaluator.criteria,
        r.target_f == evaluator.target_f,
        r.iter as int <= eff_maxiter(evaluator.criteria) + 1,
        !(evaluator.flag is Running) ==> r == evaluator,
        evaluator.flag is Running ==> r.iter > evaluator.iter,
        r.iter > evaluator.iter ==> r.sol_x is Some && r.sol_f is Some && S::result_tied(
            prob,
            (r.sol_x->Some_0, r.sol_f->Some_0, r.sol_j, r.sol_h),
        ),
        r.iter > evaluator.iter ==> opt_mant(r.err_xa) == err_xa_of(r) && opt_mant(r.err_xr)
            == err_xr_of(r) && opt_mant(r.err_fa) == err_fa_of(r) && opt_mant(r.err_fr)
            == err_fr_of(r) && opt_mant(r.err_fl) == err_fl_of(r),
        match r.flag {
            OptimizeResultFlag::Success(sat) => evaluator.flag is Running ==> sat
                == satisfied_spec(r) && satisfy_either_spec(r),
            _ => true,
        },
        match S::step_cost() {
            Some(c) => {
                &&& r.nfev as int == satu64(evaluator.nfev + c.0 * (r.iter - evaluator.iter))
                &&& r.njev as int == satu64(evaluator.njev + c.1 * (r.iter - evaluator.iter))
                &&& r.nhev as int == satu64(evaluator.nhev + c.2 * (r.iter - evaluator.iter))
            },
            None => true,
        },
        evaluator.flag is Running && (r.flag matches OptimizeResultFlag::Failure(
            FailureReason::MaxIterReached(_),
        )) ==> r.iter as int == eff_maxiter(evaluator.criteria) || r.iter as int
            == evaluator.iter + 1,
        match r.flag {
            OptimizeResultFlag::Failure(FailureReason::MaxIterReached(b)) => evaluator.flag
                is Running ==> b as int == eff_maxiter(evaluator.criteria),
            _ => true,
        },
        r.nfev >= evaluator.nfev,
        r.njev >= evaluator.njev,
        r.nhev >= evaluator.nhev,
        r.iter >= evaluator.iter,
        r.iter > evaluator.iter ==> r.sol_x is Some && r.sol_f is Some,
{
    let mut solver = solver;
    let mut res = evaluator;
    let ghost c0 = evaluator.criteria;
    proof {
        if let Some(c) = S::step_cost() {
            assert(c.0 * 0 == 0) by (nonlinear_arith);
            assert(c.1 * 0 == 0) by (nonlinear_arith);
            assert(c.2 * 0 == 0) by (nonlinear_arith);
        }
    }
    while res.flag.is_running()
        invariant
            S::prob_wf(prob),
            res.criteria == c0,
            res.target_f == evaluator.target_f,
            res.iter as int <= eff_maxiter(c0) + 1,
            res.flag is Running ==> res.iter as int <= eff_maxiter(c0),
            res.flag is Running ==> res.iter < u64::MAX,
            res.flag is Running ==> res.iter == evaluator.iter || (res.iter as int)
                < eff_maxiter(c0),
            evaluator.flag is Running && (res.flag matches OptimizeResultFlag::Failure(
                FailureReason::MaxIterReached(_),
            )) ==> res.iter as int == eff_maxiter(c0) || res.iter as int == evaluator.iter + 1,
            match res.flag {
                OptimizeResultFlag::Failure(FailureReason::MaxIterReached(b)) => evaluator.flag
                    is Running ==> b as int == eff_maxiter(c0),
                _ => true,
            },
            !(evaluator.flag is Running) ==> res == evaluator,
            !(res.flag is Running) && evaluator.flag is Running ==> res.iter > evaluator.iter,
            res.nfev >= evaluator.nfev,
            res.njev >= evaluator.njev,
            res.nhev >= evaluator.nhev,
            res.iter >= evaluator.iter,
            S::state_wf(prob, &solver),
            res.iter > evaluator.iter ==> res.sol_x is Some && res.sol_f is Some
                && S::result_tied(
                prob,
                (res.sol_x->Some_0, res.sol_f->Some_0, res.sol_j, res.sol_h),
            ),
            res.iter > evaluator.iter ==> opt_mant(res.err_xa) == err_xa_of(res) && opt_mant(
                res.err_xr,
            ) == err_xr_of(res) && opt_mant(res.err_fa) == err_fa_of(res) && opt_mant(
                res.err_fr,
            ) == err_fr_of(res) && opt_mant(res.err_fl) == err_fl_of(res),
            match res.flag {
                OptimizeResultFlag::Success(sat) => evaluator.flag is Running ==> sat
                    == satisfied_spec(res) && satisfy_either_spec(res),
                _ => true,
            },
            match S::step_cost() {
                Some(c) => {
                    &&& res.nfev as int == satu64(
                        evaluator.nfev + c.0 * (res.iter - evaluator.iter),
                    )
                    &&& res.njev as int == satu64(
                        evaluator.njev + c.1 * (res.iter - evaluator.iter),
                    )
                    &&& res.nhev as int == satu64(
                        evaluator.nhev + c.2 * (res.iter - evaluator.iter),
                    )
                },
                None => true,
            },
        decreases eff_maxiter(c0) + 1 - res.iter as int,
    {
        let ghost pre_iter = res.iter as int;
        let s = solver.new_solution(prob, &mut res);
        res.update(s);
        E::eval(&mut res);
        proof {
            if let Some(c) = S::step_cost() {
                assert(c.0 * (pre_iter + 1 - evaluator.iter) == c.0 * (pre_iter
                    - evaluator.iter) + c.0) by (nonlinear_arith);
                assert(c.1 * (pre_iter + 1 - evaluator.iter) == c.1 * (pre_iter
                    - evaluator.iter) + c.1) by (nonlinear_arith);
                assert(c.2 * (pre_iter + 1 - evaluator.iter) == c.2 * (pre_iter
                    - evaluator.iter) + c.2) by (nonlinear_arith);
            }
        }
    }
    res
}

} // verus!
