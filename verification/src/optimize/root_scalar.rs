//! Scalar root finding: the shared evaluator and one module per method.

use crate::optimize::criteria::{spec_default_criteria, OptimizeCriteria};
use crate::optimize::metric::IntoMetric;
use crate::optimize::{
    eff_maxiter, satisfied_spec, satisfy_either_spec, Evaluator, FailureReason, OptimizeResult,
    OptimizeResultFlag,
};
use vstd::prelude::*;

pub mod aberth;
pub mod bracket;
pub mod fixed_point;
pub mod halley;
pub mod newton;
pub mod polynomial;
pub mod secant;

pub use bracket::solve_from_bracket;
pub use fixed_point::fixed_point_method;
pub use halley::{halley_method, halley_method_approx};
pub use newton::{newton_method, newton_method_approx};
pub use polynomial::polynomial_roots;
pub use secant::secant_method;

verus! {

/// The flag a root-finding run moves to after an update: success once
/// any enabled tolerance is met, failure once the engine's iteration
/// bound is reached, else unchanged.
pub open spec fn root_eval_flag<C: IntoMetric>(r: OptimizeResult<C>) -> OptimizeResultFlag {
    if !(r.flag is Running) {
        r.flag
    } else if satisfy_either_spec(r) {
        OptimizeResultFlag::Success(satisfied_spec(r))
    } else if r.iter as int >= eff_maxiter(r.criteria) {
        OptimizeResultFlag::Failure(FailureReason::MaxIterReached(eff_maxiter(r.criteria) as u64))
    } else {
        OptimizeResultFlag::Running
    }
}

/// The evaluator every scalar root finder shares: it aims the run at a
/// zero function value and applies [`root_eval_flag`] after each update.
pub struct RootScalarEvaluator;

impl<C: IntoMetric> Evaluator<C> for RootScalarEvaluator {
    open spec fn eval_rel(pre: OptimizeResult<C>, post: OptimizeResult<C>) -> bool {
        post == (OptimizeResult { flag: root_eval_flag(pre), ..pre })
    }

    open spec fn target_model() -> Option<(int, int)> {
        Some((0, 0))
    }

    fn new(criteria: Option<OptimizeCriteria>) -> (r: OptimizeResult<C>) {
        let c = match criteria {
            Some(c) => c,
            None => Default::default(),
        };
        let r: OptimizeResult<C> = Default::default();
        r.set_criteria(c).set_target_f(Some(C::zero()))
    }

    fn eval(res: &mut OptimizeResult<C>) {
        if !res.flag.is_running() {
            return ;
        }
        if res.satisfy_either() {
            let sat = res.satisfied();
            res.set_success(sat);
        } else {
            let bound: u64 = match res.criteria.maxiter {
                Some(m) => m,
                None => u64::MAX,
            };
            if res.iter >= bound {
                res.set_failure(FailureReason::MaxIterReached(bound));
            }
        }
    }
}

} // verus!
