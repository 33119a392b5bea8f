//! Scalar minimization: its evaluator and the golden-section search.

use crate::fixed::Real;
use crate::optimize::criteria::OptimizeCriteria;
use crate::optimize::{
    eff_maxiter, satisfied_spec, satisfy_either_spec, Evaluator, FailureReason, OptimizeResult,
    OptimizeResultFlag,
};
use vstd::prelude::*;

pub mod golden;

verus! {

/// The flag a minimization run moves to after an update.  In priority
/// order: a rising objective fails the run (the algorithms require a
/// falling one); an exactly repeated candidate is stagnation and earns
/// no success, though the iteration bound still ends it; then the
/// tolerances and the bound rule as for root finding.
pub open spec fn min_eval_flag(r: OptimizeResult<Real>) -> OptimizeResultFlag {
    if !(r.flag is Running) {
        r.flag
    } else if match (r.old_f, r.sol_f) {
        (Some(o), Some(s)) => o.mant() < s.mant(),
        _ => false,
    } {
        OptimizeResultFlag::Failure(FailureReason::Diverged)
    } else if match (r.old_x, r.sol_x) {
        (Some(o), Some(s)) => o == s,
        _ => false,
    } {
        if r.iter as int >= eff_maxiter(r.criteria) {
            OptimizeResultFlag::Failure(FailureReason::MaxIterReached(
                eff_maxiter(r.criteria) as u64,
            ))
        } else {
            OptimizeResultFlag::Running
        }
    } else if satisfy_either_spec(r) {
        OptimizeResultFlag::Success(satisfied_spec(r))
    } else if r.iter as int >= eff_maxiter(r.criteria) {
        OptimizeResultFlag::Failure(FailureReason::MaxIterReached(eff_maxiter(r.criteria) as u64))
    } else {
        OptimizeResultFlag::Running
    }
}

/// The evaluator the scalar minimizers share; it sets no target value
/// and applies [`min_eval_flag`] after each update.
pub struct MinScalarEvaluator;

impl Evaluator<Real> for MinScalarEvaluator {
    open spec fn eval_rel(pre: OptimizeResult<Real>, post: OptimizeResult<Real>) -> bool {
        post == (OptimizeResult { flag: min_eval_flag(pre), ..pre })
    }

    open spec fn target_model() -> Option<(int, int)> {
        None
    }

    fn new(criteria: Option<OptimizeCriteria>) -> (r: OptimizeResult<Real>) {
        let c = match criteria {
            Some(c) => c,
            None => Default::default(),
        };
        let r: OptimizeResult<Real> = Default::default();
        r.set_criteria(c)
    }

    fn eval(res: &mut OptimizeResult<Real>) {
        if !res.flag.is_running() {
            return ;
        }
        let diverged = match (res.old_f, res.sol_f) {
            (Some(o), Some(s)) => o.lt(s),
            _ => false,
        };
        if diverged {
            res.set_failure(FailureReason::Diverged);
            return ;
        }
        let bound: u64 = match res.criteria.maxiter {
            Some(m) => m,
            None => u64::MAX,
        };
        let stagnated = match (res.old_x, res.sol_x) {
            (Some(o), Some(s)) => o.mantissa() == s.mantissa(),
            _ => false,
        };
        if stagnated {
            if res.iter >= bound {
                res.set_failure(FailureReason::MaxIterReached(bound));
            }
            return ;
        }
        if res.satisfy_either() {
            let sat = res.satisfied();
            res.set_success(sat);
        } else if res.iter >= bound {
            res.set_failure(FailureReason::MaxIterReached(bound));
        }
    }
}

} // verus!
