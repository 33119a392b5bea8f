//! The bracketing root finders: bisection, regula falsi, Ridder's
//! method, Brent's method, and an experimental inverse-cubic variant.
//!
//! All of them keep two points whose function values straddle zero; a
//! bracket that does not is refused before the first iteration.

use crate::fixed::{
    abs_m, add_m, div_m, iabs, mul_m, sat_m, sub_m, Real, MANT_MAX_FINITE, MANT_MIN_FINITE, SCALE,
};
use crate::optimize::criteria::{spec_default_criteria, OptimizeCriteria};
use crate::optimize::metric::MetricType;
use crate::optimize::root_scalar::secant::call_fun;
use crate::optimize::root_scalar::{root_eval_flag, RootScalarEvaluator};
use crate::optimize::{
    eff_maxiter, err_fa_of, err_fl_of, err_fr_of, err_xa_of, err_xr_of, opt_mant, satisfied_spec,
    satisfy_either_spec, satu64, BracketError, Evaluator, FailureReason, OptimizeResult,
    OptimizeResultFlag,
};
use vstd::prelude::*;

verus! {

/// The closed set of bracketing algorithms.
#[derive(Clone, Copy, Debug, PartialEq, Eq, Structural)]
pub enum BracketMethod {
    /// Halve the bracket each step.
    Bisect,
    /// Use the secant line through the bracket points.
    RegularFalsi,
    /// Ridder's exponential-interpolation correction of the midpoint.
    Ridder,
    /// Inverse-quadratic interpolation with bisection safeguards.
    Brent,
    /// An inverse-cubic interpolation variant.
    InverseCubic,
}

/// Why a bracket is invalid, if it is: an endpoint out of the finite
/// range, a function value out of it, or function values of one sign
/// (their product's mantissa non-negative).  In that order.
pub open spec fn bracket_error_spec(ax: int, bx: int, fa: int, fb: int) -> Option<BracketError> {
    if !(MANT_MIN_FINITE as int <= ax <= MANT_MAX_FINITE as int && MANT_MIN_FINITE as int <= bx
        <= MANT_MAX_FINITE as int) {
        Some(BracketError::NonFiniteBracket)
    } else if !(MANT_MIN_FINITE as int <= fa <= MANT_MAX_FINITE as int && MANT_MIN_FINITE as int
        <= fb <= MANT_MAX_FINITE as int) {
        Some(BracketError::NonFiniteValue)
    } else if mul_m(fa, fb) >= 0 {
        Some(BracketError::SameSign)
    } else {
        None
    }
}

/// Check a bracket: the two points, and the objective's value at each.
/// Returns the first failing rule, and nothing exactly when the bracket
/// is valid.
pub fn valid_bracket(bracket_x: (Real, Real), bracket_f: (Real, Real)) -> (r: Option<
    BracketError,
>)
    ensures
        r == bracket_error_spec(
            bracket_x.0.mant(),
            bracket_x.1.mant(),
            bracket_f.0.mant(),
            bracket_f.1.mant(),
        ),
{
    let (a, b) = bracket_x;
    let (fa, fb) = bracket_f;
    if !a.is_finite() || !b.is_finite() {
        Some(BracketError::NonFiniteBracket)
    } else if !fa.is_finite() || !fb.is_finite() {
        Some(BracketError::NonFiniteValue)
    } else if fa.mul(fb).is_sign_positive() {
        Some(BracketError::SameSign)
    } else {
        None
    }
}

/// The model of the midpoint of a bracket.
pub open spec fn mid_m(p: int, n: int) -> int {
    div_m(add_m(p, n), 2 * SCALE as int)
}

/// The model of the regula-falsi candidate: the x-intercept of the
/// secant line through the bracket points, the denominator guarded by
/// one epsilon.
pub open spec fn regula_falsi_m(px: int, nx: int, pf: int, nf: int) -> int {
    div_m(sub_m(mul_m(pf, nx), mul_m(nf, px)), add_m(sub_m(pf, nf), 1))
}

/// The x-intercept of the secant line through the two bracket points.
pub fn regular_falsi(pos_x: Real, neg_x: Real, pos_f: Real, neg_f: Real) -> (r: Real)
    ensures
        r.mant() == regula_falsi_m(pos_x.mant(), neg_x.mant(), pos_f.mant(), neg_f.mant()),
{
    pos_f.mul(neg_x).sub(neg_f.mul(pos_x)).div(pos_f.sub(neg_f).add(Real::epsilon()))
}

/// The inverse-quadratic interpolation of three points at zero: the
/// Lagrange polynomial through `(f_i, x_i)` evaluated at `f = 0`.
pub open spec fn iqi_m(a: int, fa: int, b: int, fb: int, c: int, fc: int) -> int {
    let t1 = div_m(mul_m(mul_m(a, fb), fc), mul_m(sub_m(fa, fb), sub_m(fa, fc)));
    let t2 = div_m(mul_m(mul_m(b, fa), fc), mul_m(sub_m(fb, fa), sub_m(fb, fc)));
    let t3 = div_m(mul_m(mul_m(c, fa), fb), mul_m(sub_m(fc, fa), sub_m(fc, fb)));
    add_m(add_m(t1, t2), t3)
}

/// Inverse-quadratic interpolation, executable form.
fn iqi(a: Real, fa: Real, b: Real, fb: Real, c: Real, fc: Real) -> (r: Real)
    ensures
        r.mant() == iqi_m(a.mant(), fa.mant(), b.mant(), fb.mant(), c.mant(), fc.mant()),
{
    let t1 = a.mul(fb).mul(fc).div(fa.sub(fb).mul(fa.sub(fc)));
    let t2 = b.mul(fa).mul(fc).div(fb.sub(fa).mul(fb.sub(fc)));
    let t3 = c.mul(fa).mul(fb).div(fc.sub(fa).mul(fc.sub(fb)));
    t1.add(t2).add(t3)
}

/// The inverse-cubic interpolation of four points at zero.
pub open spec fn icubic_m(
    a: int,
    fa: int,
    b: int,
    fb: int,
    c: int,
    fc: int,
    d: int,
    fd: int,
) -> int {
    let t1 = div_m(
        mul_m(mul_m(mul_m(a, fb), fc), fd),
        mul_m(mul_m(sub_m(fa, fb), sub_m(fa, fc)), sub_m(fa, fd)),
    );
    let t2 = div_m(
        mul_m(mul_m(mul_m(b, fa), fc), fd),
        mul_m(mul_m(sub_m(fb, fa), sub_m(fb, fc)), sub_m(fb, fd)),
    );
    let t3 = div_m(
        mul_m(mul_m(mul_m(c, fa), fb), fd),
        mul_m(mul_m(sub_m(fc, fa), sub_m(fc, fb)), sub_m(fc, fd)),
    );
    let t4 = div_m(
        mul_m(mul_m(mul_m(d, fa), fb), fc),
        mul_m(mul_m(sub_m(fd, fa), sub_m(fd, fb)), sub_m(fd, fc)),
    );
    add_m(add_m(add_m(t1, t2), t3), t4)
}

/// Inverse-cubic interpolation, executable form.
fn icubic(a: Real, fa: Real, b: Real, fb: Real, c: Real, fc: Real, d: Real, fd: Real) -> (r: Real)
    ensures
        r.mant() == icubic_m(
            a.mant(),
            fa.mant(),
            b.mant(),
            fb.mant(),
            c.mant(),
            fc.mant(),
            d.mant(),
            fd.mant(),
        ),
{
    let t1 = a.mul(fb).mul(fc).mul(fd).div(fa.sub(fb).mul(fa.sub(fc)).mul(fa.sub(fd)));
    let t2 = b.mul(fa).mul(fc).mul(fd).div(fb.sub(fa).mul(fb.sub(fc)).mul(fb.sub(fd)));
    let t3 = c.mul(fa).mul(fb).mul(fd).div(fc.sub(fa).mul(fc.sub(fb)).mul(fc.sub(fd)));
    let t4 = d.mul(fa).mul(fb).mul(fc).div(fd.sub(fa).mul(fd.sub(fb)).mul(fd.sub(fc)));
    t1.add(t2).add(t3).add(t4)
}

/// Bisection state: the endpoint with non-negative value and the one
/// with negative value.
pub struct BisectSolver {
    /// The endpoint whose function value is non-negative.
    pub pos: Real,
    /// The endpoint whose function value is negative.
    pub neg: Real,
}

/// The starting bisection state: the pair ordered by the sign of the
/// function values.
pub open spec fn bisect_init(bracket_x: (Real, Real), bracket_f: (Real, Real)) -> BisectSolver {
    if bracket_f.0.mant() >= 0 {
        BisectSolver { pos: bracket_x.0, neg: bracket_x.1 }
    } else {
        BisectSolver { pos: bracket_x.1, neg: bracket_x.0 }
    }
}

impl BisectSolver {
    /// Order the endpoints by the sign of their function values.
    pub fn new(bracket_x: (Real, Real), bracket_f: (Real, Real)) -> (r: Self)
        ensures
            r == bisect_init(bracket_x, bracket_f),
    {
        if bracket_f.0.is_sign_positive() {
            BisectSolver { pos: bracket_x.0, neg: bracket_x.1 }
        } else {
            BisectSolver { pos: bracket_x.1, neg: bracket_x.0 }
        }
    }
}

/// Regula-falsi state: both endpoints with their values.
pub struct RegularFalsiSolver {
    /// The endpoint with non-negative value.
    pub pos_x: Real,
    /// The endpoint with negative value.
    pub neg_x: Real,
    /// The value at `pos_x`.
    pub pos_f: Real,
    /// The value at `neg_x`.
    pub neg_f: Real,
}

/// The starting regula-falsi state: points and values ordered by sign.
pub open spec fn regula_falsi_init(bracket_x: (Real, Real), bracket_f: (Real, Real))
    -> RegularFalsiSolver {
    if bracket_f.0.mant() >= 0 {
        RegularFalsiSolver {
            pos_x: bracket_x.0,
            neg_x: bracket_x.1,
            pos_f: bracket_f.0,
            neg_f: bracket_f.1,
        }
    } else {
        RegularFalsiSolver {
            pos_x: bracket_x.1,
            neg_x: bracket_x.0,
            pos_f: bracket_f.1,
            neg_f: bracket_f.0,
        }
    }
}

impl RegularFalsiSolver {
    /// Order the endpoints by the sign of their function values.
    pub fn new(bracket_x: (Real, Real), bracket_f: (Real, Real)) -> (r: Self)
        ensures
            r == regula_falsi_init(bracket_x, bracket_f),
    {
        if bracket_f.0.is_sign_positive() {
            RegularFalsiSolver {
                pos_x: bracket_x.0,
                neg_x: bracket_x.1,
                pos_f: bracket_f.0,
                neg_f: bracket_f.1,
            }
        } else {
            RegularFalsiSolver {
                pos_x: bracket_x.1,
                neg_x: bracket_x.0,
                pos_f: bracket_f.1,
                neg_f: bracket_f.0,
            }
        }
    }
}

/// Ridder state: the bracket with both values.
pub struct Ridder {
    /// The left point.
    pub x0: Real,
    /// The right point.
    pub x2: Real,
    /// The value at `x0`.
    pub f0: Real,
    /// The value at `x2`.
    pub f2: Real,
}

/// Brent state: the bracket pair `a`, `b` kept so that the magnitude
/// of the value at `a` is at least that at `b` (so `b` is the best
/// estimate), the previous `b` in `c`, the point before `c` once it
/// exists, their values, and whether the last step fell back to
/// bisection.
pub struct Brent {
    /// The bracket end with the larger-magnitude value.
    pub a: Real,
    /// The bracket end with the smaller-magnitude value: the best
    /// estimate.
    pub b: Real,
    /// The previous `b`.
    pub c: Real,
    /// The estimate before `c`, once three steps happened.
    pub d: Option<Real>,
    /// The value at `a`.
    pub fa: Real,
    /// The value at `b`.
    pub fb: Real,
    /// The value at `c`.
    pub fc: Real,
    /// Whether the previous step used bisection.
    pub used_bisect: bool,
}

/// The starting Brent state: the larger-magnitude value goes first,
/// and every later swap re-establishes that order.
pub open spec fn brent_init(bracket_x: (Real, Real), bracket_f: (Real, Real)) -> Brent {
    if abs_m(bracket_f.0.mant()) < abs_m(bracket_f.1.mant()) {
        Brent {
            a: bracket_x.1,
            b: bracket_x.0,
            c: bracket_x.1,
            d: None,
            fa: bracket_f.1,
            fb: bracket_f.0,
            fc: bracket_f.1,
            used_bisect: false,
        }
    } else {
        Brent {
            a: bracket_x.0,
            b: bracket_x.1,
            c: bracket_x.0,
            d: None,
            fa: bracket_f.0,
            fb: bracket_f.1,
            fc: bracket_f.0,
            used_bisect: false,
        }
    }
}

impl Brent {
    /// Start from a bracket, with the smaller-magnitude value first.
    pub fn new(bracket_x: (Real, Real), bracket_f: (Real, Real)) -> (r: Self)
        ensures
            r == brent_init(bracket_x, bracket_f),
    {
        let (mut a, mut b) = bracket_x;
        let (mut fa, mut fb) = bracket_f;
        if fa.abs().lt(fb.abs()) {
            let t = a;
            a = b;
            b = t;
            let tf = fa;
            fa = fb;
            fb = tf;
        }
        Brent { a, b, c: a, d: None, fa, fb, fc: fa, used_bisect: false }
    }
}

/// Inverse-cubic state: the outer bracket `a`, `d` and up to one inner
/// point per side, each with its value.
pub struct InverseCubic {
    /// The outer point on one side, with its value.
    pub a: (Real, Real),
    /// The inner point on `a`'s side, once found.
    pub b: Option<(Real, Real)>,
    /// The inner point on `d`'s side, once found.
    pub c: Option<(Real, Real)>,
    /// The outer point on the other side, with its value.
    pub d: (Real, Real),
}

/// One algorithm's state, behind the closed method set.
pub enum BracketMethodSolver {
    /// Bisection.
    Bisect(BisectSolver),
    /// Regula falsi.
    RegularFalsi(RegularFalsiSolver),
    /// Ridder's method.
    Ridder(Ridder),
    /// Brent's method.
    Brent(Brent),
    /// The inverse-cubic variant.
    InverseCubic(InverseCubic),
}

impl BracketMethod {
    /// Build the solver for this method from an evaluated bracket.
    pub fn get_solver(&self, bracket_x: (Real, Real), bracket_f: (Real, Real)) -> (r:
        BracketMethodSolver)
        ensures
            *self is Bisect ==> r == BracketMethodSolver::Bisect(
                bisect_init(bracket_x, bracket_f),
            ),
            *self is RegularFalsi ==> r == BracketMethodSolver::RegularFalsi(
                regula_falsi_init(bracket_x, bracket_f),
            ),
            *self is Ridder ==> r == BracketMethodSolver::Ridder(Ridder {
                x0: bracket_x.0,
                x2: bracket_x.1,
                f0: bracket_f.0,
                f2: bracket_f.1,
            }),
            *self is Brent ==> r == BracketMethodSolver::Brent(brent_init(bracket_x, bracket_f)),
            *self is InverseCubic ==> r == BracketMethodSolver::InverseCubic(InverseCubic {
                a: (bracket_x.0, bracket_f.0),
                b: None,
                c: None,
                d: (bracket_x.1, bracket_f.1),
            }),
    {
        match self {
            BracketMethod::Bisect => BracketMethodSolver::Bisect(
                BisectSolver::new(bracket_x, bracket_f),
            ),
            BracketMethod::RegularFalsi => BracketMethodSolver::RegularFalsi(
                RegularFalsiSolver::new(bracket_x, bracket_f),
            ),
            BracketMethod::Ridder => BracketMethodSolver::Ridder(Ridder {
                x0: bracket_x.0,
                x2: bracket_x.1,
                f0: bracket_f.0,
                f2: bracket_f.1,
            }),
            BracketMethod::Brent => BracketMethodSolver::Brent(Brent::new(bracket_x, bracket_f)),
            BracketMethod::InverseCubic => BracketMethodSolver::InverseCubic(InverseCubic {
                a: (bracket_x.0, bracket_f.0),
                b: None,
                c: None,
                d: (bracket_x.1, bracket_f.1),
            }),
        }
    }
}

/// The exact relation of one bisection step: the candidate is the
/// midpoint, and the endpoint sharing the candidate value's sign is
/// replaced by it.
pub open spec fn bisect_step_rel(pre: BisectSolver, post: BisectSolver, r: (
    Real,
    Real,
    Option<Real>,
    Option<Real>,
)) -> bool {
    &&& r.0.mant() == mid_m(pre.pos.mant(), pre.neg.mant())
    &&& r.1.mant() >= 0 ==> post == (BisectSolver { pos: r.0, neg: pre.neg })
    &&& r.1.mant() < 0 ==> post == (BisectSolver { pos: pre.pos, neg: r.0 })
    &&& r.2 is None
    &&& r.3 is None
}

/// The exact relation of one regula-falsi step.
pub open spec fn regula_falsi_step_rel(pre: RegularFalsiSolver, post: RegularFalsiSolver, r: (
    Real,
    Real,
    Option<Real>,
    Option<Real>,
)) -> bool {
    &&& r.0.mant() == regula_falsi_m(
        pre.pos_x.mant(),
        pre.neg_x.mant(),
        pre.pos_f.mant(),
        pre.neg_f.mant(),
    )
    &&& r.1.mant() >= 0 ==> post == (RegularFalsiSolver {
        pos_x: r.0,
        pos_f: r.1,
        ..pre
    })
    &&& r.1.mant() < 0 ==> post == (RegularFalsiSolver { neg_x: r.0, neg_f: r.1, ..pre })
    &&& r.2 is None
    &&& r.3 is None
}

/// The model of Ridder's corrected point, from the midpoint `x1`, its
/// value `y1`, and the bracket state; the square-root argument is
/// clamped at zero and the denominator guarded by one epsilon.
pub open spec fn ridder_point_m(pre: Ridder, x1: int, y1: int) -> int {
    let d = sub_m(pre.x0.mant(), x1);
    let q1 = div_m(y1, pre.f0.mant());
    let arg = sub_m(mul_m(q1, q1), div_m(pre.f2.mant(), pre.f0.mant()));
    let root = crate::fixed::sqrt_m(crate::complex::max0_m(arg));
    add_m(x1, mul_m(d, div_m(div_m(y1, pre.f2.mant()), add_m(root, 1))))
}

/// The exact relation of one Ridder step, given `y1`, the objective's
/// answer at the midpoint: the corrected point is evaluated, and the
/// narrowest sign-correct sub-bracket is kept.
pub open spec fn ridder_step_with(pre: Ridder, post: Ridder, r: (
    Real,
    Real,
    Option<Real>,
    Option<Real>,
), y1: Real) -> bool {
    let x1 = mid_m(pre.x0.mant(), pre.x2.mant());
    let x3 = ridder_point_m(pre, x1, y1.mant());
    &&& r.0.mant() == x3
    &&& (div_m(y1.mant(), r.1.mant()) < 0 ==> post.x0.mant() == x1 && post.f0 == y1 && post.x2
        == r.0 && post.f2 == r.1)
    &&& (!(div_m(y1.mant(), r.1.mant()) < 0) && div_m(pre.f2.mant(), r.1.mant()) < 0 ==> post
        == (Ridder { x0: r.0, f0: r.1, ..pre }))
    &&& (!(div_m(y1.mant(), r.1.mant()) < 0) && !(div_m(pre.f2.mant(), r.1.mant()) < 0) ==> post
        == (Ridder { x2: r.0, f2: r.1, ..pre }))
    &&& r.2 is None
    &&& r.3 is None
}

/// The exact relation of one Ridder step, for some midpoint answer.
pub open spec fn ridder_step_rel(pre: Ridder, post: Ridder, r: (
    Real,
    Real,
    Option<Real>,
    Option<Real>,
)) -> bool {
    exists|y1: Real| #[trigger] ridder_step_with(pre, post, r, y1)
}

/// Brent's candidate: inverse-quadratic interpolation when the three
/// tracked values are pairwise distinct, else the secant through `a`
/// and `b`; replaced by the midpoint of `a` and `b` (a bisection step)
/// when it falls outside the safeguard interval or shrinks too slowly.
/// Returns the candidate's mantissa and whether bisection was used.
pub open spec fn brent_cand_m(pre: Brent) -> (int, bool) {
    let base = if pre.fa.mant() != pre.fb.mant() && pre.fa.mant() != pre.fc.mant()
        && pre.fb.mant() != pre.fc.mant() {
        iqi_m(
            pre.a.mant(),
            pre.fa.mant(),
            pre.b.mant(),
            pre.fb.mant(),
            pre.c.mant(),
            pre.fc.mant(),
        )
    } else {
        regula_falsi_m(pre.a.mant(), pre.b.mant(), pre.fa.mant(), pre.fb.mant())
    };
    let tab = div_m(add_m(mul_m(3 * SCALE as int, pre.a.mant()), pre.b.mant()), 4 * SCALE as int);
    let cond1 = mul_m(sub_m(base, tab), sub_m(base, pre.b.mant())) >= 0;
    let cond2 = pre.used_bisect && !(abs_m(sub_m(base, pre.b.mant())) < div_m(
        abs_m(sub_m(pre.b.mant(), pre.c.mant())),
        2 * SCALE as int,
    ));
    let cond3 = match pre.d {
        Some(d) => !pre.used_bisect && !(abs_m(sub_m(base, pre.b.mant())) < div_m(
            abs_m(sub_m(pre.c.mant(), d.mant())),
            2 * SCALE as int,
        )),
        None => false,
    };
    if cond1 || cond2 || cond3 {
        (mid_m(pre.a.mant(), pre.b.mant()), true)
    } else {
        (base, false)
    }
}

/// The exact relation of one Brent step: the candidate of
/// [`brent_cand_m`] is evaluated, the three-point history shifts, the
/// endpoint not straddling the new value is replaced, and the pair is
/// swapped if needed so the best estimate keeps the smaller magnitude.
pub open spec fn brent_step_rel(pre: Brent, post: Brent, r: (
    Real,
    Real,
    Option<Real>,
    Option<Real>,
)) -> bool {
    let cm = brent_cand_m(pre).0;
    let used = brent_cand_m(pre).1;
    let straddles = mul_m(pre.fa.mant(), r.1.mant()) < 0;
    let a1 = if straddles {
        pre.a
    } else {
        r.0
    };
    let fa1 = if straddles {
        pre.fa
    } else {
        r.1
    };
    let b1 = if straddles {
        r.0
    } else {
        pre.b
    };
    let fb1 = if straddles {
        r.1
    } else {
        pre.fb
    };
    let swap = abs_m(fa1.mant()) < abs_m(fb1.mant());
    &&& r.0.mant() == cm
    &&& post == (Brent {
        a: if swap {
            b1
        } else {
            a1
        },
        b: if swap {
            a1
        } else {
            b1
        },
        c: pre.b,
        d: Some(pre.c),
        fa: if swap {
            fb1
        } else {
            fa1
        },
        fb: if swap {
            fa1
        } else {
            fb1
        },
        fc: pre.fb,
        used_bisect: used,
    })
    &&& r.2 is None
    &&& r.3 is None
}

/// The exact relation of one inverse-cubic step, given the objective's
/// answers: `v1` at the first point it sampled, and `v2` at the second,
/// where the branch samples two.  Each branch of the method keeps the
/// quirks it has always had, down to the pairing of the points and
/// values it stores.
pub open spec fn inverse_cubic_step_with(
    pre: InverseCubic,
    post: InverseCubic,
    r: (Real, Real, Option<Real>, Option<Real>),
    v1: Real,
    v2: Real,
) -> bool {
    let a = pre.a.0;
    let fa = pre.a.1;
    let dx = pre.d.0;
    let fd = pre.d.1;
    &&& r.2 is None
    &&& r.3 is None
    &&& (match (pre.b, pre.c) {
        (None, None) => {
            let g = regula_falsi_m(a.mant(), dx.mant(), fa.mant(), fd.mant());
            &&& r.0.mant() == g
            &&& r.1 == v1
            &&& (mul_m(v1.mant(), fa.mant()) >= 0 ==> post == (InverseCubic {
                b: Some((r.0, v1)),
                ..pre
            }))
            &&& (mul_m(v1.mant(), fa.mant()) < 0 ==> post == (InverseCubic {
                c: Some((r.0, v1)),
                ..pre
            }))
        },
        (Some(bp), None) => {
            let g = iqi_m(a.mant(), fa.mant(), bp.0.mant(), bp.1.mant(), dx.mant(), fd.mant());
            let m = mid_m(bp.0.mant(), dx.mant());
            if mul_m(sub_m(g, bp.0.mant()), sub_m(g, dx.mant())) >= 0 {
                &&& r.0.mant() == m
                &&& r.1 == v1
                &&& (mul_m(v1.mant(), fd.mant()) >= 0 ==> post == (InverseCubic {
                    c: Some((r.0, v1)),
                    ..pre
                }))
                &&& (mul_m(v1.mant(), fd.mant()) < 0 ==> post == (InverseCubic {
                    a: bp,
                    b: Some((r.0, v1)),
                    ..pre
                }))
            } else if mul_m(v1.mant(), fd.mant()) >= 0 {
                &&& r.0.mant() == g
                &&& r.1 == v1
                &&& post == (InverseCubic { c: Some((r.0, v1)), ..pre })
            } else if mul_m(v2.mant(), fd.mant()) >= 0 {
                &&& r.0.mant() == m
                &&& r.1 == v2
                &&& post == (InverseCubic { c: Some((r.0, v2)), ..pre })
            } else if mul_m(sub_m(g, bp.0.mant()), sub_m(g, m)) < 0 {
                &&& r.0.mant() == m
                &&& r.1 == v2
                &&& post == (InverseCubic {
                    a: (Real { m: g as i64 }, v1),
                    b: Some((r.0, v2)),
                    ..pre
                })
            } else {
                &&& r.0.mant() == g
                &&& r.1 == v1
                &&& post == (InverseCubic {
                    a: (Real { m: m as i64 }, v2),
                    b: Some((r.0, v1)),
                    ..pre
                })
            }
        },
        (None, Some(cp)) => {
            let g = iqi_m(a.mant(), fa.mant(), cp.0.mant(), cp.1.mant(), dx.mant(), fd.mant());
            let m = mid_m(a.mant(), cp.0.mant());
            if mul_m(sub_m(g, cp.0.mant()), sub_m(g, a.mant())) >= 0 {
                &&& r.0.mant() == m
                &&& r.1 == v1
                &&& (mul_m(v1.mant(), fd.mant()) < 0 ==> post == (InverseCubic {
                    d: cp,
                    b: Some((r.0, v1)),
                    ..pre
                }))
                &&& (mul_m(v1.mant(), fd.mant()) >= 0 ==> post == (InverseCubic {
                    b: Some((r.0, v1)),
                    ..pre
                }))
            } else if mul_m(v1.mant(), fa.mant()) >= 0 {
                &&& r.0.mant() == g
                &&& r.1 == v1
                &&& post == (InverseCubic { b: Some((r.0, v1)), ..pre })
            } else if mul_m(v2.mant(), fd.mant()) >= 0 {
                &&& r.0.mant() == g
                &&& r.1 == v2
                &&& post == (InverseCubic { c: Some((r.0, v2)), ..pre })
            } else if mul_m(sub_m(g, cp.0.mant()), sub_m(g, m)) < 0 {
                &&& r.0.mant() == m
                &&& r.1 == v2
                &&& post == (InverseCubic {
                    d: (Real { m: g as i64 }, v1),
                    c: Some((r.0, v2)),
                    ..pre
                })
            } else {
                &&& r.0.mant() == g
                &&& r.1 == v1
                &&& post == (InverseCubic {
                    d: (Real { m: m as i64 }, v2),
                    c: Some((r.0, v1)),
                    ..pre
                })
            }
        },
        (Some(bp), Some(cp)) => {
            let g0 = icubic_m(
                a.mant(),
                fa.mant(),
                bp.0.mant(),
                bp.1.mant(),
                cp.0.mant(),
                cp.1.mant(),
                dx.mant(),
                fd.mant(),
            );
            let g = if mul_m(sub_m(g0, bp.0.mant()), sub_m(g0, cp.0.mant())) >= 0 {
                mid_m(bp.0.mant(), cp.0.mant())
            } else {
                g0
            };
            &&& r.0.mant() == g
            &&& r.1 == v1
            &&& (mul_m(v1.mant(), fa.mant()) >= 0 ==> post == (InverseCubic {
                a: bp,
                b: Some((r.0, v1)),
                ..pre
            }))
            &&& (mul_m(v1.mant(), fa.mant()) < 0 ==> post == (InverseCubic {
                d: cp,
                c: Some((r.0, v1)),
                ..pre
            }))
        },
    })
}

/// The exact relation of one inverse-cubic step, for some sampled
/// values.
pub open spec fn inverse_cubic_step_rel(pre: InverseCubic, post: InverseCubic, r: (
    Real,
    Real,
    Option<Real>,
    Option<Real>,
)) -> bool {
    exists|v1: Real, v2: Real| #[trigger] inverse_cubic_step_with(pre, post, r, v1, v2)
}

impl BracketMethodSolver {
    /// Produce the next candidate tuple for whichever algorithm this
    /// is, counting the objective evaluations in `res`.
    pub fn new_solution<F: Fn(Real) -> Real>(
        &mut self,
        fun: &F,
        res: &mut OptimizeResult<Real>,
    ) -> (r: (Real, Real, Option<Real>, Option<Real>))
        requires
            forall|a: Real| call_requires(*fun, (a,)),
        ensures
            *final(res) == (OptimizeResult { nfev: final(res).nfev, ..*old(res) }),
            final(res).nfev >= old(res).nfev,
            !((*old(self)) is InverseCubic) ==> call_ensures(*fun, (r.0,), r.1),
            ((*old(self)) is Bisect || (*old(self)) is RegularFalsi || (*old(self)) is Brent)
                ==> final(res).nfev as int == satu64(old(res).nfev + 1),
            (*old(self)) is Ridder ==> final(res).nfev as int == satu64(old(res).nfev + 2),
            (*old(self)) is InverseCubic ==> final(res).nfev as int == satu64(old(res).nfev + 1)
                || final(res).nfev as int == satu64(old(res).nfev + 2),
            (*old(self)) is Bisect ==> (*final(self)) is Bisect && bisect_step_rel(
                (*old(self))->Bisect_0,
                (*final(self))->Bisect_0,
                r,
            ),
            (*old(self)) is RegularFalsi ==> (*final(self)) is RegularFalsi && regula_falsi_step_rel(
                (*old(self))->RegularFalsi_0,
                (*final(self))->RegularFalsi_0,
                r,
            ),
            (*old(self)) is Ridder ==> (*final(self)) is Ridder && exists|x1v: Real, y1: Real|
                {
                    &&& #[trigger] call_ensures(*fun, (x1v,), y1)
                    &&& x1v.mant() == mid_m(
                        (*old(self))->Ridder_0.x0.mant(),
                        (*old(self))->Ridder_0.x2.mant(),
                    )
                    &&& ridder_step_with(
                        (*old(self))->Ridder_0,
                        (*final(self))->Ridder_0,
                        r,
                        y1,
                    )
                },
            (*old(self)) is Brent ==> (*final(self)) is Brent && brent_step_rel(
                (*old(self))->Brent_0,
                (*final(self))->Brent_0,
                r,
            ),
            (*old(self)) is InverseCubic ==> (*final(self)) is InverseCubic
                && inverse_cubic_step_rel(
                (*old(self))->InverseCubic_0,
                (*final(self))->InverseCubic_0,
                r,
            ),
            r.2 is None,
            r.3 is None,
    {
        match self {
            BracketMethodSolver::Bisect(s) => {
                let x = s.pos.add(s.neg).div(Real::from_int(2));
                let f = call_fun(fun, x, res);
                if f.is_sign_positive() {
                    s.pos = x;
                } else {
                    s.neg = x;
                }
                (x, f, None, None)
            },
            BracketMethodSolver::RegularFalsi(s) => {
                let x = regular_falsi(s.pos_x, s.neg_x, s.pos_f, s.neg_f);
                let f = call_fun(fun, x, res);
                if f.is_sign_positive() {
                    s.pos_x = x;
                    s.pos_f = f;
                } else {
                    s.neg_x = x;
                    s.neg_f = f;
                }
                (x, f, None, None)
            },
            BracketMethodSolver::Ridder(s) => {
                let x1 = s.x0.add(s.x2).div(Real::from_int(2));
                let d = s.x0.sub(x1);
                let y1 = call_fun(fun, x1, res);
                let q1 = y1.div(s.f0);
                let arg = crate::complex::max0(q1.mul(q1).sub(s.f2.div(s.f0)));
                let x3 = x1.add(d.mul(y1.div(s.f2).div(arg.sqrt().add(Real::epsilon()))));
                let y3 = call_fun(fun, x3, res);
                let ghost pre = *s;
                if y1.div(y3).is_sign_negative() {
                    s.x0 = x1;
                    s.f0 = y1;
                    s.x2 = x3;
                    s.f2 = y3;
                } else if s.f2.div(y3).is_sign_negative() {
                    s.x0 = x3;
                    s.f0 = y3;
                } else {
                    s.x2 = x3;
                    s.f2 = y3;
                }
                proof {
                    assert(call_ensures(*fun, (x1,), y1));
                    assert(ridder_step_with(pre, *s, (x3, y3, None::<Real>, None::<Real>), y1));
                }
                (x3, y3, None, None)
            },
            BracketMethodSolver::Brent(s) => {
                let mut cand: Real = if !(s.fa.mantissa() == s.fb.mantissa()) && !(s.fa.mantissa()
                    == s.fc.mantissa()) && !(s.fb.mantissa() == s.fc.mantissa()) {
                    iqi(s.a, s.fa, s.b, s.fb, s.c, s.fc)
                } else {
                    regular_falsi(s.a, s.b, s.fa, s.fb)
                };
                let three_a_b = Real::from_int(3).mul(s.a).add(s.b).div(Real::from_int(4));
                let condition1 = cand.sub(three_a_b).mul(cand.sub(s.b)).is_sign_positive();
                let condition2 = s.used_bisect && !cand.sub(s.b).abs().lt(
                    s.b.sub(s.c).abs().div(Real::from_int(2)),
                );
                let condition3 = match s.d {
                    Some(d) => !s.used_bisect && !cand.sub(s.b).abs().lt(
                        s.c.sub(d).abs().div(Real::from_int(2)),
                    ),
                    None => false,
                };
                if condition1 || condition2 || condition3 {
                    cand = s.a.add(s.b).div(Real::from_int(2));
                    s.used_bisect = true;
                } else {
                    s.used_bisect = false;
                }
                let fs = call_fun(fun, cand, res);
                s.d = Some(s.c);
                s.c = s.b;
                s.fc = s.fb;
                if s.fa.mul(fs).is_sign_negative() {
                    s.b = cand;
                    s.fb = fs;
                } else {
                    s.a = cand;
                    s.fa = fs;
                }
                if s.fa.abs().lt(s.fb.abs()) {
                    let t = s.a;
                    s.a = s.b;
                    s.b = t;
                    let tf = s.fa;
                    s.fa = s.fb;
                    s.fb = tf;
                }
                (cand, fs, None, None)
            },
            BracketMethodSolver::InverseCubic(s) => {
                let ghost pre = *s;
                let (a, fa) = s.a;
                let (d, fd) = s.d;
                match (s.b, s.c) {
                    (None, None) => {
                        let g = regular_falsi(a, d, fa, fd);
                        let fg = call_fun(fun, g, res);
                        if fg.mul(fa).is_sign_positive() {
                            s.b = Some((g, fg));
                        } else {
                            s.c = Some((g, fg));
                        }
                        proof {
                            assert(inverse_cubic_step_with(
                                pre,
                                *s,
                                (g, fg, None::<Real>, None::<Real>),
                                fg,
                                fg,
                            ));
                        }
                        (g, fg, None, None)
                    },
                    (Some((b, fb)), None) => {
                        let g = iqi(a, fa, b, fb, d, fd);
                        if g.sub(b).mul(g.sub(d)).is_sign_positive() {
                            let m = b.add(d).div(Real::from_int(2));
                            let fm = call_fun(fun, m, res);
                            if fm.mul(fd).is_sign_positive() {
                                s.c = Some((m, fm));
                            } else {
                                s.a = (b, fb);
                                s.b = Some((m, fm));
                            }
                            proof {
                                assert(inverse_cubic_step_with(
                                    pre,
                                    *s,
                                    (m, fm, None::<Real>, None::<Real>),
                                    fm,
                                    fm,
                                ));
                            }
                            return (m, fm, None, None);
                        }
                        let fg = call_fun(fun, g, res);
                        if fg.mul(fd).is_sign_positive() {
                            s.c = Some((g, fg));
                            proof {
                                assert(inverse_cubic_step_with(
                                    pre,
                                    *s,
                                    (g, fg, None::<Real>, None::<Real>),
                                    fg,
                                    fg,
                                ));
                            }
                            return (g, fg, None, None);
                        }
                        let m = b.add(d).div(Real::from_int(2));
                        let fm = call_fun(fun, m, res);
                        if fm.mul(fd).is_sign_positive() {
                            s.c = Some((m, fm));
                            proof {
                                assert(inverse_cubic_step_with(
                                    pre,
                                    *s,
                                    (m, fm, None::<Real>, None::<Real>),
                                    fg,
                                    fm,
                                ));
                            }
                            return (m, fm, None, None);
                        }
                        if g.sub(b).mul(g.sub(m)).is_sign_negative() {
                            s.a = (g, fg);
                            s.b = Some((m, fm));
                            proof {
                                assert(inverse_cubic_step_with(
                                    pre,
                                    *s,
                                    (m, fm, None::<Real>, None::<Real>),
                                    fg,
                                    fm,
                                ));
                            }
                            return (m, fm, None, None);
                        }
                        s.a = (m, fm);
                        s.b = Some((g, fg));
                        proof {
                            assert(inverse_cubic_step_with(
                                pre,
                                *s,
                                (g, fg, None::<Real>, None::<Real>),
                                fg,
                                fm,
                            ));
                        }
                        (g, fg, None, None)
                    },
                    (None, Some((c, fc))) => {
                        let g = iqi(a, fa, c, fc, d, fd);
                        if g.sub(c).mul(g.sub(a)).is_sign_positive() {
                            let m = a.add(c).div(Real::from_int(2));
                            let fm = call_fun(fun, m, res);
                            if fm.mul(fd).is_sign_negative() {
                                s.d = (c, fc);
                            }
                            s.b = Some((m, fm));
                            proof {
                                assert(inverse_cubic_step_with(
                                    pre,
                                    *s,
                                    (m, fm, None::<Real>, None::<Real>),
                                    fm,
                                    fm,
                                ));
                            }
                            return (m, fm, None, None);
                        }
                        let fg = call_fun(fun, g, res);
                        if fg.mul(fa).is_sign_positive() {
                            s.b = Some((g, fg));
                            proof {
                                assert(inverse_cubic_step_with(
                                    pre,
                                    *s,
                                    (g, fg, None::<Real>, None::<Real>),
                                    fg,
                                    fg,
                                ));
                            }
                            return (g, fg, None, None);
                        }
                        let m = a.add(c).div(Real::from_int(2));
                        let fm = call_fun(fun, m, res);
                        if fm.mul(fd).is_sign_positive() {
                            s.c = Some((g, fm));
                            proof {
                                assert(inverse_cubic_step_with(
                                    pre,
                                    *s,
                                    (g, fm, None::<Real>, None::<Real>),
                                    fg,
                                    fm,
                                ));
                            }
                            return (g, fm, None, None);
                        }
                        if g.sub(c).mul(g.sub(m)).is_sign_negative() {
                            s.d = (g, fg);
                            s.c = Some((m, fm));
                            proof {
                                assert(inverse_cubic_step_with(
                                    pre,
                                    *s,
                                    (m, fm, None::<Real>, None::<Real>),
                                    fg,
                                    fm,
                                ));
                            }
                            return (m, fm, None, None);
                        }
                        s.d = (m, fm);
                        s.c = Some((g, fg));
                        proof {
                            assert(inverse_cubic_step_with(
                                pre,
                                *s,
                                (g, fg, None::<Real>, None::<Real>),
                                fg,
                                fm,
                            ));
                        }
                        (g, fg, None, None)
                    },
                    (Some((b, fb)), Some((c, fc))) => {
                        let g0 = icubic(a, fa, b, fb, c, fc, d, fd);
                        let g = if g0.sub(b).mul(g0.sub(c)).is_sign_positive() {
                            b.add(c).div(Real::from_int(2))
                        } else {
                            g0
                        };
                        let fg = call_fun(fun, g, res);
                        if fg.mul(fa).is_sign_positive() {
                            s.a = (b, fb);
                            s.b = Some((g, fg));
                        } else {
                            s.d = (c, fc);
                            s.c = Some((g, fg));
                        }
                        proof {
                            assert(inverse_cubic_step_with(
                                pre,
                                *s,
                                (g, fg, None::<Real>, None::<Real>),
                                fg,
                                fg,
                            ));
                        }
                        (g, fg, None, None)
                    },
                }
            },
        }
    }
}

/// Half a width, rounded up: the most a bracket width can keep after a
/// bisection step.
pub open spec fn hw(w: int) -> int {
    (w + 1) / 2
}

/// How many bisection steps shrink a width below the tolerance `t`:
/// the ceiling logarithm of `w / t`, step for step.
pub open spec fn bisect_steps(w: int, t: int) -> nat
    decreases w,
    when t >= 2 && w >= 0
{
    if w < t {
        0
    } else {
        (1 + bisect_steps(hw(w), t)) as nat
    }
}

/// More width never takes fewer steps.
pub proof fn lemma_bisect_steps_mono(w1: int, w2: int, t: int)
    requires
        t >= 2,
        0 <= w1 <= w2,
    ensures
        bisect_steps(w1, t) <= bisect_steps(w2, t),
    decreases w2,
{
    if w2 < t || w1 < t {
    } else {
        lemma_bisect_steps_mono(hw(w1), hw(w2), t);
    }
}

/// The midpoint of a bounded bracket stays bounded, and lies within
/// half the width, rounded up, of either endpoint.
pub proof fn lemma_mid_close(p: int, n: int)
    requires
        iabs(p) <= 0x2000_0000_0000_0001,
        iabs(n) <= 0x2000_0000_0000_0001,
    ensures
        iabs(mid_m(p, n)) <= 0x2000_0000_0000_0001,
        iabs(sub_m(mid_m(p, n), n)) <= hw(iabs(p - n)),
        iabs(sub_m(p, mid_m(p, n))) <= hw(iabs(p - n)),
{
    crate::fixed::lemma_rnd_div_common(p + n, 2, SCALE as int);
    assert((p + n) * SCALE == add_m(p, n) * SCALE) by (nonlinear_arith)
        requires add_m(p, n) == p + n;
    crate::fixed::lemma_rnd_div2_close(p + n);
    let m = crate::fixed::rnd_div(p + n, 2);
    assert(mid_m(p, n) == sat_m(m));
    assert(iabs(2 * m - (p + n)) <= 1);
    assert(2 * iabs(m) <= iabs(p) + iabs(n) + 1);
    assert(iabs(m) <= 0x2000_0000_0000_0001);
    assert(mid_m(p, n) == m);
    assert(2 * iabs(m - n) <= iabs(p - n) + 1);
    assert(2 * iabs(p - m) <= iabs(p - n) + 1);
    assert(iabs(m - n) <= hw(iabs(p - n)));
    assert(iabs(p - m) <= hw(iabs(p - n)));
    assert(sub_m(m, n) == m - n);
    assert(sub_m(p, m) == p - m);
}

/// The shape of criteria and bracket under which bisection owes a
/// convergence bound: bisection itself, candidates measured with the
/// default L2 norm, an enabled absolute candidate tolerance of at least
/// two resolution units, endpoints comfortably inside the finite range,
/// and an iteration budget of at least the bound.
pub open spec fn bisect_convergence_pre(
    method: BracketMethod,
    bracket: (Real, Real),
    c: OptimizeCriteria,
) -> bool {
    &&& method is Bisect
    &&& c.x_metric_type == MetricType::L2Norm
    &&& (match c.xatol {
        Some(t) => t.mant() >= 2,
        None => false,
    })
    &&& iabs(bracket.0.mant()) <= 0x2000_0000_0000_0000
    &&& iabs(bracket.1.mant()) <= 0x2000_0000_0000_0000
    &&& eff_maxiter(c) >= bisect_steps(
        iabs(bracket.0.mant() - bracket.1.mant()),
        c.xatol->Some_0.mant(),
    ) + 2
}

/// The solver variant carried for each method.
pub open spec fn solver_matches_method(s: &BracketMethodSolver, m: BracketMethod) -> bool {
    match m {
        BracketMethod::Bisect => *s is Bisect,
        BracketMethod::RegularFalsi => *s is RegularFalsi,
        BracketMethod::Ridder => *s is Ridder,
        BracketMethod::Brent => *s is Brent,
        BracketMethod::InverseCubic => *s is InverseCubic,
    }
}

/// The outcome a solve owes for the objective's answers `fa`, `fb` at
/// the bracket endpoints: an invalid bracket fails before any
/// iteration, with the violated rule named; a valid one never reports
/// an invalid bracket.
pub open spec fn bracket_outcome_with<F: Fn(Real) -> Real>(
    fun: F,
    bracket: (Real, Real),
    r: OptimizeResult<Real>,
    fa: Real,
    fb: Real,
) -> bool {
    &&& call_ensures(fun, (bracket.0,), fa)
    &&& call_ensures(fun, (bracket.1,), fb)
    &&& (match bracket_error_spec(bracket.0.mant(), bracket.1.mant(), fa.mant(), fb.mant()) {
        Some(e) => r.flag == OptimizeResultFlag::Failure(FailureReason::InvalidBracket(e))
            && r.iter == 0 && r.sol_x is None && r.sol_f is None,
        None => !(r.flag matches OptimizeResultFlag::Failure(FailureReason::InvalidBracket(_)))
            && r.iter > 0,
    })
}

/// Solve for a root inside the bracket with the chosen method.
///
/// The bracket is evaluated first; an invalid one (a non-finite point, a
/// non-finite value, or values of one sign) fails before any iteration,
/// with the rule named in the flag.  A valid run stops with success once
/// an enabled tolerance is met, or failure at the iteration bound; the
/// returned flag is never `Running`.
///
/// Bisection also owes a convergence bound: under
/// [`bisect_convergence_pre`] — bisection, the default candidate norm,
/// an absolute candidate tolerance `t`, a bounded bracket of width `w`,
/// and an iteration budget of at least `bisect_steps(w, t) + 2` (about
/// the ceiling of the base-two logarithm of `w / t`) — a valid bracket
/// always ends in success, within that many iterations.
pub fn solve_from_bracket<F: Fn(Real) -> Real>(
    fun: F,
    bracket_method: &BracketMethod,
    bracket: (Real, Real),
    criteria: Option<OptimizeCriteria>,
) -> (r: OptimizeResult<Real>)
    requires
        forall|a: Real| call_requires(fun, (a,)),
    ensures
        !(r.flag is Running),
        r.criteria == (match criteria {
            Some(c) => c,
            None => spec_default_criteria(),
        }),
        r.iter as int <= eff_maxiter(r.criteria) + 1,
        exists|fa: Real, fb: Real| #[trigger] bracket_outcome_with(fun, bracket, r, fa, fb),
        (r.flag matches OptimizeResultFlag::Failure(FailureReason::MaxIterReached(_))) ==> (
        r.iter as int) == eff_maxiter(r.criteria) || r.iter == 1,
        match r.flag {
            OptimizeResultFlag::Failure(FailureReason::MaxIterReached(b)) => b as int
                == eff_maxiter(r.criteria),
            _ => true,
        },
        match r.flag {
            OptimizeResultFlag::Success(sat) => sat == satisfied_spec(r) && satisfy_either_spec(
                r,
            ),
            _ => true,
        },
        r.iter > 0 ==> r.sol_x is Some && r.sol_f is Some && r.sol_j is None && r.sol_h is None,
        r.iter > 0 && !(*bracket_method is InverseCubic) ==> call_ensures(
            fun,
            (r.sol_x->Some_0,),
            r.sol_f->Some_0,
        ),
        r.iter > 0 ==> opt_mant(r.err_xa) == err_xa_of(r) && opt_mant(r.err_xr) == err_xr_of(r)
            && opt_mant(r.err_fa) == err_fa_of(r) && opt_mant(r.err_fr) == err_fr_of(r)
            && opt_mant(r.err_fl) == err_fl_of(r),
        (*bracket_method is Bisect || *bracket_method is RegularFalsi || *bracket_method
            is Brent) ==> r.nfev as int == satu64(2 + r.iter as int),
        *bracket_method is Ridder ==> r.nfev as int == satu64(2 + 2 * (r.iter as int)),
        r.nfev >= 2,
        r.njev == 0,
        r.nhev == 0,
        bisect_convergence_pre(*bracket_method, bracket, r.criteria) ==> match r.flag {
            OptimizeResultFlag::Success(_) => r.iter as int <= bisect_steps(
                iabs(bracket.0.mant() - bracket.1.mant()),
                r.criteria.xatol->Some_0.mant(),
            ) + 2,
            OptimizeResultFlag::Failure(FailureReason::InvalidBracket(_)) => true,
            _ => false,
        },
{
    let mut res = <RootScalarEvaluator as Evaluator<Real>>::new(criteria);
    let bracket_x = bracket;
    let fa = call_fun(&fun, bracket_x.0, &mut res);
    let fb = call_fun(&fun, bracket_x.1, &mut res);
    let bracket_f = (fa, fb);
    let ghost err0 = bracket_error_spec(bracket.0.mant(), bracket.1.mant(), fa.mant(), fb.mant());
    match valid_bracket(bracket_x, bracket_f) {
        Some(e) => {
            res.set_failure(FailureReason::InvalidBracket(e));
        },
        None => {},
    }
    let mut solver = bracket_method.get_solver(bracket_x, bracket_f);
    let ghost c0 = res.criteria;
    let ghost p2 = bisect_convergence_pre(*bracket_method, bracket, c0);
    let ghost w0 = iabs(bracket.0.mant() - bracket.1.mant());
    let ghost t0 = if c0.xatol is Some {
        c0.xatol->Some_0.mant()
    } else {
        2
    };
    let ghost b0 = bisect_steps(w0, t0);
    while res.flag.is_running()
        invariant
            forall|a: Real| call_requires(fun, (a,)),
            res.criteria == c0,
            res.iter as int <= eff_maxiter(c0) + 1,
            res.flag is Running ==> res.iter as int <= eff_maxiter(c0),
            res.flag is Running ==> res.iter < u64::MAX,
            res.flag is Running ==> res.iter == 0 || (res.iter as int) < eff_maxiter(c0),
            (res.flag matches OptimizeResultFlag::Failure(FailureReason::MaxIterReached(_)))
                ==> (res.iter as int) == eff_maxiter(c0) || res.iter == 1,
            match res.flag {
                OptimizeResultFlag::Failure(FailureReason::MaxIterReached(b)) => b as int
                    == eff_maxiter(c0),
                _ => true,
            },
            match err0 {
                Some(e) => res.flag == OptimizeResultFlag::Failure(
                    FailureReason::InvalidBracket(e),
                ) && res.iter == 0 && res.sol_x is None && res.sol_f is None,
                None => !(res.flag matches OptimizeResultFlag::Failure(
                    FailureReason::InvalidBracket(_),
                )) && (res.flag is Running || res.iter > 0),
            },
            match res.flag {
                OptimizeResultFlag::Success(sat) => sat == satisfied_spec(res)
                    && satisfy_either_spec(res),
                _ => true,
            },
            res.iter > 0 ==> res.sol_x is Some && res.sol_f is Some && res.sol_j is None
                && res.sol_h is None,
            res.iter > 0 && !(*bracket_method is InverseCubic) ==> call_ensures(
                fun,
                (res.sol_x->Some_0,),
                res.sol_f->Some_0,
            ),
            res.iter > 0 ==> opt_mant(res.err_xa) == err_xa_of(res) && opt_mant(res.err_xr)
                == err_xr_of(res) && opt_mant(res.err_fa) == err_fa_of(res) && opt_mant(
                res.err_fr,
            ) == err_fr_of(res) && opt_mant(res.err_fl) == err_fl_of(res),
            solver_matches_method(&solver, *bracket_method),
            (*bracket_method is Bisect || *bracket_method is RegularFalsi || *bracket_method
                is Brent) ==> res.nfev as int == satu64(2 + res.iter as int),
            *bracket_method is Ridder ==> res.nfev as int == satu64(2 + 2 * (res.iter as int)),
            res.nfev >= 2,
            res.njev == 0,
            res.nhev == 0,
            p2 == bisect_convergence_pre(*bracket_method, bracket, c0),
            w0 == iabs(bracket.0.mant() - bracket.1.mant()),
            p2 ==> t0 == c0.xatol->Some_0.mant() && t0 >= 2,
            b0 == bisect_steps(w0, t0),
            p2 ==> solver is Bisect,
            p2 && res.flag is Running ==> {
                let st = solver->Bisect_0;
                let w = iabs(st.pos.mant() - st.neg.mant());
                &&& iabs(st.pos.mant()) <= 0x2000_0000_0000_0001
                &&& iabs(st.neg.mant()) <= 0x2000_0000_0000_0001
                &&& (res.iter == 0 ==> w == w0 && res.sol_x is None)
                &&& (res.iter >= 1 ==> bisect_steps(w, t0) + res.iter <= b0 + 1 && (res.sol_x
                    == Some(st.pos) || res.sol_x == Some(st.neg)))
            },
            p2 ==> match res.flag {
                OptimizeResultFlag::Running => true,
                OptimizeResultFlag::Success(_) => res.iter as int <= b0 + 2,
                OptimizeResultFlag::Failure(FailureReason::InvalidBracket(_)) => true,
                _ => false,
            },
        decreases eff_maxiter(c0) + 1 - res.iter as int,
    {
        let ghost pre_sol = solver;
        let ghost pre_res = res;
        let s = solver.new_solution(&fun, &mut res);
        res.update(s);
        let ghost upd_res = res;
        <RootScalarEvaluator as Evaluator<Real>>::eval(&mut res);
        proof {
            if p2 {
                let st0 = pre_sol->Bisect_0;
                let st1 = solver->Bisect_0;
                let w_pre = iabs(st0.pos.mant() - st0.neg.mant());
                let w_new = iabs(st1.pos.mant() - st1.neg.mant());
                lemma_mid_close(st0.pos.mant(), st0.neg.mant());
                assert(s.0.mant() == mid_m(st0.pos.mant(), st0.neg.mant()));
                assert(w_new <= hw(w_pre));
                assert(hw(w_pre) <= w_pre || w_pre == 0);
                assert(res.flag == root_eval_flag(upd_res));
                if pre_res.iter >= 1 {
                    // the previous candidate is an endpoint, so the new
                    // error is at most half the old width
                    let e = err_xa_of(upd_res)->Some_0;
                    assert(upd_res.err_xa is Some);
                    assert(e == iabs(sub_m(s.0.mant(), pre_res.sol_x->Some_0.mant())));
                    assert(e <= hw(w_pre));
                    if res.flag is Running {
                        assert(!crate::optimize::satisfy_xatol_spec(upd_res));
                        assert(upd_res.err_xa->Some_0.mant() >= t0);
                        assert(hw(w_pre) >= t0);
                        assert(w_pre >= t0);
                        assert(bisect_steps(w_pre, t0) == 1 + bisect_steps(hw(w_pre), t0));
                        lemma_bisect_steps_mono(w_new, hw(w_pre), t0);
                    }
                    if res.flag matches OptimizeResultFlag::Failure(
                        FailureReason::MaxIterReached(_),
                    ) {
                        // the budget is two above the bound, so the
                        // tolerance must already have been met
                        assert(upd_res.iter as int >= eff_maxiter(c0));
                        assert(upd_res.iter as int <= b0 + 2);
                        assert(eff_maxiter(c0) >= b0 + 2);
                        assert(pre_res.iter as int == b0 + 1);
                        assert(bisect_steps(w_pre, t0) == 0);
                        assert(w_pre < t0);
                        assert(hw(w_pre) < t0);
                        assert(e < t0);
                        assert(crate::optimize::satisfy_xatol_spec(upd_res));
                        assert(false);
                    }
                } else {
                    if res.flag is Running {
                        assert(w_pre == w0);
                        lemma_bisect_steps_mono(w_new, hw(w0), t0);
                        lemma_bisect_steps_mono(hw(w0), w0, t0);
                    }
                    assert(!(res.flag matches OptimizeResultFlag::Failure(
                        FailureReason::MaxIterReached(_),
                    ))) by {
                        if upd_res.iter as int >= eff_maxiter(c0) {
                            assert(upd_res.iter == 1);
                            assert(eff_maxiter(c0) >= b0 + 2 >= 2);
                        }
                    }
                }
            }
        }
    }
    proof {
        assert(bracket_outcome_with(fun, bracket, res, fa, fb));
    }
    res
}

} // verus!
