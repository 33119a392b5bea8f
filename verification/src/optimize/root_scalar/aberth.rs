//! Aberth-Ehrlich simultaneous iteration: all roots of a polynomial at
//! once, with mutual-repulsion correction terms, plus the seeding
//! heuristic, the Newton polish, and the conjugate-mirror averaging
//! that its callers apply around it.

use crate::complex::{cdiv_im_m, cdiv_re_m, Complex};
use crate::fixed::{add_m, neg_m, sub_m, Real, MANT_MAX_FINITE, MANT_MIN_FINITE, SCALE};
use crate::fixed::div_m;
use crate::odr::polynomial::{cadd_p, cmul_p, csub_p, eval_ms, sat_seq, Polynomial};
use crate::optimize::root_scalar::newton::newton_method;
use crate::optimize::root_scalar::polynomial::RootsError;
use vstd::prelude::*;

verus! {

/// Mantissa of the per-root convergence tolerance: a handful of units
/// in the last place, the resolution-scaled stand-in for the classical
/// `1e-16` step bound.
pub const ABERTH_TOL_MANT: i64 = 16;

/// The outer pass budget.
pub const ABERTH_MAX_PASSES: u32 = 100;

/// Whether a model pair lies inside the finite mantissa range.
pub open spec fn finite_pair(m: (int, int)) -> bool {
    &&& MANT_MIN_FINITE as int <= m.0 <= MANT_MAX_FINITE as int
    &&& MANT_MIN_FINITE as int <= m.1 <= MANT_MAX_FINITE as int
}

/// The mutual-repulsion sum for root `i` over the previous iterate: the
/// first `k` terms of `sum over j != i of 1 / (z_i - z_j)`, in index
/// order.
pub open spec fn aberth_sum_m(zs: Seq<Complex>, i: int, k: int) -> (int, int)
    decreases k,
{
    if k <= 0 {
        (0, 0)
    } else if k - 1 == i {
        aberth_sum_m(zs, i, k - 1)
    } else {
        let prev = aberth_sum_m(zs, i, k - 1);
        let d = (
            sub_m(zs[i].re.mant(), zs[k - 1].re.mant()),
            sub_m(zs[i].im.mant(), zs[k - 1].im.mant()),
        );
        let term = (
            cdiv_re_m(SCALE as int, 0, d.0, d.1),
            cdiv_im_m(SCALE as int, 0, d.0, d.1),
        );
        cadd_p(prev, term)
    }
}

/// The model of one root's update from the previous iterate, given the
/// objective's answer `pv` and the derivative's answer `dv` there:
/// `z_i + p / (p * S_i - p')`.
pub open spec fn aberth_next_m(zs: Seq<Complex>, i: int, pv: Complex, dv: Complex) -> (int, int) {
    let s = aberth_sum_m(zs, i, zs.len() as int);
    let pm = (pv.re.mant(), pv.im.mant());
    let den = csub_p(cmul_p(pm, s), (dv.re.mant(), dv.im.mant()));
    cadd_p(
        (zs[i].re.mant(), zs[i].im.mant()),
        (cdiv_re_m(pm.0, pm.1, den.0, den.1), cdiv_im_m(pm.0, pm.1, den.0, den.1)),
    )
}

/// `znew` is the update of root `i` of `pre`, for some answers of the
/// objective and its derivative at `pre`'s root.
pub open spec fn aberth_step_at<F: Fn(Complex) -> Complex, FP: Fn(Complex) -> Complex>(
    f: F,
    fp: FP,
    pre: Seq<Complex>,
    znew: Complex,
    i: int,
) -> bool {
    exists|pv: Complex, dv: Complex|
        {
            &&& #[trigger] call_ensures(f, (pre[i],), pv)
            &&& #[trigger] call_ensures(fp, (pre[i],), dv)
            &&& (znew.re.mant(), znew.im.mant()) == aberth_next_m(pre, i, pv, dv)
        }
}

/// One full pass: every root updated from the previous iterate.
pub open spec fn aberth_pass_with<F: Fn(Complex) -> Complex, FP: Fn(Complex) -> Complex>(
    f: F,
    fp: FP,
    pre: Seq<Complex>,
    post: Seq<Complex>,
) -> bool {
    &&& post.len() == pre.len()
    &&& forall|i: int| 0 <= i < pre.len() ==> aberth_step_at(f, fp, pre, #[trigger] post[i], i)
}

/// The step from root `i` of `pre` to `znew` is below the tolerance.
pub open spec fn aberth_small_at(pre: Seq<Complex>, znew: Complex, i: int) -> bool {
    crate::complex::cabs_m(
        sub_m(znew.re.mant(), pre[i].re.mant()),
        sub_m(znew.im.mant(), pre[i].im.mant()),
    ) < ABERTH_TOL_MANT as int
}

/// The run from `x0` reached `prev` in `k` passes and then hit an
/// update outside the finite range: witnesses for a batch failure.
pub open spec fn aberth_blowup_with<F: Fn(Complex) -> Complex, FP: Fn(Complex) -> Complex>(
    f: F,
    fp: FP,
    x0: Seq<Complex>,
    prev: Seq<Complex>,
    k: nat,
    i: int,
    pv: Complex,
    dv: Complex,
) -> bool {
    &&& aberth_reaches(f, fp, x0, prev, k)
    &&& k < ABERTH_MAX_PASSES as nat
    &&& 0 <= i < prev.len()
    &&& call_ensures(f, (prev[i],), pv)
    &&& call_ensures(fp, (prev[i],), dv)
    &&& !finite_pair(aberth_next_m(prev, i, pv, dv))
}

/// `s1` is reachable from `s0` in exactly `k` full passes.
pub open spec fn aberth_reaches<F: Fn(Complex) -> Complex, FP: Fn(Complex) -> Complex>(
    f: F,
    fp: FP,
    s0: Seq<Complex>,
    s1: Seq<Complex>,
    k: nat,
) -> bool
    decreases k,
{
    if k == 0 {
        s1 == s0
    } else {
        exists|mid: Seq<Complex>|
            #[trigger] aberth_pass_with(f, fp, mid, s1) && aberth_reaches(
                f,
                fp,
                s0,
                mid,
                (k - 1) as nat,
            )
    }
}

/// Run Aberth-Ehrlich simultaneous iteration on the objective `f` with
/// derivative `fp`, from the seed list `x0`.  Each pass recomputes
/// every root from the previous pass's full iterate; the batch stops
/// with an error the moment an update leaves the finite range, returns
/// all roots in the first pass in which every step is below the
/// tolerance, and gives up after the pass budget.
pub fn aberth<F: Fn(Complex) -> Complex, FP: Fn(Complex) -> Complex>(
    f: &F,
    fp: &FP,
    x0: &Vec<Complex>,
) -> (r: Result<Vec<Complex>, RootsError>)
    requires
        forall|a: Complex| call_requires(*f, (a,)),
        forall|a: Complex| call_requires(*fp, (a,)),
    ensures
        r is Ok ==> r->Ok_0@.len() == x0@.len(),
        r is Ok ==> forall|i: int| 0 <= i < r->Ok_0@.len()
            ==> (MANT_MIN_FINITE as int <= (#[trigger] r->Ok_0@[i]).re.mant()
                <= MANT_MAX_FINITE as int && MANT_MIN_FINITE as int <= r->Ok_0@[i].im.mant()
                <= MANT_MAX_FINITE as int),
        r is Ok ==> exists|prev: Seq<Complex>, k: nat|
            {
                &&& #[trigger] aberth_reaches(*f, *fp, x0@, prev, k)
                &&& k < ABERTH_MAX_PASSES as nat
                &&& aberth_pass_with(*f, *fp, prev, r->Ok_0@)
                &&& forall|i: int| 0 <= i < prev.len() ==> aberth_small_at(
                    prev,
                    #[trigger] r->Ok_0@[i],
                    i,
                )
            },
        r == Err::<Vec<Complex>, RootsError>(RootsError::NoConvergence) ==> exists|
            fin: Seq<Complex>,
        | #[trigger] aberth_reaches(*f, *fp, x0@, fin, ABERTH_MAX_PASSES as nat),
        r == Err::<Vec<Complex>, RootsError>(RootsError::NonFiniteUpdate) ==> exists|
            prev: Seq<Complex>,
            k: nat,
            i: int,
            pv: Complex,
            dv: Complex,
        | #[trigger] aberth_blowup_with(*f, *fp, x0@, prev, k, i, pv, dv),
{
    let n = x0.len();
    let mut zs: Vec<Complex> = Vec::new();
    let mut i0: usize = 0;
    while i0 < n
        invariant
            i0 <= n,
            n == x0@.len(),
            zs@.len() == i0 as int,
            forall|j: int| 0 <= j < i0 as int ==> #[trigger] zs@[j] == x0@[j],
        decreases n - i0,
    {
        zs.push(x0[i0]);
        i0 += 1;
    }
    proof {
        assert(zs@ =~= x0@);
    }
    let tol = Real::from_mantissa(ABERTH_TOL_MANT);
    let mut pass: u32 = 0;
    while pass < ABERTH_MAX_PASSES
        invariant
            forall|a: Complex| call_requires(*f, (a,)),
            forall|a: Complex| call_requires(*fp, (a,)),
            n == x0@.len(),
            zs@.len() == n as int,
            pass <= ABERTH_MAX_PASSES,
            tol.mant() == ABERTH_TOL_MANT as int,
            aberth_reaches(*f, *fp, x0@, zs@, pass as nat),
        decreases ABERTH_MAX_PASSES - pass,
    {
        let ghost pre = zs@;
        let mut new_zs: Vec<Complex> = Vec::new();
        let mut all_small = true;
        let mut i: usize = 0;
        while i < n
            invariant
                forall|a: Complex| call_requires(*f, (a,)),
                forall|a: Complex| call_requires(*fp, (a,)),
                i <= n,
                n == x0@.len(),
                zs@.len() == n as int,
                pre == zs@,
                pass < ABERTH_MAX_PASSES,
                tol.mant() == ABERTH_TOL_MANT as int,
                aberth_reaches(*f, *fp, x0@, zs@, pass as nat),
                new_zs@.len() == i as int,
                forall|j: int| 0 <= j < i as int
                    ==> (MANT_MIN_FINITE as int <= (#[trigger] new_zs@[j]).re.mant()
                        <= MANT_MAX_FINITE as int && MANT_MIN_FINITE as int
                        <= new_zs@[j].im.mant() <= MANT_MAX_FINITE as int),
                forall|j: int| 0 <= j < i as int ==> aberth_step_at(
                    *f,
                    *fp,
                    pre,
                    #[trigger] new_zs@[j],
                    j,
                ),
                all_small ==> forall|j: int| 0 <= j < i as int ==> aberth_small_at(
                    pre,
                    #[trigger] new_zs@[j],
                    j,
                ),
            decreases n - i,
        {
            let p_of_z = f(zs[i]);
            let dydx_of_z = fp(zs[i]);
            let mut sum = Complex::zero();
            let mut k: usize = 0;
            while k < n
                invariant
                    i < n,
                    n == zs@.len(),
                    pre == zs@,
                    k <= n,
                    (sum.re.mant(), sum.im.mant()) == aberth_sum_m(pre, i as int, k as int),
                decreases n - k,
            {
                if k != i {
                    sum = sum.add(Complex::one().div(zs[i].sub(zs[k])));
                }
                k += 1;
            }
            let new_z = zs[i].add(p_of_z.div(p_of_z.mul(sum).sub(dydx_of_z)));
            proof {
                assert((new_z.re.mant(), new_z.im.mant()) == aberth_next_m(
                    pre,
                    i as int,
                    p_of_z,
                    dydx_of_z,
                ));
            }
            if !new_z.is_finite() {
                proof {
                    assert(aberth_blowup_with(
                        *f,
                        *fp,
                        x0@,
                        pre,
                        pass as nat,
                        i as int,
                        p_of_z,
                        dydx_of_z,
                    ));
                }
                return Err(RootsError::NonFiniteUpdate);
            }
            let err = new_z.sub(zs[i]).abs();
            if !err.lt(tol) {
                all_small = false;
            }
            new_zs.push(new_z);
            proof {
                assert(aberth_step_at(*f, *fp, pre, new_z, i as int));
                if all_small {
                    assert(aberth_small_at(pre, new_z, i as int));
                }
            }
            i += 1;
        }
        zs = new_zs;
        proof {
            assert(aberth_pass_with(*f, *fp, pre, zs@));
            assert(aberth_reaches(*f, *fp, x0@, zs@, (pass + 1) as nat));
        }
        if all_small {
            return Ok(zs);
        }
        pass += 1;
    }
    Err(RootsError::NoConvergence)
}

/// The witness state of a successful polish: a Newton run under the
/// default tolerances with a budget of [`POLISH_MAX_ITER`] steps,
/// whose solution is the kept root, with the objective's and the
/// derivative's answers there, and some enabled tolerance satisfied.
pub open spec fn polish_outcome<F: Fn(Complex) -> Complex, FP: Fn(Complex) -> Complex>(
    f: F,
    fp: FP,
    st: crate::optimize::OptimizeResult<Complex>,
    out: Complex,
) -> bool {
    &&& st.flag is Success
    &&& st.criteria == (crate::optimize::criteria::OptimizeCriteria {
        maxiter: Some(POLISH_MAX_ITER),
        ..crate::optimize::criteria::spec_default_criteria()
    })
    &&& st.sol_x == Some(out)
    &&& st.sol_f is Some
    &&& call_ensures(f, (out,), st.sol_f->Some_0)
    &&& st.sol_j is Some
    &&& call_ensures(fp, (out,), st.sol_j->Some_0)
    &&& crate::optimize::satisfy_either_spec(st)
}

/// The root was polished: some Newton run vouches for it.
pub open spec fn polished_from<F: Fn(Complex) -> Complex, FP: Fn(Complex) -> Complex>(
    f: F,
    fp: FP,
    out: Complex,
) -> bool {
    exists|st: crate::optimize::OptimizeResult<Complex>| #[trigger] polish_outcome(f, fp, st, out)
}

/// The Newton budget of one polish: a small number of classic steps.
pub const POLISH_MAX_ITER: u64 = 50;

/// Polish every root independently with Newton's method on the same
/// objective and derivative, under the default tolerances and a budget
/// of [`POLISH_MAX_ITER`] steps; a root whose polish did not end in
/// success is kept as it was.
pub fn polish_roots<F: Fn(Complex) -> Complex, FP: Fn(Complex) -> Complex>(
    f: &F,
    fp: &FP,
    roots: &Vec<Complex>,
) -> (r: Vec<Complex>)
    requires
        forall|a: Complex| call_requires(*f, (a,)),
        forall|a: Complex| call_requires(*fp, (a,)),
    ensures
        r@.len() == roots@.len(),
        forall|i: int| 0 <= i < roots@.len() ==> (#[trigger] r@[i]) == roots@[i]
            || polished_from(*f, *fp, r@[i]),
{
    let mut out: Vec<Complex> = Vec::new();
    let mut i: usize = 0;
    while i < roots.len()
        invariant
            forall|a: Complex| call_requires(*f, (a,)),
            forall|a: Complex| call_requires(*fp, (a,)),
            i <= roots@.len(),
            out@.len() == i as int,
            forall|j: int| 0 <= j < i as int ==> (#[trigger] out@[j]) == roots@[j]
                || polished_from(*f, *fp, out@[j]),
        decreases roots@.len() - i,
    {
        let criteria = polish_criteria();
        let res = newton_method(f, fp, roots[i], Some(criteria));
        let polished = match (res.flag.is_success(), res.sol_x) {
            (true, Some(x)) => x,
            _ => roots[i],
        };
        proof {
            if res.flag is Success && res.sol_x is Some {
                assert(polish_outcome(*f, *fp, res, polished));
            }
        }
        out.push(polished);
        i += 1;
    }
    out
}

/// The criteria one polish runs under: the defaults, with the small
/// step budget.
fn polish_criteria() -> (r: crate::optimize::criteria::OptimizeCriteria)
    ensures
        r == (crate::optimize::criteria::OptimizeCriteria {
            maxiter: Some(POLISH_MAX_ITER),
            ..crate::optimize::criteria::spec_default_criteria()
        }),
{
    let c: crate::optimize::criteria::OptimizeCriteria = Default::default();
    c.set_maxiter(Some(POLISH_MAX_ITER))
}

/// Average each root with the complex conjugate of its mirror (the list
/// reversed), cancelling small asymmetric drift around the real axis.
pub fn conjugate_symmetrize(v: &Vec<Complex>) -> (r: Vec<Complex>)
    ensures
        r@.len() == v@.len(),
        forall|i: int| 0 <= i < v@.len() ==> {
            let a = (v@[i].re.mant(), v@[i].im.mant());
            let b = (v@[v@.len() - 1 - i].re.mant(), neg_m(v@[v@.len() - 1 - i].im.mant()));
            let s = (add_m(a.0, b.0), add_m(a.1, b.1));
            let two = crate::fixed::sat_m(2 * SCALE as int);
            (#[trigger] r@[i].re.mant(), r@[i].im.mant()) == (
                cdiv_re_m(s.0, s.1, two, 0),
                cdiv_im_m(s.0, s.1, two, 0),
            )
        },
{
    let n = v.len();
    let mut out: Vec<Complex> = Vec::new();
    let mut i: usize = 0;
    while i < n
        invariant
            i <= n,
            n == v@.len(),
            out@.len() == i as int,
            forall|j: int| 0 <= j < i as int ==> {
                let a = (v@[j].re.mant(), v@[j].im.mant());
                let b = (v@[n - 1 - j].re.mant(), neg_m(v@[n - 1 - j].im.mant()));
                let s = (add_m(a.0, b.0), add_m(a.1, b.1));
                let two = crate::fixed::sat_m(2 * SCALE as int);
                (#[trigger] out@[j].re.mant(), out@[j].im.mant()) == (
                    cdiv_re_m(s.0, s.1, two, 0),
                    cdiv_im_m(s.0, s.1, two, 0),
                )
            },
        decreases n - i,
    {
        let mirrored = v[n - 1 - i].conj();
        out.push(v[i].add(mirrored).div(Complex::from_int(2)));
        i += 1;
    }
    out
}

/// The model of an integer coefficient list as a real polynomial.
pub open spec fn int_ms(cs: Seq<i64>) -> Seq<(int, int)> {
    Seq::new(cs.len(), |i: int| (crate::fixed::sat_m(cs[i] as int * SCALE as int), 0int))
}

/// The real value of an integer polynomial at `x`, as a mantissa.
pub open spec fn int_poly_at(cs: Seq<i64>, x: int) -> int {
    eval_ms(sat_seq(int_ms(cs)), (x, 0)).0
}

/// The model of the order, as the seeding formulas see it.
pub open spec fn campos_n_m(order: u32) -> int {
    crate::fixed::sat_m(order as int * SCALE as int)
}

/// The denominator polynomial of the `b` coefficients at the order.
pub open spec fn campos_s_m(order: u32) -> int {
    int_poly_at(seq![0i64, 0i64, 2i64, 0i64, -3i64, 1i64], campos_n_m(order))
}

/// The denominator polynomial of the `a` coefficients at the order.
pub open spec fn campos_r_m(order: u32) -> int {
    int_poly_at(seq![0i64, 0i64, 2i64, 1i64], campos_n_m(order))
}

/// The model of the real-part polynomial `a1 x + a2 x^2`.
pub open spec fn campos_x_poly_m(order: u32) -> Seq<(int, int)> {
    let a1 = div_m(int_poly_at(seq![-6i64, -6i64], campos_n_m(order)), campos_r_m(order));
    let a2 = div_m(crate::fixed::sat_m(6 * SCALE as int), campos_r_m(order));
    sat_seq(seq![(0int, 0int), (a1, 0int), (a2, 0int)])
}

/// The model of the imaginary-part polynomial `b0 + b1 x + b2 x^2 + b3 x^3`.
pub open spec fn campos_y_poly_m(order: u32) -> Seq<(int, int)> {
    let sm = campos_s_m(order);
    let nm = campos_n_m(order);
    let b3 = div_m(int_poly_at(seq![16i64, -8i64], nm), sm);
    let b2 = div_m(int_poly_at(seq![-24i64, -12i64, 12i64], nm), sm);
    let b1 = div_m(int_poly_at(seq![8i64, 24i64, -12i64, -2i64], nm), sm);
    let b0 = div_m(int_poly_at(seq![0i64, -6i64, 0i64, 5i64, -1i64], nm), sm);
    sat_seq(seq![(b0, 0int), (b1, 0int), (b2, 0int), (b3, 0int)])
}

/// The seeding heuristic for the simultaneous iteration: seed `k`
/// (counted from one) sits at the empirical rational-polynomial point
/// `(x(k), y(k))` of [`campos_x_poly_m`] and [`campos_y_poly_m`].
pub fn campos_zeros(order: u32) -> (r: Vec<Complex>)
    ensures
        order == 0 ==> r@.len() == 1,
        order >= 1 ==> r@.len() == order as int,
        order >= 1 ==> forall|k: int| 0 <= k < order as int ==> (#[trigger] r@[k].re.mant(),
        r@[k].im.mant()) == (
            eval_ms(campos_x_poly_m(order), (crate::fixed::sat_m((k + 1) * SCALE as int), 0)).0,
            eval_ms(campos_y_poly_m(order), (crate::fixed::sat_m((k + 1) * SCALE as int), 0)).0,
        ),
{
    if order == 0 {
        let mut v: Vec<Complex> = Vec::new();
        v.push(Complex::one().neg());
        return v;
    }
    let n = Real::from_int(order as i64);
    let s = int_poly(&[0, 0, 2, 0, -3, 1]).eval(n);
    let b3 = int_poly(&[16, -8]).eval(n).div(s);
    let b2 = int_poly(&[-24, -12, 12]).eval(n).div(s);
    let b1 = int_poly(&[8, 24, -12, -2]).eval(n).div(s);
    let b0 = int_poly(&[0, -6, 0, 5, -1]).eval(n).div(s);
    let rr = int_poly(&[0, 0, 2, 1]).eval(n);
    let a1 = int_poly(&[-6, -6]).eval(n).div(rr);
    let a2 = Real::from_int(6).div(rr);
    let mut xp: Vec<Real> = Vec::new();
    xp.push(Real::zero());
    xp.push(a1);
    xp.push(a2);
    let xpoly = Polynomial::from_vec(xp);
    let mut yp: Vec<Real> = Vec::new();
    yp.push(b0);
    yp.push(b1);
    yp.push(b2);
    yp.push(b3);
    let ypoly = Polynomial::from_vec(yp);
    proof {
        assert(crate::odr::polynomial::coef_ms(xp@) =~= seq![
            (0int, 0int),
            (a1.mant(), 0int),
            (a2.mant(), 0int),
        ]);
        assert(xpoly.ms() == campos_x_poly_m(order));
        assert(crate::odr::polynomial::coef_ms(yp@) =~= seq![
            (b0.mant(), 0int),
            (b1.mant(), 0int),
            (b2.mant(), 0int),
            (b3.mant(), 0int),
        ]);
        assert(ypoly.ms() == campos_y_poly_m(order));
    }
    let mut out: Vec<Complex> = Vec::new();
    let mut k: u32 = 0;
    while k < order
        invariant
            k <= order,
            order >= 1,
            out@.len() == k as int,
            xpoly.ms() == campos_x_poly_m(order),
            ypoly.ms() == campos_y_poly_m(order),
            forall|j: int| 0 <= j < k as int ==> (#[trigger] out@[j].re.mant(),
            out@[j].im.mant()) == (
                eval_ms(
                    campos_x_poly_m(order),
                    (crate::fixed::sat_m((j + 1) * SCALE as int), 0),
                ).0,
                eval_ms(
                    campos_y_poly_m(order),
                    (crate::fixed::sat_m((j + 1) * SCALE as int), 0),
                ).0,
            ),
        decreases order - k,
    {
        let kr = Real::from_int((k + 1) as i64);
        let x = xpoly.eval(kr);
        let y = ypoly.eval(kr);
        out.push(Complex::new(x, y));
        k += 1;
    }
    out
}

/// A small real polynomial from integer coefficients.
fn int_poly(coefs: &[i64]) -> (r: Polynomial<Real>)
    ensures
        r.ms() == sat_seq(int_ms(coefs@)),
        r.wf(),
{
    let mut v: Vec<Real> = Vec::new();
    let mut i: usize = 0;
    while i < coefs.len()
        invariant
            i <= coefs.len(),
            v@.len() == i as int,
            forall|j: int| 0 <= j < i as int ==> (#[trigger] v@[j]).mant()
                == crate::fixed::sat_m(coefs@[j] as int * SCALE as int),
        decreases coefs.len() - i,
    {
        v.push(Real::from_int(coefs[i]));
        i += 1;
    }
    proof {
        assert(crate::odr::polynomial::coef_ms(v@) =~= int_ms(coefs@));
    }
    Polynomial::from_vec(v)
}

} // verus!
