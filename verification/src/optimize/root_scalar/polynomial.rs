//! Polynomial root solving: closed forms for degree at most two, and
//! Halley iteration with recursive deflation above that.

use crate::complex::{cabs_m, cdiv_im_m, cdiv_re_m, csqrt_im_m, csqrt_re_m, Complex};
use crate::fixed::{sat_m, Real, SCALE};
use crate::odr::polynomial::{
    cadd_p, cmul_p, cneg_p, coef_ms, csub_p, defl_seq, deg_of, eval_ms, lemma_defl_shape,
    lemma_sat_seq_identity, sat_seq, PolynomialCoef, Polynomial,
};
use crate::optimize::criteria::OptimizeCriteria;
use crate::optimize::metric::IntoMetric;
use crate::optimize::root_scalar::halley::halley_method;
use crate::optimize::util::Espilon;
use vstd::prelude::*;

verus! {

/// Why a polynomial could not be solved.
#[derive(Clone, Copy, Debug, PartialEq, Eq, Structural)]
pub enum RootsError {
    /// The iteration budget ran out before every root converged.
    NoConvergence,
    /// A simultaneous-iteration update left the finite range.
    NonFiniteUpdate,
}

/// A scalar that can be carried into the complex plane.
pub trait IntoComplex: PolynomialCoef {
    /// The same value as a complex scalar.
    fn into_complex(&self) -> (r: Complex)
        ensures
            r.re.mant() == self.re_m(),
            r.im.mant() == self.im_m(),
    ;
}

impl IntoComplex for Real {
    fn into_complex(&self) -> (r: Complex) {
        Complex::from_real(*self)
    }
}

impl IntoComplex for Complex {
    fn into_complex(&self) -> (r: Complex) {
        *self
    }
}

/// The model of the quadratic discriminant `b^2 - 4 a c`.
pub open spec fn quad_disc_m<T: PolynomialCoef>(
    am: (int, int),
    bm: (int, int),
    cm: (int, int),
) -> (int, int) {
    csub_p(cmul_p(bm, bm), cmul_p(cmul_p(am, cm), (sat_m(4 * SCALE as int), 0)))
}

/// Solve `a x^2 + b x + c = 0` in closed form.  For the real scalar a
/// negative discriminant has no square root and no roots are returned;
/// the complex scalar always has both roots.
pub fn quadratic_root<T: PolynomialCoef>(a: T, b: T, c: T) -> (r: Option<Vec<T>>)
    ensures
        ({
            let am = (a.re_m(), a.im_m());
            let bm = (b.re_m(), b.im_m());
            let cm = (c.re_m(), c.im_m());
            let disc = quad_disc_m::<T>(am, bm, cm);
            match r {
                None => T::sqrt_of(disc.0, disc.1) is None,
                Some(v) => {
                    let dm = T::sqrt_of(disc.0, disc.1)->Some_0;
                    let a2 = cmul_p(am, (sat_m(2 * SCALE as int), 0));
                    &&& T::sqrt_of(disc.0, disc.1) is Some
                    &&& v@.len() == 2
                    &&& (v@[0].re_m(), v@[0].im_m()) == {
                        let num = cadd_p(cneg_p(bm), dm);
                        T::div_of(num.0, num.1, a2.0, a2.1)
                    }
                    &&& (v@[1].re_m(), v@[1].im_m()) == {
                        let num = csub_p(cneg_p(bm), dm);
                        T::div_of(num.0, num.1, a2.0, a2.1)
                    }
                },
            }
        }),
{
    let disc = b.mul(b).sub(a.mul(c).mul(T::from_u64(4)));
    match disc.sqrt_checked() {
        None => None,
        Some(d) => {
            let a2 = a.mul(T::from_u64(2));
            let mut v: Vec<T> = Vec::new();
            v.push(b.neg().add(d).div(a2));
            v.push(b.neg().sub(d).div(a2));
            Some(v)
        },
    }
}

/// Mantissa of the target-value tolerance the Halley stage runs under:
/// a few units above the scalar's resolution.
pub const HALLEY_STAGE_FLTOL_MANT: i64 = 4;

/// The criteria the Halley stage runs under: the target-value tolerance
/// above, and a bound of 1000 iterations.
fn halley_stage_criteria() -> (r: OptimizeCriteria)
    ensures
        r == (OptimizeCriteria {
            fltol: Some(Real { m: HALLEY_STAGE_FLTOL_MANT }),
            maxiter: Some(1000u64),
            ..crate::optimize::criteria::OptimizeCriteria {
                xatol: None,
                xrtol: None,
                fatol: None,
                frtol: None,
                fltol: None,
                maxiter: None,
                x_metric_type: crate::optimize::metric::MetricType::L2Norm,
                f_metric_type: crate::optimize::metric::MetricType::L2Norm,
            }
        }),
{
    OptimizeCriteria::empty().set_fltol(Some(Real::from_mantissa(HALLEY_STAGE_FLTOL_MANT)))
        .set_maxiter(Some(1000))
}

/// The polynomial with model `ms` almost vanishes at `root`: the
/// magnitude of its value there is below the Halley stage's tolerance.
pub open spec fn residual_small(ms: Seq<(int, int)>, root: Complex) -> bool {
    let fv = eval_ms(ms, (root.re.mant(), root.im.mant()));
    cabs_m(fv.0, fv.1) < HALLEY_STAGE_FLTOL_MANT
}

/// What the root list of a saturated complex polynomial model is, degree
/// by degree: no roots below degree one; the closed forms for degrees
/// one and two; above that, a head root at which the polynomial almost
/// vanishes (found by the Halley stage), followed by the root list of
/// the polynomial deflated at that head.
pub open spec fn roots_chain(ms: Seq<(int, int)>, out: Seq<Complex>) -> bool
    decreases out.len(),
{
    if ms.len() <= 1 {
        out.len() == 0
    } else if ms.len() == 2 {
        let num = cneg_p(ms[0]);
        let den = ms[1];
        &&& out.len() == 1
        &&& (out[0].re.mant(), out[0].im.mant()) == (
            cdiv_re_m(num.0, num.1, den.0, den.1),
            cdiv_im_m(num.0, num.1, den.0, den.1),
        )
    } else if ms.len() == 3 {
        let disc = quad_disc_m::<Complex>(ms[2], ms[1], ms[0]);
        let dm = (csqrt_re_m(disc.0, disc.1), csqrt_im_m(disc.0, disc.1));
        let a2 = cmul_p(ms[2], (sat_m(2 * SCALE as int), 0));
        let n1 = cadd_p(cneg_p(ms[1]), dm);
        let n2 = csub_p(cneg_p(ms[1]), dm);
        &&& out.len() == 2
        &&& (out[0].re.mant(), out[0].im.mant()) == (
            cdiv_re_m(n1.0, n1.1, a2.0, a2.1),
            cdiv_im_m(n1.0, n1.1, a2.0, a2.1),
        )
        &&& (out[1].re.mant(), out[1].im.mant()) == (
            cdiv_re_m(n2.0, n2.1, a2.0, a2.1),
            cdiv_im_m(n2.0, n2.1, a2.0, a2.1),
        )
    } else if out.len() == ms.len() - 1 && out.len() > 0 {
        &&& residual_small(ms, out[0])
        &&& roots_chain(
            sat_seq(defl_seq(ms, (out[0].re.mant(), out[0].im.mant())).skip(1)),
            out.skip(1),
        )
    } else {
        false
    }
}

/// Solve a complex polynomial for all of its roots: none for degree
/// zero, closed forms for degrees one and two, and for higher degrees
/// one root by Halley's method from the origin, deflated out, with the
/// quotient solved recursively.  On success the list carries exactly
/// `degree` roots.
pub fn roots_complex(p: &Polynomial<Complex>) -> (r: Result<Vec<Complex>, RootsError>)
    requires
        p.wf(),
    ensures
        r is Ok ==> r->Ok_0@.len() == deg_of(p.ms()),
        r is Ok ==> roots_chain(p.ms(), r->Ok_0@),
        deg_of(p.ms()) <= 2 ==> r is Ok,
    decreases p.ms().len(),
{
    let deg = p.degree();
    if deg == 0 {
        let v: Vec<Complex> = Vec::new();
        Ok(v)
    } else if deg == 1 {
        let c = p.coefs();
        proof {
            assert(coef_ms(c@).len() == c@.len());
        }
        let root = c[0].neg().div(c[1]);
        let mut v: Vec<Complex> = Vec::new();
        v.push(root);
        proof {
            assert(p.ms()[0] == (c@[0].re.mant(), c@[0].im.mant()));
            assert(p.ms()[1] == (c@[1].re.mant(), c@[1].im.mant()));
        }
        Ok(v)
    } else if deg == 2 {
        let c = p.coefs();
        proof {
            assert(coef_ms(c@).len() == c@.len());
            assert(p.ms()[0] == (c@[0].re.mant(), c@[0].im.mant()));
            assert(p.ms()[1] == (c@[1].re.mant(), c@[1].im.mant()));
            assert(p.ms()[2] == (c@[2].re.mant(), c@[2].im.mant()));
        }
        match quadratic_root(c[2], c[1], c[0]) {
            Some(v) => Ok(v),
            None => {
                proof {
                    assert(false);
                }
                Err(RootsError::NoConvergence)
            },
        }
    } else {
        let criteria = halley_stage_criteria();
        let pc = p.copied();
        let dp = p.differentiate();
        let ddp = dp.differentiate();
        let pms: Ghost<Seq<(int, int)>> = Ghost(pc.ms());
        let dms: Ghost<Seq<(int, int)>> = Ghost(dp.ms());
        let ddms: Ghost<Seq<(int, int)>> = Ghost(ddp.ms());
        let fun = |z: Complex| -> (rv: Complex)
            ensures
                (rv.re.mant(), rv.im.mant()) == eval_ms(pms@, (z.re.mant(), z.im.mant())),
            { pc.eval(z) };
        let dfun = |z: Complex| -> (rv: Complex)
            ensures
                (rv.re.mant(), rv.im.mant()) == eval_ms(dms@, (z.re.mant(), z.im.mant())),
            { dp.eval(z) };
        let ddfun = |z: Complex| -> (rv: Complex)
            ensures
                (rv.re.mant(), rv.im.mant()) == eval_ms(ddms@, (z.re.mant(), z.im.mant())),
            { ddp.eval(z) };
        let res = halley_method(fun, dfun, ddfun, Complex::zero(), Some(criteria));
        if !res.flag.is_success() {
            return Err(RootsError::NoConvergence);
        }
        let root = match res.sol_x {
            Some(x) => x,
            None => {
                return Err(RootsError::NoConvergence);
            },
        };
        proof {
            // a successful stage run satisfied its only enabled
            // tolerance, the target-value one, so the polynomial's
            // magnitude at the root is below the stage tolerance
            assert(crate::optimize::satisfy_fltol_spec(res));
            assert(residual_small(p.ms(), root));
        }
        match p.deflate(root) {
            Some((q, _rem)) => {
                proof {
                    lemma_defl_shape(p.ms(), (root.re.mant(), root.im.mant()));
                    let d = crate::odr::polynomial::defl_seq(
                        p.ms(),
                        (root.re.mant(), root.im.mant()),
                    );
                    assert(d.skip(1).len() == p.ms().len() - 1);
                    assert(d.skip(1)[p.ms().len() - 2] == d[p.ms().len() - 1]);
                    assert(d[p.ms().len() - 1] == p.ms()[p.ms().len() - 1]);
                    lemma_sat_seqidentity_helper(d.skip(1));
                }
                let rest = match roots_complex(&q) {
                    Ok(rest) => rest,
                    Err(e) => {
                        return Err(e);
                    },
                };
                let mut out: Vec<Complex> = Vec::new();
                out.push(root);
                let mut i: usize = 0;
                while i < rest.len()
                    invariant
                        i <= rest.len(),
                        out@.len() == 1 + i as int,
                        out@[0] == root,
                        forall|j: int| 0 <= j < i as int ==> #[trigger] out@[j + 1] == rest@[j],
                    decreases rest.len() - i,
                {
                    out.push(rest[i]);
                    i += 1;
                }
                proof {
                    assert(out@.skip(1) =~= rest@);
                }
                Ok(out)
            },
            None => {
                proof {
                    assert(false);
                }
                Err(RootsError::NoConvergence)
            },
        }
    }
}

/// Saturating a sequence with a nonzero last entry keeps it whole.
proof fn lemma_sat_seqidentity_helper(s: Seq<(int, int)>)
    requires
        s.len() >= 1,
        s[s.len() - 1] != crate::odr::polynomial::czero_p(),
    ensures
        sat_seq(s) == s,
{
    lemma_sat_seq_identity(s);
}

/// Solve a polynomial over any coefficient scalar for all of its roots:
/// the coefficients are carried into the complex plane first, so the
/// root list of a successful solve always has `degree` entries.
pub fn polynomial_roots<T: IntoComplex>(polynomial: &Polynomial<T>) -> (r: Result<
    Vec<Complex>,
    RootsError,
>)
    ensures
        r is Ok ==> r->Ok_0@.len() == deg_of(sat_seq(polynomial.ms())),
        r is Ok ==> roots_chain(sat_seq(polynomial.ms()), r->Ok_0@),
        deg_of(sat_seq(polynomial.ms())) <= 2 ==> r is Ok,
{
    let coefs = polynomial.coefs();
    let mut v: Vec<Complex> = Vec::new();
    let mut i: usize = 0;
    while i < coefs.len()
        invariant
            i <= coefs.len(),
            v@.len() == i as int,
            coef_ms(coefs@) == polynomial.ms(),
            forall|j: int| 0 <= j < i as int ==> (#[trigger] v@[j].re.mant(), v@[j].im.mant())
                == polynomial.ms()[j],
        decreases coefs.len() - i,
    {
        v.push(coefs[i].into_complex());
        i += 1;
    }
    proof {
        assert(coef_ms(v@) =~= polynomial.ms());
    }
    let pc = Polynomial::from_vec(v);
    roots_complex(&pc)
}

impl<T: IntoComplex> Polynomial<T> {
    /// All roots of the polynomial, as complex scalars; see
    /// [`polynomial_roots`].
    pub fn roots(&self) -> (r: Result<Vec<Complex>, RootsError>)
        ensures
            r is Ok ==> r->Ok_0@.len() == deg_of(sat_seq(self.ms())),
            r is Ok ==> roots_chain(sat_seq(self.ms()), r->Ok_0@),
            deg_of(sat_seq(self.ms())) <= 2 ==> r is Ok,
    {
        polynomial_roots(self)
    }
}

} // verus!
