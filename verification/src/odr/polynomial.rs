//! Polynomials over the crate's scalars, and the coefficient interface
//! they are generic over.
//!
//! A coefficient is modelled in specifications by the pair of its real and
//! imaginary mantissas, so one set of contracts covers both the real and
//! the complex instantiation.

use crate::complex::{
    cabs_m, cdiv_im_m, cdiv_re_m, cmul_im_m, cmul_re_m, csqrt_im_m, csqrt_re_m, Complex,
};
use crate::fixed::{abs_m, add_m, div_m, iabs, lemma_mul_m_one, lemma_mul_m_small,
    lemma_mul_m_zero, lemma_rnd_div_neg, mul_m, neg_m, rnd_div, sat_m, sqrt_m, sub_m, Real,
    MANT_MAX_FINITE, MANT_MIN_FINITE, MANT_NEG_INF, MANT_POS_INF, SCALE};
use vstd::prelude::*;

verus! {

/// The interface a polynomial coefficient offers: the arithmetic of a
/// field of characteristic zero, saturating fixed-point style, together
/// with a mantissa-pair model for specifications.  It is implemented by
/// [`Real`] and [`Complex`]; a real scalar is the complex one whose
/// imaginary mantissa is zero everywhere.
pub trait PolynomialCoef: Sized + Copy {
    /// Mantissa of the real part.
    spec fn re_m(self) -> int;

    /// Mantissa of the imaginary part.
    spec fn im_m(self) -> int;

    /// Mantissa of the magnitude of a value with the given part mantissas.
    spec fn abs_of(re: int, im: int) -> int;

    /// Part mantissas of a quotient.
    spec fn div_of(are: int, aim: int, bre: int, bim: int) -> (int, int);

    /// Part mantissas of a square root, where one exists.
    spec fn sqrt_of(re: int, im: int) -> Option<(int, int)>;

    /// Zero.
    fn zero() -> (r: Self)
        ensures
            r.re_m() == 0,
            r.im_m() == 0,
    ;

    /// One.
    fn one() -> (r: Self)
        ensures
            r.re_m() == SCALE as int,
            r.im_m() == 0,
    ;

    /// The scalar of a small non-negative integer.
    fn from_u64(v: u64) -> (r: Self)
        ensures
            r.re_m() == sat_m(v as int * SCALE as int),
            r.im_m() == 0,
    ;

    /// A real scalar carried into this type.
    fn from_real(x: Real) -> (r: Self)
        ensures
            r.re_m() == x.mant(),
            r.im_m() == 0,
    ;

    /// Saturating sum, part by part.
    fn add(self, o: Self) -> (r: Self)
        ensures
            r.re_m() == add_m(self.re_m(), o.re_m()),
            r.im_m() == add_m(self.im_m(), o.im_m()),
    ;

    /// Saturating difference, part by part.
    fn sub(self, o: Self) -> (r: Self)
        ensures
            r.re_m() == sub_m(self.re_m(), o.re_m()),
            r.im_m() == sub_m(self.im_m(), o.im_m()),
    ;

    /// Saturating negation, part by part.
    fn neg(self) -> (r: Self)
        ensures
            r.re_m() == neg_m(self.re_m()),
            r.im_m() == neg_m(self.im_m()),
    ;

    /// Product, by the complex product formula (which degenerates to the
    /// plain product when the imaginary mantissas are zero).
    fn mul(self, o: Self) -> (r: Self)
        ensures
            r.re_m() == cmul_re_m(self.re_m(), self.im_m(), o.re_m(), o.im_m()),
            r.im_m() == cmul_im_m(self.re_m(), self.im_m(), o.re_m(), o.im_m()),
    ;

    /// Quotient.
    fn div(self, o: Self) -> (r: Self)
        ensures
            r.re_m() == Self::div_of(self.re_m(), self.im_m(), o.re_m(), o.im_m()).0,
            r.im_m() == Self::div_of(self.re_m(), self.im_m(), o.re_m(), o.im_m()).1,
    ;

    /// Magnitude, as a real scalar.
    fn abs(self) -> (r: Real)
        ensures
            r.mant() == Self::abs_of(self.re_m(), self.im_m()),
            r.mant() >= 0,
    ;

    /// Whether the value is an exact zero.
    fn is_zero(self) -> (r: bool)
        ensures
            r == (self.re_m() == 0 && self.im_m() == 0),
    ;

    /// Whether every part is finite.
    fn is_finite(self) -> (r: bool)
        ensures
            r == (MANT_MIN_FINITE as int <= self.re_m() <= MANT_MAX_FINITE as int
                && MANT_MIN_FINITE as int <= self.im_m() <= MANT_MAX_FINITE as int),
    ;

    /// The square root, where the type has one: always for a complex
    /// scalar, only for non-negative values of a real one.
    fn sqrt_checked(self) -> (r: Option<Self>)
        ensures
            match r {
                Some(v) => Self::sqrt_of(self.re_m(), self.im_m())
                    == Some((v.re_m(), v.im_m())),
                None => Self::sqrt_of(self.re_m(), self.im_m()) is None,
            },
    ;

    /// Every value's model is a pair of `i64` mantissas.
    proof fn lemma_model_in_range(self)
        ensures
            MANT_NEG_INF as int <= self.re_m() <= MANT_POS_INF as int,
            MANT_NEG_INF as int <= self.im_m() <= MANT_POS_INF as int,
    ;
}

impl PolynomialCoef for Real {
    open spec fn re_m(self) -> int {
        self.mant()
    }

    open spec fn im_m(self) -> int {
        0
    }

    open spec fn abs_of(re: int, im: int) -> int {
        abs_m(re)
    }

    open spec fn div_of(are: int, aim: int, bre: int, bim: int) -> (int, int) {
        (div_m(are, bre), 0)
    }

    open spec fn sqrt_of(re: int, im: int) -> Option<(int, int)> {
        if re < 0 {
            None
        } else {
            Some((sqrt_m(re), 0))
        }
    }

    fn zero() -> (r: Self) {
        Real::zero()
    }

    fn one() -> (r: Self) {
        Real::one()
    }

    fn from_u64(v: u64) -> (r: Self) {
        if v > 0x7fff_ffff_ffff_ffffu64 {
            Real::from_mantissa(crate::fixed::MANT_POS_INF)
        } else {
            Real::from_int(v as i64)
        }
    }

    fn from_real(x: Real) -> (r: Self) {
        x
    }

    fn add(self, o: Self) -> (r: Self) {
        self.add(o)
    }

    fn sub(self, o: Self) -> (r: Self) {
        self.sub(o)
    }

    fn neg(self) -> (r: Self) {
        self.neg()
    }

    fn mul(self, o: Self) -> (r: Self) {
        proof {
            crate::fixed::lemma_mul_m_zero(self.mant());
            crate::fixed::lemma_mul_m_zero(o.mant());
        }
        self.mul(o)
    }

    fn div(self, o: Self) -> (r: Self) {
        self.div(o)
    }

    fn abs(self) -> (r: Real) {
        self.abs()
    }

    fn is_zero(self) -> (r: bool) {
        self.mantissa() == 0
    }

    fn is_finite(self) -> (r: bool) {
        self.is_finite()
    }

    fn sqrt_checked(self) -> (r: Option<Self>) {
        if self.is_sign_negative() {
            None
        } else {
            Some(self.sqrt())
        }
    }

    proof fn lemma_model_in_range(self) {
    }
}

impl PolynomialCoef for Complex {
    open spec fn re_m(self) -> int {
        self.re.mant()
    }

    open spec fn im_m(self) -> int {
        self.im.mant()
    }

    open spec fn abs_of(re: int, im: int) -> int {
        cabs_m(re, im)
    }

    open spec fn div_of(are: int, aim: int, bre: int, bim: int) -> (int, int) {
        (cdiv_re_m(are, aim, bre, bim), cdiv_im_m(are, aim, bre, bim))
    }

    open spec fn sqrt_of(re: int, im: int) -> Option<(int, int)> {
        Some((csqrt_re_m(re, im), csqrt_im_m(re, im)))
    }

    fn zero() -> (r: Self) {
        Complex::zero()
    }

    fn one() -> (r: Self) {
        Complex::one()
    }

    fn from_u64(v: u64) -> (r: Self) {
        if v > 0x7fff_ffff_ffff_ffffu64 {
            Complex::new(Real::from_mantissa(crate::fixed::MANT_POS_INF), Real::zero())
        } else {
            Complex::from_int(v as i64)
        }
    }

    fn from_real(x: Real) -> (r: Self) {
        Complex::from_real(x)
    }

    fn add(self, o: Self) -> (r: Self) {
        self.add(o)
    }

    fn sub(self, o: Self) -> (r: Self) {
        self.sub(o)
    }

    fn neg(self) -> (r: Self) {
        self.neg()
    }

    fn mul(self, o: Self) -> (r: Self) {
        self.mul(o)
    }

    fn div(self, o: Self) -> (r: Self) {
        self.div(o)
    }

    fn abs(self) -> (r: Real) {
        self.abs()
    }

    fn is_zero(self) -> (r: bool) {
        self.re.mantissa() == 0 && self.im.mantissa() == 0
    }

    fn is_finite(self) -> (r: bool) {
        self.is_finite()
    }

    fn sqrt_checked(self) -> (r: Option<Self>) {
        Some(self.sqrt())
    }

    proof fn lemma_model_in_range(self) {
    }
}

/// The model of a coefficient: the pair of its part mantissas.
pub open spec fn czero_p() -> (int, int) {
    (0, 0)
}

/// Model of one.
pub open spec fn cone_p() -> (int, int) {
    (SCALE as int, 0)
}

/// Model-level sum.
pub open spec fn cadd_p(a: (int, int), b: (int, int)) -> (int, int) {
    (add_m(a.0, b.0), add_m(a.1, b.1))
}

/// Model-level difference.
pub open spec fn csub_p(a: (int, int), b: (int, int)) -> (int, int) {
    (sub_m(a.0, b.0), sub_m(a.1, b.1))
}

/// Model-level negation.
pub open spec fn cneg_p(a: (int, int)) -> (int, int) {
    (neg_m(a.0), neg_m(a.1))
}

/// Model-level product.
pub open spec fn cmul_p(a: (int, int), b: (int, int)) -> (int, int) {
    (cmul_re_m(a.0, a.1, b.0, b.1), cmul_im_m(a.0, a.1, b.0, b.1))
}

/// Whether a model pair lies within the mantissa range; every model of a
/// coefficient value does.
pub open spec fn in_range_p(a: (int, int)) -> bool {
    &&& MANT_NEG_INF as int <= a.0 <= MANT_POS_INF as int
    &&& MANT_NEG_INF as int <= a.1 <= MANT_POS_INF as int
}

/// Adding an exact zero to an in-range pair changes nothing.
pub proof fn lemma_cadd_zero(a: (int, int))
    requires
        in_range_p(a),
    ensures
        cadd_p(a, czero_p()) == a,
        cadd_p(czero_p(), a) == a,
{
}

/// The models of a coefficient sequence.
pub open spec fn coef_ms<T: PolynomialCoef>(s: Seq<T>) -> Seq<(int, int)> {
    Seq::new(s.len(), |i: int| (s[i].re_m(), s[i].im_m()))
}

/// Drop trailing zero coefficients; an empty sequence becomes the zero
/// polynomial `[0]`.
pub open spec fn sat_seq(s: Seq<(int, int)>) -> Seq<(int, int)>
    decreases s.len(),
{
    if s.len() == 0 {
        seq![czero_p()]
    } else if s[s.len() - 1] == czero_p() {
        sat_seq(s.drop_last())
    } else {
        s
    }
}

/// A saturated coefficient sequence: non-empty, and with a nonzero
/// leading coefficient unless it is the zero polynomial `[0]`.
pub open spec fn saturated(s: Seq<(int, int)>) -> bool {
    &&& s.len() >= 1
    &&& s.len() > 1 ==> s[s.len() - 1] != czero_p()
}

/// Saturating always yields a saturated sequence.
pub proof fn lemma_sat_seq_saturated(s: Seq<(int, int)>)
    ensures
        saturated(sat_seq(s)),
    decreases s.len(),
{
    if s.len() == 0 {
    } else if s[s.len() - 1] == czero_p() {
        lemma_sat_seq_saturated(s.drop_last());
    }
}

/// A saturated sequence saturates to itself.
pub proof fn lemma_sat_seq_identity(s: Seq<(int, int)>)
    requires
        saturated(s),
    ensures
        sat_seq(s) == s,
{
    if s.len() == 1 && s[0] == czero_p() {
        assert(sat_seq(s) == sat_seq(s.drop_last()));
        assert(s.drop_last().len() == 0);
        assert(sat_seq(s.drop_last()) =~= s);
    }
}

/// The degree of a coefficient sequence.
pub open spec fn deg_of(s: Seq<(int, int)>) -> int {
    if s.len() == 0 {
        0
    } else {
        s.len() - 1
    }
}

/// Horner evaluation of a model sequence at a model point: zero for the
/// empty sequence, else the evaluation of the tail, times `x`, plus the
/// head.
pub open spec fn eval_ms(s: Seq<(int, int)>, x: (int, int)) -> (int, int)
    decreases s.len(),
{
    if s.len() == 0 {
        czero_p()
    } else {
        cadd_p(cmul_p(eval_ms(s.skip(1), x), x), s[0])
    }
}

/// Coefficient-wise sum of two model sequences, the shorter zero-padded.
pub open spec fn zipsum_ms(a: Seq<(int, int)>, b: Seq<(int, int)>) -> Seq<(int, int)> {
    Seq::new(if a.len() > b.len() { a.len() } else { b.len() }, |i: int|
        if i < a.len() && i < b.len() {
            cadd_p(a[i], b[i])
        } else if i < a.len() {
            a[i]
        } else {
            b[i]
        })
}

/// Coefficient-wise difference of two model sequences.
pub open spec fn zipdiff_ms(a: Seq<(int, int)>, b: Seq<(int, int)>) -> Seq<(int, int)> {
    Seq::new(if a.len() > b.len() { a.len() } else { b.len() }, |i: int|
        if i < a.len() && i < b.len() {
            csub_p(a[i], b[i])
        } else if i < a.len() {
            a[i]
        } else {
            cneg_p(b[i])
        })
}

/// Every coefficient multiplied by `k`.
pub open spec fn scale_ms(s: Seq<(int, int)>, k: (int, int)) -> Seq<(int, int)> {
    Seq::new(s.len(), |i: int| cmul_p(s[i], k))
}

/// The derivative's model: coefficient `i` of the result is `i + 1`
/// times coefficient `i + 1` of the argument.
pub open spec fn diff_ms(s: Seq<(int, int)>) -> Seq<(int, int)> {
    Seq::new(if s.len() == 0 { 0 } else { (s.len() - 1) as nat }, |i: int|
        cmul_p((sat_m((i + 1) * SCALE as int), 0), s[i + 1]))
}

/// One term of a convolution entry: `a[i] * b[k - i]` where both indices
/// are in range, else zero.
pub open spec fn conv_term(a: Seq<(int, int)>, b: Seq<(int, int)>, k: int, i: int) -> (int, int) {
    if 0 <= i < a.len() && 0 <= k - i < b.len() {
        cmul_p(a[i], b[k - i])
    } else {
        czero_p()
    }
}

/// Partial convolution entry: the terms with index below `i`, summed in
/// ascending index order.
pub open spec fn conv_psum(a: Seq<(int, int)>, b: Seq<(int, int)>, k: int, i: int) -> (int, int)
    decreases i,
{
    if i <= 0 {
        czero_p()
    } else {
        cadd_p(conv_psum(a, b, k, i - 1), conv_term(a, b, k, i - 1))
    }
}

/// The convolution of two non-empty model sequences; empty if either is
/// empty.
pub open spec fn conv_ms(a: Seq<(int, int)>, b: Seq<(int, int)>) -> Seq<(int, int)> {
    if a.len() == 0 || b.len() == 0 {
        Seq::empty()
    } else {
        Seq::new((a.len() + b.len() - 1) as nat, |k: int| conv_psum(a, b, k, k + 1))
    }
}

/// The monic linear factor `x - r`.
pub open spec fn lin_ms(r: (int, int)) -> Seq<(int, int)> {
    seq![cneg_p(r), cone_p()]
}

/// The model of the polynomial built from a root sequence: the product
/// of the linear factors, folded left to right.
pub open spec fn from_roots_ms(rs: Seq<(int, int)>) -> Seq<(int, int)>
    decreases rs.len(),
{
    if rs.len() == 0 {
        seq![cone_p()]
    } else {
        sat_seq(conv_ms(from_roots_ms(rs.drop_last()), lin_ms(rs.last())))
    }
}

/// Saturating cannot lengthen a sequence (an empty one becomes `[0]`).
pub proof fn lemma_sat_seq_len(s: Seq<(int, int)>)
    ensures
        sat_seq(s).len() <= if s.len() == 0 { 1int } else { s.len() as int },
    decreases s.len(),
{
    if s.len() > 0 && s[s.len() - 1] == czero_p() {
        lemma_sat_seq_len(s.drop_last());
    }
}

/// The Horner deflation sequence `b` of a coefficient sequence at `x`:
/// `b` ends as the sequence does, and each earlier entry is the
/// coefficient there plus `x` times the next entry.
pub open spec fn defl_seq(s: Seq<(int, int)>, x: (int, int)) -> Seq<(int, int)>
    decreases s.len(),
{
    if s.len() <= 1 {
        s
    } else {
        seq![cadd_p(s[0], cmul_p(defl_seq(s.skip(1), x)[0], x))] + defl_seq(s.skip(1), x)
    }
}

/// Shape of the deflation sequence: same length, agreeing at the top,
/// with the Horner recurrence below it.
pub proof fn lemma_defl_shape(s: Seq<(int, int)>, x: (int, int))
    ensures
        defl_seq(s, x).len() == s.len(),
        s.len() >= 1 ==> defl_seq(s, x)[s.len() - 1] == s[s.len() - 1],
        forall|k: int| 0 <= k < s.len() - 1 ==> #[trigger] defl_seq(s, x)[k]
            == cadd_p(s[k], cmul_p(defl_seq(s, x)[k + 1], x)),
    decreases s.len(),
{
    if s.len() > 1 {
        lemma_defl_shape(s.skip(1), x);
        let d = defl_seq(s, x);
        let dt = defl_seq(s.skip(1), x);
        assert forall|k: int| 0 <= k < s.len() - 1 implies #[trigger] d[k]
            == cadd_p(s[k], cmul_p(d[k + 1], x)) by {
            if k == 0 {
                assert(d[0] == cadd_p(s[0], cmul_p(dt[0], x)));
                assert(d[1] == dt[0]);
            } else {
                assert(d[k] == dt[k - 1]);
                assert(d[k + 1] == dt[k]);
                assert(s.skip(1)[k - 1] == s[k]);
            }
        }
    }
}

/// The deflation remainder is the polynomial's value at the deflation
/// point: the Horner recurrence that produces the `b` sequence is the
/// Horner evaluation, read from the bottom.
pub proof fn lemma_deflate_remainder(s: Seq<(int, int)>, x: (int, int))
    requires
        s.len() >= 1,
        forall|i: int| 0 <= i < s.len() ==> in_range_p(#[trigger] s[i]),
    ensures
        defl_seq(s, x)[0] == eval_ms(s, x),
    decreases s.len(),
{
    if s.len() == 1 {
        assert(s.skip(1) =~= Seq::<(int, int)>::empty());
        assert(eval_ms(s.skip(1), x) == czero_p());
        assert(eval_ms(s, x) == cadd_p(cmul_p(czero_p(), x), s[0]));
        lemma_mul_m_zero(x.0);
        lemma_mul_m_zero(x.1);
        assert(cmul_p(czero_p(), x) == czero_p());
        lemma_cadd_zero(s[0]);
        assert(eval_ms(s, x) == s[0]);
    } else {
        assert forall|i: int| 0 <= i < s.skip(1).len() implies in_range_p(
            #[trigger] s.skip(1)[i],
        ) by {
            assert(s.skip(1)[i] == s[i + 1]);
        }
        lemma_deflate_remainder(s.skip(1), x);
        let dt = defl_seq(s.skip(1), x);
        assert(defl_seq(s, x)[0] == cadd_p(s[0], cmul_p(dt[0], x)));
        assert(eval_ms(s, x) == cadd_p(cmul_p(eval_ms(s.skip(1), x), x), s[0]));
        assert(cadd_p(s[0], cmul_p(dt[0], x)).0 == add_m(s[0].0, cmul_p(dt[0], x).0));
        assert(cadd_p(cmul_p(dt[0], x), s[0]).0 == add_m(cmul_p(dt[0], x).0, s[0].0));
    }
}

/// A polynomial over the crate's scalars: the coefficient of `x^i` is at
/// index `i`.  Constructors keep it saturated (see [`saturated`]).
pub struct Polynomial<T: PolynomialCoef> {
    coef: Vec<T>,
}

impl<T: PolynomialCoef> Polynomial<T> {
    /// The model: the sequence of coefficient mantissa pairs.
    pub closed spec fn ms(self) -> Seq<(int, int)> {
        coef_ms(self.coef@)
    }

    /// The saturation invariant, over the model.
    pub open spec fn wf(self) -> bool {
        saturated(self.ms())
    }

    /// Every model pair of a polynomial lies in the mantissa range.
    pub proof fn lemma_ms_in_range(self)
        ensures
            forall|i: int| 0 <= i < self.ms().len() ==> in_range_p(#[trigger] self.ms()[i]),
    {
        assert forall|i: int| 0 <= i < self.ms().len() implies in_range_p(#[trigger] self.ms()[i]) by {
            self.coef@[i].lemma_model_in_range();
        }
    }

    /// The coefficients, lowest power first.
    pub fn coefs(&self) -> (r: &Vec<T>)
        ensures
            coef_ms(r@) == self.ms(),
    {
        &self.coef
    }

    /// An identical copy.
    pub fn copied(&self) -> (r: Self)
        ensures
            r.ms() == self.ms(),
    {
        let mut v: Vec<T> = Vec::new();
        let mut i: usize = 0;
        while i < self.coef.len()
            invariant
                i <= self.coef.len(),
                v@.len() == i as int,
                forall|j: int| 0 <= j < i as int ==> v@[j] == self.coef@[j],
            decreases self.coef.len() - i,
        {
            v.push(self.coef[i]);
            i += 1;
        }
        proof {
            assert(v@ =~= self.coef@);
        }
        Polynomial { coef: v }
    }

    /// Drop trailing zero coefficients in place; an emptied polynomial
    /// becomes the zero polynomial `[0]`.
    pub fn saturate(self) -> (r: Self)
        ensures
            r.ms() == sat_seq(self.ms()),
            r.wf(),
    {
        let mut v = self.coef;
        proof {
            assert(coef_ms(v@) == self.ms());
        }
        while v.len() > 0 && v[v.len() - 1].is_zero()
            invariant
                sat_seq(coef_ms(v@)) == sat_seq(self.ms()),
            decreases v.len(),
        {
            let ghost pre = coef_ms(v@);
            v.pop();
            proof {
                assert(coef_ms(v@) =~= pre.drop_last());
                assert(pre[pre.len() - 1] == czero_p());
            }
        }
        if v.len() == 0 {
            v.push(T::zero());
            proof {
                assert(coef_ms(v@) =~= seq![czero_p()]);
                lemma_sat_seq_identity(seq![czero_p()]);
            }
        } else {
            proof {
                let s = coef_ms(v@);
                assert(s[s.len() - 1] != czero_p());
                lemma_sat_seq_identity(s);
            }
        }
        proof {
            lemma_sat_seq_saturated(self.ms());
        }
        Polynomial { coef: v }
    }

    /// Build from a coefficient vector, saturating it.
    pub fn from_vec(coef: Vec<T>) -> (r: Self)
        ensures
            r.ms() == sat_seq(coef_ms(coef@)),
            r.wf(),
    {
        (Polynomial { coef }).saturate()
    }

    /// The zero polynomial `[0]`.
    pub fn zero() -> (r: Self)
        ensures
            r.ms() == seq![czero_p()],
            r.wf(),
    {
        let mut v: Vec<T> = Vec::new();
        v.push(T::zero());
        proof {
            assert(coef_ms(v@) =~= seq![czero_p()]);
        }
        Polynomial { coef: v }
    }

    /// The constant polynomial one.
    pub fn one() -> (r: Self)
        ensures
            r.ms() == seq![cone_p()],
            r.wf(),
    {
        let mut v: Vec<T> = Vec::new();
        v.push(T::one());
        proof {
            assert(coef_ms(v@) =~= seq![cone_p()]);
        }
        Polynomial { coef: v }
    }

    /// The degree: the highest power carried, with the zero polynomial
    /// given degree zero.
    pub fn degree(&self) -> (r: usize)
        ensures
            r as int == deg_of(self.ms()),
    {
        if self.coef.len() == 0 {
            0
        } else {
            self.coef.len() - 1
        }
    }

    /// Evaluate at `x` by Horner's rule, folding from the highest power
    /// down.
    pub fn eval(&self, x: T) -> (r: T)
        ensures
            (r.re_m(), r.im_m()) == eval_ms(self.ms(), (x.re_m(), x.im_m())),
    {
        let ghost xm = (x.re_m(), x.im_m());
        let mut acc = T::zero();
        let mut i = self.coef.len();
        proof {
            assert(self.ms().skip(i as int) =~= Seq::<(int, int)>::empty());
        }
        while i > 0
            invariant
                i <= self.coef.len(),
                self.ms() == coef_ms(self.coef@),
                xm == (x.re_m(), x.im_m()),
                (acc.re_m(), acc.im_m()) == eval_ms(self.ms().skip(i as int), xm),
            decreases i,
    {
            i = i - 1;
            acc = acc.mul(x).add(self.coef[i]);
            proof {
                assert(self.ms().skip(i as int).skip(1) =~= self.ms().skip(i as int + 1));
                assert(self.ms().skip(i as int)[0] == self.ms()[i as int]);
            }
        }
        proof {
            assert(self.ms().skip(0) =~= self.ms());
        }
        acc
    }

    /// Evaluate at every point of `xs`.
    pub fn eval_iter(&self, xs: &Vec<T>) -> (r: Vec<T>)
        ensures
            r@.len() == xs@.len(),
            forall|i: int| 0 <= i < xs@.len() ==> (#[trigger] r@[i].re_m(), r@[i].im_m())
                == eval_ms(self.ms(), (xs@[i].re_m(), xs@[i].im_m())),
    {
        let mut out: Vec<T> = Vec::new();
        let mut i: usize = 0;
        while i < xs.len()
            invariant
                i <= xs.len(),
                out@.len() == i as int,
                forall|j: int| 0 <= j < i as int ==> (#[trigger] out@[j].re_m(), out@[j].im_m())
                    == eval_ms(self.ms(), (xs@[j].re_m(), xs@[j].im_m())),
            decreases xs.len() - i,
        {
            out.push(self.eval(xs[i]));
            i += 1;
        }
        out
    }

    /// Coefficient-wise sum, the shorter polynomial zero-padded; the
    /// result is saturated.
    pub fn add(self, rhs: Self) -> (r: Self)
        ensures
            r.ms() == sat_seq(zipsum_ms(self.ms(), rhs.ms())),
            r.wf(),
    {
        let ghost sa = self.ms();
        let ghost sb = rhs.ms();
        let n = if self.coef.len() > rhs.coef.len() {
            self.coef.len()
        } else {
            rhs.coef.len()
        };
        let mut v: Vec<T> = Vec::new();
        let mut i: usize = 0;
        while i < n
            invariant
                i <= n,
                n as int == if sa.len() > sb.len() { sa.len() } else { sb.len() },
                sa == self.ms(),
                sb == rhs.ms(),
                self.ms() == coef_ms(self.coef@),
                rhs.ms() == coef_ms(rhs.coef@),
                v@.len() == i as int,
                forall|j: int| 0 <= j < i as int ==> (#[trigger] v@[j].re_m(), v@[j].im_m())
                    == zipsum_ms(sa, sb)[j],
            decreases n - i,
        {
            let c: T = if i < self.coef.len() && i < rhs.coef.len() {
                self.coef[i].add(rhs.coef[i])
            } else if i < self.coef.len() {
                self.coef[i]
            } else {
                rhs.coef[i]
            };
            v.push(c);
            i += 1;
        }
        proof {
            assert(coef_ms(v@) =~= zipsum_ms(sa, sb));
        }
        Polynomial { coef: v }.saturate()
    }

    /// Coefficient-wise difference, the shorter polynomial zero-padded;
    /// the result is saturated.
    pub fn sub(self, rhs: Self) -> (r: Self)
        ensures
            r.ms() == sat_seq(zipdiff_ms(self.ms(), rhs.ms())),
            r.wf(),
    {
        let ghost sa = self.ms();
        let ghost sb = rhs.ms();
        let n = if self.coef.len() > rhs.coef.len() {
            self.coef.len()
        } else {
            rhs.coef.len()
        };
        let mut v: Vec<T> = Vec::new();
        let mut i: usize = 0;
        while i < n
            invariant
                i <= n,
                n as int == if sa.len() > sb.len() { sa.len() } else { sb.len() },
                sa == self.ms(),
                sb == rhs.ms(),
                self.ms() == coef_ms(self.coef@),
                rhs.ms() == coef_ms(rhs.coef@),
                v@.len() == i as int,
                forall|j: int| 0 <= j < i as int ==> (#[trigger] v@[j].re_m(), v@[j].im_m())
                    == zipdiff_ms(sa, sb)[j],
            decreases n - i,
        {
            let c: T = if i < self.coef.len() && i < rhs.coef.len() {
                self.coef[i].sub(rhs.coef[i])
            } else if i < self.coef.len() {
                self.coef[i]
            } else {
                rhs.coef[i].neg()
            };
            v.push(c);
            i += 1;
        }
        proof {
            assert(coef_ms(v@) =~= zipdiff_ms(sa, sb));
        }
        Polynomial { coef: v }.saturate()
    }

    /// Scale every coefficient by `k`; the result is saturated.
    pub fn scale(self, k: T) -> (r: Self)
        ensures
            r.ms() == sat_seq(scale_ms(self.ms(), (k.re_m(), k.im_m()))),
            r.wf(),
    {
        let ghost sa = self.ms();
        let ghost km = (k.re_m(), k.im_m());
        let mut v: Vec<T> = Vec::new();
        let mut i: usize = 0;
        while i < self.coef.len()
            invariant
                i <= self.coef.len(),
                sa == self.ms(),
                km == (k.re_m(), k.im_m()),
                self.ms() == coef_ms(self.coef@),
                v@.len() == i as int,
                forall|j: int| 0 <= j < i as int ==> (#[trigger] v@[j].re_m(), v@[j].im_m())
                    == scale_ms(sa, km)[j],
            decreases self.coef.len() - i,
        {
            v.push(self.coef[i].mul(k));
            i += 1;
        }
        proof {
            assert(coef_ms(v@) =~= scale_ms(sa, km));
        }
        Polynomial { coef: v }.saturate()
    }

    /// Multiply by `x^p`: prepend `p` zero coefficients.
    pub fn mul_power(&self, p: usize) -> (r: Self)
        requires
            self.ms().len() + p <= usize::MAX,
        ensures
            r.ms() == sat_seq(Seq::new(p as nat, |i: int| czero_p()) + self.ms()),
            r.wf(),
    {
        let ghost sa = self.ms();
        let mut v: Vec<T> = Vec::new();
        let mut i: usize = 0;
        while i < p
            invariant
                i <= p,
                v@.len() == i as int,
                forall|j: int| 0 <= j < i as int ==> (#[trigger] v@[j].re_m(), v@[j].im_m())
                    == czero_p(),
            decreases p - i,
        {
            v.push(T::zero());
            i += 1;
        }
        let mut j: usize = 0;
        while j < self.coef.len()
            invariant
                j <= self.coef.len(),
                sa == self.ms(),
                self.ms() == coef_ms(self.coef@),
                v@.len() == p as int + j as int,
                p as int + self.ms().len() <= usize::MAX,
                forall|q: int| 0 <= q < p as int ==> (#[trigger] v@[q].re_m(), v@[q].im_m())
                    == czero_p(),
                forall|q: int| p as int <= q < p as int + j as int
                    ==> (#[trigger] v@[q].re_m(), v@[q].im_m()) == sa[q - p as int],
            decreases self.coef.len() - j,
        {
            v.push(self.coef[j]);
            j += 1;
        }
        proof {
            assert(coef_ms(v@) =~= Seq::new(p as nat, |i: int| czero_p()) + sa);
        }
        Polynomial { coef: v }.saturate()
    }

    /// Product by convolution of the coefficient sequences; the result is
    /// saturated.
    pub fn mul(self, rhs: Self) -> (r: Self)
        requires
            self.ms().len() + rhs.ms().len() <= usize::MAX,
        ensures
            r.ms() == sat_seq(conv_ms(self.ms(), rhs.ms())),
            r.wf(),
    {
        let ghost sa = self.ms();
        let ghost sb = rhs.ms();
        let n = self.coef.len();
        let m = rhs.coef.len();
        if n == 0 || m == 0 {
            proof {
                assert(conv_ms(sa, sb) =~= Seq::<(int, int)>::empty());
            }
            return Polynomial::zero();
        }
        let mut v: Vec<T> = Vec::new();
        let mut k: usize = 0;
        while k < n + m - 1
            invariant
                k <= n + m - 1,
                n + m <= usize::MAX,
                n as int == sa.len(),
                m as int == sb.len(),
                n >= 1,
                m >= 1,
                sa == self.ms(),
                sb == rhs.ms(),
                self.ms() == coef_ms(self.coef@),
                rhs.ms() == coef_ms(rhs.coef@),
                v@.len() == k as int,
                forall|q: int| 0 <= q < k as int ==> (#[trigger] v@[q].re_m(), v@[q].im_m())
                    == conv_ms(sa, sb)[q],
            decreases n + m - 1 - k,
        {
            let mut acc = T::zero();
            let mut i: usize = 0;
            while i <= k
                invariant
                    i <= k + 1,
                    k < n + m - 1,
                    n + m <= usize::MAX,
                    n as int == sa.len(),
                    m as int == sb.len(),
                    sa == self.ms(),
                    sb == rhs.ms(),
                    self.ms() == coef_ms(self.coef@),
                    rhs.ms() == coef_ms(rhs.coef@),
                    (acc.re_m(), acc.im_m()) == conv_psum(sa, sb, k as int, i as int),
                decreases k + 1 - i,
            {
                if i < n && k - i < m {
                    acc = acc.add(self.coef[i].mul(rhs.coef[k - i]));
                } else {
                    proof {
                        acc.lemma_model_in_range();
                        lemma_cadd_zero((acc.re_m(), acc.im_m()));
                    }
                }
                i += 1;
            }
            v.push(acc);
            k += 1;
        }
        proof {
            assert(coef_ms(v@) =~= conv_ms(sa, sb));
        }
        Polynomial { coef: v }.saturate()
    }

    /// Build the monic product of the factors `x - r` over the given
    /// roots, scaled by `k`.
    pub fn from_roots_k(roots: &Vec<T>, k: T) -> (r: Self)
        requires
            roots@.len() + 2 <= usize::MAX,
        ensures
            r.ms() == sat_seq(scale_ms(from_roots_ms(coef_ms(roots@)), (k.re_m(), k.im_m()))),
            r.wf(),
    {
        let ghost rm = coef_ms(roots@);
        let mut acc = Polynomial::one();
        let mut idx: usize = 0;
        proof {
            assert(rm.take(0) =~= Seq::<(int, int)>::empty());
        }
        while idx < roots.len()
            invariant
                idx <= roots.len(),
                rm == coef_ms(roots@),
                roots@.len() + 2 <= usize::MAX,
                acc.ms() == from_roots_ms(rm.take(idx as int)),
                acc.wf(),
                acc.ms().len() <= idx as int + 1,
            decreases roots.len() - idx,
        {
            let mut lv: Vec<T> = Vec::new();
            lv.push(roots[idx].neg());
            lv.push(T::one());
            let lin = Polynomial::from_vec(lv);
            proof {
                assert(coef_ms(lv@) =~= lin_ms(rm[idx as int]));
                lemma_sat_seq_identity(lin_ms(rm[idx as int]));
            }
            let ghost pre = acc.ms();
            acc = acc.mul(lin);
            proof {
                lemma_sat_seq_len(conv_ms(pre, lin_ms(rm[idx as int])));
                assert(rm.take(idx as int + 1).drop_last() =~= rm.take(idx as int));
                assert(rm.take(idx as int + 1).last() == rm[idx as int]);
            }
            idx += 1;
        }
        proof {
            assert(rm.take(roots@.len() as int) =~= rm);
        }
        acc.scale(k)
    }

    /// Synthetic division by `x - r` via Horner's scheme: the quotient
    /// polynomial, one degree lower, and the scalar remainder, which is
    /// the polynomial's value at `x`.  `None` only for a
    /// coefficient-less polynomial, which no constructor builds.
    pub fn deflate(&self, x: T) -> (r: Option<(Self, T)>)
        ensures
            match r {
                Some((q, rem)) => {
                    &&& self.ms().len() >= 1
                    &&& q.ms() == sat_seq(defl_seq(self.ms(), (x.re_m(), x.im_m())).skip(1))
                    &&& q.wf()
                    &&& (rem.re_m(), rem.im_m()) == defl_seq(self.ms(), (x.re_m(), x.im_m()))[0]
                    &&& (rem.re_m(), rem.im_m()) == eval_ms(self.ms(), (x.re_m(), x.im_m()))
                },
                None => self.ms().len() == 0,
            },
    {
        let ghost sa = self.ms();
        let ghost xm = (x.re_m(), x.im_m());
        let ghost d = defl_seq(sa, xm);
        proof {
            lemma_defl_shape(sa, xm);
            if sa.len() >= 1 {
                self.lemma_ms_in_range();
                lemma_deflate_remainder(sa, xm);
            }
        }
        let n = self.coef.len();
        if n == 0 {
            return None;
        }
        let mut bs: Vec<T> = Vec::new();
        let mut carry = T::zero();
        let mut i: usize = n;
        while i > 0
            invariant
                i <= n,
                n as int == sa.len(),
                n >= 1,
                sa == self.ms(),
                xm == (x.re_m(), x.im_m()),
                d == defl_seq(sa, xm),
                d.len() == sa.len(),
                sa.len() >= 1 ==> d[sa.len() - 1] == sa[sa.len() - 1],
                forall|t: int| 0 <= t < sa.len() - 1 ==> #[trigger] d[t]
                    == cadd_p(sa[t], cmul_p(d[t + 1], xm)),
                self.ms() == coef_ms(self.coef@),
                bs@.len() == n as int - i as int,
                forall|j: int| 0 <= j < bs@.len() ==> (#[trigger] bs@[j].re_m(), bs@[j].im_m())
                    == d[n as int - 1 - j],
                i < n ==> (carry.re_m(), carry.im_m()) == cmul_p(d[i as int], xm),
                i == n ==> (carry.re_m(), carry.im_m()) == czero_p(),
            decreases i,
        {
            i -= 1;
            let b = self.coef[i].add(carry);
            proof {
                if i as int == n as int - 1 {
                    self.coef@[i as int].lemma_model_in_range();
                    lemma_cadd_zero((self.coef@[i as int].re_m(), self.coef@[i as int].im_m()));
                }
            }
            carry = b.mul(x);
            bs.push(b);
        }
        let rem = bs[n - 1];
        let mut qv: Vec<T> = Vec::new();
        let mut j: usize = n - 1;
        while j > 0
            invariant
                j <= n - 1,
                n as int == sa.len(),
                n >= 1,
                d.len() == sa.len(),
                bs@.len() == n as int,
                forall|t: int| 0 <= t < bs@.len() ==> (#[trigger] bs@[t].re_m(), bs@[t].im_m())
                    == d[n as int - 1 - t],
                qv@.len() == n as int - 1 - j as int,
                forall|t: int| 0 <= t < qv@.len() ==> (#[trigger] qv@[t].re_m(), qv@[t].im_m())
                    == d[t + 1],
            decreases j,
        {
            j -= 1;
            qv.push(bs[j]);
        }
        proof {
            assert(coef_ms(qv@) =~= d.skip(1));
        }
        Some((Polynomial::from_vec(qv), rem))
    }

    /// Differentiate: coefficient `i` of the result is `i + 1` times
    /// coefficient `i + 1` of the argument, the constant term being
    /// dropped.
    pub fn differentiate(&self) -> (r: Self)
        ensures
            r.ms() == sat_seq(diff_ms(self.ms())),
            r.wf(),
    {
        let ghost sa = self.ms();
        let mut v: Vec<T> = Vec::new();
        if self.coef.len() == 0 {
            proof {
                assert(coef_ms(v@) =~= diff_ms(sa));
            }
            return Polynomial { coef: v }.saturate();
        }
        let mut i: usize = 1;
        while i < self.coef.len()
            invariant
                1 <= i <= self.coef.len() || (self.coef.len() == 0 && i == 1),
                sa == self.ms(),
                self.ms() == coef_ms(self.coef@),
                sa.len() >= 1,
                v@.len() == i as int - 1,
                forall|j: int| 0 <= j < i as int - 1
                    ==> (#[trigger] v@[j].re_m(), v@[j].im_m()) == diff_ms(sa)[j],
            decreases self.coef.len() - i,
        {
            let c = T::from_u64(i as u64).mul(self.coef[i]);
            v.push(c);
            i += 1;
        }
        proof {
            assert(coef_ms(v@) =~= diff_ms(sa));
        }
        Polynomial { coef: v }.saturate()
    }
}

/// A model pair is small when both mantissas stay within `2^46`, that
/// is, the value is within `2^14` in magnitude.  The exactness law below
/// holds inside this comfortable range, where no product or sum can
/// saturate.
pub open spec fn small_p(a: (int, int)) -> bool {
    &&& iabs(a.0) <= 0x4000_0000_0000
    &&& iabs(a.1) <= 0x4000_0000_0000
}

/// Products of small pairs are exact compositions of rounded products,
/// with parts well inside the finite range.
proof fn lemma_cmul_small(a: (int, int), b: (int, int))
    requires
        small_p(a),
        small_p(b),
    ensures
        cmul_p(a, b).0 == rnd_div(a.0 * b.0, SCALE as int) - rnd_div(a.1 * b.1, SCALE as int),
        cmul_p(a, b).1 == rnd_div(a.0 * b.1, SCALE as int) + rnd_div(a.1 * b.0, SCALE as int),
        iabs(cmul_p(a, b).0) <= 0x2000_0000_0000_0002,
        iabs(cmul_p(a, b).1) <= 0x2000_0000_0000_0002,
{
    lemma_mul_m_small(a.0, b.0);
    lemma_mul_m_small(a.1, b.1);
    lemma_mul_m_small(a.0, b.1);
    lemma_mul_m_small(a.1, b.0);
}

/// Negating the second factor negates a small product exactly.
proof fn lemma_cmul_small_neg(a: (int, int), b: (int, int))
    requires
        small_p(a),
        small_p(b),
    ensures
        cmul_p(a, cneg_p(b)) == cneg_p(cmul_p(a, b)),
{
    lemma_cmul_small(a, b);
    lemma_cmul_small(a, cneg_p(b));
    assert(a.0 * (-b.0) == -(a.0 * b.0)) by (nonlinear_arith);
    assert(a.1 * (-b.1) == -(a.1 * b.1)) by (nonlinear_arith);
    assert(a.0 * (-b.1) == -(a.0 * b.1)) by (nonlinear_arith);
    assert(a.1 * (-b.0) == -(a.1 * b.0)) by (nonlinear_arith);
    lemma_rnd_div_neg(a.0 * b.0, SCALE as int);
    lemma_rnd_div_neg(a.1 * b.1, SCALE as int);
    lemma_rnd_div_neg(a.0 * b.1, SCALE as int);
    lemma_rnd_div_neg(a.1 * b.0, SCALE as int);
}

/// Multiplying a pair in mantissa range by one changes nothing.
proof fn lemma_cmul_one(a: (int, int))
    requires
        in_range_p(a),
    ensures
        cmul_p(a, cone_p()) == a,
{
    lemma_mul_m_one(a.0);
    lemma_mul_m_one(a.1);
    lemma_mul_m_zero(a.0);
    lemma_mul_m_zero(a.1);
}

/// Subtracting and then adding back the same small product cancels
/// exactly: nothing saturates on the way.
proof fn lemma_cadd_cancel(a: (int, int), t: (int, int))
    requires
        small_p(a),
        iabs(t.0) <= 0x2000_0000_0000_0002,
        iabs(t.1) <= 0x2000_0000_0000_0002,
    ensures
        cadd_p(cadd_p(a, cneg_p(t)), t) == a,
{
}

/// Convolution partial sums against a linear factor are zero below the
/// two live terms.
proof fn lemma_conv_lin_prefix(q: Seq<(int, int)>, r: (int, int), k: int, i: int)
    requires
        0 <= i <= k - 1,
    ensures
        conv_psum(q, lin_ms(r), k, i) == czero_p(),
    decreases i,
{
    if i > 0 {
        lemma_conv_lin_prefix(q, r, k, i - 1);
        assert(conv_term(q, lin_ms(r), k, i - 1) == czero_p());
    }
}

/// The convolution with a linear factor, entry by entry.
proof fn lemma_conv_lin_entries(q: Seq<(int, int)>, r: (int, int))
    requires
        q.len() >= 1,
        forall|i: int| 0 <= i < q.len() ==> small_p(#[trigger] q[i]),
        small_p(r),
    ensures
        conv_ms(q, lin_ms(r)).len() == q.len() + 1,
        conv_ms(q, lin_ms(r))[0] == cmul_p(q[0], cneg_p(r)),
        forall|k: int| 1 <= k < q.len() ==> conv_ms(q, lin_ms(r))[k]
            == cadd_p(q[k - 1], cneg_p(#[trigger] cmul_p(q[k], r))),
        conv_ms(q, lin_ms(r))[q.len() as int] == q[q.len() - 1],
{
    let b = lin_ms(r);
    let n = q.len() as int;
    let c = conv_ms(q, b);
    assert(c[0] == cadd_p(conv_psum(q, b, 0, 0), conv_term(q, b, 0, 0)));
    assert(conv_term(q, b, 0, 0) == cmul_p(q[0], cneg_p(r)));
    lemma_cmul_small(q[0], cneg_p(r));
    lemma_cadd_zero(cmul_p(q[0], cneg_p(r)));
    assert forall|k: int| 1 <= k < n implies c[k]
        == cadd_p(q[k - 1], cneg_p(cmul_p(q[k], r))) by {
        lemma_conv_lin_prefix(q, r, k, k - 1);
        assert(conv_term(q, b, k, k - 1) == cmul_p(q[k - 1], b[1]));
        lemma_cmul_one(q[k - 1]);
        lemma_cadd_zero(q[k - 1]);
        assert(conv_psum(q, b, k, k) == q[k - 1]);
        assert(conv_term(q, b, k, k) == cmul_p(q[k], cneg_p(r)));
        lemma_cmul_small_neg(q[k], r);
        assert(c[k] == cadd_p(conv_psum(q, b, k, k), conv_term(q, b, k, k)));
    }
    assert(c[n] == cadd_p(conv_psum(q, b, n, n), conv_term(q, b, n, n)));
    lemma_conv_lin_prefix(q, r, n, n - 1);
    assert(conv_term(q, b, n, n - 1) == cmul_p(q[n - 1], b[1]));
    lemma_cmul_one(q[n - 1]);
    lemma_cadd_zero(q[n - 1]);
    assert(conv_psum(q, b, n, n) == q[n - 1]);
    assert(conv_term(q, b, n, n) == czero_p());
}

/// Downward induction: the deflation of the product carries the factor's
/// coefficients, one step up.
proof fn lemma_defl_restores(q: Seq<(int, int)>, r: (int, int), k: int)
    requires
        q.len() >= 1,
        forall|i: int| 0 <= i < q.len() ==> small_p(#[trigger] q[i]),
        small_p(r),
        1 <= k <= q.len(),
    ensures
        defl_seq(conv_ms(q, lin_ms(r)), r)[k] == q[k - 1],
    decreases q.len() - k,
{
    let n = q.len() as int;
    let c = conv_ms(q, lin_ms(r));
    let d = defl_seq(c, r);
    lemma_conv_lin_entries(q, r);
    lemma_defl_shape(c, r);
    if k == n {
        assert(d[n] == c[n]);
    } else {
        lemma_defl_restores(q, r, k + 1);
        assert(d[k] == cadd_p(c[k], cmul_p(d[k + 1], r)));
        assert(d[k + 1] == q[k]);
        assert(c[k] == cadd_p(q[k - 1], cneg_p(cmul_p(q[k], r))));
        lemma_cmul_small(q[k], r);
        lemma_cadd_cancel(q[k - 1], cmul_p(q[k], r));
    }
}

/// Deflation inverts multiplication by a root factor, exactly.
///
/// For a saturated polynomial `q` whose coefficients, like the root `r`,
/// are small (within `2^14` in value), multiplying by the factor
/// `x - r` and then deflating the product at `r` returns `q` itself,
/// coefficient for coefficient: the quotient's model is the model of
/// `q`.  The law is stated over the very spec functions the executable
/// `mul` and `deflate` are specified with.
pub proof fn lemma_deflate_round_trip(q: Seq<(int, int)>, r: (int, int))
    requires
        saturated(q),
        forall|i: int| 0 <= i < q.len() ==> small_p(#[trigger] q[i]),
        small_p(r),
    ensures
        sat_seq(defl_seq(sat_seq(conv_ms(q, lin_ms(r))), r).skip(1)) == q,
{
    let n = q.len() as int;
    let c = conv_ms(q, lin_ms(r));
    lemma_conv_lin_entries(q, r);
    if n == 1 && q[0] == czero_p() {
        // the zero polynomial: the product is all zero and deflates to
        // the zero polynomial again
        lemma_cmul_small(q[0], cneg_p(r));
        assert(q[0].0 == 0 && q[0].1 == 0);
        assert(0 * (-r.0) == 0) by (nonlinear_arith);
        assert(0 * (-r.1) == 0) by (nonlinear_arith);
        assert(0 * r.0 == 0) by (nonlinear_arith);
        assert(0 * r.1 == 0) by (nonlinear_arith);
        lemma_mul_m_zero(cneg_p(r).0);
        lemma_mul_m_zero(cneg_p(r).1);
        assert(cmul_p(q[0], cneg_p(r)) == czero_p());
        assert(c[0] == czero_p());
        assert(c[1] == czero_p());
        assert(c.len() == 2);
        assert(c.drop_last() =~= seq![czero_p()]);
        assert(sat_seq(c) == sat_seq(c.drop_last()));
        assert(seq![czero_p()].drop_last() =~= Seq::<(int, int)>::empty());
        lemma_sat_seq_identity(seq![czero_p()]);
        let d = defl_seq(seq![czero_p()], r);
        assert(d == seq![czero_p()]);
        assert(d.skip(1) =~= Seq::<(int, int)>::empty());
        assert(sat_seq(d.skip(1)) =~= seq![czero_p()]);
        assert(q =~= seq![czero_p()]);
    } else {
        // nonzero leading coefficient: the product keeps it on top
        assert(q[n - 1] != czero_p());
        assert(c[c.len() - 1] == q[n - 1]);
        lemma_sat_seq_identity(c);
        let d = defl_seq(c, r);
        lemma_defl_shape(c, r);
        assert forall|k: int| 0 <= k < n implies d.skip(1)[k] == q[k] by {
            lemma_defl_restores(q, r, k + 1);
        }
        assert(d.skip(1) =~= q);
        lemma_sat_seq_identity(q);
    }
}

} // verus!
