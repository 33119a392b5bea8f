//! The crate's real scalar: a saturating fixed-point number.
//!
//! A [`Real`] stores a mantissa `m: i64` and stands for the value
//! `m / SCALE` with `SCALE = 2^32`.  Arithmetic computes the exact integer
//! result (rounding quotients toward negative infinity) and then saturates
//! into the finite mantissa range.  The two extreme mantissas are kept as
//! overflow markers and play the role the infinities play for a
//! floating-point type; there is no "not a number" value.

use vstd::arithmetic::div_mod::{
    lemma_fundamental_div_mod, lemma_fundamental_div_mod_converse_div,
};
use vstd::prelude::*;

verus! {

/// One unit in the last place is `1 / SCALE`.
pub const SCALE: i64 = 0x1_0000_0000;

/// Mantissa of the positive overflow marker.
pub const MANT_POS_INF: i64 = 0x7fff_ffff_ffff_ffff;

/// Mantissa of the negative overflow marker.
pub const MANT_NEG_INF: i64 = -0x8000_0000_0000_0000;

/// Largest finite mantissa.
pub const MANT_MAX_FINITE: i64 = 0x7fff_ffff_ffff_fffe;

/// Smallest finite mantissa.
pub const MANT_MIN_FINITE: i64 = -0x7fff_ffff_ffff_ffff;

/// Saturate an unbounded mantissa into the representable range.
pub open spec fn sat_m(v: int) -> int {
    if v > MANT_MAX_FINITE as int {
        MANT_POS_INF as int
    } else if v < MANT_MIN_FINITE as int {
        MANT_NEG_INF as int
    } else {
        v
    }
}

/// Division rounding toward negative infinity, for any divisor `d != 0`.
/// (Verus's `/` on `int` is Euclidean division, which rounds toward
/// negative infinity exactly when the divisor is positive.)
pub open spec fn fdiv(p: int, d: int) -> int {
    if d > 0 {
        p / d
    } else {
        (-p) / (-d)
    }
}

/// Mantissa of a sum.
pub open spec fn add_m(a: int, b: int) -> int {
    sat_m(a + b)
}

/// Mantissa of a difference.
pub open spec fn sub_m(a: int, b: int) -> int {
    sat_m(a - b)
}

/// Mantissa of a negation.
pub open spec fn neg_m(a: int) -> int {
    sat_m(-a)
}

/// Mantissa of an absolute value.
pub open spec fn abs_m(a: int) -> int {
    sat_m(if a < 0 { -a } else { a })
}

/// Magnitude of an integer.
pub open spec fn iabs(x: int) -> int {
    if x < 0 {
        -x
    } else {
        x
    }
}

/// The quotient `p / d` rounded to the nearest integer, ties away from
/// zero, for `d != 0`.  It is computed on magnitudes, so it is symmetric:
/// negating either operand negates the result.
pub open spec fn rnd_div(p: int, d: int) -> int {
    if (p < 0) == (d < 0) {
        (2 * iabs(p) + iabs(d)) / (2 * iabs(d))
    } else {
        -((2 * iabs(p) + iabs(d)) / (2 * iabs(d)))
    }
}

/// Mantissa of a product: the exact product has `2 * 32` fractional bits,
/// so it is scaled back down by one `SCALE`, rounding to nearest.
pub open spec fn mul_m(a: int, b: int) -> int {
    sat_m(rnd_div(a * b, SCALE as int))
}

/// Mantissa of a halved value, rounding down.
pub open spec fn half_m(a: int) -> int {
    fdiv(a, 2)
}

/// Mantissa of a quotient.  Division by an exact zero saturates by the
/// dividend's sign, the analogue of the infinities a float division
/// produces.
pub open spec fn div_m(a: int, b: int) -> int {
    if b == 0 {
        if a >= 0 {
            MANT_POS_INF as int
        } else {
            MANT_NEG_INF as int
        }
    } else {
        sat_m(rnd_div(a * SCALE, b))
    }
}

/// Multiplying by an exact zero gives an exact zero.
pub proof fn lemma_mul_m_zero(a: int)
    ensures
        mul_m(a, 0) == 0,
        mul_m(0, a) == 0,
{
    assert(a * 0 == 0) by (nonlinear_arith);
    assert(0 * a == 0) by (nonlinear_arith);
    assert((2 * iabs(0) + iabs(SCALE as int)) == SCALE as int);
    assert((SCALE as int) / (2 * SCALE as int) == 0) by {
        vstd::arithmetic::div_mod::lemma_basic_div(SCALE as int, 2 * SCALE as int);
    }
}

/// Nearest-rounding is symmetric: negating the dividend negates the
/// quotient.
pub proof fn lemma_rnd_div_neg(p: int, d: int)
    requires
        d != 0,
    ensures
        rnd_div(-p, d) == -rnd_div(p, d),
{
    assert(iabs(-p) == iabs(p));
    let x = (2 * iabs(p) + iabs(d)) / (2 * iabs(d));
    if p == 0 {
        assert(2 * iabs(p) + iabs(d) == iabs(d));
        assert(iabs(d) < 2 * iabs(d));
        vstd::arithmetic::div_mod::lemma_basic_div(iabs(d), 2 * iabs(d));
        assert(x == 0);
        assert(rnd_div(0, d) == 0);
        assert(-p == 0);
    } else if p < 0 {
        assert(-p > 0);
        if d < 0 {
            assert(rnd_div(p, d) == x);
            assert(rnd_div(-p, d) == -x);
        } else {
            assert(rnd_div(p, d) == -x);
            assert(rnd_div(-p, d) == x);
        }
    } else {
        if d < 0 {
            assert(rnd_div(p, d) == -x);
            assert(rnd_div(-p, d) == x);
        } else {
            assert(rnd_div(p, d) == x);
            assert(rnd_div(-p, d) == -x);
        }
    }
}

/// An exact multiple of the divisor rounds to the exact quotient.
pub proof fn lemma_rnd_div_exact(a: int, d: int)
    requires
        d > 0,
    ensures
        rnd_div(a * d, d) == a,
{
    let am = iabs(a);
    assert(iabs(a * d) == am * d) by (nonlinear_arith)
        requires d > 0, am == iabs(a);
    assert(2 * (am * d) + d == (2 * am + 1) * d) by (nonlinear_arith);
    assert((2 * am + 1) * d == am * (2 * d) + d) by (nonlinear_arith);
    lemma_fundamental_div_mod_converse_div(am * (2 * d) + d, 2 * d, am, d);
    assert((2 * iabs(a * d) + iabs(d)) / (2 * iabs(d)) == am);
    if a < 0 {
        assert(a * d < 0) by (nonlinear_arith)
            requires a < 0, d > 0;
        assert(rnd_div(a * d, d) == -am);
    } else {
        assert(a * d >= 0) by (nonlinear_arith)
            requires a >= 0, d > 0;
    }
}

/// Multiplying an in-range mantissa by one is exact.
pub proof fn lemma_mul_m_one(a: int)
    requires
        MANT_NEG_INF as int <= a <= MANT_POS_INF as int,
    ensures
        mul_m(a, SCALE as int) == a,
        mul_m(SCALE as int, a) == a,
{
    lemma_rnd_div_exact(a, SCALE as int);
    assert(a * SCALE == SCALE * a) by (nonlinear_arith);
}

/// With both factors within `2^46`, a product mantissa stays within
/// `2^60 + 1` and does not saturate.
pub proof fn lemma_mul_m_small(a: int, b: int)
    requires
        iabs(a) <= 0x4000_0000_0000,
        iabs(b) <= 0x4000_0000_0000,
    ensures
        mul_m(a, b) == rnd_div(a * b, SCALE as int),
        iabs(rnd_div(a * b, SCALE as int)) <= 0x1000_0000_0000_0001,
{
    let p = a * b;
    assert(iabs(p) <= 0x1000_0000_0000_0000_0000_0000) by (nonlinear_arith)
        requires iabs(a) <= 0x4000_0000_0000, iabs(b) <= 0x4000_0000_0000, p == a * b;
    let q = (2 * iabs(p) + SCALE as int) / (2 * SCALE as int);
    assert(q >= 0) by {
        vstd::arithmetic::div_mod::lemma_div_pos_is_pos(2 * iabs(p) + SCALE as int,
            2 * SCALE as int);
    }
    assert(q <= 0x1000_0000_0000_0001) by {
        assert((0x1000_0000_0000_0001) * (2 * SCALE as int) > 2 * iabs(p) + SCALE as int)
            by (nonlinear_arith)
            requires iabs(p) <= 0x1000_0000_0000_0000_0000_0000;
        lemma_fundamental_div_mod(2 * iabs(p) + SCALE as int, 2 * SCALE as int);
        assert(q * (2 * SCALE as int) <= 2 * iabs(p) + SCALE as int);
        if q > 0x1000_0000_0000_0001 {
            assert(q * (2 * SCALE as int) >= (0x1000_0000_0000_0002) * (2 * SCALE as int))
                by (nonlinear_arith)
                requires q >= 0x1000_0000_0000_0002;
            assert(false);
        }
    }
    assert(iabs(rnd_div(p, SCALE as int)) == q);
}

/// A common positive factor of dividend and divisor cancels.
pub proof fn lemma_rnd_div_common(x: int, d: int, s: int)
    requires
        d != 0,
        s > 0,
    ensures
        rnd_div(x * s, d * s) == rnd_div(x, d),
{
    assert(iabs(x * s) == iabs(x) * s) by (nonlinear_arith)
        requires s > 0;
    assert(iabs(d * s) == iabs(d) * s) by (nonlinear_arith)
        requires s > 0;
    let q = (2 * iabs(x) + iabs(d)) / (2 * iabs(d));
    lemma_fundamental_div_mod(2 * iabs(x) + iabs(d), 2 * iabs(d));
    let rr = (2 * iabs(x) + iabs(d)) % (2 * iabs(d));
    assert(2 * (iabs(x) * s) + iabs(d) * s == q * (2 * (iabs(d) * s)) + rr * s)
        by (nonlinear_arith)
        requires 2 * iabs(x) + iabs(d) == q * (2 * iabs(d)) + rr;
    assert(0 <= rr * s < 2 * (iabs(d) * s)) by (nonlinear_arith)
        requires 0 <= rr < 2 * iabs(d), s > 0;
    lemma_fundamental_div_mod_converse_div(
        2 * (iabs(x) * s) + iabs(d) * s,
        2 * (iabs(d) * s),
        q,
        rr * s,
    );
    assert((x * s < 0) == (x < 0) || x == 0) by (nonlinear_arith)
        requires s > 0;
    assert((d * s < 0) == (d < 0)) by (nonlinear_arith)
        requires s > 0, d != 0;
    if x == 0 {
        assert(x * s == 0) by (nonlinear_arith)
            requires x == 0;
    }
}

/// Twice a half rounded to nearest is within one of the value halved.
pub proof fn lemma_rnd_div2_close(x: int)
    ensures
        iabs(2 * rnd_div(x, 2) - x) <= 1,
{
    let q = (2 * iabs(x) + 2) / 4;
    lemma_fundamental_div_mod(2 * iabs(x) + 2, 4);
    assert(2 * iabs(x) + 2 == q * 4 + ((2 * iabs(x) + 2) % 4));
    assert(0 <= (2 * iabs(x) + 2) % 4 < 4);
    assert(2 * q - 1 <= iabs(x) <= 2 * q);
    if x >= 0 {
        assert(rnd_div(x, 2) == q);
    } else {
        assert(rnd_div(x, 2) == -q);
    }
}

/// `r` is the integer square root of `n`.
pub open spec fn is_isqrt(n: int, r: int) -> bool {
    &&& 0 <= r
    &&& r * r <= n
    &&& n < (r + 1) * (r + 1)
}

/// The integer square root of a non-negative `n`.
pub open spec fn isqrt(n: int) -> int {
    choose|r: int| #[trigger] is_isqrt(n, r)
}

/// Mantissa of a square root: the value is `m / SCALE`, so the mantissa of
/// its root is `floor(sqrt(m * SCALE))`.  The positive overflow marker is
/// its own root.
pub open spec fn sqrt_m(a: int) -> int {
    if a == MANT_POS_INF as int {
        MANT_POS_INF as int
    } else {
        isqrt(a * SCALE)
    }
}

/// Mantissa of the hypotenuse `sqrt(a^2 + b^2)`, taken directly on the
/// mantissas: the scale factors cancel, so no intermediate square is
/// scaled down and nothing small is lost.
pub open spec fn hypot_m(a: int, b: int) -> int {
    sat_m(isqrt(a * a + b * b))
}

/// An integer square root exists for every non-negative argument, so
/// `isqrt` satisfies its characterization.
pub proof fn lemma_isqrt_exists(n: int)
    requires
        n >= 0,
    ensures
        is_isqrt(n, isqrt(n)),
    decreases n,
{
    if n == 0 {
        assert(is_isqrt(0, 0));
    } else {
        lemma_isqrt_exists(n - 1);
        let r = choose|r: int| #[trigger] is_isqrt(n - 1, r);
        if n < (r + 1) * (r + 1) {
            assert(is_isqrt(n, r));
        } else {
            assert(n == (r + 1) * (r + 1));
            assert(((r + 1) + 1) * ((r + 1) + 1) > (r + 1) * (r + 1)) by (nonlinear_arith)
                requires r >= 0;
            assert(is_isqrt(n, r + 1));
        }
    }
}

/// The integer square root is unique.
pub proof fn lemma_isqrt_unique(n: int, r1: int, r2: int)
    requires
        is_isqrt(n, r1),
        is_isqrt(n, r2),
    ensures
        r1 == r2,
{
    if r1 < r2 {
        assert((r1 + 1) * (r1 + 1) <= r2 * r2) by (nonlinear_arith)
            requires 0 <= r1, 0 <= r2, r1 < r2;
    }
    if r2 < r1 {
        assert((r2 + 1) * (r2 + 1) <= r1 * r1) by (nonlinear_arith)
            requires 0 <= r1, 0 <= r2, r2 < r1;
    }
}

/// The crate's fixed-point real scalar; see the module documentation.
#[derive(Clone, Copy, Debug, PartialEq, Eq, Structural)]
pub struct Real {
    /// The mantissa; the value is `m / SCALE`.
    pub m: i64,
}

/// The product of two `i64`-range integers stays within `2^126` in
/// magnitude, so an `i128` holds it.
proof fn lemma_i64_mul_in_i128(a: int, b: int)
    requires
        -0x8000_0000_0000_0000 <= a <= 0x7fff_ffff_ffff_ffff,
        -0x8000_0000_0000_0000 <= b <= 0x7fff_ffff_ffff_ffff,
    ensures
        -0x4000_0000_0000_0000_0000_0000_0000_0000 <= a * b
            <= 0x4000_0000_0000_0000_0000_0000_0000_0000,
{
    assert(-0x4000_0000_0000_0000_0000_0000_0000_0000 <= a * b
        <= 0x4000_0000_0000_0000_0000_0000_0000_0000) by (nonlinear_arith)
        requires
            -0x8000_0000_0000_0000 <= a <= 0x7fff_ffff_ffff_ffff,
            -0x8000_0000_0000_0000 <= b <= 0x7fff_ffff_ffff_ffff;
}

/// Saturate an `i128` intermediate result into an `i64` mantissa.
fn clamp_mant(v: i128) -> (r: i64)
    ensures
        r as int == sat_m(v as int),
{
    if v > MANT_MAX_FINITE as i128 {
        MANT_POS_INF
    } else if v < MANT_MIN_FINITE as i128 {
        MANT_NEG_INF
    } else {
        v as i64
    }
}

/// Quotient of `p` and `d`, rounded toward negative infinity.
fn floor_div(p: i128, d: i128) -> (q: i128)
    requires
        d != 0,
        -0x4000_0000_0000_0000_0000_0000_0000_0000 <= p
            <= 0x4000_0000_0000_0000_0000_0000_0000_0000,
        -0x4000_0000_0000_0000_0000_0000_0000_0000 <= d
            <= 0x4000_0000_0000_0000_0000_0000_0000_0000,
    ensures
        q as int == fdiv(p as int, d as int),
{
    let (pp, dd): (i128, i128) = if d < 0 { (-p, -d) } else { (p, d) };
    if pp >= 0 {
        ((pp as u128) / (dd as u128)) as i128
    } else {
        let y = (-pp) as u128;
        let du = dd as u128;
        let qy = y / du;
        let ry = y % du;
        proof {
            lemma_fundamental_div_mod(y as int, du as int);
            assert((qy as int) <= y as int) by (nonlinear_arith)
                requires
                    (qy as int) * (du as int) + ry as int == y as int,
                    (du as int) >= 1,
                    (qy as int) >= 0,
                    (ry as int) >= 0;
        }
        if ry == 0 {
            let q = -(qy as i128);
            proof {
                assert(pp as int == (q as int) * (dd as int) + 0) by (nonlinear_arith)
                    requires
                        (qy as int) * (du as int) + ry as int == y as int,
                        ry == 0,
                        y as int == -(pp as int),
                        du as int == dd as int,
                        q as int == -(qy as int);
                lemma_fundamental_div_mod_converse_div(pp as int, dd as int, q as int, 0);
            }
            q
        } else {
            let q = -(qy as i128) - 1;
            proof {
                assert(pp as int == (q as int) * (dd as int) + (dd as int - ry as int))
                    by (nonlinear_arith)
                    requires
                        (qy as int) * (du as int) + ry as int == y as int,
                        y as int == -(pp as int),
                        du as int == dd as int,
                        q as int == -(qy as int) - 1;
                lemma_fundamental_div_mod_converse_div(
                    pp as int,
                    dd as int,
                    q as int,
                    dd as int - ry as int,
                );
            }
            q
        }
    }
}

/// Quotient of `p` and `d`, rounded to nearest, ties away from zero.
fn round_div(p: i128, d: i128) -> (q: i128)
    requires
        d != 0,
        -0x4000_0000_0000_0000_0000_0000_0000_0000 <= p
            <= 0x4000_0000_0000_0000_0000_0000_0000_0000,
        -0x4000_0000_0000_0000_0000_0000_0000_0000 <= d
            <= 0x4000_0000_0000_0000_0000_0000_0000_0000,
    ensures
        q as int == rnd_div(p as int, d as int),
{
    let pm: u128 = if p < 0 {
        (-p) as u128
    } else {
        p as u128
    };
    let dm: u128 = if d < 0 {
        (-d) as u128
    } else {
        d as u128
    };
    let qm: u128 = (2 * pm + dm) / (2 * dm);
    proof {
        lemma_fundamental_div_mod((2 * pm + dm) as int, (2 * dm) as int);
        assert((qm as int) <= pm as int) by (nonlinear_arith)
            requires
                (qm as int) * ((2 * dm) as int) + ((2 * pm + dm) as int % ((2 * dm) as int))
                    == (2 * pm + dm) as int,
                (dm as int) >= 1,
                (pm as int) >= 0,
                (qm as int) >= 0,
                ((2 * pm + dm) as int % ((2 * dm) as int)) >= 0;
    }
    let qi = qm as i128;
    if (p < 0) != (d < 0) {
        -qi
    } else {
        qi
    }
}

/// Integer square root of `n` by bisection.
fn isqrt_u128(n: u128) -> (r: u128)
    ensures
        is_isqrt(n as int, r as int),
{
    if n == 0 {
        return 0;
    }
    let mut lo: u128 = 0;
    let mut hi: u128 = 0x1_0000_0000_0000_0000u128;
    proof {
        assert((hi as int) * (hi as int) > n as int) by (nonlinear_arith)
            requires
                hi as int == 0x1_0000_0000_0000_0000,
                (n as int) <= 0xffff_ffff_ffff_ffff_ffff_ffff_ffff_ffff;
    }
    while hi - lo > 1
        invariant
            lo < hi,
            hi <= 0x1_0000_0000_0000_0000u128,
            (lo as int) * (lo as int) <= n as int,
            (hi as int) * (hi as int) > n as int,
        decreases hi - lo,
    {
        let mid = lo + (hi - lo) / 2;
        assert(lo < mid < hi);
        assert((mid as int) * (mid as int) < 0x1_0000_0000_0000_0000_0000_0000_0000_0000)
            by (nonlinear_arith)
            requires (mid as int) < 0x1_0000_0000_0000_0000;
        if mid * mid <= n {
            lo = mid;
        } else {
            hi = mid;
        }
    }
    lo
}

impl Real {
    /// The mantissa as a mathematical integer; contracts are stated over it.
    pub open spec fn mant(self) -> int {
        self.m as int
    }

    /// Build a scalar directly from its mantissa.
    pub fn from_mantissa(m: i64) -> (r: Real)
        ensures
            r.mant() == m as int,
    {
        Real { m }
    }

    /// The mantissa, for callers outside the crate.
    pub fn mantissa(self) -> (r: i64)
        ensures
            r as int == self.mant(),
    {
        self.m
    }

    /// The scalar for a small integer.
    pub fn from_int(v: i64) -> (r: Real)
        ensures
            r.mant() == sat_m(v as int * SCALE as int),
    {
        proof {
            lemma_i64_mul_in_i128(v as int, SCALE as int);
        }
        let p = (v as i128) * (SCALE as i128);
        Real { m: clamp_mant(p) }
    }

    /// Zero.
    pub fn zero() -> (r: Real)
        ensures
            r.mant() == 0,
    {
        Real { m: 0 }
    }

    /// One.
    pub fn one() -> (r: Real)
        ensures
            r.mant() == SCALE as int,
    {
        Real { m: SCALE }
    }

    /// The smallest positive scalar, one unit in the last place.  It plays
    /// the role of a machine epsilon in the divide-by-zero guards.
    pub fn epsilon() -> (r: Real)
        ensures
            r.mant() == 1,
    {
        Real { m: 1 }
    }

    /// Whether the value is inside the finite range (not an overflow
    /// marker).
    pub fn is_finite(self) -> (r: bool)
        ensures
            r == (MANT_MIN_FINITE as int <= self.mant() <= MANT_MAX_FINITE as int),
    {
        MANT_MIN_FINITE <= self.m && self.m <= MANT_MAX_FINITE
    }

    /// Whether the sign is non-negative (zero counts as positive, as it
    /// does for a float's `is_sign_positive` on `+0`).
    pub fn is_sign_positive(self) -> (r: bool)
        ensures
            r == (self.mant() >= 0),
    {
        self.m >= 0
    }

    /// Whether the value is strictly negative.
    pub fn is_sign_negative(self) -> (r: bool)
        ensures
            r == (self.mant() < 0),
    {
        self.m < 0
    }

    /// Strictly less.
    pub fn lt(self, o: Real) -> (r: bool)
        ensures
            r == (self.mant() < o.mant()),
    {
        self.m < o.m
    }

    /// Less or equal.
    pub fn le(self, o: Real) -> (r: bool)
        ensures
            r == (self.mant() <= o.mant()),
    {
        self.m <= o.m
    }

    /// Saturating sum.
    pub fn add(self, o: Real) -> (r: Real)
        ensures
            r.mant() == add_m(self.mant(), o.mant()),
    {
        let s = self.m as i128 + o.m as i128;
        Real { m: clamp_mant(s) }
    }

    /// Saturating difference.
    pub fn sub(self, o: Real) -> (r: Real)
        ensures
            r.mant() == sub_m(self.mant(), o.mant()),
    {
        let s = self.m as i128 - o.m as i128;
        Real { m: clamp_mant(s) }
    }

    /// Saturating negation.
    pub fn neg(self) -> (r: Real)
        ensures
            r.mant() == neg_m(self.mant()),
    {
        let s = -(self.m as i128);
        Real { m: clamp_mant(s) }
    }

    /// Saturating absolute value.
    pub fn abs(self) -> (r: Real)
        ensures
            r.mant() == abs_m(self.mant()),
    {
        if self.m < 0 {
            self.neg()
        } else {
            self
        }
    }

    /// Half of the value, rounding down.  Exact where a general division
    /// by two would round twice.
    pub fn half(self) -> (r: Real)
        ensures
            r.mant() == half_m(self.mant()),
    {
        let q = floor_div(self.m as i128, 2);
        Real { m: q as i64 }
    }

    /// Saturating product, rounding to nearest.
    pub fn mul(self, o: Real) -> (r: Real)
        ensures
            r.mant() == mul_m(self.mant(), o.mant()),
    {
        proof {
            lemma_i64_mul_in_i128(self.m as int, o.m as int);
        }
        let p = (self.m as i128) * (o.m as i128);
        let q = round_div(p, SCALE as i128);
        Real { m: clamp_mant(q) }
    }

    /// Saturating quotient, rounding to nearest; division by an exact zero
    /// saturates by the dividend's sign.
    pub fn div(self, o: Real) -> (r: Real)
        ensures
            r.mant() == div_m(self.mant(), o.mant()),
    {
        if o.m == 0 {
            if self.m >= 0 {
                Real { m: MANT_POS_INF }
            } else {
                Real { m: MANT_NEG_INF }
            }
        } else {
            proof {
                lemma_i64_mul_in_i128(self.m as int, SCALE as int);
            }
            let p = (self.m as i128) * (SCALE as i128);
            let q = round_div(p, o.m as i128);
            Real { m: clamp_mant(q) }
        }
    }

    /// The hypotenuse `sqrt(a^2 + b^2)`, the magnitude of the vector with
    /// these two components, computed exactly on the mantissas and
    /// rounded down.
    pub fn hypot(a: Real, b: Real) -> (r: Real)
        ensures
            r.mant() == hypot_m(a.mant(), b.mant()),
            r.mant() >= 0,
    {
        let am: u128 = if a.m < 0 {
            (-(a.m as i128)) as u128
        } else {
            a.m as u128
        };
        let bm: u128 = if b.m < 0 {
            (-(b.m as i128)) as u128
        } else {
            b.m as u128
        };
        proof {
            assert(am as int * am as int == a.m as int * a.m as int) by (nonlinear_arith)
                requires am as int == iabs(a.m as int);
            assert(bm as int * bm as int == b.m as int * b.m as int) by (nonlinear_arith)
                requires bm as int == iabs(b.m as int);
            lemma_i64_mul_in_i128(a.m as int, a.m as int);
            lemma_i64_mul_in_i128(b.m as int, b.m as int);
        }
        let n = am * am + bm * bm;
        let r = isqrt_u128(n);
        proof {
            lemma_isqrt_exists(n as int);
            lemma_isqrt_unique(n as int, r as int, isqrt(n as int));
            assert((r as int) * (r as int) <= n as int);
        }
        if r > MANT_MAX_FINITE as u128 {
            Real { m: MANT_POS_INF }
        } else {
            Real { m: r as i64 }
        }
    }

    /// Square root of a non-negative scalar, rounding down; the positive
    /// overflow marker is its own root.
    pub fn sqrt(self) -> (r: Real)
        requires
            self.mant() >= 0,
        ensures
            r.mant() == sqrt_m(self.mant()),
            r.mant() >= 0,
    {
        if self.m == MANT_POS_INF {
            Real { m: MANT_POS_INF }
        } else {
            let n = (self.m as u128) * (SCALE as u128);
            let r = isqrt_u128(n);
            proof {
                lemma_isqrt_exists(n as int);
                lemma_isqrt_unique(n as int, r as int, isqrt(n as int));
                assert((r as int) * (r as int) <= n as int);
                assert((r as int) < 0x1_0000_0000_0000) by (nonlinear_arith)
                    requires
                        (r as int) * (r as int) <= n as int,
                        (n as int) < 0x1_0000_0000_0000_0000_0000_0000,
                        (r as int) >= 0;
            }
            Real { m: r as i64 }
        }
    }
}

} // verus!
