//! Fixed-point scalar arithmetic.
//!
//! Every scalar of the renderer is a `Fixed`: the real number `raw / SCALE`
//! for an integer `raw`. All arithmetic is defined exactly, over mathematical
//! integers, by the spec functions of this module: multiplication and division
//! round toward zero, and the square root rounds down. Contracts elsewhere in
//! the crate are stated in terms of these spec functions.

use vstd::arithmetic::div_mod::{
    lemma_div_is_ordered, lemma_div_is_ordered_by_denominator, lemma_div_multiples_vanish,
    lemma_div_pos_is_pos, lemma_fundamental_div_mod,
};
use vstd::arithmetic::mul::{
    lemma_mul_is_associative, lemma_mul_is_commutative, lemma_mul_is_distributive_sub,
};
use vstd::prelude::*;

verus! {

/// Number of raw steps per unit (2^32): a `Fixed` with raw value `r` stands
/// for the real number `r / SCALE`.
pub const SCALE: i128 = 4294967296;

/// Absolute value of a mathematical integer.
pub open spec fn sabs(a: int) -> int {
    if a >= 0 {
        a
    } else {
        -a
    }
}

/// Division truncated toward zero, the rounding used by all fixed-point
/// operations of this crate.
pub open spec fn quot(a: int, b: int) -> int
    recommends
        b != 0,
{
    if (a >= 0) == (b >= 0) {
        sabs(a) / sabs(b)
    } else {
        -(sabs(a) / sabs(b))
    }
}

/// Raw value of the fixed-point product of two raw values.
pub open spec fn fmul(a: int, b: int) -> int {
    quot(a * b, SCALE as int)
}

/// Raw value of the fixed-point quotient of two raw values.
pub open spec fn fdiv(a: int, b: int) -> int {
    quot(a * (SCALE as int), b)
}

/// Integer square root, rounded down; 0 for negative arguments.
pub open spec fn sqrt_floor(n: int) -> int
    decreases n,
{
    if n <= 0 {
        0
    } else {
        let r = sqrt_floor(n - 1);
        if n < (r + 1) * (r + 1) {
            r
        } else {
            r + 1
        }
    }
}

/// Raw value of the fixed-point square root of a raw value.
pub open spec fn fsqrt(a: int) -> int {
    sqrt_floor(a * (SCALE as int))
}

/// The raw value fits in the machine representation.
pub open spec fn in_range(a: int) -> bool {
    i128::MIN <= a <= i128::MAX
}

/// The absolute value of a product is the product of the absolute values,
/// and the sign of a product follows the signs of its factors.
pub proof fn lemma_abs_mul(a: int, b: int)
    ensures
        sabs(a * b) == sabs(a) * sabs(b),
        ((a < 0) == (b < 0)) ==> a * b >= 0,
        ((a < 0) != (b < 0)) ==> a * b <= 0,
{
    if a >= 0 && b >= 0 {
        assert(a * b >= 0) by (nonlinear_arith)
            requires
                a >= 0,
                b >= 0,
        ;
    } else if a < 0 && b < 0 {
        assert(a * b >= 0 && a * b == (-a) * (-b)) by (nonlinear_arith)
            requires
                a < 0,
                b < 0,
        ;
    } else if a < 0 {
        assert(a * b <= 0 && -(a * b) == (-a) * b) by (nonlinear_arith)
            requires
                a < 0,
                b >= 0,
        ;
    } else {
        assert(a * b <= 0 && -(a * b) == a * (-b)) by (nonlinear_arith)
            requires
                a >= 0,
                b < 0,
        ;
    }
}

/// Truncated division of `a` by `b` has magnitude `|a| / |b|`, and agrees
/// with Euclidean division when both arguments are nonnegative.
pub proof fn lemma_quot_abs(a: int, b: int)
    requires
        b != 0,
    ensures
        sabs(quot(a, b)) == sabs(a) / sabs(b),
        a >= 0 && b > 0 ==> quot(a, b) == a / b,
        quot(a, b) >= 0 || quot(a, b) == -(sabs(a) / sabs(b)),
{
    lemma_div_pos_is_pos(sabs(a), sabs(b));
}

/// Truncated division by a positive divisor is monotone in the dividend.
pub proof fn lemma_quot_le(a: int, b: int, d: int)
    requires
        a <= b,
        d > 0,
    ensures
        quot(a, d) <= quot(b, d),
{
    if 0 <= a {
        lemma_div_is_ordered(a, b, d);
    } else if a < 0 <= b {
        lemma_div_pos_is_pos(-a, d);
        lemma_div_pos_is_pos(b, d);
    } else {
        lemma_div_is_ordered(-b, -a, d);
    }
}

/// A bound on both factors bounds the fixed-point product.
pub proof fn lemma_fmul_bound(a: int, b: int, m1: int, m2: int)
    requires
        sabs(a) <= m1,
        sabs(b) <= m2,
    ensures
        sabs(fmul(a, b)) <= m1 * m2 / (SCALE as int),
        sabs(fmul(a, b)) <= m1 * m2,
        m1 * m2 >= 0,
{
    lemma_abs_mul(a, b);
    assert(sabs(a) * sabs(b) <= m1 * m2) by (nonlinear_arith)
        requires
            0 <= sabs(a) <= m1,
            0 <= sabs(b) <= m2,
    ;
    lemma_quot_abs(a * b, SCALE as int);
    lemma_div_is_ordered(sabs(a * b), m1 * m2, SCALE as int);
    lemma_fundamental_div_mod(m1 * m2, SCALE as int);
    lemma_div_pos_is_pos(m1 * m2, SCALE as int);
}

/// Dividing an exact multiple returns the multiplier.
pub proof fn lemma_quot_multiple(c: int, d: int)
    requires
        d > 0,
    ensures
        quot(c * d, d) == c,
{
    lemma_abs_mul(c, d);
    lemma_div_multiples_vanish(sabs(c), d);
    assert(sabs(c) * d == d * sabs(c)) by (nonlinear_arith);
}

/// Truncated division leaves a remainder smaller than the divisor, on the
/// same side of zero as the dividend.
pub proof fn lemma_quot_rem(a: int, d: int)
    requires
        d > 0,
    ensures
        sabs(a - d * quot(a, d)) < d,
        a >= 0 ==> a - d * quot(a, d) >= 0,
        a <= 0 ==> a - d * quot(a, d) <= 0,
{
    if a >= 0 {
        lemma_fundamental_div_mod(a, d);
    } else {
        lemma_fundamental_div_mod(-a, d);
        assert(d * (-((-a) / d)) == -(d * ((-a) / d))) by (nonlinear_arith);
    }
}

/// A bound on the dividend and a lower bound on a positive divisor bound a
/// fixed-point quotient, and make the division free of overflow.
pub proof fn lemma_fdiv_bound(x: int, k: int, m: int, kmin: int)
    requires
        sabs(x) <= m,
        0 < kmin <= k,
        0 <= m,
        m * (SCALE as int) <= i128::MAX,
    ensures
        x > i128::MIN,
        sabs(x) * (SCALE as int) <= i128::MAX,
        sabs(fdiv(x, k)) <= (m * (SCALE as int)) / kmin,
{
    let s = SCALE as int;
    lemma_abs_mul(x, s);
    lemma_quot_abs(x * s, k);
    assert(sabs(x) * s <= m * s) by (nonlinear_arith)
        requires
            0 <= sabs(x) <= m,
            s > 0,
    ;
    lemma_div_is_ordered(sabs(x) * s, m * s, k);
    lemma_div_is_ordered_by_denominator(m * s, kmin, k);
}

/// A product of nonnegative scalars is nonnegative.
pub proof fn lemma_fmul_nonneg(a: int, b: int)
    requires
        a >= 0,
        b >= 0,
    ensures
        fmul(a, b) >= 0,
{
    lemma_abs_mul(a, b);
    lemma_quot_abs(a * b, SCALE as int);
    lemma_div_pos_is_pos(a * b, SCALE as int);
}

/// Negating both factors leaves a product unchanged.
pub proof fn lemma_fmul_neg_neg(a: int)
    ensures
        fmul(-a, -a) == fmul(a, a),
{
    assert((-a) * (-a) == a * a) by (nonlinear_arith);
}

/// A fixed-point square is nonnegative.
pub proof fn lemma_fmul_self_nonneg(a: int)
    ensures
        fmul(a, a) >= 0,
{
    lemma_abs_mul(a, a);
    lemma_quot_abs(a * a, SCALE as int);
    lemma_div_pos_is_pos(a * a, SCALE as int);
}

/// Negating the dividend negates a truncated quotient.
pub proof fn lemma_quot_neg(a: int, d: int)
    requires
        d > 0,
    ensures
        quot(-a, d) == -quot(a, d),
{
}

/// Negating one factor negates a fixed-point product.
pub proof fn lemma_fmul_neg(a: int, b: int)
    ensures
        fmul(-a, b) == -fmul(a, b),
{
    assert((-a) * b == -(a * b)) by (nonlinear_arith);
    lemma_quot_neg(a * b, SCALE as int);
}

/// `sqrt_floor(n)` is the greatest integer whose square is at most `n`.
pub proof fn lemma_sqrt_floor_char(n: int)
    requires
        n >= 0,
    ensures
        sqrt_floor(n) >= 0,
        sqrt_floor(n) * sqrt_floor(n) <= n,
        n < (sqrt_floor(n) + 1) * (sqrt_floor(n) + 1),
    decreases n,
{
    if n == 0 {
        assert(sqrt_floor(0) == 0);
    } else {
        lemma_sqrt_floor_char(n - 1);
        let r = sqrt_floor(n - 1);
        if n < (r + 1) * (r + 1) {
            assert(sqrt_floor(n) == r);
        } else {
            assert(sqrt_floor(n) == r + 1);
            assert(n == (r + 1) * (r + 1));
            assert((r + 1) * (r + 1) < (r + 2) * (r + 2)) by (nonlinear_arith)
                requires
                    r >= 0,
            ;
        }
    }
}

/// The square-root characterization pins `sqrt_floor` down uniquely.
pub proof fn lemma_sqrt_floor_unique(n: int, r: int)
    requires
        n >= 0,
        0 <= r,
        r * r <= n,
        n < (r + 1) * (r + 1),
    ensures
        sqrt_floor(n) == r,
{
    lemma_sqrt_floor_char(n);
    let c = sqrt_floor(n);
    if c < r {
        assert((c + 1) * (c + 1) <= r * r) by (nonlinear_arith)
            requires
                0 <= c + 1 <= r,
        ;
    }
    if c > r {
        assert((r + 1) * (r + 1) <= c * c) by (nonlinear_arith)
            requires
                0 <= r + 1 <= c,
        ;
    }
}

/// Fixed-point multiplication is associative up to a small rounding slack:
/// the two ways of forming a product of two scalars with a third differ by
/// at most a few raw steps.
pub proof fn lemma_fmul_associative_bound(k1: int, k2: int, c: int)
    ensures
        sabs(fmul(k1, fmul(k2, c)) - fmul(fmul(k1, k2), c)) <= (sabs(k1) + sabs(c)) / (
        SCALE as int) + 3,
{
    let s = SCALE as int;
    let q2 = quot(k2 * c, s);
    let r2 = k2 * c - s * q2;
    let ql = quot(k1 * q2, s);
    let rl = k1 * q2 - s * ql;
    let q12 = quot(k1 * k2, s);
    let r12 = k1 * k2 - s * q12;
    let qr = quot(q12 * c, s);
    let rr = q12 * c - s * qr;
    lemma_quot_rem(k2 * c, s);
    lemma_quot_rem(k1 * q2, s);
    lemma_quot_rem(k1 * k2, s);
    lemma_quot_rem(q12 * c, s);
    assert(s * (s * ql) == s * (k1 * q2) - s * rl) by {
        lemma_mul_is_distributive_sub(s, k1 * q2, rl);
    }
    assert(s * (k1 * q2) == k1 * (s * q2)) by {
        lemma_mul_is_associative(s, k1, q2);
        lemma_mul_is_commutative(s, k1);
        lemma_mul_is_associative(k1, s, q2);
    }
    assert(k1 * (s * q2) == k1 * (k2 * c) - k1 * r2) by {
        lemma_mul_is_distributive_sub(k1, k2 * c, r2);
    }
    assert(s * (s * qr) == s * (q12 * c) - s * rr) by {
        lemma_mul_is_distributive_sub(s, q12 * c, rr);
    }
    assert(s * (q12 * c) == c * (s * q12)) by {
        lemma_mul_is_associative(s, q12, c);
        lemma_mul_is_commutative(s * q12, c);
    }
    assert(c * (s * q12) == c * (k1 * k2) - c * r12) by {
        lemma_mul_is_distributive_sub(c, k1 * k2, r12);
    }
    assert(c * (k1 * k2) == k1 * (k2 * c)) by {
        lemma_mul_is_associative(k1, k2, c);
        lemma_mul_is_commutative(c, k1 * k2);
    }
    assert(c * r12 == r12 * c) by {
        lemma_mul_is_commutative(c, r12);
    }
    assert(s * s * (ql - qr) == r12 * c - k1 * r2 + s * (rr - rl)) by {
        lemma_mul_is_distributive_sub(s * s, ql, qr);
        lemma_mul_is_associative(s, s, ql);
        lemma_mul_is_associative(s, s, qr);
    }
    lemma_abs_mul(r12, c);
    lemma_abs_mul(k1, r2);
    assert(sabs(r12) * sabs(c) <= s * sabs(c)) by (nonlinear_arith)
        requires
            0 <= sabs(r12) <= s,
            0 <= sabs(c),
    ;
    assert(sabs(k1) * sabs(r2) <= sabs(k1) * s) by (nonlinear_arith)
        requires
            0 <= sabs(r2) <= s,
            0 <= sabs(k1),
    ;
    let bound = s * sabs(c) + sabs(k1) * s + s * (2 * s);
    assert(sabs(r12 * c - k1 * r2 + s * (rr - rl)) <= bound);
    lemma_abs_mul(s * s, ql - qr);
    let a = sabs(k1) + sabs(c);
    lemma_fundamental_div_mod(a, s);
    if sabs(ql - qr) >= a / s + 4 {
        assert((s * s) * sabs(ql - qr) >= (s * s) * (a / s + 4)) by (nonlinear_arith)
            requires
                sabs(ql - qr) >= a / s + 4,
                s == SCALE as int,
        ;
        assert((s * s) * (a / s + 4) == s * (s * (a / s)) + 4 * (s * s)) by (nonlinear_arith);
        assert(s * (s * (a / s)) >= s * (a - s)) by (nonlinear_arith)
            requires
                s == SCALE as int,
                s * (a / s) >= a - s,
        ;
        assert(s * (a - s) == s * a - s * s) by (nonlinear_arith);
        assert(s * a == s * sabs(k1) + s * sabs(c)) by (nonlinear_arith)
            requires
                a == sabs(k1) + sabs(c),
        ;
        assert(sabs(k1) * s == s * sabs(k1)) by (nonlinear_arith);
        assert(false);
    }
}

/// Multiplying by the fixed-point one is the identity.
pub proof fn lemma_fmul_one(a: int)
    ensures
        fmul(SCALE as int, a) == a,
{
    assert((SCALE as int) * a == a * (SCALE as int)) by (nonlinear_arith);
    lemma_quot_multiple(a, SCALE as int);
}

/// Fixed-point scaling distributes over addition up to two raw steps: the
/// only loss is the rounding of each product.
pub proof fn lemma_fmul_distributive_bound(k: int, a: int, b: int)
    ensures
        sabs(fmul(k, a + b) - fmul(k, a) - fmul(k, b)) <= 2,
{
    let s = SCALE as int;
    let q0 = quot(k * (a + b), s);
    let q1 = quot(k * a, s);
    let q2 = quot(k * b, s);
    lemma_quot_rem(k * (a + b), s);
    lemma_quot_rem(k * a, s);
    lemma_quot_rem(k * b, s);
    assert(k * (a + b) == k * a + k * b) by (nonlinear_arith);
    let r0 = k * (a + b) - s * q0;
    let r1 = k * a - s * q1;
    let r2 = k * b - s * q2;
    assert(s * (q1 + q2 - q0) == r0 - r1 - r2);
    lemma_abs_mul(s, q1 + q2 - q0);
    assert(s * sabs(q1 + q2 - q0) < 3 * s);
}

/// Half of a scalar added to itself returns the scalar up to one raw step.
pub proof fn lemma_halves(c: int)
    ensures
        sabs(fdiv(c, 2 * (SCALE as int)) + fdiv(c, 2 * (SCALE as int)) - c) <= 1,
{
    let s = SCALE as int;
    let q = quot(c * s, 2 * s);
    lemma_quot_rem(c * s, 2 * s);
    lemma_abs_mul(s, c - 2 * q);
    assert(s * (c - 2 * q) == c * s - (2 * s) * q) by (nonlinear_arith);
}

/// A fixed-point scalar: the real number `raw / SCALE`.
#[derive(Clone, Copy, Debug, PartialEq, Eq, Structural)]
pub struct Fixed {
    raw: i128,
}

impl View for Fixed {
    type V = int;

    closed spec fn view(&self) -> int {
        self.raw as int
    }
}

/// Magnitude of an `i128`, as a `u128`.
fn mag(x: i128) -> (r: u128)
    requires
        x > i128::MIN,
    ensures
        r == sabs(x as int),
{
    if x >= 0 {
        x as u128
    } else {
        (-x) as u128
    }
}

/// Integer square root of a `u128`, rounded down, by binary search.
fn isqrt_u128(n: u128) -> (r: u128)
    ensures
        r * r <= n < (r + 1) * (r + 1),
{
    let mut lo: u128 = 0;
    let mut hi: u128 = 0x1_0000_0000_0000_0000;
    assert(n < hi * hi) by (nonlinear_arith)
        requires
            hi == 0x1_0000_0000_0000_0000,
            n <= u128::MAX,
    ;
    while lo + 1 < hi
        invariant
            lo < hi <= 0x1_0000_0000_0000_0000,
            lo * lo <= n,
            n < hi * hi,
        decreases hi - lo,
    {
        let m = lo + (hi - lo) / 2;
        assert(lo < m < hi);
        assert(m * m <= u128::MAX) by (nonlinear_arith)
            requires
                m < 0x1_0000_0000_0000_0000,
        ;
        if m * m <= n {
            lo = m;
        } else {
            hi = m;
        }
    }
    lo
}

impl Fixed {
    /// Builds the scalar with the given raw (pre-scaled) value.
    pub fn from_raw(raw: i128) -> (r: Fixed)
        ensures
            r@ == raw,
    {
        Fixed { raw }
    }

    /// Builds the scalar for a whole number of units.
    pub fn from_int(units: i32) -> (r: Fixed)
        ensures
            r@ == units * (SCALE as int),
    {
        Fixed { raw: (units as i128) * SCALE }
    }

    /// The raw (pre-scaled) value.
    pub fn raw(self) -> (r: i128)
        ensures
            r == self@,
    {
        self.raw
    }

    /// The scalar zero.
    pub fn zero() -> (r: Fixed)
        ensures
            r@ == 0,
    {
        Fixed { raw: 0 }
    }

    /// The scalar one.
    pub fn one() -> (r: Fixed)
        ensures
            r@ == SCALE as int,
    {
        Fixed { raw: SCALE }
    }

    pub fn add(self, other: Fixed) -> (r: Fixed)
        requires
            in_range(self@ + other@),
        ensures
            r@ == self@ + other@,
    {
        Fixed { raw: self.raw + other.raw }
    }

    pub fn sub(self, other: Fixed) -> (r: Fixed)
        requires
            in_range(self@ - other@),
        ensures
            r@ == self@ - other@,
    {
        Fixed { raw: self.raw - other.raw }
    }

    pub fn neg(self) -> (r: Fixed)
        requires
            in_range(-self@),
        ensures
            r@ == -self@,
    {
        Fixed { raw: -self.raw }
    }

    /// Fixed-point multiplication, truncated toward zero.
    pub fn mul(self, other: Fixed) -> (r: Fixed)
        requires
            self@ > i128::MIN,
            other@ > i128::MIN,
            sabs(self@) * sabs(other@) <= i128::MAX,
        ensures
            r@ == fmul(self@, other@),
    {
        let ghost a = self@;
        let ghost b = other@;
        proof {
            lemma_abs_mul(a, b);
        }
        let negative = (self.raw < 0) != (other.raw < 0);
        let p = mag(self.raw) * mag(other.raw);
        let q = p / (SCALE as u128);
        proof {
            lemma_fundamental_div_mod(p as int, SCALE as int);
            lemma_quot_abs(a * b, SCALE as int);
        }
        if negative {
            Fixed { raw: -(q as i128) }
        } else {
            Fixed { raw: q as i128 }
        }
    }

    /// Fixed-point division, truncated toward zero.
    pub fn div(self, other: Fixed) -> (r: Fixed)
        requires
            self@ > i128::MIN,
            other@ != 0,
            other@ > i128::MIN,
            sabs(self@) * (SCALE as int) <= i128::MAX,
        ensures
            r@ == fdiv(self@, other@),
    {
        let ghost a = self@;
        let ghost b = other@;
        proof {
            lemma_abs_mul(a, SCALE as int);
        }
        let p = mag(self.raw) * (SCALE as u128);
        let q = p / mag(other.raw);
        proof {
            lemma_quot_abs(a * (SCALE as int), b);
            lemma_div_is_ordered(sabs(a * (SCALE as int)) / sabs(b), sabs(a * (SCALE as int)), 1);
            lemma_fundamental_div_mod(p as int, sabs(b));
            lemma_div_pos_is_pos(p as int, sabs(b));
        }
        assert(q <= p);
        let negative = (self.raw < 0) != (other.raw < 0);
        if negative {
            Fixed { raw: -(q as i128) }
        } else {
            Fixed { raw: q as i128 }
        }
    }

    /// Fixed-point square root, rounded down.
    pub fn sqrt(self) -> (r: Fixed)
        requires
            0 <= self@,
            self@ * (SCALE as int) <= u128::MAX,
        ensures
            r@ == fsqrt(self@),
            r@ >= 0,
    {
        let n = (self.raw as u128) * (SCALE as u128);
        let s = isqrt_u128(n);
        assert(s < 0x1_0000_0000_0000_0000) by (nonlinear_arith)
            requires
                s * s <= u128::MAX,
    ;
        proof {
            lemma_sqrt_floor_unique(n as int, s as int);
        }
        Fixed { raw: s as i128 }
    }

    pub fn lt(self, other: Fixed) -> (r: bool)
        ensures
            r == (self@ < other@),
    {
        self.raw < other.raw
    }

    pub fn le(self, other: Fixed) -> (r: bool)
        ensures
            r == (self@ <= other@),
    {
        self.raw <= other.raw
    }

    /// The whole number of units, rounded down; defined for nonnegative scalars.
    pub fn floor_units(self) -> (r: i128)
        requires
            self@ >= 0,
        ensures
            r == self@ / (SCALE as int),
    {
        self.raw / SCALE
    }
}

} // verus!
