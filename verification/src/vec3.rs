//! Three-component vectors over fixed-point scalars.
//!
//! `Vec3` is the one geometric type of the renderer; `Point3` and `Color` are
//! its two semantic aliases. Every operation is specified exactly over the
//! integer model of `crate::fixed`: a vector's view is the triple of raw
//! component values.

use crate::fixed::{
    fdiv, fmul, fsqrt, in_range, lemma_abs_mul, lemma_fmul_bound, lemma_quot_abs,
    lemma_sqrt_floor_char, quot, sabs, Fixed, SCALE,
};
use vstd::arithmetic::div_mod::{
    lemma_div_is_ordered, lemma_div_multiples_vanish, lemma_div_pos_is_pos,
    lemma_fundamental_div_mod,
};
use vstd::prelude::*;

verus! {

/// Tolerance under which a component counts as zero: the fixed-point
/// analogue of the original's tiny epsilon, two raw steps above the
/// resolution of the representation (about 3e-5 units).
pub const NEAR_EPS: i128 = 131072;

/// Magnitude bound under which `magnitude` and `normalize` are defined.
pub const MAG_BOUND: i128 = 70368744177664;

/// A vector of three fixed-point scalars.
#[derive(Clone, Copy, Debug, PartialEq, Eq, Structural)]
pub struct Vec3(pub Fixed, pub Fixed, pub Fixed);

/// A position in space.
pub type Point3 = Vec3;

/// An RGB color; components nominally lie in [0, 1] only after clamping.
pub type Color = Vec3;

impl View for Vec3 {
    type V = (int, int, int);

    open spec fn view(&self) -> (int, int, int) {
        (self.0@, self.1@, self.2@)
    }
}

pub open spec fn vzero() -> (int, int, int) {
    (0int, 0int, 0int)
}

pub open spec fn vadd(a: (int, int, int), b: (int, int, int)) -> (int, int, int) {
    (a.0 + b.0, a.1 + b.1, a.2 + b.2)
}

pub open spec fn vsub(a: (int, int, int), b: (int, int, int)) -> (int, int, int) {
    (a.0 - b.0, a.1 - b.1, a.2 - b.2)
}

pub open spec fn vneg(a: (int, int, int)) -> (int, int, int) {
    (-a.0, -a.1, -a.2)
}

/// Scaling by a fixed-point factor, componentwise.
pub open spec fn vscale(k: int, a: (int, int, int)) -> (int, int, int) {
    (fmul(k, a.0), fmul(k, a.1), fmul(k, a.2))
}

/// Componentwise product (used for color attenuation).
pub open spec fn vmul(a: (int, int, int), b: (int, int, int)) -> (int, int, int) {
    (fmul(a.0, b.0), fmul(a.1, b.1), fmul(a.2, b.2))
}

/// Componentwise quotient by a fixed-point scalar.
pub open spec fn vdivk(a: (int, int, int), k: int) -> (int, int, int) {
    (fdiv(a.0, k), fdiv(a.1, k), fdiv(a.2, k))
}

/// Dot product.
pub open spec fn vdot(a: (int, int, int), b: (int, int, int)) -> int {
    fmul(a.0, b.0) + fmul(a.1, b.1) + fmul(a.2, b.2)
}

/// Cross product.
pub open spec fn vcross(a: (int, int, int), b: (int, int, int)) -> (int, int, int) {
    (
        fmul(a.1, b.2) - fmul(a.2, b.1),
        fmul(a.2, b.0) - fmul(a.0, b.2),
        fmul(a.0, b.1) - fmul(a.1, b.0),
    )
}

/// The magnitude raw value: square root of the self dot product.
pub open spec fn vmag(a: (int, int, int)) -> int {
    fsqrt(vdot(a, a))
}

/// The normalized vector: each component divided by the magnitude.
pub open spec fn vnormalize(a: (int, int, int)) -> (int, int, int) {
    vdivk(a, vmag(a))
}

/// Linear interpolation `(1 - k) * a + k * b`.
pub open spec fn vinterp(a: (int, int, int), b: (int, int, int), k: int) -> (int, int, int) {
    vadd(vscale(SCALE as int - k, a), vscale(k, b))
}

/// Mirror reflection about a normal: `v - 2 * dot(v, n) * n`.
pub open spec fn vreflect(v: (int, int, int), n: (int, int, int)) -> (int, int, int) {
    vsub(v, vscale(2 * vdot(v, n), n))
}

/// A negative value clamped to zero: the implicit guard the refraction
/// formulas place under each square root.
pub open spec fn clamp0(x: int) -> int {
    if x < 0 {
        0
    } else {
        x
    }
}

/// Cosine of the angle between a unit incoming direction and a unit normal
/// oriented against it.
pub open spec fn refract_cos(v: (int, int, int), n: (int, int, int)) -> int {
    -vdot(v, n)
}

/// Sine of that angle, from the Pythagorean identity.
pub open spec fn refract_sin(v: (int, int, int), n: (int, int, int)) -> int {
    fsqrt(clamp0(SCALE as int - fmul(refract_cos(v, n), refract_cos(v, n))))
}

/// Total internal reflection: the refracted angle would need a sine above
/// one.
pub open spec fn refract_tir(v: (int, int, int), n: (int, int, int), ratio: int) -> bool {
    fmul(ratio, refract_sin(v, n)) > SCALE as int
}

/// The refracted direction, by the perpendicular/parallel decomposition.
pub open spec fn refract_dir(v: (int, int, int), n: (int, int, int), ratio: int) -> (
    int,
    int,
    int,
) {
    let cos = refract_cos(v, n);
    let perp = vscale(ratio, vadd(v, vscale(cos, n)));
    let par = vscale(-fsqrt(clamp0(SCALE as int - vdot(perp, perp))), n);
    vadd(perp, par)
}

/// Every component has magnitude at most `m`.
pub open spec fn vbounded(a: (int, int, int), m: int) -> bool {
    sabs(a.0) <= m && sabs(a.1) <= m && sabs(a.2) <= m
}

/// Every component is near zero, under the crate's epsilon policy.
pub open spec fn vnear_zero(a: (int, int, int)) -> bool {
    vbounded(a, NEAR_EPS - 1)
}

/// Machine-representable componentwise sums.
pub open spec fn vadd_ok(a: (int, int, int), b: (int, int, int)) -> bool {
    in_range(a.0 + b.0) && in_range(a.1 + b.1) && in_range(a.2 + b.2)
}

/// Machine-representable componentwise differences.
pub open spec fn vsub_ok(a: (int, int, int), b: (int, int, int)) -> bool {
    in_range(a.0 - b.0) && in_range(a.1 - b.1) && in_range(a.2 - b.2)
}

/// One fixed-point product is free of overflow.
pub open spec fn mul_ok(a: int, b: int) -> bool {
    a > i128::MIN && b > i128::MIN && sabs(a) * sabs(b) <= i128::MAX
}

/// All componentwise products of two vectors are free of overflow.
pub open spec fn vmul_ok(a: (int, int, int), b: (int, int, int)) -> bool {
    mul_ok(a.0, b.0) && mul_ok(a.1, b.1) && mul_ok(a.2, b.2)
}

/// All mixed componentwise products of a cross product are free of overflow.
pub open spec fn cross_ok(a: (int, int, int), b: (int, int, int)) -> bool {
    mul_ok(a.0, b.1) && mul_ok(a.0, b.2) && mul_ok(a.1, b.0) && mul_ok(a.1, b.2) && mul_ok(
        a.2,
        b.0,
    ) && mul_ok(a.2, b.1)
}

/// All products of a scalar with a vector's components are free of overflow.
pub open spec fn scale_ok(k: int, a: (int, int, int)) -> bool {
    mul_ok(k, a.0) && mul_ok(k, a.1) && mul_ok(k, a.2)
}

/// Bounded arguments make every componentwise product safe.
pub proof fn lemma_mul_ok_from_bounds(a: int, b: int, m1: int, m2: int)
    requires
        sabs(a) <= m1,
        sabs(b) <= m2,
        0 <= m1 <= i128::MAX,
        0 <= m2 <= i128::MAX,
        m1 * m2 <= i128::MAX,
    ensures
        mul_ok(a, b),
{
    assert(sabs(a) * sabs(b) <= m1 * m2) by (nonlinear_arith)
        requires
            0 <= sabs(a) <= m1,
            0 <= sabs(b) <= m2,
    ;
}

/// Bounded vectors make the dot product safe and bound its value.
pub proof fn lemma_vdot_bound(a: (int, int, int), b: (int, int, int), m1: int, m2: int)
    requires
        vbounded(a, m1),
        vbounded(b, m2),
        0 <= m1 <= i128::MAX,
        0 <= m2 <= i128::MAX,
        m1 * m2 <= i128::MAX,
    ensures
        vmul_ok(a, b),
        sabs(vdot(a, b)) <= 3 * (m1 * m2 / (SCALE as int)),
{
    lemma_mul_ok_from_bounds(a.0, b.0, m1, m2);
    lemma_mul_ok_from_bounds(a.1, b.1, m1, m2);
    lemma_mul_ok_from_bounds(a.2, b.2, m1, m2);
    lemma_fmul_bound(a.0, b.0, m1, m2);
    lemma_fmul_bound(a.1, b.1, m1, m2);
    lemma_fmul_bound(a.2, b.2, m1, m2);
}

/// Bounded arguments bound every component of a scaled vector.
pub proof fn lemma_vscale_bound(k: int, a: (int, int, int), mk: int, ma: int)
    requires
        sabs(k) <= mk,
        vbounded(a, ma),
        0 <= mk <= i128::MAX,
        0 <= ma <= i128::MAX,
        mk * ma <= i128::MAX,
    ensures
        scale_ok(k, a),
        vbounded(vscale(k, a), mk * ma / (SCALE as int)),
        mk * ma / (SCALE as int) >= 0,
{
    lemma_mul_ok_from_bounds(k, a.0, mk, ma);
    lemma_mul_ok_from_bounds(k, a.1, mk, ma);
    lemma_mul_ok_from_bounds(k, a.2, mk, ma);
    lemma_fmul_bound(k, a.0, mk, ma);
    lemma_fmul_bound(k, a.1, mk, ma);
    lemma_fmul_bound(k, a.2, mk, ma);
    lemma_div_pos_is_pos(mk * ma, SCALE as int);
}

/// Componentwise division by a positive scalar is free of overflow and
/// bounded, given a bound on the components and a lower bound on the
/// divisor.
pub proof fn lemma_vdivk_bound(a: (int, int, int), k: int, m: int, kmin: int)
    requires
        vbounded(a, m),
        0 < kmin <= k,
        0 <= m,
        m * (SCALE as int) <= i128::MAX,
    ensures
        a.0 > i128::MIN && a.1 > i128::MIN && a.2 > i128::MIN,
        sabs(a.0) * (SCALE as int) <= i128::MAX,
        sabs(a.1) * (SCALE as int) <= i128::MAX,
        sabs(a.2) * (SCALE as int) <= i128::MAX,
        vbounded(vdivk(a, k), (m * (SCALE as int)) / kmin),
{
    crate::fixed::lemma_fdiv_bound(a.0, k, m, kmin);
    crate::fixed::lemma_fdiv_bound(a.1, k, m, kmin);
    crate::fixed::lemma_fdiv_bound(a.2, k, m, kmin);
}

/// A square is nonnegative, so a vector's dot product with itself is too,
/// and each squared component is below it.
pub proof fn lemma_vdot_self_nonneg(a: (int, int, int))
    ensures
        vdot(a, a) >= 0,
        fmul(a.0, a.0) <= vdot(a, a),
        fmul(a.1, a.1) <= vdot(a, a),
        fmul(a.2, a.2) <= vdot(a, a),
        fmul(a.0, a.0) >= 0,
        fmul(a.1, a.1) >= 0,
        fmul(a.2, a.2) >= 0,
{
    lemma_abs_mul(a.0, a.0);
    lemma_abs_mul(a.1, a.1);
    lemma_abs_mul(a.2, a.2);
    lemma_quot_abs(a.0 * a.0, SCALE as int);
    lemma_quot_abs(a.1 * a.1, SCALE as int);
    lemma_quot_abs(a.2 * a.2, SCALE as int);
    lemma_div_pos_is_pos(a.0 * a.0, SCALE as int);
    lemma_div_pos_is_pos(a.1 * a.1, SCALE as int);
    lemma_div_pos_is_pos(a.2 * a.2, SCALE as int);
}

/// A vector whose self dot product is at least one raw step normalizes to a
/// vector bounded by two units, and its magnitude is at least `2^16` raw.
pub proof fn lemma_normalize_bound(a: (int, int, int))
    requires
        vbounded(a, MAG_BOUND as int),
        vdot(a, a) >= 1,
    ensures
        vmag(a) >= 65536,
        vbounded(vnormalize(a), 2 * (SCALE as int)),
{
    let s = SCALE as int;
    let dot = vdot(a, a);
    lemma_vdot_bound(a, a, MAG_BOUND as int, MAG_BOUND as int);
    let m = vmag(a);
    lemma_sqrt_floor_char(dot * s);
    assert(m >= 65536) by (nonlinear_arith)
        requires
            dot >= 1,
            s == SCALE as int,
            (m + 1) * (m + 1) > dot * s,
            m >= 0,
    ;
    lemma_vdot_self_nonneg(a);
    lemma_normalize_component_bound(a.0, dot, m);
    lemma_normalize_component_bound(a.1, dot, m);
    lemma_normalize_component_bound(a.2, dot, m);
}

/// One component of a normalization stays within two units.
proof fn lemma_normalize_component_bound(c: int, dot: int, m: int)
    requires
        fmul(c, c) <= dot,
        fmul(c, c) >= 0,
        dot >= 1,
        m >= 65536,
        m * m <= dot * (SCALE as int),
        dot * (SCALE as int) < (m + 1) * (m + 1),
    ensures
        sabs(fdiv(c, m)) <= 2 * (SCALE as int),
{
    let s = SCALE as int;
    lemma_abs_mul(c, c);
    lemma_quot_abs(c * c, s);
    // c * c <= dot * s + s - 1
    lemma_fundamental_div_mod(c * c, s);
    assert(c * c <= dot * s + s - 1) by (nonlinear_arith)
        requires
            c * c >= 0,
            s > 0,
            (c * c) / s <= dot,
            c * c == s * ((c * c) / s) + (c * c) % s,
            0 <= (c * c) % s < s,
    ;
    // |c| <= m + 65536
    assert(sabs(c) <= m + 65536) by (nonlinear_arith)
        requires
            sabs(c) * sabs(c) == c * c,
            c * c <= dot * s + s - 1,
            dot * s < (m + 1) * (m + 1),
            s == SCALE as int,
            m >= 65536,
            sabs(c) >= 0,
    ;
    // |fdiv(c, m)| == (|c| * s) / m <= ((m + 65536) * s) / m <= 2 * s
    lemma_abs_mul(c, s);
    lemma_quot_abs(c * s, m);
    assert(sabs(c) * s <= (2 * s) * m) by (nonlinear_arith)
        requires
            sabs(c) <= m + 65536,
            m >= 65536,
            s == SCALE as int,
    ;
    assert(sabs(c * s) == sabs(c) * s);
    assert(sabs(fdiv(c, m)) == (sabs(c) * s) / m);
    lemma_div_is_ordered(sabs(c) * s, (2 * s) * m, m);
    lemma_div_multiples_vanish(2 * s, m);
    assert(m * (2 * s) == (2 * s) * m) by (nonlinear_arith);
    assert(sabs(fdiv(c, m)) <= 2 * s);
}

/// Vector addition is commutative.
pub proof fn law_add_commutative(a: Vec3, b: Vec3)
    ensures
        vadd(a@, b@) == vadd(b@, a@),
{
}

/// Vector addition is associative.
pub proof fn law_add_associative(a: Vec3, b: Vec3, c: Vec3)
    ensures
        vadd(vadd(a@, b@), c@) == vadd(a@, vadd(b@, c@)),
{
}

/// The zero vector is the additive identity.
pub proof fn law_add_zero(a: Vec3)
    ensures
        vadd(a@, vzero()) == a@,
{
}

/// Negation agrees with subtraction from zero.
pub proof fn law_neg_is_zero_sub(a: Vec3)
    ensures
        vneg(a@) == vsub(vzero(), a@),
{
}

/// Subtraction agrees with adding the negation.
pub proof fn law_sub_is_neg_add(a: Vec3, b: Vec3)
    ensures
        vsub(a@, b@) == vadd(vneg(b@), a@),
{
}

/// Scaling twice agrees with scaling by the product of the factors, up to a
/// small rounding slack in each component.
pub proof fn law_scale_associative(k1: Fixed, k2: Fixed, a: Vec3)
    ensures
        vbounded(
            vsub(vscale(k1@, vscale(k2@, a@)), vscale(fmul(k1@, k2@), a@)),
            (sabs(k1@) + sabs(a@.0)) / (SCALE as int) + (sabs(k1@) + sabs(a@.1)) / (SCALE as int)
                + (sabs(k1@) + sabs(a@.2)) / (SCALE as int) + 3,
        ),
{
    crate::fixed::lemma_fmul_associative_bound(k1@, k2@, a@.0);
    crate::fixed::lemma_fmul_associative_bound(k1@, k2@, a@.1);
    crate::fixed::lemma_fmul_associative_bound(k1@, k2@, a@.2);
    lemma_div_pos_is_pos(sabs(k1@) + sabs(a@.0), SCALE as int);
    lemma_div_pos_is_pos(sabs(k1@) + sabs(a@.1), SCALE as int);
    lemma_div_pos_is_pos(sabs(k1@) + sabs(a@.2), SCALE as int);
}

/// Scaling by one is the identity.
pub proof fn law_scale_identity(a: Vec3)
    ensures
        vscale(SCALE as int, a@) == a@,
{
    crate::fixed::lemma_fmul_one(a@.0);
    crate::fixed::lemma_fmul_one(a@.1);
    crate::fixed::lemma_fmul_one(a@.2);
}

/// Scaling distributes over vector addition up to two raw steps per
/// component.
pub proof fn law_scale_distributive(k: Fixed, a: Vec3, b: Vec3)
    ensures
        vbounded(vsub(vscale(k@, vadd(a@, b@)), vadd(vscale(k@, a@), vscale(k@, b@))), 2),
{
    crate::fixed::lemma_fmul_distributive_bound(k@, a@.0, b@.0);
    crate::fixed::lemma_fmul_distributive_bound(k@, a@.1, b@.1);
    crate::fixed::lemma_fmul_distributive_bound(k@, a@.2, b@.2);
}

/// Two halves of a vector reassemble it up to one raw step per component.
pub proof fn law_halves(a: Vec3)
    ensures
        vbounded(vsub(vadd(vdivk(a@, 2 * (SCALE as int)), vdivk(a@, 2 * (SCALE as int))), a@), 1),
{
    crate::fixed::lemma_halves(a@.0);
    crate::fixed::lemma_halves(a@.1);
    crate::fixed::lemma_halves(a@.2);
}

/// Negating one argument negates a dot product.
pub proof fn lemma_vdot_neg(a: (int, int, int), b: (int, int, int))
    ensures
        vdot(vneg(a), b) == -vdot(a, b),
{
    crate::fixed::lemma_fmul_neg(a.0, b.0);
    crate::fixed::lemma_fmul_neg(a.1, b.1);
    crate::fixed::lemma_fmul_neg(a.2, b.2);
}

/// Negation leaves a vector's self dot product unchanged.
pub proof fn lemma_vdot_neg_self(a: (int, int, int))
    ensures
        vdot(vneg(a), vneg(a)) == vdot(a, a),
{
    crate::fixed::lemma_fmul_neg_neg(a.0);
    crate::fixed::lemma_fmul_neg_neg(a.1);
    crate::fixed::lemma_fmul_neg_neg(a.2);
}

/// Relies on rand::thread_rng and rand::Rng::gen_range: a uniform draw from
/// the given half-open range, which the precondition keeps non-empty.
#[verifier::external_body]
pub(crate) fn rand_raw(lo: i128, hi: i128) -> (r: i128)
    requires
        lo < hi,
    ensures
        lo <= r < hi,
{
    rand::Rng::gen_range(&mut rand::thread_rng(), lo..hi)
}

/// Retry budget for rejection sampling; astronomically unlikely to run out,
/// it bounds the loops that Verus asks to see terminate.
const RETRY_CAP: u32 = 1073741824;

impl Vec3 {
    /// A vector with each component drawn uniformly from `[min, max)`.
    pub fn random(min: Fixed, max: Fixed) -> (r: Vec3)
        requires
            min@ < max@,
        ensures
            min@ <= r@.0 < max@,
            min@ <= r@.1 < max@,
            min@ <= r@.2 < max@,
    {
        Vec3(
            Fixed::from_raw(rand_raw(min.raw(), max.raw())),
            Fixed::from_raw(rand_raw(min.raw(), max.raw())),
            Fixed::from_raw(rand_raw(min.raw(), max.raw())),
        )
    }

    /// A random point in the closed unit ball, by rejection sampling.
    pub fn random_in_unit_sphere() -> (r: Vec3)
        ensures
            vbounded(r@, SCALE as int),
            vdot(r@, r@) <= SCALE as int,
    {
        let lo = Fixed::from_int(-1);
        let hi = Fixed::one();
        let mut i: u32 = 0;
        while i < RETRY_CAP
            invariant
                lo@ == -(SCALE as int),
                hi@ == SCALE as int,
            decreases RETRY_CAP - i,
        {
            let v = Vec3::random(lo, hi);
            proof {
                lemma_vdot_bound(v@, v@, SCALE as int, SCALE as int);
            }
            let d = v.dot(v);
            if d.le(hi) {
                return v;
            }
            i = i + 1;
        }
        let half = Fixed::from_raw(2147483648);
        let r = Vec3(half, Fixed::zero(), Fixed::zero());
        proof {
            lemma_vdot_bound(r@, r@, 2147483648, 2147483648);
        }
        r
    }

    /// A random vector of unit length: a nonzero ball sample, normalized.
    pub fn random_unit_vector() -> (r: Vec3)
        ensures
            vbounded(r@, 2 * (SCALE as int)),
            exists|v: (int, int, int)|
                vbounded(v, SCALE as int) && vdot(v, v) >= 1 && r@ == vnormalize(v),
    {
        let mut i: u32 = 0;
        while i < RETRY_CAP
            decreases RETRY_CAP - i,
        {
            let v = Vec3::random_in_unit_sphere();
            proof {
                lemma_vdot_bound(v@, v@, SCALE as int, SCALE as int);
                lemma_vdot_self_nonneg(v@);
            }
            let d = v.dot(v);
            if d.raw() != 0 {
                let r = v.normalize();
                proof {
                    assert(vbounded(v@, SCALE as int) && vdot(v@, v@) >= 1 && r@ == vnormalize(
                        v@,
                    ));
                }
                return r;
            }
            i = i + 1;
        }
        let r = Vec3(Fixed::one(), Fixed::zero(), Fixed::zero());
        proof {
            let w = (SCALE as int, 0int, 0int);
            crate::fixed::lemma_quot_multiple(SCALE as int, SCALE as int);
            crate::fixed::lemma_quot_multiple(0, SCALE as int);
            assert(vdot(w, w) == SCALE as int);
            assert((SCALE as int) * (SCALE as int) == 18446744073709551616);
            crate::fixed::lemma_sqrt_floor_unique(18446744073709551616, 4294967296);
            assert(vmag(w) == SCALE as int);
            assert(vbounded(w, SCALE as int) && vdot(w, w) >= 1 && r@ == vnormalize(w));
        }
        r
    }

    /// A random ball sample flipped, if needed, into the hemisphere of the
    /// given normal (never against it).
    pub fn random_in_hemisphere(normal: Vec3) -> (r: Vec3)
        requires
            vbounded(normal@, MAG_BOUND as int),
        ensures
            vbounded(r@, SCALE as int),
            vdot(r@, normal@) >= 0,
            vdot(r@, r@) <= SCALE as int,
            exists|v: (int, int, int)|
                vbounded(v, SCALE as int) && vdot(v, v) <= SCALE as int && r@ == (if vdot(
                    v,
                    normal@,
                ) > 0 {
                    v
                } else {
                    vneg(v)
                }),
    {
        let v = Vec3::random_in_unit_sphere();
        proof {
            lemma_vdot_bound(v@, normal@, SCALE as int, MAG_BOUND as int);
        }
        let d = v.dot(normal);
        if Fixed::zero().lt(d) {
            proof {
                assert(vbounded(v@, SCALE as int) && vdot(v@, v@) <= SCALE as int && v@ == (
                if vdot(v@, normal@) > 0 {
                    v@
                } else {
                    vneg(v@)
                }));
            }
            v
        } else {
            proof {
                lemma_vdot_neg(v@, normal@);
                lemma_vdot_neg_self(v@);
            }
            let r = v.neg();
            proof {
                assert(vbounded(v@, SCALE as int) && vdot(v@, v@) <= SCALE as int && r@ == (
                if vdot(v@, normal@) > 0 {
                    v@
                } else {
                    vneg(v@)
                }));
            }
            r
        }
    }

    /// A random point in the closed unit disk of the xy plane, by rejection
    /// sampling; used for lens sampling.
    pub fn random_in_unit_disk() -> (r: Vec3)
        ensures
            vbounded(r@, SCALE as int),
            vdot(r@, r@) <= SCALE as int,
            r@.2 == 0,
    {
        let lo = Fixed::from_int(-1);
        let hi = Fixed::one();
        let mut i: u32 = 0;
        while i < RETRY_CAP
            invariant
                lo@ == -(SCALE as int),
                hi@ == SCALE as int,
            decreases RETRY_CAP - i,
        {
            let v = Vec3(
                Fixed::from_raw(rand_raw(lo.raw(), hi.raw())),
                Fixed::from_raw(rand_raw(lo.raw(), hi.raw())),
                Fixed::zero(),
            );
            proof {
                lemma_vdot_bound(v@, v@, SCALE as int, SCALE as int);
            }
            let d = v.dot(v);
            if d.le(hi) {
                return v;
            }
            i = i + 1;
        }
        let half = Fixed::from_raw(2147483648);
        let r = Vec3(half, Fixed::zero(), Fixed::zero());
        proof {
            lemma_vdot_bound(r@, r@, 2147483648, 2147483648);
        }
        r
    }

    pub fn neg(self) -> (r: Vec3)
        requires
            vsub_ok(vzero(), self@),
        ensures
            r@ == vneg(self@),
    {
        Vec3(self.0.neg(), self.1.neg(), self.2.neg())
    }

    pub fn add(self, rhs: Vec3) -> (r: Vec3)
        requires
            vadd_ok(self@, rhs@),
        ensures
            r@ == vadd(self@, rhs@),
    {
        Vec3(self.0.add(rhs.0), self.1.add(rhs.1), self.2.add(rhs.2))
    }

    pub fn add_assign(&mut self, rhs: Vec3)
        requires
            vadd_ok(old(self)@, rhs@),
        ensures
            final(self)@ == vadd(old(self)@, rhs@),
    {
        *self = self.add(rhs);
    }

    pub fn sub(self, rhs: Vec3) -> (r: Vec3)
        requires
            vsub_ok(self@, rhs@),
        ensures
            r@ == vsub(self@, rhs@),
    {
        Vec3(self.0.sub(rhs.0), self.1.sub(rhs.1), self.2.sub(rhs.2))
    }

    /// Scaling by a fixed-point scalar.
    pub fn scale(self, k: Fixed) -> (r: Vec3)
        requires
            scale_ok(k@, self@),
        ensures
            r@ == vscale(k@, self@),
    {
        Vec3(k.mul(self.0), k.mul(self.1), k.mul(self.2))
    }

    pub fn mul_assign(&mut self, k: Fixed)
        requires
            scale_ok(k@, old(self)@),
        ensures
            final(self)@ == vscale(k@, old(self)@),
    {
        *self = self.scale(k);
    }

    /// Componentwise product, the color attenuation operation.
    pub fn mul(self, other: Vec3) -> (r: Vec3)
        requires
            vmul_ok(self@, other@),
        ensures
            r@ == vmul(self@, other@),
    {
        Vec3(self.0.mul(other.0), self.1.mul(other.1), self.2.mul(other.2))
    }

    /// Componentwise division by a fixed-point scalar.
    pub fn div(self, k: Fixed) -> (r: Vec3)
        requires
            k@ != 0,
            k@ > i128::MIN,
            sabs(self@.0) * (SCALE as int) <= i128::MAX,
            sabs(self@.1) * (SCALE as int) <= i128::MAX,
            sabs(self@.2) * (SCALE as int) <= i128::MAX,
            self@.0 > i128::MIN,
            self@.1 > i128::MIN,
            self@.2 > i128::MIN,
        ensures
            r@ == vdivk(self@, k@),
    {
        Vec3(self.0.div(k), self.1.div(k), self.2.div(k))
    }

    pub fn div_assign(&mut self, k: Fixed)
        requires
            k@ != 0,
            k@ > i128::MIN,
            sabs(old(self)@.0) * (SCALE as int) <= i128::MAX,
            sabs(old(self)@.1) * (SCALE as int) <= i128::MAX,
            sabs(old(self)@.2) * (SCALE as int) <= i128::MAX,
            old(self)@.0 > i128::MIN,
            old(self)@.1 > i128::MIN,
            old(self)@.2 > i128::MIN,
        ensures
            final(self)@ == vdivk(old(self)@, k@),
    {
        *self = self.div(k);
    }

    /// Dot product.
    pub fn dot(self, other: Vec3) -> (r: Fixed)
        requires
            vmul_ok(self@, other@),
        ensures
            r@ == vdot(self@, other@),
    {
        proof {
            lemma_fmul_bound(self@.0, other@.0, sabs(self@.0), sabs(other@.0));
            lemma_fmul_bound(self@.1, other@.1, sabs(self@.1), sabs(other@.1));
            lemma_fmul_bound(self@.2, other@.2, sabs(self@.2), sabs(other@.2));
            lemma_div_is_ordered(
                sabs(self@.0) * sabs(other@.0),
                i128::MAX as int,
                SCALE as int,
            );
            lemma_div_is_ordered(
                sabs(self@.1) * sabs(other@.1),
                i128::MAX as int,
                SCALE as int,
            );
            lemma_div_is_ordered(
                sabs(self@.2) * sabs(other@.2),
                i128::MAX as int,
                SCALE as int,
            );
        }
        self.0.mul(other.0).add(self.1.mul(other.1)).add(self.2.mul(other.2))
    }

    /// Cross product.
    pub fn cross(self, other: Vec3) -> (r: Vec3)
        requires
            cross_ok(self@, other@),
        ensures
            r@ == vcross(self@, other@),
    {
        proof {
            lemma_fmul_bound(self@.0, other@.1, sabs(self@.0), sabs(other@.1));
            lemma_fmul_bound(self@.0, other@.2, sabs(self@.0), sabs(other@.2));
            lemma_fmul_bound(self@.1, other@.0, sabs(self@.1), sabs(other@.0));
            lemma_fmul_bound(self@.1, other@.2, sabs(self@.1), sabs(other@.2));
            lemma_fmul_bound(self@.2, other@.0, sabs(self@.2), sabs(other@.0));
            lemma_fmul_bound(self@.2, other@.1, sabs(self@.2), sabs(other@.1));
            lemma_div_is_ordered(sabs(self@.0) * sabs(other@.1), i128::MAX as int, SCALE as int);
            lemma_div_is_ordered(sabs(self@.0) * sabs(other@.2), i128::MAX as int, SCALE as int);
            lemma_div_is_ordered(sabs(self@.1) * sabs(other@.0), i128::MAX as int, SCALE as int);
            lemma_div_is_ordered(sabs(self@.1) * sabs(other@.2), i128::MAX as int, SCALE as int);
            lemma_div_is_ordered(sabs(self@.2) * sabs(other@.0), i128::MAX as int, SCALE as int);
            lemma_div_is_ordered(sabs(self@.2) * sabs(other@.1), i128::MAX as int, SCALE as int);
        }
        Vec3(
            self.1.mul(other.2).sub(self.2.mul(other.1)),
            self.2.mul(other.0).sub(self.0.mul(other.2)),
            self.0.mul(other.1).sub(self.1.mul(other.0)),
        )
    }

    /// True when every component is within the crate's near-zero epsilon.
    pub fn near_zero(self) -> (r: bool)
        ensures
            r == vnear_zero(self@),
    {
        let x = self.0.raw();
        let y = self.1.raw();
        let z = self.2.raw();
        -NEAR_EPS < x && x < NEAR_EPS && -NEAR_EPS < y && y < NEAR_EPS && -NEAR_EPS < z && z
            < NEAR_EPS
    }

    /// True when the two vectors differ by less than the epsilon in every
    /// component.
    pub fn near(self, other: Vec3) -> (r: bool)
        requires
            vsub_ok(self@, other@),
        ensures
            r == vnear_zero(vsub(self@, other@)),
    {
        self.sub(other).near_zero()
    }

    /// Euclidean length, rounded down to the fixed-point grid.
    pub fn magnitude(self) -> (r: Fixed)
        requires
            vbounded(self@, MAG_BOUND as int),
        ensures
            r@ == vmag(self@),
            r@ >= 0,
    {
        proof {
            lemma_vdot_bound(self@, self@, MAG_BOUND as int, MAG_BOUND as int);
            lemma_vdot_self_nonneg(self@);
        }
        self.dot(self).sqrt()
    }

    /// The unit vector in this direction, on the fixed-point grid; defined
    /// for vectors whose squared magnitude is nonzero.
    pub fn normalize(self) -> (r: Vec3)
        requires
            vbounded(self@, MAG_BOUND as int),
            vdot(self@, self@) >= 1,
        ensures
            r@ == vnormalize(self@),
            vbounded(r@, 2 * (SCALE as int)),
            vmag(self@) >= 65536,
    {
        proof {
            lemma_normalize_bound(self@);
        }
        let m = self.magnitude();
        self.div(m)
    }

    /// Linear interpolation toward `other`, by weight `k`.
    pub fn interpolate(self, other: Vec3, k: Fixed) -> (r: Vec3)
        requires
            in_range(SCALE as int - k@),
            scale_ok(SCALE as int - k@, self@),
            scale_ok(k@, other@),
        ensures
            r@ == vinterp(self@, other@, k@),
    {
        let ghost s = SCALE as int;
        proof {
            lemma_fmul_bound(s - k@, self@.0, sabs(s - k@), sabs(self@.0));
            lemma_fmul_bound(s - k@, self@.1, sabs(s - k@), sabs(self@.1));
            lemma_fmul_bound(s - k@, self@.2, sabs(s - k@), sabs(self@.2));
            lemma_fmul_bound(k@, other@.0, sabs(k@), sabs(other@.0));
            lemma_fmul_bound(k@, other@.1, sabs(k@), sabs(other@.1));
            lemma_fmul_bound(k@, other@.2, sabs(k@), sabs(other@.2));
            lemma_div_is_ordered(sabs(s - k@) * sabs(self@.0), i128::MAX as int, s);
            lemma_div_is_ordered(sabs(s - k@) * sabs(self@.1), i128::MAX as int, s);
            lemma_div_is_ordered(sabs(s - k@) * sabs(self@.2), i128::MAX as int, s);
            lemma_div_is_ordered(sabs(k@) * sabs(other@.0), i128::MAX as int, s);
            lemma_div_is_ordered(sabs(k@) * sabs(other@.1), i128::MAX as int, s);
            lemma_div_is_ordered(sabs(k@) * sabs(other@.2), i128::MAX as int, s);
        }
        let w = Fixed::one().sub(k);
        self.scale(w).add(other.scale(k))
    }

    /// Mirror reflection about a normal.
    pub fn reflect(self, normal: Vec3) -> (r: Vec3)
        requires
            vbounded(self@, MAG_BOUND as int),
            vbounded(normal@, MAG_BOUND as int),
        ensures
            r@ == vreflect(self@, normal@),
    {
        let ghost m = MAG_BOUND as int;
        proof {
            lemma_vdot_bound(self@, normal@, m, m);
            lemma_vscale_bound(2 * vdot(self@, normal@), normal@, 2 * (3 * (m * m / (SCALE as int))), m);
        }
        let d = self.dot(normal);
        let twice = d.add(d);
        self.sub(normal.scale(twice))
    }

    /// Refraction of a unit direction about a unit normal with the given
    /// index ratio, deciding the Fresnel rejection with the given uniform
    /// draw: refuses under total internal reflection or when the draw falls
    /// below Schlick's reflectance, and otherwise returns the refracted
    /// direction.
    pub fn refract_with(self, normal: Vec3, ratio: Fixed, draw: Fixed) -> (r: Option<Vec3>)
        requires
            vbounded(self@, 2 * (SCALE as int)),
            vbounded(normal@, 2 * (SCALE as int)),
            0 < ratio@ <= 4 * (SCALE as int),
        ensures
            r is Some <==> !refract_tir(self@, normal@, ratio@) && crate::material::reflectance_spec(
                refract_cos(self@, normal@),
                ratio@,
            ) <= draw@,
            r matches Some(d) ==> d@ == refract_dir(self@, normal@, ratio@) && vbounded(
                d@,
                512 * (SCALE as int),
            ),
    {
        let one = Fixed::one();
        proof {
            lemma_vdot_bound(self@, normal@, 8589934592, 8589934592);
        }
        let cos = self.dot(normal).neg();
        assert(sabs(cos@) <= 51539607552);
        proof {
            lemma_mul_ok_from_bounds(cos@, cos@, 51539607552, 51539607552);
            lemma_fmul_bound(cos@, cos@, 51539607552, 51539607552);
            crate::fixed::lemma_fmul_self_nonneg(cos@);
        }
        let c2 = cos.mul(cos);
        let sin2 = if one.lt(c2) {
            Fixed::zero()
        } else {
            one.sub(c2)
        };
        assert(sin2@ == clamp0(SCALE as int - fmul(cos@, cos@)));
        let sin = sin2.sqrt();
        proof {
            lemma_sqrt_floor_char(sin2@ * (SCALE as int));
            assert(sin@ <= 4294967296) by (nonlinear_arith)
                requires
                    sin@ >= 0,
                    sin@ * sin@ <= sin2@ * 4294967296,
                    0 <= sin2@ <= 4294967296,
            ;
            lemma_mul_ok_from_bounds(ratio@, sin@, 17179869184, 4294967296);
        }
        let rs = ratio.mul(sin);
        if one.lt(rs) {
            return None;
        }
        let refl = crate::material::Dielectric::reflectance(cos, ratio);
        if draw.lt(refl) {
            return None;
        }
        proof {
            lemma_mul_ok_from_bounds(cos@, normal@.0, 51539607552, 8589934592);
            lemma_mul_ok_from_bounds(cos@, normal@.1, 51539607552, 8589934592);
            lemma_mul_ok_from_bounds(cos@, normal@.2, 51539607552, 8589934592);
            lemma_vscale_bound(cos@, normal@, 51539607552, 8589934592);
        }
        let inner = self.add(normal.scale(cos));
        assert(vbounded(inner@, 111669149696));
        proof {
            lemma_mul_ok_from_bounds(ratio@, inner@.0, 17179869184, 111669149696);
            lemma_mul_ok_from_bounds(ratio@, inner@.1, 17179869184, 111669149696);
            lemma_mul_ok_from_bounds(ratio@, inner@.2, 17179869184, 111669149696);
            lemma_vscale_bound(ratio@, inner@, 17179869184, 111669149696);
        }
        let perp = inner.scale(ratio);
        assert(vbounded(perp@, 446676598784));
        proof {
            lemma_vdot_bound(perp@, perp@, 446676598784, 446676598784);
            lemma_vdot_self_nonneg(perp@);
        }
        let pp = perp.dot(perp);
        let inner2 = if one.lt(pp) {
            Fixed::zero()
        } else {
            one.sub(pp)
        };
        assert(inner2@ == clamp0(SCALE as int - vdot(perp@, perp@)));
        let root = inner2.sqrt();
        proof {
            lemma_sqrt_floor_char(inner2@ * (SCALE as int));
            assert(root@ <= 4294967296) by (nonlinear_arith)
                requires
                    root@ >= 0,
                    root@ * root@ <= inner2@ * 4294967296,
                    0 <= inner2@ <= 4294967296,
            ;
            lemma_mul_ok_from_bounds(-root@, normal@.0, 4294967296, 8589934592);
            lemma_mul_ok_from_bounds(-root@, normal@.1, 4294967296, 8589934592);
            lemma_mul_ok_from_bounds(-root@, normal@.2, 4294967296, 8589934592);
            lemma_vscale_bound(-root@, normal@, 4294967296, 8589934592);
        }
        let par = normal.scale(root.neg());
        Some(perp.add(par))
    }

    /// Refraction with the Fresnel draw taken from the process-wide random
    /// source: where it returns a direction, that direction is the refraction
    /// of this unit direction. It always refuses under total internal
    /// reflection and at full reflectance, and always refracts where the
    /// reflectance is nothing, whatever the draw; between those the draw
    /// decides.
    pub fn refract(self, normal: Vec3, ratio: Fixed) -> (r: Option<Vec3>)
        requires
            vbounded(self@, 2 * (SCALE as int)),
            vbounded(normal@, 2 * (SCALE as int)),
            0 < ratio@ <= 4 * (SCALE as int),
        ensures
            refract_tir(self@, normal@, ratio@) ==> r is None,
            !refract_tir(self@, normal@, ratio@) && crate::material::reflectance_spec(
                refract_cos(self@, normal@),
                ratio@,
            ) <= 0 ==> r is Some,
            crate::material::reflectance_spec(refract_cos(self@, normal@), ratio@) >= SCALE as int
                ==> r is None,
            r matches Some(d) ==> !refract_tir(self@, normal@, ratio@) && d@ == refract_dir(
                self@,
                normal@,
                ratio@,
            ) && vbounded(d@, 512 * (SCALE as int)),
    {
        let draw = Fixed::from_raw(rand_raw(0, SCALE));
        self.refract_with(normal, ratio, draw)
    }
}

} // verus!
