//! Spheres and the quadratic ray-sphere intersection.

use crate::fixed::{
    fdiv, fmul, fsqrt, lemma_abs_mul, lemma_fmul_bound, lemma_quot_abs, lemma_sqrt_floor_char,
    sabs, Fixed, SCALE,
};
use crate::hittable::{ray_bounded, HitRecord, COORD_MAX, RADIUS_MIN, T_MAX};
use crate::material::{material_wf, Material};
use crate::ray::{ray_at, Ray};
use crate::vec3::{
    lemma_mul_ok_from_bounds, lemma_vdot_bound, vbounded, vdivk, vdot, vneg, vsub, Point3, Vec3,
};
use vstd::arithmetic::div_mod::{
    lemma_div_is_ordered, lemma_div_is_ordered_by_denominator, lemma_div_pos_is_pos,
};
use vstd::prelude::*;

verus! {

/// One spherical primitive, with its surface material.
#[derive(Clone, Copy, Debug)]
pub struct Sphere {
    pub center: Point3,
    pub radius: Fixed,
    pub material: Material,
}

/// The sphere is within world bounds: center coordinates and radius bounded,
/// radius positive (and large enough to divide by), material parameters in
/// range.
pub open spec fn sphere_wf(s: Sphere) -> bool {
    &&& vbounded(s.center@, COORD_MAX as int)
    &&& RADIUS_MIN as int <= s.radius@ <= COORD_MAX as int
    &&& material_wf(s.material)
}

/// Vector from the sphere's center to the ray's origin.
pub open spec fn sphere_oc(s: Sphere, r: Ray) -> (int, int, int) {
    vsub(r.origin@, s.center@)
}

/// Leading quadratic coefficient: the direction's squared magnitude.
pub open spec fn sphere_qa(r: Ray) -> int {
    vdot(r.direction@, r.direction@)
}

/// Half the linear quadratic coefficient.
pub open spec fn sphere_half_b(s: Sphere, r: Ray) -> int {
    vdot(sphere_oc(s, r), r.direction@)
}

/// Constant quadratic coefficient.
pub open spec fn sphere_qc(s: Sphere, r: Ray) -> int {
    vdot(sphere_oc(s, r), sphere_oc(s, r)) - fmul(s.radius@, s.radius@)
}

/// Quadratic discriminant (using half the linear coefficient).
pub open spec fn sphere_disc(s: Sphere, r: Ray) -> int {
    fmul(sphere_half_b(s, r), sphere_half_b(s, r)) - fmul(sphere_qa(r), sphere_qc(s, r))
}

/// The nearer intersection parameter, when the discriminant is nonnegative.
pub open spec fn sphere_root_near(s: Sphere, r: Ray) -> int {
    fdiv(-sphere_half_b(s, r) - fsqrt(sphere_disc(s, r)), sphere_qa(r))
}

/// The farther intersection parameter.
pub open spec fn sphere_root_far(s: Sphere, r: Ray) -> int {
    fdiv(-sphere_half_b(s, r) + fsqrt(sphere_disc(s, r)), sphere_qa(r))
}

/// The hit parameter a query returns: the nearer root if it lies within the
/// interval, else the farther root if it does, else nothing.
pub open spec fn sphere_hit_t(s: Sphere, r: Ray, t_min: int, t_max: int) -> Option<int> {
    if sphere_disc(s, r) < 0 {
        None
    } else if t_min <= sphere_root_near(s, r) <= t_max {
        Some(sphere_root_near(s, r))
    } else if t_min <= sphere_root_far(s, r) <= t_max {
        Some(sphere_root_far(s, r))
    } else {
        None
    }
}

/// The outward unit normal at a surface point: offset from center over
/// radius.
pub open spec fn sphere_outward_normal(s: Sphere, p: (int, int, int)) -> (int, int, int) {
    vdivk(vsub(p, s.center@), s.radius@)
}

/// The record reports this sphere's geometry at its own hit parameter: the
/// point on the ray, the outward normal flipped against the ray, which side
/// was struck, and the sphere's material.
pub open spec fn sphere_record_matches(s: Sphere, r: Ray, rec: HitRecord) -> bool {
    let p = ray_at(r, rec.t@);
    let outward = sphere_outward_normal(s, p);
    &&& rec.point@ == p
    &&& rec.material == s.material
    &&& rec.front_face == (vdot(r.direction@, outward) < 0)
    &&& rec.normal@ == if vdot(r.direction@, outward) < 0 {
        outward
    } else {
        vneg(outward)
    }
}

impl Sphere {
    /// Runtime check for `sphere_wf`: whether this sphere is within world
    /// bounds.
    pub fn is_well_formed(&self) -> (r: bool)
        ensures
            r == sphere_wf(*self),
    {
        -COORD_MAX <= self.center.0.raw() && self.center.0.raw() <= COORD_MAX && -COORD_MAX
            <= self.center.1.raw() && self.center.1.raw() <= COORD_MAX && -COORD_MAX
            <= self.center.2.raw() && self.center.2.raw() <= COORD_MAX && RADIUS_MIN
            <= self.radius.raw() && self.radius.raw() <= COORD_MAX
            && self.material.is_well_formed()
    }

    /// Builds the hit record for a hit of this sphere at parameter `t`.
    fn make_record(&self, ray: &Ray, t: Fixed) -> (r: HitRecord)
        requires
            sphere_wf(*self),
            ray_bounded(*ray),
            0 <= t@ <= T_MAX as int,
        ensures
            r.t == t,
            sphere_record_matches(*self, *ray, r),
    {
        proof {
            lemma_mul_ok_from_bounds(t@, ray.direction@.0, T_MAX as int, COORD_MAX as int);
            lemma_mul_ok_from_bounds(t@, ray.direction@.1, T_MAX as int, COORD_MAX as int);
            lemma_mul_ok_from_bounds(t@, ray.direction@.2, T_MAX as int, COORD_MAX as int);
            lemma_fmul_bound(t@, ray.direction@.0, T_MAX as int, COORD_MAX as int);
            lemma_fmul_bound(t@, ray.direction@.1, T_MAX as int, COORD_MAX as int);
            lemma_fmul_bound(t@, ray.direction@.2, T_MAX as int, COORD_MAX as int);
        }
        let point = ray.at(t);
        let ghost pb = (T_MAX as int) * (COORD_MAX as int) / (SCALE as int) + (COORD_MAX as int);
        assert(vbounded(point@, pb));
        let offset = point.sub(self.center);
        assert(vbounded(offset@, pb + (COORD_MAX as int)));
        proof {
            crate::vec3::lemma_vdivk_bound(
                offset@,
                self.radius@,
                73786993887024250880,
                RADIUS_MIN as int,
            );
        }
        let outward = offset.div(self.radius);
        assert(vbounded(outward@, 75557881740312832901120));
        proof {
            lemma_mul_ok_from_bounds(
                ray.direction@.0,
                outward@.0,
                COORD_MAX as int,
                75557881740312832901120,
            );
            lemma_mul_ok_from_bounds(
                ray.direction@.1,
                outward@.1,
                COORD_MAX as int,
                75557881740312832901120,
            );
            lemma_mul_ok_from_bounds(
                ray.direction@.2,
                outward@.2,
                COORD_MAX as int,
                75557881740312832901120,
            );
        }
        HitRecord::new(ray, t, point, outward, self.material)
    }

    /// Intersects a ray with this sphere: the nearest hit parameter within
    /// `[t_min, t_max]`, if any, with the surface data at that point.
    pub fn hit(&self, ray: &Ray, t_min: Fixed, t_max: Fixed) -> (r: Option<HitRecord>)
        requires
            sphere_wf(*self),
            ray_bounded(*ray),
            vdot(ray.direction@, ray.direction@) >= 1,
            0 <= t_min@ <= T_MAX as int,
            sabs(t_max@) <= T_MAX as int,
        ensures
            match r {
                Some(rec) => sphere_hit_t(*self, *ray, t_min@, t_max@) == Some(rec.t@)
                    && sphere_record_matches(*self, *ray, rec) && t_min@ <= rec.t@ <= t_max@,
                None => sphere_hit_t(*self, *ray, t_min@, t_max@) is None,
            },
    {
        let oc = ray.origin.sub(self.center);
        proof {
            lemma_vdot_bound(ray.direction@, ray.direction@, COORD_MAX as int, COORD_MAX as int);
            lemma_vdot_bound(oc@, ray.direction@, 2 * (COORD_MAX as int), COORD_MAX as int);
            lemma_vdot_bound(oc@, oc@, 2 * (COORD_MAX as int), 2 * (COORD_MAX as int));
            lemma_mul_ok_from_bounds(self.radius@, self.radius@, COORD_MAX as int, COORD_MAX as int);
            lemma_fmul_bound(self.radius@, self.radius@, COORD_MAX as int, COORD_MAX as int);
        }
        let qa = ray.direction.dot(ray.direction);
        let half_b = oc.dot(ray.direction);
        let qc = oc.dot(oc).sub(self.radius.mul(self.radius));
        assert(sabs(half_b@) <= 108086391056891904);
        assert(sabs(qa@) <= 54043195528445952);
        assert(sabs(qc@) <= 234187180623265792);
        proof {
            lemma_mul_ok_from_bounds(half_b@, half_b@, 108086391056891904, 108086391056891904);
            lemma_fmul_bound(half_b@, half_b@, 108086391056891904, 108086391056891904);
            lemma_mul_ok_from_bounds(qa@, qc@, 54043195528445952, 234187180623265792);
            lemma_fmul_bound(qa@, qc@, 54043195528445952, 234187180623265792);
        }
        let disc = half_b.mul(half_b).sub(qa.mul(qc));
        assert(sabs(disc@) <= 5666839779443574256435200);
        if disc.lt(Fixed::zero()) {
            return None;
        }
        let sqrt_d = disc.sqrt();
        proof {
            lemma_sqrt_floor_char(disc@ * (SCALE as int));
            assert(disc@ * (SCALE as int) <= 24338891524382004508736701543219200);
            assert(sqrt_d@ <= 156009267431079250) by (nonlinear_arith)
                requires
                    sqrt_d@ >= 0,
                    sqrt_d@ * sqrt_d@ <= disc@ * (SCALE as int),
                    disc@ * (SCALE as int) <= 24338891524382004508736701543219200,
            ;
        }
        let neg_hb = half_b.neg();
        proof {
            lemma_fdiv_num_ok(neg_hb@ - sqrt_d@, qa@);
            lemma_fdiv_num_ok(neg_hb@ + sqrt_d@, qa@);
        }
        let t1 = neg_hb.sub(sqrt_d).div(qa);
        if t_min.le(t1) && t1.le(t_max) {
            return Some(self.make_record(ray, t1));
        }
        let t2 = neg_hb.add(sqrt_d).div(qa);
        if t_min.le(t2) && t2.le(t_max) {
            return Some(self.make_record(ray, t2));
        }
        None
    }
}

/// Narrowing the upper end of the query interval loses no nearer hit: a hit
/// found in the narrow interval is the hit of the full interval, and where
/// the narrow interval has none, any hit of the full interval lies beyond
/// the narrow end. This is what lets an aggregate shrink its search interval
/// to the best hit so far.
pub proof fn lemma_sphere_hit_narrow(s: Sphere, r: Ray, t_min: int, tc: int, t_max: int)
    requires
        t_min <= tc <= t_max,
        sphere_qa(r) >= 1,
    ensures
        sphere_hit_t(s, r, t_min, tc) matches Some(v) ==> sphere_hit_t(s, r, t_min, t_max)
            == Some(v),
        sphere_hit_t(s, r, t_min, tc) is None ==> (sphere_hit_t(s, r, t_min, t_max) matches Some(v)
            ==> v > tc),
{
    let disc = sphere_disc(s, r);
    if disc >= 0 {
        let sq = fsqrt(disc);
        lemma_sqrt_floor_char(disc * (SCALE as int));
        assert((-sphere_half_b(s, r) - sq) * (SCALE as int) <= (-sphere_half_b(s, r) + sq) * (
        SCALE as int)) by (nonlinear_arith)
            requires
                sq >= 0,
        ;
        crate::fixed::lemma_quot_le(
            (-sphere_half_b(s, r) - sq) * (SCALE as int),
            (-sphere_half_b(s, r) + sq) * (SCALE as int),
            sphere_qa(r),
        );
    }
}

/// A root numerator divides safely by a positive leading coefficient.
proof fn lemma_fdiv_num_ok(num: int, qa: int)
    requires
        sabs(num) <= 0x8_0000_0000_0000_0000,
        qa >= 1,
    ensures
        num > i128::MIN,
        qa > i128::MIN,
        qa != 0,
        sabs(num) * (SCALE as int) <= i128::MAX,
{
    assert(sabs(num) * (SCALE as int) <= 0x8_0000_0000_0000_0000 * (SCALE as int))
        by (nonlinear_arith)
        requires
            0 <= sabs(num) <= 0x8_0000_0000_0000_0000,
    ;
}

} // verus!
