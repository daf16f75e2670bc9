//! The hit protocol: what a ray learns when it strikes a surface, and the
//! closed set of primitives a scene may hold.
//!
//! This module also fixes the renderer's range policy: world coordinates,
//! radii and hit parameters live inside explicit bounds, so that every
//! arithmetic step of the intersection and shading code is proved free of
//! overflow. Values outside the bounds are treated as degenerate geometry.

use crate::fixed::{sabs, Fixed, SCALE};
use crate::material::Material;
use crate::ray::Ray;
use crate::sphere::Sphere;
use crate::vec3::{vbounded, vdot, vmul_ok, vneg, vsub_ok, vzero, Point3, Vec3};
use vstd::prelude::*;

verus! {

/// Largest magnitude of a world coordinate (2^11 units).
pub const COORD_MAX: i128 = 8796093022208;

/// Smallest sphere radius the intersection code accepts (about 1e-3 units).
pub const RADIUS_MIN: i128 = 4194304;

/// Largest hit parameter a query may ask for (2^23 units); the stand-in for
/// an unbounded search interval.
pub const T_MAX: i128 = 36028797018963968;

/// Lower end of every shading hit query (about 1e-3 units): the uniform
/// epsilon that suppresses self-intersection at a scatter origin.
pub const T_EPSILON: i128 = 4194304;

/// A ray whose origin and direction are within world bounds.
pub open spec fn ray_bounded(r: Ray) -> bool {
    vbounded(r.origin@, COORD_MAX as int) && vbounded(r.direction@, COORD_MAX as int)
}

/// What a successful intersection reports: the hit parameter, the point, the
/// surface normal oriented against the incoming ray, which side was struck,
/// and the surface material (copied by value: materials are small).
#[derive(Clone, Copy, Debug)]
pub struct HitRecord {
    pub t: Fixed,
    pub point: Point3,
    pub front_face: bool,
    pub normal: Vec3,
    pub material: Material,
}

/// A record whose geometry is usable by the shading code: the point within
/// world bounds, the normal within a unit-scale bound and of magnitude not
/// far below one.
pub open spec fn rec_plausible(rec: HitRecord) -> bool {
    &&& vbounded(rec.point@, COORD_MAX as int)
    &&& vbounded(rec.normal@, 2 * (SCALE as int))
    &&& vdot(rec.normal@, rec.normal@) >= (SCALE as int) / 4
}

impl HitRecord {
    /// Builds a record from an outward surface normal, flipping the normal
    /// against the incoming ray and remembering which side was struck.
    pub fn new(ray: &Ray, t: Fixed, point: Point3, outward_normal: Vec3, material: Material) -> (r:
        HitRecord)
        requires
            vmul_ok(ray.direction@, outward_normal@),
            vsub_ok(vzero(), outward_normal@),
        ensures
            r.t == t,
            r.point == point,
            r.material == material,
            r.front_face == (vdot(ray.direction@, outward_normal@) < 0),
            r.normal@ == if vdot(ray.direction@, outward_normal@) < 0 {
                outward_normal@
            } else {
                vneg(outward_normal@)
            },
    {
        let d = ray.direction.dot(outward_normal);
        if d.lt(Fixed::zero()) {
            HitRecord { t, point, front_face: true, normal: outward_normal, material }
        } else {
            HitRecord { t, point, front_face: false, normal: outward_normal.neg(), material }
        }
    }

    /// Runtime check for `rec_plausible`: whether the shading code may use
    /// this record's geometry.
    pub fn is_plausible(&self) -> (r: bool)
        ensures
            r == rec_plausible(*self),
    {
        let two = 2 * SCALE;
        let p_ok = -COORD_MAX <= self.point.0.raw() && self.point.0.raw() <= COORD_MAX
            && -COORD_MAX <= self.point.1.raw() && self.point.1.raw() <= COORD_MAX && -COORD_MAX
            <= self.point.2.raw() && self.point.2.raw() <= COORD_MAX;
        let n_ok = -two <= self.normal.0.raw() && self.normal.0.raw() <= two && -two
            <= self.normal.1.raw() && self.normal.1.raw() <= two && -two <= self.normal.2.raw()
            && self.normal.2.raw() <= two;
        if p_ok && n_ok {
            proof {
                crate::vec3::lemma_vdot_bound(
                    self.normal@,
                    self.normal@,
                    2 * (SCALE as int),
                    2 * (SCALE as int),
                );
            }
            let d = self.normal.dot(self.normal);
            Fixed::from_raw(SCALE / 4).le(d)
        } else {
            false
        }
    }
}

/// One scene primitive; the closed set of shapes the renderer knows.
#[derive(Clone, Copy, Debug)]
pub enum Hittable {
    Sphere(Sphere),
}

/// The primitive's hit parameter for a query, as the intersection spec
/// functions define it.
pub open spec fn hittable_hit_t(h: Hittable, r: Ray, t_min: int, t_max: int) -> Option<int> {
    match h {
        Hittable::Sphere(s) => crate::sphere::sphere_hit_t(s, r, t_min, t_max),
    }
}

/// The primitive is within world bounds.
pub open spec fn hittable_wf(h: Hittable) -> bool {
    match h {
        Hittable::Sphere(s) => crate::sphere::sphere_wf(s),
    }
}

/// The record reports the primitive's own geometry at its hit parameter.
pub open spec fn hit_record_matches(h: Hittable, r: Ray, rec: HitRecord) -> bool {
    match h {
        Hittable::Sphere(s) => crate::sphere::sphere_record_matches(s, r, rec),
    }
}

/// A record that reports a well-formed primitive's geometry carries a
/// well-formed material.
pub proof fn lemma_record_material_wf(h: Hittable, r: Ray, rec: HitRecord)
    requires
        hittable_wf(h),
        hit_record_matches(h, r, rec),
    ensures
        crate::material::material_wf(rec.material),
{
    match h {
        Hittable::Sphere(s) => {
            assert(rec.material == s.material);
        },
    }
}

impl Hittable {
    /// Intersects a ray with this primitive within `[t_min, t_max]`.
    pub fn hit(&self, ray: &Ray, t_min: Fixed, t_max: Fixed) -> (r: Option<HitRecord>)
        requires
            hittable_wf(*self),
            ray_bounded(*ray),
            vdot(ray.direction@, ray.direction@) >= 1,
            0 <= t_min@ <= T_MAX,
            sabs(t_max@) <= T_MAX,
        ensures
            match r {
                Some(rec) => hittable_hit_t(*self, *ray, t_min@, t_max@) == Some(rec.t@)
                    && hit_record_matches(*self, *ray, rec) && t_min@ <= rec.t@ <= t_max@,
                None => hittable_hit_t(*self, *ray, t_min@, t_max@) is None,
            },
    {
        match self {
            Hittable::Sphere(s) => s.hit(ray, t_min, t_max),
        }
    }
}

} // verus!
