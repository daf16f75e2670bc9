//! The camera: maps normalized image-plane coordinates to world-space rays,
//! with an optional thin lens for depth of field.
//!
//! The vertical field of view is given as the tangent of half the view
//! angle (a plain fixed-point value), since the renderer's arithmetic has no
//! trigonometry; the caller computes it from an angle if it starts from one.

use crate::fixed::{fdiv, fmul, lemma_fmul_bound, Fixed, SCALE};
use crate::hittable::COORD_MAX;
use crate::vec3::{
    lemma_mul_ok_from_bounds, lemma_vscale_bound, vadd, vbounded, vcross, vdivk, vdot, vneg,
    vnormalize, vscale, vsub, Point3, Vec3,
};
use vstd::prelude::*;

verus! {

/// The view basis vector pointing from the look-at target to the eye.
pub open spec fn cam_w(from: (int, int, int), at: (int, int, int)) -> (int, int, int) {
    vnormalize(vsub(from, at))
}

/// The view basis vector pointing right across the image plane.
pub open spec fn cam_u(vup: (int, int, int), from: (int, int, int), at: (int, int, int)) -> (
    int,
    int,
    int,
) {
    vnormalize(vcross(vup, cam_w(from, at)))
}

/// The view basis vector pointing up the image plane.
pub open spec fn cam_v(vup: (int, int, int), from: (int, int, int), at: (int, int, int)) -> (
    int,
    int,
    int,
) {
    vcross(cam_w(from, at), cam_u(vup, from, at))
}

/// A camera, built once from its parameters: eye position, the image-plane
/// corner and extent vectors (scaled by the focus distance), the view basis
/// and the lens radius.
#[derive(Clone, Copy, Debug)]
pub struct Camera {
    pub origin: Point3,
    pub lower_left_corner: Point3,
    pub horizontal: Vec3,
    pub vertical: Vec3,
    pub u: Vec3,
    pub v: Vec3,
    pub lens_radius: Fixed,
}

/// The camera's fields are within the bounds its construction guarantees.
pub open spec fn camera_wf(c: Camera) -> bool {
    &&& vbounded(c.origin@, COORD_MAX as int)
    &&& vbounded(c.u@, 2 * (SCALE as int))
    &&& vbounded(c.v@, 8 * (SCALE as int))
    &&& vbounded(c.horizontal@, 9007199254740992)
    &&& vbounded(c.vertical@, 2251799813685248)
    &&& vbounded(c.lower_left_corner@, 5655887813279744)
    &&& 0 <= c.lens_radius@ <= COORD_MAX as int
}

/// The origin of the ray for image coordinates `(s, t)` and lens sample `d`.
pub open spec fn camera_ray_origin(c: Camera, d: (int, int, int)) -> (int, int, int) {
    vadd(c.origin@, camera_offset(c, d))
}

/// The lens offset for a disk sample `d`.
pub open spec fn camera_offset(c: Camera, d: (int, int, int)) -> (int, int, int) {
    let rd = vscale(c.lens_radius@, d);
    vadd(vscale(rd.0, c.u@), vscale(rd.1, c.v@))
}

/// The direction of the ray for image coordinates `(s, t)` and lens sample
/// `d`: it aims from the perturbed origin at the unperturbed focus-plane
/// point.
pub open spec fn camera_ray_direction(c: Camera, s: int, t: int, d: (int, int, int)) -> (
    int,
    int,
    int,
) {
    vadd(
        vadd(
            vadd(vsub(vneg(c.origin@), camera_offset(c, d)), c.lower_left_corner@),
            vscale(s, c.horizontal@),
        ),
        vscale(t, c.vertical@),
    )
}

impl Camera {
    /// Builds a camera from eye position, look-at target, up hint, tangent of
    /// half the vertical field of view, aspect ratio, aperture diameter and
    /// focus distance. The eye must not coincide with the target, and the up
    /// hint must not be parallel to the view direction.
    pub fn new(
        from: Point3,
        at: Point3,
        vup: Vec3,
        half_height: Fixed,
        aspect_ratio: Fixed,
        aperture: Fixed,
        focus_dist: Fixed,
    ) -> (r: Camera)
        requires
            vbounded(from@, COORD_MAX as int),
            vbounded(at@, COORD_MAX as int),
            vbounded(vup@, COORD_MAX as int),
            vdot(vsub(from@, at@), vsub(from@, at@)) >= 1,
            vdot(vcross(vup@, cam_w(from@, at@)), vcross(vup@, cam_w(from@, at@))) >= 1,
            0 < half_height@ <= 16 * (SCALE as int),
            0 < aspect_ratio@ <= 16 * (SCALE as int),
            0 <= aperture@ <= COORD_MAX as int,
            0 < focus_dist@ <= COORD_MAX as int,
        ensures
            r.origin == from,
            r.u@ == cam_u(vup@, from@, at@),
            r.v@ == cam_v(vup@, from@, at@),
            r.horizontal@ == vscale(
                fmul(focus_dist@, fmul(aspect_ratio@, 2 * half_height@)),
                cam_u(vup@, from@, at@),
            ),
            r.vertical@ == vscale(fmul(focus_dist@, 2 * half_height@), cam_v(vup@, from@, at@)),
            r.lower_left_corner@ == vsub(
                vsub(
                    vsub(from@, vscale(focus_dist@, cam_w(from@, at@))),
                    vdivk(r.vertical@, 2 * (SCALE as int)),
                ),
                vdivk(r.horizontal@, 2 * (SCALE as int)),
            ),
            r.lens_radius@ == fdiv(aperture@, 2 * (SCALE as int)),
            camera_wf(r),
    {
        let viewport_height = half_height.add(half_height);
        proof {
            lemma_mul_ok_from_bounds(aspect_ratio@, viewport_height@, 68719476736, 137438953472);
            lemma_fmul_bound(aspect_ratio@, viewport_height@, 68719476736, 137438953472);
        }
        let viewport_width = aspect_ratio.mul(viewport_height);
        let w = from.sub(at).normalize();
        proof {
            lemma_mul_ok_from_bounds(vup@.0, w@.1, COORD_MAX as int, 8589934592);
            lemma_mul_ok_from_bounds(vup@.0, w@.2, COORD_MAX as int, 8589934592);
            lemma_mul_ok_from_bounds(vup@.1, w@.0, COORD_MAX as int, 8589934592);
            lemma_mul_ok_from_bounds(vup@.1, w@.2, COORD_MAX as int, 8589934592);
            lemma_mul_ok_from_bounds(vup@.2, w@.0, COORD_MAX as int, 8589934592);
            lemma_mul_ok_from_bounds(vup@.2, w@.1, COORD_MAX as int, 8589934592);
            lemma_fmul_bound(vup@.0, w@.1, COORD_MAX as int, 8589934592);
            lemma_fmul_bound(vup@.0, w@.2, COORD_MAX as int, 8589934592);
            lemma_fmul_bound(vup@.1, w@.0, COORD_MAX as int, 8589934592);
            lemma_fmul_bound(vup@.1, w@.2, COORD_MAX as int, 8589934592);
            lemma_fmul_bound(vup@.2, w@.0, COORD_MAX as int, 8589934592);
            lemma_fmul_bound(vup@.2, w@.1, COORD_MAX as int, 8589934592);
        }
        let cu = vup.cross(w);
        assert(vbounded(cu@, 35184372088832));
        let u = cu.normalize();
        proof {
            lemma_mul_ok_from_bounds(w@.0, u@.1, 8589934592, 8589934592);
            lemma_mul_ok_from_bounds(w@.0, u@.2, 8589934592, 8589934592);
            lemma_mul_ok_from_bounds(w@.1, u@.0, 8589934592, 8589934592);
            lemma_mul_ok_from_bounds(w@.1, u@.2, 8589934592, 8589934592);
            lemma_mul_ok_from_bounds(w@.2, u@.0, 8589934592, 8589934592);
            lemma_mul_ok_from_bounds(w@.2, u@.1, 8589934592, 8589934592);
            lemma_fmul_bound(w@.0, u@.1, 8589934592, 8589934592);
            lemma_fmul_bound(w@.0, u@.2, 8589934592, 8589934592);
            lemma_fmul_bound(w@.1, u@.0, 8589934592, 8589934592);
            lemma_fmul_bound(w@.1, u@.2, 8589934592, 8589934592);
            lemma_fmul_bound(w@.2, u@.0, 8589934592, 8589934592);
            lemma_fmul_bound(w@.2, u@.1, 8589934592, 8589934592);
        }
        let v = w.cross(u);
        assert(vbounded(v@, 34359738368));
        let origin = from;
        proof {
            lemma_mul_ok_from_bounds(focus_dist@, viewport_width@, COORD_MAX as int, 2199023255552);
            lemma_fmul_bound(focus_dist@, viewport_width@, COORD_MAX as int, 2199023255552);
        }
        let hscale = focus_dist.mul(viewport_width);
        proof {
            lemma_vscale_bound(hscale@, u@, 4503599627370496, 8589934592);
        }
        let horizontal = u.scale(hscale);
        proof {
            lemma_mul_ok_from_bounds(focus_dist@, viewport_height@, COORD_MAX as int, 137438953472);
            lemma_fmul_bound(focus_dist@, viewport_height@, COORD_MAX as int, 137438953472);
        }
        let vscale_f = focus_dist.mul(viewport_height);
        proof {
            lemma_vscale_bound(vscale_f@, v@, 281474976710656, 34359738368);
        }
        let vertical = v.scale(vscale_f);
        proof {
            lemma_vscale_bound(focus_dist@, w@, COORD_MAX as int, 8589934592);
        }
        let two = Fixed::from_int(2);
        let fw = w.scale(focus_dist);
        let half_vertical = vertical.div(two);
        let half_horizontal = horizontal.div(two);
        proof {
            crate::vec3::lemma_vdivk_bound(vertical@, two@, 2251799813685248, 8589934592);
            crate::vec3::lemma_vdivk_bound(horizontal@, two@, 9007199254740992, 8589934592);
        }
        let lower_left_corner = origin.sub(fw).sub(half_vertical).sub(half_horizontal);
        let lens_radius = aperture.div(two);
        proof {
            crate::fixed::lemma_quot_abs(aperture@ * (SCALE as int), 2 * (SCALE as int));
            vstd::arithmetic::div_mod::lemma_div_pos_is_pos(
                aperture@ * (SCALE as int),
                2 * (SCALE as int),
            );
            vstd::arithmetic::div_mod::lemma_div_is_ordered(
                aperture@ * (SCALE as int),
                (COORD_MAX as int) * (SCALE as int),
                2 * (SCALE as int),
            );
        }
        Camera { origin, lower_left_corner, horizontal, vertical, u, v, lens_radius }
    }

    /// The camera ray through image coordinates `(s, t)` for a given lens
    /// disk sample: the origin perturbed within the lens, aimed at the
    /// unperturbed focus-plane point.
    #[verifier::rlimit(60)]
    pub fn get_ray_with(&self, s: Fixed, t: Fixed, disk_sample: Vec3) -> (r: crate::ray::Ray)
        requires
            camera_wf(*self),
            0 <= s@ <= SCALE as int,
            0 <= t@ <= SCALE as int,
            vbounded(disk_sample@, SCALE as int),
        ensures
            r.origin@ == camera_ray_origin(*self, disk_sample@),
            r.direction@ == camera_ray_direction(*self, s@, t@, disk_sample@),
            vbounded(r.origin@, 96757023244288),
            vbounded(r.direction@, 17011643904950272),
    {
        proof {
            lemma_vscale_bound(self.lens_radius@, disk_sample@, COORD_MAX as int, 4294967296);
        }
        let rd = disk_sample.scale(self.lens_radius);
        proof {
            lemma_vscale_bound(rd@.0, self.u@, COORD_MAX as int, 8589934592);
            lemma_vscale_bound(rd@.1, self.v@, COORD_MAX as int, 34359738368);
        }
        let offset = self.u.scale(rd.0).add(self.v.scale(rd.1));
        assert(vbounded(offset@, 87960930222080));
        proof {
            lemma_vscale_bound(s@, self.horizontal@, 4294967296, 9007199254740992);
            lemma_vscale_bound(t@, self.vertical@, 4294967296, 2251799813685248);
        }
        let origin = self.origin.add(offset);
        let direction = self.origin.neg().sub(offset).add(self.lower_left_corner).add(
            self.horizontal.scale(s),
        ).add(self.vertical.scale(t));
        crate::ray::Ray { origin, direction }
    }

    /// The camera ray through image coordinates `(s, t)`, with the lens
    /// sample drawn from the process-wide random source; a pinhole camera
    /// (zero aperture) always uses its exact origin.
    pub fn get_ray(&self, s: Fixed, t: Fixed) -> (r: crate::ray::Ray)
        requires
            camera_wf(*self),
            0 <= s@ <= SCALE as int,
            0 <= t@ <= SCALE as int,
        ensures
            exists|d: (int, int, int)|
                vbounded(d, SCALE as int) && (#[trigger] camera_ray_origin(*self, d)) == r.origin@
                    && camera_ray_direction(*self, s@, t@, d) == r.direction@,
            vbounded(r.origin@, 96757023244288),
            vbounded(r.direction@, 17011643904950272),
    {
        let d = Vec3::random_in_unit_disk();
        let r = self.get_ray_with(s, t, d);
        proof {
            assert(vbounded(d@, SCALE as int) && camera_ray_origin(*self, d@) == r.origin@
                && camera_ray_direction(*self, s@, t@, d@) == r.direction@);
        }
        r
    }
}

} // verus!
