//! Rays: an origin with a direction, evaluated along a parameter.

use crate::fixed::Fixed;
use crate::vec3::{scale_ok, vadd, vadd_ok, vscale, Point3, Vec3};
use vstd::prelude::*;

verus! {

/// A half-line through space: `origin + t * direction` for `t >= 0`. The
/// direction need not be unit length.
#[derive(Clone, Copy, Debug)]
pub struct Ray {
    pub origin: Point3,
    pub direction: Vec3,
}

/// The point a ray reaches at parameter `t` (a raw scalar value).
pub open spec fn ray_at(r: Ray, t: int) -> (int, int, int) {
    vadd(r.origin@, vscale(t, r.direction@))
}

impl Ray {
    /// Evaluates the ray at parameter `t`.
    pub fn at(&self, t: Fixed) -> (r: Point3)
        requires
            scale_ok(t@, self.direction@),
            vadd_ok(self.origin@, vscale(t@, self.direction@)),
        ensures
            r@ == ray_at(*self, t@),
    {
        self.origin.add(self.direction.scale(t))
    }
}

} // verus!
