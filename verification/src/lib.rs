//! An offline path-tracing rendering kernel over fixed-point arithmetic:
//! vector algebra, ray-sphere intersection, a closed set of scattering
//! materials, a thin-lens camera, and the recursive Monte Carlo color
//! estimator that ties them together. Image output and scene construction
//! live outside the kernel.

use vstd::prelude::*;

pub mod camera;
pub mod color;
pub mod fixed;
pub mod hittable;
pub mod hittable_list;
pub mod material;
pub mod ray;
pub mod sphere;
pub mod vec3;

use crate::fixed::{fdiv, Fixed, SCALE};
use crate::hittable::{hittable_hit_t, lemma_record_material_wf, ray_bounded, T_EPSILON, T_MAX};
use crate::hittable_list::{list_wf, HittableList};
use crate::ray::Ray;
use crate::vec3::{
    lemma_mul_ok_from_bounds, lemma_vdot_bound, vbounded, vdot, vinterp, vnormalize, vzero, Color,
    Vec3,
};

verus! {

/// Red channel of the sky gradient's far color (one half).
pub const SKY_R: i128 = 2147483648;

/// Green channel of the sky gradient's far color (about 0.7).
pub const SKY_G: i128 = 3006477107;

/// Blue channel of the sky gradient's far color (one).
pub const SKY_B: i128 = 4294967296;

/// Pure white, the near end of the background gradient.
pub open spec fn white() -> (int, int, int) {
    (SCALE as int, SCALE as int, SCALE as int)
}

/// Sky blue, the far end of the background gradient.
pub open spec fn sky_blue() -> (int, int, int) {
    (SKY_R as int, SKY_G as int, SKY_B as int)
}

/// A ray the estimator can trace: within world bounds, with a direction of
/// nonzero grid magnitude.
pub open spec fn ray_renderable(r: Ray) -> bool {
    ray_bounded(r) && vdot(r.direction@, r.direction@) >= 1
}

/// No scene member is hit within the shading interval.
pub open spec fn scene_miss(world: HittableList, r: Ray) -> bool {
    forall|i: int|
        0 <= i < world.objects@.len() ==> hittable_hit_t(
            #[trigger] world.objects@[i],
            r,
            T_EPSILON as int,
            T_MAX as int,
        ) is None
}

/// The background a missed ray sees: white blended toward sky blue by the
/// normalized direction's vertical component remapped from [-1, 1] to
/// [0, 1].
pub open spec fn background_color(d: (int, int, int)) -> (int, int, int) {
    let unit = vnormalize(d);
    let k = fdiv(unit.1 + SCALE as int, 2 * (SCALE as int));
    vinterp(white(), sky_blue(), k)
}

/// One channel of the background blend is nonnegative: the white term loses
/// at most what the sky term contributes, for any weight the remap can
/// produce and any sky channel of at least one half.
proof fn lemma_bg_component_nonneg(k: int, c: int)
    requires
        k <= 6442450944,
        2147483648 <= c <= 4294967296,
    ensures
        crate::fixed::fmul(4294967296 - k, 4294967296) + crate::fixed::fmul(k, c) >= 0,
{
    let s = 4294967296int;
    crate::fixed::lemma_quot_multiple(s - k, s);
    assert(crate::fixed::fmul(s - k, s) == s - k);
    if k >= 0 {
        assert(k * 2147483648 <= k * c) by (nonlinear_arith)
            requires
                k >= 0,
                c >= 2147483648,
        ;
        assert(k * 2147483648 >= 0) by (nonlinear_arith)
            requires
                k >= 0,
        ;
        crate::fixed::lemma_quot_le(k * 2147483648, k * c, s);
        vstd::arithmetic::div_mod::lemma_div_multiples_vanish_quotient(2147483648, k, 2);
        assert(2147483648 * k == k * 2147483648) by (nonlinear_arith);
        assert(crate::fixed::fmul(k, c) >= k / 2);
        vstd::arithmetic::div_mod::lemma_fundamental_div_mod(k, 2);
    } else {
        crate::fixed::lemma_fmul_bound(k, c, crate::fixed::sabs(k), s);
        vstd::arithmetic::div_mod::lemma_div_multiples_vanish(crate::fixed::sabs(k), s);
        assert(crate::fixed::sabs(k) * s == s * crate::fixed::sabs(k)) by (nonlinear_arith);
    }
}

/// Runtime check for `ray_renderable`.
fn ray_renderable_check(ray: &Ray) -> (b: bool)
    ensures
        b == ray_renderable(*ray),
{
    let cm = crate::hittable::COORD_MAX;
    let in_bounds = -cm <= ray.origin.0.raw() && ray.origin.0.raw() <= cm && -cm
        <= ray.origin.1.raw() && ray.origin.1.raw() <= cm && -cm <= ray.origin.2.raw()
        && ray.origin.2.raw() <= cm && -cm <= ray.direction.0.raw() && ray.direction.0.raw() <= cm
        && -cm <= ray.direction.1.raw() && ray.direction.1.raw() <= cm && -cm
        <= ray.direction.2.raw() && ray.direction.2.raw() <= cm;
    if in_bounds {
        proof {
            lemma_vdot_bound(
                ray.direction@,
                ray.direction@,
                crate::hittable::COORD_MAX as int,
                crate::hittable::COORD_MAX as int,
            );
        }
        let d = ray.direction.dot(ray.direction);
        Fixed::from_raw(1).le(d)
    } else {
        false
    }
}

/// Estimated radiance carried back along a ray, bouncing through the scene's
/// materials at most `depth` times. A spent depth returns black (the energy
/// is exhausted), a miss returns the background gradient, an absorbed ray
/// returns black, and a scattered ray returns the scattered estimate tinted
/// by the material's attenuation. Rays or hit geometry outside the
/// renderer's ranges are treated as absorbed: the degenerate-geometry policy
/// of this kernel.
pub fn ray_color(ray: &Ray, world: &HittableList, depth: u32) -> (r: Color)
    requires
        list_wf(*world),
    ensures
        vbounded(r@, 4 * (SCALE as int)),
        r@.0 >= 0 && r@.1 >= 0 && r@.2 >= 0,
        depth == 0 ==> r@ == vzero(),
        depth > 0 && ray_renderable(*ray) && scene_miss(*world, *ray) ==> r@ == background_color(
            ray.direction@,
        ),
    decreases depth,
{
    let black = Vec3(Fixed::zero(), Fixed::zero(), Fixed::zero());
    if depth == 0 {
        return black;
    }
    if !ray_renderable_check(ray) {
        return black;
    }
    let eps = Fixed::from_raw(T_EPSILON);
    let tmax = Fixed::from_raw(T_MAX);
    match world.hit(ray, eps, tmax) {
        Some(record) => {
            if !record.is_plausible() {
                return black;
            }
            proof {
                let i = choose|i: int|
                    0 <= i < world.objects@.len() && hittable_hit_t(
                        #[trigger] world.objects@[i],
                        *ray,
                        eps@,
                        tmax@,
                    ) == Some(record.t@) && crate::hittable::hit_record_matches(
                        world.objects@[i],
                        *ray,
                        record,
                    );
                lemma_record_material_wf(world.objects@[i], *ray, record);
            }
            match record.material.scatter(ray, &record) {
                Some((attenuation, scattered)) => {
                    let bounced = ray_color(&scattered, world, depth - 1);
                    proof {
                        lemma_mul_ok_from_bounds(
                            attenuation@.0,
                            bounced@.0,
                            4294967296,
                            17179869184,
                        );
                        lemma_mul_ok_from_bounds(
                            attenuation@.1,
                            bounced@.1,
                            4294967296,
                            17179869184,
                        );
                        lemma_mul_ok_from_bounds(
                            attenuation@.2,
                            bounced@.2,
                            4294967296,
                            17179869184,
                        );
                        crate::fixed::lemma_fmul_bound(
                            attenuation@.0,
                            bounced@.0,
                            4294967296,
                            17179869184,
                        );
                        crate::fixed::lemma_fmul_bound(
                            attenuation@.1,
                            bounced@.1,
                            4294967296,
                            17179869184,
                        );
                        crate::fixed::lemma_fmul_bound(
                            attenuation@.2,
                            bounced@.2,
                            4294967296,
                            17179869184,
                        );
                        crate::fixed::lemma_fmul_nonneg(attenuation@.0, bounced@.0);
                        crate::fixed::lemma_fmul_nonneg(attenuation@.1, bounced@.1);
                        crate::fixed::lemma_fmul_nonneg(attenuation@.2, bounced@.2);
                    }
                    attenuation.mul(bounced)
                },
                None => black,
            }
        },
        None => {
            let unit = ray.direction.normalize();
            let one = Fixed::one();
            let two = Fixed::from_int(2);
            let k = unit.1.add(one).div(two);
            proof {
                crate::fixed::lemma_fdiv_bound(
                    unit@.1 + SCALE as int,
                    2 * (SCALE as int),
                    12884901888,
                    8589934592,
                );
                lemma_mul_ok_from_bounds(SCALE as int - k@, SCALE as int, 10737418240, 4294967296);
                lemma_mul_ok_from_bounds(k@, SKY_R as int, 6442450944, 4294967296);
                lemma_mul_ok_from_bounds(k@, SKY_G as int, 6442450944, 4294967296);
                lemma_mul_ok_from_bounds(k@, SKY_B as int, 6442450944, 4294967296);
                crate::fixed::lemma_fmul_bound(
                    SCALE as int - k@,
                    SCALE as int,
                    10737418240,
                    4294967296,
                );
                crate::fixed::lemma_fmul_bound(k@, SKY_R as int, 6442450944, 4294967296);
                crate::fixed::lemma_fmul_bound(k@, SKY_G as int, 6442450944, 4294967296);
                crate::fixed::lemma_fmul_bound(k@, SKY_B as int, 6442450944, 4294967296);
                lemma_bg_component_nonneg(k@, SKY_R as int);
                lemma_bg_component_nonneg(k@, SKY_G as int);
                lemma_bg_component_nonneg(k@, SKY_B as int);
            }
            let white_c = Vec3(one, one, one);
            let sky = Vec3(Fixed::from_raw(SKY_R), Fixed::from_raw(SKY_G), Fixed::from_raw(SKY_B));
            white_c.interpolate(sky, k)
        },
    }
}

} // verus!
