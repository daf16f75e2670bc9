//! Surface materials and how rays scatter off them.
//!
//! The three variants of the original design — diffuse, metallic and
//! refractive — form a closed sum type. Materials are small immutable values
//! and are copied freely; all randomness they consume is drawn through the
//! sampling functions of `crate::vec3`.

use crate::fixed::{fdiv, fmul, lemma_fmul_bound, lemma_quot_abs, sabs, Fixed, SCALE};
use crate::hittable::{rec_plausible, HitRecord, COORD_MAX};
use crate::ray::Ray;
use crate::vec3::{
    lemma_mul_ok_from_bounds, lemma_vdot_bound, lemma_vscale_bound, vadd, vbounded, vdot,
    vnear_zero, vnormalize, vreflect, vscale, Color, Vec3,
};
use vstd::arithmetic::div_mod::{
    lemma_div_is_ordered, lemma_div_is_ordered_by_denominator, lemma_div_pos_is_pos,
};
use vstd::prelude::*;

verus! {

/// A color whose channels lie in the unit interval.
pub open spec fn color_wf(c: (int, int, int)) -> bool {
    &&& 0 <= c.0 <= SCALE as int
    &&& 0 <= c.1 <= SCALE as int
    &&& 0 <= c.2 <= SCALE as int
}

/// A diffuse surface: scatters in a random direction about the normal,
/// attenuating by its albedo.
#[derive(Clone, Copy, Debug)]
pub struct Lambertian {
    pub albedo: Color,
}

/// A reflective surface: mirrors the incoming ray, perturbed by `fuzz`
/// (in [0, 1]), and absorbs rays perturbed beneath the surface.
#[derive(Clone, Copy, Debug)]
pub struct Metal {
    pub albedo: Color,
    pub fuzz: Fixed,
}

/// A transparent refractive surface with the given index of refraction;
/// never absorbs.
#[derive(Clone, Copy, Debug)]
pub struct Dielectric {
    pub ir: Fixed,
}

/// The closed set of surface materials.
#[derive(Clone, Copy, Debug)]
pub enum Material {
    Lambertian(Lambertian),
    Metal(Metal),
    Dielectric(Dielectric),
}

/// The material's parameters are within the renderer's ranges: unit-interval
/// albedo and fuzz, and an index of refraction between a quarter and four.
pub open spec fn material_wf(m: Material) -> bool {
    match m {
        Material::Lambertian(l) => color_wf(l.albedo@),
        Material::Metal(mt) => color_wf(mt.albedo@) && 0 <= mt.fuzz@ <= SCALE as int,
        Material::Dielectric(d) => (SCALE as int) / 4 <= d.ir@ <= 4 * (SCALE as int),
    }
}

/// Schlick's reflectance approximation, on the fixed-point grid.
pub open spec fn reflectance_spec(cos: int, ratio: int) -> int {
    let s = SCALE as int;
    let q = fdiv(s - ratio, s + ratio);
    let r0 = fmul(q, q);
    let c = s - cos;
    let p5 = fmul(fmul(fmul(fmul(c, c), c), c), c);
    r0 + fmul(s - r0, p5)
}

impl Dielectric {
    /// Schlick's approximation of the angle-dependent probability that the
    /// surface reflects rather than refracts.
    pub fn reflectance(cos_theta: Fixed, ratio: Fixed) -> (r: Fixed)
        requires
            0 < ratio@ <= 4 * (SCALE as int),
            sabs(cos_theta@) <= 16 * (SCALE as int),
        ensures
            r@ == reflectance_spec(cos_theta@, ratio@),
    {
        let ghost s = SCALE as int;
        let one = Fixed::one();
        let num = one.sub(ratio);
        let den = one.add(ratio);
        proof {
            crate::fixed::lemma_abs_mul(s - ratio@, s);
            lemma_quot_abs((s - ratio@) * (SCALE as int), s + ratio@);
            lemma_div_is_ordered(
                sabs(s - ratio@) * (SCALE as int),
                73786976294838206464,
                s + ratio@,
            );
            lemma_div_is_ordered_by_denominator(
                73786976294838206464,
                SCALE as int,
                s + ratio@,
            );
        }
        let q = num.div(den);
        assert(sabs(q@) <= 17179869184);
        proof {
            lemma_mul_ok_from_bounds(q@, q@, 17179869184, 17179869184);
            lemma_fmul_bound(q@, q@, 17179869184, 17179869184);
        }
        let r0 = q.mul(q);
        let c = one.sub(cos_theta);
        proof {
            lemma_mul_ok_from_bounds(c@, c@, 73014444032, 73014444032);
            lemma_fmul_bound(c@, c@, 73014444032, 73014444032);
        }
        let c2 = c.mul(c);
        proof {
            lemma_mul_ok_from_bounds(c2@, c@, 1241245548544, 73014444032);
            lemma_fmul_bound(c2@, c@, 1241245548544, 73014444032);
        }
        let c3 = c2.mul(c);
        proof {
            lemma_mul_ok_from_bounds(c3@, c@, 21101174325248, 73014444032);
            lemma_fmul_bound(c3@, c@, 21101174325248, 73014444032);
        }
        let c4 = c3.mul(c);
        proof {
            lemma_mul_ok_from_bounds(c4@, c@, 358719963529216, 73014444032);
            lemma_fmul_bound(c4@, c@, 358719963529216, 73014444032);
        }
        let p5 = c4.mul(c);
        let w = one.sub(r0);
        proof {
            lemma_mul_ok_from_bounds(w@, p5@, 73014444032, 6098239379996672);
            lemma_fmul_bound(w@, p5@, 73014444032, 6098239379996672);
        }
        r0.add(w.mul(p5))
    }
}

/// The diffuse scatter direction: the normal plus a unit sample, falling
/// back to the normal itself when the sum is near zero.
pub open spec fn lambertian_dir(n: (int, int, int), u: (int, int, int)) -> (int, int, int) {
    if vnear_zero(vadd(n, u)) {
        n
    } else {
        vadd(n, u)
    }
}

/// The metallic scatter direction: the mirror reflection, perturbed by the
/// fuzz-scaled ball sample.
pub open spec fn metal_dir(v: (int, int, int), n: (int, int, int), fuzz: int, u: (int, int, int)) -> (
    int,
    int,
    int,
) {
    vadd(vreflect(v, n), vscale(fuzz, u))
}

impl Lambertian {
    /// Diffuse scattering: always scatters, toward the normal plus a random
    /// unit vector, attenuated by the albedo.
    pub fn scatter(&self, _ray: &Ray, record: &HitRecord) -> (r: Option<(Color, Ray)>)
        requires
            rec_plausible(*record),
        ensures
            r is Some,
            r matches Some((att, sc)) ==> att == self.albedo && sc.origin == record.point
                && vbounded(sc.direction@, 4 * (SCALE as int)) && vdot(
                sc.direction@,
                sc.direction@,
            ) >= 1 && (exists|v: (int, int, int)|
                vbounded(v, SCALE as int) && vdot(v, v) >= 1 && sc.direction@ == lambertian_dir(
                    record.normal@,
                    crate::vec3::vnormalize(v),
                )),
    {
        let u = Vec3::random_unit_vector();
        let sum = record.normal.add(u);
        let direction = if sum.near_zero() {
            record.normal
        } else {
            sum
        };
        assert(direction@ == lambertian_dir(record.normal@, u@));
        proof {
            if !vnear_zero(sum@) {
                lemma_dir_dot_at_least_one(sum@);
            }
            let v = choose|v: (int, int, int)|
                vbounded(v, SCALE as int) && vdot(v, v) >= 1 && u@ == crate::vec3::vnormalize(v);
            assert(vbounded(v, SCALE as int) && vdot(v, v) >= 1 && direction@ == lambertian_dir(
                record.normal@,
                crate::vec3::vnormalize(v),
            ));
        }
        Some((self.albedo, Ray { origin: record.point, direction }))
    }
}

/// A vector with some component at least the near-zero epsilon has a self
/// dot product of at least one raw step.
proof fn lemma_dir_dot_at_least_one(a: (int, int, int))
    requires
        !vnear_zero(a),
    ensures
        vdot(a, a) >= 1,
{
    crate::fixed::lemma_fmul_self_nonneg(a.0);
    crate::fixed::lemma_fmul_self_nonneg(a.1);
    crate::fixed::lemma_fmul_self_nonneg(a.2);
    if sabs(a.0) >= crate::vec3::NEAR_EPS as int {
        lemma_square_over_eps(a.0);
    } else if sabs(a.1) >= crate::vec3::NEAR_EPS as int {
        lemma_square_over_eps(a.1);
    } else {
        lemma_square_over_eps(a.2);
    }
}

/// A component of magnitude at least the epsilon squares, on the grid, to at
/// least one raw step.
proof fn lemma_square_over_eps(c: int)
    requires
        sabs(c) >= crate::vec3::NEAR_EPS as int,
    ensures
        fmul(c, c) >= 1,
{
    crate::fixed::lemma_abs_mul(c, c);
    lemma_quot_abs(c * c, SCALE as int);
    assert(c * c >= 17179869184) by (nonlinear_arith)
        requires
            sabs(c) >= 131072,
            sabs(c) * sabs(c) == c * c,
    ;
    lemma_div_is_ordered(17179869184, c * c, SCALE as int);
}

impl Metal {
    /// Metallic scattering given the fuzz perturbation sample: scatters
    /// exactly when the perturbed reflection leaves the surface (its dot
    /// product with the normal is positive), and is otherwise absorbed.
    pub fn scatter_with(&self, ray: &Ray, record: &HitRecord, sample: Vec3) -> (r: Option<
        (Color, Ray),
    >)
        requires
            rec_plausible(*record),
            vbounded(ray.direction@, COORD_MAX as int),
            vbounded(sample@, SCALE as int),
            0 <= self.fuzz@ <= SCALE as int,
        ensures
            r is Some <==> vdot(
                metal_dir(ray.direction@, record.normal@, self.fuzz@, sample@),
                record.normal@,
            ) > 0,
            r matches Some((att, sc)) ==> att == self.albedo && sc.origin == record.point
                && sc.direction@ == metal_dir(ray.direction@, record.normal@, self.fuzz@, sample@)
                && vbounded(sc.direction@, 219906620522496),
    {
        proof {
            lemma_vdot_bound(ray.direction@, record.normal@, 8796093022208, 8589934592);
            lemma_vscale_bound(
                2 * vdot(ray.direction@, record.normal@),
                record.normal@,
                105553116266496,
                8589934592,
            );
        }
        let reflected = ray.direction.reflect(record.normal);
        assert(vbounded(reflected@, 219902325555200));
        proof {
            lemma_vscale_bound(self.fuzz@, sample@, 4294967296, 4294967296);
        }
        let direction = reflected.add(sample.scale(self.fuzz));
        assert(vbounded(direction@, 219906620522496));
        proof {
            lemma_vdot_bound(direction@, record.normal@, 219906620522496, 8589934592);
        }
        let d = direction.dot(record.normal);
        if Fixed::zero().lt(d) {
            Some((self.albedo, Ray { origin: record.point, direction }))
        } else {
            None
        }
    }

    /// Metallic scattering with the perturbation drawn from the process-wide
    /// random source: whenever it scatters, the direction is a perturbed
    /// reflection leaving the surface, and an absorbed ray is one whose
    /// perturbed reflection pointed into it.
    pub fn scatter(&self, ray: &Ray, record: &HitRecord) -> (r: Option<(Color, Ray)>)
        requires
            rec_plausible(*record),
            vbounded(ray.direction@, COORD_MAX as int),
            0 <= self.fuzz@ <= SCALE as int,
        ensures
            r matches Some((att, sc)) ==> att == self.albedo && sc.origin == record.point
                && vdot(sc.direction@, record.normal@) > 0 && vbounded(
                sc.direction@,
                219906620522496,
            ) && (exists|u: (int, int, int)|
                vbounded(u, SCALE as int) && sc.direction@ == metal_dir(
                    ray.direction@,
                    record.normal@,
                    self.fuzz@,
                    u,
                )),
            r is None ==> exists|u: (int, int, int)|
                vbounded(u, SCALE as int) && vdot(
                    #[trigger] metal_dir(ray.direction@, record.normal@, self.fuzz@, u),
                    record.normal@,
                ) <= 0,
    {
        let sample = Vec3::random_in_unit_sphere();
        let r = self.scatter_with(ray, record, sample);
        proof {
            if r is None {
                assert(vbounded(sample@, SCALE as int) && vdot(
                    metal_dir(ray.direction@, record.normal@, self.fuzz@, sample@),
                    record.normal@,
                ) <= 0);
            }
        }
        r
    }
}

impl Dielectric {
    /// Refractive scattering: always scatters, refracting when Snell's law
    /// and the Fresnel draw allow it and reflecting otherwise, with no
    /// attenuation (pure white).
    pub fn scatter(&self, ray: &Ray, record: &HitRecord) -> (r: Option<(Color, Ray)>)
        requires
            rec_plausible(*record),
            vbounded(ray.direction@, COORD_MAX as int),
            vdot(ray.direction@, ray.direction@) >= 1,
            (SCALE as int) / 4 <= self.ir@ <= 4 * (SCALE as int),
        ensures
            r is Some,
            r matches Some((att, sc)) ==> att@ == (SCALE as int, SCALE as int, SCALE as int)
                && sc.origin == record.point && vbounded(sc.direction@, 512 * (SCALE as int)) && {
                let unit = vnormalize(ray.direction@);
                let ratio = if record.front_face {
                    fdiv(SCALE as int, self.ir@)
                } else {
                    self.ir@
                };
                &&& sc.direction@ == crate::vec3::refract_dir(unit, record.normal@, ratio)
                    || sc.direction@ == vreflect(unit, record.normal@)
                &&& crate::vec3::refract_tir(unit, record.normal@, ratio) ==> sc.direction@
                    == vreflect(unit, record.normal@)
                &&& !crate::vec3::refract_tir(unit, record.normal@, ratio) && reflectance_spec(
                    crate::vec3::refract_cos(unit, record.normal@),
                    ratio,
                ) <= 0 ==> sc.direction@ == crate::vec3::refract_dir(unit, record.normal@, ratio)
                &&& reflectance_spec(crate::vec3::refract_cos(unit, record.normal@), ratio)
                    >= SCALE as int ==> sc.direction@ == vreflect(unit, record.normal@)
            },
    {
        let unit_direction = ray.direction.normalize();
        let ratio = if record.front_face {
            proof {
                lemma_quot_abs(18446744073709551616, self.ir@);
                lemma_div_pos_is_pos(18446744073709551616, self.ir@);
                lemma_div_is_ordered_by_denominator(18446744073709551616, 1073741824, self.ir@);
                lemma_div_is_ordered_by_denominator(18446744073709551616, self.ir@, 17179869184);
            }
            Fixed::one().div(self.ir)
        } else {
            self.ir
        };
        assert(0 < ratio@ <= 4 * (SCALE as int));
        let direction = match unit_direction.refract(record.normal, ratio) {
            Some(d) => d,
            None => {
                proof {
                    lemma_vdot_bound(unit_direction@, record.normal@, 8589934592, 8589934592);
                    lemma_vscale_bound(
                        2 * vdot(unit_direction@, record.normal@),
                        record.normal@,
                        103079215104,
                        8589934592,
                    );
                }
                unit_direction.reflect(record.normal)
            },
        };
        let white = Vec3(Fixed::one(), Fixed::one(), Fixed::one());
        Some((white, Ray { origin: record.point, direction }))
    }
}

/// Runtime check for `color_wf`: every channel within the unit interval.
fn color_in_range(c: &Color) -> (r: bool)
    ensures
        r == color_wf(c@),
{
    0 <= c.0.raw() && c.0.raw() <= SCALE && 0 <= c.1.raw() && c.1.raw() <= SCALE && 0 <= c.2.raw()
        && c.2.raw() <= SCALE
}

impl Material {
    /// Runtime check for `material_wf`: whether the parameters are within
    /// the renderer's ranges.
    pub fn is_well_formed(&self) -> (r: bool)
        ensures
            r == material_wf(*self),
    {
        match self {
            Material::Lambertian(l) => color_in_range(&l.albedo),
            Material::Metal(m) => color_in_range(&m.albedo) && 0 <= m.fuzz.raw() && m.fuzz.raw()
                <= SCALE,
            Material::Dielectric(d) => SCALE / 4 <= d.ir.raw() && d.ir.raw() <= 4 * SCALE,
        }
    }

    /// Scattering for whichever material this is: how the incoming ray
    /// bounces at the hit, or nothing when it is absorbed.
    pub fn scatter(&self, ray: &Ray, record: &HitRecord) -> (r: Option<(Color, Ray)>)
        requires
            material_wf(*self),
            rec_plausible(*record),
            vbounded(ray.direction@, COORD_MAX as int),
            vdot(ray.direction@, ray.direction@) >= 1,
        ensures
            r matches Some((att, sc)) ==> color_wf(att@) && sc.origin == record.point && vbounded(
                sc.direction@,
                219906620522496,
            ),
            self is Lambertian ==> r is Some,
            self is Dielectric ==> r is Some,
            self is Lambertian ==> (r matches Some((att, sc)) ==> vdot(
                sc.direction@,
                sc.direction@,
            ) >= 1),
            self is Metal ==> (r matches Some((att, sc)) ==> vdot(sc.direction@, record.normal@)
                > 0),
    {
        match self {
            Material::Lambertian(l) => l.scatter(ray, record),
            Material::Metal(m) => m.scatter(ray, record),
            Material::Dielectric(d) => d.scatter(ray, record),
        }
    }
}

} // verus!
