//! Vector algebra and fixed-point scalar behavior.

use raytracer::fixed::{Fixed, SCALE};
use raytracer::ray::Ray;
use raytracer::vec3::Vec3;

fn v(x: i32, y: i32, z: i32) -> Vec3 {
    Vec3(Fixed::from_int(x), Fixed::from_int(y), Fixed::from_int(z))
}

#[test]
fn vec_arithmetic() {
    let z = v(0, 0, 0);
    let v1 = v(32, -435, -9);
    let v2 = v(-2021, 3, 325);
    let v3 = v(-34, 12, -49);
    let two = Fixed::from_int(2);
    let three = Fixed::from_int(3);
    let six = Fixed::from_int(6);

    assert_eq!(v1.add(v2), v2.add(v1));
    assert_eq!(v1.add(v2).add(v3), v1.add(v2.add(v3)));
    assert_eq!(v1, z.add(v1));
    assert_eq!(v1.neg(), z.sub(v1));
    assert_eq!(v1.sub(v2), v2.neg().add(v1));
    assert_eq!(v1.neg().add(v2.neg()).add(v3.neg()), v1.add(v2).add(v3).neg());
    assert_eq!(v1.div(two).add(v1.div(two)), v1);
    assert_eq!(v1.div(six), v1.div(two).div(three));
}

#[test]
fn ray_at() {
    let p = v(1, 2, 3);
    let d = v(-4, -5, -6);
    let r = Ray { origin: p, direction: d };
    let t = Fixed::one();

    let expected = v(-3, -3, -3);
    let actual = r.at(t);

    assert_eq!(expected, actual);
}

#[test]
fn refract() {
    let n = v(0, 1, 0);
    let sqrt3 = Fixed::from_int(3).sqrt();
    let sqrt2 = Fixed::from_int(2).sqrt();
    let two = Fixed::from_int(2);
    let three = Fixed::from_int(3);
    let sqrt_half = Fixed::one().div(two).sqrt();
    let sqrt_third = Fixed::one().div(three).sqrt();
    // a draw of one never selects the Fresnel reflection, so the refraction
    // is deterministic
    let pass = Fixed::one();

    let deg45 = Vec3(Fixed::one(), Fixed::one().neg(), Fixed::zero()).normalize();
    let deg60 = Vec3(Fixed::one(), sqrt3.neg(), Fixed::zero()).normalize();
    let deg30 = Vec3(sqrt3, Fixed::one().neg(), Fixed::zero()).normalize();

    assert!(deg60.refract_with(n, sqrt2, pass).unwrap().normalize().near(deg45));
    assert!(deg45.refract_with(n, sqrt_half, pass).unwrap().normalize().near(deg60));
    assert!(deg30.refract_with(n, sqrt_third, pass).unwrap().normalize().near(deg60));
}

#[test]
fn refract_forced_outcomes() {
    let n = v(0, 1, 0);
    // head-on at unity ratio: Schlick reflectance is exactly zero, so
    // refraction is owed whatever the Fresnel draw
    let head_on = v(0, -1, 0);
    for _ in 0..50 {
        assert!(head_on.refract(n, Fixed::one()).is_some());
    }
    // grazing incidence: reflectance is exactly one, so refraction is always
    // refused
    let grazing = v(1, 0, 0);
    let half = Fixed::one().div(Fixed::from_int(2));
    for _ in 0..50 {
        assert!(grazing.refract(n, half).is_none());
    }
}

#[test]
fn refract_total_internal_reflection() {
    // leaving a dense medium at 45 degrees with ratio sqrt(2): the refracted
    // sine would be 1.41, so refraction must be refused whatever the draw
    let n = v(0, 1, 0);
    let sqrt2 = Fixed::from_int(2).sqrt();
    let deg45 = Vec3(Fixed::one(), Fixed::one().neg(), Fixed::zero()).normalize();
    assert!(deg45.refract_with(n, sqrt2.add(sqrt2), Fixed::one()).is_none());
    assert!(deg45.refract(n, sqrt2.add(sqrt2)).is_none());
}

#[test]
fn fixed_arithmetic_exact() {
    let three = Fixed::from_int(3);
    let four = Fixed::from_int(4);
    assert_eq!(three.mul(four), Fixed::from_int(12));
    assert_eq!(Fixed::from_int(12).div(four), three);
    assert_eq!(Fixed::from_int(2).sqrt().raw(), 6074000999);
    assert_eq!(Fixed::from_int(-7).neg(), Fixed::from_int(7));
}

#[test]
fn scale_associativity_within_tolerance() {
    // scaling twice agrees with scaling by the product up to rounding slack
    let k1 = Fixed::from_raw((3 * SCALE) / 10);
    let k2 = Fixed::from_raw(-(27 * SCALE) / 10);
    let a = Vec3(Fixed::from_raw(5 * SCALE / 4), Fixed::from_int(-3), Fixed::from_int(7));
    let lhs = a.scale(k2).scale(k1);
    let rhs = a.scale(k1.mul(k2));
    assert!((lhs.0.raw() - rhs.0.raw()).abs() <= 4);
    assert!((lhs.1.raw() - rhs.1.raw()).abs() <= 4);
    assert!((lhs.2.raw() - rhs.2.raw()).abs() <= 4);
}

#[test]
fn scale_identity_and_distributivity() {
    let a = Vec3(Fixed::from_raw(SCALE / 3), Fixed::from_int(-17), Fixed::from_raw(7));
    assert_eq!(a.scale(Fixed::one()), a);

    let b = Vec3(Fixed::from_raw(-SCALE / 7), Fixed::from_raw(12345), Fixed::from_int(2));
    let k = Fixed::from_raw((13 * SCALE) / 10);
    let lhs = a.add(b).scale(k);
    let rhs = a.scale(k).add(b.scale(k));
    assert!((lhs.0.raw() - rhs.0.raw()).abs() <= 2);
    assert!((lhs.1.raw() - rhs.1.raw()).abs() <= 2);
    assert!((lhs.2.raw() - rhs.2.raw()).abs() <= 2);
}

#[test]
fn magnitude_and_normalize() {
    let a = v(3, 4, 0);
    assert_eq!(a.magnitude(), Fixed::from_int(5));
    let u = a.normalize();
    assert_eq!(u.0.raw(), 2576980377);
    assert_eq!(u.1.raw(), 3435973836);
    assert_eq!(u.2.raw(), 0);
}

#[test]
fn dot_cross_and_reflect() {
    let a = v(1, 2, 3);
    let b = v(4, -5, 6);
    assert_eq!(a.dot(b), Fixed::from_int(4 - 10 + 18));
    assert_eq!(a.cross(b), v(2 * 6 - 3 * -5, 3 * 4 - 1 * 6, 1 * -5 - 2 * 4));
    // reflecting (1, -1, 0) about the y axis flips the y component
    let r = v(1, -1, 0).reflect(v(0, 1, 0));
    assert_eq!(r, v(1, 1, 0));
}

#[test]
fn near_zero_epsilon() {
    assert!(v(0, 0, 0).near_zero());
    assert!(Vec3(Fixed::from_raw(1), Fixed::from_raw(-1), Fixed::zero()).near_zero());
    assert!(!v(1, 0, 0).near_zero());
    assert!(v(5, 5, 5).near(v(5, 5, 5)));
    assert!(!v(5, 5, 5).near(v(5, 5, 6)));
}

#[test]
fn random_vector_ranges() {
    // the uniform draw must stay in its half-open range and actually vary
    let lo = Fixed::from_int(-2);
    let hi = Fixed::from_int(3);
    let mut seen_distinct = false;
    let mut first: Option<i128> = None;
    for _ in 0..100 {
        let r = Vec3::random(lo, hi);
        for c in [r.0, r.1, r.2] {
            assert!(lo.raw() <= c.raw() && c.raw() < hi.raw());
            match first {
                None => first = Some(c.raw()),
                Some(f) => {
                    if f != c.raw() {
                        seen_distinct = true;
                    }
                },
            }
        }
    }
    assert!(seen_distinct);
}

#[test]
fn random_in_unit_sphere_within_ball() {
    for _ in 0..100 {
        let r = Vec3::random_in_unit_sphere();
        assert!(r.dot(r).raw() <= SCALE);
        for c in [r.0, r.1, r.2] {
            assert!(c.raw().abs() <= SCALE);
        }
    }
}

#[test]
fn random_unit_vector_has_unit_length() {
    for _ in 0..100 {
        let r = Vec3::random_unit_vector();
        let d = r.dot(r).raw();
        assert!((d - SCALE).abs() <= 65536, "squared magnitude {} too far from one", d);
    }
}

#[test]
fn random_in_hemisphere_faces_normal() {
    let n = v(0, 0, 1);
    for _ in 0..100 {
        let r = Vec3::random_in_hemisphere(n);
        assert!(r.dot(n).raw() >= 0);
        assert!(r.dot(r).raw() <= SCALE);
    }
}

#[test]
fn random_in_unit_disk_is_flat() {
    for _ in 0..100 {
        let r = Vec3::random_in_unit_disk();
        assert_eq!(r.2, Fixed::zero());
        assert!(r.dot(r).raw() <= SCALE);
    }
}
