//! The scene aggregate: a list of primitives whose hit is the nearest hit
//! among its members.

use crate::fixed::Fixed;
use crate::hittable::{
    hit_record_matches, hittable_hit_t, hittable_wf, ray_bounded, HitRecord, Hittable, T_MAX,
};
use crate::ray::Ray;
use crate::vec3::vdot;
use vstd::prelude::*;

verus! {

/// A scene: an ordered collection of primitives. Insertion order does not
/// affect results, since a query returns the nearest hit, not the first.
#[derive(Debug)]
pub struct HittableList {
    pub objects: Vec<Hittable>,
}

/// Every member is within world bounds.
pub open spec fn list_wf(l: HittableList) -> bool {
    forall|i: int| 0 <= i < l.objects@.len() ==> hittable_wf(#[trigger] l.objects@[i])
}

impl HittableList {
    /// An empty scene.
    pub fn new() -> (r: HittableList)
        ensures
            r.objects@.len() == 0,
            list_wf(r),
    {
        HittableList { objects: Vec::new() }
    }

    /// Adds a primitive to the scene.
    pub fn add(&mut self, object: Hittable)
        requires
            hittable_wf(object),
            list_wf(*old(self)),
        ensures
            list_wf(*final(self)),
            final(self).objects@ == old(self).objects@.push(object),
    {
        self.objects.push(object);
    }

    /// Runtime check for `list_wf`: whether every member is within world
    /// bounds.
    pub fn is_well_formed(&self) -> (r: bool)
        ensures
            r == list_wf(*self),
    {
        let n = self.objects.len();
        let mut idx: usize = 0;
        while idx < n
            invariant
                n == self.objects@.len(),
                idx <= n,
                forall|j: int| 0 <= j < idx ==> hittable_wf(#[trigger] self.objects@[j]),
            decreases n - idx,
        {
            let ok = match &self.objects[idx] {
                Hittable::Sphere(s) => s.is_well_formed(),
            };
            if !ok {
                return false;
            }
            idx = idx + 1;
        }
        true
    }

    /// Intersects a ray with the whole scene: nothing when no member is hit
    /// within the interval, and otherwise the globally nearest member hit.
    /// Each accepted hit narrows the search interval, which is an
    /// optimization the postcondition shows to be harmless.
    pub fn hit(&self, ray: &Ray, t_min: Fixed, t_max: Fixed) -> (r: Option<HitRecord>)
        requires
            list_wf(*self),
            ray_bounded(*ray),
            vdot(ray.direction@, ray.direction@) >= 1,
            0 <= t_min@ <= t_max@ <= T_MAX as int,
        ensures
            r is None <==> (forall|i: int|
                0 <= i < self.objects@.len() ==> hittable_hit_t(
                    #[trigger] self.objects@[i],
                    *ray,
                    t_min@,
                    t_max@,
                ) is None),
            r matches Some(rec) ==> {
                &&& t_min@ <= rec.t@ <= t_max@
                &&& exists|i: int|
                    0 <= i < self.objects@.len() && hittable_hit_t(
                        #[trigger] self.objects@[i],
                        *ray,
                        t_min@,
                        t_max@,
                    ) == Some(rec.t@) && hit_record_matches(self.objects@[i], *ray, rec)
                &&& forall|i: int|
                    0 <= i < self.objects@.len() ==> (hittable_hit_t(
                        #[trigger] self.objects@[i],
                        *ray,
                        t_min@,
                        t_max@,
                    ) matches Some(t) ==> rec.t@ <= t)
            },
    {
        let mut t_curr = t_max;
        let mut res: Option<HitRecord> = None;
        let n = self.objects.len();
        let mut idx: usize = 0;
        while idx < n
            invariant
                n == self.objects@.len(),
                idx <= n,
                list_wf(*self),
                ray_bounded(*ray),
                vdot(ray.direction@, ray.direction@) >= 1,
                0 <= t_min@ <= t_curr@ <= t_max@ <= T_MAX as int,
                res is None ==> t_curr == t_max,
                res is None ==> (forall|j: int|
                    0 <= j < idx ==> hittable_hit_t(
                        #[trigger] self.objects@[j],
                        *ray,
                        t_min@,
                        t_max@,
                    ) is None),
                res matches Some(rec) ==> {
                    &&& rec.t@ == t_curr@
                    &&& exists|j: int|
                        0 <= j < idx && hittable_hit_t(
                            #[trigger] self.objects@[j],
                            *ray,
                            t_min@,
                            t_max@,
                        ) == Some(rec.t@) && hit_record_matches(self.objects@[j], *ray, rec)
                    &&& forall|j: int|
                        0 <= j < idx ==> (hittable_hit_t(
                            #[trigger] self.objects@[j],
                            *ray,
                            t_min@,
                            t_max@,
                        ) matches Some(t) ==> rec.t@ <= t)
                },
            decreases n - idx,
        {
            let obj = &self.objects[idx];
            proof {
                lemma_hittable_hit_narrow(*obj, *ray, t_min@, t_curr@, t_max@);
            }
            match obj.hit(ray, t_min, t_curr) {
                Some(tmp) => {
                    t_curr = tmp.t;
                    res = Some(tmp);
                },
                None => {},
            }
            idx = idx + 1;
        }
        res
    }
}

/// Lifts the interval-narrowing property to the primitive sum type.
proof fn lemma_hittable_hit_narrow(h: Hittable, r: Ray, t_min: int, tc: int, t_max: int)
    requires
        t_min <= tc <= t_max,
        vdot(r.direction@, r.direction@) >= 1,
    ensures
        hittable_hit_t(h, r, t_min, tc) matches Some(v) ==> hittable_hit_t(h, r, t_min, t_max)
            == Some(v),
        hittable_hit_t(h, r, t_min, tc) is None ==> (hittable_hit_t(
            h,
            r,
            t_min,
            t_max,
        ) matches Some(v) ==> v > tc),
{
    match h {
        Hittable::Sphere(s) => crate::sphere::lemma_sphere_hit_narrow(s, r, t_min, tc, t_max),
    }
}

} // verus!
