//! The intersection protocol: surface records and the closed set of
//! primitives a ray can hit.

use crate::fixed::COORD_LIMIT;
use crate::interval::Interval;
use crate::ray::{ray_wf, Ray, T_LIMIT};
use crate::sphere::{sphere_hit_spec, sphere_wf, Sphere};
use crate::vector::{coords_within, dot_spec, vneg_spec, Point3, Vector3};
use vstd::prelude::*;

verus! {

/// What a successful intersection reports: the hit point, the unit-ish
/// surface normal oriented against the incoming ray, the ray parameter,
/// and whether the ray arrived from outside the surface.
#[derive(Clone, Copy, Debug, PartialEq, Eq, Structural)]
pub struct HitRecord {
    pub p: Point3,
    pub normal: Vector3,
    pub t: i64,
    pub front_face: bool,
}

impl HitRecord {
    pub fn new() -> (r: Self)
        ensures
            r.p == (Point3 { x: 0, y: 0, z: 0 }),
            r.normal == (Vector3 { x: 0, y: 0, z: 0 }),
            r.t == 0,
            !r.front_face,
    {
        HitRecord {
            p: Point3 { x: 0, y: 0, z: 0 },
            normal: Vector3 { x: 0, y: 0, z: 0 },
            t: 0,
            front_face: false,
        }
    }

    /// Orient `outward_normal` against the ray: `front_face` records whether
    /// the geometric outward normal already opposed the ray's direction, and
    /// `normal` is flipped where it did not.
    pub fn set_face_normal(&mut self, r: &Ray, outward_normal: &Vector3)
        requires
            coords_within(r.direction, COORD_LIMIT as int),
            coords_within(*outward_normal, COORD_LIMIT as int),
        ensures
            final(self).p == old(self).p,
            final(self).t == old(self).t,
            final(self).front_face == (dot_spec(r.direction, *outward_normal) < 0),
            final(self).normal == (if dot_spec(r.direction, *outward_normal) < 0 {
                *outward_normal
            } else {
                vneg_spec(*outward_normal)
            }),
    {
        self.front_face = Vector3::dot(r.direction(), outward_normal) < 0;
        self.normal = if self.front_face {
            *outward_normal
        } else {
            outward_normal.neg()
        };
    }
}

/// The closed set of primitives a ray can be tested against; dispatch is a
/// `match`, so each variant's exact contract carries through.
#[derive(Clone, Copy, Debug)]
pub enum Hittable {
    Sphere(Sphere),
}

/// The primitive's geometric bounds hold.
pub open spec fn hittable_wf(h: Hittable) -> bool {
    match h {
        Hittable::Sphere(s) => sphere_wf(s),
    }
}

/// What `hit` reports for this primitive on the open parameter range
/// `(tmin, tmax)`.
pub open spec fn hittable_hit_spec(h: Hittable, r: Ray, tmin: int, tmax: int) -> Option<
    HitRecord,
> {
    match h {
        Hittable::Sphere(s) => sphere_hit_spec(s, r, tmin, tmax),
    }
}

/// Narrowing the far end of a query interval only discards hits at or
/// beyond the new end (see the sphere-level statement).
pub proof fn lemma_hittable_hit_narrow(h: Hittable, r: Ray, tmin: int, mid: int, tmax: int)
    requires
        hittable_wf(h),
        ray_wf(r),
        mid <= tmax,
    ensures
        hittable_hit_spec(h, r, tmin, mid).is_some() ==> hittable_hit_spec(h, r, tmin, tmax)
            == hittable_hit_spec(h, r, tmin, mid),
        !hittable_hit_spec(h, r, tmin, mid).is_some() && hittable_hit_spec(
            h,
            r,
            tmin,
            tmax,
        ).is_some() ==> hittable_hit_spec(h, r, tmin, tmax).unwrap().t >= mid,
{
    match h {
        Hittable::Sphere(s) => crate::sphere::lemma_sphere_hit_narrow(s, r, tmin, mid, tmax),
    }
}

/// A successful hit reports a parameter strictly inside the query interval.
pub proof fn lemma_hittable_hit_in_interval(h: Hittable, r: Ray, tmin: int, tmax: int)
    requires
        hittable_wf(h),
        ray_wf(r),
    ensures
        hittable_hit_spec(h, r, tmin, tmax).is_some() ==> tmin < hittable_hit_spec(
            h,
            r,
            tmin,
            tmax,
        ).unwrap().t < tmax,
{
    match h {
        Hittable::Sphere(s) => crate::sphere::lemma_sphere_hit_in_interval(s, r, tmin, tmax),
    }
}

impl Hittable {
    /// Intersect the ray with this primitive; on a hit, `rec` holds the
    /// nearest intersection's record.
    pub fn hit(&self, r: &Ray, interval: Interval, rec: &mut HitRecord) -> (is_hit: bool)
        requires
            hittable_wf(*self),
            ray_wf(*r),
            -T_LIMIT <= interval.min,
            interval.max <= T_LIMIT,
        ensures
            is_hit == hittable_hit_spec(*self, *r, interval.min as int, interval.max as int).is_some(),
            is_hit ==> hittable_hit_spec(*self, *r, interval.min as int, interval.max as int) == Some(
                *final(rec),
            ),
            !is_hit ==> *final(rec) == *old(rec),
    {
        match self {
            Hittable::Sphere(s) => s.hit(r, interval, rec),
        }
    }
}

} // verus!
