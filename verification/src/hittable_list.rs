//! The scene: an ordered collection of primitives, queried for the nearest
//! intersection.
//!
//! The pass keeps a shrinking upper bound `closest_so_far`, so each member
//! is only tested against the range still in front of the best hit; the
//! fold [`list_hit_upto`] is the exact meaning of that loop.

use crate::fixed::{mag, COORD_LIMIT};
use crate::hittable::{
    hittable_hit_spec, hittable_wf, lemma_hittable_hit_in_interval, lemma_hittable_hit_narrow,
    HitRecord, Hittable,
};
use crate::interval::Interval;
use crate::ray::{ray_wf, Ray, T_LIMIT};
use crate::sphere::lemma_sphere_record_geometry;
use crate::vector::{coords_within, dot_spec};
use vstd::prelude::*;

verus! {

pub struct HittableList {
    pub objects: Vec<Hittable>,
}

/// Every member satisfies its geometric bounds.
pub open spec fn list_wf(objs: Seq<Hittable>) -> bool {
    forall|i: int| 0 <= i < objs.len() ==> hittable_wf(#[trigger] objs[i])
}

/// The nearest-hit fold over the first `n` members: each member is tested
/// against the range that ends at the best parameter found so far.
pub open spec fn list_hit_upto(
    objs: Seq<Hittable>,
    r: Ray,
    tmin: int,
    tmax: int,
    n: int,
) -> Option<HitRecord>
    decreases n,
{
    if n <= 0 {
        None
    } else {
        let prev = list_hit_upto(objs, r, tmin, tmax, n - 1);
        let bound = match prev {
            Some(q) => q.t as int,
            None => tmax,
        };
        match hittable_hit_spec(objs[n - 1], r, tmin, bound) {
            Some(q) => Some(q),
            None => prev,
        }
    }
}

/// What `HittableList::hit` reports: the globally nearest hit among all
/// members, ties resolved in favor of the earliest member.
pub open spec fn list_hit_spec(objs: Seq<Hittable>, r: Ray, tmin: int, tmax: int) -> Option<
    HitRecord,
> {
    list_hit_upto(objs, r, tmin, tmax, objs.len() as int)
}

impl HittableList {
    pub fn new() -> (r: Self)
        ensures
            r.objects@ =~= Seq::<Hittable>::empty(),
    {
        HittableList { objects: Vec::new() }
    }

    pub fn add(&mut self, object: Hittable)
        ensures
            final(self).objects@ =~= old(self).objects@.push(object),
    {
        self.objects.push(object);
    }

    /// Intersect the ray with every member; on a hit, `rec` holds the
    /// globally nearest intersection's record.
    pub fn hit(&self, r: &Ray, interval: Interval, rec: &mut HitRecord) -> (is_hit: bool)
        requires
            list_wf(self.objects@),
            ray_wf(*r),
            -T_LIMIT <= interval.min,
            interval.max <= T_LIMIT,
        ensures
            is_hit == list_hit_spec(
                self.objects@,
                *r,
                interval.min as int,
                interval.max as int,
            ).is_some(),
            is_hit ==> list_hit_spec(self.objects@, *r, interval.min as int, interval.max as int)
                == Some(*final(rec)),
            !is_hit ==> *final(rec) == *old(rec),
    {
        let ghost objs = self.objects@;
        let ghost tmin = interval.min as int;
        let ghost tmax = interval.max as int;
        let mut temp_rec = HitRecord::new();
        let mut hit_anything = false;
        let mut closest_so_far = interval.max;
        let mut idx: usize = 0;
        while idx < self.objects.len()
            invariant
                objs == self.objects@,
                tmin == interval.min as int,
                tmax == interval.max as int,
                list_wf(objs),
                ray_wf(*r),
                -T_LIMIT <= interval.min,
                interval.max <= T_LIMIT,
                0 <= idx <= objs.len(),
                hit_anything == list_hit_upto(objs, *r, tmin, tmax, idx as int).is_some(),
                hit_anything ==> list_hit_upto(objs, *r, tmin, tmax, idx as int) == Some(temp_rec),
                closest_so_far == (if hit_anything {
                    temp_rec.t as int
                } else {
                    tmax
                }),
                closest_so_far <= interval.max,
            decreases objs.len() - idx,
        {
            let obj = self.objects[idx];
            let narrowed = Interval::new(interval.min, closest_so_far);
            let found = obj.hit(r, narrowed, &mut temp_rec);
            proof {
                lemma_hittable_hit_in_interval(obj, *r, tmin, closest_so_far as int);
            }
            if found {
                hit_anything = true;
                closest_so_far = temp_rec.t;
            }
            idx = idx + 1;
        }
        if hit_anything {
            *rec = temp_rec;
        }
        hit_anything
    }
}

/// Law: the scene reports the globally nearest intersection.  Where the
/// scene misses, every member misses; where it hits, the record is one
/// member's own hit over the full interval, and no member hits strictly
/// nearer.
pub proof fn lemma_list_hit_nearest(objs: Seq<Hittable>, r: Ray, tmin: int, tmax: int)
    requires
        list_wf(objs),
        ray_wf(r),
    ensures
        !list_hit_spec(objs, r, tmin, tmax).is_some() ==> forall|i: int|
            0 <= i < objs.len() ==> !(#[trigger] hittable_hit_spec(objs[i], r, tmin, tmax)).is_some(),
        list_hit_spec(objs, r, tmin, tmax).is_some() ==> {
            let rec = list_hit_spec(objs, r, tmin, tmax).unwrap();
            &&& tmin < rec.t < tmax
            &&& exists|i: int|
                0 <= i < objs.len() && #[trigger] hittable_hit_spec(objs[i], r, tmin, tmax)
                    == Some(rec)
            &&& forall|i: int|
                0 <= i < objs.len() && (#[trigger] hittable_hit_spec(
                    objs[i],
                    r,
                    tmin,
                    tmax,
                )).is_some() ==> hittable_hit_spec(objs[i], r, tmin, tmax).unwrap().t >= rec.t
        },
{
    lemma_list_hit_upto_nearest(objs, r, tmin, tmax, objs.len() as int);
}

/// The geometry of the scene's reported hit: the hit point moves away from
/// the ray origin by at most 256 raw units per unit of direction, and the
/// oriented normal stays within the dot-product layer's coordinate bound.
pub proof fn lemma_list_hit_geometry(objs: Seq<Hittable>, r: Ray, tmin: int, tmax: int)
    requires
        list_wf(objs),
        ray_wf(r),
        0 <= tmin,
        tmax <= T_LIMIT as int,
        list_hit_spec(objs, r, tmin, tmax).is_some(),
    ensures
        ({
            let rec = list_hit_spec(objs, r, tmin, tmax).unwrap();
            &&& mag(rec.p.x as int) <= mag(r.origin.x as int) + 256 * mag(r.direction.x as int)
            &&& mag(rec.p.y as int) <= mag(r.origin.y as int) + 256 * mag(r.direction.y as int)
            &&& mag(rec.p.z as int) <= mag(r.origin.z as int) + 256 * mag(r.direction.z as int)
            &&& coords_within(rec.normal, COORD_LIMIT as int)
        }),
{
    lemma_list_hit_nearest(objs, r, tmin, tmax);
    let rec = list_hit_spec(objs, r, tmin, tmax).unwrap();
    let i = choose|i: int|
        0 <= i < objs.len() && #[trigger] hittable_hit_spec(objs[i], r, tmin, tmax) == Some(rec);
    match objs[i] {
        Hittable::Sphere(s) => lemma_sphere_record_geometry(s, r, tmin, tmax),
    }
}

/// Law: the scene's reported normal is oriented against the incoming ray:
/// its dot product with the ray direction is never positive.
pub proof fn lemma_list_hit_normal_orientation(objs: Seq<Hittable>, r: Ray, tmin: int, tmax: int)
    requires
        list_wf(objs),
        ray_wf(r),
        0 <= tmin,
        tmax <= T_LIMIT as int,
        list_hit_spec(objs, r, tmin, tmax).is_some(),
    ensures
        dot_spec(r.direction, list_hit_spec(objs, r, tmin, tmax).unwrap().normal) <= 0,
{
    lemma_list_hit_nearest(objs, r, tmin, tmax);
    let rec = list_hit_spec(objs, r, tmin, tmax).unwrap();
    let i = choose|i: int|
        0 <= i < objs.len() && #[trigger] hittable_hit_spec(objs[i], r, tmin, tmax) == Some(rec);
    match objs[i] {
        Hittable::Sphere(s) => crate::sphere::lemma_sphere_normal_orientation(s, r, tmin, tmax),
    }
}

/// Law: the nearest reported intersection does not depend on the order in
/// which the objects were inserted.  Two scenes holding the same objects
/// in any order agree on whether the ray hits at all and on the hit
/// parameter; insertion order matters only to which of two exactly tied
/// records is handed back.
pub proof fn lemma_list_hit_order_independent(
    a: Seq<Hittable>,
    b: Seq<Hittable>,
    r: Ray,
    tmin: int,
    tmax: int,
)
    requires
        list_wf(a),
        ray_wf(r),
        a.to_multiset() == b.to_multiset(),
    ensures
        list_hit_spec(a, r, tmin, tmax).is_some() == list_hit_spec(b, r, tmin, tmax).is_some(),
        list_hit_spec(a, r, tmin, tmax).is_some() ==> list_hit_spec(a, r, tmin, tmax).unwrap().t
            == list_hit_spec(b, r, tmin, tmax).unwrap().t,
{
    broadcast use vstd::seq_lib::group_seq_properties;

    assert forall|i: int| 0 <= i < b.len() implies hittable_wf(#[trigger] b[i]) by {
        assert(b.to_multiset().contains(b[i]));
        assert(a.contains(b[i]));
        let j = choose|j: int| 0 <= j < a.len() && a[j] == b[i];
        assert(hittable_wf(a[j]));
    }
    lemma_list_hit_nearest(a, r, tmin, tmax);
    lemma_list_hit_nearest(b, r, tmin, tmax);
    lemma_list_hit_one_way(a, b, r, tmin, tmax);
    lemma_list_hit_one_way(b, a, r, tmin, tmax);
}

/// One direction of the order-independence law: where the first scene
/// hits, the second hits too, at a parameter no larger.
proof fn lemma_list_hit_one_way(a: Seq<Hittable>, b: Seq<Hittable>, r: Ray, tmin: int, tmax: int)
    requires
        list_wf(a),
        list_wf(b),
        ray_wf(r),
        a.to_multiset() == b.to_multiset(),
    ensures
        list_hit_spec(a, r, tmin, tmax).is_some() ==> list_hit_spec(b, r, tmin, tmax).is_some()
            && list_hit_spec(b, r, tmin, tmax).unwrap().t <= list_hit_spec(
            a,
            r,
            tmin,
            tmax,
        ).unwrap().t,
{
    broadcast use vstd::seq_lib::group_seq_properties;

    lemma_list_hit_nearest(a, r, tmin, tmax);
    lemma_list_hit_nearest(b, r, tmin, tmax);
    if list_hit_spec(a, r, tmin, tmax).is_some() {
        let rec = list_hit_spec(a, r, tmin, tmax).unwrap();
        let i = choose|i: int|
            0 <= i < a.len() && #[trigger] hittable_hit_spec(a[i], r, tmin, tmax) == Some(rec);
        assert(a.to_multiset().contains(a[i]));
        assert(b.contains(a[i]));
        let j = choose|j: int| 0 <= j < b.len() && b[j] == a[i];
        assert(hittable_hit_spec(b[j], r, tmin, tmax).is_some());
    }
}

proof fn lemma_list_hit_upto_nearest(objs: Seq<Hittable>, r: Ray, tmin: int, tmax: int, n: int)
    requires
        list_wf(objs),
        ray_wf(r),
        0 <= n <= objs.len(),
    ensures
        !list_hit_upto(objs, r, tmin, tmax, n).is_some() ==> forall|i: int|
            0 <= i < n ==> !(#[trigger] hittable_hit_spec(objs[i], r, tmin, tmax)).is_some(),
        list_hit_upto(objs, r, tmin, tmax, n).is_some() ==> {
            let rec = list_hit_upto(objs, r, tmin, tmax, n).unwrap();
            &&& tmin < rec.t < tmax
            &&& exists|i: int|
                0 <= i < n && #[trigger] hittable_hit_spec(objs[i], r, tmin, tmax) == Some(rec)
            &&& forall|i: int|
                0 <= i < n && (#[trigger] hittable_hit_spec(objs[i], r, tmin, tmax)).is_some()
                    ==> hittable_hit_spec(objs[i], r, tmin, tmax).unwrap().t >= rec.t
        },
    decreases n,
{
    if n > 0 {
        lemma_list_hit_upto_nearest(objs, r, tmin, tmax, n - 1);
        let prev = list_hit_upto(objs, r, tmin, tmax, n - 1);
        let bound = match prev {
            Some(q) => q.t as int,
            None => tmax,
        };
        let here = hittable_hit_spec(objs[n - 1], r, tmin, bound);
        lemma_hittable_hit_in_interval(objs[n - 1], r, tmin, bound);
        lemma_hittable_hit_narrow(objs[n - 1], r, tmin, bound, tmax);
        if here.is_some() {
            assert(hittable_hit_spec(objs[n - 1], r, tmin, tmax) == here);
        }
    }
}

} // verus!
