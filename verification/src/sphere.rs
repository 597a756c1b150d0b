//! Spheres and the ray-sphere intersection, the one nontrivial geometric
//! computation of the renderer.
//!
//! The quadratic is solved in its half-b form: with `oc = center - origin`,
//! `a = |d|^2`, `h = d . oc` and `c = |oc|^2 - radius^2`, the candidate
//! parameters are `(h -+ sqrt(h^2 - a c)) / a`.  A root is accepted only
//! strictly inside the query interval, nearest first; the spec functions
//! below give each of these quantities its exact fixed-point value.

use crate::fixed::{
    fx_div, fx_div_spec, fx_mul, fx_mul_spec, fx_sqrt, fx_sqrt_spec, lemma_fx_mul_bound,
    lemma_fx_square_nonneg, lemma_sqrt_floor, lemma_tdiv_bound, lemma_tdiv_mono, mag, sqrt_floor,
    COORD_LIMIT, SCALE,
};
use crate::hittable::HitRecord;
use crate::interval::Interval;
use crate::ray::{at_spec, ray_wf, Ray, DIR_LIMIT, ORIGIN_LIMIT, T_LIMIT};
use crate::vector::{
    coords_within, dot_spec, lemma_dot_bound, lemma_lensq_bounds, lensq_spec, vneg_spec, Point3,
    Vector3,
};
use vstd::prelude::*;

verus! {

/// Largest coordinate magnitude a sphere center may have.
pub const CENTER_LIMIT: i64 = 0x800_0000;

/// Smallest radius accepted: a sixteenth of a unit.  Dividing by anything
/// smaller would blow the normal's coordinates past the algebra's bounds.
pub const RADIUS_MIN: i64 = 4096;

#[derive(Clone, Copy, Debug, PartialEq, Eq, Structural)]
pub struct Sphere {
    pub center: Point3,
    pub radius: i64,
}

/// The geometric bounds every scene sphere satisfies.
pub open spec fn sphere_wf(s: Sphere) -> bool {
    &&& coords_within(s.center, CENTER_LIMIT as int)
    &&& RADIUS_MIN <= s.radius <= CENTER_LIMIT
}

impl Sphere {
    pub fn new(point3: Point3, radius: i64) -> (s: Self)
        requires
            coords_within(point3, CENTER_LIMIT as int),
            RADIUS_MIN <= radius <= CENTER_LIMIT,
        ensures
            s.center == point3,
            s.radius == radius,
            sphere_wf(s),
    {
        Sphere { center: point3, radius }
    }
}

/// The vector from the ray origin to the sphere center.
pub open spec fn oc_spec(s: Sphere, r: Ray) -> Vector3 {
    Vector3 {
        x: (s.center.x - r.origin.x) as i64,
        y: (s.center.y - r.origin.y) as i64,
        z: (s.center.z - r.origin.z) as i64,
    }
}

/// The quadratic's leading coefficient `|d|^2`.
pub open spec fn quad_a(s: Sphere, r: Ray) -> int {
    lensq_spec(r.direction)
}

/// The quadratic's half linear coefficient `d . oc`.
pub open spec fn quad_h(s: Sphere, r: Ray) -> int {
    dot_spec(r.direction, oc_spec(s, r))
}

/// The quadratic's constant coefficient `|oc|^2 - radius^2`.
pub open spec fn quad_c(s: Sphere, r: Ray) -> int {
    lensq_spec(oc_spec(s, r)) - fx_mul_spec(s.radius as int, s.radius as int)
}

/// The discriminant `h^2 - a c`; negative exactly when the ray's line
/// misses the sphere.
pub open spec fn discriminant_spec(s: Sphere, r: Ray) -> int {
    fx_mul_spec(quad_h(s, r), quad_h(s, r)) - fx_mul_spec(quad_a(s, r), quad_c(s, r))
}

/// The fixed-point square root of the discriminant.
pub open spec fn sqrt_disc_spec(s: Sphere, r: Ray) -> int {
    fx_sqrt_spec(discriminant_spec(s, r))
}

/// The smaller candidate parameter `(h - sqrt(disc)) / a`.
pub open spec fn root_near_spec(s: Sphere, r: Ray) -> int {
    fx_div_spec(quad_h(s, r) - sqrt_disc_spec(s, r), quad_a(s, r))
}

/// The larger candidate parameter `(h + sqrt(disc)) / a`.
pub open spec fn root_far_spec(s: Sphere, r: Ray) -> int {
    fx_div_spec(quad_h(s, r) + sqrt_disc_spec(s, r), quad_a(s, r))
}

/// The outward geometric normal at parameter `t`: `(p - center) / radius`.
/// In real arithmetic this has length one, since the hit point lies on the
/// sphere and the radius divides out; in fixed point its length misses one
/// only by the rounding accumulated through the accepted root, which the
/// scenario tests exercise on concrete hits.
pub open spec fn outward_normal_spec(s: Sphere, r: Ray, t: int) -> Vector3 {
    let p = at_spec(r, t);
    Vector3 {
        x: fx_div_spec(p.x - s.center.x, s.radius as int) as i64,
        y: fx_div_spec(p.y - s.center.y, s.radius as int) as i64,
        z: fx_div_spec(p.z - s.center.z, s.radius as int) as i64,
    }
}

/// The record an accepted root `t` produces, normal oriented against the ray.
pub open spec fn record_at_spec(s: Sphere, r: Ray, t: int) -> HitRecord {
    let outward = outward_normal_spec(s, r, t);
    let ff = dot_spec(r.direction, outward) < 0;
    HitRecord {
        p: at_spec(r, t),
        normal: if ff {
            outward
        } else {
            vneg_spec(outward)
        },
        t: t as i64,
        front_face: ff,
    }
}

/// What `Sphere::hit` reports on the open interval `(tmin, tmax)`: the
/// nearest of the two roots that lies strictly inside it, if any.
pub open spec fn sphere_hit_spec(s: Sphere, r: Ray, tmin: int, tmax: int) -> Option<HitRecord> {
    if discriminant_spec(s, r) < 0 {
        None
    } else if tmin < root_near_spec(s, r) < tmax {
        Some(record_at_spec(s, r, root_near_spec(s, r)))
    } else if tmin < root_far_spec(s, r) < tmax {
        Some(record_at_spec(s, r, root_far_spec(s, r)))
    } else {
        None
    }
}

/// Bounds on the quadratic's coefficients for a well-formed sphere and ray.
pub proof fn lemma_quad_bounds(s: Sphere, r: Ray)
    requires
        sphere_wf(s),
        ray_wf(r),
    ensures
        coords_within(oc_spec(s, r), 0x2_0000_0000),
        1 <= quad_a(s, r) <= 0x300_0000,
        -0x60_0000_0000 <= quad_h(s, r) <= 0x60_0000_0000,
        -0x40_0000_0000 <= quad_c(s, r) <= 0xC_0000_0000_0000,
        -0x4800_0000_0000_0000 <= discriminant_spec(s, r) <= 0x4800_0000_0000_0000,
{
    lemma_lensq_bounds(r.direction, DIR_LIMIT as int);
    lemma_lensq_bounds(oc_spec(s, r), 0x2_0000_0000);
    lemma_dot_bound(r.direction, oc_spec(s, r), DIR_LIMIT as int, 0x2_0000_0000);
    lemma_fx_mul_bound(s.radius as int, s.radius as int, CENTER_LIMIT as int, CENTER_LIMIT as int);
    lemma_fx_square_nonneg(s.radius as int);
    lemma_fx_mul_bound(quad_h(s, r), quad_h(s, r), 0x60_0000_0000, 0x60_0000_0000);
    lemma_fx_mul_bound(quad_a(s, r), quad_c(s, r), 0x300_0000, 0xC_0000_0000_0000);
}

/// The discriminant's square root stays below `2^40`.
pub proof fn lemma_sqrt_disc_bound(s: Sphere, r: Ray)
    requires
        sphere_wf(s),
        ray_wf(r),
        discriminant_spec(s, r) >= 0,
    ensures
        0 <= sqrt_disc_spec(s, r) < 0x100_0000_0000,
{
    lemma_quad_bounds(s, r);
    let d = discriminant_spec(s, r);
    assert(d * (SCALE as int) <= 0x4800_0000_0000_0000int * (SCALE as int)) by (nonlinear_arith)
        requires
            0 <= d <= 0x4800_0000_0000_0000,
    ;
    assert(d * (SCALE as int) >= 0) by (nonlinear_arith)
        requires
            d >= 0,
    ;
    lemma_sqrt_floor(d * (SCALE as int));
    let q = sqrt_floor(d * (SCALE as int));
    assert(q < 0x100_0000_0000) by (nonlinear_arith)
        requires
            q >= 0,
            q * q <= d * (SCALE as int),
            d * (SCALE as int) <= 0x4800_0000_0000_0000int * 65536,
    ;
}

/// Both candidate roots fit comfortably in `i64`, and the near root never
/// exceeds the far one.
pub proof fn lemma_root_bounds(s: Sphere, r: Ray)
    requires
        sphere_wf(s),
        ray_wf(r),
        discriminant_spec(s, r) >= 0,
    ensures
        -0x4000_0000_0000_0000 <= root_near_spec(s, r) <= 0x4000_0000_0000_0000,
        -0x4000_0000_0000_0000 <= root_far_spec(s, r) <= 0x4000_0000_0000_0000,
        root_near_spec(s, r) <= root_far_spec(s, r),
{
    lemma_quad_bounds(s, r);
    lemma_sqrt_disc_bound(s, r);
    let h = quad_h(s, r);
    let q = sqrt_disc_spec(s, r);
    let a = quad_a(s, r);
    assert(-0x200_0000_0000 <= h - q <= 0x200_0000_0000);
    assert(-0x200_0000_0000 <= h + q <= 0x200_0000_0000);
    assert(-0x200_0000_0000_0000_0000 <= (h - q) * (SCALE as int) <= 0x200_0000_0000_0000_0000)
        by (nonlinear_arith)
        requires
            -0x200_0000_0000 <= h - q <= 0x200_0000_0000,
    ;
    assert(-0x200_0000_0000_0000_0000 <= (h + q) * (SCALE as int) <= 0x200_0000_0000_0000_0000)
        by (nonlinear_arith)
        requires
            -0x200_0000_0000 <= h + q <= 0x200_0000_0000,
    ;
    lemma_tdiv_bound((h - q) * (SCALE as int), 0x200_0000_0000_0000_0000, a);
    lemma_tdiv_bound((h + q) * (SCALE as int), 0x200_0000_0000_0000_0000, a);
    assert((h - q) * (SCALE as int) <= (h + q) * (SCALE as int)) by (nonlinear_arith)
        requires
            q >= 0,
    ;
    lemma_tdiv_mono((h - q) * (SCALE as int), (h + q) * (SCALE as int), a);
}

impl Sphere {
    /// Intersect the ray with this sphere on the open interval
    /// `(interval.min, interval.max)`; on a hit, `rec` holds the nearest
    /// intersection's record.
    pub fn hit(&self, r: &Ray, interval: Interval, rec: &mut HitRecord) -> (is_hit: bool)
        requires
            sphere_wf(*self),
            ray_wf(*r),
            -T_LIMIT <= interval.min,
            interval.max <= T_LIMIT,
        ensures
            is_hit == sphere_hit_spec(*self, *r, interval.min as int, interval.max as int).is_some(),
            is_hit ==> sphere_hit_spec(*self, *r, interval.min as int, interval.max as int) == Some(
                *final(rec),
            ),
            !is_hit ==> *final(rec) == *old(rec),
    {
        proof {
            lemma_quad_bounds(*self, *r);
        }
        let oc = self.center.sub(r.origin);
        assert(oc == oc_spec(*self, *r));
        let a = r.direction.length_squared();
        let h = Vector3::dot(&r.direction, &oc);
        proof {
            lemma_fx_mul_bound(
                self.radius as int,
                self.radius as int,
                CENTER_LIMIT as int,
                CENTER_LIMIT as int,
            );
        }
        let c = oc.length_squared() - fx_mul(self.radius, self.radius);
        proof {
            lemma_fx_mul_bound(h as int, h as int, 0x60_0000_0000, 0x60_0000_0000);
            lemma_fx_mul_bound(a as int, c as int, 0x300_0000, 0xC_0000_0000_0000);
        }
        let discriminant = fx_mul(h, h) - fx_mul(a, c);
        if discriminant < 0 {
            return false;
        }
        proof {
            lemma_sqrt_disc_bound(*self, *r);
            lemma_root_bounds(*self, *r);
        }
        let sqrtd = fx_sqrt(discriminant);
        let mut root = fx_div(h - sqrtd, a);
        assert(root == root_near_spec(*self, *r));
        if root <= interval.min || interval.max <= root {
            root = fx_div(h + sqrtd, a);
            assert(root == root_far_spec(*self, *r));
            if root <= interval.min || interval.max <= root {
                return false;
            }
        }
        rec.t = root;
        rec.p = r.at(rec.t);
        let diff = rec.p.sub(self.center);
        proof {
            lemma_normal_coord_bound(diff.x as int, self.radius as int);
            lemma_normal_coord_bound(diff.y as int, self.radius as int);
            lemma_normal_coord_bound(diff.z as int, self.radius as int);
        }
        let outward_normal = diff.div_scalar(self.radius);
        assert(outward_normal == outward_normal_spec(*self, *r, root as int));
        rec.set_face_normal(r, &outward_normal);
        true
    }
}

/// Narrowing the far end of the query interval only discards hits at or
/// beyond the new end: a hit inside the narrower interval is exactly the
/// hit of the wider one, and where the narrower query misses, any hit of
/// the wider query lies at or past the narrow end.
pub proof fn lemma_sphere_hit_narrow(s: Sphere, r: Ray, tmin: int, mid: int, tmax: int)
    requires
        sphere_wf(s),
        ray_wf(r),
        mid <= tmax,
    ensures
        sphere_hit_spec(s, r, tmin, mid).is_some() ==> sphere_hit_spec(s, r, tmin, tmax)
            == sphere_hit_spec(s, r, tmin, mid),
        !sphere_hit_spec(s, r, tmin, mid).is_some() && sphere_hit_spec(
            s,
            r,
            tmin,
            tmax,
        ).is_some() ==> sphere_hit_spec(s, r, tmin, tmax).unwrap().t >= mid,
{
    if discriminant_spec(s, r) >= 0 {
        lemma_root_bounds(s, r);
    }
}

/// A successful hit reports a parameter strictly inside the query interval.
pub proof fn lemma_sphere_hit_in_interval(s: Sphere, r: Ray, tmin: int, tmax: int)
    requires
        sphere_wf(s),
        ray_wf(r),
    ensures
        sphere_hit_spec(s, r, tmin, tmax).is_some() ==> tmin < sphere_hit_spec(
            s,
            r,
            tmin,
            tmax,
        ).unwrap().t < tmax,
{
    if discriminant_spec(s, r) >= 0 {
        lemma_root_bounds(s, r);
    }
}

/// The geometry of an accepted hit: the hit point moves away from the
/// origin by at most 256 raw units per unit of direction (the horizon
/// divided by the scale), and the oriented normal stays within the
/// dot-product layer's coordinate bound.
pub proof fn lemma_sphere_record_geometry(s: Sphere, r: Ray, tmin: int, tmax: int)
    requires
        sphere_wf(s),
        ray_wf(r),
        0 <= tmin,
        tmax <= T_LIMIT as int,
        sphere_hit_spec(s, r, tmin, tmax).is_some(),
    ensures
        ({
            let rec = sphere_hit_spec(s, r, tmin, tmax).unwrap();
            &&& mag(rec.p.x as int) <= mag(r.origin.x as int) + 256 * mag(r.direction.x as int)
            &&& mag(rec.p.y as int) <= mag(r.origin.y as int) + 256 * mag(r.direction.y as int)
            &&& mag(rec.p.z as int) <= mag(r.origin.z as int) + 256 * mag(r.direction.z as int)
            &&& coords_within(rec.normal, COORD_LIMIT as int)
        }),
{
    lemma_root_bounds(s, r);
    let rec = sphere_hit_spec(s, r, tmin, tmax).unwrap();
    let t = if tmin < root_near_spec(s, r) < tmax {
        root_near_spec(s, r)
    } else {
        root_far_spec(s, r)
    };
    assert(rec == record_at_spec(s, r, t));
    assert(0 <= t <= T_LIMIT);
    lemma_step_coord(r.origin.x as int, r.direction.x as int, t);
    lemma_step_coord(r.origin.y as int, r.direction.y as int, t);
    lemma_step_coord(r.origin.z as int, r.direction.z as int, t);
    let p = at_spec(r, t);
    lemma_normal_coord_bound(p.x - s.center.x, s.radius as int);
    lemma_normal_coord_bound(p.y - s.center.y, s.radius as int);
    lemma_normal_coord_bound(p.z - s.center.z, s.radius as int);
}

/// Law: the reported normal is oriented against the incoming ray: after
/// the front-face fix-up its dot product with the ray direction is never
/// positive.
pub proof fn lemma_sphere_normal_orientation(s: Sphere, r: Ray, tmin: int, tmax: int)
    requires
        sphere_wf(s),
        ray_wf(r),
        0 <= tmin,
        tmax <= T_LIMIT as int,
        sphere_hit_spec(s, r, tmin, tmax).is_some(),
    ensures
        dot_spec(r.direction, sphere_hit_spec(s, r, tmin, tmax).unwrap().normal) <= 0,
{
    lemma_root_bounds(s, r);
    let rec = sphere_hit_spec(s, r, tmin, tmax).unwrap();
    let t = if tmin < root_near_spec(s, r) < tmax {
        root_near_spec(s, r)
    } else {
        root_far_spec(s, r)
    };
    assert(rec == record_at_spec(s, r, t));
    assert(0 <= t <= T_LIMIT);
    lemma_step_coord(r.origin.x as int, r.direction.x as int, t);
    lemma_step_coord(r.origin.y as int, r.direction.y as int, t);
    lemma_step_coord(r.origin.z as int, r.direction.z as int, t);
    let p = at_spec(r, t);
    lemma_normal_coord_bound(p.x - s.center.x, s.radius as int);
    lemma_normal_coord_bound(p.y - s.center.y, s.radius as int);
    lemma_normal_coord_bound(p.z - s.center.z, s.radius as int);
    let outward = outward_normal_spec(s, r, t);
    if dot_spec(r.direction, outward) < 0 {
        assert(rec.normal == outward);
    } else {
        assert(rec.normal == vneg_spec(outward));
        crate::fixed::lemma_fx_mul_neg(outward.x as int, r.direction.x as int);
        crate::fixed::lemma_fx_mul_neg(outward.y as int, r.direction.y as int);
        crate::fixed::lemma_fx_mul_neg(outward.z as int, r.direction.z as int);
        crate::fixed::lemma_fx_mul_comm(outward.x as int, r.direction.x as int);
        crate::fixed::lemma_fx_mul_comm(outward.y as int, r.direction.y as int);
        crate::fixed::lemma_fx_mul_comm(outward.z as int, r.direction.z as int);
        crate::fixed::lemma_fx_mul_comm(-(outward.x as int), r.direction.x as int);
        crate::fixed::lemma_fx_mul_comm(-(outward.y as int), r.direction.y as int);
        crate::fixed::lemma_fx_mul_comm(-(outward.z as int), r.direction.z as int);
        assert(dot_spec(r.direction, vneg_spec(outward)) == -dot_spec(r.direction, outward));
    }
}

/// One coordinate of `at(t)`: for `0 <= t <= T_LIMIT` the step is at most
/// `256 * |d|`, since `T_LIMIT / SCALE == 256` exactly.
proof fn lemma_step_coord(o: int, d: int, t: int)
    requires
        -(ORIGIN_LIMIT as int) <= o <= ORIGIN_LIMIT as int,
        -(DIR_LIMIT as int) <= d <= DIR_LIMIT as int,
        0 <= t <= T_LIMIT as int,
    ensures
        mag(o + fx_mul_spec(d, t)) <= mag(o) + 256 * mag(d),
        mag(o + fx_mul_spec(d, t)) <= ORIGIN_LIMIT as int + 0x1000_0000,
{
    assert(-(mag(d) * (T_LIMIT as int)) <= d * t <= mag(d) * (T_LIMIT as int)) by (nonlinear_arith)
        requires
            0 <= t <= T_LIMIT as int,
            -mag(d) <= d <= mag(d),
    ;
    lemma_tdiv_bound(d * t, mag(d) * (T_LIMIT as int), SCALE as int);
    assert(mag(d) * (T_LIMIT as int) == (256 * mag(d)) * (SCALE as int)) by (nonlinear_arith)
        requires
            T_LIMIT as int == 256 * (SCALE as int),
    ;
    crate::fixed::lemma_tdiv_exact(256 * mag(d), SCALE as int);
    assert(256 * mag(d) <= 0x1000_0000);
}

/// A hit-point offset divided by an admissible radius stays within the
/// dot-product layer's coordinate bound.
proof fn lemma_normal_coord_bound(d: int, radius: int)
    requires
        -0x1_1800_0000 <= d <= 0x1_1800_0000,
        RADIUS_MIN <= radius,
    ensures
        i64::MIN <= fx_div_spec(d, radius) <= i64::MAX,
        -(COORD_LIMIT as int) <= fx_div_spec(d, radius) <= COORD_LIMIT as int,
{
    assert(-0x1_1800_0000int * 0x1_0000 <= d * (SCALE as int) <= 0x1_1800_0000int * 0x1_0000)
        by (nonlinear_arith)
        requires
            -0x1_1800_0000 <= d <= 0x1_1800_0000,
    ;
    lemma_tdiv_bound(d * (SCALE as int), 0x1_1800_0000int * 0x1_0000, radius);
    assert(0x1_1800_0000int * 0x1_0000 <= COORD_LIMIT as int * radius) by (nonlinear_arith)
        requires
            radius >= RADIUS_MIN as int,
    ;
    assert((0x1_1800_0000int * 0x1_0000) / radius <= COORD_LIMIT as int) by (nonlinear_arith)
        requires
            radius >= RADIUS_MIN as int,
    ;
}

} // verus!
