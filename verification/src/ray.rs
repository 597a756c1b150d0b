//! Rays: an origin, a direction, and the position query `at(t)`.

use crate::color::{color_in_unit, Color};
use crate::fixed::{
    fx_div, fx_div_spec, fx_mul, fx_mul_spec, fx_sqrt, fx_sqrt_spec, lemma_fx_mul_bound,
    lemma_fx_mul_comm, lemma_fx_mul_mono, lemma_fx_mul_nonneg, lemma_fx_mul_unit,
    lemma_fx_square_nonneg, lemma_sqrt_floor, lemma_tdiv_bound, mag, sqrt_floor, tdiv, SCALE,
};
use crate::hittable_list::{
    lemma_list_hit_geometry, lemma_list_hit_nearest, list_hit_spec, list_wf, HittableList,
};
use crate::hittable::{HitRecord, Hittable};
use crate::interval::Interval;
use crate::random::RandomStream;
use crate::sphere::{CENTER_LIMIT, RADIUS_MIN};
use crate::vector::{
    coords_within, dot_spec, lemma_dot_bound, lemma_lensq_bounds, lensq_spec, unit_coord_spec,
    Point3, Vector3,
};
use vstd::prelude::*;

verus! {

/// Largest coordinate magnitude a ray origin may have.  Bounces move an
/// origin by at most a bounded step, so a deep recursion stays within this.
pub const ORIGIN_LIMIT: i64 = 0x1_0000_0000;

/// Largest coordinate magnitude a ray direction may have.
pub const DIR_LIMIT: i64 = 0x10_0000;

/// The far horizon: the largest ray parameter any intersection query may
/// name, the stand-in for an unbounded search.
pub const T_LIMIT: i64 = 0x100_0000;

#[derive(Clone, Copy, Debug, PartialEq, Eq, Structural)]
pub struct Ray {
    pub origin: Point3,
    pub direction: Vector3,
}

/// A ray the intersection routines accept: bounded origin and direction,
/// and a direction long enough to normalize.
pub open spec fn ray_wf(r: Ray) -> bool {
    &&& coords_within(r.origin, ORIGIN_LIMIT as int)
    &&& coords_within(r.direction, DIR_LIMIT as int)
    &&& lensq_spec(r.direction) >= 1
}

/// The exact position of the ray at parameter `t`.
pub open spec fn at_spec(r: Ray, t: int) -> Point3 {
    Point3 {
        x: (r.origin.x + fx_mul_spec(r.direction.x as int, t)) as i64,
        y: (r.origin.y + fx_mul_spec(r.direction.y as int, t)) as i64,
        z: (r.origin.z + fx_mul_spec(r.direction.z as int, t)) as i64,
    }
}

impl Ray {
    pub fn new(origin: Point3, direction: Vector3) -> (r: Self)
        ensures
            r.origin == origin,
            r.direction == direction,
    {
        Ray { origin, direction }
    }

    /// The position `origin + direction * t`.
    pub fn at(&self, t: i64) -> (r: Point3)
        requires
            coords_within(self.origin, ORIGIN_LIMIT as int),
            coords_within(self.direction, DIR_LIMIT as int),
            -T_LIMIT <= t <= T_LIMIT,
        ensures
            r == at_spec(*self, t as int),
            coords_within(r, ORIGIN_LIMIT as int + 0x1000_0000),
    {
        proof {
            lemma_fx_mul_bound(self.direction.x as int, t as int, DIR_LIMIT as int, T_LIMIT as int);
            lemma_fx_mul_bound(self.direction.y as int, t as int, DIR_LIMIT as int, T_LIMIT as int);
            lemma_fx_mul_bound(self.direction.z as int, t as int, DIR_LIMIT as int, T_LIMIT as int);
        }
        Point3 {
            x: self.origin.x + fx_mul(self.direction.x, t),
            y: self.origin.y + fx_mul(self.direction.y, t),
            z: self.origin.z + fx_mul(self.direction.z, t),
        }
    }

    pub fn origin(&self) -> (r: &Point3)
        ensures
            r == &self.origin,
    {
        &self.origin
    }

    pub fn direction(&self) -> (r: &Vector3)
        ensures
            r == &self.direction,
    {
        &self.direction
    }
}

/// Per-bounce growth allowance of a ray origin: one step of at most
/// `256 * DIR coordinates` plus slack, so a budgeted recursion never
/// leaves `ORIGIN_LIMIT`.
pub const BOUNCE_STEP: i64 = 0x400_0000;

/// The shading recursion's inductive bound: the origin, the first step and
/// every later bounce all fit inside `ORIGIN_LIMIT`.
pub open spec fn shading_budget_ok(r: Ray, depth: int) -> bool {
    let d = if depth >= 0 {
        depth
    } else {
        0
    };
    &&& mag(r.origin.x as int) + 256 * mag(r.direction.x as int) + d * (BOUNCE_STEP as int)
        <= ORIGIN_LIMIT as int
    &&& mag(r.origin.y as int) + 256 * mag(r.direction.y as int) + d * (BOUNCE_STEP as int)
        <= ORIGIN_LIMIT as int
    &&& mag(r.origin.z as int) + 256 * mag(r.direction.z as int) + d * (BOUNCE_STEP as int)
        <= ORIGIN_LIMIT as int
}

/// The vertical blend between white below and sky blue above that a ray
/// shows when it escapes the scene.  The blend parameter is the unit
/// direction's vertical component remapped from `[-1, 1]` to `[0, 1]`,
/// clamped to absorb fixed-point rounding slop.
pub open spec fn background_spec(r: Ray) -> Color {
    let uy = unit_coord_spec(r.direction.y as int, r.direction);
    let t = (Interval { min: 0, max: SCALE }).clamp_spec(tdiv(uy + SCALE as int, 2));
    Color {
        red: (fx_mul_spec(SCALE as int, SCALE as int - t) + fx_mul_spec(32768, t)) as i64,
        green: (fx_mul_spec(SCALE as int, SCALE as int - t) + fx_mul_spec(45875, t)) as i64,
        blue: (fx_mul_spec(SCALE as int, SCALE as int - t) + fx_mul_spec(SCALE as int, t)) as i64,
    }
}

/// Everything one shading call promises of its color: unit range, exactly
/// black at exhausted depth, exactly the background gradient on a miss,
/// and at most half brightness after a diffuse bounce.
pub open spec fn shading_outcome(c: Color, r: Ray, depth: int, objs: Seq<Hittable>) -> bool {
    &&& color_in_unit(c)
    &&& depth <= 0 ==> c == (Color { red: 0, green: 0, blue: 0 })
    &&& depth > 0 && !list_hit_spec(objs, r, 0, T_LIMIT as int).is_some() ==> c
        == background_spec(r)
    &&& depth > 0 && list_hit_spec(objs, r, 0, T_LIMIT as int).is_some() ==> (c.red <= SCALE / 2
        && c.green <= SCALE / 2 && c.blue <= SCALE / 2)
}

impl Ray {
    /// Recursive diffuse shading.  At depth zero the ray contributes
    /// nothing; a hit bounces into a random hemisphere direction and keeps
    /// half the recursive light; a miss shows the background gradient.
    pub fn color(&self, depth: i32, world: &HittableList, rng: &mut RandomStream) -> (c: Color)
        requires
            list_wf(world.objects@),
            ray_wf(*self),
            shading_budget_ok(*self, depth as int),
        ensures
            shading_outcome(c, *self, depth as int, world.objects@),
        decreases depth,
    {
        if depth <= 0 {
            return Color::new(0, 0, 0);
        }
        let ghost objs = world.objects@;
        let mut rec = HitRecord::new();
        if world.hit(self, Interval::new(0, T_LIMIT), &mut rec) {
            proof {
                lemma_list_hit_nearest(objs, *self, 0, T_LIMIT as int);
                lemma_list_hit_geometry(objs, *self, 0, T_LIMIT as int);
            }
            let direction = Vector3::random_on_hemisphere(rng, &rec.normal);
            let new_ray = Ray::new(rec.p, direction);
            let bounced = new_ray.color(depth - 1, world, rng);
            proof {
                lemma_fx_mul_bound(bounced.red as int, 32768, SCALE as int, 32768);
                lemma_fx_mul_bound(bounced.green as int, 32768, SCALE as int, 32768);
                lemma_fx_mul_bound(bounced.blue as int, 32768, SCALE as int, 32768);
                lemma_fx_mul_nonneg(bounced.red as int, 32768);
                lemma_fx_mul_nonneg(bounced.green as int, 32768);
                lemma_fx_mul_nonneg(bounced.blue as int, 32768);
            }
            return bounced.mul(32768);
        }
        let unit_direction = Vector3::unit(&self.direction);
        let tval = Interval::new(0, SCALE).clamp((unit_direction.y + SCALE) / 2);
        proof {
            lemma_blend_bounds(tval as int, 32768);
            lemma_blend_bounds(tval as int, 45875);
            lemma_blend_bounds(tval as int, SCALE as int);
        }
        let white = Color::new(SCALE, SCALE, SCALE);
        let sky = Color::new(32768, 45875, SCALE);
        white.mul(SCALE - tval).add(sky.mul(tval))
    }

    /// The full-b form of the quadratic: the smaller root of
    /// `|origin + t d - center|^2 = radius^2`, or minus one where the
    /// line misses the sphere entirely.  A simpler query than the record
    /// protocol: roots behind the origin come back as negative
    /// parameters, and the geometry is expected near the origin.
    pub fn hit_sphere(&self, center: Vector3, radius: i64) -> (t: i64)
        requires
            coords_within(self.origin, 0x4000_0000),
            coords_within(self.direction, DIR_LIMIT as int),
            lensq_spec(self.direction) >= 1,
            coords_within(center, CENTER_LIMIT as int),
            RADIUS_MIN <= radius <= CENTER_LIMIT,
        ensures
            t == hit_sphere_spec(*self, center, radius as int),
    {
        proof {
            lemma_hit_sphere_bounds(*self, center, radius as int);
        }
        let oc = self.origin.sub(center);
        let a = Vector3::dot(&self.direction, &self.direction);
        let b = 2 * Vector3::dot(&oc, &self.direction);
        let c = Vector3::dot(&oc, &oc) - fx_mul(radius, radius);
        let discriminant = fx_mul(b, b) - fx_mul(4 * a, c);
        if discriminant < 0 {
            return -SCALE;
        }
        proof {
            lemma_hit_sphere_disc_bounds(*self, center, radius as int);
        }
        let sqrtd = fx_sqrt(discriminant);
        fx_div(-b - sqrtd, 2 * a)
    }
}

/// One blend term of the background: a sky or white weight in `[0, 1]`
/// scaled by the blend parameter stays within the parameter itself.
proof fn lemma_blend_bounds(t: int, w: int)
    requires
        0 <= t <= SCALE as int,
        0 <= w <= SCALE as int,
    ensures
        0 <= fx_mul_spec(SCALE as int, SCALE as int - t) <= SCALE as int - t,
        0 <= fx_mul_spec(w, t) <= t,
{
    lemma_fx_mul_unit(SCALE as int - t);
    lemma_fx_mul_nonneg(SCALE as int, SCALE as int - t);
    lemma_fx_mul_nonneg(w, t);
    lemma_fx_mul_comm(w, t);
    lemma_fx_mul_mono(t, w, SCALE as int);
    lemma_fx_mul_unit(t);
}

/// The vector from the sphere center back to the ray origin, as the
/// legacy query computes it.
pub open spec fn hs_oc_spec(r: Ray, center: Vector3) -> Vector3 {
    Vector3 {
        x: (r.origin.x - center.x) as i64,
        y: (r.origin.y - center.y) as i64,
        z: (r.origin.z - center.z) as i64,
    }
}

/// The legacy quadratic's full linear coefficient `2 (oc . d)`.
pub open spec fn hs_b_spec(r: Ray, center: Vector3) -> int {
    2 * dot_spec(hs_oc_spec(r, center), r.direction)
}

/// The legacy quadratic's constant coefficient `|oc|^2 - radius^2`.
pub open spec fn hs_c_spec(r: Ray, center: Vector3, radius: int) -> int {
    dot_spec(hs_oc_spec(r, center), hs_oc_spec(r, center)) - fx_mul_spec(radius, radius)
}

/// The legacy quadratic's discriminant `b^2 - 4 a c`.
pub open spec fn hs_disc_spec(r: Ray, center: Vector3, radius: int) -> int {
    fx_mul_spec(hs_b_spec(r, center), hs_b_spec(r, center)) - fx_mul_spec(
        4 * lensq_spec(r.direction),
        hs_c_spec(r, center, radius),
    )
}

/// What `hit_sphere` reports: the smaller root `(-b - sqrt(disc)) / (2 a)`,
/// or minus one on a miss.
pub open spec fn hit_sphere_spec(r: Ray, center: Vector3, radius: int) -> int {
    if hs_disc_spec(r, center, radius) < 0 {
        -(SCALE as int)
    } else {
        fx_div_spec(
            -hs_b_spec(r, center) - fx_sqrt_spec(hs_disc_spec(r, center, radius)),
            2 * lensq_spec(r.direction),
        )
    }
}

proof fn lemma_hit_sphere_bounds(r: Ray, center: Vector3, radius: int)
    requires
        coords_within(r.origin, 0x4000_0000),
        coords_within(r.direction, DIR_LIMIT as int),
        lensq_spec(r.direction) >= 1,
        coords_within(center, CENTER_LIMIT as int),
        RADIUS_MIN as int <= radius <= CENTER_LIMIT as int,
    ensures
        coords_within(hs_oc_spec(r, center), 0x4800_0000),
        1 <= lensq_spec(r.direction) <= 0x300_0000,
        -0x20_0000_0000 <= hs_b_spec(r, center) <= 0x20_0000_0000,
        0 <= fx_mul_spec(radius, radius) <= 0x40_0000_0000,
        -0x40_0000_0000 <= hs_c_spec(r, center, radius) <= 0x8000_0000_0000,
        -0x800_0000_0000_0000 <= fx_mul_spec(hs_b_spec(r, center), hs_b_spec(r, center))
            <= 0x800_0000_0000_0000,
        -0x800_0000_0000_0000 <= fx_mul_spec(
            4 * lensq_spec(r.direction),
            hs_c_spec(r, center, radius),
        ) <= 0x800_0000_0000_0000,
        -0x1000_0000_0000_0000 <= hs_disc_spec(r, center, radius) <= 0x1000_0000_0000_0000,
{
    lemma_lensq_bounds(r.direction, DIR_LIMIT as int);
    lemma_lensq_bounds(hs_oc_spec(r, center), 0x4800_0000);
    assert(3 * ((0x4800_0000int * 0x4800_0000) / 65536) <= 0x8000_0000_0000) by (nonlinear_arith);
    lemma_dot_bound(hs_oc_spec(r, center), r.direction, 0x4800_0000, DIR_LIMIT as int);
    assert(3 * ((0x4800_0000int * 0x10_0000) / 65536) <= 0x10_0000_0000) by (nonlinear_arith);
    lemma_fx_mul_bound(radius, radius, CENTER_LIMIT as int, CENTER_LIMIT as int);
    assert((0x800_0000int * 0x800_0000) / 65536 <= 0x40_0000_0000) by (nonlinear_arith);
    lemma_fx_square_nonneg(radius);
    lemma_fx_mul_bound(hs_b_spec(r, center), hs_b_spec(r, center), 0x20_0000_0000, 0x20_0000_0000);
    assert((0x20_0000_0000int * 0x20_0000_0000) / 65536 <= 0x800_0000_0000_0000)
        by (nonlinear_arith);
    lemma_fx_mul_bound(
        4 * lensq_spec(r.direction),
        hs_c_spec(r, center, radius),
        0xC00_0000,
        0x8000_0000_0000,
    );
    assert((0xC00_0000int * 0x8000_0000_0000) / 65536 <= 0x800_0000_0000_0000)
        by (nonlinear_arith);
}

proof fn lemma_hit_sphere_disc_bounds(r: Ray, center: Vector3, radius: int)
    requires
        coords_within(r.origin, 0x4000_0000),
        coords_within(r.direction, DIR_LIMIT as int),
        lensq_spec(r.direction) >= 1,
        coords_within(center, CENTER_LIMIT as int),
        RADIUS_MIN as int <= radius <= CENTER_LIMIT as int,
        hs_disc_spec(r, center, radius) >= 0,
    ensures
        0 <= fx_sqrt_spec(hs_disc_spec(r, center, radius)) < 0x80_0000_0000,
        ({
            let root = fx_div_spec(
                -hs_b_spec(r, center) - fx_sqrt_spec(hs_disc_spec(r, center, radius)),
                2 * lensq_spec(r.direction),
            );
            -0x4000_0000_0000_0000 <= root <= 0x4000_0000_0000_0000
        }),
{
    lemma_hit_sphere_bounds(r, center, radius);
    let d = hs_disc_spec(r, center, radius);
    assert(0 <= d * (SCALE as int) <= 0x1000_0000_0000_0000int * 65536) by (nonlinear_arith)
        requires
            0 <= d <= 0x1000_0000_0000_0000,
    ;
    lemma_sqrt_floor(d * (SCALE as int));
    let q = sqrt_floor(d * (SCALE as int));
    assert(q < 0x80_0000_0000) by (nonlinear_arith)
        requires
            q >= 0,
            q * q <= d * (SCALE as int),
            d * (SCALE as int) <= 0x1000_0000_0000_0000int * 65536,
    ;
    let num = -hs_b_spec(r, center) - q;
    assert(-0x100_0000_0000 <= num <= 0x100_0000_0000);
    assert(-0x100_0000_0000_0000_0000 <= num * (SCALE as int) <= 0x100_0000_0000_0000_0000)
        by (nonlinear_arith)
        requires
            -0x100_0000_0000 <= num <= 0x100_0000_0000,
    ;
    lemma_tdiv_bound(num * (SCALE as int), 0x100_0000_0000_0000_0000, 2 * lensq_spec(r.direction));
}

} // verus!
