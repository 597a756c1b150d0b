//! Three-component vector algebra over fixed-point scalars.
//!
//! A [`Vector3`] serves both as a free vector (a direction) and as a
//! position; [`Point3`] is the same representation under the second reading.
//! Every operation's contract gives the exact raw value of each component.

use crate::fixed::{
    fx_div, fx_div_spec, fx_mul, fx_mul_spec, fx_sqrt, fx_sqrt_spec, is_sqrt,
    lemma_fx_mul_bound, lemma_fx_mul_neg, lemma_fx_square_nonneg, lemma_sqrt_floor,
    lemma_sqrt_floor_of, lemma_sqrt_mono, lemma_tdiv_bound, lemma_tdiv_denom_mono,
    lemma_tdiv_exact, lemma_tdiv_mono, lemma_tdiv_nonneg, mag, tdiv, COORD_LIMIT,
    SCALE,
};
use crate::random::RandomStream;
use vstd::prelude::*;

verus! {

#[derive(Clone, Copy, Debug, PartialEq, Eq, Structural)]
pub struct Vector3 {
    pub x: i64,
    pub y: i64,
    pub z: i64,
}

/// A position in space; the representation is identical to a free vector.
pub type Point3 = Vector3;

/// All three components are bounded by `limit` in magnitude.
pub open spec fn coords_within(v: Vector3, limit: int) -> bool {
    &&& -limit <= v.x <= limit
    &&& -limit <= v.y <= limit
    &&& -limit <= v.z <= limit
}

/// The componentwise negation, as a spec-level value.
pub open spec fn vneg_spec(v: Vector3) -> Vector3 {
    Vector3 { x: (-v.x) as i64, y: (-v.y) as i64, z: (-v.z) as i64 }
}

/// The exact raw value of a fixed-point dot product.
pub open spec fn dot_spec(a: Vector3, b: Vector3) -> int {
    fx_mul_spec(a.x as int, b.x as int) + fx_mul_spec(a.y as int, b.y as int) + fx_mul_spec(
        a.z as int,
        b.z as int,
    )
}

/// The exact raw value of a squared length.
pub open spec fn lensq_spec(v: Vector3) -> int {
    dot_spec(v, v)
}

/// The exact raw value of a length: the fixed-point square root of the
/// squared length.
pub open spec fn length_spec(v: Vector3) -> int {
    fx_sqrt_spec(lensq_spec(v))
}

/// The exact raw value of one component of the normalized vector.
pub open spec fn unit_coord_spec(c: int, v: Vector3) -> int {
    fx_div_spec(c, length_spec(v))
}

/// Squared products never make a squared length negative, and bounded
/// coordinates keep it within `i64`.
pub proof fn lemma_lensq_bounds(v: Vector3, limit: int)
    requires
        coords_within(v, limit),
        0 <= limit <= COORD_LIMIT,
    ensures
        0 <= lensq_spec(v) <= 3 * ((limit * limit) / (SCALE as int)),
{
    lemma_fx_square_nonneg(v.x as int);
    lemma_fx_square_nonneg(v.y as int);
    lemma_fx_square_nonneg(v.z as int);
    lemma_fx_mul_bound(v.x as int, v.x as int, limit, limit);
    lemma_fx_mul_bound(v.y as int, v.y as int, limit, limit);
    lemma_fx_mul_bound(v.z as int, v.z as int, limit, limit);
}

/// A dot product of coordinate-bounded vectors is bounded.
pub proof fn lemma_dot_bound(a: Vector3, b: Vector3, la: int, lb: int)
    requires
        coords_within(a, la),
        coords_within(b, lb),
        0 <= la,
        0 <= lb,
    ensures
        -3 * ((la * lb) / (SCALE as int)) <= dot_spec(a, b) <= 3 * ((la * lb) / (SCALE as int)),
{
    lemma_fx_mul_bound(a.x as int, b.x as int, la, lb);
    lemma_fx_mul_bound(a.y as int, b.y as int, la, lb);
    lemma_fx_mul_bound(a.z as int, b.z as int, la, lb);
}

impl Vector3 {
    pub fn new(x: i64, y: i64, z: i64) -> (r: Self)
        ensures
            r == (Vector3 { x, y, z }),
    {
        Vector3 { x, y, z }
    }

    /// Componentwise sum.
    pub fn add(self, rhs: Self) -> (r: Self)
        requires
            i64::MIN <= self.x + rhs.x <= i64::MAX,
            i64::MIN <= self.y + rhs.y <= i64::MAX,
            i64::MIN <= self.z + rhs.z <= i64::MAX,
        ensures
            r.x == self.x + rhs.x,
            r.y == self.y + rhs.y,
            r.z == self.z + rhs.z,
    {
        Vector3 { x: self.x + rhs.x, y: self.y + rhs.y, z: self.z + rhs.z }
    }

    /// Componentwise difference.
    pub fn sub(self, rhs: Self) -> (r: Self)
        requires
            i64::MIN <= self.x - rhs.x <= i64::MAX,
            i64::MIN <= self.y - rhs.y <= i64::MAX,
            i64::MIN <= self.z - rhs.z <= i64::MAX,
        ensures
            r.x == self.x - rhs.x,
            r.y == self.y - rhs.y,
            r.z == self.z - rhs.z,
    {
        Vector3 { x: self.x - rhs.x, y: self.y - rhs.y, z: self.z - rhs.z }
    }

    /// Componentwise fixed-point product.
    pub fn mul(self, rhs: Self) -> (r: Self)
        requires
            i64::MIN <= fx_mul_spec(self.x as int, rhs.x as int) <= i64::MAX,
            i64::MIN <= fx_mul_spec(self.y as int, rhs.y as int) <= i64::MAX,
            i64::MIN <= fx_mul_spec(self.z as int, rhs.z as int) <= i64::MAX,
        ensures
            r.x == fx_mul_spec(self.x as int, rhs.x as int),
            r.y == fx_mul_spec(self.y as int, rhs.y as int),
            r.z == fx_mul_spec(self.z as int, rhs.z as int),
    {
        Vector3 {
            x: fx_mul(self.x, rhs.x),
            y: fx_mul(self.y, rhs.y),
            z: fx_mul(self.z, rhs.z),
        }
    }

    /// Componentwise fixed-point quotient.
    pub fn div(self, rhs: Self) -> (r: Self)
        requires
            rhs.x != 0,
            rhs.y != 0,
            rhs.z != 0,
            i64::MIN <= fx_div_spec(self.x as int, rhs.x as int) <= i64::MAX,
            i64::MIN <= fx_div_spec(self.y as int, rhs.y as int) <= i64::MAX,
            i64::MIN <= fx_div_spec(self.z as int, rhs.z as int) <= i64::MAX,
        ensures
            r.x == fx_div_spec(self.x as int, rhs.x as int),
            r.y == fx_div_spec(self.y as int, rhs.y as int),
            r.z == fx_div_spec(self.z as int, rhs.z as int),
    {
        Vector3 {
            x: fx_div(self.x, rhs.x),
            y: fx_div(self.y, rhs.y),
            z: fx_div(self.z, rhs.z),
        }
    }

    /// Scaling by a fixed-point factor.
    pub fn scale(self, t: i64) -> (r: Self)
        requires
            i64::MIN <= fx_mul_spec(self.x as int, t as int) <= i64::MAX,
            i64::MIN <= fx_mul_spec(self.y as int, t as int) <= i64::MAX,
            i64::MIN <= fx_mul_spec(self.z as int, t as int) <= i64::MAX,
        ensures
            r.x == fx_mul_spec(self.x as int, t as int),
            r.y == fx_mul_spec(self.y as int, t as int),
            r.z == fx_mul_spec(self.z as int, t as int),
    {
        Vector3 { x: fx_mul(self.x, t), y: fx_mul(self.y, t), z: fx_mul(self.z, t) }
    }

    /// Division of each component by a fixed-point factor.
    pub fn div_scalar(self, t: i64) -> (r: Self)
        requires
            t != 0,
            i64::MIN <= fx_div_spec(self.x as int, t as int) <= i64::MAX,
            i64::MIN <= fx_div_spec(self.y as int, t as int) <= i64::MAX,
            i64::MIN <= fx_div_spec(self.z as int, t as int) <= i64::MAX,
        ensures
            r.x == fx_div_spec(self.x as int, t as int),
            r.y == fx_div_spec(self.y as int, t as int),
            r.z == fx_div_spec(self.z as int, t as int),
    {
        Vector3 { x: fx_div(self.x, t), y: fx_div(self.y, t), z: fx_div(self.z, t) }
    }

    /// Componentwise negation.
    pub fn neg(self) -> (r: Self)
        requires
            self.x > i64::MIN,
            self.y > i64::MIN,
            self.z > i64::MIN,
        ensures
            r.x == -self.x,
            r.y == -self.y,
            r.z == -self.z,
    {
        Vector3 { x: -self.x, y: -self.y, z: -self.z }
    }

    pub fn dot(vec1: &Vector3, vec2: &Vector3) -> (r: i64)
        requires
            coords_within(*vec1, COORD_LIMIT as int),
            coords_within(*vec2, COORD_LIMIT as int),
        ensures
            r == dot_spec(*vec1, *vec2),
    {
        proof {
            lemma_fx_mul_bound(vec1.x as int, vec2.x as int, COORD_LIMIT as int, COORD_LIMIT as int);
            lemma_fx_mul_bound(vec1.y as int, vec2.y as int, COORD_LIMIT as int, COORD_LIMIT as int);
            lemma_fx_mul_bound(vec1.z as int, vec2.z as int, COORD_LIMIT as int, COORD_LIMIT as int);
        }
        fx_mul(vec1.x, vec2.x) + fx_mul(vec1.y, vec2.y) + fx_mul(vec1.z, vec2.z)
    }

    /// The squared length of the vector.
    pub fn length_squared(&self) -> (r: i64)
        requires
            coords_within(*self, COORD_LIMIT as int),
        ensures
            r == lensq_spec(*self),
            r >= 0,
    {
        proof {
            lemma_lensq_bounds(*self, COORD_LIMIT as int);
        }
        Vector3::dot(self, self)
    }

    /// An alias of [`Vector3::length_squared`].
    pub fn normalize(&self) -> (r: i64)
        requires
            coords_within(*self, COORD_LIMIT as int),
        ensures
            r == lensq_spec(*self),
            r >= 0,
    {
        self.length_squared()
    }

    /// The length of the vector.
    pub fn length(&self) -> (r: i64)
        requires
            coords_within(*self, COORD_LIMIT as int),
        ensures
            r == length_spec(*self),
            r >= 0,
    {
        let q = self.length_squared();
        fx_sqrt(q)
    }

    /// The vector scaled to length one (in fixed-point, to within rounding).
    /// A squared length of at least one raw unit keeps the divisor positive.
    pub fn unit(vec: &Vector3) -> (r: Vector3)
        requires
            coords_within(*vec, COORD_LIMIT as int),
            lensq_spec(*vec) >= 1,
        ensures
            r.x == unit_coord_spec(vec.x as int, *vec),
            r.y == unit_coord_spec(vec.y as int, *vec),
            r.z == unit_coord_spec(vec.z as int, *vec),
            length_spec(*vec) >= 256,
    {
        let len = vec.length();
        proof {
            lemma_sqrt_mono(SCALE as int, lensq_spec(*vec) * (SCALE as int));
            assert(is_sqrt(SCALE as int, 256));
            lemma_sqrt_floor_of(SCALE as int, 256);
            assert(lensq_spec(*vec) * (SCALE as int) >= SCALE as int) by (nonlinear_arith)
                requires
                    lensq_spec(*vec) >= 1,
            ;
            lemma_tdiv_bound((vec.x as int) * (SCALE as int), (COORD_LIMIT as int) * (SCALE as int), len as int);
            lemma_tdiv_bound((vec.y as int) * (SCALE as int), (COORD_LIMIT as int) * (SCALE as int), len as int);
            lemma_tdiv_bound((vec.z as int) * (SCALE as int), (COORD_LIMIT as int) * (SCALE as int), len as int);
            assert(-((COORD_LIMIT as int) * (SCALE as int)) <= (vec.x as int) * (SCALE as int)
                <= (COORD_LIMIT as int) * (SCALE as int)) by (nonlinear_arith)
                requires
                    -(COORD_LIMIT as int) <= vec.x as int <= COORD_LIMIT as int,
            ;
            assert(-((COORD_LIMIT as int) * (SCALE as int)) <= (vec.y as int) * (SCALE as int)
                <= (COORD_LIMIT as int) * (SCALE as int)) by (nonlinear_arith)
                requires
                    -(COORD_LIMIT as int) <= vec.y as int <= COORD_LIMIT as int,
            ;
            assert(-((COORD_LIMIT as int) * (SCALE as int)) <= (vec.z as int) * (SCALE as int)
                <= (COORD_LIMIT as int) * (SCALE as int)) by (nonlinear_arith)
                requires
                    -(COORD_LIMIT as int) <= vec.z as int <= COORD_LIMIT as int,
            ;
        }
        Vector3 { x: fx_div(vec.x, len), y: fx_div(vec.y, len), z: fx_div(vec.z, len) }
    }

    /// A vector with each component uniform in `[0, 1)`.
    pub fn random(rng: &mut RandomStream) -> (r: Self)
        ensures
            0 <= r.x < SCALE,
            0 <= r.y < SCALE,
            0 <= r.z < SCALE,
    {
        Vector3 {
            x: rng.next_in_range(0, SCALE),
            y: rng.next_in_range(0, SCALE),
            z: rng.next_in_range(0, SCALE),
        }
    }

    /// A vector with each component uniform in `[min, max)`.
    pub fn random_range(rng: &mut RandomStream, min: i64, max: i64) -> (r: Self)
        requires
            min < max,
        ensures
            min <= r.x < max,
            min <= r.y < max,
            min <= r.z < max,
    {
        Vector3 {
            x: rng.next_in_range(min, max),
            y: rng.next_in_range(min, max),
            z: rng.next_in_range(min, max),
        }
    }

    /// Rejection-sample a point of the unit ball.  Points of the inner
    /// ball of radius one half are rejected along with the outside: they
    /// normalize too imprecisely, and dropping them leaves the distribution
    /// of directions unchanged.  Acceptance is so likely that the attempt
    /// bound is unreachable in practice; a fixed diagonal point stands in
    /// if every draw were rejected.
    pub fn random_in_unit_sphere(rng: &mut RandomStream) -> (r: Vector3)
        ensures
            -SCALE <= r.x < SCALE,
            -SCALE <= r.y < SCALE,
            -SCALE <= r.z < SCALE,
            16384 <= lensq_spec(r) < SCALE,
    {
        let mut tries: usize = 0;
        while tries < 64
            invariant
                true,
            decreases 64 - tries,
        {
            let p = Vector3::random_range(rng, -SCALE, SCALE);
            let q = p.length_squared();
            if 16384 <= q && q < SCALE {
                return p;
            }
            tries = tries + 1;
        }
        let fallback = Vector3 { x: 32768, y: 32768, z: 32768 };
        proof {
            assert(32768int * 32768 == 16384int * 65536) by (nonlinear_arith);
            lemma_tdiv_exact(16384, 65536);
            assert(lensq_spec(fallback) == 49152);
        }
        fallback
    }

    /// A random direction of unit length, to within fixed-point rounding:
    /// the length misses one raw unit by at most 32 parts in 65536.
    pub fn random_unit_vector(rng: &mut RandomStream) -> (r: Vector3)
        ensures
            coords_within(r, 131072),
            SCALE - 10 <= lensq_spec(r) <= SCALE + 32,
            SCALE - 16 <= length_spec(r) <= SCALE + 32,
    {
        let p = Vector3::random_in_unit_sphere(rng);
        let u = Vector3::unit_vector(&p);
        proof {
            lemma_unit_of_ball_point(p, u);
            lemma_unit_vector_length(p, u);
        }
        u
    }

    /// A random near-unit direction in the hemisphere that `normal` points
    /// into: the sampled direction is flipped where it opposes the normal,
    /// which leaves its length untouched.
    pub fn random_on_hemisphere(rng: &mut RandomStream, normal: &Vector3) -> (r: Vector3)
        requires
            coords_within(*normal, COORD_LIMIT as int),
        ensures
            dot_spec(r, *normal) >= 0,
            coords_within(r, 131072),
            SCALE - 10 <= lensq_spec(r) <= SCALE + 32,
            SCALE - 16 <= length_spec(r) <= SCALE + 32,
    {
        let on_unit_sphere = Vector3::random_unit_vector(rng);
        if Vector3::dot(&on_unit_sphere, normal) > 0 {
            on_unit_sphere
        } else {
            let flipped = on_unit_sphere.neg();
            proof {
                lemma_neg_facts(on_unit_sphere, flipped, *normal);
            }
            flipped
        }
    }

    /// Same operation as [`Vector3::unit`].
    pub fn unit_vector(v: &Vector3) -> (r: Vector3)
        requires
            coords_within(*v, COORD_LIMIT as int),
            lensq_spec(*v) >= 1,
        ensures
            r.x == unit_coord_spec(v.x as int, *v),
            r.y == unit_coord_spec(v.y as int, *v),
            r.z == unit_coord_spec(v.z as int, *v),
            length_spec(*v) >= 256,
    {
        Vector3::unit(v)
    }
}

/// Negating a vector negates its dot products and keeps its squared length.
pub proof fn lemma_neg_facts(v: Vector3, u: Vector3, w: Vector3)
    requires
        u.x == -v.x,
        u.y == -v.y,
        u.z == -v.z,
    ensures
        dot_spec(u, w) == -dot_spec(v, w),
        lensq_spec(u) == lensq_spec(v),
{
    lemma_fx_mul_neg(v.x as int, w.x as int);
    lemma_fx_mul_neg(v.y as int, w.y as int);
    lemma_fx_mul_neg(v.z as int, w.z as int);
    assert((-(v.x as int)) * (-(v.x as int)) == (v.x as int) * (v.x as int)) by (nonlinear_arith);
    assert((-(v.y as int)) * (-(v.y as int)) == (v.y as int) * (v.y as int)) by (nonlinear_arith);
    assert((-(v.z as int)) * (-(v.z as int)) == (v.z as int) * (v.z as int)) by (nonlinear_arith);
}

/// Normalizing a ball point whose squared length lies in `[1/4, 1)` gives
/// coordinates of at most two units and a squared length of at least a
/// sixteenth of a unit.
proof fn lemma_unit_of_ball_point(v: Vector3, u: Vector3)
    requires
        coords_within(v, SCALE as int),
        16384 <= lensq_spec(v) < SCALE,
        u.x == unit_coord_spec(v.x as int, v),
        u.y == unit_coord_spec(v.y as int, v),
        u.z == unit_coord_spec(v.z as int, v),
    ensures
        coords_within(u, 131072),
        lensq_spec(u) >= 4096,
{
    let s = SCALE as int;
    let q = lensq_spec(v);
    let len = length_spec(v);
    assert(q * s >= 16384 * s && q * s <= (s - 1) * s) by (nonlinear_arith)
        requires
            16384 <= q <= s - 1,
            s == 65536,
    ;
    lemma_sqrt_floor(q * s);
    assert(32768int * 32768 == 0x4000_0000 && 32769int * 32769 == 0x4000_0000 + 65537)
        by (nonlinear_arith);
    assert(is_sqrt(0x4000_0000, 32768));
    lemma_sqrt_mono(0x4000_0000, q * s);
    lemma_sqrt_floor_of(0x4000_0000, 32768);
    assert(len >= 32768);
    assert(len < s) by (nonlinear_arith)
        requires
            is_sqrt(q * s, len),
            q * s <= (s - 1) * s,
            s == 65536,
            len >= 0,
    ;
    // Coordinate bound: |u_i| <= (SCALE * SCALE) / len <= 2 * SCALE.
    assert forall|c: int| -s <= c <= s implies -131072 <= #[trigger] fx_div_spec(c, len)
        <= 131072 by {
        assert(-(s * s) <= c * s <= s * s) by (nonlinear_arith)
            requires
                -s <= c <= s,
                s > 0,
        ;
        lemma_tdiv_bound(c * s, s * s, len);
        lemma_tdiv_denom_mono(s * s, 32768, len);
        assert(s * s == 131072int * 32768) by (nonlinear_arith)
            requires
                s == 65536,
        ;
        lemma_tdiv_exact(131072, 32768);
    }
    // Some coordinate of v reaches a quarter unit, else the squared length
    // could not reach a quarter of a quarter.
    assert(mag(v.x as int) >= 16384 || mag(v.y as int) >= 16384 || mag(v.z as int) >= 16384) by {
        if mag(v.x as int) < 16384 && mag(v.y as int) < 16384 && mag(v.z as int) < 16384 {
            lemma_small_coord_small_square(v.x as int);
            lemma_small_coord_small_square(v.y as int);
            lemma_small_coord_small_square(v.z as int);
            assert(lensq_spec(v) < 16384);
        }
    }
    // That coordinate keeps a quarter unit after normalizing, which alone
    // provides the squared-length floor.
    assert forall|c: int| 16384 <= mag(c) <= s implies mag(#[trigger] fx_div_spec(c, len))
        >= 16384 by {
        assert(mag(c * s) == mag(c) * s) by (nonlinear_arith)
            requires
                s > 0,
        ;
        assert(tdiv(c * s, len) == if c >= 0 {
            tdiv(mag(c) * s, len)
        } else {
            -tdiv(mag(c) * s, len)
        });
        assert(mag(c) * s >= 16384 * s) by (nonlinear_arith)
            requires
                mag(c) >= 16384,
                s > 0,
        ;
        lemma_tdiv_nonneg(mag(c) * s, len);
        lemma_tdiv_mono(16384 * s, mag(c) * s, len);
        lemma_tdiv_denom_mono(16384 * s, len, s);
        lemma_tdiv_exact(16384, s);
    }
    lemma_fx_square_nonneg(u.x as int);
    lemma_fx_square_nonneg(u.y as int);
    lemma_fx_square_nonneg(u.z as int);
    assert forall|c: int| mag(c) >= 16384 implies #[trigger] fx_mul_spec(c, c) >= 4096 by {
        assert(c * c >= 16384 * 16384) by (nonlinear_arith)
            requires
                mag(c) >= 16384,
        ;
        lemma_tdiv_mono(16384int * 16384, c * c, s);
        assert(16384int * 16384 == 4096int * 65536) by (nonlinear_arith);
        lemma_tdiv_exact(4096, 65536);
    }
}

/// Law: normalization yields a unit-length vector, to within fixed-point
/// rounding.  Whenever the squared length reaches a quarter unit, the
/// normalized vector's length differs from one by at most 32 parts in
/// 65536 (five hundredths of a percent).
pub proof fn lemma_unit_vector_length(v: Vector3, u: Vector3)
    requires
        lensq_spec(v) >= 16384,
        u.x == unit_coord_spec(v.x as int, v),
        u.y == unit_coord_spec(v.y as int, v),
        u.z == unit_coord_spec(v.z as int, v),
    ensures
        SCALE - 10 <= lensq_spec(u) <= SCALE + 32,
        SCALE - 16 <= length_spec(u) <= SCALE + 32,
{
    let s = SCALE as int;
    let q = lensq_spec(v);
    let vx = v.x as int;
    let vy = v.y as int;
    let vz = v.z as int;
    let sv = vx * vx + vy * vy + vz * vz;
    // The raw squared length against the exact sum of squares.
    lemma_square_sandwich(vx);
    lemma_square_sandwich(vy);
    lemma_square_sandwich(vz);
    assert(q * s == fx_mul_spec(vx, vx) * s + fx_mul_spec(vy, vy) * s + fx_mul_spec(vz, vz) * s)
        by (nonlinear_arith)
        requires
            q == fx_mul_spec(vx, vx) + fx_mul_spec(vy, vy) + fx_mul_spec(vz, vz),
    ;
    assert(q * s <= sv < q * s + 3 * s);
    // The length against the raw squared length.
    assert(q * s >= 0x4000_0000) by (nonlinear_arith)
        requires
            q >= 16384,
            s == 65536,
    ;
    lemma_sqrt_floor(q * s);
    assert(32768int * 32768 == 0x4000_0000 && 32769int * 32769 == 0x4000_0000 + 65537)
        by (nonlinear_arith);
    assert(is_sqrt(0x4000_0000, 32768));
    lemma_sqrt_floor_of(0x4000_0000, 32768);
    lemma_sqrt_mono(0x4000_0000, q * s);
    let len = length_spec(v);
    assert(len >= 32768);
    assert(len * len <= q * s < (len + 1) * (len + 1));
    // Each coordinate is bounded by the length plus a little slack.
    assert(vx * vx <= sv && vy * vy <= sv && vz * vz <= sv) by (nonlinear_arith)
        requires
            sv == vx * vx + vy * vy + vz * vz,
    ;
    assert(mag(vx) <= len + 4) by (nonlinear_arith)
        requires
            vx * vx <= sv,
            sv < q * s + 3 * s,
            q * s < (len + 1) * (len + 1),
            len >= 32768,
            s == 65536,
    ;
    assert(mag(vy) <= len + 4) by (nonlinear_arith)
        requires
            vy * vy <= sv,
            sv < q * s + 3 * s,
            q * s < (len + 1) * (len + 1),
            len >= 32768,
            s == 65536,
    ;
    assert(mag(vz) <= len + 4) by (nonlinear_arith)
        requires
            vz * vz <= sv,
            sv < q * s + 3 * s,
            q * s < (len + 1) * (len + 1),
            len >= 32768,
            s == 65536,
    ;
    // Each normalized coordinate, sandwiched against its source.
    lemma_unit_coord_sandwich(vx, len);
    lemma_unit_coord_sandwich(vy, len);
    lemma_unit_coord_sandwich(vz, len);
    let ux = u.x as int;
    let uy = u.y as int;
    let uz = u.z as int;
    let su = ux * ux + uy * uy + uz * uz;
    assert(mag(ux) <= s + 8) by (nonlinear_arith)
        requires
            mag(ux) * len <= mag(vx) * s,
            mag(vx) <= len + 4,
            len >= 32768,
            s == 65536,
            mag(ux) >= 0,
    ;
    assert(mag(uy) <= s + 8) by (nonlinear_arith)
        requires
            mag(uy) * len <= mag(vy) * s,
            mag(vy) <= len + 4,
            len >= 32768,
            s == 65536,
            mag(uy) >= 0,
    ;
    assert(mag(uz) <= s + 8) by (nonlinear_arith)
        requires
            mag(uz) * len <= mag(vz) * s,
            mag(vz) <= len + 4,
            len >= 32768,
            s == 65536,
            mag(uz) >= 0,
    ;
    // Squared, each sandwich bounds the normalized square both ways.
    lemma_unit_square(vx, len, ux);
    lemma_unit_square(vy, len, uy);
    lemma_unit_square(vz, len, uz);
    // Sum the three squared sandwiches.
    let magsum = mag(ux) + mag(uy) + mag(uz);
    assert(su * (len * len) <= sv * (s * s) < (su + 2 * magsum + 3) * (len * len))
        by (nonlinear_arith)
        requires
            ux * ux * (len * len) <= vx * vx * (s * s) < ux * ux * (len * len) + (2 * mag(ux) + 1)
                * (len * len),
            uy * uy * (len * len) <= vy * vy * (s * s) < uy * uy * (len * len) + (2 * mag(uy) + 1)
                * (len * len),
            uz * uz * (len * len) <= vz * vz * (s * s) < uz * uz * (len * len) + (2 * mag(uz) + 1)
                * (len * len),
            su == ux * ux + uy * uy + uz * uz,
            sv == vx * vx + vy * vy + vz * vz,
            magsum == mag(ux) + mag(uy) + mag(uz),
    ;
    // The sum of squares of the normalized coordinates, both ways.
    assert(su <= s * s + 0x20_0000) by (nonlinear_arith)
        requires
            su * (len * len) <= sv * (s * s),
            sv < q * s + 3 * s,
            q * s < (len + 1) * (len + 1),
            len >= 32768,
            s == 65536,
    ;
    assert(su >= s * s - 6 * s - 51) by (nonlinear_arith)
        requires
            sv * (s * s) < (su + 2 * magsum + 3) * (len * len),
            q * s <= sv,
            len * len <= q * s,
            magsum <= 3 * s + 24,
            len >= 32768,
            s == 65536,
    ;
    // The scaled squared length of the normalized vector.
    lemma_square_sandwich(ux);
    lemma_square_sandwich(uy);
    lemma_square_sandwich(uz);
    let lu = lensq_spec(u);
    assert(lu * s == fx_mul_spec(ux, ux) * s + fx_mul_spec(uy, uy) * s + fx_mul_spec(uz, uz) * s)
        by (nonlinear_arith)
        requires
            lu == fx_mul_spec(ux, ux) + fx_mul_spec(uy, uy) + fx_mul_spec(uz, uz),
    ;
    assert(lu * s <= su < lu * s + 3 * s);
    assert(s - 10 <= lu <= s + 32) by (nonlinear_arith)
        requires
            lu * s <= su < lu * s + 3 * s,
            s * s - 6 * s - 51 <= su <= s * s + 0x20_0000,
            s == 65536,
    ;
    // Finally the length itself.
    assert(lu * s >= 0) by (nonlinear_arith)
        requires
            lu >= 0,
            s > 0,
    ;
    lemma_sqrt_floor(lu * s);
    let lulen = length_spec(u);
    assert(lulen * lulen <= lu * s < (lulen + 1) * (lulen + 1));
    assert(s - 16 <= lulen <= s + 32) by (nonlinear_arith)
        requires
            lulen * lulen <= lu * s < (lulen + 1) * (lulen + 1),
            s - 10 <= lu <= s + 32,
            lulen >= 0,
            s == 65536,
    ;
}

/// The defining sandwich of a scaled square: `fx_mul_spec(c, c) * SCALE`
/// reaches `c * c` and misses it by less than one scale unit.
proof fn lemma_square_sandwich(c: int)
    ensures
        fx_mul_spec(c, c) * (SCALE as int) <= c * c < fx_mul_spec(c, c) * (SCALE as int) + (
        SCALE as int),
{
    let s = SCALE as int;
    assert(c * c >= 0) by (nonlinear_arith);
    lemma_tdiv_nonneg(c * c, s);
    vstd::arithmetic::div_mod::lemma_fundamental_div_mod(c * c, s);
    vstd::arithmetic::div_mod::lemma_mod_bound(c * c, s);
    assert(s * ((c * c) / s) == ((c * c) / s) * s) by (nonlinear_arith);
}

/// The defining sandwich of a normalized coordinate: `|u| * len` reaches
/// `|v| * SCALE` and misses it by less than `len`.
proof fn lemma_unit_coord_sandwich(c: int, len: int)
    requires
        len >= 1,
    ensures
        mag(tdiv(c * (SCALE as int), len)) * len <= mag(c) * (SCALE as int) < mag(
            tdiv(c * (SCALE as int), len),
        ) * len + len,
        mag(tdiv(c * (SCALE as int), len)) >= 0,
{
    let s = SCALE as int;
    assert(mag(c * s) == mag(c) * s) by (nonlinear_arith)
        requires
            s > 0,
    ;
    let m = mag(c) * s;
    assert(m >= 0) by (nonlinear_arith)
        requires
            m == mag(c) * s,
            mag(c) >= 0,
            s > 0,
    ;
    assert(mag(tdiv(c * s, len)) == m / len);
    vstd::arithmetic::div_mod::lemma_fundamental_div_mod(m, len);
    vstd::arithmetic::div_mod::lemma_mod_bound(m, len);
    vstd::arithmetic::div_mod::lemma_div_pos_is_pos(m, len);
    assert(len * (m / len) == (m / len) * len) by (nonlinear_arith);
}

/// Squaring the coordinate sandwich bounds the normalized square both
/// ways against the source square.
proof fn lemma_unit_square(c: int, len: int, u: int)
    requires
        len >= 1,
        mag(u) * len <= mag(c) * (SCALE as int) < mag(u) * len + len,
    ensures
        u * u * (len * len) <= c * c * ((SCALE as int) * (SCALE as int)) < u * u * (len * len) + (2
            * mag(u) + 1) * (len * len),
{
    let s = SCALE as int;
    assert(u * u == mag(u) * mag(u)) by (nonlinear_arith);
    assert(c * c == mag(c) * mag(c)) by (nonlinear_arith);
    assert(mag(u) * mag(u) * (len * len) <= mag(c) * mag(c) * (s * s) < mag(u) * mag(u) * (len
        * len) + (2 * mag(u) + 1) * (len * len)) by (nonlinear_arith)
        requires
            mag(u) * len <= mag(c) * s < mag(u) * len + len,
            mag(u) >= 0,
            mag(c) >= 0,
            len >= 1,
            s > 0,
    ;
    assert(u * u * (len * len) == mag(u) * mag(u) * (len * len)) by (nonlinear_arith);
    assert(c * c * (s * s) == mag(c) * mag(c) * (s * s)) by (nonlinear_arith);
}

/// A coordinate short of a quarter unit has a scaled square short of a
/// sixteenth of one third of a quarter unit.
proof fn lemma_small_coord_small_square(c: int)
    requires
        mag(c) < 16384,
    ensures
        fx_mul_spec(c, c) < 5462,
{
    assert(c * c <= 357892096) by (nonlinear_arith)
        requires
            mag(c) < 16384,
    ;
    lemma_tdiv_mono(c * c, 357892096, SCALE as int);
    assert(357892096int == 5461int * 65536) by (nonlinear_arith);
    lemma_tdiv_exact(5461, 65536);
    assert(c * c >= 0) by (nonlinear_arith);
    lemma_tdiv_nonneg(c * c, SCALE as int);
}

} // verus!
