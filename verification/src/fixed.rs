//! Fixed-point scalars.
//!
//! Every real quantity of the renderer (coordinates, ray parameters, colors)
//! is a fixed-point number: an `i64` raw value `x` stands for the real number
//! `x / SCALE`.  Multiplication, division and square root round toward zero,
//! and each operation's contract states its result exactly over the raw
//! integers, so all geometric reasoning happens on plain `int` arithmetic.

use vstd::arithmetic::div_mod::{
    lemma_div_is_ordered, lemma_div_multiples_vanish, lemma_div_nonincreasing,
    lemma_div_pos_is_pos,
};
use vstd::prelude::*;

verus! {

/// One, as a raw fixed-point value: raw `x` stands for `x / SCALE`.
pub const SCALE: i64 = 65536;

/// Largest coordinate magnitude accepted by the dot-product layer; chosen so
/// that a sum of three scaled products of such coordinates stays within `i64`.
pub const COORD_LIMIT: i64 = 0x40_0000_0000;

/// The magnitude of an integer.
pub open spec fn mag(x: int) -> int {
    if x >= 0 {
        x
    } else {
        -x
    }
}

/// Truncating (round-toward-zero) integer division, the rounding that the
/// executable `/` on signed integers performs.
pub open spec fn tdiv(a: int, b: int) -> int {
    if (a >= 0) == (b >= 0) {
        mag(a) / mag(b)
    } else {
        -(mag(a) / mag(b))
    }
}

/// The exact raw value of a fixed-point product.
pub open spec fn fx_mul_spec(a: int, b: int) -> int {
    tdiv(a * b, SCALE as int)
}

/// The exact raw value of a fixed-point quotient.
pub open spec fn fx_div_spec(a: int, b: int) -> int {
    tdiv(a * (SCALE as int), b)
}

/// `r` is the integer square root of `n`, rounded down.
pub open spec fn is_sqrt(n: int, r: int) -> bool {
    &&& r >= 0
    &&& r * r <= n
    &&& n < (r + 1) * (r + 1)
}

/// The integer square root of `n`, rounded down (meaningful for `n >= 0`).
pub open spec fn sqrt_floor(n: int) -> int {
    choose|r: int| #[trigger] is_sqrt(n, r)
}

/// The exact raw value of a fixed-point square root.
pub open spec fn fx_sqrt_spec(x: int) -> int {
    sqrt_floor(x * (SCALE as int))
}

/// For a nonnegative dividend and positive divisor, truncating division is
/// the Euclidean one.
pub proof fn lemma_tdiv_nonneg(a: int, b: int)
    requires
        a >= 0,
        b > 0,
    ensures
        tdiv(a, b) == a / b,
        tdiv(a, b) >= 0,
{
    lemma_div_pos_is_pos(a, b);
}

/// Truncating division is monotone in the dividend.
pub proof fn lemma_tdiv_mono(a1: int, a2: int, b: int)
    requires
        a1 <= a2,
        b > 0,
    ensures
        tdiv(a1, b) <= tdiv(a2, b),
{
    if a1 >= 0 {
        lemma_div_is_ordered(a1, a2, b);
    } else if a2 >= 0 {
        lemma_div_pos_is_pos(-a1, b);
        lemma_div_pos_is_pos(a2, b);
    } else {
        lemma_div_is_ordered(-a2, -a1, b);
    }
}

/// A bound on the dividend bounds the truncated quotient.
pub proof fn lemma_tdiv_bound(a: int, bound: int, b: int)
    requires
        -bound <= a <= bound,
        b > 0,
    ensures
        -(bound / b) <= tdiv(a, b) <= bound / b,
        -bound <= tdiv(a, b) <= bound,
{
    if a >= 0 {
        lemma_div_is_ordered(a, bound, b);
        lemma_div_pos_is_pos(a, b);
        lemma_div_nonincreasing(a, b);
        lemma_div_nonincreasing(bound, b);
    } else {
        lemma_div_is_ordered(-a, bound, b);
        lemma_div_pos_is_pos(-a, b);
        lemma_div_nonincreasing(-a, b);
        lemma_div_nonincreasing(bound, b);
    }
}

/// `tdiv` of an exact multiple recovers the factor.
pub proof fn lemma_tdiv_exact(a: int, b: int)
    requires
        b > 0,
    ensures
        tdiv(a * b, b) == a,
{
    if a >= 0 {
        assert(a * b >= 0) by (nonlinear_arith)
            requires
                a >= 0,
                b > 0,
        ;
        lemma_div_multiples_vanish(a, b);
        assert(b * a == a * b) by (nonlinear_arith);
    } else {
        assert(a * b < 0) by (nonlinear_arith)
            requires
                a < 0,
                b > 0,
        ;
        lemma_div_multiples_vanish(-a, b);
        assert(b * (-a) == -(a * b)) by (nonlinear_arith);
    }
}

/// A product of values bounded by `ba` and `bb` has its scaled product
/// bounded by `(ba * bb) / SCALE`.
pub proof fn lemma_fx_mul_bound(a: int, b: int, ba: int, bb: int)
    requires
        -ba <= a <= ba,
        -bb <= b <= bb,
    ensures
        -((ba * bb) / (SCALE as int)) <= fx_mul_spec(a, b) <= (ba * bb) / (SCALE as int),
        -(ba * bb) <= fx_mul_spec(a, b) <= ba * bb,
{
    assert(-(ba * bb) <= a * b <= ba * bb) by (nonlinear_arith)
        requires
            -ba <= a <= ba,
            -bb <= b <= bb,
    ;
    lemma_tdiv_bound(a * b, ba * bb, SCALE as int);
}

/// Negating one factor negates the scaled product exactly; truncation
/// toward zero is symmetric.
pub proof fn lemma_fx_mul_neg(a: int, b: int)
    ensures
        fx_mul_spec(-a, b) == -fx_mul_spec(a, b),
{
    assert((-a) * b == -(a * b)) by (nonlinear_arith);
}

/// Scaled multiplication does not depend on the factors' order.
pub proof fn lemma_fx_mul_comm(a: int, b: int)
    ensures
        fx_mul_spec(a, b) == fx_mul_spec(b, a),
{
    assert(a * b == b * a) by (nonlinear_arith);
}

/// A fixed-point product with one is the other factor.
pub proof fn lemma_fx_mul_unit(a: int)
    ensures
        fx_mul_spec(a, SCALE as int) == a,
        fx_mul_spec(SCALE as int, a) == a,
{
    lemma_tdiv_exact(a, SCALE as int);
    lemma_fx_mul_comm(a, SCALE as int);
}

/// A scaled product of nonnegative factors is nonnegative.
pub proof fn lemma_fx_mul_nonneg(a: int, b: int)
    requires
        a >= 0,
        b >= 0,
    ensures
        fx_mul_spec(a, b) >= 0,
{
    assert(a * b >= 0) by (nonlinear_arith)
        requires
            a >= 0,
            b >= 0,
    ;
    lemma_tdiv_nonneg(a * b, SCALE as int);
}

/// Scaled multiplication is monotone in the second factor when the first
/// is nonnegative.
pub proof fn lemma_fx_mul_mono(a: int, b1: int, b2: int)
    requires
        a >= 0,
        b1 <= b2,
    ensures
        fx_mul_spec(a, b1) <= fx_mul_spec(a, b2),
{
    assert(a * b1 <= a * b2) by (nonlinear_arith)
        requires
            a >= 0,
            b1 <= b2,
    ;
    lemma_tdiv_mono(a * b1, a * b2, SCALE as int);
}

/// A nonnegative dividend divided by a smaller positive divisor gives at
/// least as much.
pub proof fn lemma_tdiv_denom_mono(x: int, b1: int, b2: int)
    requires
        x >= 0,
        0 < b1 <= b2,
    ensures
        tdiv(x, b1) >= tdiv(x, b2),
{
    vstd::arithmetic::div_mod::lemma_div_is_ordered_by_denominator(x, b1, b2);
}

/// A scaled square is never negative.
pub proof fn lemma_fx_square_nonneg(a: int)
    ensures
        fx_mul_spec(a, a) >= 0,
{
    assert(a * a >= 0) by (nonlinear_arith);
    lemma_tdiv_nonneg(a * a, SCALE as int);
}

/// Averaging stays in the unit range: a sum of at most `n` unit-range
/// values scaled by the fixed-point reciprocal of `n` is again in range.
pub proof fn lemma_average_in_unit(sum: int, n: int, scale: int)
    requires
        0 < n,
        0 <= sum <= n * (SCALE as int),
        scale == tdiv(SCALE as int, n),
    ensures
        0 <= fx_mul_spec(sum, scale) <= SCALE as int,
{
    let s = SCALE as int;
    lemma_tdiv_nonneg(s, n);
    vstd::arithmetic::div_mod::lemma_fundamental_div_mod(s, n);
    vstd::arithmetic::div_mod::lemma_mod_bound(s, n);
    assert(n * scale <= s);
    assert(sum * scale <= s * s) by (nonlinear_arith)
        requires
            0 <= sum <= n * s,
            0 <= scale,
            n * scale <= s,
            0 < n,
            0 < s,
    ;
    assert(sum * scale >= 0) by (nonlinear_arith)
        requires
            sum >= 0,
            scale >= 0,
    ;
    lemma_tdiv_mono(sum * scale, s * s, s);
    lemma_tdiv_exact(s, s);
    lemma_tdiv_nonneg(sum * scale, s);
}

proof fn lemma_sqrt_exists(n: int)
    requires
        n >= 0,
    ensures
        exists|r: int| #[trigger] is_sqrt(n, r),
    decreases n,
{
    if n == 0 {
        assert(is_sqrt(0, 0));
    } else {
        lemma_sqrt_exists(n - 1);
        let p = choose|r: int| #[trigger] is_sqrt(n - 1, r);
        if n < (p + 1) * (p + 1) {
            assert(is_sqrt(n, p));
        } else {
            assert(n == (p + 1) * (p + 1));
            assert((p + 2) * (p + 2) > (p + 1) * (p + 1)) by (nonlinear_arith)
                requires
                    p >= 0,
            ;
            assert(is_sqrt(n, p + 1));
        }
    }
}

proof fn lemma_sqrt_unique(n: int, r1: int, r2: int)
    requires
        is_sqrt(n, r1),
        is_sqrt(n, r2),
    ensures
        r1 == r2,
{
    if r1 < r2 {
        assert((r1 + 1) * (r1 + 1) <= r2 * r2) by (nonlinear_arith)
            requires
                0 <= r1,
                r1 + 1 <= r2,
        ;
    }
    if r2 < r1 {
        assert((r2 + 1) * (r2 + 1) <= r1 * r1) by (nonlinear_arith)
            requires
                0 <= r2,
                r2 + 1 <= r1,
        ;
    }
}

/// The defining property of `sqrt_floor`, available once `n >= 0`.
pub proof fn lemma_sqrt_floor(n: int)
    requires
        n >= 0,
    ensures
        is_sqrt(n, sqrt_floor(n)),
{
    lemma_sqrt_exists(n);
}

/// Any witness of `is_sqrt` is the `sqrt_floor`.
pub proof fn lemma_sqrt_floor_of(n: int, r: int)
    requires
        is_sqrt(n, r),
    ensures
        sqrt_floor(n) == r,
{
    assert(n >= 0) by (nonlinear_arith)
        requires
            is_sqrt(n, r),
    ;
    lemma_sqrt_floor(n);
    lemma_sqrt_unique(n, sqrt_floor(n), r);
}

/// The integer square root is monotone.
pub proof fn lemma_sqrt_mono(n1: int, n2: int)
    requires
        0 <= n1 <= n2,
    ensures
        sqrt_floor(n1) <= sqrt_floor(n2),
{
    lemma_sqrt_floor(n1);
    lemma_sqrt_floor(n2);
    let r1 = sqrt_floor(n1);
    let r2 = sqrt_floor(n2);
    if r1 > r2 {
        assert((r2 + 1) * (r2 + 1) <= r1 * r1) by (nonlinear_arith)
            requires
                0 <= r2,
                r2 + 1 <= r1,
        ;
    }
}

fn tdiv_i128(a: i128, b: i128) -> (r: i128)
    requires
        b > 0,
        a > i128::MIN,
    ensures
        r == tdiv(a as int, b as int),
{
    proof {
        if a >= 0 {
            lemma_tdiv_bound(a as int, a as int, b as int);
        } else {
            lemma_tdiv_bound(a as int, -(a as int), b as int);
        }
    }
    a / b
}

/// Fixed-point multiplication: `(a * b) / SCALE`, rounded toward zero.
pub fn fx_mul(a: i64, b: i64) -> (r: i64)
    requires
        i64::MIN <= fx_mul_spec(a as int, b as int) <= i64::MAX,
    ensures
        r == fx_mul_spec(a as int, b as int),
{
    proof {
        assert(-0x4000_0000_0000_0000_0000_0000_0000_0000
            <= (a as int) * (b as int)
            <= 0x4000_0000_0000_0000_0000_0000_0000_0000) by (nonlinear_arith)
            requires
                -0x8000_0000_0000_0000 <= a <= 0x8000_0000_0000_0000,
                -0x8000_0000_0000_0000 <= b <= 0x8000_0000_0000_0000,
        ;
    }
    let p: i128 = (a as i128) * (b as i128);
    let q = tdiv_i128(p, SCALE as i128);
    q as i64
}

/// Fixed-point division: `(a * SCALE) / b`, rounded toward zero.
pub fn fx_div(a: i64, b: i64) -> (r: i64)
    requires
        b != 0,
        i64::MIN <= fx_div_spec(a as int, b as int) <= i64::MAX,
    ensures
        r == fx_div_spec(a as int, b as int),
{
    proof {
        assert(-0x4000_0000_0000_0000_0000_0000_0000_0000
            <= (a as int) * (SCALE as int)
            <= 0x4000_0000_0000_0000_0000_0000_0000_0000) by (nonlinear_arith)
            requires
                -0x8000_0000_0000_0000 <= a <= 0x8000_0000_0000_0000,
        ;
    }
    let p: i128 = (a as i128) * (SCALE as i128);
    let q: i128 = if b > 0 {
        tdiv_i128(p, b as i128)
    } else {
        let n = tdiv_i128(p, -(b as i128));
        proof {
            assert(tdiv(p as int, b as int) == -tdiv(p as int, -(b as int)));
        }
        -n
    };
    q as i64
}

fn sqrt_u128(n: u128) -> (r: u128)
    requires
        n < 0x4000_0000_0000_0000_0000_0000_0000_0000,
    ensures
        is_sqrt(n as int, r as int),
{
    if n == 0 {
        return 0;
    }
    let mut lo: u128 = 0;
    let mut hi: u128 = 0x8000_0000_0000_0000;
    while hi - lo > 1
        invariant
            n < 0x4000_0000_0000_0000_0000_0000_0000_0000,
            lo < hi <= 0x8000_0000_0000_0000,
            (lo as int) * (lo as int) <= n as int,
            (n as int) < (hi as int) * (hi as int),
        decreases hi - lo,
    {
        let mid: u128 = lo + (hi - lo) / 2;
        assert(lo < mid < hi);
        let quot = n / mid;
        if mid > quot {
            proof {
                assert((mid as int) * (mid as int) > n as int) by (nonlinear_arith)
                    requires
                        mid > 0,
                        (mid as int) > (n as int) / (mid as int),
                        n >= 0,
                ;
            }
            hi = mid;
        } else {
            proof {
                assert((mid as int) * (mid as int) <= n as int) by (nonlinear_arith)
                    requires
                        mid > 0,
                        (mid as int) <= (n as int) / (mid as int),
                        n >= 0,
                ;
            }
            lo = mid;
        }
    }
    lo
}

/// Fixed-point square root: `sqrt(x * SCALE)`, rounded down, so that the
/// result is again a raw fixed-point value.
pub fn fx_sqrt(x: i64) -> (r: i64)
    requires
        x >= 0,
    ensures
        r == fx_sqrt_spec(x as int),
        r >= 0,
{
    proof {
        assert((x as int) * (SCALE as int) < 0x1_0000_0000_0000_0000_0000) by (nonlinear_arith)
            requires
                0 <= x <= 0x8000_0000_0000_0000,
        ;
    }
    let n: u128 = (x as u128) * (SCALE as u128);
    let s = sqrt_u128(n);
    proof {
        lemma_sqrt_floor_of(n as int, s as int);
        assert(s < 0x1_0000_0000_0000) by (nonlinear_arith)
            requires
                (s as int) * (s as int) <= n as int,
                (n as int) < 0x1_0000_0000_0000_0000_0000,
                s >= 0,
        ;
    }
    s as i64
}

} // verus!
