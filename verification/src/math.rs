//! Fixed-point numeric helpers: saturation, truncated division, integer
//! square root, approximate-equality predicates and degree-based
//! trigonometry, all over plain integers.
use vstd::prelude::*;
use vstd::arithmetic::mul::lemma_mul_inequality;

verus! {

/// Scale of fixed-point unit vectors, restitution coefficients and
/// trigonometric values: the value one is represented as `UNIT`.
pub const UNIT: i64 = 1000;

/// Scale of stored inverse masses: a body of mass `m` stores
/// `INV_MASS_SCALE / m`.
pub const INV_MASS_SCALE: i64 = 1_000_000;

/// Scale of stored inverse rotational inertias: a body of inertia `i` stores
/// `INV_INERTIA_SCALE / i`.
pub const INV_INERTIA_SCALE: i64 = 1_000_000_000_000;

/// Largest magnitude a coordinate, velocity component, angular velocity or
/// orientation may take; all integration and impulse updates saturate here.
pub const MAX_COORD: i64 = 2_000_000_000;

/// Largest extent (width, height or radius, in milliunits) of a shape.
pub const MAX_SHAPE: i64 = 1_000_000;

/// Largest mass of a dynamic body; also guarantees a positive stored
/// inverse mass.
pub const MAX_MASS: i64 = 1_000_000;

/// Largest rotational inertia a well-formed body can carry, from the
/// heaviest mass and widest box the shape bounds admit.
pub const MAX_INERTIA: i64 = 500_000_000_000_000_000;

/// Tolerance, in milliunits, under which two coordinates count as the same
/// place (0.005 world units).
pub const NEAR_EPS: i64 = 5;

/// Tolerance for squared distances, in squared milliunits.
pub const NEAR_EPS_SQ: i64 = 25;

/// Millidegrees in a half turn.
pub const HALF_TURN_MDEG: i64 = 180_000;

/// Millidegrees in a full turn.
pub const FULL_TURN_MDEG: i64 = 360_000;

/// Millidegrees in a quarter turn.
pub const QUARTER_TURN_MDEG: i64 = 90_000;

/// Truncated (round-toward-zero) division, the semantics of `/` on the
/// machine integers, for a positive divisor.
pub open spec fn tdiv(a: int, b: int) -> int
    recommends
        b > 0,
{
    if a >= 0 {
        a / b
    } else {
        -((-a) / b)
    }
}

/// A product of bounded factors is bounded by the product of the bounds.
pub proof fn lemma_mul_bound(a: int, b: int, aa: int, bb: int)
    by (nonlinear_arith)
    requires
        -aa <= a <= aa,
        -bb <= b <= bb,
    ensures
        -(aa * bb) <= a * b <= aa * bb,
{
}

/// Truncated division shrinks magnitudes: a dividend bounded by `bound`
/// gives a quotient bounded by `bound / b`.
pub proof fn lemma_tdiv_bound(a: int, b: int, bound: int)
    requires
        b > 0,
        0 <= bound,
        -bound <= a <= bound,
    ensures
        -(bound / b) <= tdiv(a, b) <= bound / b,
{
    if a >= 0 {
        vstd::arithmetic::div_mod::lemma_div_is_ordered(a, bound, b);
        vstd::arithmetic::div_mod::lemma_div_pos_is_pos(a, b);
        vstd::arithmetic::div_mod::lemma_div_pos_is_pos(bound, b);
    } else {
        vstd::arithmetic::div_mod::lemma_div_is_ordered(-a, bound, b);
        vstd::arithmetic::div_mod::lemma_div_pos_is_pos(-a, b);
    }
}

/// Truncated division is odd: negating the dividend negates the quotient.
pub proof fn lemma_tdiv_neg(a: int, b: int)
    requires
        b > 0,
    ensures
        tdiv(-a, b) == -tdiv(a, b),
{
    if a == 0 {
    }
}

/// Truncated division of an exact multiple recovers the factor.
pub proof fn lemma_tdiv_multiple(k: int, b: int)
    requires
        b > 0,
    ensures
        tdiv(k * b, b) == k,
{
    if k >= 0 {
        vstd::arithmetic::div_mod::lemma_div_by_multiple(k, b);
        assert(k * b >= 0) by (nonlinear_arith)
            requires
                k >= 0,
                b > 0,
        ;
    } else {
        vstd::arithmetic::div_mod::lemma_div_by_multiple(-k, b);
        assert(k * b < 0) by (nonlinear_arith)
            requires
                k < 0,
                b > 0,
        ;
        assert(-(k * b) == (-k) * b) by (nonlinear_arith);
    }
}

/// At angle zero the fixed-point sine vanishes and the cosine is one.
pub proof fn lemma_trig_at_zero()
    ensures
        sine_mdeg(0) == 0,
        cosine_mdeg(0) == UNIT as int,
{
    vstd::arithmetic::div_mod::lemma_mod_self_0(FULL_TURN_MDEG as int);
    vstd::arithmetic::div_mod::lemma_small_mod(0, FULL_TURN_MDEG as nat);
    vstd::arithmetic::div_mod::lemma_small_mod(90_000, FULL_TURN_MDEG as nat);
    assert(sine_half_turn(0) == 0) by {
        assert(0int * (180_000 - 0) == 0) by (nonlinear_arith);
        vstd::arithmetic::div_mod::lemma_div_by_multiple(0, 40_500_000_000);
        assert(0int * 40_500_000_000int == 0) by (nonlinear_arith);
    }
    assert(sine_half_turn(90_000) == UNIT as int) by {
        assert(90_000int * (180_000 - 90_000) == 8_100_000_000) by (nonlinear_arith);
        assert(4 * 8_100_000_000int * (UNIT as int) == 32_400_000_000_000) by (nonlinear_arith);
        assert(1000int * 32_400_000_000int == 32_400_000_000_000) by (nonlinear_arith);
        vstd::arithmetic::div_mod::lemma_div_by_multiple(1000, 32_400_000_000);
    }
}

/// Truncated division keeps the sign of the dividend.
pub proof fn lemma_tdiv_sign(a: int, b: int)
    requires
        b > 0,
    ensures
        a >= 0 ==> tdiv(a, b) >= 0,
        a <= 0 ==> tdiv(a, b) <= 0,
        a >= 0 ==> tdiv(a, b) * a >= 0,
        a < 0 ==> tdiv(a, b) * a >= 0,
{
    if a >= 0 {
        vstd::arithmetic::div_mod::lemma_div_pos_is_pos(a, b);
        lemma_mul_bound(tdiv(a, b), a, tdiv(a, b), a);
        assert(tdiv(a, b) * a >= 0) by (nonlinear_arith)
            requires
                tdiv(a, b) >= 0,
                a >= 0,
        ;
    } else {
        vstd::arithmetic::div_mod::lemma_div_pos_is_pos(-a, b);
        assert(tdiv(a, b) * a >= 0) by (nonlinear_arith)
            requires
                tdiv(a, b) <= 0,
                a < 0,
        ;
    }
}

/// Exact widened product of two machine integers.
pub fn wide_mul(a: i64, b: i64) -> (r: i128)
    ensures
        r == a as int * b as int,
{
    proof {
        lemma_mul_bound(
            a as int,
            b as int,
            0x8000_0000_0000_0000,
            0x8000_0000_0000_0000,
        );
    }
    a as i128 * b as i128
}

/// Saturation of an arbitrary integer into the simulation range
/// `[-MAX_COORD, MAX_COORD]`.
pub open spec fn sat(x: int) -> int {
    if x > MAX_COORD as int {
        MAX_COORD as int
    } else if x < -(MAX_COORD as int) {
        -(MAX_COORD as int)
    } else {
        x
    }
}

/// Saturate a wide intermediate into the simulation coordinate range.
pub fn saturate(x: i128) -> (r: i64)
    ensures
        r == sat(x as int),
        -MAX_COORD <= r <= MAX_COORD,
{
    if x > MAX_COORD as i128 {
        MAX_COORD
    } else if x < -(MAX_COORD as i128) {
        -MAX_COORD
    } else {
        x as i64
    }
}

/// The floor of the square root of a nonnegative integer.
pub open spec fn sqrt_floor(x: int) -> int
    recommends
        x >= 0,
{
    choose|r: int| 0 <= r && #[trigger] (r * r) <= x < (r + 1) * (r + 1)
}

/// There is a floor square root below any nonnegative integer.
proof fn lemma_sqrt_exists(x: int)
    requires
        x >= 0,
    ensures
        exists|r: int| 0 <= r && #[trigger] (r * r) <= x < (r + 1) * (r + 1),
    decreases x,
{
    if x == 0 {
        let w: int = 0;
        assert(0 <= w && w * w <= x < (w + 1) * (w + 1)) by (nonlinear_arith)
            requires
                w == 0,
                x == 0,
        ;
    } else {
        lemma_sqrt_exists(x - 1);
        let r0 = choose|r: int| 0 <= r && #[trigger] (r * r) <= x - 1 < (r + 1) * (r + 1);
        if (r0 + 1) * (r0 + 1) <= x {
            assert((r0 + 1) * (r0 + 1) > x - 1);
            assert((r0 + 2) * (r0 + 2) == (r0 + 1) * (r0 + 1) + 2 * (r0 + 1) + 1) by (nonlinear_arith);
            assert(0 <= r0 + 1 && (r0 + 1) * (r0 + 1) <= x < (r0 + 2) * (r0 + 2));
        } else {
            assert(0 <= r0 && r0 * r0 <= x < (r0 + 1) * (r0 + 1));
        }
    }
}

/// The floor square root is unique.
proof fn lemma_sqrt_unique(x: int, r1: int, r2: int)
    requires
        0 <= r1 && r1 * r1 <= x < (r1 + 1) * (r1 + 1),
        0 <= r2 && r2 * r2 <= x < (r2 + 1) * (r2 + 1),
    ensures
        r1 == r2,
{
    if r1 < r2 {
        lemma_mul_inequality(r1 + 1, r2, r2);
        lemma_mul_inequality(r1 + 1, r2, r1 + 1);
        assert(false);
    }
    if r2 < r1 {
        lemma_mul_inequality(r2 + 1, r1, r1);
        lemma_mul_inequality(r2 + 1, r1, r2 + 1);
        assert(false);
    }
}

/// `sqrt_floor` deserves its name.
pub proof fn lemma_sqrt_floor(x: int)
    requires
        x >= 0,
    ensures
        0 <= sqrt_floor(x),
        sqrt_floor(x) * sqrt_floor(x) <= x,
        x < (sqrt_floor(x) + 1) * (sqrt_floor(x) + 1),
{
    lemma_sqrt_exists(x);
}

/// Monotonicity of the floor square root.
pub proof fn lemma_sqrt_floor_ordered(x: int, y: int)
    requires
        0 <= x <= y,
    ensures
        sqrt_floor(x) <= sqrt_floor(y),
{
    lemma_sqrt_floor(x);
    lemma_sqrt_floor(y);
    let rx = sqrt_floor(x);
    let ry = sqrt_floor(y);
    if ry < rx {
        lemma_mul_inequality(ry + 1, rx, rx);
        lemma_mul_inequality(ry + 1, rx, ry + 1);
        assert(false);
    }
}

/// Floor square root of a wide nonnegative integer, by binary search.
pub fn isqrt(x: u128) -> (r: u64)
    ensures
        r == sqrt_floor(x as int),
{
    let mut lo: u128 = 0;
    let mut hi: u128 = 18_446_744_073_709_551_616;  // 2^64
    proof {
        assert((hi as int) * (hi as int) > x as int) by (nonlinear_arith)
            requires
                hi == 18_446_744_073_709_551_616,
                x <= u128::MAX,
        ;
    }
    while lo + 1 < hi
        invariant
            0 <= lo < hi <= 18_446_744_073_709_551_616,
            (lo as int) * (lo as int) <= x as int,
            (hi as int) * (hi as int) > x as int,
        decreases hi - lo,
    {
        let mid = lo + (hi - lo) / 2;
        proof {
            assert((mid as int) * (mid as int) < 0x100000000000000000000000000000000) by (nonlinear_arith)
                requires
                    0 <= mid < 18_446_744_073_709_551_616,
            ;
        }
        if mid * mid <= x {
            lo = mid;
        } else {
            hi = mid;
        }
    }
    proof {
        lemma_sqrt_floor(x as int);
        lemma_sqrt_unique(x as int, lo as int, sqrt_floor(x as int));
    }
    lo as u64
}

/// The least of four integers.
pub open spec fn min4(a: int, b: int, c: int, d: int) -> int {
    vstd::math::min(vstd::math::min(vstd::math::min(a, b), c), d)
}

/// The greatest of four integers.
pub open spec fn max4(a: int, b: int, c: int, d: int) -> int {
    vstd::math::max(vstd::math::max(vstd::math::max(a, b), c), d)
}

/// Whether two scalar coordinates are within `NEAR_EPS` of each other.
pub open spec fn near_eq(a: int, b: int) -> bool {
    -(NEAR_EPS as int) < a - b < NEAR_EPS as int
}

/// Executable approximate equality of coordinates.
pub fn nearly_equal(a: i64, b: i64) -> (r: bool)
    ensures
        r == near_eq(a as int, b as int),
{
    let d: i128 = a as i128 - b as i128;
    -(NEAR_EPS as i128) < d && d < NEAR_EPS as i128
}

/// Whether two squared distances are within `NEAR_EPS_SQ` of each other.
pub open spec fn near_eq_sq(a: int, b: int) -> bool {
    -(NEAR_EPS_SQ as int) < a - b < NEAR_EPS_SQ as int
}

/// Executable approximate equality of squared distances.
pub fn nearly_equal_sq(a: i128, b: i128) -> (r: bool)
    requires
        0 <= a <= i128::MAX / 2,
        0 <= b <= i128::MAX / 2,
    ensures
        r == near_eq_sq(a as int, b as int),
{
    let d: i128 = a - b;
    -(NEAR_EPS_SQ as i128) < d && d < NEAR_EPS_SQ as i128
}

/// Euclidean remainder, in `[0, b)` for `b > 0`.
pub open spec fn emod(a: int, b: int) -> int
    recommends
        b > 0,
{
    a % b
}

/// Executable Euclidean remainder of an angle by the full turn: the input is
/// shifted into nonnegative range by a whole number of turns first.
pub fn rem_full_turn(a: i64) -> (r: i64)
    requires
        -4_000_000_000_000 <= a <= 4_000_000_000_000,
    ensures
        r == emod(a as int, FULL_TURN_MDEG as int),
        0 <= r < FULL_TURN_MDEG,
{
    let shifted: i64 = a + 4_000_000_320_000;
    let m: i64 = shifted % FULL_TURN_MDEG;
    proof {
        vstd::arithmetic::div_mod::lemma_mod_multiples_vanish(
            11_111_112,
            a as int,
            FULL_TURN_MDEG as int,
        );
        vstd::arithmetic::div_mod::lemma_mod_bound(a as int, FULL_TURN_MDEG as int);
    }
    m
}

/// The Bhaskara quotient: sine of `m` millidegrees scaled by `UNIT`, for
/// `m` in `[0, HALF_TURN_MDEG]`.
pub open spec fn sine_half_turn(m: int) -> int
    recommends
        0 <= m <= HALF_TURN_MDEG as int,
{
    let p = m * (HALF_TURN_MDEG as int - m);
    (4 * p * (UNIT as int)) / (40_500_000_000 - p)
}

/// Sine of an arbitrary angle in millidegrees, scaled by `UNIT`.
pub open spec fn sine_mdeg(a: int) -> int {
    let m = emod(a, FULL_TURN_MDEG as int);
    if m <= HALF_TURN_MDEG as int {
        sine_half_turn(m)
    } else {
        -sine_half_turn(m - HALF_TURN_MDEG as int)
    }
}

/// Cosine of an arbitrary angle in millidegrees, scaled by `UNIT`.
pub open spec fn cosine_mdeg(a: int) -> int {
    sine_mdeg(a + QUARTER_TURN_MDEG as int)
}

/// The Bhaskara quotient stays within `[0, UNIT]` on the first half turn.
proof fn lemma_sine_half_turn_bounds(m: int)
    requires
        0 <= m <= HALF_TURN_MDEG as int,
    ensures
        0 <= sine_half_turn(m) <= UNIT as int,
{
    let p = m * (HALF_TURN_MDEG as int - m);
    assert(0 <= p <= 8_100_000_000) by (nonlinear_arith)
        requires
            p == m * (HALF_TURN_MDEG as int - m),
            0 <= m <= HALF_TURN_MDEG as int,
    ;
    let num = 4 * p * (UNIT as int);
    let den = 40_500_000_000 - p;
    assert(num <= (UNIT as int) * den) by (nonlinear_arith)
        requires
            num == 4 * p * (UNIT as int),
            den == 40_500_000_000 - p,
            0 <= p <= 8_100_000_000,
    ;
    assert(num / den <= (UNIT as int) * den / den) by {
        vstd::arithmetic::div_mod::lemma_div_is_ordered(num, (UNIT as int) * den, den);
    }
    assert((UNIT as int) * den / den == UNIT as int) by {
        vstd::arithmetic::div_mod::lemma_div_by_multiple(UNIT as int, den);
    }
    assert(num / den >= 0) by {
        vstd::arithmetic::div_mod::lemma_div_pos_is_pos(num, den);
    }
}

/// The sine of any angle is a fixed-point value in `[-UNIT, UNIT]`.
pub proof fn lemma_sine_bounds(a: int)
    ensures
        -(UNIT as int) <= sine_mdeg(a) <= UNIT as int,
{
    let m = emod(a, FULL_TURN_MDEG as int);
    vstd::arithmetic::div_mod::lemma_mod_bound(a, FULL_TURN_MDEG as int);
    if m <= HALF_TURN_MDEG as int {
        lemma_sine_half_turn_bounds(m);
    } else {
        lemma_sine_half_turn_bounds(m - HALF_TURN_MDEG as int);
    }
}

/// The cosine of any angle is a fixed-point value in `[-UNIT, UNIT]`.
pub proof fn lemma_cosine_bounds(a: int)
    ensures
        -(UNIT as int) <= cosine_mdeg(a) <= UNIT as int,
{
    lemma_sine_bounds(a + QUARTER_TURN_MDEG as int);
}

/// Sine of `a` millidegrees, scaled by `UNIT`, by the Bhaskara
/// approximation folded onto the first half turn.
pub fn sine_fixed(a: i64) -> (r: i64)
    requires
        -4_000_000_000_000 <= a <= 4_000_000_000_000,
    ensures
        r == sine_mdeg(a as int),
        -UNIT <= r <= UNIT,
{
    let m: i64 = rem_full_turn(a);
    let (m_half, negate): (i64, bool) = if m <= HALF_TURN_MDEG {
        (m, false)
    } else {
        (m - HALF_TURN_MDEG, true)
    };
    proof {
        assert(0 <= m_half as int * (180_000 - m_half as int) <= 8_100_000_000)
            by (nonlinear_arith)
            requires
                0 <= m_half as int <= 180_000,
        ;
    }
    let p: i64 = m_half * (HALF_TURN_MDEG - m_half);
    let q: i64 = (4 * p * UNIT) / (40_500_000_000 - p);
    proof {
        lemma_sine_half_turn_bounds(m_half as int);
    }
    if negate {
        -q
    } else {
        q
    }
}

/// Cosine of `a` millidegrees, scaled by `UNIT`.
pub fn cosine_fixed(a: i64) -> (r: i64)
    requires
        -MAX_COORD <= a <= MAX_COORD,
    ensures
        r == cosine_mdeg(a as int),
        -UNIT <= r <= UNIT,
{
    sine_fixed(a + QUARTER_TURN_MDEG)
}

} // verus!
