//! Plane vectors over fixed-point integer coordinates (milliunits), with the
//! exact dot, cross and distance forms the collision code is specified by.
use vstd::prelude::*;

verus! {

/// Magnitude bound under which every vector handled by the library stays;
/// wide enough for any world coordinate plus any shape extent.
pub const VEC_LIMIT: i64 = 1_000_000_000_000_000;

/// A two-dimensional vector of fixed-point integer coordinates.
#[derive(Clone, Copy, PartialEq, Eq, Structural, Debug)]
pub struct FlatVec2 {
    pub x: i64,
    pub y: i64,
}

/// A three-dimensional vector of fixed-point integer coordinates, the form in
/// which the host's transforms carry translations.
#[derive(Clone, Copy, PartialEq, Eq, Structural, Debug)]
pub struct FlatVec3 {
    pub x: i64,
    pub y: i64,
    pub z: i64,
}

/// Whether both coordinates stay within `VEC_LIMIT`, the machine-range bound
/// every arithmetic form below needs.
pub open spec fn vec_in_range(v: FlatVec2) -> bool {
    -VEC_LIMIT <= v.x <= VEC_LIMIT && -VEC_LIMIT <= v.y <= VEC_LIMIT
}

/// The dot product, exactly.
pub open spec fn dot(a: FlatVec2, b: FlatVec2) -> int {
    a.x * b.x + a.y * b.y
}

/// The two-dimensional cross product (perp-dot), exactly.
pub open spec fn cross(a: FlatVec2, b: FlatVec2) -> int {
    a.x * b.y - a.y * b.x
}

/// The squared Euclidean distance between two points, exactly.
pub open spec fn dist_sq(a: FlatVec2, b: FlatVec2) -> int {
    (b.x - a.x) * (b.x - a.x) + (b.y - a.y) * (b.y - a.y)
}

/// The squared length of a vector, exactly.
pub open spec fn len_sq(v: FlatVec2) -> int {
    v.x * v.x + v.y * v.y
}

impl FlatVec2 {
    /// Build a vector from its coordinates.
    pub fn new(x: i64, y: i64) -> (r: FlatVec2)
        ensures
            r == (FlatVec2 { x, y }),
    {
        FlatVec2 { x, y }
    }

    /// The zero vector.
    pub fn zero() -> (r: FlatVec2)
        ensures
            r == (FlatVec2 { x: 0, y: 0 }),
    {
        FlatVec2 { x: 0, y: 0 }
    }

    /// Componentwise sum.
    pub fn plus(self, o: FlatVec2) -> (r: FlatVec2)
        requires
            vec_in_range(self),
            vec_in_range(o),
        ensures
            r.x == self.x + o.x,
            r.y == self.y + o.y,
    {
        FlatVec2 { x: self.x + o.x, y: self.y + o.y }
    }

    /// Componentwise difference.
    pub fn minus(self, o: FlatVec2) -> (r: FlatVec2)
        requires
            vec_in_range(self),
            vec_in_range(o),
        ensures
            r.x == self.x - o.x,
            r.y == self.y - o.y,
    {
        FlatVec2 { x: self.x - o.x, y: self.y - o.y }
    }

    /// The opposite vector.
    pub fn neg(self) -> (r: FlatVec2)
        requires
            vec_in_range(self),
        ensures
            r.x == -self.x,
            r.y == -self.y,
    {
        FlatVec2 { x: -self.x, y: -self.y }
    }

    /// The counterclockwise perpendicular.
    pub fn perp(self) -> (r: FlatVec2)
        requires
            vec_in_range(self),
        ensures
            r.x == -self.y,
            r.y == self.x,
    {
        FlatVec2 { x: -self.y, y: self.x }
    }

    /// The exact dot product, widened.
    pub fn dot_wide(self, o: FlatVec2) -> (r: i128)
        requires
            vec_in_range(self),
            vec_in_range(o),
        ensures
            r == dot(self, o),
    {
        proof {
            crate::math::lemma_mul_bound(self.x as int, o.x as int, VEC_LIMIT as int, VEC_LIMIT as int);
            crate::math::lemma_mul_bound(self.y as int, o.y as int, VEC_LIMIT as int, VEC_LIMIT as int);
        }
        self.x as i128 * o.x as i128 + self.y as i128 * o.y as i128
    }

    /// The exact perp-dot (two-dimensional cross) product, widened.
    pub fn cross_wide(self, o: FlatVec2) -> (r: i128)
        requires
            vec_in_range(self),
            vec_in_range(o),
        ensures
            r == cross(self, o),
    {
        proof {
            crate::math::lemma_mul_bound(self.x as int, o.y as int, VEC_LIMIT as int, VEC_LIMIT as int);
            crate::math::lemma_mul_bound(self.y as int, o.x as int, VEC_LIMIT as int, VEC_LIMIT as int);
        }
        self.x as i128 * o.y as i128 - self.y as i128 * o.x as i128
    }

    /// The exact squared length, widened.
    pub fn length_squared(self) -> (r: i128)
        requires
            vec_in_range(self),
        ensures
            r == len_sq(self),
            r >= 0,
    {
        proof {
            let a = self.x as int;
            let b = self.y as int;
            crate::math::lemma_mul_bound(a, a, VEC_LIMIT as int, VEC_LIMIT as int);
            crate::math::lemma_mul_bound(b, b, VEC_LIMIT as int, VEC_LIMIT as int);
            assert(a * a >= 0) by (nonlinear_arith);
            assert(b * b >= 0) by (nonlinear_arith);
        }
        self.x as i128 * self.x as i128 + self.y as i128 * self.y as i128
    }

    /// The exact squared distance to another point, widened.
    pub fn distance_squared(self, o: FlatVec2) -> (r: i128)
        requires
            vec_in_range(self),
            vec_in_range(o),
        ensures
            r == dist_sq(self, o),
            r >= 0,
    {
        let dx: i128 = o.x as i128 - self.x as i128;
        let dy: i128 = o.y as i128 - self.y as i128;
        proof {
            let a = o.x as int - self.x as int;
            let b = o.y as int - self.y as int;
            crate::math::lemma_mul_bound(a, a, 2 * VEC_LIMIT as int, 2 * VEC_LIMIT as int);
            crate::math::lemma_mul_bound(b, b, 2 * VEC_LIMIT as int, 2 * VEC_LIMIT as int);
            assert(a * a >= 0) by (nonlinear_arith);
            assert(b * b >= 0) by (nonlinear_arith);
        }
        dx * dx + dy * dy
    }
}

} // verus!
