//! Position-plus-orientation transforms. Orientation is an angle in
//! millidegrees; a shape's world-space vertices are its local vertices
//! rotated by that angle and then translated.
use vstd::prelude::*;
use crate::math::{cosine_mdeg, sine_mdeg, tdiv, MAX_COORD, UNIT};
use crate::vec2::FlatVec2;

verus! {

/// A body's placement: translation in milliunits and rotation in
/// millidegrees about the origin of its local frame.
#[derive(Clone, Copy, PartialEq, Eq, Structural, Debug)]
pub struct FlatTransform {
    pub translation: FlatVec2,
    pub rotation: i64,
}

/// Whether a transform stays inside the simulation range.
pub open spec fn transform_in_range(t: FlatTransform) -> bool {
    &&& -MAX_COORD <= t.translation.x <= MAX_COORD
    &&& -MAX_COORD <= t.translation.y <= MAX_COORD
    &&& -MAX_COORD <= t.rotation <= MAX_COORD
}

/// The x coordinate of a local point carried to world space by a transform.
pub open spec fn world_x(t: FlatTransform, v: FlatVec2) -> int {
    tdiv(v.x * cosine_mdeg(t.rotation as int) - v.y * sine_mdeg(t.rotation as int), UNIT as int)
        + t.translation.x
}

/// The y coordinate of a local point carried to world space by a transform.
pub open spec fn world_y(t: FlatTransform, v: FlatVec2) -> int {
    tdiv(v.x * sine_mdeg(t.rotation as int) + v.y * cosine_mdeg(t.rotation as int), UNIT as int)
        + t.translation.y
}

/// A local point carried to world space, as a value.
pub open spec fn world_vert(t: FlatTransform, v: FlatVec2) -> FlatVec2 {
    FlatVec2 { x: world_x(t, v) as i64, y: world_y(t, v) as i64 }
}

impl FlatTransform {
    /// Place a body at a point with no rotation.
    pub fn from_xy(x: i64, y: i64) -> (r: FlatTransform)
        ensures
            r.translation == (FlatVec2 { x, y }),
            r.rotation == 0,
    {
        FlatTransform { translation: FlatVec2 { x, y }, rotation: 0 }
    }
}

} // verus!
