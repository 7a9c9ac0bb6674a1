//! Axis-aligned bounding boxes, recomputed fully each broad-phase pass.
use vstd::prelude::*;
use crate::vec2::FlatVec2;

verus! {

/// An axis-aligned bounding box enclosing a body's current world-space shape.
#[derive(Clone, Copy, PartialEq, Eq, Structural, Debug)]
pub struct FlatAABB {
    pub min: FlatVec2,
    pub max: FlatVec2,
}

impl FlatAABB {
    /// Build a bounding box from its corner coordinates.
    pub fn new(min_x: i64, min_y: i64, max_x: i64, max_y: i64) -> (r: FlatAABB)
        ensures
            r.min == (FlatVec2 { x: min_x, y: min_y }),
            r.max == (FlatVec2 { x: max_x, y: max_y }),
    {
        FlatAABB {
            min: FlatVec2 { x: min_x, y: min_y },
            max: FlatVec2 { x: max_x, y: max_y },
        }
    }
}

impl Default for FlatAABB {
    /// The degenerate box at the origin.
    fn default() -> (r: Self)
        ensures
            r.min == (FlatVec2 { x: 0, y: 0 }),
            r.max == (FlatVec2 { x: 0, y: 0 }),
    {
        FlatAABB {
            min: FlatVec2 { x: 0, y: 0 },
            max: FlatVec2 { x: 0, y: 0 },
        }
    }
}

} // verus!
