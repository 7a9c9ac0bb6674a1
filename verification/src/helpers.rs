//! Conversions between the plane vectors the physics works in and the
//! three-component form the host's transforms carry, and the recomputation
//! of a shape's world-space vertices from its current transform.
use vstd::prelude::*;
use crate::math::{cosine_fixed, lemma_tdiv_bound, MAX_COORD, MAX_SHAPE, sine_fixed, UNIT};
use crate::transform::{transform_in_range, world_x, world_y, FlatTransform};
use crate::vec2::{FlatVec2, FlatVec3};

verus! {

/// Drop the third component of a transform translation.
pub fn to_vec2(vec3: &FlatVec3) -> (r: FlatVec2)
    ensures
        r.x == vec3.x,
        r.y == vec3.y,
{
    FlatVec2 { x: vec3.x, y: vec3.y }
}

/// Lift a plane vector into the transform's three-component form.
pub fn to_vec3(vec2: &FlatVec2) -> (r: FlatVec3)
    ensures
        r.x == vec2.x,
        r.y == vec2.y,
        r.z == 0,
{
    FlatVec3 { x: vec2.x, y: vec2.y, z: 0 }
}

/// Carry one local point to world space: rotate by the transform's
/// orientation, then translate.
pub fn world_point(transform: &FlatTransform, v: FlatVec2) -> (r: FlatVec2)
    requires
        transform_in_range(*transform),
        -MAX_SHAPE <= v.x <= MAX_SHAPE,
        -MAX_SHAPE <= v.y <= MAX_SHAPE,
    ensures
        r.x == world_x(*transform, v),
        r.y == world_y(*transform, v),
        -MAX_COORD - 2 * MAX_SHAPE <= r.x <= MAX_COORD + 2 * MAX_SHAPE,
        -MAX_COORD - 2 * MAX_SHAPE <= r.y <= MAX_COORD + 2 * MAX_SHAPE,
{
    let c: i64 = cosine_fixed(transform.rotation);
    let s: i64 = sine_fixed(transform.rotation);
    proof {
        assert(-1_000_000_000 <= v.x * c <= 1_000_000_000) by (nonlinear_arith)
            requires
                -1_000_000 <= v.x <= 1_000_000,
                -1000 <= c <= 1000,
        ;
        assert(-1_000_000_000 <= v.y * s <= 1_000_000_000) by (nonlinear_arith)
            requires
                -1_000_000 <= v.y <= 1_000_000,
                -1000 <= s <= 1000,
        ;
        assert(-1_000_000_000 <= v.x * s <= 1_000_000_000) by (nonlinear_arith)
            requires
                -1_000_000 <= v.x <= 1_000_000,
                -1000 <= s <= 1000,
        ;
        assert(-1_000_000_000 <= v.y * c <= 1_000_000_000) by (nonlinear_arith)
            requires
                -1_000_000 <= v.y <= 1_000_000,
                -1000 <= c <= 1000,
        ;
        lemma_tdiv_bound(v.x * c - v.y * s, UNIT as int, 2_000_000_000);
        lemma_tdiv_bound(v.x * s + v.y * c, UNIT as int, 2_000_000_000);
    }
    let rx: i64 = (v.x * c - v.y * s) / UNIT + transform.translation.x;
    let ry: i64 = (v.x * s + v.y * c) / UNIT + transform.translation.y;
    FlatVec2 { x: rx, y: ry }
}

/// Recompute a box's four world-space vertices from its current transform;
/// they are never cached across sub-steps.
pub fn get_global_vertices(transform: &FlatTransform, vertices: &[FlatVec2; 4]) -> (r: [FlatVec2; 4])
    requires
        transform_in_range(*transform),
        forall|k: int|
            0 <= k < 4 ==> -MAX_SHAPE <= (#[trigger] vertices@[k]).x <= MAX_SHAPE && -MAX_SHAPE
                <= vertices@[k].y <= MAX_SHAPE,
    ensures
        forall|k: int|
            0 <= k < 4 ==> (#[trigger] r@[k]).x == world_x(*transform, vertices@[k]) && r@[k].y
                == world_y(*transform, vertices@[k]),
        forall|k: int|
            0 <= k < 4 ==> -MAX_COORD - 2 * MAX_SHAPE <= (#[trigger] r@[k]).x <= MAX_COORD + 2
                * MAX_SHAPE && -MAX_COORD - 2 * MAX_SHAPE <= r@[k].y <= MAX_COORD + 2 * MAX_SHAPE,
{
    let r: [FlatVec2; 4] = [
        world_point(transform, vertices[0]),
        world_point(transform, vertices[1]),
        world_point(transform, vertices[2]),
        world_point(transform, vertices[3]),
    ];
    r
}

} // verus!
