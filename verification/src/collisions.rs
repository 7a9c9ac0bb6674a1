//! Narrow-phase collision detection and contact-manifold construction for
//! circles and oriented boxes, together with the collider's bounding-box
//! bookkeeping.
use vstd::prelude::*;
use crate::flat_aabb::FlatAABB;
use crate::flat_body::{BoxParams, CircleParams};
use crate::helpers::get_global_vertices;
use crate::math::{
    lemma_mul_bound, lemma_sqrt_floor, lemma_tdiv_bound, lemma_tdiv_sign, sqrt_floor, tdiv,
    wide_mul, isqrt, MAX_COORD, MAX_SHAPE, UNIT,
};
use crate::transform::{transform_in_range, world_x, world_y, FlatTransform};
use crate::vec2::{dist_sq, vec_in_range, FlatVec2, VEC_LIMIT};

verus! {

/// The largest coordinate a world-space vertex or contact point can carry: a
/// translation plus two shape extents of rotation slack.
pub const WORLD_LIMIT: i64 = 2_002_000_000;

/// A shape descriptor: an oriented box given by its local corner vertices, or
/// a circle given by its radius.
#[derive(Clone, Copy)]
pub enum Shape {
    Box(BoxParams),
    Circle(CircleParams),
}

/// Well-formedness of a shape: extents within range, the stored area the
/// exact product or quadrature of the dimensions, and box vertices the four
/// corners centred on the local origin.
pub open spec fn shape_wf(s: Shape) -> bool {
    match s {
        Shape::Box(bp) => {
            let left = -((bp.width as int) / 2);
            let right = left + bp.width;
            let bottom = -((bp.height as int) / 2);
            let top = bottom + bp.height;
            &&& 0 <= bp.width <= MAX_SHAPE
            &&& 0 <= bp.height <= MAX_SHAPE
            &&& bp.area == bp.width * bp.height
            &&& bp.verticies@[0].x == left && bp.verticies@[0].y == top
            &&& bp.verticies@[1].x == right && bp.verticies@[1].y == top
            &&& bp.verticies@[2].x == right && bp.verticies@[2].y == bottom
            &&& bp.verticies@[3].x == left && bp.verticies@[3].y == bottom
            &&& forall|k: int|
                0 <= k < 4 ==> -MAX_SHAPE <= (#[trigger] bp.verticies@[k]).x <= MAX_SHAPE
                    && -MAX_SHAPE <= bp.verticies@[k].y <= MAX_SHAPE
        },
        Shape::Circle(cp) => {
            &&& 0 <= cp.radius <= MAX_SHAPE
            &&& cp.area == tdiv(3_141_592_653 * cp.radius * cp.radius, 1_000_000_000)
        },
    }
}

impl Default for Shape {
    /// The degenerate zero-size box.
    fn default() -> (r: Self)
        ensures
            shape_wf(r),
            (r matches Shape::Box(bp) && bp.width == 0 && bp.height == 0),
    {
        Shape::Box(BoxParams::new(0, 0))
    }
}

/// A body's collision shape together with its cached bounding box.
#[derive(Clone, Copy)]
pub struct Collider {
    pub aabb: FlatAABB,
    pub update_aabb: bool,
    pub shape: Shape,
}

/// Well-formedness of a collider is that of its shape.
pub open spec fn collider_wf(c: Collider) -> bool {
    shape_wf(c.shape)
}

/// The lower x edge of the bounding box a shape covers under a transform.
pub open spec fn aabb_min_x(t: FlatTransform, s: Shape) -> int {
    match s {
        Shape::Box(bp) => crate::math::min4(
            world_x(t, bp.verticies@[0]),
            world_x(t, bp.verticies@[1]),
            world_x(t, bp.verticies@[2]),
            world_x(t, bp.verticies@[3]),
        ),
        Shape::Circle(cp) => t.translation.x - cp.radius,
    }
}

/// The lower y edge of the bounding box a shape covers under a transform.
pub open spec fn aabb_min_y(t: FlatTransform, s: Shape) -> int {
    match s {
        Shape::Box(bp) => crate::math::min4(
            world_y(t, bp.verticies@[0]),
            world_y(t, bp.verticies@[1]),
            world_y(t, bp.verticies@[2]),
            world_y(t, bp.verticies@[3]),
        ),
        Shape::Circle(cp) => t.translation.y - cp.radius,
    }
}

/// The upper x edge of the bounding box a shape covers under a transform.
pub open spec fn aabb_max_x(t: FlatTransform, s: Shape) -> int {
    match s {
        Shape::Box(bp) => crate::math::max4(
            world_x(t, bp.verticies@[0]),
            world_x(t, bp.verticies@[1]),
            world_x(t, bp.verticies@[2]),
            world_x(t, bp.verticies@[3]),
        ),
        Shape::Circle(cp) => t.translation.x + cp.radius,
    }
}

/// The upper y edge of the bounding box a shape covers under a transform.
pub open spec fn aabb_max_y(t: FlatTransform, s: Shape) -> int {
    match s {
        Shape::Box(bp) => crate::math::max4(
            world_y(t, bp.verticies@[0]),
            world_y(t, bp.verticies@[1]),
            world_y(t, bp.verticies@[2]),
            world_y(t, bp.verticies@[3]),
        ),
        Shape::Circle(cp) => t.translation.y + cp.radius,
    }
}

impl Collider {
    /// Wrap a shape in a collider with an empty cached bounding box.
    pub fn new(shape: Shape) -> (r: Self)
        ensures
            r.shape == shape,
            r.update_aabb == false,
            r.aabb == (FlatAABB { min: FlatVec2 { x: 0, y: 0 }, max: FlatVec2 { x: 0, y: 0 } }),
    {
        Collider { aabb: FlatAABB::new(0, 0, 0, 0), update_aabb: false, shape }
    }

    /// Mark the cached bounding box stale.
    pub fn update_aabb(&mut self)
        ensures
            final(self).update_aabb == true,
            final(self).aabb == old(self).aabb,
            final(self).shape == old(self).shape,
    {
        self.update_aabb = true;
    }

    /// Recompute, cache and return the bounding box the shape covers under
    /// the given transform.
    pub fn get_aabb(&mut self, transform: &FlatTransform) -> (r: FlatAABB)
        requires
            transform_in_range(*transform),
            collider_wf(*old(self)),
        ensures
            final(self).shape == old(self).shape,
            final(self).update_aabb == false,
            final(self).aabb == r,
            r.min.x == aabb_min_x(*transform, old(self).shape),
            r.min.y == aabb_min_y(*transform, old(self).shape),
            r.max.x == aabb_max_x(*transform, old(self).shape),
            r.max.y == aabb_max_y(*transform, old(self).shape),
    {
        let aabb: FlatAABB = match &self.shape {
            Shape::Box(box_params) => {
                let vertices = get_global_vertices(transform, &box_params.verticies);
                let min_x = min_i64(
                    min_i64(min_i64(vertices[0].x, vertices[1].x), vertices[2].x),
                    vertices[3].x,
                );
                let min_y = min_i64(
                    min_i64(min_i64(vertices[0].y, vertices[1].y), vertices[2].y),
                    vertices[3].y,
                );
                let max_x = max_i64(
                    max_i64(max_i64(vertices[0].x, vertices[1].x), vertices[2].x),
                    vertices[3].x,
                );
                let max_y = max_i64(
                    max_i64(max_i64(vertices[0].y, vertices[1].y), vertices[2].y),
                    vertices[3].y,
                );
                FlatAABB::new(min_x, min_y, max_x, max_y)
            },
            Shape::Circle(circle_params) => FlatAABB::new(
                transform.translation.x - circle_params.radius,
                transform.translation.y - circle_params.radius,
                transform.translation.x + circle_params.radius,
                transform.translation.y + circle_params.radius,
            ),
        };
        self.aabb = aabb;
        self.update_aabb = false;
        aabb
    }
}

/// The smaller of two machine integers.
pub fn min_i64(a: i64, b: i64) -> (r: i64)
    ensures
        r == vstd::math::min(a as int, b as int),
{
    if a < b {
        a
    } else {
        b
    }
}

/// The larger of two machine integers.
pub fn max_i64(a: i64, b: i64) -> (r: i64)
    ensures
        r == vstd::math::max(a as int, b as int),
{
    if a > b {
        a
    } else {
        b
    }
}

/// A box's four world-space corner vertices under a transform, as values.
pub open spec fn box_world_verts(t: FlatTransform, bp: BoxParams) -> Seq<FlatVec2> {
    Seq::new(4, |i: int| crate::transform::world_vert(t, bp.verticies@[i]))
}

/// An executable vertex array whose components realise a box's world
/// coordinates is exactly `box_world_verts`.
pub proof fn lemma_world_verts_match(t: FlatTransform, bp: BoxParams, w: [FlatVec2; 4])
    requires
        forall|k: int|
            0 <= k < 4 ==> (#[trigger] w@[k]).x == world_x(t, bp.verticies@[k]) && w@[k].y
                == world_y(t, bp.verticies@[k]),
    ensures
        w@ == box_world_verts(t, bp),
{
    broadcast use vstd::array::group_array_axioms;

    assert forall|k: int| 0 <= k < 4 implies w@[k] == #[trigger] box_world_verts(t, bp)[k] by {
        assert(w@[k].x == world_x(t, bp.verticies@[k]));
        assert(w@[k].y == world_y(t, bp.verticies@[k]));
    }
    assert(w@ =~= box_world_verts(t, bp));
}

/// The contact points a shape pair produces, as a value: the finished
/// vertex-edge scan for two boxes, the closest edge point for a box and a
/// circle, and the point one radius along the line of centres for two
/// circles (the first centre itself when the centres coincide).
pub open spec fn contacts_spec(
    ta: FlatTransform,
    sa: Shape,
    tb: FlatTransform,
    sb: Shape,
) -> Seq<FlatVec2> {
    match (sa, sb) {
        (Shape::Box(bpa), Shape::Box(bpb)) => {
            let st = ppc_state(box_world_verts(ta, bpa), box_world_verts(tb, bpb), 32);
            if st.5 == 2 {
                seq![
                    FlatVec2 { x: st.0 as i64, y: st.1 as i64 },
                    FlatVec2 { x: st.2 as i64, y: st.3 as i64 },
                ]
            } else {
                seq![FlatVec2 { x: st.0 as i64, y: st.1 as i64 }]
            }
        },
        (Shape::Box(bpa), Shape::Circle(cpb)) => {
            let pc = pc_contact(tb.translation, box_world_verts(ta, bpa), 4);
            seq![FlatVec2 { x: pc.0 as i64, y: pc.1 as i64 }]
        },
        (Shape::Circle(cpa), Shape::Box(bpb)) => {
            let pc = pc_contact(ta.translation, box_world_verts(tb, bpb), 4);
            seq![FlatVec2 { x: pc.0 as i64, y: pc.1 as i64 }]
        },
        (Shape::Circle(cpa), Shape::Circle(cpb)) => {
            if dist_sq(ta.translation, tb.translation) == 0 {
                seq![ta.translation]
            } else {
                seq![
                    FlatVec2 {
                        x: (ta.translation.x + tdiv(
                            unit_toward_x(ta.translation, tb.translation) * cpa.radius,
                            UNIT as int,
                        )) as i64,
                        y: (ta.translation.y + tdiv(
                            unit_toward_y(ta.translation, tb.translation) * cpa.radius,
                            UNIT as int,
                        )) as i64,
                    },
                ]
            }
        },
    }
}

/// The contact points of a colliding pair, dispatched on the two shapes:
/// box-box by the vertex-edge scan over the current world vertices,
/// box-circle by the closest point on the box's edges, circle-circle by the
/// point one radius along the line of centres. The result is exactly
/// `contacts_spec` of the pair.
pub fn find_contanct_points(
    trans_a: &FlatTransform,
    collider_a: &Collider,
    trans_b: &FlatTransform,
    collider_b: &Collider,
) -> (r: ContactPoints)
    requires
        transform_in_range(*trans_a),
        transform_in_range(*trans_b),
        collider_wf(*collider_a),
        collider_wf(*collider_b),
    ensures
        1 <= r@.len() <= 2,
        forall|i: int|
            0 <= i < r@.len() ==> -WORLD_LIMIT <= (#[trigger] r@[i]).x <= WORLD_LIMIT
                && -WORLD_LIMIT <= r@[i].y <= WORLD_LIMIT,
        r@ == contacts_spec(*trans_a, collider_a.shape, *trans_b, collider_b.shape),
{
    match (&collider_a.shape, &collider_b.shape) {
        (Shape::Box(box_params_a), Shape::Box(box_params_b)) => {
            let vertices_a = get_global_vertices(trans_a, &box_params_a.verticies);
            let vertices_b = get_global_vertices(trans_b, &box_params_b.verticies);
            let r = find_contact_points_polygon_polygon(&vertices_a, &vertices_b);
            proof {
                lemma_world_verts_match(*trans_a, *box_params_a, vertices_a);
                lemma_world_verts_match(*trans_b, *box_params_b, vertices_b);
                assert(r@ =~= contacts_spec(
                    *trans_a,
                    collider_a.shape,
                    *trans_b,
                    collider_b.shape,
                ));
            }
            r
        },
        (Shape::Box(box_params_a), Shape::Circle(circle_params_b)) => {
            let pos_a: FlatVec2 = trans_a.translation;
            let vertices_a = get_global_vertices(trans_a, &box_params_a.verticies);
            let r = find_contact_point_polygon_circle(
                &trans_b.translation,
                circle_params_b.radius,
                &pos_a,
                &vertices_a,
            );
            proof {
                lemma_world_verts_match(*trans_a, *box_params_a, vertices_a);
                assert(r@ =~= contacts_spec(
                    *trans_a,
                    collider_a.shape,
                    *trans_b,
                    collider_b.shape,
                ));
            }
            r
        },
        (Shape::Circle(circle_params_a), Shape::Box(box_params_b)) => {
            let pos_b: FlatVec2 = trans_b.translation;
            let vertices_b = get_global_vertices(trans_b, &box_params_b.verticies);
            let r = find_contact_point_polygon_circle(
                &trans_a.translation,
                circle_params_a.radius,
                &pos_b,
                &vertices_b,
            );
            proof {
                lemma_world_verts_match(*trans_b, *box_params_b, vertices_b);
                assert(r@ =~= contacts_spec(
                    *trans_a,
                    collider_a.shape,
                    *trans_b,
                    collider_b.shape,
                ));
            }
            r
        },
        (Shape::Circle(circle_params_a), Shape::Circle(_circle_params_b)) => {
            let contact_point = find_contanct_point(
                &trans_a.translation,
                circle_params_a.radius,
                &trans_b.translation,
            );
            let mut result: ContactPoints = Vec::new();
            result.push(contact_point);
            proof {
                assert(result@ =~= contacts_spec(
                    *trans_a,
                    collider_a.shape,
                    *trans_b,
                    collider_b.shape,
                ));
            }
            result
        },
    }
}

/// Direct positional separation as a value: the two placements after the
/// push, the whole depth moving the one body standing against a static one
/// and half the depth moving each of two dynamic bodies. A static body
/// keeps its placement.
pub open spec fn separate_spec(
    ta: FlatTransform,
    tb: FlatTransform,
    ba: crate::flat_body::FlatBody,
    bb: crate::flat_body::FlatBody,
    n: FlatVec2,
    depth: int,
) -> (FlatTransform, FlatTransform) {
    if ba.body_type is Static {
        (
            ta,
            FlatTransform {
                translation: FlatVec2 {
                    x: crate::math::sat(tb.translation.x + tdiv(n.x * depth, UNIT as int)) as i64,
                    y: crate::math::sat(tb.translation.y + tdiv(n.y * depth, UNIT as int)) as i64,
                },
                ..tb
            },
        )
    } else if bb.body_type is Static {
        (
            FlatTransform {
                translation: FlatVec2 {
                    x: crate::math::sat(ta.translation.x + tdiv(-n.x * depth, UNIT as int)) as i64,
                    y: crate::math::sat(ta.translation.y + tdiv(-n.y * depth, UNIT as int)) as i64,
                },
                ..ta
            },
            tb,
        )
    } else {
        (
            FlatTransform {
                translation: FlatVec2 {
                    x: crate::math::sat(
                        ta.translation.x + tdiv(tdiv(-n.x * depth, UNIT as int), 2),
                    ) as i64,
                    y: crate::math::sat(
                        ta.translation.y + tdiv(tdiv(-n.y * depth, UNIT as int), 2),
                    ) as i64,
                },
                ..ta
            },
            FlatTransform {
                translation: FlatVec2 {
                    x: crate::math::sat(
                        tb.translation.x + tdiv(tdiv(n.x * depth, UNIT as int), 2),
                    ) as i64,
                    y: crate::math::sat(
                        tb.translation.y + tdiv(tdiv(n.y * depth, UNIT as int), 2),
                    ) as i64,
                },
                ..tb
            },
        )
    }
}

/// Direct positional separation of a colliding pair: a body standing
/// against a static one is pushed out by the whole depth along the normal;
/// two dynamic bodies each give way by half. A static body never moves.
pub fn separate_bodies(
    transform_a: &mut FlatTransform,
    transform_b: &mut FlatTransform,
    flat_body_a: &crate::flat_body::FlatBody,
    flat_body_b: &crate::flat_body::FlatBody,
    collision_info: &CollisionDetails,
)
    requires
        transform_in_range(*old(transform_a)),
        transform_in_range(*old(transform_b)),
        normal_in_range(collision_info.collision_normal),
        0 <= collision_info.penetration_depth <= 20_000_000_000,
        !(flat_body_a.body_type is Static && flat_body_b.body_type is Static),
    ensures
        transform_in_range(*final(transform_a)),
        transform_in_range(*final(transform_b)),
        (*final(transform_a), *final(transform_b)) == separate_spec(
            *old(transform_a),
            *old(transform_b),
            *flat_body_a,
            *flat_body_b,
            collision_info.collision_normal,
            collision_info.penetration_depth as int,
        ),
        final(transform_a).rotation == old(transform_a).rotation,
        final(transform_b).rotation == old(transform_b).rotation,
        flat_body_a.body_type is Static ==> *final(transform_a) == *old(transform_a)
            && final(transform_b).translation.x == crate::math::sat(
            old(transform_b).translation.x + tdiv(
                collision_info.collision_normal.x * collision_info.penetration_depth,
                UNIT as int,
            ),
        ) && final(transform_b).translation.y == crate::math::sat(
            old(transform_b).translation.y + tdiv(
                collision_info.collision_normal.y * collision_info.penetration_depth,
                UNIT as int,
            ),
        ),
        flat_body_a.body_type is Dynamic && flat_body_b.body_type is Static ==> *final(transform_b)
            == *old(transform_b) && final(transform_a).translation.x == crate::math::sat(
            old(transform_a).translation.x + tdiv(
                -collision_info.collision_normal.x * collision_info.penetration_depth,
                UNIT as int,
            ),
        ) && final(transform_a).translation.y == crate::math::sat(
            old(transform_a).translation.y + tdiv(
                -collision_info.collision_normal.y * collision_info.penetration_depth,
                UNIT as int,
            ),
        ),
        flat_body_a.body_type is Dynamic && flat_body_b.body_type is Dynamic
            ==> final(transform_a).translation.x == crate::math::sat(
            old(transform_a).translation.x + tdiv(
                tdiv(
                    -collision_info.collision_normal.x * collision_info.penetration_depth,
                    UNIT as int,
                ),
                2,
            ),
        ) && final(transform_a).translation.y == crate::math::sat(
            old(transform_a).translation.y + tdiv(
                tdiv(
                    -collision_info.collision_normal.y * collision_info.penetration_depth,
                    UNIT as int,
                ),
                2,
            ),
        ) && final(transform_b).translation.x == crate::math::sat(
            old(transform_b).translation.x + tdiv(
                tdiv(
                    collision_info.collision_normal.x * collision_info.penetration_depth,
                    UNIT as int,
                ),
                2,
            ),
        ) && final(transform_b).translation.y == crate::math::sat(
            old(transform_b).translation.y + tdiv(
                tdiv(
                    collision_info.collision_normal.y * collision_info.penetration_depth,
                    UNIT as int,
                ),
                2,
            ),
        ),
{
    let nx: i64 = collision_info.collision_normal.x;
    let ny: i64 = collision_info.collision_normal.y;
    let depth: i64 = collision_info.penetration_depth;
    if let crate::flat_body::FlatBodyType::Static = flat_body_a.body_type {
        let mx: i128 = wide_mul(nx, depth) / UNIT as i128;
        let my: i128 = wide_mul(ny, depth) / UNIT as i128;
        let x: i64 = crate::math::saturate(transform_b.translation.x as i128 + mx);
        let y: i64 = crate::math::saturate(transform_b.translation.y as i128 + my);
        transform_b.translation = FlatVec2 { x, y };
    } else if let crate::flat_body::FlatBodyType::Static = flat_body_b.body_type {
        let mx: i128 = wide_mul(-nx, depth) / UNIT as i128;
        let my: i128 = wide_mul(-ny, depth) / UNIT as i128;
        let x: i64 = crate::math::saturate(transform_a.translation.x as i128 + mx);
        let y: i64 = crate::math::saturate(transform_a.translation.y as i128 + my);
        transform_a.translation = FlatVec2 { x, y };
    } else {
        let max: i128 = wide_mul(-nx, depth) / UNIT as i128 / 2;
        let may: i128 = wide_mul(-ny, depth) / UNIT as i128 / 2;
        let ax: i64 = crate::math::saturate(transform_a.translation.x as i128 + max);
        let ay: i64 = crate::math::saturate(transform_a.translation.y as i128 + may);
        transform_a.translation = FlatVec2 { x: ax, y: ay };
        let mbx: i128 = wide_mul(nx, depth) / UNIT as i128 / 2;
        let mby: i128 = wide_mul(ny, depth) / UNIT as i128 / 2;
        let bx: i64 = crate::math::saturate(transform_b.translation.x as i128 + mbx);
        let by: i64 = crate::math::saturate(transform_b.translation.y as i128 + mby);
        transform_b.translation = FlatVec2 { x: bx, y: by };
    }
}

/// Whether two bounding boxes overlap on both axes; touching edges do not
/// count as overlap.
pub fn intersect_aabbs(a: &FlatAABB, b: &FlatAABB) -> (r: bool)
    ensures
        r == !(a.max.x <= b.min.x || b.max.x <= a.min.x || a.max.y <= b.min.y || b.max.y
            <= a.min.y),
{
    if a.max.x <= b.min.x || b.max.x <= a.min.x || a.max.y <= b.min.y || b.max.y <= a.min.y {
        return false;
    }
    return true;
}

/// The outcome of a narrow-phase test: how deep two shapes overlap, along a
/// unit normal pointing from the first shape toward the second.
#[derive(Clone, Copy)]
pub struct CollisionDetails {
    pub penetration_depth: i64,
    pub collision_normal: FlatVec2,
}

/// Whether a vector's components stay within the fixed-point unit scale.
pub open spec fn normal_in_range(n: FlatVec2) -> bool {
    -UNIT <= n.x <= UNIT && -UNIT <= n.y <= UNIT
}

/// The x component of the fixed-point unit vector pointing from `a` to `b`.
pub open spec fn unit_toward_x(a: FlatVec2, b: FlatVec2) -> int
    recommends
        dist_sq(a, b) > 0,
{
    tdiv((b.x - a.x) * (UNIT as int), sqrt_floor(dist_sq(a, b)))
}

/// The y component of the fixed-point unit vector pointing from `a` to `b`.
pub open spec fn unit_toward_y(a: FlatVec2, b: FlatVec2) -> int
    recommends
        dist_sq(a, b) > 0,
{
    tdiv((b.y - a.y) * (UNIT as int), sqrt_floor(dist_sq(a, b)))
}

/// Between two distinct points, each coordinate difference is bounded by the
/// floor of the distance, which is at least one.
proof fn lemma_diff_within_dist(a: FlatVec2, b: FlatVec2)
    requires
        dist_sq(a, b) > 0,
    ensures
        1 <= sqrt_floor(dist_sq(a, b)),
        -sqrt_floor(dist_sq(a, b)) <= b.x - a.x <= sqrt_floor(dist_sq(a, b)),
        -sqrt_floor(dist_sq(a, b)) <= b.y - a.y <= sqrt_floor(dist_sq(a, b)),
        sqrt_floor(dist_sq(a, b)) * sqrt_floor(dist_sq(a, b)) <= dist_sq(a, b),
{
    let dsq = dist_sq(a, b);
    let d = sqrt_floor(dsq);
    lemma_sqrt_floor(dsq);
    let dx = b.x - a.x;
    let dy = b.y - a.y;
    assert(dx * dx <= dsq && dy * dy <= dsq) by (nonlinear_arith)
        requires
            dsq == dx * dx + dy * dy,
    ;
    if d == 0 {
        assert((d + 1) * (d + 1) == 1) by (nonlinear_arith)
            requires
                d == 0,
        ;
        assert(false);
    }
    assert(-d <= dx <= d) by (nonlinear_arith)
        requires
            dx * dx <= dsq,
            dsq < (d + 1) * (d + 1),
            d >= 0,
    ;
    assert(-d <= dy <= d) by (nonlinear_arith)
        requires
            dy * dy <= dsq,
            dsq < (d + 1) * (d + 1),
            d >= 0,
    ;
}

/// The fixed-point unit vector toward a distinct point has components within
/// `UNIT`, each sharing the sign of the matching coordinate difference.
pub proof fn lemma_unit_toward_bounds(a: FlatVec2, b: FlatVec2)
    requires
        dist_sq(a, b) > 0,
    ensures
        -(UNIT as int) <= unit_toward_x(a, b) <= UNIT as int,
        -(UNIT as int) <= unit_toward_y(a, b) <= UNIT as int,
        unit_toward_x(a, b) * (b.x - a.x) >= 0,
        unit_toward_y(a, b) * (b.y - a.y) >= 0,
{
    let d = sqrt_floor(dist_sq(a, b));
    lemma_diff_within_dist(a, b);
    lemma_mul_bound(b.x - a.x, UNIT as int, d, UNIT as int);
    lemma_mul_bound(b.y - a.y, UNIT as int, d, UNIT as int);
    lemma_tdiv_bound((b.x - a.x) * (UNIT as int), d, d * (UNIT as int));
    lemma_tdiv_bound((b.y - a.y) * (UNIT as int), d, d * (UNIT as int));
    assert(d * (UNIT as int) == (UNIT as int) * d) by (nonlinear_arith);
    vstd::arithmetic::div_mod::lemma_div_by_multiple(UNIT as int, d);
    lemma_tdiv_sign((b.x - a.x) * (UNIT as int), d);
    lemma_tdiv_sign((b.y - a.y) * (UNIT as int), d);
    assert(unit_toward_x(a, b) * (b.x - a.x) >= 0) by (nonlinear_arith)
        requires
            unit_toward_x(a, b) == tdiv((b.x - a.x) * (UNIT as int), d),
            tdiv((b.x - a.x) * (UNIT as int), d) * ((b.x - a.x) * (UNIT as int)) >= 0,
            UNIT as int > 0,
    ;
    assert(unit_toward_y(a, b) * (b.y - a.y) >= 0) by (nonlinear_arith)
        requires
            unit_toward_y(a, b) == tdiv((b.y - a.y) * (UNIT as int), d),
            tdiv((b.y - a.y) * (UNIT as int), d) * ((b.y - a.y) * (UNIT as int)) >= 0,
            UNIT as int > 0,
    ;
}

/// The dot product of a stored vector with a spec-level axis.
pub open spec fn vdot(v: FlatVec2, ax: int, ay: int) -> int {
    v.x * ax + v.y * ay
}

/// The vertex index following `i` around a four-vertex polygon.
pub open spec fn next_idx(i: int) -> int {
    if i == 3 {
        0
    } else {
        i + 1
    }
}

/// The x component of the perpendicular of polygon edge `i`.
pub open spec fn axis_x(verts: Seq<FlatVec2>, i: int) -> int {
    -(verts[next_idx(i)].y - verts[i].y)
}

/// The y component of the perpendicular of polygon edge `i`.
pub open spec fn axis_y(verts: Seq<FlatVec2>, i: int) -> int {
    verts[next_idx(i)].x - verts[i].x
}

/// The least projection of a polygon's vertices onto an axis.
pub open spec fn proj_min(verts: Seq<FlatVec2>, ax: int, ay: int) -> int {
    crate::math::min4(
        vdot(verts[0], ax, ay),
        vdot(verts[1], ax, ay),
        vdot(verts[2], ax, ay),
        vdot(verts[3], ax, ay),
    )
}

/// The greatest projection of a polygon's vertices onto an axis.
pub open spec fn proj_max(verts: Seq<FlatVec2>, ax: int, ay: int) -> int {
    crate::math::max4(
        vdot(verts[0], ax, ay),
        vdot(verts[1], ax, ay),
        vdot(verts[2], ax, ay),
        vdot(verts[3], ax, ay),
    )
}

/// The x component of candidate axis `k` of a polygon pair: the first four
/// axes come from the first polygon's edges, the last four from the second's.
pub open spec fn pp_axis_x(va: Seq<FlatVec2>, vb: Seq<FlatVec2>, k: int) -> int {
    if k < 4 {
        axis_x(va, k)
    } else {
        axis_x(vb, k - 4)
    }
}

/// The y component of candidate axis `k` of a polygon pair.
pub open spec fn pp_axis_y(va: Seq<FlatVec2>, vb: Seq<FlatVec2>, k: int) -> int {
    if k < 4 {
        axis_y(va, k)
    } else {
        axis_y(vb, k - 4)
    }
}

/// The squared length of candidate axis `k` of a polygon pair.
pub open spec fn pp_axis_len_sq(va: Seq<FlatVec2>, vb: Seq<FlatVec2>, k: int) -> int {
    pp_axis_x(va, vb, k) * pp_axis_x(va, vb, k) + pp_axis_y(va, vb, k) * pp_axis_y(va, vb, k)
}

/// Whether the two polygons' projections are disjoint on candidate axis `k`.
pub open spec fn pp_separated(va: Seq<FlatVec2>, vb: Seq<FlatVec2>, k: int) -> bool {
    let ax = pp_axis_x(va, vb, k);
    let ay = pp_axis_y(va, vb, k);
    proj_min(va, ax, ay) >= proj_max(vb, ax, ay) || proj_min(vb, ax, ay) >= proj_max(va, ax, ay)
}

/// The projection overlap of the two polygons on candidate axis `k`, in dot
/// units (scaled by the axis length).
pub open spec fn pp_overlap(va: Seq<FlatVec2>, vb: Seq<FlatVec2>, k: int) -> int {
    let ax = pp_axis_x(va, vb, k);
    let ay = pp_axis_y(va, vb, k);
    vstd::math::min(
        proj_max(vb, ax, ay) - proj_min(va, ax, ay),
        proj_max(va, ax, ay) - proj_min(vb, ax, ay),
    )
}

/// The retained axis after scanning the first `k` candidate axes: its
/// components, its overlap and its squared length. Zero-length axes are
/// passed over; of two candidates the one whose overlap relative to its
/// axis length is strictly smaller wins, ties keeping the earlier axis.
pub open spec fn pp_best(va: Seq<FlatVec2>, vb: Seq<FlatVec2>, k: int) -> Option<
    (int, int, int, int),
>
    decreases k,
{
    if k <= 0 {
        None
    } else {
        let prev = pp_best(va, vb, k - 1);
        let lsq = pp_axis_len_sq(va, vb, k - 1);
        if lsq == 0 {
            prev
        } else {
            let cand = (
                pp_axis_x(va, vb, k - 1),
                pp_axis_y(va, vb, k - 1),
                pp_overlap(va, vb, k - 1),
                lsq,
            );
            match prev {
                None => Some(cand),
                Some(best) => {
                    if cand.2 * sqrt_floor(best.3) < best.2 * sqrt_floor(cand.3) {
                        Some(cand)
                    } else {
                        Some(best)
                    }
                },
            }
        }
    }
}

/// The polygon-polygon detection outcome when no axis separates: the unit
/// normal of the retained axis, flipped toward the second centroid if it
/// opposes it, and the overlap divided by the axis length.
pub open spec fn pp_result(
    va: Seq<FlatVec2>,
    vb: Seq<FlatVec2>,
    ca: FlatVec2,
    cb: FlatVec2,
) -> Option<(int, int, int)> {
    match pp_best(va, vb, 8) {
        None => None,
        Some(best) => {
            let l = sqrt_floor(best.3);
            let nx0 = tdiv(best.0 * (UNIT as int), l);
            let ny0 = tdiv(best.1 * (UNIT as int), l);
            let depth = tdiv(best.2, l);
            if (cb.x - ca.x) * nx0 + (cb.y - ca.y) * ny0 < 0 {
                Some((-nx0, -ny0, depth))
            } else {
                Some((nx0, ny0, depth))
            }
        },
    }
}

/// A nonzero axis's components are bounded by the floor of its length, and
/// its fixed-point unit vector by `UNIT`.
pub proof fn lemma_axis_unit(bx: int, by: int, blsq: int)
    requires
        blsq == bx * bx + by * by,
        blsq > 0,
    ensures
        1 <= sqrt_floor(blsq),
        -sqrt_floor(blsq) <= bx <= sqrt_floor(blsq),
        -sqrt_floor(blsq) <= by <= sqrt_floor(blsq),
        sqrt_floor(blsq) * sqrt_floor(blsq) <= blsq,
        -(UNIT as int) <= tdiv(bx * (UNIT as int), sqrt_floor(blsq)) <= UNIT as int,
        -(UNIT as int) <= tdiv(by * (UNIT as int), sqrt_floor(blsq)) <= UNIT as int,
{
    let l = sqrt_floor(blsq);
    lemma_sqrt_floor(blsq);
    assert(bx * bx <= blsq && by * by <= blsq) by (nonlinear_arith)
        requires
            blsq == bx * bx + by * by,
    ;
    if l == 0 {
        assert((l + 1) * (l + 1) == 1) by (nonlinear_arith)
            requires
                l == 0,
        ;
        assert(false);
    }
    assert(-l <= bx <= l) by (nonlinear_arith)
        requires
            bx * bx <= blsq,
            blsq < (l + 1) * (l + 1),
            l >= 0,
    ;
    assert(-l <= by <= l) by (nonlinear_arith)
        requires
            by * by <= blsq,
            blsq < (l + 1) * (l + 1),
            l >= 0,
    ;
    lemma_mul_bound(bx, UNIT as int, l, UNIT as int);
    lemma_mul_bound(by, UNIT as int, l, UNIT as int);
    lemma_tdiv_bound(bx * (UNIT as int), l, l * (UNIT as int));
    lemma_tdiv_bound(by * (UNIT as int), l, l * (UNIT as int));
    assert(l * (UNIT as int) == (UNIT as int) * l) by (nonlinear_arith);
    vstd::arithmetic::div_mod::lemma_div_by_multiple(UNIT as int, l);
}

/// A projection of a bounded vertex onto a bounded axis is bounded.
proof fn lemma_proj_bound(v: FlatVec2, ax: int, ay: int, l: int, wl: int)
    requires
        -wl <= v.x <= wl,
        -wl <= v.y <= wl,
        -l <= ax <= l,
        -l <= ay <= l,
        0 <= l,
        0 <= wl,
    ensures
        -(2 * wl * l) <= vdot(v, ax, ay) <= 2 * wl * l,
{
    lemma_mul_bound(v.x as int, ax, wl, l);
    lemma_mul_bound(v.y as int, ay, wl, l);
    assert(wl * l + wl * l == 2 * wl * l) by (nonlinear_arith);
}

/// The smaller of two wide machine integers.
fn min_i128(a: i128, b: i128) -> (r: i128)
    ensures
        r == vstd::math::min(a as int, b as int),
{
    if a < b {
        a
    } else {
        b
    }
}

/// Project a polygon's four vertices onto an axis: least and greatest dot
/// product, exactly.
fn project_vertices(vertices: &[FlatVec2; 4], axis: &FlatVec2) -> (r: (i128, i128))
    requires
        forall|k: int|
            0 <= k < 4 ==> -WORLD_LIMIT <= (#[trigger] vertices@[k]).x <= WORLD_LIMIT
                && -WORLD_LIMIT <= vertices@[k].y <= WORLD_LIMIT,
        vec_in_range(*axis),
    ensures
        r.0 == proj_min(vertices@, axis.x as int, axis.y as int),
        r.1 == proj_max(vertices@, axis.x as int, axis.y as int),
{
    let d0: i128 = vertices[0].dot_wide(*axis);
    let d1: i128 = vertices[1].dot_wide(*axis);
    let d2: i128 = vertices[2].dot_wide(*axis);
    let d3: i128 = vertices[3].dot_wide(*axis);
    let mut min: i128 = d0;
    let mut max: i128 = d0;
    if d1 < min {
        min = d1;
    }
    if d1 > max {
        max = d1;
    }
    if d2 < min {
        min = d2;
    }
    if d2 > max {
        max = d2;
    }
    if d3 < min {
        min = d3;
    }
    if d3 > max {
        max = d3;
    }
    (min, max)
}

/// Separating-axis test over the edge perpendiculars of both polygons: a
/// disjoint projection on any candidate axis means no collision; otherwise
/// the axis of least relative overlap gives the depth, and its unit vector,
/// oriented from the first centroid toward the second, the normal.
#[verifier::rlimit(100)]
pub fn intersects_polygons(
    vertices_a: &[FlatVec2; 4],
    center_a: &FlatVec2,
    vertices_b: &[FlatVec2; 4],
    center_b: &FlatVec2,
) -> (r: Option<CollisionDetails>)
    requires
        forall|k: int|
            0 <= k < 4 ==> -WORLD_LIMIT <= (#[trigger] vertices_a@[k]).x <= WORLD_LIMIT
                && -WORLD_LIMIT <= vertices_a@[k].y <= WORLD_LIMIT,
        forall|k: int|
            0 <= k < 4 ==> -WORLD_LIMIT <= (#[trigger] vertices_b@[k]).x <= WORLD_LIMIT
                && -WORLD_LIMIT <= vertices_b@[k].y <= WORLD_LIMIT,
        vec_in_range(*center_a),
        vec_in_range(*center_b),
    ensures
        match r {
            None => (exists|k: int|
                0 <= k < 8 && pp_axis_len_sq(vertices_a@, vertices_b@, k) != 0 && pp_separated(vertices_a@, vertices_b@, k)) || pp_best(vertices_a@, vertices_b@, 8) is None,
            Some(cd) => {
                &&& forall|k: int|
                    0 <= k < 8 && pp_axis_len_sq(vertices_a@, vertices_b@, k) != 0
                        ==> !pp_separated(vertices_a@, vertices_b@, k)
                &&& (pp_result(vertices_a@, vertices_b@, *center_a, *center_b) matches Some(t)
                    && cd.collision_normal.x == t.0 && cd.collision_normal.y == t.1
                    && cd.penetration_depth == t.2)
                &&& normal_in_range(cd.collision_normal)
                &&& 0 <= cd.penetration_depth <= 20_000_000_000
            },
        },
{
    let ghost va: Seq<FlatVec2> = vertices_a@;
    let ghost vb: Seq<FlatVec2> = vertices_b@;
    let mut has_best: bool = false;
    let mut bx: i64 = 0;
    let mut by: i64 = 0;
    let mut bo: i128 = 0;
    let mut blsq: i128 = 0;
    let mut bl: u64 = 0;
    let mut k: usize = 0;
    while k < 8
        invariant
            0 <= k <= 8,
            forall|idx: int|
                0 <= idx < 4 ==> -WORLD_LIMIT <= (#[trigger] va[idx]).x <= WORLD_LIMIT
                    && -WORLD_LIMIT <= va[idx].y <= WORLD_LIMIT,
            forall|idx: int|
                0 <= idx < 4 ==> -WORLD_LIMIT <= (#[trigger] vb[idx]).x <= WORLD_LIMIT
                    && -WORLD_LIMIT <= vb[idx].y <= WORLD_LIMIT,
            va == vertices_a@,
            vb == vertices_b@,
            forall|j: int|
                0 <= j < k ==> pp_axis_len_sq(va, vb, j) == 0 || !pp_separated(va, vb, j),
            has_best == (pp_best(va, vb, k as int) is Some),
            has_best ==> pp_best(va, vb, k as int) == Some(
                (bx as int, by as int, bo as int, blsq as int),
            ),
            has_best ==> blsq == bx as int * bx as int + by as int * by as int && blsq > 0,
            has_best ==> bl == sqrt_floor(blsq as int),
            has_best ==> 0 < bo <= 4 * (WORLD_LIMIT as int) * (bl as int),
            has_best ==> -6_000_000_000 <= bx <= 6_000_000_000 && -6_000_000_000 <= by
                <= 6_000_000_000,
            has_best ==> 1 <= bl <= 6_000_000_000,
        decreases 8 - k,
    {
        let (pa, pb): (FlatVec2, FlatVec2) = if k < 4 {
            let j: usize = if k == 3 {
                0
            } else {
                k + 1
            };
            (vertices_a[k], vertices_a[j])
        } else {
            let j: usize = if k == 7 {
                0
            } else {
                k - 3
            };
            (vertices_b[k - 4], vertices_b[j])
        };
        let axis: FlatVec2 = FlatVec2 { x: -(pb.y - pa.y), y: pb.x - pa.x };
        proof {
            assert(axis.x as int == pp_axis_x(va, vb, k as int));
            assert(axis.y as int == pp_axis_y(va, vb, k as int));
        }
        let lsq: i128 = axis.length_squared();
        if lsq != 0 {
            let (min_a, max_a): (i128, i128) = project_vertices(vertices_a, &axis);
            let (min_b, max_b): (i128, i128) = project_vertices(vertices_b, &axis);
            if min_a >= max_b || min_b >= max_a {
                proof {
                    assert(pp_separated(va, vb, k as int));
                }
                return None;
            }
            let l: u64 = isqrt(lsq as u128);
            proof {
                lemma_axis_unit(axis.x as int, axis.y as int, lsq as int);
                assert(lsq as int <= 33_000_000_000_000_000_000) by (nonlinear_arith)
                    requires
                        -4_004_000_000 <= axis.x as int <= 4_004_000_000,
                        -4_004_000_000 <= axis.y as int <= 4_004_000_000,
                        lsq as int == axis.x as int * axis.x as int + axis.y as int
                            * axis.y as int,
                ;
                assert(l as int <= 6_000_000_000) by (nonlinear_arith)
                    requires
                        l as int * l as int <= lsq as int,
                        lsq as int <= 33_000_000_000_000_000_000,
                        l as int >= 0,
                ;
                assert forall|idx: int| 0 <= idx < 4 implies -(2 * (WORLD_LIMIT as int) * (
                l as int)) <= #[trigger] vdot(va[idx], axis.x as int, axis.y as int) <= 2 * (
                WORLD_LIMIT as int) * (l as int) by {
                    lemma_proj_bound(
                        va[idx],
                        axis.x as int,
                        axis.y as int,
                        l as int,
                        WORLD_LIMIT as int,
                    );
                }
                assert forall|idx: int| 0 <= idx < 4 implies -(2 * (WORLD_LIMIT as int) * (
                l as int)) <= #[trigger] vdot(vb[idx], axis.x as int, axis.y as int) <= 2 * (
                WORLD_LIMIT as int) * (l as int) by {
                    lemma_proj_bound(
                        vb[idx],
                        axis.x as int,
                        axis.y as int,
                        l as int,
                        WORLD_LIMIT as int,
                    );
                }
                assert(2 * (2 * (WORLD_LIMIT as int) * (l as int)) == 4 * (WORLD_LIMIT as int) * (
                l as int)) by (nonlinear_arith);
                assert(2 * (WORLD_LIMIT as int) * (l as int) <= 25_000_000_000_000_000_000)
                    by (nonlinear_arith)
                    requires
                        0 <= l as int <= 6_000_000_000,
                        WORLD_LIMIT == 2_002_000_000,
                ;
            }
            let o: i128 = min_i128(max_b - min_a, max_a - min_b);
            let take: bool = if !has_best {
                true
            } else {
                proof {
                    lemma_mul_bound(o as int, bl as int, 50_000_000_000_000_000_000, 6_000_000_000);
                    lemma_mul_bound(bo as int, l as int, 50_000_000_000_000_000_000, 6_000_000_000);
                    assert(4 * (WORLD_LIMIT as int) * (l as int) <= 50_000_000_000_000_000_000)
                        by (nonlinear_arith)
                        requires
                            0 <= l as int <= 6_000_000_000,
                            WORLD_LIMIT == 2_002_000_000,
                    ;
                    assert(4 * (WORLD_LIMIT as int) * (bl as int) <= 50_000_000_000_000_000_000)
                        by (nonlinear_arith)
                        requires
                            0 <= bl as int <= 6_000_000_000,
                            WORLD_LIMIT == 2_002_000_000,
                    ;
                }
                o * (bl as i128) < bo * (l as i128)
            };
            if take {
                bx = axis.x;
                by = axis.y;
                bo = o;
                blsq = lsq;
                bl = l;
                has_best = true;
            }
        }
        k = k + 1;
    }
    if !has_best {
        return None;
    }
    proof {
        lemma_axis_unit(bx as int, by as int, blsq as int);
        lemma_mul_bound(bx as int, UNIT as int, bl as int, UNIT as int);
        lemma_mul_bound(by as int, UNIT as int, bl as int, UNIT as int);
        lemma_tdiv_bound(bo as int, bl as int, 4 * (WORLD_LIMIT as int) * (bl as int));
        assert(4 * (WORLD_LIMIT as int) * (bl as int) == (4 * (WORLD_LIMIT as int)) * (bl as int))
            by (nonlinear_arith);
        vstd::arithmetic::div_mod::lemma_div_by_multiple(4 * (WORLD_LIMIT as int), bl as int);
        vstd::arithmetic::div_mod::lemma_div_pos_is_pos(bo as int, bl as int);
    }
    let nx0: i64 = (wide_mul(bx, UNIT) / bl as i128) as i64;
    let ny0: i64 = (wide_mul(by, UNIT) / bl as i128) as i64;
    let depth: i64 = (bo / bl as i128) as i64;
    let dirx: i64 = center_b.x - center_a.x;
    let diry: i64 = center_b.y - center_a.y;
    proof {
        lemma_mul_bound(dirx as int, nx0 as int, 2 * (VEC_LIMIT as int), UNIT as int);
        lemma_mul_bound(diry as int, ny0 as int, 2 * (VEC_LIMIT as int), UNIT as int);
    }
    let orient: i128 = dirx as i128 * nx0 as i128 + diry as i128 * ny0 as i128;
    let (nx, ny): (i64, i64) = if orient < 0 {
        (-nx0, -ny0)
    } else {
        (nx0, ny0)
    };
    Some(
        CollisionDetails {
            penetration_depth: depth,
            collision_normal: FlatVec2 { x: nx, y: ny },
        },
    )
}

/// The least projection of a circle onto an axis, in dot units: the centre's
/// projection less the radius scaled by the floor of the axis length.
pub open spec fn circ_min(c: FlatVec2, radius: int, ax: int, ay: int) -> int {
    vdot(c, ax, ay) - radius * sqrt_floor(ax * ax + ay * ay)
}

/// The greatest projection of a circle onto an axis, in dot units.
pub open spec fn circ_max(c: FlatVec2, radius: int, ax: int, ay: int) -> int {
    vdot(c, ax, ay) + radius * sqrt_floor(ax * ax + ay * ay)
}

/// The first index among the first `k` polygon vertices at least squared
/// distance from a point; earlier vertices win ties.
pub open spec fn closest_vertex(c: FlatVec2, verts: Seq<FlatVec2>, k: int) -> int
    decreases k,
{
    if k <= 1 {
        0
    } else {
        let prev = closest_vertex(c, verts, k - 1);
        if dist_sq(verts[k - 1], c) < dist_sq(verts[prev], c) {
            k - 1
        } else {
            prev
        }
    }
}

/// The x component of candidate axis `k` of a circle-polygon pair: the four
/// edge perpendiculars, then the axis from the circle centre to the nearest
/// vertex.
pub open spec fn cpoly_axis_x(c: FlatVec2, verts: Seq<FlatVec2>, k: int) -> int {
    if k < 4 {
        axis_x(verts, k)
    } else {
        verts[closest_vertex(c, verts, 4)].x - c.x
    }
}

/// The y component of candidate axis `k` of a circle-polygon pair.
pub open spec fn cpoly_axis_y(c: FlatVec2, verts: Seq<FlatVec2>, k: int) -> int {
    if k < 4 {
        axis_y(verts, k)
    } else {
        verts[closest_vertex(c, verts, 4)].y - c.y
    }
}

/// The squared length of candidate axis `k` of a circle-polygon pair.
pub open spec fn cpoly_axis_len_sq(c: FlatVec2, verts: Seq<FlatVec2>, k: int) -> int {
    cpoly_axis_x(c, verts, k) * cpoly_axis_x(c, verts, k) + cpoly_axis_y(c, verts, k)
        * cpoly_axis_y(c, verts, k)
}

/// Whether the polygon's and the circle's projections are disjoint on
/// candidate axis `k`.
pub open spec fn cpoly_separated(c: FlatVec2, radius: int, verts: Seq<FlatVec2>, k: int) -> bool {
    let ax = cpoly_axis_x(c, verts, k);
    let ay = cpoly_axis_y(c, verts, k);
    proj_min(verts, ax, ay) >= circ_max(c, radius, ax, ay) || circ_min(c, radius, ax, ay)
        >= proj_max(verts, ax, ay)
}

/// The projection overlap of polygon and circle on candidate axis `k`, in
/// dot units.
pub open spec fn cpoly_overlap(c: FlatVec2, radius: int, verts: Seq<FlatVec2>, k: int) -> int {
    let ax = cpoly_axis_x(c, verts, k);
    let ay = cpoly_axis_y(c, verts, k);
    vstd::math::min(
        circ_max(c, radius, ax, ay) - proj_min(verts, ax, ay),
        proj_max(verts, ax, ay) - circ_min(c, radius, ax, ay),
    )
}

/// The retained axis after scanning the first `k` circle-polygon candidate
/// axes, selected as for the polygon pair.
pub open spec fn cpoly_best(c: FlatVec2, radius: int, verts: Seq<FlatVec2>, k: int) -> Option<
    (int, int, int, int),
>
    decreases k,
{
    if k <= 0 {
        None
    } else {
        let prev = cpoly_best(c, radius, verts, k - 1);
        let lsq = cpoly_axis_len_sq(c, verts, k - 1);
        if lsq == 0 {
            prev
        } else {
            let cand = (
                cpoly_axis_x(c, verts, k - 1),
                cpoly_axis_y(c, verts, k - 1),
                cpoly_overlap(c, radius, verts, k - 1),
                lsq,
            );
            match prev {
                None => Some(cand),
                Some(best) => {
                    if cand.2 * sqrt_floor(best.3) < best.2 * sqrt_floor(cand.3) {
                        Some(cand)
                    } else {
                        Some(best)
                    }
                },
            }
        }
    }
}

/// The circle-polygon detection outcome when no axis separates: the unit
/// normal of the retained axis, flipped toward the polygon centroid if it
/// opposes the direction from the circle centre to it, and the overlap
/// divided by the axis length.
pub open spec fn cpoly_result(
    c: FlatVec2,
    radius: int,
    verts: Seq<FlatVec2>,
    pc: FlatVec2,
) -> Option<(int, int, int)> {
    match cpoly_best(c, radius, verts, 5) {
        None => None,
        Some(best) => {
            let l = sqrt_floor(best.3);
            let nx0 = tdiv(best.0 * (UNIT as int), l);
            let ny0 = tdiv(best.1 * (UNIT as int), l);
            let depth = tdiv(best.2, l);
            if (pc.x - c.x) * nx0 + (pc.y - c.y) * ny0 < 0 {
                Some((-nx0, -ny0, depth))
            } else {
                Some((nx0, ny0, depth))
            }
        },
    }
}

/// The polygon vertex nearest the circle centre, by squared distance,
/// earlier vertices winning ties.
pub fn find_closes_point_on_polygon(circle_center: &FlatVec2, vertices: &[FlatVec2; 4]) -> (r:
    Option<usize>)
    requires
        vec_in_range(*circle_center),
        forall|k: int|
            0 <= k < 4 ==> -WORLD_LIMIT <= (#[trigger] vertices@[k]).x <= WORLD_LIMIT
                && -WORLD_LIMIT <= vertices@[k].y <= WORLD_LIMIT,
    ensures
        r is Some,
        (r matches Some(i) ==> i < 4 && i == closest_vertex(*circle_center, vertices@, 4)),
{
    let d0: i128 = vertices[0].distance_squared(*circle_center);
    let d1: i128 = vertices[1].distance_squared(*circle_center);
    let d2: i128 = vertices[2].distance_squared(*circle_center);
    let d3: i128 = vertices[3].distance_squared(*circle_center);
    let mut result: usize = 0;
    let mut min_distance: i128 = d0;
    if d1 < min_distance {
        min_distance = d1;
        result = 1;
    }
    if d2 < min_distance {
        min_distance = d2;
        result = 2;
    }
    if d3 < min_distance {
        min_distance = d3;
        result = 3;
    }
    proof {
        reveal_with_fuel(closest_vertex, 5);
    }
    Some(result)
}

/// Project a circle onto an axis: the centre's projection spread by the
/// radius scaled with the floor of the axis length, exactly.
fn project_circle(center: &FlatVec2, radius: i64, axis: &FlatVec2) -> (r: (i128, i128))
    requires
        vec_in_range(*center),
        vec_in_range(*axis),
        0 <= radius <= MAX_SHAPE,
    ensures
        r.0 == circ_min(*center, radius as int, axis.x as int, axis.y as int),
        r.1 == circ_max(*center, radius as int, axis.x as int, axis.y as int),
        r.0 <= r.1,
{
    let ca: i128 = center.dot_wide(*axis);
    let lsq: i128 = axis.length_squared();
    let l: u64 = isqrt(lsq as u128);
    proof {
        lemma_mul_bound(center.x as int, axis.x as int, VEC_LIMIT as int, VEC_LIMIT as int);
        lemma_mul_bound(center.y as int, axis.y as int, VEC_LIMIT as int, VEC_LIMIT as int);
        lemma_mul_bound(axis.x as int, axis.x as int, VEC_LIMIT as int, VEC_LIMIT as int);
        lemma_mul_bound(axis.y as int, axis.y as int, VEC_LIMIT as int, VEC_LIMIT as int);
        lemma_sqrt_floor(lsq as int);
        assert(l as int * l as int <= lsq as int);
        assert(l as int <= 2_000_000_000_000_000) by (nonlinear_arith)
            requires
                l as int * l as int <= lsq as int,
                lsq as int <= 2_000_000_000_000_000_000_000_000_000_000,
                l as int >= 0,
        ;
        lemma_mul_bound(radius as int, l as int, MAX_SHAPE as int, 2_000_000_000_000_000);
    }
    let rl: i128 = radius as i128 * l as i128;
    (ca - rl, ca + rl)
}

/// Separating-axis test of a circle against a polygon: the polygon's edge
/// perpendiculars plus the axis toward the nearest vertex, which covers the
/// corners. No collision on any disjoint projection; otherwise the least
/// relative overlap gives depth and normal, oriented from the circle centre
/// toward the polygon centroid.
#[verifier::rlimit(100)]
pub fn intersect_circle_polygon(
    circle_center: &FlatVec2,
    circle_radius: i64,
    vertices: &[FlatVec2; 4],
    polygon_center: &FlatVec2,
) -> (r: Option<CollisionDetails>)
    requires
        -MAX_COORD <= circle_center.x <= MAX_COORD,
        -MAX_COORD <= circle_center.y <= MAX_COORD,
        0 <= circle_radius <= MAX_SHAPE,
        forall|k: int|
            0 <= k < 4 ==> -WORLD_LIMIT <= (#[trigger] vertices@[k]).x <= WORLD_LIMIT
                && -WORLD_LIMIT <= vertices@[k].y <= WORLD_LIMIT,
        vec_in_range(*polygon_center),
    ensures
        match r {
            None => (exists|k: int|
                0 <= k < 5 && cpoly_axis_len_sq(*circle_center, vertices@, k) != 0
                    && cpoly_separated(*circle_center, circle_radius as int, vertices@, k))
                || cpoly_best(*circle_center, circle_radius as int, vertices@, 5) is None,
            Some(cd) => {
                &&& forall|k: int|
                    0 <= k < 5 && cpoly_axis_len_sq(*circle_center, vertices@, k) != 0
                        ==> !cpoly_separated(*circle_center, circle_radius as int, vertices@, k)
                &&& (cpoly_result(
                    *circle_center,
                    circle_radius as int,
                    vertices@,
                    *polygon_center,
                ) matches Some(t) && cd.collision_normal.x == t.0 && cd.collision_normal.y == t.1
                    && cd.penetration_depth == t.2)
                &&& normal_in_range(cd.collision_normal)
                &&& 0 <= cd.penetration_depth <= 20_000_000_000
            },
        },
{
    let ghost c: FlatVec2 = *circle_center;
    let ghost vs: Seq<FlatVec2> = vertices@;
    let mut has_best: bool = false;
    let mut bx: i64 = 0;
    let mut by: i64 = 0;
    let mut bo: i128 = 0;
    let mut blsq: i128 = 0;
    let mut bl: u64 = 0;
    let mut k: usize = 0;
    while k < 4
        invariant
            0 <= k <= 4,
            -MAX_COORD <= c.x <= MAX_COORD,
            -MAX_COORD <= c.y <= MAX_COORD,
            0 <= circle_radius <= MAX_SHAPE,
            forall|idx: int|
                0 <= idx < 4 ==> -WORLD_LIMIT <= (#[trigger] vs[idx]).x <= WORLD_LIMIT
                    && -WORLD_LIMIT <= vs[idx].y <= WORLD_LIMIT,
            c == *circle_center,
            vs == vertices@,
            forall|j: int|
                0 <= j < k ==> cpoly_axis_len_sq(c, vs, j) == 0 || !cpoly_separated(
                    c,
                    circle_radius as int,
                    vs,
                    j,
                ),
            has_best == (cpoly_best(c, circle_radius as int, vs, k as int) is Some),
            has_best ==> cpoly_best(c, circle_radius as int, vs, k as int) == Some(
                (bx as int, by as int, bo as int, blsq as int),
            ),
            has_best ==> blsq == bx as int * bx as int + by as int * by as int && blsq > 0,
            has_best ==> bl == sqrt_floor(blsq as int),
            has_best ==> 0 < bo <= 5 * (WORLD_LIMIT as int) * (bl as int),
            has_best ==> -6_000_000_000 <= bx <= 6_000_000_000 && -6_000_000_000 <= by
                <= 6_000_000_000,
            has_best ==> 1 <= bl <= 6_000_000_000,
        decreases 4 - k,
    {
        let j: usize = if k == 3 {
            0
        } else {
            k + 1
        };
        let pa: FlatVec2 = vertices[k];
        let pb: FlatVec2 = vertices[j];
        let axis: FlatVec2 = FlatVec2 { x: -(pb.y - pa.y), y: pb.x - pa.x };
        proof {
            assert(axis.x as int == cpoly_axis_x(c, vs, k as int));
            assert(axis.y as int == cpoly_axis_y(c, vs, k as int));
        }
        let lsq: i128 = axis.length_squared();
        if lsq != 0 {
            let l: u64 = isqrt(lsq as u128);
            proof {
                lemma_axis_unit(axis.x as int, axis.y as int, lsq as int);
                assert(lsq as int <= 33_000_000_000_000_000_000) by (nonlinear_arith)
                    requires
                        -4_004_000_000 <= axis.x as int <= 4_004_000_000,
                        -4_004_000_000 <= axis.y as int <= 4_004_000_000,
                        lsq as int == axis.x as int * axis.x as int + axis.y as int
                            * axis.y as int,
                ;
                assert(l as int <= 6_000_000_000) by (nonlinear_arith)
                    requires
                        l as int * l as int <= lsq as int,
                        lsq as int <= 33_000_000_000_000_000_000,
                        l as int >= 0,
                ;
                assert forall|idx: int| 0 <= idx < 4 implies -(2 * (WORLD_LIMIT as int) * (
                l as int)) <= #[trigger] vdot(vs[idx], axis.x as int, axis.y as int) <= 2 * (
                WORLD_LIMIT as int) * (l as int) by {
                    lemma_proj_bound(
                        vs[idx],
                        axis.x as int,
                        axis.y as int,
                        l as int,
                        WORLD_LIMIT as int,
                    );
                }
                lemma_proj_bound(c, axis.x as int, axis.y as int, l as int, WORLD_LIMIT as int);
                lemma_mul_bound(circle_radius as int, l as int, MAX_SHAPE as int, 6_000_000_000);
                assert(circle_radius as int * (l as int) <= MAX_SHAPE as int * (l as int)
                    && 0 <= circle_radius as int * (l as int)) by (nonlinear_arith)
                    requires
                        0 <= circle_radius as int <= MAX_SHAPE as int,
                        0 <= l as int,
                ;
                assert(2 * (2 * (WORLD_LIMIT as int) * (l as int)) + (MAX_SHAPE as int) * (
                l as int) <= 5 * (WORLD_LIMIT as int) * (l as int)) by (nonlinear_arith)
                    requires
                        0 <= l as int,
                        WORLD_LIMIT == 2_002_000_000,
                        MAX_SHAPE == 1_000_000,
                ;
                assert(5 * (WORLD_LIMIT as int) * (l as int) <= 61_000_000_000_000_000_000)
                    by (nonlinear_arith)
                    requires
                        0 <= l as int <= 6_000_000_000,
                        WORLD_LIMIT == 2_002_000_000,
                ;
            }
            let (min_a, max_a): (i128, i128) = project_vertices(vertices, &axis);
            let (min_b, max_b): (i128, i128) = project_circle(circle_center, circle_radius, &axis);
            if min_a >= max_b || min_b >= max_a {
                proof {
                    assert(cpoly_axis_len_sq(*circle_center, vertices@, k as int) != 0);
                    assert(cpoly_separated(
                        *circle_center,
                        circle_radius as int,
                        vertices@,
                        k as int,
                    ));
                }
                return None;
            }
            let o: i128 = min_i128(max_b - min_a, max_a - min_b);
            let take: bool = if !has_best {
                true
            } else {
                proof {
                    lemma_mul_bound(o as int, bl as int, 61_000_000_000_000_000_000, 6_000_000_000);
                    lemma_mul_bound(bo as int, l as int, 61_000_000_000_000_000_000, 6_000_000_000);
                    assert(5 * (WORLD_LIMIT as int) * (bl as int) <= 61_000_000_000_000_000_000)
                        by (nonlinear_arith)
                        requires
                            0 <= bl as int <= 6_000_000_000,
                            WORLD_LIMIT == 2_002_000_000,
                    ;
                }
                o * (bl as i128) < bo * (l as i128)
            };
            if take {
                bx = axis.x;
                by = axis.y;
                bo = o;
                blsq = lsq;
                bl = l;
                has_best = true;
            }
        }
        k = k + 1;
    }

    let cp_index: usize = match find_closes_point_on_polygon(circle_center, vertices) {
        Some(value) => value,
        None => {
            return None;
        },
    };
    let cp: FlatVec2 = vertices[cp_index];
    let axis: FlatVec2 = FlatVec2 { x: cp.x - circle_center.x, y: cp.y - circle_center.y };
    proof {
        assert(axis.x as int == cpoly_axis_x(c, vs, 4));
        assert(axis.y as int == cpoly_axis_y(c, vs, 4));
    }
    let lsq: i128 = axis.length_squared();
    if lsq != 0 {
        let l: u64 = isqrt(lsq as u128);
        proof {
            lemma_axis_unit(axis.x as int, axis.y as int, lsq as int);
            assert(lsq as int <= 33_000_000_000_000_000_000) by (nonlinear_arith)
                requires
                    -4_004_000_000 <= axis.x as int <= 4_004_000_000,
                    -4_004_000_000 <= axis.y as int <= 4_004_000_000,
                    lsq as int == axis.x as int * axis.x as int + axis.y as int * axis.y as int,
            ;
            assert(l as int <= 6_000_000_000) by (nonlinear_arith)
                requires
                    l as int * l as int <= lsq as int,
                    lsq as int <= 33_000_000_000_000_000_000,
                    l as int >= 0,
            ;
            assert forall|idx: int| 0 <= idx < 4 implies -(2 * (WORLD_LIMIT as int) * (l as int))
                <= #[trigger] vdot(vs[idx], axis.x as int, axis.y as int) <= 2 * (
            WORLD_LIMIT as int) * (l as int) by {
                lemma_proj_bound(
                    vs[idx],
                    axis.x as int,
                    axis.y as int,
                    l as int,
                    WORLD_LIMIT as int,
                );
            }
            lemma_proj_bound(c, axis.x as int, axis.y as int, l as int, WORLD_LIMIT as int);
            lemma_mul_bound(circle_radius as int, l as int, MAX_SHAPE as int, 6_000_000_000);
            assert(circle_radius as int * (l as int) <= MAX_SHAPE as int * (l as int)
                && 0 <= circle_radius as int * (l as int)) by (nonlinear_arith)
                requires
                    0 <= circle_radius as int <= MAX_SHAPE as int,
                    0 <= l as int,
            ;
            assert(2 * (2 * (WORLD_LIMIT as int) * (l as int)) + (MAX_SHAPE as int) * (l as int)
                <= 5 * (WORLD_LIMIT as int) * (l as int)) by (nonlinear_arith)
                requires
                    0 <= l as int,
                    WORLD_LIMIT == 2_002_000_000,
                    MAX_SHAPE == 1_000_000,
            ;
            assert(5 * (WORLD_LIMIT as int) * (l as int) <= 61_000_000_000_000_000_000)
                by (nonlinear_arith)
                requires
                    0 <= l as int <= 6_000_000_000,
                    WORLD_LIMIT == 2_002_000_000,
            ;
        }
        let (min_a, max_a): (i128, i128) = project_vertices(vertices, &axis);
        let (min_b, max_b): (i128, i128) = project_circle(circle_center, circle_radius, &axis);
        if min_a >= max_b || min_b >= max_a {
            proof {
                assert(cpoly_axis_len_sq(*circle_center, vertices@, 4) != 0);
                assert(cpoly_separated(*circle_center, circle_radius as int, vertices@, 4));
            }
            return None;
        }
        let o: i128 = min_i128(max_b - min_a, max_a - min_b);
        let take: bool = if !has_best {
            true
        } else {
            proof {
                lemma_mul_bound(o as int, bl as int, 61_000_000_000_000_000_000, 6_000_000_000);
                lemma_mul_bound(bo as int, l as int, 61_000_000_000_000_000_000, 6_000_000_000);
                assert(5 * (WORLD_LIMIT as int) * (bl as int) <= 61_000_000_000_000_000_000)
                    by (nonlinear_arith)
                    requires
                        0 <= bl as int <= 6_000_000_000,
                        WORLD_LIMIT == 2_002_000_000,
                ;
            }
            o * (bl as i128) < bo * (l as i128)
        };
        if take {
            bx = axis.x;
            by = axis.y;
            bo = o;
            blsq = lsq;
            bl = l;
            has_best = true;
        }
    }
    if !has_best {
        return None;
    }
    proof {
        lemma_axis_unit(bx as int, by as int, blsq as int);
        lemma_mul_bound(bx as int, UNIT as int, bl as int, UNIT as int);
        lemma_mul_bound(by as int, UNIT as int, bl as int, UNIT as int);
        assert(0 <= 5 * (WORLD_LIMIT as int) * (bl as int)) by (nonlinear_arith)
            requires
                0 <= bl as int,
                WORLD_LIMIT == 2_002_000_000,
        ;
        lemma_tdiv_bound(bo as int, bl as int, 5 * (WORLD_LIMIT as int) * (bl as int));
        assert(5 * (WORLD_LIMIT as int) * (bl as int) == (5 * (WORLD_LIMIT as int)) * (bl as int))
            by (nonlinear_arith);
        vstd::arithmetic::div_mod::lemma_div_by_multiple(5 * (WORLD_LIMIT as int), bl as int);
        vstd::arithmetic::div_mod::lemma_div_pos_is_pos(bo as int, bl as int);
    }
    let nx0: i64 = (wide_mul(bx, UNIT) / bl as i128) as i64;
    let ny0: i64 = (wide_mul(by, UNIT) / bl as i128) as i64;
    let depth: i64 = (bo / bl as i128) as i64;
    let dirx: i64 = polygon_center.x - circle_center.x;
    let diry: i64 = polygon_center.y - circle_center.y;
    proof {
        lemma_mul_bound(dirx as int, nx0 as int, 2 * (VEC_LIMIT as int), UNIT as int);
        lemma_mul_bound(diry as int, ny0 as int, 2 * (VEC_LIMIT as int), UNIT as int);
    }
    let orient: i128 = dirx as i128 * nx0 as i128 + diry as i128 * ny0 as i128;
    let (nx, ny): (i64, i64) = if orient < 0 {
        (-nx0, -ny0)
    } else {
        (nx0, ny0)
    };
    Some(
        CollisionDetails {
            penetration_depth: depth,
            collision_normal: FlatVec2 { x: nx, y: ny },
        },
    )
}

/// Closed-form circle-circle test: no collision at or beyond the sum of the
/// radii (or for coincident centres, the guarded degenerate case); otherwise
/// the depth is the radius sum less the centre distance and the normal is
/// the unit vector from the first centre toward the second.
pub fn intersect_circle_circle(
    pos_a: FlatVec2,
    radius_a: i64,
    pos_b: FlatVec2,
    radius_b: i64,
) -> (r: Option<CollisionDetails>)
    requires
        -MAX_COORD <= pos_a.x <= MAX_COORD,
        -MAX_COORD <= pos_a.y <= MAX_COORD,
        -MAX_COORD <= pos_b.x <= MAX_COORD,
        -MAX_COORD <= pos_b.y <= MAX_COORD,
        0 <= radius_a <= MAX_SHAPE,
        0 <= radius_b <= MAX_SHAPE,
    ensures
        match r {
            None => dist_sq(pos_a, pos_b) >= (radius_a + radius_b) * (radius_a + radius_b)
                || dist_sq(pos_a, pos_b) == 0,
            Some(cd) => {
                &&& 0 < dist_sq(pos_a, pos_b) < (radius_a + radius_b) * (radius_a + radius_b)
                &&& cd.penetration_depth == radius_a + radius_b - sqrt_floor(
                    dist_sq(pos_a, pos_b),
                )
                &&& 0 < cd.penetration_depth <= radius_a + radius_b
                &&& cd.collision_normal.x == unit_toward_x(pos_a, pos_b)
                &&& cd.collision_normal.y == unit_toward_y(pos_a, pos_b)
                &&& normal_in_range(cd.collision_normal)
                &&& cd.collision_normal.x * (pos_b.x - pos_a.x) >= 0
                &&& cd.collision_normal.y * (pos_b.y - pos_a.y) >= 0
            },
        },
{
    let dsq: i128 = pos_a.distance_squared(pos_b);
    let radius_sum: i64 = radius_a + radius_b;
    let rs_sq: i128 = wide_mul(radius_sum, radius_sum);
    if dsq >= rs_sq {
        return None;
    }
    if dsq == 0 {
        return None;
    }
    let dist: u64 = isqrt(dsq as u128);
    proof {
        lemma_diff_within_dist(pos_a, pos_b);
        lemma_unit_toward_bounds(pos_a, pos_b);
        assert(sqrt_floor(dsq as int) < radius_sum) by (nonlinear_arith)
            requires
                sqrt_floor(dsq as int) * sqrt_floor(dsq as int) <= dsq as int,
                dsq < rs_sq,
                rs_sq == radius_sum * radius_sum,
                sqrt_floor(dsq as int) >= 0,
                radius_sum >= 0,
        ;
    }
    let depth: i64 = radius_sum - dist as i64;
    let dx: i64 = pos_b.x - pos_a.x;
    let dy: i64 = pos_b.y - pos_a.y;
    let nx: i64 = (wide_mul(dx, UNIT) / dist as i128) as i64;
    let ny: i64 = (wide_mul(dy, UNIT) / dist as i128) as i64;
    Some(
        CollisionDetails {
            penetration_depth: depth,
            collision_normal: FlatVec2 { x: nx, y: ny },
        },
    )
}

/// The world-space points at which two colliding shapes touch: exactly one
/// or exactly two.
pub type ContactPoints = Vec<FlatVec2>;

/// Sentinel standing in for an unboundedly large squared distance before
/// any candidate contact has been seen.
pub const BIG_DIST_SQ: i128 = 1_000_000_000_000_000_000_000_000_000_000;

/// The x coordinate of the point of the segment `a`-`b` closest to `p`: the
/// clamped projection of `p` onto the segment, with a degenerate segment
/// collapsing to its first endpoint.
pub open spec fn seg_closest_x(p: FlatVec2, a: FlatVec2, b: FlatVec2) -> int {
    let abx = b.x - a.x;
    let aby = b.y - a.y;
    let proj = (p.x - a.x) * abx + (p.y - a.y) * aby;
    let absq = abx * abx + aby * aby;
    if absq == 0 {
        a.x as int
    } else if proj <= 0 {
        a.x as int
    } else if proj >= absq {
        b.x as int
    } else {
        a.x + tdiv(abx * proj, absq)
    }
}

/// The y coordinate of the point of the segment `a`-`b` closest to `p`.
pub open spec fn seg_closest_y(p: FlatVec2, a: FlatVec2, b: FlatVec2) -> int {
    let abx = b.x - a.x;
    let aby = b.y - a.y;
    let proj = (p.x - a.x) * abx + (p.y - a.y) * aby;
    let absq = abx * abx + aby * aby;
    if absq == 0 {
        a.y as int
    } else if proj <= 0 {
        a.y as int
    } else if proj >= absq {
        b.y as int
    } else {
        a.y + tdiv(aby * proj, absq)
    }
}

/// The squared distance from `p` to the closest point of the segment.
pub open spec fn seg_dist_sq(p: FlatVec2, a: FlatVec2, b: FlatVec2) -> int {
    let cx = seg_closest_x(p, a, b);
    let cy = seg_closest_y(p, a, b);
    (cx - p.x) * (cx - p.x) + (cy - p.y) * (cy - p.y)
}

/// The squared distance from a point to a segment, and the closest point of
/// the segment, exactly as the clamped-projection forms state them.
fn point_segment_distance(p: &FlatVec2, a: &FlatVec2, b: &FlatVec2) -> (r: (i128, FlatVec2))
    requires
        -WORLD_LIMIT <= p.x <= WORLD_LIMIT,
        -WORLD_LIMIT <= p.y <= WORLD_LIMIT,
        -WORLD_LIMIT <= a.x <= WORLD_LIMIT,
        -WORLD_LIMIT <= a.y <= WORLD_LIMIT,
        -WORLD_LIMIT <= b.x <= WORLD_LIMIT,
        -WORLD_LIMIT <= b.y <= WORLD_LIMIT,
    ensures
        r.1.x == seg_closest_x(*p, *a, *b),
        r.1.y == seg_closest_y(*p, *a, *b),
        r.0 == seg_dist_sq(*p, *a, *b),
        0 <= r.0 <= 36_000_000_000_000_000_000,
        -WORLD_LIMIT <= r.1.x <= WORLD_LIMIT,
        -WORLD_LIMIT <= r.1.y <= WORLD_LIMIT,
{
    let abx: i64 = b.x - a.x;
    let aby: i64 = b.y - a.y;
    let apx: i64 = p.x - a.x;
    let apy: i64 = p.y - a.y;
    proof {
        lemma_mul_bound(apx as int, abx as int, 4_004_000_000, 4_004_000_000);
        lemma_mul_bound(apy as int, aby as int, 4_004_000_000, 4_004_000_000);
        lemma_mul_bound(abx as int, abx as int, 4_004_000_000, 4_004_000_000);
        lemma_mul_bound(aby as int, aby as int, 4_004_000_000, 4_004_000_000);
        assert(abx as int * abx as int >= 0) by (nonlinear_arith);
        assert(aby as int * aby as int >= 0) by (nonlinear_arith);
    }
    let proj: i128 = wide_mul(apx, abx) + wide_mul(apy, aby);
    let absq: i128 = wide_mul(abx, abx) + wide_mul(aby, aby);
    let contact_point: FlatVec2 = if absq == 0 {
        *a
    } else if proj <= 0 {
        *a
    } else if proj >= absq {
        *b
    } else {
        proof {
            lemma_mul_bound(abx as int, proj as int, 4_004_000_000, absq as int);
            lemma_mul_bound(aby as int, proj as int, 4_004_000_000, absq as int);
            lemma_tdiv_bound(abx as int * proj as int, absq as int, 4_004_000_000 * (absq as int));
            lemma_tdiv_bound(aby as int * proj as int, absq as int, 4_004_000_000 * (absq as int));
            assert(4_004_000_000 * (absq as int) == (absq as int) * 4_004_000_000)
                by (nonlinear_arith);
            vstd::arithmetic::div_mod::lemma_div_by_multiple(4_004_000_000, absq as int);
            assert(0 <= 4_004_000_000 * (absq as int)) by (nonlinear_arith)
                requires
                    absq as int > 0,
            ;
        }
        let ox: i64 = (abx as i128 * proj / absq) as i64;
        let oy: i64 = (aby as i128 * proj / absq) as i64;
        proof {
            lemma_tdiv_sign(abx as int * proj as int, absq as int);
            lemma_tdiv_sign(aby as int * proj as int, absq as int);
            assert(abx >= 0 ==> abx as int * proj as int >= 0) by (nonlinear_arith)
                requires
                    proj as int > 0,
            ;
            assert(abx <= 0 ==> abx as int * proj as int <= 0) by (nonlinear_arith)
                requires
                    proj as int > 0,
            ;
            assert(aby >= 0 ==> aby as int * proj as int >= 0) by (nonlinear_arith)
                requires
                    proj as int > 0,
            ;
            assert(aby <= 0 ==> aby as int * proj as int <= 0) by (nonlinear_arith)
                requires
                    proj as int > 0,
            ;
            assert((abx as int) >= 0 ==> tdiv(abx as int * proj as int, absq as int)
                <= abx as int) by {
                if (abx as int) >= 0 {
                    lemma_mul_bound(abx as int, proj as int, abx as int, absq as int);
                    lemma_tdiv_bound(
                        abx as int * proj as int,
                        absq as int,
                        abx as int * (absq as int),
                    );
                    assert(abx as int * (absq as int) == (absq as int) * abx as int)
                        by (nonlinear_arith);
                    vstd::arithmetic::div_mod::lemma_div_by_multiple(abx as int, absq as int);
                    assert(0 <= abx as int * (absq as int)) by (nonlinear_arith)
                        requires
                            absq as int > 0,
                            abx as int >= 0,
                    ;
                }
            }
            assert((abx as int) < 0 ==> tdiv(abx as int * proj as int, absq as int)
                >= abx as int) by {
                if (abx as int) < 0 {
                    lemma_mul_bound(abx as int, proj as int, -(abx as int), absq as int);
                    lemma_tdiv_bound(
                        abx as int * proj as int,
                        absq as int,
                        -(abx as int) * (absq as int),
                    );
                    assert(-(abx as int) * (absq as int) == (absq as int) * -(abx as int))
                        by (nonlinear_arith);
                    vstd::arithmetic::div_mod::lemma_div_by_multiple(-(abx as int), absq as int);
                    assert(0 <= -(abx as int) * (absq as int)) by (nonlinear_arith)
                        requires
                            absq as int > 0,
                            (abx as int) < 0,
                    ;
                }
            }
            assert((aby as int) >= 0 ==> tdiv(aby as int * proj as int, absq as int)
                <= aby as int) by {
                if (aby as int) >= 0 {
                    lemma_mul_bound(aby as int, proj as int, aby as int, absq as int);
                    lemma_tdiv_bound(
                        aby as int * proj as int,
                        absq as int,
                        aby as int * (absq as int),
                    );
                    assert(aby as int * (absq as int) == (absq as int) * aby as int)
                        by (nonlinear_arith);
                    vstd::arithmetic::div_mod::lemma_div_by_multiple(aby as int, absq as int);
                    assert(0 <= aby as int * (absq as int)) by (nonlinear_arith)
                        requires
                            absq as int > 0,
                            aby as int >= 0,
                    ;
                }
            }
            assert((aby as int) < 0 ==> tdiv(aby as int * proj as int, absq as int)
                >= aby as int) by {
                if (aby as int) < 0 {
                    lemma_mul_bound(aby as int, proj as int, -(aby as int), absq as int);
                    lemma_tdiv_bound(
                        aby as int * proj as int,
                        absq as int,
                        -(aby as int) * (absq as int),
                    );
                    assert(-(aby as int) * (absq as int) == (absq as int) * -(aby as int))
                        by (nonlinear_arith);
                    vstd::arithmetic::div_mod::lemma_div_by_multiple(-(aby as int), absq as int);
                    assert(0 <= -(aby as int) * (absq as int)) by (nonlinear_arith)
                        requires
                            absq as int > 0,
                            (aby as int) < 0,
                    ;
                }
            }
        }
        FlatVec2 { x: a.x + ox, y: a.y + oy }
    };
    let distance_squared: i128 = p.distance_squared(contact_point);
    proof {
        let cx = contact_point.x as int - p.x as int;
        let cy = contact_point.y as int - p.y as int;
        lemma_mul_bound(cx, cx, 4_004_000_000, 4_004_000_000);
        lemma_mul_bound(cy, cy, 4_004_000_000, 4_004_000_000);
    }
    (distance_squared, contact_point)
}

/// The closest-contact fold of a circle centre against the first `k` edges
/// of a polygon: the contact point and its squared distance, a strictly
/// closer candidate replacing the held one.
pub open spec fn pc_contact(c: FlatVec2, verts: Seq<FlatVec2>, k: int) -> (int, int, int)
    decreases k,
{
    if k <= 1 {
        (
            seg_closest_x(c, verts[0], verts[1]),
            seg_closest_y(c, verts[0], verts[1]),
            seg_dist_sq(c, verts[0], verts[1]),
        )
    } else {
        let prev = pc_contact(c, verts, k - 1);
        let ea = verts[k - 1];
        let eb = verts[next_idx(k - 1)];
        let dsq = seg_dist_sq(c, ea, eb);
        if dsq < prev.2 {
            (seg_closest_x(c, ea, eb), seg_closest_y(c, ea, eb), dsq)
        } else {
            prev
        }
    }
}

/// The single polygon-circle contact: the closest point to the circle
/// centre over all polygon edges, earlier edges winning ties.
pub fn find_contact_point_polygon_circle(
    circle_center: &FlatVec2,
    circle_radius: i64,
    polygon_center: &FlatVec2,
    polygon_vertices: &[FlatVec2; 4],
) -> (r: ContactPoints)
    requires
        -MAX_COORD <= circle_center.x <= MAX_COORD,
        -MAX_COORD <= circle_center.y <= MAX_COORD,
        vec_in_range(*polygon_center),
        forall|k: int|
            0 <= k < 4 ==> -WORLD_LIMIT <= (#[trigger] polygon_vertices@[k]).x <= WORLD_LIMIT
                && -WORLD_LIMIT <= polygon_vertices@[k].y <= WORLD_LIMIT,
    ensures
        r@.len() == 1,
        r@[0].x == pc_contact(*circle_center, polygon_vertices@, 4).0,
        r@[0].y == pc_contact(*circle_center, polygon_vertices@, 4).1,
        -WORLD_LIMIT <= r@[0].x <= WORLD_LIMIT,
        -WORLD_LIMIT <= r@[0].y <= WORLD_LIMIT,
{
    let ghost c: FlatVec2 = *circle_center;
    let ghost vs: Seq<FlatVec2> = polygon_vertices@;
    let first: (i128, FlatVec2) = point_segment_distance(
        circle_center,
        &polygon_vertices[0],
        &polygon_vertices[1],
    );
    let mut cp: FlatVec2 = first.1;
    let mut min_distance_squared: i128 = first.0;
    let mut k: usize = 1;
    while k < 4
        invariant
            1 <= k <= 4,
            -MAX_COORD <= c.x <= MAX_COORD,
            -MAX_COORD <= c.y <= MAX_COORD,
            forall|idx: int|
                0 <= idx < 4 ==> -WORLD_LIMIT <= (#[trigger] vs[idx]).x <= WORLD_LIMIT
                    && -WORLD_LIMIT <= vs[idx].y <= WORLD_LIMIT,
            c == *circle_center,
            vs == polygon_vertices@,
            cp.x == pc_contact(c, vs, k as int).0,
            cp.y == pc_contact(c, vs, k as int).1,
            min_distance_squared == pc_contact(c, vs, k as int).2,
            -WORLD_LIMIT <= cp.x <= WORLD_LIMIT,
            -WORLD_LIMIT <= cp.y <= WORLD_LIMIT,
        decreases 4 - k,
    {
        let j: usize = if k == 3 {
            0
        } else {
            k + 1
        };
        let (distance_squared, contact): (i128, FlatVec2) = point_segment_distance(
            circle_center,
            &polygon_vertices[k],
            &polygon_vertices[j],
        );
        if distance_squared < min_distance_squared {
            min_distance_squared = distance_squared;
            cp = contact;
        }
        k = k + 1;
    }
    let mut result: ContactPoints = Vec::new();
    result.push(cp);
    result
}

/// One step's candidate point of the vertex-against-edge contact scan of a
/// polygon pair: the moving vertex of step `k`.
pub open spec fn ppc_cand_p(va: Seq<FlatVec2>, vb: Seq<FlatVec2>, k: int) -> FlatVec2 {
    if k < 16 {
        va[k / 4]
    } else {
        vb[(k - 16) / 4]
    }
}

/// The first endpoint of the edge tested at step `k` of the contact scan.
pub open spec fn ppc_cand_a(va: Seq<FlatVec2>, vb: Seq<FlatVec2>, k: int) -> FlatVec2 {
    if k < 16 {
        vb[k % 4]
    } else {
        va[(k - 16) % 4]
    }
}

/// The second endpoint of the edge tested at step `k` of the contact scan.
pub open spec fn ppc_cand_b(va: Seq<FlatVec2>, vb: Seq<FlatVec2>, k: int) -> FlatVec2 {
    if k < 16 {
        vb[next_idx(k % 4)]
    } else {
        va[next_idx((k - 16) % 4)]
    }
}

/// The polygon-polygon contact scan state after `k` of its 32 steps: first
/// contact, second contact, running least squared distance and contact
/// count. A candidate within tolerance of the least distance but away from
/// the first contact becomes the second; a strictly closer one replaces the
/// first.
pub open spec fn ppc_state(va: Seq<FlatVec2>, vb: Seq<FlatVec2>, k: int) -> (
    int,
    int,
    int,
    int,
    int,
    int,
)
    decreases k,
{
    if k <= 0 {
        (0, 0, 0, 0, BIG_DIST_SQ as int, 0)
    } else {
        let st = ppc_state(va, vb, k - 1);
        let p = ppc_cand_p(va, vb, k - 1);
        let ea = ppc_cand_a(va, vb, k - 1);
        let eb = ppc_cand_b(va, vb, k - 1);
        let dsq = seg_dist_sq(p, ea, eb);
        let cx = seg_closest_x(p, ea, eb);
        let cy = seg_closest_y(p, ea, eb);
        if crate::math::near_eq_sq(dsq, st.4) {
            if !(crate::math::near_eq(cx, st.0) && crate::math::near_eq(cy, st.1)) {
                (st.0, st.1, cx, cy, st.4, 2)
            } else {
                st
            }
        } else if dsq < st.4 {
            (cx, cy, st.2, st.3, dsq, 1)
        } else {
            st
        }
    }
}

/// Whether a returned contact list matches a finished contact-scan state:
/// two points when a flat contact was found, else one.
pub open spec fn ppc_matches(s: Seq<FlatVec2>, st: (int, int, int, int, int, int)) -> bool {
    if st.5 == 2 {
        s.len() == 2 && s[0].x == st.0 && s[0].y == st.1 && s[1].x == st.2 && s[1].y == st.3
    } else {
        s.len() == 1 && s[0].x == st.0 && s[0].y == st.1
    }
}

/// The one or two polygon-polygon contact points: every vertex of each
/// polygon is tested against every edge of the other, the closest
/// correspondence kept, and an equally close but distinct correspondence
/// recorded as a second contact.
#[verifier::rlimit(100)]
pub fn find_contact_points_polygon_polygon(
    vertices_a: &[FlatVec2; 4],
    vertices_b: &[FlatVec2; 4],
) -> (r: ContactPoints)
    requires
        forall|k: int|
            0 <= k < 4 ==> -WORLD_LIMIT <= (#[trigger] vertices_a@[k]).x <= WORLD_LIMIT
                && -WORLD_LIMIT <= vertices_a@[k].y <= WORLD_LIMIT,
        forall|k: int|
            0 <= k < 4 ==> -WORLD_LIMIT <= (#[trigger] vertices_b@[k]).x <= WORLD_LIMIT
                && -WORLD_LIMIT <= vertices_b@[k].y <= WORLD_LIMIT,
    ensures
        ppc_matches(r@, ppc_state(vertices_a@, vertices_b@, 32)),
        1 <= r@.len() <= 2,
        forall|i: int|
            0 <= i < r@.len() ==> -WORLD_LIMIT <= (#[trigger] r@[i]).x <= WORLD_LIMIT
                && -WORLD_LIMIT <= r@[i].y <= WORLD_LIMIT,
{
    let ghost va: Seq<FlatVec2> = vertices_a@;
    let ghost vb: Seq<FlatVec2> = vertices_b@;
    let mut contact1: FlatVec2 = FlatVec2 { x: 0, y: 0 };
    let mut contact2: FlatVec2 = FlatVec2 { x: 0, y: 0 };
    let mut min_dist_sq: i128 = BIG_DIST_SQ;
    let mut contact_count: usize = 0;
    let mut k: usize = 0;
    while k < 32
        invariant
            0 <= k <= 32,
            forall|idx: int|
                0 <= idx < 4 ==> -WORLD_LIMIT <= (#[trigger] va[idx]).x <= WORLD_LIMIT
                    && -WORLD_LIMIT <= va[idx].y <= WORLD_LIMIT,
            forall|idx: int|
                0 <= idx < 4 ==> -WORLD_LIMIT <= (#[trigger] vb[idx]).x <= WORLD_LIMIT
                    && -WORLD_LIMIT <= vb[idx].y <= WORLD_LIMIT,
            va == vertices_a@,
            vb == vertices_b@,
            ppc_state(va, vb, k as int) == (
                contact1.x as int,
                contact1.y as int,
                contact2.x as int,
                contact2.y as int,
                min_dist_sq as int,
                contact_count as int,
            ),
            contact_count == 0 || contact_count == 1 || contact_count == 2,
            0 <= min_dist_sq <= BIG_DIST_SQ,
            k == 0 ==> contact_count == 0,
            k >= 1 ==> contact_count >= 1,
            contact_count >= 1 ==> -WORLD_LIMIT <= contact1.x <= WORLD_LIMIT && -WORLD_LIMIT
                <= contact1.y <= WORLD_LIMIT,
            contact_count == 2 ==> -WORLD_LIMIT <= contact2.x <= WORLD_LIMIT && -WORLD_LIMIT
                <= contact2.y <= WORLD_LIMIT,
        decreases 32 - k,
    {
        let (p, ea, eb): (FlatVec2, FlatVec2, FlatVec2) = if k < 16 {
            let vi: usize = k / 4;
            let ej: usize = k % 4;
            let ej2: usize = if ej == 3 {
                0
            } else {
                ej + 1
            };
            (vertices_a[vi], vertices_b[ej], vertices_b[ej2])
        } else {
            let k2: usize = k - 16;
            let vi: usize = k2 / 4;
            let ej: usize = k2 % 4;
            let ej2: usize = if ej == 3 {
                0
            } else {
                ej + 1
            };
            (vertices_b[vi], vertices_a[ej], vertices_a[ej2])
        };
        proof {
            assert(p == ppc_cand_p(va, vb, k as int));
            assert(ea == ppc_cand_a(va, vb, k as int));
            assert(eb == ppc_cand_b(va, vb, k as int));
        }
        let (distance_squared, contact_point): (i128, FlatVec2) = point_segment_distance(
            &p,
            &ea,
            &eb,
        );
        if crate::math::nearly_equal_sq(distance_squared, min_dist_sq) {
            if !(crate::math::nearly_equal(contact_point.x, contact1.x)
                && crate::math::nearly_equal(contact_point.y, contact1.y)) {
                contact2 = contact_point;
                contact_count = 2;
            }
        } else if distance_squared < min_dist_sq {
            min_dist_sq = distance_squared;
            contact1 = contact_point;
            contact_count = 1;
        }
        k = k + 1;
    }
    let mut result: ContactPoints = Vec::new();
    if contact_count == 2 {
        result.push(contact1);
        result.push(contact2);
        return result;
    }
    result.push(contact1);
    result
}

/// The single circle-circle contact point: the first centre carried toward
/// the second by the first radius.
pub fn find_contanct_point(center_a: &FlatVec2, radius_a: i64, center_b: &FlatVec2) -> (r:
    FlatVec2)
    requires
        -MAX_COORD <= center_a.x <= MAX_COORD,
        -MAX_COORD <= center_a.y <= MAX_COORD,
        -MAX_COORD <= center_b.x <= MAX_COORD,
        -MAX_COORD <= center_b.y <= MAX_COORD,
        0 <= radius_a <= MAX_SHAPE,
    ensures
        dist_sq(*center_a, *center_b) == 0 ==> r == *center_a,
        dist_sq(*center_a, *center_b) != 0 ==> r.x == center_a.x + tdiv(
            unit_toward_x(*center_a, *center_b) * radius_a,
            UNIT as int,
        ) && r.y == center_a.y + tdiv(
            unit_toward_y(*center_a, *center_b) * radius_a,
            UNIT as int,
        ),
        -MAX_COORD - MAX_SHAPE <= r.x <= MAX_COORD + MAX_SHAPE,
        -MAX_COORD - MAX_SHAPE <= r.y <= MAX_COORD + MAX_SHAPE,
{
    let dsq: i128 = center_a.distance_squared(*center_b);
    if dsq == 0 {
        return *center_a;
    }
    let dist: u64 = isqrt(dsq as u128);
    proof {
        lemma_diff_within_dist(*center_a, *center_b);
        lemma_unit_toward_bounds(*center_a, *center_b);
    }
    let dx: i64 = center_b.x - center_a.x;
    let dy: i64 = center_b.y - center_a.y;
    let nx: i64 = (wide_mul(dx, UNIT) / dist as i128) as i64;
    let ny: i64 = (wide_mul(dy, UNIT) / dist as i128) as i64;
    proof {
        lemma_mul_bound(nx as int, radius_a as int, UNIT as int, MAX_SHAPE as int);
        lemma_tdiv_bound(nx as int * radius_a as int, UNIT as int, UNIT as int * MAX_SHAPE as int);
        lemma_mul_bound(ny as int, radius_a as int, UNIT as int, MAX_SHAPE as int);
        lemma_tdiv_bound(ny as int * radius_a as int, UNIT as int, UNIT as int * MAX_SHAPE as int);
        assert((UNIT as int * MAX_SHAPE as int) / (UNIT as int) == MAX_SHAPE as int) by {
            vstd::arithmetic::div_mod::lemma_div_by_multiple(MAX_SHAPE as int, UNIT as int);
            assert(UNIT as int * MAX_SHAPE as int == MAX_SHAPE as int * UNIT as int)
                by (nonlinear_arith);
        }
    }
    let px: i64 = center_a.x + (wide_mul(nx, radius_a) / UNIT as i128) as i64;
    let py: i64 = center_a.y + (wide_mul(ny, radius_a) / UNIT as i128) as i64;
    FlatVec2 { x: px, y: py }
}

} // verus!
