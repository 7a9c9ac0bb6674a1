//! The world and its solver: shape dispatch for detection, the
//! impulse-based velocity resolvers, broad-phase pruning and the
//! fixed-timestep sub-stepping loop.
use vstd::prelude::*;
use crate::collisions::{
    collider_wf, cpoly_axis_len_sq, cpoly_best, cpoly_result, cpoly_separated, intersect_aabbs,
    intersect_circle_circle, intersect_circle_polygon, intersects_polygons, normal_in_range,
    pp_axis_len_sq, pp_best, pp_result, pp_separated, separate_bodies, unit_toward_x,
    unit_toward_y, contacts_spec, Collider, CollisionDetails, ContactPoints, Shape, WORLD_LIMIT,
    find_contanct_points,
};
use crate::flat_body::{body_wf, handle_physics_step, FlatBody, FlatBodyType};
use crate::helpers::get_global_vertices;
use crate::math::{sat, saturate, tdiv, wide_mul, INV_MASS_SCALE, MAX_COORD, UNIT};
use crate::transform::{transform_in_range, FlatTransform};
use crate::vec2::{dist_sq, FlatVec2};

verus! {

/// Process-wide simulation configuration: gravity, sub-iteration count and
/// per-tick diagnostics.
pub struct FlatWorld {
    pub gravity: FlatVec2,
    pub iterations: u32,
    pub body_count: usize,
    pub world_step_time_s: u128,
}

/// The relative normal velocity of a pair, ignoring rotation.
pub open spec fn basic_rel_vn(a: FlatBody, b: FlatBody, n: FlatVec2) -> int {
    tdiv(
        (b.linear_velocity.x - a.linear_velocity.x) * n.x + (b.linear_velocity.y
            - a.linear_velocity.y) * n.y,
        UNIT as int,
    )
}

/// The basic restitution impulse magnitude of a pair, in fixed point.
pub open spec fn basic_j(a: FlatBody, b: FlatBody, n: FlatVec2) -> int {
    let e = vstd::math::min(a.restitution as int, b.restitution as int);
    tdiv(
        -(((UNIT as int) + e) * basic_rel_vn(a, b, n) * (INV_MASS_SCALE as int)),
        (a.inv_mass + b.inv_mass) * (UNIT as int),
    )
}

/// The velocity change the basic impulse gives one body: the impulse along
/// the normal scaled by the body's stored inverse mass.
pub open spec fn basic_delta(j: int, ncomp: int, inv_mass: int) -> int {
    tdiv(tdiv(j * ncomp, UNIT as int) * inv_mass, INV_MASS_SCALE as int)
}

/// Point-mass restitution resolution: no impulse for an already separating
/// pair; otherwise the classic restitution impulse split by the bodies'
/// inverse masses, returned as the two velocity changes to apply.
pub fn resolve_collision_basic(
    body_a: &FlatBody,
    body_b: &FlatBody,
    normal: &FlatVec2,
    depth: i64,
) -> (r: Option<(FlatVec2, FlatVec2)>)
    requires
        body_wf(*body_a),
        body_wf(*body_b),
        normal_in_range(*normal),
        !(body_a.body_type is Static && body_b.body_type is Static),
    ensures
        basic_rel_vn(*body_a, *body_b, *normal) > 0 <==> r is None,
        (r matches Some(imp) ==> {
            let j = basic_j(*body_a, *body_b, *normal);
            &&& imp.0.x == -basic_delta(j, normal.x as int, body_a.inv_mass as int)
            &&& imp.0.y == -basic_delta(j, normal.y as int, body_a.inv_mass as int)
            &&& imp.1.x == basic_delta(j, normal.x as int, body_b.inv_mass as int)
            &&& imp.1.y == basic_delta(j, normal.y as int, body_b.inv_mass as int)
            &&& body_a.body_type is Static ==> imp.0 == (FlatVec2 { x: 0, y: 0 })
            &&& body_b.body_type is Static ==> imp.1 == (FlatVec2 { x: 0, y: 0 })
            &&& -20_000_000_000_000_000 <= imp.0.x <= 20_000_000_000_000_000
            &&& -20_000_000_000_000_000 <= imp.0.y <= 20_000_000_000_000_000
            &&& -20_000_000_000_000_000 <= imp.1.x <= 20_000_000_000_000_000
            &&& -20_000_000_000_000_000 <= imp.1.y <= 20_000_000_000_000_000
        }),
{
    proof {
        crate::flat_body::lemma_body_reciprocal_bounds(*body_a);
        crate::flat_body::lemma_body_reciprocal_bounds(*body_b);
    }
    let rvx: i64 = body_b.linear_velocity.x - body_a.linear_velocity.x;
    let rvy: i64 = body_b.linear_velocity.y - body_a.linear_velocity.y;
    proof {
        crate::math::lemma_mul_bound(rvx as int, normal.x as int, 4_000_000_000, UNIT as int);
        crate::math::lemma_mul_bound(rvy as int, normal.y as int, 4_000_000_000, UNIT as int);
        crate::math::lemma_tdiv_bound(
            rvx as int * normal.x as int + rvy as int * normal.y as int,
            UNIT as int,
            8_000_000_000_000,
        );
    }
    let vn: i128 = (wide_mul(rvx, normal.x) + wide_mul(rvy, normal.y)) / UNIT as i128;
    if vn > 0 {
        return None;
    }
    let e: i64 = crate::collisions::min_i64(body_a.restitution, body_b.restitution);
    let denom: i64 = body_a.inv_mass + body_b.inv_mass;
    proof {
        crate::math::lemma_mul_bound((UNIT + e) as int, vn as int, 2000, 8_000_000_000);
        crate::math::lemma_mul_bound(
            (UNIT + e) as int * vn as int,
            INV_MASS_SCALE as int,
            16_000_000_000_000,
            INV_MASS_SCALE as int,
        );
        crate::math::lemma_tdiv_bound(
            -((UNIT + e) as int * vn as int * (INV_MASS_SCALE as int)),
            denom as int * UNIT as int,
            16_000_000_000_000_000_000,
        );
        vstd::arithmetic::div_mod::lemma_div_is_ordered_by_denominator(
            16_000_000_000_000_000_000,
            1000,
            denom as int * UNIT as int,
        );
        assert(denom as int * UNIT as int >= 1000) by (nonlinear_arith)
            requires
                denom as int >= 1,
                UNIT == 1000,
        ;
    }
    let jnum: i128 = -((UNIT + e) as i128 * vn * INV_MASS_SCALE as i128);
    let j: i128 = jnum / wide_mul(denom, UNIT);
    proof {
        crate::math::lemma_mul_bound(j as int, normal.x as int, 16_000_000_000_000_000, UNIT as int);
        crate::math::lemma_mul_bound(j as int, normal.y as int, 16_000_000_000_000_000, UNIT as int);
        crate::math::lemma_tdiv_bound(
            j as int * normal.x as int,
            UNIT as int,
            16_000_000_000_000_000_000,
        );
        crate::math::lemma_tdiv_bound(
            j as int * normal.y as int,
            UNIT as int,
            16_000_000_000_000_000_000,
        );
    }
    let ix: i128 = j * normal.x as i128 / UNIT as i128;
    let iy: i128 = j * normal.y as i128 / UNIT as i128;
    proof {
        crate::math::lemma_mul_bound(
            ix as int,
            body_a.inv_mass as int,
            16_000_000_000_000_000,
            INV_MASS_SCALE as int,
        );
        crate::math::lemma_mul_bound(
            iy as int,
            body_a.inv_mass as int,
            16_000_000_000_000_000,
            INV_MASS_SCALE as int,
        );
        crate::math::lemma_mul_bound(
            ix as int,
            body_b.inv_mass as int,
            16_000_000_000_000_000,
            INV_MASS_SCALE as int,
        );
        crate::math::lemma_mul_bound(
            iy as int,
            body_b.inv_mass as int,
            16_000_000_000_000_000,
            INV_MASS_SCALE as int,
        );
        crate::math::lemma_tdiv_bound(
            ix as int * body_a.inv_mass as int,
            INV_MASS_SCALE as int,
            16_000_000_000_000_000int * 1_000_000int,
        );
        crate::math::lemma_tdiv_bound(
            iy as int * body_a.inv_mass as int,
            INV_MASS_SCALE as int,
            16_000_000_000_000_000int * 1_000_000int,
        );
        crate::math::lemma_tdiv_bound(
            ix as int * body_b.inv_mass as int,
            INV_MASS_SCALE as int,
            16_000_000_000_000_000int * 1_000_000int,
        );
        crate::math::lemma_tdiv_bound(
            iy as int * body_b.inv_mass as int,
            INV_MASS_SCALE as int,
            16_000_000_000_000_000int * 1_000_000int,
        );
    }
    let impulse_a: FlatVec2 = FlatVec2 {
        x: -((ix * body_a.inv_mass as i128 / INV_MASS_SCALE as i128) as i64),
        y: -((iy * body_a.inv_mass as i128 / INV_MASS_SCALE as i128) as i64),
    };
    let impulse_b: FlatVec2 = FlatVec2 {
        x: (ix * body_b.inv_mass as i128 / INV_MASS_SCALE as i128) as i64,
        y: (iy * body_b.inv_mass as i128 / INV_MASS_SCALE as i128) as i64,
    };
    Some((impulse_a, impulse_b))
}

/// The narrow-phase outcome of a shape pair, as a value: the collision
/// normal's components and the penetration depth, or nothing when a
/// candidate axis separates the pair (or the circle test rejects it).
pub open spec fn collide_spec(
    ta: FlatTransform,
    sa: Shape,
    tb: FlatTransform,
    sb: Shape,
) -> Option<(int, int, int)> {
    match (sa, sb) {
        (Shape::Circle(cpa), Shape::Circle(cpb)) => {
            let dsq = dist_sq(ta.translation, tb.translation);
            let rs = cpa.radius + cpb.radius;
            if dsq == 0 || dsq >= rs * rs {
                None
            } else {
                Some(
                    (
                        unit_toward_x(ta.translation, tb.translation),
                        unit_toward_y(ta.translation, tb.translation),
                        rs - crate::math::sqrt_floor(dsq),
                    ),
                )
            }
        },
        (Shape::Box(bpa), Shape::Box(bpb)) => {
            let wa = crate::collisions::box_world_verts(ta, bpa);
            let wb = crate::collisions::box_world_verts(tb, bpb);
            if exists|k: int|
                0 <= k < 8 && #[trigger] pp_axis_len_sq(wa, wb, k) != 0 && pp_separated(
                    wa,
                    wb,
                    k,
                ) {
                None
            } else {
                pp_result(wa, wb, ta.translation, tb.translation)
            }
        },
        (Shape::Box(bpa), Shape::Circle(cpb)) => {
            let wa = crate::collisions::box_world_verts(ta, bpa);
            let c = tb.translation;
            if exists|k: int|
                0 <= k < 5 && #[trigger] cpoly_axis_len_sq(c, wa, k) != 0 && cpoly_separated(
                    c,
                    cpb.radius as int,
                    wa,
                    k,
                ) {
                None
            } else {
                match cpoly_result(c, cpb.radius as int, wa, ta.translation) {
                    None => None,
                    Some(t) => Some((-t.0, -t.1, t.2)),
                }
            }
        },
        (Shape::Circle(cpa), Shape::Box(bpb)) => {
            let wb = crate::collisions::box_world_verts(tb, bpb);
            let c = ta.translation;
            if exists|k: int|
                0 <= k < 5 && #[trigger] cpoly_axis_len_sq(c, wb, k) != 0 && cpoly_separated(
                    c,
                    cpa.radius as int,
                    wb,
                    k,
                ) {
                None
            } else {
                cpoly_result(c, cpa.radius as int, wb, tb.translation)
            }
        },
    }
}

/// Narrow-phase dispatch on the two shapes: polygon-polygon and
/// circle-circle directly, and the circle-polygon primitive for the mixed
/// cases, negating its normal when the box is the first shape so that the
/// normal always points from the first body toward the second. The result
/// is exactly `collide_spec` of the pair.
pub fn collide(entity_a: (&FlatTransform, &Collider), entity_b: (&FlatTransform, &Collider)) -> (r:
    Option<CollisionDetails>)
    requires
        transform_in_range(*entity_a.0),
        transform_in_range(*entity_b.0),
        collider_wf(*entity_a.1),
        collider_wf(*entity_b.1),
    ensures
        r is None <==> collide_spec(
            *entity_a.0,
            entity_a.1.shape,
            *entity_b.0,
            entity_b.1.shape,
        ) is None,
        (r matches Some(cd) ==> (collide_spec(
            *entity_a.0,
            entity_a.1.shape,
            *entity_b.0,
            entity_b.1.shape,
        ) matches Some(t) && cd.collision_normal.x == t.0 && cd.collision_normal.y == t.1
            && cd.penetration_depth == t.2)),
        (r matches Some(cd) ==> normal_in_range(cd.collision_normal) && 0
            <= cd.penetration_depth <= 20_000_000_000),
{
    let (pos_a, collider_a) = entity_a;
    let (pos_b, collider_b) = entity_b;

    match (&collider_a.shape, &collider_b.shape) {
        (Shape::Box(box_params_a), Shape::Box(box_params_b)) => {
            let vertices_a = get_global_vertices(pos_a, &box_params_a.verticies);
            let vertices_b = get_global_vertices(pos_b, &box_params_b.verticies);
            let r = intersects_polygons(
                &vertices_a,
                &pos_a.translation,
                &vertices_b,
                &pos_b.translation,
            );
            proof {
                crate::collisions::lemma_world_verts_match(*pos_a, *box_params_a, vertices_a);
                crate::collisions::lemma_world_verts_match(*pos_b, *box_params_b, vertices_b);
            }
            r
        },
        (Shape::Box(box_params_a), Shape::Circle(circle_params_b)) => {
            let vertices_a = get_global_vertices(pos_a, &box_params_a.verticies);
            let collision = intersect_circle_polygon(
                &pos_b.translation,
                circle_params_b.radius,
                &vertices_a,
                &pos_a.translation,
            );
            proof {
                crate::collisions::lemma_world_verts_match(*pos_a, *box_params_a, vertices_a);
            }
            match collision {
                Some(coll) => Some(
                    CollisionDetails {
                        penetration_depth: coll.penetration_depth,
                        collision_normal: FlatVec2 {
                            x: -coll.collision_normal.x,
                            y: -coll.collision_normal.y,
                        },
                    },
                ),
                None => None,
            }
        },
        (Shape::Circle(circle_params_a), Shape::Box(box_params_b)) => {
            let vertices_b = get_global_vertices(pos_b, &box_params_b.verticies);
            let r = intersect_circle_polygon(
                &pos_a.translation,
                circle_params_a.radius,
                &vertices_b,
                &pos_b.translation,
            );
            proof {
                crate::collisions::lemma_world_verts_match(*pos_b, *box_params_b, vertices_b);
            }
            r
        },
        (Shape::Circle(circle_params_a), Shape::Circle(circle_params_b)) => intersect_circle_circle(
            pos_a.translation,
            circle_params_a.radius,
            pos_b.translation,
            circle_params_b.radius,
        ),
    }
}

/// The x lever arm of a contact about a body's centre.
pub open spec fn lever_x(cp: FlatVec2, t: FlatTransform) -> int {
    cp.x - t.translation.x
}

/// The y lever arm of a contact about a body's centre.
pub open spec fn lever_y(cp: FlatVec2, t: FlatTransform) -> int {
    cp.y - t.translation.y
}

/// The x component of the pair's relative velocity at a contact, angular
/// contributions included.
pub open spec fn rvel_x(
    a: FlatBody,
    b: FlatBody,
    ta: FlatTransform,
    tb: FlatTransform,
    cp: FlatVec2,
) -> int {
    (b.linear_velocity.x + tdiv(-lever_y(cp, tb) * b.angular_velocity, UNIT as int)) - (
    a.linear_velocity.x + tdiv(-lever_y(cp, ta) * a.angular_velocity, UNIT as int))
}

/// The y component of the pair's relative velocity at a contact.
pub open spec fn rvel_y(
    a: FlatBody,
    b: FlatBody,
    ta: FlatTransform,
    tb: FlatTransform,
    cp: FlatVec2,
) -> int {
    (b.linear_velocity.y + tdiv(lever_x(cp, tb) * b.angular_velocity, UNIT as int)) - (
    a.linear_velocity.y + tdiv(lever_x(cp, ta) * a.angular_velocity, UNIT as int))
}

/// The relative velocity at a contact projected onto the normal.
pub open spec fn contact_vn(
    a: FlatBody,
    b: FlatBody,
    ta: FlatTransform,
    tb: FlatTransform,
    cp: FlatVec2,
    n: FlatVec2,
) -> int {
    tdiv(rvel_x(a, b, ta, tb, cp) * n.x + rvel_y(a, b, ta, tb, cp) * n.y, UNIT as int)
}

/// A lever arm's perpendicular projected onto a direction.
pub open spec fn lever_perp_dot(cp: FlatVec2, t: FlatTransform, dx: int, dy: int) -> int {
    tdiv(-lever_y(cp, t) * dx + lever_x(cp, t) * dy, UNIT as int)
}

/// A body's rotational term of the effective mass: the squared projected
/// lever over the inertia, in inverse-mass scale; zero without inertia.
pub open spec fn rot_term(rpn: int, body: FlatBody) -> int {
    if body.inertia > 0 {
        tdiv(rpn * rpn * (INV_MASS_SCALE as int), body.inertia as int)
    } else {
        0
    }
}

/// The effective mass of a contact along a direction.
pub open spec fn contact_denom(
    a: FlatBody,
    b: FlatBody,
    ta: FlatTransform,
    tb: FlatTransform,
    cp: FlatVec2,
    dx: int,
    dy: int,
) -> int {
    a.inv_mass + b.inv_mass + rot_term(lever_perp_dot(cp, ta, dx, dy), a) + rot_term(
        lever_perp_dot(cp, tb, dx, dy),
        b,
    )
}

/// The restitution impulse magnitude of one contact, split over the
/// manifold's contact count.
pub open spec fn contact_j(
    a: FlatBody,
    b: FlatBody,
    ta: FlatTransform,
    tb: FlatTransform,
    cp: FlatVec2,
    n: FlatVec2,
    cnt: int,
) -> int {
    let e = vstd::math::min(a.restitution as int, b.restitution as int);
    let vn = contact_vn(a, b, ta, tb, cp, n);
    let j0 = tdiv(
        -(((UNIT as int) + e) * vn * (INV_MASS_SCALE as int)),
        contact_denom(a, b, ta, tb, cp, n.x as int, n.y as int) * (UNIT as int),
    );
    tdiv(j0, cnt)
}

/// The restitution impulse magnitude a contact stores: zero when the
/// contact is already separating.
pub open spec fn stored_j(
    a: FlatBody,
    b: FlatBody,
    ta: FlatTransform,
    tb: FlatTransform,
    cp: FlatVec2,
    n: FlatVec2,
    cnt: int,
) -> int {
    if contact_vn(a, b, ta, tb, cp, n) > 0 {
        0
    } else {
        contact_j(a, b, ta, tb, cp, n, cnt)
    }
}

/// The x component of the restitution impulse of one contact.
pub open spec fn rot_impulse_x(
    a: FlatBody,
    b: FlatBody,
    ta: FlatTransform,
    tb: FlatTransform,
    cp: FlatVec2,
    n: FlatVec2,
    cnt: int,
) -> int {
    if contact_vn(a, b, ta, tb, cp, n) > 0 {
        0
    } else {
        tdiv(contact_j(a, b, ta, tb, cp, n, cnt) * n.x, UNIT as int)
    }
}

/// The y component of the restitution impulse of one contact.
pub open spec fn rot_impulse_y(
    a: FlatBody,
    b: FlatBody,
    ta: FlatTransform,
    tb: FlatTransform,
    cp: FlatVec2,
    n: FlatVec2,
    cnt: int,
) -> int {
    if contact_vn(a, b, ta, tb, cp, n) > 0 {
        0
    } else {
        tdiv(contact_j(a, b, ta, tb, cp, n, cnt) * n.y, UNIT as int)
    }
}

/// One impulse applied to a pair: equal and opposite velocity changes by
/// the inverse masses, and torque by the lever cross the impulse over each
/// inertia, everything saturating into the simulation range.
pub open spec fn apply_impulse(
    a: FlatBody,
    b: FlatBody,
    ta: FlatTransform,
    tb: FlatTransform,
    cp: FlatVec2,
    ix: int,
    iy: int,
) -> (FlatBody, FlatBody) {
    let dvax = tdiv(ix * a.inv_mass, INV_MASS_SCALE as int);
    let dvay = tdiv(iy * a.inv_mass, INV_MASS_SCALE as int);
    let dvbx = tdiv(ix * b.inv_mass, INV_MASS_SCALE as int);
    let dvby = tdiv(iy * b.inv_mass, INV_MASS_SCALE as int);
    let crossa = lever_x(cp, ta) * iy - lever_y(cp, ta) * ix;
    let crossb = lever_x(cp, tb) * iy - lever_y(cp, tb) * ix;
    let dwa = if a.inertia > 0 {
        tdiv(crossa * (UNIT as int), a.inertia as int)
    } else {
        0
    };
    let dwb = if b.inertia > 0 {
        tdiv(crossb * (UNIT as int), b.inertia as int)
    } else {
        0
    };
    let a2 = FlatBody {
        linear_velocity: FlatVec2 {
            x: sat(a.linear_velocity.x - dvax) as i64,
            y: sat(a.linear_velocity.y - dvay) as i64,
        },
        angular_velocity: sat(a.angular_velocity - dwa) as i64,
        ..a
    };
    let b2 = FlatBody {
        linear_velocity: FlatVec2 {
            x: sat(b.linear_velocity.x + dvbx) as i64,
            y: sat(b.linear_velocity.y + dvby) as i64,
        },
        angular_velocity: sat(b.angular_velocity + dwb) as i64,
        ..b
    };
    (a2, b2)
}

/// The pair's state after the first `i` restitution impulses, each computed
/// from the pre-pass state and applied in order.
pub open spec fn rot_pass(
    a0: FlatBody,
    b0: FlatBody,
    ta: FlatTransform,
    tb: FlatTransform,
    cps: Seq<FlatVec2>,
    n: FlatVec2,
    i: int,
) -> (FlatBody, FlatBody)
    decreases i,
{
    if i <= 0 {
        (a0, b0)
    } else {
        let prev = rot_pass(a0, b0, ta, tb, cps, n, i - 1);
        let cp = cps[i - 1];
        let ix = rot_impulse_x(a0, b0, ta, tb, cp, n, cps.len() as int);
        let iy = rot_impulse_y(a0, b0, ta, tb, cp, n, cps.len() as int);
        apply_impulse(prev.0, prev.1, ta, tb, cp, ix, iy)
    }
}

/// Impulse application never changes a body's kind, masses, inertia or
/// coefficients: the restitution pass preserves them all.
pub proof fn lemma_rot_pass_frame(
    a0: FlatBody,
    b0: FlatBody,
    ta: FlatTransform,
    tb: FlatTransform,
    cps: Seq<FlatVec2>,
    n: FlatVec2,
    i: int,
)
    ensures
        rot_pass(a0, b0, ta, tb, cps, n, i).0 == (FlatBody {
            linear_velocity: rot_pass(a0, b0, ta, tb, cps, n, i).0.linear_velocity,
            angular_velocity: rot_pass(a0, b0, ta, tb, cps, n, i).0.angular_velocity,
            ..a0
        }),
        rot_pass(a0, b0, ta, tb, cps, n, i).1 == (FlatBody {
            linear_velocity: rot_pass(a0, b0, ta, tb, cps, n, i).1.linear_velocity,
            angular_velocity: rot_pass(a0, b0, ta, tb, cps, n, i).1.angular_velocity,
            ..b0
        }),
    decreases i,
{
    if i > 0 {
        lemma_rot_pass_frame(a0, b0, ta, tb, cps, n, i - 1);
    }
}

/// Whether every contact coordinate stays within the world range.
pub open spec fn contacts_in_range(cps: Seq<FlatVec2>) -> bool {
    forall|i: int|
        0 <= i < cps.len() ==> -WORLD_LIMIT <= (#[trigger] cps[i]).x <= WORLD_LIMIT
            && -WORLD_LIMIT <= cps[i].y <= WORLD_LIMIT
}

/// Sequential-impulse restitution resolution with rotation: for each
/// contact of the manifold, a restitution impulse computed from the
/// pre-pass velocities, skipped for separating contacts, then all impulses
/// applied to both bodies' linear and angular velocities.
#[verifier::rlimit(100)]
pub fn resolve_collision_with_rotation(
    body_a: &mut FlatBody,
    transform_a: &FlatTransform,
    body_b: &mut FlatBody,
    transform_b: &FlatTransform,
    contact_points: &ContactPoints,
    normal: &FlatVec2,
    depth: i64,
)
    requires
        body_wf(*old(body_a)),
        body_wf(*old(body_b)),
        transform_in_range(*transform_a),
        transform_in_range(*transform_b),
        normal_in_range(*normal),
        contacts_in_range(contact_points@),
        contact_points@.len() <= 2,
        !(old(body_a).body_type is Static && old(body_b).body_type is Static),
    ensures
        body_wf(*final(body_a)),
        body_wf(*final(body_b)),
        (*final(body_a), *final(body_b)) == rot_pass(
            *old(body_a),
            *old(body_b),
            *transform_a,
            *transform_b,
            contact_points@,
            *normal,
            contact_points@.len() as int,
        ),
{
    let ghost a0 = *body_a;
    let ghost b0 = *body_b;
    proof {
        crate::flat_body::lemma_body_reciprocal_bounds(a0);
        crate::flat_body::lemma_body_reciprocal_bounds(b0);
    }
    let cnt: usize = contact_points.len();
    let mut impulses_x: Vec<i128> = Vec::new();
    let mut impulses_y: Vec<i128> = Vec::new();
    let mut i: usize = 0;
    while i < cnt
        invariant
            0 <= i <= cnt,
            cnt == contact_points@.len(),
            cnt <= 2,
            body_wf(a0),
            body_wf(b0),
            a0 == *body_a,
            b0 == *body_b,
            transform_in_range(*transform_a),
            transform_in_range(*transform_b),
            normal_in_range(*normal),
            contacts_in_range(contact_points@),
            !(a0.body_type is Static && b0.body_type is Static),
            impulses_x@.len() == i,
            impulses_y@.len() == i,
            forall|j: int|
                0 <= j < i ==> #[trigger] impulses_x@[j] == rot_impulse_x(
                    a0,
                    b0,
                    *transform_a,
                    *transform_b,
                    contact_points@[j],
                    *normal,
                    cnt as int,
                ),
            forall|j: int|
                0 <= j < i ==> #[trigger] impulses_y@[j] == rot_impulse_y(
                    a0,
                    b0,
                    *transform_a,
                    *transform_b,
                    contact_points@[j],
                    *normal,
                    cnt as int,
                ),
            forall|j: int|
                0 <= j < i ==> -70_000_000_000_000_000_000_000 <= #[trigger] impulses_x@[j]
                    <= 70_000_000_000_000_000_000_000 && -70_000_000_000_000_000_000_000
                    <= impulses_y@[j] <= 70_000_000_000_000_000_000_000,
        decreases cnt - i,
    {
        let cp: FlatVec2 = contact_points[i];
        let (ix, iy, _j): (i128, i128, i128) = contact_impulse(
            body_a,
            transform_a,
            body_b,
            transform_b,
            cp,
            normal,
            cnt,
        );
        impulses_x.push(ix);
        impulses_y.push(iy);
        i = i + 1;
    }
    let mut i: usize = 0;
    while i < cnt
        invariant
            0 <= i <= cnt,
            cnt == contact_points@.len(),
            cnt <= 2,
            body_wf(a0),
            body_wf(b0),
            body_wf(*body_a),
            body_wf(*body_b),
            transform_in_range(*transform_a),
            transform_in_range(*transform_b),
            normal_in_range(*normal),
            contacts_in_range(contact_points@),
            impulses_x@.len() == cnt,
            impulses_y@.len() == cnt,
            forall|j: int|
                0 <= j < cnt ==> #[trigger] impulses_x@[j] == rot_impulse_x(
                    a0,
                    b0,
                    *transform_a,
                    *transform_b,
                    contact_points@[j],
                    *normal,
                    cnt as int,
                ),
            forall|j: int|
                0 <= j < cnt ==> #[trigger] impulses_y@[j] == rot_impulse_y(
                    a0,
                    b0,
                    *transform_a,
                    *transform_b,
                    contact_points@[j],
                    *normal,
                    cnt as int,
                ),
            forall|j: int|
                0 <= j < cnt ==> -70_000_000_000_000_000_000_000 <= #[trigger] impulses_x@[j]
                    <= 70_000_000_000_000_000_000_000 && -70_000_000_000_000_000_000_000
                    <= impulses_y@[j] <= 70_000_000_000_000_000_000_000,
            (*body_a, *body_b) == rot_pass(
                a0,
                b0,
                *transform_a,
                *transform_b,
                contact_points@,
                *normal,
                i as int,
            ),
        decreases cnt - i,
    {
        let cp: FlatVec2 = contact_points[i];
        let ix: i128 = impulses_x[i];
        let iy: i128 = impulses_y[i];
        apply_one_impulse(body_a, transform_a, body_b, transform_b, cp, ix, iy);
        i = i + 1;
    }
}

/// The x component of the tangential relative velocity at a contact: the
/// relative velocity with its normal component projected out.
pub open spec fn tangent_x(
    a: FlatBody,
    b: FlatBody,
    ta: FlatTransform,
    tb: FlatTransform,
    cp: FlatVec2,
    n: FlatVec2,
) -> int {
    rvel_x(a, b, ta, tb, cp) - tdiv(contact_vn(a, b, ta, tb, cp, n) * n.x, UNIT as int)
}

/// The y component of the tangential relative velocity at a contact.
pub open spec fn tangent_y(
    a: FlatBody,
    b: FlatBody,
    ta: FlatTransform,
    tb: FlatTransform,
    cp: FlatVec2,
    n: FlatVec2,
) -> int {
    rvel_y(a, b, ta, tb, cp) - tdiv(contact_vn(a, b, ta, tb, cp, n) * n.y, UNIT as int)
}

/// Whether a contact's tangential velocity is too small for friction.
pub open spec fn fric_skip(
    a: FlatBody,
    b: FlatBody,
    ta: FlatTransform,
    tb: FlatTransform,
    cp: FlatVec2,
    n: FlatVec2,
) -> bool {
    crate::math::near_eq(tangent_x(a, b, ta, tb, cp, n), 0) && crate::math::near_eq(
        tangent_y(a, b, ta, tb, cp, n),
        0,
    )
}

/// The x component of the fixed-point unit tangent at a contact.
pub open spec fn tnorm_x(
    a: FlatBody,
    b: FlatBody,
    ta: FlatTransform,
    tb: FlatTransform,
    cp: FlatVec2,
    n: FlatVec2,
) -> int {
    let tx = tangent_x(a, b, ta, tb, cp, n);
    let ty = tangent_y(a, b, ta, tb, cp, n);
    tdiv(tx * (UNIT as int), crate::math::sqrt_floor(tx * tx + ty * ty))
}

/// The y component of the fixed-point unit tangent at a contact.
pub open spec fn tnorm_y(
    a: FlatBody,
    b: FlatBody,
    ta: FlatTransform,
    tb: FlatTransform,
    cp: FlatVec2,
    n: FlatVec2,
) -> int {
    let tx = tangent_x(a, b, ta, tb, cp, n);
    let ty = tangent_y(a, b, ta, tb, cp, n);
    tdiv(ty * (UNIT as int), crate::math::sqrt_floor(tx * tx + ty * ty))
}

/// The desired (unclamped) friction impulse magnitude of one contact.
pub open spec fn fric_jt(
    a: FlatBody,
    b: FlatBody,
    ta: FlatTransform,
    tb: FlatTransform,
    cp: FlatVec2,
    n: FlatVec2,
    cnt: int,
) -> int {
    let tnx = tnorm_x(a, b, ta, tb, cp, n);
    let tny = tnorm_y(a, b, ta, tb, cp, n);
    let vt = tdiv(
        rvel_x(a, b, ta, tb, cp) * tnx + rvel_y(a, b, ta, tb, cp) * tny,
        UNIT as int,
    );
    let jt1 = tdiv(
        -(vt * (INV_MASS_SCALE as int)),
        contact_denom(a, b, ta, tb, cp, tnx, tny),
    );
    tdiv(jt1, cnt)
}

/// The x component of the Coulomb-clamped friction impulse of one contact:
/// the desired impulse along the tangent while it stays within the static
/// cone of the paired normal impulse, else the dynamic-friction impulse
/// opposing it.
pub open spec fn fric_impulse_x(
    a: FlatBody,
    b: FlatBody,
    ta: FlatTransform,
    tb: FlatTransform,
    cp: FlatVec2,
    n: FlatVec2,
    cnt: int,
    jstored: int,
) -> int {
    if fric_skip(a, b, ta, tb, cp, n) {
        0
    } else {
        let jt = fric_jt(a, b, ta, tb, cp, n, cnt);
        let sf = tdiv(a.static_friction + b.static_friction, 2);
        let df = tdiv(a.dynamic_friction + b.dynamic_friction, 2);
        let js = tdiv(jstored * sf, UNIT as int);
        let tnx = tnorm_x(a, b, ta, tb, cp, n);
        if -js <= jt <= js {
            tdiv(jt * tnx, UNIT as int)
        } else {
            tdiv(tdiv(-jstored * tnx, UNIT as int) * df, UNIT as int)
        }
    }
}

/// The y component of the Coulomb-clamped friction impulse of one contact.
pub open spec fn fric_impulse_y(
    a: FlatBody,
    b: FlatBody,
    ta: FlatTransform,
    tb: FlatTransform,
    cp: FlatVec2,
    n: FlatVec2,
    cnt: int,
    jstored: int,
) -> int {
    if fric_skip(a, b, ta, tb, cp, n) {
        0
    } else {
        let jt = fric_jt(a, b, ta, tb, cp, n, cnt);
        let sf = tdiv(a.static_friction + b.static_friction, 2);
        let df = tdiv(a.dynamic_friction + b.dynamic_friction, 2);
        let js = tdiv(jstored * sf, UNIT as int);
        let tny = tnorm_y(a, b, ta, tb, cp, n);
        if -js <= jt <= js {
            tdiv(jt * tny, UNIT as int)
        } else {
            tdiv(tdiv(-jstored * tny, UNIT as int) * df, UNIT as int)
        }
    }
}

/// The pair's state after the first `i` friction impulses, each computed
/// from the post-restitution state `a1`, `b1` and the stored normal
/// impulses, applied in order.
pub open spec fn fric_pass(
    a1: FlatBody,
    b1: FlatBody,
    ta: FlatTransform,
    tb: FlatTransform,
    cps: Seq<FlatVec2>,
    n: FlatVec2,
    jlist: Seq<int>,
    i: int,
) -> (FlatBody, FlatBody)
    decreases i,
{
    if i <= 0 {
        (a1, b1)
    } else {
        let prev = fric_pass(a1, b1, ta, tb, cps, n, jlist, i - 1);
        let cp = cps[i - 1];
        let ix = fric_impulse_x(a1, b1, ta, tb, cp, n, cps.len() as int, jlist[i - 1]);
        let iy = fric_impulse_y(a1, b1, ta, tb, cp, n, cps.len() as int, jlist[i - 1]);
        apply_impulse(prev.0, prev.1, ta, tb, cp, ix, iy)
    }
}

/// The stored normal impulse magnitudes of a manifold, one per contact,
/// computed from the pre-pass state.
pub open spec fn stored_j_seq(
    a0: FlatBody,
    b0: FlatBody,
    ta: FlatTransform,
    tb: FlatTransform,
    cps: Seq<FlatVec2>,
    n: FlatVec2,
) -> Seq<int> {
    Seq::new(cps.len(), |i: int| stored_j(a0, b0, ta, tb, cps[i], n, cps.len() as int))
}

/// Full velocity resolution of one colliding pair: the restitution pass
/// with rotation, then a Coulomb friction pass over the tangential
/// velocities left by it, clamped per contact against the stored normal
/// impulse.
#[verifier::rlimit(100)]
pub fn resolve_collision_with_rotation_and_friction(
    body_a: &mut FlatBody,
    transform_a: &FlatTransform,
    body_b: &mut FlatBody,
    transform_b: &FlatTransform,
    contact_points: &ContactPoints,
    normal: &FlatVec2,
    depth: i64,
)
    requires
        body_wf(*old(body_a)),
        body_wf(*old(body_b)),
        transform_in_range(*transform_a),
        transform_in_range(*transform_b),
        normal_in_range(*normal),
        contacts_in_range(contact_points@),
        contact_points@.len() <= 2,
        !(old(body_a).body_type is Static && old(body_b).body_type is Static),
    ensures
        body_wf(*final(body_a)),
        body_wf(*final(body_b)),
        ({
            let st1 = rot_pass(
                *old(body_a),
                *old(body_b),
                *transform_a,
                *transform_b,
                contact_points@,
                *normal,
                contact_points@.len() as int,
            );
            let jlist = stored_j_seq(
                *old(body_a),
                *old(body_b),
                *transform_a,
                *transform_b,
                contact_points@,
                *normal,
            );
            (*final(body_a), *final(body_b)) == fric_pass(
                st1.0,
                st1.1,
                *transform_a,
                *transform_b,
                contact_points@,
                *normal,
                jlist,
                contact_points@.len() as int,
            )
        }),
{
    let ghost a0 = *body_a;
    let ghost b0 = *body_b;
    let a_before: FlatBody = *body_a;
    let b_before: FlatBody = *body_b;
    let cnt: usize = contact_points.len();

    resolve_collision_with_rotation(
        body_a,
        transform_a,
        body_b,
        transform_b,
        contact_points,
        normal,
        depth,
    );

    let mut j_list: Vec<i128> = Vec::new();
    let mut i: usize = 0;
    while i < cnt
        invariant
            0 <= i <= cnt,
            cnt == contact_points@.len(),
            cnt <= 2,
            body_wf(a0),
            body_wf(b0),
            a0 == a_before,
            b0 == b_before,
            transform_in_range(*transform_a),
            transform_in_range(*transform_b),
            normal_in_range(*normal),
            contacts_in_range(contact_points@),
            !(a0.body_type is Static && b0.body_type is Static),
            j_list@.len() == i,
            forall|j: int|
                0 <= j < i ==> #[trigger] j_list@[j] == stored_j(
                    a0,
                    b0,
                    *transform_a,
                    *transform_b,
                    contact_points@[j],
                    *normal,
                    cnt as int,
                ),
            forall|j: int|
                0 <= j < i ==> -70_000_000_000_000_000_000_000 <= #[trigger] j_list@[j]
                    <= 70_000_000_000_000_000_000_000,
        decreases cnt - i,
    {
        let cp: FlatVec2 = contact_points[i];
        let (_ix, _iy, j): (i128, i128, i128) = contact_impulse(
            &a_before,
            transform_a,
            &b_before,
            transform_b,
            cp,
            normal,
            cnt,
        );
        j_list.push(j);
        i = i + 1;
    }

    let ghost a1 = *body_a;
    let ghost b1 = *body_b;
    proof {
        lemma_rot_pass_frame(
            a0,
            b0,
            *transform_a,
            *transform_b,
            contact_points@,
            *normal,
            cnt as int,
        );
    }
    let a_mid: FlatBody = *body_a;
    let b_mid: FlatBody = *body_b;
    let mut fric_x: Vec<i128> = Vec::new();
    let mut fric_y: Vec<i128> = Vec::new();
    let mut i: usize = 0;
    while i < cnt
        invariant
            0 <= i <= cnt,
            cnt == contact_points@.len(),
            cnt <= 2,
            body_wf(a1),
            body_wf(b1),
            a1 == a_mid,
            b1 == b_mid,
            a1 == *body_a,
            b1 == *body_b,
            !(a1.body_type is Static && b1.body_type is Static),
            transform_in_range(*transform_a),
            transform_in_range(*transform_b),
            normal_in_range(*normal),
            contacts_in_range(contact_points@),
            j_list@.len() == cnt,
            forall|j: int|
                0 <= j < cnt ==> -70_000_000_000_000_000_000_000 <= #[trigger] j_list@[j]
                    <= 70_000_000_000_000_000_000_000,
            fric_x@.len() == i,
            fric_y@.len() == i,
            forall|j: int|
                0 <= j < i ==> #[trigger] fric_x@[j] == fric_impulse_x(
                    a1,
                    b1,
                    *transform_a,
                    *transform_b,
                    contact_points@[j],
                    *normal,
                    cnt as int,
                    j_list@[j] as int,
                ),
            forall|j: int|
                0 <= j < i ==> #[trigger] fric_y@[j] == fric_impulse_y(
                    a1,
                    b1,
                    *transform_a,
                    *transform_b,
                    contact_points@[j],
                    *normal,
                    cnt as int,
                    j_list@[j] as int,
                ),
            forall|j: int|
                0 <= j < i ==> -200_000_000_000_000_000_000_000 <= #[trigger] fric_x@[j]
                    <= 200_000_000_000_000_000_000_000 && -200_000_000_000_000_000_000_000
                    <= fric_y@[j] <= 200_000_000_000_000_000_000_000,
        decreases cnt - i,
    {
        let cp: FlatVec2 = contact_points[i];
        let jst: i128 = j_list[i];
        let (fx, fy): (i128, i128) = friction_impulse(
            &a_mid,
            transform_a,
            &b_mid,
            transform_b,
            cp,
            normal,
            cnt,
            jst,
        );
        fric_x.push(fx);
        fric_y.push(fy);
        i = i + 1;
    }

    let ghost jlist_spec = stored_j_seq(
        a0,
        b0,
        *transform_a,
        *transform_b,
        contact_points@,
        *normal,
    );
    proof {
        assert(j_list@.len() == jlist_spec.len());
        assert forall|j: int| 0 <= j < cnt implies j_list@[j] as int == jlist_spec[j] by {}
    }
    let mut i: usize = 0;
    while i < cnt
        invariant
            0 <= i <= cnt,
            cnt == contact_points@.len(),
            cnt <= 2,
            body_wf(a1),
            body_wf(b1),
            body_wf(*body_a),
            body_wf(*body_b),
            transform_in_range(*transform_a),
            transform_in_range(*transform_b),
            normal_in_range(*normal),
            contacts_in_range(contact_points@),
            j_list@.len() == cnt,
            fric_x@.len() == cnt,
            fric_y@.len() == cnt,
            forall|j: int|
                0 <= j < cnt ==> #[trigger] fric_x@[j] == fric_impulse_x(
                    a1,
                    b1,
                    *transform_a,
                    *transform_b,
                    contact_points@[j],
                    *normal,
                    cnt as int,
                    j_list@[j] as int,
                ),
            forall|j: int|
                0 <= j < cnt ==> #[trigger] fric_y@[j] == fric_impulse_y(
                    a1,
                    b1,
                    *transform_a,
                    *transform_b,
                    contact_points@[j],
                    *normal,
                    cnt as int,
                    j_list@[j] as int,
                ),
            forall|j: int|
                0 <= j < cnt ==> -200_000_000_000_000_000_000_000 <= #[trigger] fric_x@[j]
                    <= 200_000_000_000_000_000_000_000 && -200_000_000_000_000_000_000_000
                    <= fric_y@[j] <= 200_000_000_000_000_000_000_000,
            forall|j: int|
                0 <= j < cnt ==> #[trigger] j_list@[j] as int == stored_j(
                    a0,
                    b0,
                    *transform_a,
                    *transform_b,
                    contact_points@[j],
                    *normal,
                    cnt as int,
                ),
            (*body_a, *body_b) == fric_pass(
                a1,
                b1,
                *transform_a,
                *transform_b,
                contact_points@,
                *normal,
                stored_j_seq(a0, b0, *transform_a, *transform_b, contact_points@, *normal),
                i as int,
            ),
        decreases cnt - i,
    {
        let cp: FlatVec2 = contact_points[i];
        let fx: i128 = fric_x[i];
        let fy: i128 = fric_y[i];
        apply_one_impulse(body_a, transform_a, body_b, transform_b, cp, fx, fy);
        i = i + 1;
    }
}

/// Compute one contact's Coulomb-clamped friction impulse from the bodies'
/// current (post-restitution) state and its stored normal impulse.
#[verifier::rlimit(100)]
fn friction_impulse(
    body_a: &FlatBody,
    transform_a: &FlatTransform,
    body_b: &FlatBody,
    transform_b: &FlatTransform,
    cp: FlatVec2,
    normal: &FlatVec2,
    cnt: usize,
    jstored: i128,
) -> (r: (i128, i128))
    requires
        body_wf(*body_a),
        body_wf(*body_b),
        transform_in_range(*transform_a),
        transform_in_range(*transform_b),
        normal_in_range(*normal),
        -WORLD_LIMIT <= cp.x <= WORLD_LIMIT,
        -WORLD_LIMIT <= cp.y <= WORLD_LIMIT,
        1 <= cnt,
        -70_000_000_000_000_000_000_000 <= jstored <= 70_000_000_000_000_000_000_000,
        !(body_a.body_type is Static && body_b.body_type is Static),
    ensures
        r.0 == fric_impulse_x(
            *body_a,
            *body_b,
            *transform_a,
            *transform_b,
            cp,
            *normal,
            cnt as int,
            jstored as int,
        ),
        r.1 == fric_impulse_y(
            *body_a,
            *body_b,
            *transform_a,
            *transform_b,
            cp,
            *normal,
            cnt as int,
            jstored as int,
        ),
        -200_000_000_000_000_000_000_000 <= r.0 <= 200_000_000_000_000_000_000_000,
        -200_000_000_000_000_000_000_000 <= r.1 <= 200_000_000_000_000_000_000_000,
{
    proof {
        crate::flat_body::lemma_body_reciprocal_bounds(*body_a);
        crate::flat_body::lemma_body_reciprocal_bounds(*body_b);
    }
    let rax: i64 = cp.x - transform_a.translation.x;
    let ray: i64 = cp.y - transform_a.translation.y;
    let rbx: i64 = cp.x - transform_b.translation.x;
    let rby: i64 = cp.y - transform_b.translation.y;
    proof {
        crate::math::lemma_mul_bound(
            -(ray as int),
            body_a.angular_velocity as int,
            4_100_000_000,
            MAX_COORD as int,
        );
        crate::math::lemma_mul_bound(
            -(rby as int),
            body_b.angular_velocity as int,
            4_100_000_000,
            MAX_COORD as int,
        );
        crate::math::lemma_mul_bound(
            rax as int,
            body_a.angular_velocity as int,
            4_100_000_000,
            MAX_COORD as int,
        );
        crate::math::lemma_mul_bound(
            rbx as int,
            body_b.angular_velocity as int,
            4_100_000_000,
            MAX_COORD as int,
        );
        crate::math::lemma_tdiv_bound(
            -(ray as int) * body_a.angular_velocity as int,
            UNIT as int,
            8_200_000_000_000_000_000,
        );
        crate::math::lemma_tdiv_bound(
            -(rby as int) * body_b.angular_velocity as int,
            UNIT as int,
            8_200_000_000_000_000_000,
        );
        crate::math::lemma_tdiv_bound(
            rax as int * body_a.angular_velocity as int,
            UNIT as int,
            8_200_000_000_000_000_000,
        );
        crate::math::lemma_tdiv_bound(
            rbx as int * body_b.angular_velocity as int,
            UNIT as int,
            8_200_000_000_000_000_000,
        );
    }
    let alax: i128 = wide_mul(-ray, body_a.angular_velocity) / UNIT as i128;
    let alay: i128 = wide_mul(rax, body_a.angular_velocity) / UNIT as i128;
    let albx: i128 = wide_mul(-rby, body_b.angular_velocity) / UNIT as i128;
    let alby: i128 = wide_mul(rbx, body_b.angular_velocity) / UNIT as i128;
    let rel_x: i128 = (body_b.linear_velocity.x as i128 + albx) - (body_a.linear_velocity.x as i128
        + alax);
    let rel_y: i128 = (body_b.linear_velocity.y as i128 + alby) - (body_a.linear_velocity.y as i128
        + alay);
    proof {
        crate::math::lemma_mul_bound(
            rel_x as int,
            normal.x as int,
            17_000_000_000_000_000,
            UNIT as int,
        );
        crate::math::lemma_mul_bound(
            rel_y as int,
            normal.y as int,
            17_000_000_000_000_000,
            UNIT as int,
        );
        crate::math::lemma_tdiv_bound(
            rel_x as int * normal.x as int + rel_y as int * normal.y as int,
            UNIT as int,
            34_000_000_000_000_000_000,
        );
    }
    let vnc: i128 = (rel_x * normal.x as i128 + rel_y * normal.y as i128) / UNIT as i128;
    proof {
        crate::math::lemma_mul_bound(vnc as int, normal.x as int, 34_000_000_000_000_000, UNIT as int);
        crate::math::lemma_mul_bound(vnc as int, normal.y as int, 34_000_000_000_000_000, UNIT as int);
        crate::math::lemma_tdiv_bound(
            vnc as int * normal.x as int,
            UNIT as int,
            34_000_000_000_000_000_000,
        );
        crate::math::lemma_tdiv_bound(
            vnc as int * normal.y as int,
            UNIT as int,
            34_000_000_000_000_000_000,
        );
    }
    let tx: i128 = rel_x - vnc * normal.x as i128 / UNIT as i128;
    let ty: i128 = rel_y - vnc * normal.y as i128 / UNIT as i128;
    let near_zero: bool = -(crate::math::NEAR_EPS as i128) < tx && tx < crate::math::NEAR_EPS as i128
        && -(crate::math::NEAR_EPS as i128) < ty && ty < crate::math::NEAR_EPS as i128;
    if near_zero {
        return (0, 0);
    }
    proof {
        crate::math::lemma_mul_bound(tx as int, tx as int, 51_000_000_000_000_000, 51_000_000_000_000_000);
        crate::math::lemma_mul_bound(ty as int, ty as int, 51_000_000_000_000_000, 51_000_000_000_000_000);
        assert(tx as int * tx as int >= 0) by (nonlinear_arith);
        assert(ty as int * ty as int >= 0) by (nonlinear_arith);
        assert(tx as int <= -5 || tx as int >= 5 ==> tx as int * tx as int >= 25)
            by (nonlinear_arith);
        assert(ty as int <= -5 || ty as int >= 5 ==> ty as int * ty as int >= 25)
            by (nonlinear_arith);
    }
    let tsq: i128 = tx * tx + ty * ty;
    proof {
        crate::collisions::lemma_axis_unit(tx as int, ty as int, tsq as int);
    }
    let tl: u64 = crate::math::isqrt(tsq as u128);
    let tnx: i64 = (tx * UNIT as i128 / tl as i128) as i64;
    let tny: i64 = (ty * UNIT as i128 / tl as i128) as i64;
    proof {
        crate::math::lemma_mul_bound(tx as int, UNIT as int, 51_000_000_000_000_000, UNIT as int);
        crate::math::lemma_mul_bound(ty as int, UNIT as int, 51_000_000_000_000_000, UNIT as int);
    }
    proof {
        crate::math::lemma_mul_bound(-(ray as int), tnx as int, 4_100_000_000, UNIT as int);
        crate::math::lemma_mul_bound(rax as int, tny as int, 4_100_000_000, UNIT as int);
        crate::math::lemma_mul_bound(-(rby as int), tnx as int, 4_100_000_000, UNIT as int);
        crate::math::lemma_mul_bound(rbx as int, tny as int, 4_100_000_000, UNIT as int);
        crate::math::lemma_tdiv_bound(
            -(ray as int) * tnx as int + rax as int * tny as int,
            UNIT as int,
            8_200_000_000_000,
        );
        crate::math::lemma_tdiv_bound(
            -(rby as int) * tnx as int + rbx as int * tny as int,
            UNIT as int,
            8_200_000_000_000,
        );
    }
    let rapt: i128 = (wide_mul(-ray, tnx) + wide_mul(rax, tny)) / UNIT as i128;
    let rbpt: i128 = (wide_mul(-rby, tnx) + wide_mul(rbx, tny)) / UNIT as i128;
    let term_a: i128 = rotational_denom_term(rapt, body_a);
    let term_b: i128 = rotational_denom_term(rbpt, body_b);
    let denom: i128 = body_a.inv_mass as i128 + body_b.inv_mass as i128 + term_a + term_b;
    proof {
        crate::math::lemma_mul_bound(rel_x as int, tnx as int, 17_000_000_000_000_000, UNIT as int);
        crate::math::lemma_mul_bound(rel_y as int, tny as int, 17_000_000_000_000_000, UNIT as int);
        crate::math::lemma_tdiv_bound(
            rel_x as int * tnx as int + rel_y as int * tny as int,
            UNIT as int,
            34_000_000_000_000_000_000,
        );
    }
    let vt: i128 = (rel_x * tnx as i128 + rel_y * tny as i128) / UNIT as i128;
    proof {
        crate::math::lemma_mul_bound(
            vt as int,
            INV_MASS_SCALE as int,
            34_000_000_000_000_000,
            INV_MASS_SCALE as int,
        );
        crate::math::lemma_tdiv_bound(
            -(vt as int * (INV_MASS_SCALE as int)),
            denom as int,
            34_000_000_000_000_000_000_000,
        );
        vstd::arithmetic::div_mod::lemma_div_is_ordered_by_denominator(
            34_000_000_000_000_000_000_000,
            1,
            denom as int,
        );
    }
    let jtnum: i128 = -(vt * INV_MASS_SCALE as i128);
    let jt1: i128 = jtnum / denom;
    let jt: i128 = jt1 / cnt as i128;
    proof {
        crate::math::lemma_tdiv_bound(jt1 as int, cnt as int, 34_000_000_000_000_000_000_000);
    }
    let sf: i64 = (body_a.static_friction + body_b.static_friction) / 2;
    let df: i64 = (body_a.dynamic_friction + body_b.dynamic_friction) / 2;
    proof {
        crate::math::lemma_mul_bound(jstored as int, sf as int, 70_000_000_000_000_000_000_000, 2000);
        crate::math::lemma_tdiv_bound(
            jstored as int * sf as int,
            UNIT as int,
            140_000_000_000_000_000_000_000_000,
        );
    }
    let js: i128 = jstored * sf as i128 / UNIT as i128;
    if -js <= jt && jt <= js {
        proof {
            crate::math::lemma_mul_bound(jt as int, tnx as int, 34_000_000_000_000_000_000_000, UNIT as int);
            crate::math::lemma_mul_bound(jt as int, tny as int, 34_000_000_000_000_000_000_000, UNIT as int);
            crate::math::lemma_tdiv_bound(
                jt as int * tnx as int,
                UNIT as int,
                34_000_000_000_000_000_000_000_000,
            );
            crate::math::lemma_tdiv_bound(
                jt as int * tny as int,
                UNIT as int,
                34_000_000_000_000_000_000_000_000,
            );
        }
        let fx: i128 = jt * tnx as i128 / UNIT as i128;
        let fy: i128 = jt * tny as i128 / UNIT as i128;
        (fx, fy)
    } else {
        proof {
            crate::math::lemma_mul_bound(
                -(jstored as int),
                tnx as int,
                70_000_000_000_000_000_000_000,
                UNIT as int,
            );
            crate::math::lemma_mul_bound(
                -(jstored as int),
                tny as int,
                70_000_000_000_000_000_000_000,
                UNIT as int,
            );
            crate::math::lemma_tdiv_bound(
                -(jstored as int) * tnx as int,
                UNIT as int,
                70_000_000_000_000_000_000_000_000,
            );
            crate::math::lemma_tdiv_bound(
                -(jstored as int) * tny as int,
                UNIT as int,
                70_000_000_000_000_000_000_000_000,
            );
            crate::math::lemma_mul_bound(
                tdiv(-(jstored as int) * tnx as int, UNIT as int),
                df as int,
                70_000_000_000_000_000_000_000,
                2000,
            );
            crate::math::lemma_mul_bound(
                tdiv(-(jstored as int) * tny as int, UNIT as int),
                df as int,
                70_000_000_000_000_000_000_000,
                2000,
            );
            crate::math::lemma_tdiv_bound(
                tdiv(-(jstored as int) * tnx as int, UNIT as int) * df as int,
                UNIT as int,
                140_000_000_000_000_000_000_000_000,
            );
            crate::math::lemma_tdiv_bound(
                tdiv(-(jstored as int) * tny as int, UNIT as int) * df as int,
                UNIT as int,
                140_000_000_000_000_000_000_000_000,
            );
        }
        let fx0: i128 = -jstored * tnx as i128 / UNIT as i128;
        let fy0: i128 = -jstored * tny as i128 / UNIT as i128;
        let fx: i128 = fx0 * df as i128 / UNIT as i128;
        let fy: i128 = fy0 * df as i128 / UNIT as i128;
        (fx, fy)
    }
}

/// Compute one contact's restitution impulse and its scalar magnitude from
/// the bodies' current state, zero for a separating contact.
#[verifier::rlimit(100)]
fn contact_impulse(
    body_a: &FlatBody,
    transform_a: &FlatTransform,
    body_b: &FlatBody,
    transform_b: &FlatTransform,
    cp: FlatVec2,
    normal: &FlatVec2,
    cnt: usize,
) -> (r: (i128, i128, i128))
    requires
        body_wf(*body_a),
        body_wf(*body_b),
        transform_in_range(*transform_a),
        transform_in_range(*transform_b),
        normal_in_range(*normal),
        -WORLD_LIMIT <= cp.x <= WORLD_LIMIT,
        -WORLD_LIMIT <= cp.y <= WORLD_LIMIT,
        1 <= cnt,
        !(body_a.body_type is Static && body_b.body_type is Static),
    ensures
        r.0 == rot_impulse_x(*body_a, *body_b, *transform_a, *transform_b, cp, *normal, cnt as int),
        r.1 == rot_impulse_y(*body_a, *body_b, *transform_a, *transform_b, cp, *normal, cnt as int),
        r.2 == stored_j(*body_a, *body_b, *transform_a, *transform_b, cp, *normal, cnt as int),
        -70_000_000_000_000_000_000_000 <= r.0 <= 70_000_000_000_000_000_000_000,
        -70_000_000_000_000_000_000_000 <= r.1 <= 70_000_000_000_000_000_000_000,
        -70_000_000_000_000_000_000_000 <= r.2 <= 70_000_000_000_000_000_000_000,
{
    proof {
        crate::flat_body::lemma_body_reciprocal_bounds(*body_a);
        crate::flat_body::lemma_body_reciprocal_bounds(*body_b);
    }
    let rax: i64 = cp.x - transform_a.translation.x;
    let ray: i64 = cp.y - transform_a.translation.y;
    let rbx: i64 = cp.x - transform_b.translation.x;
    let rby: i64 = cp.y - transform_b.translation.y;
    proof {
        crate::math::lemma_mul_bound(
            -(ray as int),
            body_a.angular_velocity as int,
            4_100_000_000,
            MAX_COORD as int,
        );
        crate::math::lemma_mul_bound(
            -(rby as int),
            body_b.angular_velocity as int,
            4_100_000_000,
            MAX_COORD as int,
        );
        crate::math::lemma_mul_bound(
            rax as int,
            body_a.angular_velocity as int,
            4_100_000_000,
            MAX_COORD as int,
        );
        crate::math::lemma_mul_bound(
            rbx as int,
            body_b.angular_velocity as int,
            4_100_000_000,
            MAX_COORD as int,
        );
        crate::math::lemma_tdiv_bound(
            -(ray as int) * body_a.angular_velocity as int,
            UNIT as int,
            8_200_000_000_000_000_000,
        );
        crate::math::lemma_tdiv_bound(
            -(rby as int) * body_b.angular_velocity as int,
            UNIT as int,
            8_200_000_000_000_000_000,
        );
        crate::math::lemma_tdiv_bound(
            rax as int * body_a.angular_velocity as int,
            UNIT as int,
            8_200_000_000_000_000_000,
        );
        crate::math::lemma_tdiv_bound(
            rbx as int * body_b.angular_velocity as int,
            UNIT as int,
            8_200_000_000_000_000_000,
        );
    }
    let alax: i128 = wide_mul(-ray, body_a.angular_velocity) / UNIT as i128;
    let alay: i128 = wide_mul(rax, body_a.angular_velocity) / UNIT as i128;
    let albx: i128 = wide_mul(-rby, body_b.angular_velocity) / UNIT as i128;
    let alby: i128 = wide_mul(rbx, body_b.angular_velocity) / UNIT as i128;
    let rel_x: i128 = (body_b.linear_velocity.x as i128 + albx) - (body_a.linear_velocity.x as i128
        + alax);
    let rel_y: i128 = (body_b.linear_velocity.y as i128 + alby) - (body_a.linear_velocity.y as i128
        + alay);
    proof {
        crate::math::lemma_mul_bound(
            rel_x as int,
            normal.x as int,
            17_000_000_000_000_000,
            UNIT as int,
        );
        crate::math::lemma_mul_bound(
            rel_y as int,
            normal.y as int,
            17_000_000_000_000_000,
            UNIT as int,
        );
        crate::math::lemma_tdiv_bound(
            rel_x as int * normal.x as int + rel_y as int * normal.y as int,
            UNIT as int,
            34_000_000_000_000_000_000,
        );
    }
    let vn: i128 = (rel_x * normal.x as i128 + rel_y * normal.y as i128) / UNIT as i128;
    if vn > 0 {
        return (0, 0, 0);
    }
    proof {
        crate::math::lemma_mul_bound(-(ray as int), normal.x as int, 4_100_000_000, UNIT as int);
        crate::math::lemma_mul_bound(rax as int, normal.y as int, 4_100_000_000, UNIT as int);
        crate::math::lemma_mul_bound(-(rby as int), normal.x as int, 4_100_000_000, UNIT as int);
        crate::math::lemma_mul_bound(rbx as int, normal.y as int, 4_100_000_000, UNIT as int);
        crate::math::lemma_tdiv_bound(
            -(ray as int) * normal.x as int + rax as int * normal.y as int,
            UNIT as int,
            8_200_000_000_000,
        );
        crate::math::lemma_tdiv_bound(
            -(rby as int) * normal.x as int + rbx as int * normal.y as int,
            UNIT as int,
            8_200_000_000_000,
        );
    }
    let rapn: i128 = (wide_mul(-ray, normal.x) + wide_mul(rax, normal.y)) / UNIT as i128;
    let rbpn: i128 = (wide_mul(-rby, normal.x) + wide_mul(rbx, normal.y)) / UNIT as i128;
    let term_a: i128 = rotational_denom_term(rapn, body_a);
    let term_b: i128 = rotational_denom_term(rbpn, body_b);
    let denom: i128 = body_a.inv_mass as i128 + body_b.inv_mass as i128 + term_a + term_b;
    let e: i64 = crate::collisions::min_i64(body_a.restitution, body_b.restitution);
    proof {
        crate::math::lemma_mul_bound(
            (UNIT + e) as int,
            vn as int,
            2000,
            34_000_000_000_000_000,
        );
        crate::math::lemma_mul_bound(
            (UNIT + e) as int * vn as int,
            INV_MASS_SCALE as int,
            68_000_000_000_000_000_000,
            INV_MASS_SCALE as int,
        );
        crate::math::lemma_mul_bound(
            denom as int,
            UNIT as int,
            170_000_000_000_000_000_000_000_000,
            UNIT as int,
        );
        crate::math::lemma_tdiv_bound(
            -((UNIT + e) as int * vn as int * (INV_MASS_SCALE as int)),
            denom as int * UNIT as int,
            68_000_000_000_000_000_000_000_000,
        );
        vstd::arithmetic::div_mod::lemma_div_is_ordered_by_denominator(
            68_000_000_000_000_000_000_000_000,
            1000,
            denom as int * UNIT as int,
        );
        assert(denom as int * UNIT as int >= 1000) by (nonlinear_arith)
            requires
                denom as int >= 1,
                UNIT == 1000,
        ;
    }
    let jnum: i128 = -((UNIT + e) as i128 * vn * INV_MASS_SCALE as i128);
    let j0: i128 = jnum / (denom * UNIT as i128);
    let j: i128 = j0 / cnt as i128;
    proof {
        crate::math::lemma_tdiv_bound(j0 as int, cnt as int, 68_000_000_000_000_000_000_000);
        crate::math::lemma_mul_bound(
            j as int,
            normal.x as int,
            68_000_000_000_000_000_000_000,
            UNIT as int,
        );
        crate::math::lemma_mul_bound(
            j as int,
            normal.y as int,
            68_000_000_000_000_000_000_000,
            UNIT as int,
        );
        crate::math::lemma_tdiv_bound(
            j as int * normal.x as int,
            UNIT as int,
            68_000_000_000_000_000_000_000_000,
        );
        crate::math::lemma_tdiv_bound(
            j as int * normal.y as int,
            UNIT as int,
            68_000_000_000_000_000_000_000_000,
        );
    }
    let ix: i128 = j * normal.x as i128 / UNIT as i128;
    let iy: i128 = j * normal.y as i128 / UNIT as i128;
    (ix, iy, j)
}

/// One body's rotational contribution to a contact's effective mass.
fn rotational_denom_term(rpn: i128, body: &FlatBody) -> (r: i128)
    requires
        body_wf(*body),
        -8_200_000_000 <= rpn <= 8_200_000_000,
    ensures
        r == rot_term(rpn as int, *body),
        0 <= r <= 80_000_000_000_000_000_000_000_000,
{
    if body.inertia > 0 {
        proof {
            crate::math::lemma_mul_bound(
                rpn as int,
                rpn as int,
                8_200_000_000,
                8_200_000_000,
            );
            assert(rpn as int * rpn as int >= 0) by (nonlinear_arith);
            crate::math::lemma_mul_bound(
                rpn as int * rpn as int,
                INV_MASS_SCALE as int,
                68_000_000_000_000_000_000,
                INV_MASS_SCALE as int,
            );
            crate::math::lemma_tdiv_bound(
                rpn as int * rpn as int * (INV_MASS_SCALE as int),
                body.inertia as int,
                68_000_000_000_000_000_000_000_000,
            );
            vstd::arithmetic::div_mod::lemma_div_pos_is_pos(
                rpn as int * rpn as int * (INV_MASS_SCALE as int),
                body.inertia as int,
            );
            assert(rpn as int * rpn as int * (INV_MASS_SCALE as int) >= 0) by (nonlinear_arith)
                requires
                    rpn as int * rpn as int >= 0,
                    INV_MASS_SCALE == 1_000_000,
            ;
            vstd::arithmetic::div_mod::lemma_div_is_ordered_by_denominator(
                68_000_000_000_000_000_000_000_000,
                1,
                body.inertia as int,
            );
        }
        rpn * rpn * INV_MASS_SCALE as i128 / body.inertia as i128
    } else {
        0
    }
}

/// Apply one already-computed impulse to both bodies of a pair.
#[verifier::rlimit(100)]
fn apply_one_impulse(
    body_a: &mut FlatBody,
    transform_a: &FlatTransform,
    body_b: &mut FlatBody,
    transform_b: &FlatTransform,
    cp: FlatVec2,
    ix: i128,
    iy: i128,
)
    requires
        body_wf(*old(body_a)),
        body_wf(*old(body_b)),
        transform_in_range(*transform_a),
        transform_in_range(*transform_b),
        -WORLD_LIMIT <= cp.x <= WORLD_LIMIT,
        -WORLD_LIMIT <= cp.y <= WORLD_LIMIT,
        -200_000_000_000_000_000_000_000 <= ix <= 200_000_000_000_000_000_000_000,
        -200_000_000_000_000_000_000_000 <= iy <= 200_000_000_000_000_000_000_000,
    ensures
        body_wf(*final(body_a)),
        body_wf(*final(body_b)),
        (*final(body_a), *final(body_b)) == apply_impulse(
            *old(body_a),
            *old(body_b),
            *transform_a,
            *transform_b,
            cp,
            ix as int,
            iy as int,
        ),
{
    proof {
        crate::flat_body::lemma_body_reciprocal_bounds(*body_a);
        crate::flat_body::lemma_body_reciprocal_bounds(*body_b);
        crate::math::lemma_mul_bound(
            ix as int,
            old(body_a).inv_mass as int,
            200_000_000_000_000_000_000_000,
            INV_MASS_SCALE as int,
        );
        crate::math::lemma_mul_bound(
            iy as int,
            old(body_a).inv_mass as int,
            200_000_000_000_000_000_000_000,
            INV_MASS_SCALE as int,
        );
        crate::math::lemma_mul_bound(
            ix as int,
            old(body_b).inv_mass as int,
            200_000_000_000_000_000_000_000,
            INV_MASS_SCALE as int,
        );
        crate::math::lemma_mul_bound(
            iy as int,
            old(body_b).inv_mass as int,
            200_000_000_000_000_000_000_000,
            INV_MASS_SCALE as int,
        );
    }
    let rax: i64 = cp.x - transform_a.translation.x;
    let ray: i64 = cp.y - transform_a.translation.y;
    let rbx: i64 = cp.x - transform_b.translation.x;
    let rby: i64 = cp.y - transform_b.translation.y;
    let dvax: i128 = ix * body_a.inv_mass as i128 / INV_MASS_SCALE as i128;
    let dvay: i128 = iy * body_a.inv_mass as i128 / INV_MASS_SCALE as i128;
    let dvbx: i128 = ix * body_b.inv_mass as i128 / INV_MASS_SCALE as i128;
    let dvby: i128 = iy * body_b.inv_mass as i128 / INV_MASS_SCALE as i128;
    proof {
        crate::math::lemma_mul_bound(
            rax as int,
            iy as int,
            4_100_000_000,
            200_000_000_000_000_000_000_000,
        );
        crate::math::lemma_mul_bound(
            ray as int,
            ix as int,
            4_100_000_000,
            200_000_000_000_000_000_000_000,
        );
        crate::math::lemma_mul_bound(
            rbx as int,
            iy as int,
            4_100_000_000,
            200_000_000_000_000_000_000_000,
        );
        crate::math::lemma_mul_bound(
            rby as int,
            ix as int,
            4_100_000_000,
            200_000_000_000_000_000_000_000,
        );
    }
    let crossa: i128 = rax as i128 * iy - ray as i128 * ix;
    let crossb: i128 = rbx as i128 * iy - rby as i128 * ix;
    let dwa: i128 = if body_a.inertia > 0 {
        proof {
            crate::math::lemma_mul_bound(
                crossa as int,
                UNIT as int,
                330_000_000_000_000_000_000_000_000_000_000_000,
                UNIT as int,
            );
        }
        crossa * UNIT as i128 / body_a.inertia as i128
    } else {
        0
    };
    let dwb: i128 = if body_b.inertia > 0 {
        proof {
            crate::math::lemma_mul_bound(
                crossb as int,
                UNIT as int,
                330_000_000_000_000_000_000_000_000_000_000_000,
                UNIT as int,
            );
        }
        crossb * UNIT as i128 / body_b.inertia as i128
    } else {
        0
    };
    let vax: i64 = saturate(body_a.linear_velocity.x as i128 - dvax);
    let vay: i64 = saturate(body_a.linear_velocity.y as i128 - dvay);
    let wa: i64 = saturate(body_a.angular_velocity as i128 - dwa);
    body_a.linear_velocity = FlatVec2 { x: vax, y: vay };
    body_a.angular_velocity = wa;
    let vbx: i64 = saturate(body_b.linear_velocity.x as i128 + dvbx);
    let vby: i64 = saturate(body_b.linear_velocity.y as i128 + dvby);
    let wb: i64 = saturate(body_b.angular_velocity as i128 + dwb);
    body_b.linear_velocity = FlatVec2 { x: vbx, y: vby };
    body_b.angular_velocity = wb;
}

/// One simulated object as the solver sees it: its placement, its dynamic
/// state and its collision shape.
#[derive(Clone, Copy)]
pub struct SimBody {
    pub transform: FlatTransform,
    pub body: FlatBody,
    pub collider: Collider,
}

/// Well-formedness of one simulated object.
pub open spec fn sim_wf(s: SimBody) -> bool {
    transform_in_range(s.transform) && body_wf(s.body) && collider_wf(s.collider)
}

/// Whether the bounding boxes of two objects overlap under their current
/// transforms.
pub open spec fn aabbs_overlap(a: SimBody, b: SimBody) -> bool {
    !(crate::collisions::aabb_max_x(a.transform, a.collider.shape) <= crate::collisions::aabb_min_x(
        b.transform,
        b.collider.shape,
    ) || crate::collisions::aabb_max_x(b.transform, b.collider.shape)
        <= crate::collisions::aabb_min_x(a.transform, a.collider.shape)
        || crate::collisions::aabb_max_y(a.transform, a.collider.shape)
        <= crate::collisions::aabb_min_y(b.transform, b.collider.shape)
        || crate::collisions::aabb_max_y(b.transform, b.collider.shape)
        <= crate::collisions::aabb_min_y(a.transform, a.collider.shape))
}

/// Whether an unordered pair survives the broad phase: not both static, and
/// overlapping bounding boxes.
pub open spec fn candidate_pair(objects: Seq<SimBody>, i: int, j: int) -> bool {
    !(objects[i].body.body_type is Static && objects[j].body.body_type is Static)
        && aabbs_overlap(objects[i], objects[j])
}

/// The candidate pairs the scan emits from position `(i, j)` onward, in
/// scan order: `j` runs over the partners of `i`, then the scan moves to
/// the next first member.
pub open spec fn broad_pairs_from(objs: Seq<SimBody>, i: int, j: int) -> Seq<(usize, usize)>
    decreases objs.len() - i, vstd::math::max(objs.len() + 1 - j, 0),
{
    if i >= objs.len() {
        Seq::empty()
    } else if j >= objs.len() {
        broad_pairs_from(objs, i + 1, i + 2)
    } else if 0 <= i < j && candidate_pair(objs, i, j) {
        seq![(i as usize, j as usize)] + broad_pairs_from(objs, i, j + 1)
    } else {
        broad_pairs_from(objs, i, j + 1)
    }
}

/// The whole broad-phase output for a body set, as a value: every
/// surviving unordered pair once, in scan order.
pub open spec fn broad_pairs(objs: Seq<SimBody>) -> Seq<(usize, usize)> {
    broad_pairs_from(objs, 0, 1)
}

/// Broad-phase pruning: walk every unordered pair once, skip the inert
/// static-static pairs, and keep exactly those whose current bounding boxes
/// overlap. The output is exactly `broad_pairs` of the body set.
#[verifier::rlimit(100)]
pub fn broad_phase(objects: &Vec<SimBody>, collision_entitties: &mut Vec<(usize, usize)>)
    requires
        forall|k: int| 0 <= k < objects@.len() ==> sim_wf(#[trigger] objects@[k]),
    ensures
        forall|k: int|
            0 <= k < final(collision_entitties)@.len() ==> {
                let p = #[trigger] final(collision_entitties)@[k];
                0 <= p.0 < p.1 < objects@.len() && candidate_pair(
                    objects@,
                    p.0 as int,
                    p.1 as int,
                )
            },
        forall|i: int, j: int|
            0 <= i < j < objects@.len() && #[trigger] candidate_pair(objects@, i, j)
                ==> final(collision_entitties)@.contains((i as usize, j as usize)),
        final(collision_entitties)@ == broad_pairs(objects@),
{
    broadcast use vstd::seq_lib::lemma_seq_contains_after_push;

    collision_entitties.clear();
    let n: usize = objects.len();
    proof {
        assert(broad_pairs(objects@) =~= collision_entitties@ + broad_pairs_from(objects@, 0, 1));
    }
    let mut i: usize = 0;
    while i < n
        invariant
            0 <= i <= n,
            n == objects@.len(),
            forall|k: int| 0 <= k < objects@.len() ==> sim_wf(#[trigger] objects@[k]),
            forall|k: int|
                0 <= k < collision_entitties@.len() ==> {
                    let p = #[trigger] collision_entitties@[k];
                    0 <= p.0 < p.1 < objects@.len() && candidate_pair(
                        objects@,
                        p.0 as int,
                        p.1 as int,
                    )
                },
            forall|i2: int, j2: int|
                0 <= i2 < j2 < objects@.len() && i2 < i && #[trigger] candidate_pair(
                    objects@,
                    i2,
                    j2,
                ) ==> collision_entitties@.contains((i2 as usize, j2 as usize)),
            broad_pairs(objects@) == collision_entitties@ + broad_pairs_from(
                objects@,
                i as int,
                i as int + 1,
            ),
        decreases n - i,
    {
        let mut j: usize = i + 1;
        while j < n
            invariant
                0 <= i < n,
                i < j <= n,
                n == objects@.len(),
                forall|k: int| 0 <= k < objects@.len() ==> sim_wf(#[trigger] objects@[k]),
                forall|k: int|
                    0 <= k < collision_entitties@.len() ==> {
                        let p = #[trigger] collision_entitties@[k];
                        0 <= p.0 < p.1 < objects@.len() && candidate_pair(
                            objects@,
                            p.0 as int,
                            p.1 as int,
                        )
                    },
                forall|i2: int, j2: int|
                    0 <= i2 < j2 < objects@.len() && i2 < i && #[trigger] candidate_pair(
                        objects@,
                        i2,
                        j2,
                    ) ==> collision_entitties@.contains((i2 as usize, j2 as usize)),
                forall|j2: int|
                    i < j2 < j && #[trigger] candidate_pair(objects@, i as int, j2)
                        ==> collision_entitties@.contains((i, j2 as usize)),
                broad_pairs(objects@) == collision_entitties@ + broad_pairs_from(
                    objects@,
                    i as int,
                    j as int,
                ),
            decreases n - j,
        {
            let oa: SimBody = objects[i];
            let ob: SimBody = objects[j];
            let both_static: bool = match (oa.body.body_type, ob.body.body_type) {
                (FlatBodyType::Static, FlatBodyType::Static) => true,
                _ => false,
            };
            if !both_static {
                let mut ca: Collider = oa.collider;
                let mut cb: Collider = ob.collider;
                let aabb_a = ca.get_aabb(&oa.transform);
                let aabb_b = cb.get_aabb(&ob.transform);
                if intersect_aabbs(&aabb_a, &aabb_b) {
                    let ghost before = collision_entitties@;
                    collision_entitties.push((i, j));
                    proof {
                        assert(collision_entitties@ == before.push((i, j)));
                        assert forall|x: (usize, usize)| before.contains(
                            x,
                        ) implies collision_entitties@.contains(x) by {
                            let idx = choose|idx: int|
                                0 <= idx < before.len() && before[idx] == x;
                            assert(collision_entitties@[idx] == x);
                        }
                        assert(collision_entitties@[before.len() as int] == (i, j));
                        assert(collision_entitties@.contains((i, j)));
                        assert(candidate_pair(objects@, i as int, j as int));
                        assert(broad_pairs_from(objects@, i as int, j as int) == seq![(i, j)]
                            + broad_pairs_from(objects@, i as int, j as int + 1));
                        assert(collision_entitties@ + broad_pairs_from(
                            objects@,
                            i as int,
                            j as int + 1,
                        ) =~= before + broad_pairs_from(objects@, i as int, j as int));
                    }
                } else {
                    proof {
                        assert(!aabbs_overlap(objects@[i as int], objects@[j as int]));
                        assert(!candidate_pair(objects@, i as int, j as int));
                    }
                }
            } else {
                proof {
                    assert(!candidate_pair(objects@, i as int, j as int));
                }
            }
            j = j + 1;
        }
        i = i + 1;
    }
}

/// Every impulse leaves a static body exactly as it was.
pub proof fn lemma_rot_pass_static(
    a0: FlatBody,
    b0: FlatBody,
    ta: FlatTransform,
    tb: FlatTransform,
    cps: Seq<FlatVec2>,
    n: FlatVec2,
    i: int,
)
    requires
        body_wf(a0),
        body_wf(b0),
    ensures
        a0.body_type is Static ==> rot_pass(a0, b0, ta, tb, cps, n, i).0 == a0,
        b0.body_type is Static ==> rot_pass(a0, b0, ta, tb, cps, n, i).1 == b0,
    decreases i,
{
    if i > 0 {
        lemma_rot_pass_static(a0, b0, ta, tb, cps, n, i - 1);
        let ix = rot_impulse_x(a0, b0, ta, tb, cps[i - 1], n, cps.len() as int);
        let iy = rot_impulse_y(a0, b0, ta, tb, cps[i - 1], n, cps.len() as int);
        if a0.body_type is Static {
            assert(ix * a0.inv_mass == 0) by (nonlinear_arith)
                requires
                    a0.inv_mass == 0,
            ;
            assert(iy * a0.inv_mass == 0) by (nonlinear_arith)
                requires
                    a0.inv_mass == 0,
            ;
        }
        if b0.body_type is Static {
            assert(ix * b0.inv_mass == 0) by (nonlinear_arith)
                requires
                    b0.inv_mass == 0,
            ;
            assert(iy * b0.inv_mass == 0) by (nonlinear_arith)
                requires
                    b0.inv_mass == 0,
            ;
        }
    }
}

/// Friction impulses leave a static body exactly as it was, too.
pub proof fn lemma_fric_pass_static(
    a1: FlatBody,
    b1: FlatBody,
    ta: FlatTransform,
    tb: FlatTransform,
    cps: Seq<FlatVec2>,
    n: FlatVec2,
    jlist: Seq<int>,
    i: int,
)
    requires
        body_wf(a1),
        body_wf(b1),
    ensures
        a1.body_type is Static ==> fric_pass(a1, b1, ta, tb, cps, n, jlist, i).0 == a1,
        b1.body_type is Static ==> fric_pass(a1, b1, ta, tb, cps, n, jlist, i).1 == b1,
    decreases i,
{
    if i > 0 {
        lemma_fric_pass_static(a1, b1, ta, tb, cps, n, jlist, i - 1);
        let ix = fric_impulse_x(a1, b1, ta, tb, cps[i - 1], n, cps.len() as int, jlist[i - 1]);
        let iy = fric_impulse_y(a1, b1, ta, tb, cps[i - 1], n, cps.len() as int, jlist[i - 1]);
        if a1.body_type is Static {
            assert(ix * a1.inv_mass == 0) by (nonlinear_arith)
                requires
                    a1.inv_mass == 0,
            ;
            assert(iy * a1.inv_mass == 0) by (nonlinear_arith)
                requires
                    a1.inv_mass == 0,
            ;
        }
        if b1.body_type is Static {
            assert(ix * b1.inv_mass == 0) by (nonlinear_arith)
                requires
                    b1.inv_mass == 0,
            ;
            assert(iy * b1.inv_mass == 0) by (nonlinear_arith)
                requires
                    b1.inv_mass == 0,
            ;
        }
    }
}

/// The effect of one candidate pair on the body set, as a value: nothing
/// for a dangling, self- or static-static pair, nothing when detection
/// reports no collision, and otherwise the separated placements and the
/// two bodies after the full velocity solve, written back at the pair's
/// indices.
pub open spec fn narrow_step(objs: Seq<SimBody>, p: (usize, usize)) -> Seq<SimBody> {
    let ia = p.0 as int;
    let ib = p.1 as int;
    if !(0 <= ia < objs.len() && 0 <= ib < objs.len() && ia != ib) {
        objs
    } else {
        let oa = objs[ia];
        let ob = objs[ib];
        if oa.body.body_type is Static && ob.body.body_type is Static {
            objs
        } else {
            match collide_spec(oa.transform, oa.collider.shape, ob.transform, ob.collider.shape) {
                None => objs,
                Some(t) => {
                    let n = FlatVec2 { x: t.0 as i64, y: t.1 as i64 };
                    let parted = crate::collisions::separate_spec(
                        oa.transform,
                        ob.transform,
                        oa.body,
                        ob.body,
                        n,
                        t.2,
                    );
                    let cps = contacts_spec(
                        parted.0,
                        oa.collider.shape,
                        parted.1,
                        ob.collider.shape,
                    );
                    let st1 = rot_pass(
                        oa.body,
                        ob.body,
                        parted.0,
                        parted.1,
                        cps,
                        n,
                        cps.len() as int,
                    );
                    let jlist = stored_j_seq(oa.body, ob.body, parted.0, parted.1, cps, n);
                    let fin = fric_pass(
                        st1.0,
                        st1.1,
                        parted.0,
                        parted.1,
                        cps,
                        n,
                        jlist,
                        cps.len() as int,
                    );
                    objs.update(
                        ia,
                        SimBody { transform: parted.0, body: fin.0, collider: oa.collider },
                    ).update(ib, SimBody { transform: parted.1, body: fin.1, collider: ob.collider })
                },
            }
        }
    }
}

/// The body set after the first `k` candidate pairs have been processed in
/// order.
pub open spec fn narrow_fold(objs: Seq<SimBody>, pairs: Seq<(usize, usize)>, k: int) -> Seq<
    SimBody,
>
    decreases k,
{
    if k <= 0 {
        objs
    } else {
        narrow_step(narrow_fold(objs, pairs, k - 1), pairs[k - 1])
    }
}

/// Narrow phase over the surviving candidate pairs: detect, separate the
/// transforms, build the contact manifold and run the full velocity solver.
/// A pair whose members are gone or which turns out inert is skipped
/// silently, without touching either body. The body set comes out exactly
/// as the in-order fold of `narrow_step` over the pair list, and static
/// bodies exactly as they went in.
#[verifier::rlimit(100)]
pub fn narrow_phase(objects: &mut Vec<SimBody>, collision_entitties: &Vec<(usize, usize)>)
    requires
        forall|k: int| 0 <= k < old(objects)@.len() ==> sim_wf(#[trigger] old(objects)@[k]),
    ensures
        final(objects)@.len() == old(objects)@.len(),
        forall|k: int| 0 <= k < final(objects)@.len() ==> sim_wf(#[trigger] final(objects)@[k]),
        forall|k: int|
            0 <= k < final(objects)@.len() && old(objects)@[k].body.body_type is Static
                ==> #[trigger] final(objects)@[k] == old(objects)@[k],
        final(objects)@ == narrow_fold(
            old(objects)@,
            collision_entitties@,
            collision_entitties@.len() as int,
        ),
        collision_entitties@.len() == 0 ==> final(objects)@ == old(objects)@,
{
    let n: usize = objects.len();
    let m: usize = collision_entitties.len();
    let mut p: usize = 0;
    while p < m
        invariant
            0 <= p <= m,
            m == collision_entitties@.len(),
            n == objects@.len(),
            n == old(objects)@.len(),
            forall|k: int| 0 <= k < objects@.len() ==> sim_wf(#[trigger] objects@[k]),
            forall|k: int|
                0 <= k < objects@.len() && old(objects)@[k].body.body_type is Static
                    ==> #[trigger] objects@[k] == old(objects)@[k],
            m == 0 ==> objects@ == old(objects)@,
            objects@ == narrow_fold(old(objects)@, collision_entitties@, p as int),
        decreases m - p,
    {
        let ghost before = objects@;
        let (ia, ib): (usize, usize) = collision_entitties[p];
        if ia < n && ib < n && ia != ib {
            let oa: SimBody = objects[ia];
            let ob: SimBody = objects[ib];
            let both_static: bool = match (oa.body.body_type, ob.body.body_type) {
                (FlatBodyType::Static, FlatBodyType::Static) => true,
                _ => false,
            };
            if !both_static {
                let mut transform_a: FlatTransform = oa.transform;
                let mut transform_b: FlatTransform = ob.transform;
                let mut flat_body_a: FlatBody = oa.body;
                let mut flat_body_b: FlatBody = ob.body;
                let collision = collide(
                    (&transform_a, &oa.collider),
                    (&transform_b, &ob.collider),
                );
                if let Some(collision_info) = collision {
                    separate_bodies(
                        &mut transform_a,
                        &mut transform_b,
                        &flat_body_a,
                        &flat_body_b,
                        &collision_info,
                    );
                    let contact_points = find_contanct_points(
                        &transform_a,
                        &oa.collider,
                        &transform_b,
                        &ob.collider,
                    );
                    resolve_collision_with_rotation_and_friction(
                        &mut flat_body_a,
                        &transform_a,
                        &mut flat_body_b,
                        &transform_b,
                        &contact_points,
                        &collision_info.collision_normal,
                        collision_info.penetration_depth,
                    );
                    proof {
                        lemma_rot_pass_static(
                            oa.body,
                            ob.body,
                            transform_a,
                            transform_b,
                            contact_points@,
                            collision_info.collision_normal,
                            contact_points@.len() as int,
                        );
                        lemma_rot_pass_frame(
                            oa.body,
                            ob.body,
                            transform_a,
                            transform_b,
                            contact_points@,
                            collision_info.collision_normal,
                            contact_points@.len() as int,
                        );
                        lemma_fric_pass_static(
                            rot_pass(
                                oa.body,
                                ob.body,
                                transform_a,
                                transform_b,
                                contact_points@,
                                collision_info.collision_normal,
                                contact_points@.len() as int,
                            ).0,
                            rot_pass(
                                oa.body,
                                ob.body,
                                transform_a,
                                transform_b,
                                contact_points@,
                                collision_info.collision_normal,
                                contact_points@.len() as int,
                            ).1,
                            transform_a,
                            transform_b,
                            contact_points@,
                            collision_info.collision_normal,
                            stored_j_seq(
                                oa.body,
                                ob.body,
                                transform_a,
                                transform_b,
                                contact_points@,
                                collision_info.collision_normal,
                            ),
                            contact_points@.len() as int,
                        );
                    }
                    objects[ia] = SimBody {
                        transform: transform_a,
                        body: flat_body_a,
                        collider: oa.collider,
                    };
                    objects[ib] = SimBody {
                        transform: transform_b,
                        body: flat_body_b,
                        collider: ob.collider,
                    };
                }
            }
        }
        proof {
            assert(objects@ == narrow_step(before, collision_entitties@[p as int]));
        }
        p = p + 1;
    }
}

/// Every body after one integration sub-step, as a value; static bodies
/// stay exactly as they are.
pub open spec fn integrate_all(objs: Seq<SimBody>, g: FlatVec2, dt: int) -> Seq<SimBody> {
    Seq::new(
        objs.len(),
        |k: int|
            {
                let st = crate::flat_body::integrate_spec(objs[k].transform, objs[k].body, g, dt);
                SimBody { transform: st.0, body: st.1, collider: objs[k].collider }
            },
    )
}

/// One solver sub-iteration, as a value: integrate every body, then fold
/// the narrow phase over the broad-phase candidate pairs of the moved set.
pub open spec fn sub_iter(objs: Seq<SimBody>, g: FlatVec2, dt: int) -> Seq<SimBody> {
    let moved = integrate_all(objs, g, dt);
    narrow_fold(moved, broad_pairs(moved), broad_pairs(moved).len() as int)
}

/// The body set after `k` solver sub-iterations in a row.
pub open spec fn sub_iter_n(objs: Seq<SimBody>, g: FlatVec2, dt: int, k: int) -> Seq<SimBody>
    decreases k,
{
    if k <= 0 {
        objs
    } else {
        sub_iter(sub_iter_n(objs, g, dt, k - 1), g, dt)
    }
}

/// One fixed tick of the world: a fixed number of sub-iterations, each
/// integrating gravity and velocities, pruning pairs by bounding box, and
/// running detection, separation and the velocity solver on the survivors.
/// The body set comes out exactly as the `iterations`-fold composition of
/// `sub_iter` at sub-step `delta_time / iterations`, and a static body
/// never moves or changes velocity.
pub fn world_step(world: &mut FlatWorld, objects: &mut Vec<SimBody>, delta_time: i64)
    requires
        forall|k: int| 0 <= k < old(objects)@.len() ==> sim_wf(#[trigger] old(objects)@[k]),
        -MAX_COORD <= old(world).gravity.x <= MAX_COORD,
        -MAX_COORD <= old(world).gravity.y <= MAX_COORD,
        1 <= old(world).iterations,
        0 <= delta_time <= 3_600_000,
    ensures
        final(objects)@.len() == old(objects)@.len(),
        forall|k: int| 0 <= k < final(objects)@.len() ==> sim_wf(#[trigger] final(objects)@[k]),
        forall|k: int|
            0 <= k < final(objects)@.len() && old(objects)@[k].body.body_type is Static
                ==> #[trigger] final(objects)@[k] == old(objects)@[k],
        final(world).body_count == old(objects)@.len(),
        final(world).gravity == old(world).gravity,
        final(world).iterations == old(world).iterations,
        final(objects)@ == sub_iter_n(
            old(objects)@,
            old(world).gravity,
            tdiv(delta_time as int, old(world).iterations as int),
            old(world).iterations as int,
        ),
{
    world.body_count = objects.len();
    let iterations: u32 = world.iterations;
    proof {
        vstd::arithmetic::div_mod::lemma_div_is_ordered_by_denominator(
            delta_time as int,
            1,
            iterations as int,
        );
        vstd::arithmetic::div_mod::lemma_div_pos_is_pos(delta_time as int, iterations as int);
    }
    let delta_time_sub: i64 = delta_time / iterations as i64;
    let gravity: FlatVec2 = world.gravity;
    let mut it: u32 = 0;
    while it < iterations
        invariant
            0 <= it <= iterations,
            objects@.len() == old(objects)@.len(),
            forall|k: int| 0 <= k < objects@.len() ==> sim_wf(#[trigger] objects@[k]),
            forall|k: int|
                0 <= k < objects@.len() && old(objects)@[k].body.body_type is Static
                    ==> #[trigger] objects@[k] == old(objects)@[k],
            -MAX_COORD <= gravity.x <= MAX_COORD,
            -MAX_COORD <= gravity.y <= MAX_COORD,
            0 <= delta_time_sub <= 3_600_000,
            gravity == old(world).gravity,
            objects@ == sub_iter_n(old(objects)@, gravity, delta_time_sub as int, it as int),
        decreases iterations - it,
    {
        let n: usize = objects.len();
        let ghost iter_start = objects@;
        let mut k: usize = 0;
        while k < n
            invariant
                0 <= k <= n,
                n == objects@.len(),
                n == iter_start.len(),
                objects@.len() == old(objects)@.len(),
                forall|k2: int| 0 <= k2 < iter_start.len() ==> sim_wf(#[trigger] iter_start[k2]),
                forall|k2: int| 0 <= k2 < objects@.len() ==> sim_wf(#[trigger] objects@[k2]),
                forall|k2: int|
                    0 <= k2 < objects@.len() && old(objects)@[k2].body.body_type is Static
                        ==> #[trigger] objects@[k2] == old(objects)@[k2],
                -MAX_COORD <= gravity.x <= MAX_COORD,
                -MAX_COORD <= gravity.y <= MAX_COORD,
                0 <= delta_time_sub <= 3_600_000,
                forall|k2: int|
                    0 <= k2 < k ==> #[trigger] objects@[k2] == integrate_all(
                        iter_start,
                        gravity,
                        delta_time_sub as int,
                    )[k2],
                forall|k2: int| k <= k2 < n ==> #[trigger] objects@[k2] == iter_start[k2],
            decreases n - k,
        {
            let ob: SimBody = objects[k];
            let is_static: bool = match ob.body.body_type {
                FlatBodyType::Static => true,
                FlatBodyType::Dynamic => false,
            };
            if !is_static {
                let mut transform: FlatTransform = ob.transform;
                let mut flat_body: FlatBody = ob.body;
                handle_physics_step(&mut transform, &mut flat_body, &gravity, delta_time_sub);
                objects[k] = SimBody { transform, body: flat_body, collider: ob.collider };
            } else {
                proof {
                    assert(objects@[k as int] == integrate_all(
                        iter_start,
                        gravity,
                        delta_time_sub as int,
                    )[k as int]);
                }
            }
            k = k + 1;
        }
        proof {
            assert(objects@ =~= integrate_all(iter_start, gravity, delta_time_sub as int));
        }
        let mut collision_entitties: Vec<(usize, usize)> = Vec::new();
        broad_phase(objects, &mut collision_entitties);
        narrow_phase(objects, &collision_entitties);
        proof {
            assert(sub_iter_n(old(objects)@, gravity, delta_time_sub as int, it as int + 1)
                == sub_iter(
                sub_iter_n(old(objects)@, gravity, delta_time_sub as int, it as int),
                gravity,
                delta_time_sub as int,
            ));
        }
        it = it + 1;
    }
}

} // verus!
