//! The rigid-body model: shape parameters, mass and rotational-inertia
//! derivation, static/dynamic classification, and the fixed-timestep
//! semi-implicit integrator for one body.
use vstd::prelude::*;
use crate::collisions::{collider_wf, shape_wf, Collider, Shape};
use crate::math::{
    lemma_mul_bound, lemma_tdiv_bound, sat, saturate, tdiv, wide_mul, INV_INERTIA_SCALE,
    INV_MASS_SCALE, MAX_COORD, MAX_INERTIA, MAX_MASS, MAX_SHAPE, UNIT,
};
use crate::transform::{transform_in_range, FlatTransform};
use crate::vec2::FlatVec2;

verus! {

/// Whether a body is immovable or simulated.
#[derive(Clone, Copy, PartialEq, Eq, Structural, Debug)]
pub enum FlatBodyType {
    Static,
    Dynamic,
}

/// A circle shape: radius in milliunits, area in squared milliunits.
#[derive(Clone, Copy)]
pub struct CircleParams {
    pub radius: i64,
    pub area: i64,
}

impl CircleParams {
    /// A circle of the given radius; the area is pi times the squared
    /// radius, in fixed point.
    pub fn new(radius: i64) -> (r: Self)
        requires
            0 <= radius <= MAX_SHAPE,
        ensures
            r.radius == radius,
            shape_wf(Shape::Circle(r)),
    {
        proof {
            lemma_mul_bound(radius as int, radius as int, MAX_SHAPE as int, MAX_SHAPE as int);
            lemma_mul_bound(
                3_141_592_653,
                radius as int * radius as int,
                3_141_592_653,
                1_000_000_000_000,
            );
            lemma_tdiv_bound(
                3_141_592_653 * (radius as int * radius as int),
                1_000_000_000,
                3_141_592_653int * 1_000_000_000_000int,
            );
            assert(3_141_592_653 * (radius as int * radius as int) == 3_141_592_653 * radius as int
                * radius as int) by (nonlinear_arith);
        }
        let r_sq: i128 = wide_mul(radius, radius);
        let area: i64 = ((3_141_592_653 as i128 * r_sq) / 1_000_000_000) as i64;
        CircleParams { radius, area }
    }
}

/// A box shape: extents in milliunits, area in squared milliunits, and the
/// four corner vertices centred on the local origin.
#[derive(Clone, Copy)]
pub struct BoxParams {
    pub width: i64,
    pub height: i64,
    pub area: i64,
    pub verticies: [FlatVec2; 4],
}

impl BoxParams {
    /// A box of the given extents, its corners at half an extent from the
    /// local origin on each side.
    pub fn new(width: i64, height: i64) -> (r: Self)
        requires
            0 <= width <= MAX_SHAPE,
            0 <= height <= MAX_SHAPE,
        ensures
            r.width == width,
            r.height == height,
            shape_wf(Shape::Box(r)),
    {
        let left: i64 = -(width / 2);
        let right: i64 = left + width;
        let bottom: i64 = -(height / 2);
        let top: i64 = bottom + height;

        let verticies: [FlatVec2; 4] = [
            FlatVec2 { x: left, y: top },
            FlatVec2 { x: right, y: top },
            FlatVec2 { x: right, y: bottom },
            FlatVec2 { x: left, y: bottom },
        ];

        proof {
            vstd::arithmetic::div_mod::lemma_div_is_ordered_by_denominator(width as int, 1, 2);
            vstd::arithmetic::div_mod::lemma_div_is_ordered_by_denominator(height as int, 1, 2);
            lemma_mul_bound(width as int, height as int, MAX_SHAPE as int, MAX_SHAPE as int);
        }
        let area: i64 = width * height;

        let r = BoxParams { width, height, verticies, area };
        proof {
            assert forall|k: int| 0 <= k < 4 implies -MAX_SHAPE <= (#[trigger] r.verticies@[k]).x
                <= MAX_SHAPE && -MAX_SHAPE <= r.verticies@[k].y <= MAX_SHAPE by {
                assert(r.verticies@[0] == (FlatVec2 { x: left, y: top }));
                assert(r.verticies@[1] == (FlatVec2 { x: right, y: top }));
                assert(r.verticies@[2] == (FlatVec2 { x: right, y: bottom }));
                assert(r.verticies@[3] == (FlatVec2 { x: left, y: bottom }));
            }
        }
        r
    }
}

/// One simulated rigid object's dynamic state. A static body's inverse mass
/// and inverse inertia are exactly zero, which makes it immovable under
/// every impulse and integration.
#[derive(Clone, Copy, Debug)]
pub struct FlatBody {
    pub linear_velocity: FlatVec2,
    pub angular_velocity: i64,
    pub force: FlatVec2,
    pub restitution: i64,
    pub static_friction: i64,
    pub dynamic_friction: i64,
    pub mass: i64,
    pub inv_mass: i64,
    pub inertia: i64,
    pub inv_inertia: i64,
    pub body_type: FlatBodyType,
}

/// The body invariant: every dynamic quantity within the simulation range,
/// coefficients within their fixed-point scales, and the stored reciprocals
/// exactly the truncated reciprocals of mass and inertia - zero for a
/// static body.
pub open spec fn body_wf(b: FlatBody) -> bool {
    &&& -MAX_COORD <= b.linear_velocity.x <= MAX_COORD
    &&& -MAX_COORD <= b.linear_velocity.y <= MAX_COORD
    &&& -MAX_COORD <= b.angular_velocity <= MAX_COORD
    &&& -MAX_COORD <= b.force.x <= MAX_COORD
    &&& -MAX_COORD <= b.force.y <= MAX_COORD
    &&& 0 <= b.restitution <= UNIT
    &&& 0 <= b.static_friction <= 2 * UNIT
    &&& 0 <= b.dynamic_friction <= 2 * UNIT
    &&& 0 <= b.mass <= MAX_MASS
    &&& 0 <= b.inertia <= MAX_INERTIA
    &&& match b.body_type {
        FlatBodyType::Static => b.inv_mass == 0 && b.inertia == 0 && b.inv_inertia == 0,
        FlatBodyType::Dynamic => {
            &&& 1 <= b.mass
            &&& b.inv_mass == INV_MASS_SCALE as int / b.mass as int
            &&& (b.inertia == 0 ==> b.inv_inertia == 0)
            &&& (b.inertia > 0 ==> b.inv_inertia == INV_INERTIA_SCALE as int / b.inertia as int)
        },
    }
}

/// Ranges of the stored reciprocals that follow from the body invariant.
pub proof fn lemma_body_reciprocal_bounds(b: FlatBody)
    requires
        body_wf(b),
    ensures
        0 <= b.inv_mass <= INV_MASS_SCALE,
        0 <= b.inv_inertia <= INV_INERTIA_SCALE,
        b.body_type is Dynamic ==> 1 <= b.inv_mass,
{
    match b.body_type {
        FlatBodyType::Static => {},
        FlatBodyType::Dynamic => {
            vstd::arithmetic::div_mod::lemma_div_is_ordered_by_denominator(
                INV_MASS_SCALE as int,
                1,
                b.mass as int,
            );
            vstd::arithmetic::div_mod::lemma_div_pos_is_pos(INV_MASS_SCALE as int, b.mass as int);
            vstd::arithmetic::div_mod::lemma_div_is_ordered(
                b.mass as int,
                INV_MASS_SCALE as int,
                b.mass as int,
            );
            vstd::arithmetic::div_mod::lemma_div_by_multiple(1, b.mass as int);
            if b.inertia > 0 {
                vstd::arithmetic::div_mod::lemma_div_is_ordered_by_denominator(
                    INV_INERTIA_SCALE as int,
                    1,
                    b.inertia as int,
                );
                vstd::arithmetic::div_mod::lemma_div_pos_is_pos(
                    INV_INERTIA_SCALE as int,
                    b.inertia as int,
                );
            }
        },
    }
}

impl FlatBody {
    /// Construct a body from mass, kind and restitution. The inverse mass is
    /// zero for a static body and the truncated reciprocal otherwise;
    /// inertia stays zero until a shape is attached.
    pub fn new(mass: i64, body_type: FlatBodyType, restitution: i64) -> (r: Self)
        requires
            0 <= restitution <= UNIT,
            0 <= mass <= MAX_MASS,
            body_type is Dynamic ==> 1 <= mass,
        ensures
            body_wf(r),
            r.mass == mass,
            r.body_type == body_type,
            r.restitution == restitution,
            r.linear_velocity == (FlatVec2 { x: 0, y: 0 }),
            r.angular_velocity == 0,
            r.force == (FlatVec2 { x: 0, y: 0 }),
            r.inertia == 0,
            r.inv_inertia == 0,
            r.static_friction == 600,
            r.dynamic_friction == 400,
            body_type is Static ==> r.inv_mass == 0,
            body_type is Dynamic ==> r.inv_mass == INV_MASS_SCALE as int / mass as int,
    {
        let inv_mass: i64 = match body_type {
            FlatBodyType::Static => 0,
            FlatBodyType::Dynamic => INV_MASS_SCALE / mass,
        };
        proof {
            if body_type is Dynamic {
                vstd::arithmetic::div_mod::lemma_div_is_ordered_by_denominator(
                    INV_MASS_SCALE as int,
                    1,
                    mass as int,
                );
                vstd::arithmetic::div_mod::lemma_div_pos_is_pos(INV_MASS_SCALE as int, mass as int);
            }
        }
        FlatBody {
            linear_velocity: FlatVec2 { x: 0, y: 0 },
            angular_velocity: 0,
            force: FlatVec2 { x: 0, y: 0 },
            restitution,
            static_friction: 600,
            dynamic_friction: 400,
            mass,
            inv_mass,
            inertia: 0,
            inv_inertia: 0,
            body_type,
        }
    }

    /// The body's mass.
    pub fn mass(&self) -> (r: &i64)
        ensures
            *r == self.mass,
    {
        &self.mass
    }

    /// The stored truncated reciprocal of the mass, zero for a static body.
    pub fn inv_mass(&self) -> (r: &i64)
        ensures
            *r == self.inv_mass,
    {
        &self.inv_mass
    }

    /// Derive and store rotational inertia from the attached shape: zero for
    /// a static body, else the standard rectangular or disc formula with its
    /// truncated reciprocal.
    fn update_inertia(&mut self, collider: &Collider)
        requires
            body_wf(*old(self)),
            collider_wf(*collider),
        ensures
            body_wf(*final(self)),
            *final(self) == (FlatBody {
                inertia: final(self).inertia,
                inv_inertia: final(self).inv_inertia,
                ..*old(self)
            }),
            final(self).body_type is Static ==> final(self).inertia == 0 && final(self).inv_inertia
                == 0,
            final(self).body_type is Dynamic ==> final(self).inertia == rotational_inertia_spec(
                collider.shape,
                old(self).mass as int,
            ) && (final(self).inertia == 0 ==> final(self).inv_inertia == 0) && (final(self).inertia
                > 0 ==> final(self).inv_inertia == INV_INERTIA_SCALE as int
                / final(self).inertia as int),
    {
        let inertia: i64 = calculate_rotational_inertia(collider, self);
        match self.body_type {
            FlatBodyType::Static => {
                self.inertia = 0;
                self.inv_inertia = 0;
            },
            FlatBodyType::Dynamic => {
                self.inertia = inertia;
                if inertia > 0 {
                    proof {
                        vstd::arithmetic::div_mod::lemma_div_is_ordered_by_denominator(
                            INV_INERTIA_SCALE as int,
                            1,
                            inertia as int,
                        );
                        vstd::arithmetic::div_mod::lemma_div_pos_is_pos(
                            INV_INERTIA_SCALE as int,
                            inertia as int,
                        );
                    }
                    self.inv_inertia = INV_INERTIA_SCALE / inertia;
                } else {
                    self.inv_inertia = 0;
                }
            },
        }
    }

    /// The stored rotational inertia.
    pub fn inertia(&self) -> (r: i64)
        ensures
            r == self.inertia,
    {
        self.inertia
    }

    /// The stored truncated reciprocal of the rotational inertia, zero for a
    /// static body.
    pub fn inf_inertia(&self) -> (r: i64)
        ensures
            r == self.inv_inertia,
    {
        self.inv_inertia
    }
}

/// Inertia attachment: once a body and its collider both exist, derive the
/// body's rotational inertia from the shape.
pub fn on_flat_body_added(flat_body: &mut FlatBody, collider: &Collider)
    requires
        body_wf(*old(flat_body)),
        collider_wf(*collider),
    ensures
        body_wf(*final(flat_body)),
        *final(flat_body) == (FlatBody {
            inertia: final(flat_body).inertia,
            inv_inertia: final(flat_body).inv_inertia,
            ..*old(flat_body)
        }),
        final(flat_body).body_type is Static ==> final(flat_body).inertia == 0
            && final(flat_body).inv_inertia == 0,
        final(flat_body).body_type is Dynamic ==> final(flat_body).inertia
            == rotational_inertia_spec(collider.shape, old(flat_body).mass as int),
{
    flat_body.update_inertia(collider);
}

/// The standard rotational inertia of a shape about its centre for a given
/// mass: a twelfth of the mass times the squared extents for a box, half
/// the mass times the squared radius for a disc.
pub open spec fn rotational_inertia_spec(s: Shape, mass: int) -> int {
    match s {
        Shape::Box(bp) => tdiv(mass * (bp.width * bp.width + bp.height * bp.height), 12),
        Shape::Circle(cp) => tdiv(mass * (cp.radius * cp.radius), 2),
    }
}

/// Compute the rotational inertia of a collider's shape for a body's mass.
pub fn calculate_rotational_inertia(collider: &Collider, flat_body: &FlatBody) -> (r: i64)
    requires
        collider_wf(*collider),
        0 <= flat_body.mass <= MAX_MASS,
    ensures
        r == rotational_inertia_spec(collider.shape, flat_body.mass as int),
        0 <= r <= MAX_INERTIA,
{
    match &collider.shape {
        Shape::Box(box_params) => {
            let w_sq: i128 = wide_mul(box_params.width, box_params.width);
            let h_sq: i128 = wide_mul(box_params.height, box_params.height);
            proof {
                lemma_mul_bound(
                    box_params.width as int,
                    box_params.width as int,
                    MAX_SHAPE as int,
                    MAX_SHAPE as int,
                );
                lemma_mul_bound(
                    box_params.height as int,
                    box_params.height as int,
                    MAX_SHAPE as int,
                    MAX_SHAPE as int,
                );
                lemma_mul_bound(
                    flat_body.mass as int,
                    w_sq as int + h_sq as int,
                    MAX_MASS as int,
                    2_000_000_000_000,
                );
                lemma_tdiv_bound(
                    flat_body.mass as int * (w_sq as int + h_sq as int),
                    12,
                    2_000_000_000_000_000_000,
                );
                vstd::arithmetic::div_mod::lemma_div_pos_is_pos(
                    flat_body.mass as int * (w_sq as int + h_sq as int),
                    12,
                );
            }
            ((flat_body.mass as i128 * (w_sq + h_sq)) / 12) as i64
        },
        Shape::Circle(circle_params) => {
            let r_sq: i128 = wide_mul(circle_params.radius, circle_params.radius);
            proof {
                lemma_mul_bound(
                    circle_params.radius as int,
                    circle_params.radius as int,
                    MAX_SHAPE as int,
                    MAX_SHAPE as int,
                );
                lemma_mul_bound(
                    flat_body.mass as int,
                    r_sq as int,
                    MAX_MASS as int,
                    1_000_000_000_000,
                );
                lemma_tdiv_bound(
                    flat_body.mass as int * r_sq as int,
                    2,
                    1_000_000_000_000_000_000,
                );
            }
            ((flat_body.mass as i128 * r_sq) / 2) as i64
        },
    }
}

/// A request, addressed by body handle, to move a body by an offset.
pub struct MoveFlatBody {
    pub entity: usize,
    pub amount: FlatVec2,
}

/// Apply a movement request to the addressed body's transform, saturating
/// into the simulation range.
pub fn on_move_flat_body(transform: &mut FlatTransform, trigger: &MoveFlatBody)
    requires
        transform_in_range(*old(transform)),
    ensures
        transform_in_range(*final(transform)),
        final(transform).translation.x == sat(old(transform).translation.x + trigger.amount.x),
        final(transform).translation.y == sat(old(transform).translation.y + trigger.amount.y),
        final(transform).rotation == old(transform).rotation,
{
    let x: i64 = saturate(transform.translation.x as i128 + trigger.amount.x as i128);
    let y: i64 = saturate(transform.translation.y as i128 + trigger.amount.y as i128);
    transform.translation = FlatVec2 { x, y };
}

/// A request, addressed by body handle, to turn a body by an angle in
/// millidegrees.
pub struct RotateFlatBody {
    pub entity: usize,
    pub amount: i64,
}

/// Apply a rotation request to the addressed body's transform, saturating
/// into the simulation range.
pub fn on_rotate_flat_body(transform: &mut FlatTransform, trigger: &RotateFlatBody)
    requires
        transform_in_range(*old(transform)),
    ensures
        transform_in_range(*final(transform)),
        final(transform).rotation == sat(old(transform).rotation + trigger.amount),
        final(transform).translation == old(transform).translation,
{
    transform.rotation = saturate(transform.rotation as i128 + trigger.amount as i128);
}

/// One sub-step of semi-implicit integration as a value: the new placement
/// and dynamic state of one body under gravity for one sub-step. A static
/// body is left exactly as it is.
pub open spec fn integrate_spec(t: FlatTransform, b: FlatBody, g: FlatVec2, dt: int) -> (
    FlatTransform,
    FlatBody,
) {
    if b.body_type is Static {
        (t, b)
    } else {
        let vx = sat(b.linear_velocity.x + tdiv(g.x * dt, 1000));
        let vy = sat(b.linear_velocity.y + tdiv(g.y * dt, 1000));
        let px = sat(t.translation.x + tdiv(vx * dt, 1000));
        let py = sat(t.translation.y + tdiv(vy * dt, 1000));
        let rot = sat(t.rotation + tdiv(b.angular_velocity * dt, 1000));
        (
            FlatTransform {
                translation: FlatVec2 { x: px as i64, y: py as i64 },
                rotation: rot as i64,
            },
            FlatBody {
                linear_velocity: FlatVec2 { x: vx as i64, y: vy as i64 },
                force: FlatVec2 { x: 0, y: 0 },
                ..b
            },
        )
    }
}

/// One sub-step of semi-implicit integration: fold gravity into the
/// velocity, the velocity into the position, the angular velocity into the
/// orientation, and clear the accumulated force. A static body is immovable
/// and comes out exactly unchanged. Times are in milliseconds.
pub fn handle_physics_step(
    transform: &mut FlatTransform,
    flat_body: &mut FlatBody,
    gravity: &FlatVec2,
    delta_time: i64,
)
    requires
        transform_in_range(*old(transform)),
        body_wf(*old(flat_body)),
        -MAX_COORD <= gravity.x <= MAX_COORD,
        -MAX_COORD <= gravity.y <= MAX_COORD,
        0 <= delta_time <= 3_600_000,
    ensures
        transform_in_range(*final(transform)),
        body_wf(*final(flat_body)),
        old(flat_body).body_type is Static ==> *final(transform) == *old(transform)
            && *final(flat_body) == *old(flat_body),
        old(flat_body).body_type is Dynamic ==> final(flat_body).linear_velocity.x == sat(
            old(flat_body).linear_velocity.x + tdiv(gravity.x * delta_time, 1000),
        ) && final(flat_body).linear_velocity.y == sat(
            old(flat_body).linear_velocity.y + tdiv(gravity.y * delta_time, 1000),
        ) && final(transform).translation.x == sat(
            old(transform).translation.x + tdiv(
                final(flat_body).linear_velocity.x * delta_time,
                1000,
            ),
        ) && final(transform).translation.y == sat(
            old(transform).translation.y + tdiv(
                final(flat_body).linear_velocity.y * delta_time,
                1000,
            ),
        ) && final(transform).rotation == sat(
            old(transform).rotation + tdiv(old(flat_body).angular_velocity * delta_time, 1000),
        ) && final(flat_body).force == (FlatVec2 { x: 0, y: 0 }) && *final(flat_body) == (FlatBody {
            linear_velocity: final(flat_body).linear_velocity,
            force: final(flat_body).force,
            ..*old(flat_body)
        }),
        (*final(transform), *final(flat_body)) == integrate_spec(
            *old(transform),
            *old(flat_body),
            *gravity,
            delta_time as int,
        ),
{
    if let FlatBodyType::Static = flat_body.body_type {
        return ;
    }
    let vx: i64 = saturate(
        flat_body.linear_velocity.x as i128 + wide_mul(gravity.x, delta_time) / 1000,
    );
    let vy: i64 = saturate(
        flat_body.linear_velocity.y as i128 + wide_mul(gravity.y, delta_time) / 1000,
    );
    flat_body.linear_velocity = FlatVec2 { x: vx, y: vy };

    let px: i64 = saturate(
        transform.translation.x as i128 + wide_mul(vx, delta_time) / 1000,
    );
    let py: i64 = saturate(
        transform.translation.y as i128 + wide_mul(vy, delta_time) / 1000,
    );
    transform.translation = FlatVec2 { x: px, y: py };

    let rot: i64 = saturate(
        transform.rotation as i128 + wide_mul(flat_body.angular_velocity, delta_time) / 1000,
    );
    transform.rotation = rot;

    flat_body.force = FlatVec2 { x: 0, y: 0 };
}

} // verus!
