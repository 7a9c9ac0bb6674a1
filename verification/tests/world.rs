use flat_physics::collisions::{separate_bodies, Collider, Shape};
use flat_physics::flat_body::{BoxParams, CircleParams, FlatBody, FlatBodyType};
use flat_physics::flat_world::{
    broad_phase, collide, narrow_phase, resolve_collision_basic,
    resolve_collision_with_rotation, resolve_collision_with_rotation_and_friction, world_step,
    FlatWorld, SimBody,
};
use flat_physics::transform::FlatTransform;
use flat_physics::vec2::FlatVec2;

fn v(x: i64, y: i64) -> FlatVec2 {
    FlatVec2 { x, y }
}

fn circle_object(x: i64, y: i64, radius: i64, kind: FlatBodyType) -> SimBody {
    SimBody {
        transform: FlatTransform::from_xy(x, y),
        body: FlatBody::new(1, kind, 500),
        collider: Collider::new(Shape::Circle(CircleParams::new(radius))),
    }
}

fn box_object(x: i64, y: i64, w: i64, h: i64, kind: FlatBodyType) -> SimBody {
    SimBody {
        transform: FlatTransform::from_xy(x, y),
        body: FlatBody::new(1, kind, 500),
        collider: Collider::new(Shape::Box(BoxParams::new(w, h))),
    }
}

#[test]
fn overlapping_unit_boxes_collide_with_unit_depth() {
    let a = box_object(0, 0, 2000, 2000, FlatBodyType::Dynamic);
    let b = box_object(1000, 0, 2000, 2000, FlatBodyType::Dynamic);
    let cd = collide((&a.transform, &a.collider), (&b.transform, &b.collider)).unwrap();
    assert_eq!(cd.penetration_depth, 1000);
    assert_eq!(cd.collision_normal, v(1000, 0));
}

#[test]
fn separated_axis_aligned_boxes_do_not_collide() {
    let a = box_object(0, 0, 2000, 2000, FlatBodyType::Dynamic);
    let b = box_object(5000, 0, 2000, 2000, FlatBodyType::Dynamic);
    assert!(collide((&a.transform, &a.collider), (&b.transform, &b.collider)).is_none());
    let c = box_object(0, -4000, 2000, 2000, FlatBodyType::Dynamic);
    assert!(collide((&a.transform, &a.collider), (&c.transform, &c.collider)).is_none());
}

#[test]
fn circle_against_box_gets_a_consistent_normal() {
    let circle = circle_object(0, 1500, 1000, FlatBodyType::Dynamic);
    let bx = box_object(0, 0, 2000, 2000, FlatBodyType::Dynamic);
    // circle first: the normal points from the circle toward the box
    let cd = collide(
        (&circle.transform, &circle.collider),
        (&bx.transform, &bx.collider),
    )
    .unwrap();
    assert_eq!(cd.penetration_depth, 500);
    assert_eq!(cd.collision_normal, v(0, -1000));
    // box first: the same contact seen the other way round
    let cd = collide(
        (&bx.transform, &bx.collider),
        (&circle.transform, &circle.collider),
    )
    .unwrap();
    assert_eq!(cd.penetration_depth, 500);
    assert_eq!(cd.collision_normal, v(0, 1000));
}

#[test]
fn elastic_head_on_collision_swaps_velocities() {
    let mut a = FlatBody::new(1, FlatBodyType::Dynamic, 1000);
    let mut b = FlatBody::new(1, FlatBodyType::Dynamic, 1000);
    a.linear_velocity = v(500, 0);
    b.linear_velocity = v(-500, 0);
    let (da, db) = resolve_collision_basic(&a, &b, &v(1000, 0), 100).unwrap();
    assert_eq!(da, v(-1000, 0));
    assert_eq!(db, v(1000, 0));
    assert_eq!(a.linear_velocity.x + da.x, -500);
    assert_eq!(b.linear_velocity.x + db.x, 500);
}

#[test]
fn separating_pair_gets_no_impulse() {
    let mut a = FlatBody::new(1, FlatBodyType::Dynamic, 1000);
    let mut b = FlatBody::new(1, FlatBodyType::Dynamic, 1000);
    a.linear_velocity = v(-500, 0);
    b.linear_velocity = v(500, 0);
    assert!(resolve_collision_basic(&a, &b, &v(1000, 0), 100).is_none());

    // the rotational resolver skips separating contacts too
    let ta = FlatTransform::from_xy(0, 0);
    let tb = FlatTransform::from_xy(1500, 0);
    let contacts = vec![v(1000, 0)];
    let before_a = a;
    let before_b = b;
    resolve_collision_with_rotation(&mut a, &ta, &mut b, &tb, &contacts, &v(1000, 0), 500);
    assert_eq!(a.linear_velocity, before_a.linear_velocity);
    assert_eq!(b.linear_velocity, before_b.linear_velocity);
    assert_eq!(a.angular_velocity, before_a.angular_velocity);
    assert_eq!(b.angular_velocity, before_b.angular_velocity);
}

#[test]
fn static_body_never_moves_under_resolution() {
    let mut wall = FlatBody::new(1, FlatBodyType::Static, 1000);
    let mut ball = FlatBody::new(1, FlatBodyType::Dynamic, 1000);
    ball.linear_velocity = v(-500, 0);
    let (da, db) = resolve_collision_basic(&ball, &wall, &v(-1000, 0), 100).unwrap();
    assert_eq!(db, v(0, 0));
    assert_eq!(da, v(1000, 0));

    let tw = FlatTransform::from_xy(-2000, 0);
    let tb = FlatTransform::from_xy(0, 0);
    let contacts = vec![v(-1000, 0)];
    let before_wall = wall;
    resolve_collision_with_rotation_and_friction(
        &mut ball,
        &tb,
        &mut wall,
        &tw,
        &contacts,
        &v(-1000, 0),
        100,
    );
    assert_eq!(wall.linear_velocity, before_wall.linear_velocity);
    assert_eq!(wall.angular_velocity, before_wall.angular_velocity);
}

#[test]
fn separation_pushes_only_the_dynamic_body_off_a_static_one() {
    let stat = FlatBody::new(1, FlatBodyType::Static, 500);
    let dynam = FlatBody::new(1, FlatBodyType::Dynamic, 500);
    let mut ta = FlatTransform::from_xy(0, 0);
    let mut tb = FlatTransform::from_xy(1500, 0);
    let cd = flat_physics::collisions::CollisionDetails {
        penetration_depth: 500,
        collision_normal: v(1000, 0),
    };
    separate_bodies(&mut ta, &mut tb, &stat, &dynam, &cd);
    assert_eq!(ta.translation, v(0, 0));
    assert_eq!(tb.translation, v(2000, 0));
}

#[test]
fn separating_circles_round_trip_reduces_the_depth_to_zero() {
    let a = circle_object(0, 0, 1000, FlatBodyType::Dynamic);
    let b = circle_object(1500, 0, 1000, FlatBodyType::Dynamic);
    let cd = collide((&a.transform, &a.collider), (&b.transform, &b.collider)).unwrap();
    assert_eq!(cd.penetration_depth, 500);
    let mut ta = a.transform;
    let mut tb = b.transform;
    separate_bodies(&mut ta, &mut tb, &a.body, &b.body, &cd);
    assert_eq!(ta.translation, v(-250, 0));
    assert_eq!(tb.translation, v(1750, 0));
    assert!(collide((&ta, &a.collider), (&tb, &b.collider)).is_none());
}

#[test]
fn separating_boxes_round_trip_reduces_the_depth() {
    let a = box_object(0, 0, 2000, 2000, FlatBodyType::Dynamic);
    let b = box_object(1000, 0, 2000, 2000, FlatBodyType::Dynamic);
    let cd = collide((&a.transform, &a.collider), (&b.transform, &b.collider)).unwrap();
    assert_eq!(cd.penetration_depth, 1000);
    let mut ta = a.transform;
    let mut tb = b.transform;
    separate_bodies(&mut ta, &mut tb, &a.body, &b.body, &cd);
    let after = collide((&ta, &a.collider), (&tb, &b.collider));
    match after {
        None => {},
        Some(cd2) => assert!(cd2.penetration_depth <= cd.penetration_depth),
    }
}

#[test]
fn broad_phase_skips_static_pairs_and_distant_bodies() {
    let objects = vec![
        box_object(0, 0, 2000, 2000, FlatBodyType::Static),
        box_object(1000, 0, 2000, 2000, FlatBodyType::Static),
        box_object(500, 0, 2000, 2000, FlatBodyType::Dynamic),
        box_object(100_000, 0, 2000, 2000, FlatBodyType::Dynamic),
    ];
    let mut pairs: Vec<(usize, usize)> = Vec::new();
    broad_phase(&objects, &mut pairs);
    assert_eq!(pairs, vec![(0, 2), (1, 2)]);
}

#[test]
fn narrow_phase_leaves_distant_pairs_alone() {
    let mut objects = vec![
        circle_object(0, 0, 1000, FlatBodyType::Dynamic),
        circle_object(10_000, 0, 1000, FlatBodyType::Dynamic),
    ];
    let pairs = vec![(0usize, 1usize), (7usize, 9usize)];
    let before0 = objects[0].transform.translation;
    narrow_phase(&mut objects, &pairs);
    assert_eq!(objects[0].transform.translation, before0);
}

#[test]
fn world_step_drops_a_ball_and_keeps_the_ground_still() {
    let mut world = FlatWorld {
        gravity: v(0, -9810),
        iterations: 3,
        body_count: 0,
        world_step_time_s: 0,
    };
    let ground = box_object(0, -450_000, 700_000, 30_000, FlatBodyType::Static);
    let ball = circle_object(0, 0, 50_000, FlatBodyType::Dynamic);
    let mut objects = vec![ground, ball];
    for _ in 0..10 {
        world_step(&mut world, &mut objects, 16);
    }
    assert_eq!(world.body_count, 2);
    assert_eq!(objects[0].transform.translation, v(0, -450_000));
    assert_eq!(objects[0].body.linear_velocity, v(0, 0));
    assert!(objects[1].transform.translation.y < 0);
    assert!(objects[1].body.linear_velocity.y < 0);
}

#[test]
fn world_step_resolves_a_resting_contact_without_sinking() {
    let mut world = FlatWorld {
        gravity: v(0, -9810),
        iterations: 3,
        body_count: 0,
        world_step_time_s: 0,
    };
    let ground = box_object(0, -100_000, 700_000, 30_000, FlatBodyType::Static);
    // a ball resting just above the ground's top edge at -85_000
    let ball = circle_object(0, -34_600, 50_000, FlatBodyType::Dynamic);
    let mut objects = vec![ground, ball];
    for _ in 0..120 {
        world_step(&mut world, &mut objects, 16);
    }
    // the ball neither tunnels through the ground nor flies away
    assert!(objects[1].transform.translation.y > -90_000);
    assert!(objects[1].transform.translation.y < 0);
    assert_eq!(objects[0].transform.translation, v(0, -100_000));
}

#[test]
fn world_step_on_a_lone_body_is_pure_integration() {
    let mut world = FlatWorld {
        gravity: v(0, -9810),
        iterations: 4,
        body_count: 0,
        world_step_time_s: 0,
    };
    let ball = circle_object(123, 456, 1000, FlatBodyType::Dynamic);
    let mut objects = vec![ball];
    world_step(&mut world, &mut objects, 16);

    let mut t = ball.transform;
    let mut b = ball.body;
    for _ in 0..4 {
        flat_physics::flat_body::handle_physics_step(&mut t, &mut b, &world.gravity, 4);
    }
    assert_eq!(objects[0].transform.translation, t.translation);
    assert_eq!(objects[0].transform.rotation, t.rotation);
    assert_eq!(objects[0].body.linear_velocity, b.linear_velocity);
    assert_eq!(objects[0].body.angular_velocity, b.angular_velocity);
}

#[test]
fn degenerate_zero_size_boxes_never_collide() {
    let a = box_object(0, 0, 0, 0, FlatBodyType::Dynamic);
    let b = box_object(0, 0, 0, 0, FlatBodyType::Dynamic);
    assert!(collide((&a.transform, &a.collider), (&b.transform, &b.collider)).is_none());
}

#[test]
fn a_rotated_box_still_collides_through_its_corner() {
    let mut a = box_object(0, 0, 2000, 2000, FlatBodyType::Dynamic);
    a.transform.rotation = 45_000;
    // the rotated box reaches past x = 1400; this one starts at x = 1300
    let b = box_object(2300, 0, 2000, 2000, FlatBodyType::Dynamic);
    let cd = collide((&a.transform, &a.collider), (&b.transform, &b.collider)).unwrap();
    assert!(cd.penetration_depth > 0);
    assert!(cd.collision_normal.x > 0);
    // once pulled apart, the pair no longer touches
    let c = box_object(3000, 0, 2000, 2000, FlatBodyType::Dynamic);
    assert!(collide((&a.transform, &a.collider), (&c.transform, &c.collider)).is_none());
}

#[test]
fn narrow_phase_separates_and_resolves_a_listed_pair() {
    let mut objects = vec![
        circle_object(0, 0, 1000, FlatBodyType::Dynamic),
        circle_object(1500, 0, 1000, FlatBodyType::Dynamic),
    ];
    objects[0].body.linear_velocity = v(500, 0);
    objects[1].body.linear_velocity = v(-500, 0);
    let pairs = vec![(0usize, 1usize)];
    narrow_phase(&mut objects, &pairs);
    // both centres give way by half the depth of 500
    assert_eq!(objects[0].transform.translation, v(-250, 0));
    assert_eq!(objects[1].transform.translation, v(1750, 0));
    // restitution one half: the 1000 approach speed rebounds at 500
    assert_eq!(objects[0].body.linear_velocity, v(-250, 0));
    assert_eq!(objects[1].body.linear_velocity, v(250, 0));
}
