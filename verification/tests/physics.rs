use flat_physics::collisions::{
    find_contanct_point, find_contanct_points, intersect_aabbs, intersect_circle_circle, Collider,
    Shape,
};
use flat_physics::flat_aabb::FlatAABB;
use flat_physics::flat_body::{
    calculate_rotational_inertia, handle_physics_step, on_flat_body_added, on_move_flat_body,
    on_rotate_flat_body, BoxParams, CircleParams, FlatBody, FlatBodyType, MoveFlatBody,
    RotateFlatBody,
};
use flat_physics::math::{cosine_fixed, nearly_equal, sine_fixed};
use flat_physics::transform::FlatTransform;
use flat_physics::vec2::FlatVec2;

fn v(x: i64, y: i64) -> FlatVec2 {
    FlatVec2 { x, y }
}

#[test]
fn sine_and_cosine_at_key_angles() {
    assert_eq!(sine_fixed(0), 0);
    assert_eq!(sine_fixed(90_000), 1000);
    assert_eq!(sine_fixed(30_000), 500);
    assert_eq!(sine_fixed(180_000), 0);
    assert_eq!(sine_fixed(-90_000), -1000);
    assert_eq!(cosine_fixed(0), 1000);
    assert_eq!(cosine_fixed(90_000), 0);
    assert_eq!(cosine_fixed(180_000), -1000);
}

#[test]
fn nearly_equal_uses_the_five_milliunit_eps() {
    assert!(nearly_equal(100, 104));
    assert!(!nearly_equal(100, 105));
    assert!(nearly_equal(-3, 1));
}

#[test]
fn circle_params_area_is_pi_r_squared() {
    let c = CircleParams::new(1000);
    assert_eq!(c.radius, 1000);
    assert_eq!(c.area, 3_141_592);
}

#[test]
fn box_params_corners_and_area() {
    let b = BoxParams::new(2000, 1000);
    assert_eq!(b.area, 2_000_000);
    assert_eq!(b.verticies[0], v(-1000, 500));
    assert_eq!(b.verticies[1], v(1000, 500));
    assert_eq!(b.verticies[2], v(1000, -500));
    assert_eq!(b.verticies[3], v(-1000, -500));
}

#[test]
fn rotational_inertia_box_and_disc() {
    let collider = Collider::new(Shape::Box(BoxParams::new(2000, 2000)));
    let body = FlatBody::new(2, FlatBodyType::Dynamic, 500);
    assert_eq!(calculate_rotational_inertia(&collider, &body), 1_333_333);
    let collider = Collider::new(Shape::Circle(CircleParams::new(1000)));
    assert_eq!(calculate_rotational_inertia(&collider, &body), 1_000_000);
}

#[test]
fn inertia_attachment_is_zero_for_static_bodies() {
    let collider = Collider::new(Shape::Box(BoxParams::new(2000, 2000)));
    let mut dynamic = FlatBody::new(2, FlatBodyType::Dynamic, 500);
    on_flat_body_added(&mut dynamic, &collider);
    assert_eq!(dynamic.inertia(), 1_333_333);
    let mut immovable = FlatBody::new(2, FlatBodyType::Static, 500);
    on_flat_body_added(&mut immovable, &collider);
    assert_eq!(immovable.inertia(), 0);
    assert_eq!(immovable.inf_inertia(), 0);
}

#[test]
fn aabb_of_circle_and_rotated_box() {
    let mut collider = Collider::new(Shape::Circle(CircleParams::new(50)));
    let t = FlatTransform { translation: v(100, 200), rotation: 0 };
    let aabb = collider.get_aabb(&t);
    assert_eq!((aabb.min.x, aabb.min.y, aabb.max.x, aabb.max.y), (50, 150, 150, 250));

    // a quarter turn swaps a box's extents
    let mut collider = Collider::new(Shape::Box(BoxParams::new(2000, 1000)));
    let t = FlatTransform { translation: v(0, 0), rotation: 90_000 };
    let aabb = collider.get_aabb(&t);
    assert_eq!((aabb.min.x, aabb.min.y, aabb.max.x, aabb.max.y), (-500, -1000, 500, 1000));
}

#[test]
fn aabb_overlap_is_strict() {
    let a = FlatAABB::new(0, 0, 10, 10);
    let b = FlatAABB::new(10, 0, 20, 10);
    assert!(!intersect_aabbs(&a, &b));
    let c = FlatAABB::new(9, 9, 20, 20);
    assert!(intersect_aabbs(&a, &c));
}

#[test]
fn circles_apart_or_touching_do_not_collide() {
    // distance beyond the radius sum
    assert!(intersect_circle_circle(v(0, 0), 1000, v(3000, 0), 1000).is_none());
    // distance exactly the radius sum
    assert!(intersect_circle_circle(v(0, 0), 1000, v(2000, 0), 1000).is_none());
}

#[test]
fn overlapping_circles_give_depth_and_unit_normal() {
    let cd = intersect_circle_circle(v(0, 0), 1000, v(1500, 0), 1000).unwrap();
    assert_eq!(cd.penetration_depth, 500);
    assert_eq!(cd.collision_normal, v(1000, 0));

    // a diagonal pair: the normal keeps unit length in fixed point
    let cd = intersect_circle_circle(v(0, 0), 1000, v(900, 900), 500).unwrap();
    let n = cd.collision_normal;
    assert!(n.x > 0 && n.y > 0);
    assert!(n.x * n.x + n.y * n.y <= 1_000_000);
    assert!(n.x * n.x + n.y * n.y > 980_000);
}

#[test]
fn circle_contact_point_lies_one_radius_along_the_centre_line() {
    let p = find_contanct_point(&v(0, 0), 1000, &v(2000, 0));
    assert_eq!(p, v(1000, 0));
    let p = find_contanct_point(&v(0, 0), 1000, &v(0, 1500));
    assert_eq!(p, v(0, 1000));
}

#[test]
fn contact_points_of_two_circles_via_the_dispatcher() {
    let ta = FlatTransform::from_xy(0, 0);
    let tb = FlatTransform::from_xy(1500, 0);
    let ca = Collider::new(Shape::Circle(CircleParams::new(1000)));
    let cb = Collider::new(Shape::Circle(CircleParams::new(1000)));
    let pts = find_contanct_points(&ta, &ca, &tb, &cb);
    assert_eq!(pts.len(), 1);
    assert_eq!(pts[0], v(1000, 0));
}

#[test]
fn contact_point_of_box_and_circle() {
    let tbox = FlatTransform::from_xy(0, 0);
    let tcircle = FlatTransform::from_xy(0, 1500);
    let cbox = Collider::new(Shape::Box(BoxParams::new(2000, 2000)));
    let ccircle = Collider::new(Shape::Circle(CircleParams::new(1000)));
    let pts = find_contanct_points(&tbox, &cbox, &tcircle, &ccircle);
    assert_eq!(pts.len(), 1);
    assert_eq!(pts[0], v(0, 1000));
}

#[test]
fn flat_edge_contact_of_two_boxes_gives_two_points() {
    let ta = FlatTransform::from_xy(0, 0);
    let tb = FlatTransform::from_xy(1000, 0);
    let ca = Collider::new(Shape::Box(BoxParams::new(2000, 2000)));
    let cb = Collider::new(Shape::Box(BoxParams::new(2000, 2000)));
    let pts = find_contanct_points(&ta, &ca, &tb, &cb);
    assert_eq!(pts.len(), 2);
    assert_eq!(pts[0], v(1000, 1000));
    assert_eq!(pts[1], v(0, -1000));
}

#[test]
fn movement_and_rotation_events_shift_the_transform() {
    let mut t = FlatTransform::from_xy(10, 20);
    on_move_flat_body(&mut t, &MoveFlatBody { entity: 0, amount: v(5, -7) });
    assert_eq!(t.translation, v(15, 13));
    on_rotate_flat_body(&mut t, &RotateFlatBody { entity: 0, amount: 90_000 });
    assert_eq!(t.rotation, 90_000);
}

#[test]
fn integration_is_semi_implicit_and_clears_force() {
    let mut t = FlatTransform::from_xy(0, 0);
    let mut b = FlatBody::new(1, FlatBodyType::Dynamic, 500);
    b.force = v(100, 100);
    let gravity = v(0, -10_000);
    handle_physics_step(&mut t, &mut b, &gravity, 1000);
    assert_eq!(b.linear_velocity, v(0, -10_000));
    assert_eq!(t.translation, v(0, -10_000));
    assert_eq!(b.force, v(0, 0));
}

#[test]
fn angular_velocity_turns_the_orientation() {
    let mut t = FlatTransform::from_xy(0, 0);
    let mut b = FlatBody::new(1, FlatBodyType::Dynamic, 500);
    b.angular_velocity = 45_000;
    handle_physics_step(&mut t, &mut b, &v(0, 0), 2000);
    assert_eq!(t.rotation, 90_000);
}

#[test]
fn coincident_circles_are_guarded_as_no_collision() {
    assert!(intersect_circle_circle(v(500, 500), 1000, v(500, 500), 1000).is_none());
}

#[test]
fn saturation_clamps_runaway_moves_into_the_simulation_range() {
    let mut t = FlatTransform::from_xy(1_999_999_000, 0);
    on_move_flat_body(&mut t, &MoveFlatBody { entity: 0, amount: v(5_000_000, 0) });
    assert_eq!(t.translation.x, 2_000_000_000);
}

#[test]
fn integration_leaves_a_static_body_unchanged() {
    let mut t = FlatTransform::from_xy(10, 20);
    let mut b = FlatBody::new(1, FlatBodyType::Static, 500);
    b.force = v(5, 5);
    handle_physics_step(&mut t, &mut b, &v(0, -10_000), 1000);
    assert_eq!(t.translation, v(10, 20));
    assert_eq!(b.linear_velocity, v(0, 0));
    assert_eq!(b.angular_velocity, 0);
    assert_eq!(b.force, v(5, 5));
}
