use flat_physics::collisions::{CollisionDetails, Collider, Shape};
use flat_physics::flat_aabb::FlatAABB;
use flat_physics::flat_body::{BoxParams, FlatBody, FlatBodyType};
use flat_physics::flat_manifold::FlatManifold;
use flat_physics::helpers::{get_global_vertices, to_vec2, to_vec3};
use flat_physics::transform::FlatTransform;
use flat_physics::vec2::{FlatVec2, FlatVec3};

fn v(x: i64, y: i64) -> FlatVec2 {
    FlatVec2 { x, y }
}

#[test]
fn vector_arithmetic_is_componentwise() {
    let a = v(3, -4);
    let b = v(10, 2);
    assert_eq!(a.plus(b), v(13, -2));
    assert_eq!(a.minus(b), v(-7, -6));
    assert_eq!(a.neg(), v(-3, 4));
    assert_eq!(a.perp(), v(4, 3));
    assert_eq!(a.dot_wide(b), 22);
    assert_eq!(a.cross_wide(b), 46);
    assert_eq!(a.length_squared(), 25);
    assert_eq!(a.distance_squared(b), 85);
}

#[test]
fn transform_translation_round_trips_through_three_components() {
    let three = FlatVec3 { x: 7, y: 8, z: 9 };
    let two = to_vec2(&three);
    assert_eq!(two, v(7, 8));
    let lifted = to_vec3(&two);
    assert_eq!((lifted.x, lifted.y, lifted.z), (7, 8, 0));
}

#[test]
fn world_vertices_are_rotated_then_translated() {
    let bp = BoxParams::new(2000, 1000);
    let t = FlatTransform { translation: v(100, 200), rotation: 0 };
    let w = get_global_vertices(&t, &bp.verticies);
    assert_eq!(w[0], v(-900, 700));
    assert_eq!(w[2], v(1100, -300));
    let t = FlatTransform { translation: v(0, 0), rotation: 90_000 };
    let w = get_global_vertices(&t, &bp.verticies);
    // a quarter turn carries (x, y) to (-y, x)
    assert_eq!(w[0], v(-500, -1000));
    assert_eq!(w[1], v(-500, 1000));
}

#[test]
fn default_shape_is_the_degenerate_box() {
    let s = Shape::default();
    match s {
        Shape::Box(bp) => {
            assert_eq!(bp.width, 0);
            assert_eq!(bp.height, 0);
            assert_eq!(bp.area, 0);
        },
        Shape::Circle(_) => panic!("expected a box"),
    }
}

#[test]
fn collider_tracks_its_stale_flag() {
    let mut c = Collider::new(Shape::Box(BoxParams::new(2000, 2000)));
    assert!(!c.update_aabb);
    c.update_aabb();
    assert!(c.update_aabb);
    let t = FlatTransform::from_xy(0, 0);
    c.get_aabb(&t);
    assert!(!c.update_aabb);
}

#[test]
fn body_reciprocals_match_the_kind() {
    let b = FlatBody::new(4, FlatBodyType::Dynamic, 250);
    assert_eq!(*b.mass(), 4);
    assert_eq!(*b.inv_mass(), 250_000);
    let s = FlatBody::new(4, FlatBodyType::Static, 250);
    assert_eq!(*s.inv_mass(), 0);
}

#[test]
fn a_manifold_carries_the_pair_and_its_collision() {
    let m = FlatManifold {
        transform_a: FlatTransform::from_xy(0, 0),
        transform_b: FlatTransform::from_xy(1500, 0),
        flat_body_a: FlatBody::new(1, FlatBodyType::Dynamic, 500),
        flat_body_b: FlatBody::new(1, FlatBodyType::Dynamic, 500),
        collision_info: CollisionDetails {
            penetration_depth: 500,
            collision_normal: v(1000, 0),
        },
    };
    assert_eq!(m.collision_info.penetration_depth, 500);
    assert_eq!(m.transform_b.translation.x - m.transform_a.translation.x, 1500);
    let aabb = FlatAABB::new(-1, -2, 3, 4);
    assert_eq!((aabb.min.x, aabb.max.y), (-1, 4));
}
