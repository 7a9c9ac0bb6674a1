//! The contact manifold record a colliding pair produces: both placements,
//! both dynamic states and the collision's normal and depth.
use vstd::prelude::*;
use crate::collisions::CollisionDetails;
use crate::flat_body::FlatBody;
use crate::transform::FlatTransform;

verus! {

/// Everything the velocity solver needs about one colliding pair.
pub struct FlatManifold {
    pub transform_a: FlatTransform,
    pub transform_b: FlatTransform,
    pub flat_body_a: FlatBody,
    pub flat_body_b: FlatBody,
    pub collision_info: CollisionDetails,
}

} // verus!
