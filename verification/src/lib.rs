//! Core of a 2D rigid-body physics simulation: broad-phase pruning,
//! narrow-phase convex collision detection (oriented boxes and circles),
//! contact-manifold construction, and an iterative impulse-based velocity
//! solver with restitution and Coulomb friction, driven by a fixed-timestep
//! semi-implicit integrator.
//!
//! All quantities are fixed-point integers: lengths and positions are held in
//! milliunits (1000 = one world unit), unit vectors and dimensionless ratios
//! are scaled by `UNIT`, and time is held in milliseconds.
use vstd::prelude::*;

pub mod collisions;
pub mod flat_aabb;
pub mod flat_body;
pub mod flat_manifold;
pub mod flat_world;
pub mod laws;
pub mod helpers;
pub mod math;
pub mod transform;
pub mod vec2;

verus! {

} // verus!
