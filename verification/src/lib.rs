//! A Monte Carlo path tracer over fixed-point arithmetic.
//!
//! Geometry, colors and scalars are carried as `i64` values scaled by
//! 2^16, so every arithmetic step has an exact, machine-checked meaning.

pub mod camera;
pub mod fixed;
pub mod hittable;
pub mod material;
pub mod ray;
pub mod renderer;
pub mod rng;
pub mod vec3;

use vstd::prelude::*;

verus! {

/// Why a scene or camera configuration was rejected at construction.
#[derive(Clone, Copy, Debug, PartialEq, Eq, Structural)]
pub enum ConfigError {
    /// A sphere's geometry or material is out of bounds.
    InvalidSphere,
    /// The camera looks at its own position.
    DegenerateView,
    /// The view-up vector is parallel to the view axis.
    DegenerateBasis,
    /// The image-plane spans leave the supported coordinate range.
    InvalidParameter,
}

} // verus!
