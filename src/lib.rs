//! A Monte Carlo path tracer over spheres, computed in fixed-point arithmetic.
//!
//! Every length, coordinate, colour channel and ray parameter is an integer
//! count of `1 / SCALE` units, so the geometry is exact integer arithmetic
//! whose rounding and saturation are stated in the contracts.

pub mod camera;
pub mod colour;
pub mod error;
pub mod fixed;
pub mod hittable;
pub mod material;
pub mod ray;
pub mod render;
mod sampling;
pub mod vec3d;
