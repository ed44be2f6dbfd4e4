//! Errors in the description of a scene.

use vstd::prelude::*;

verus! {

/// Why a scene element was rejected at construction.
#[derive(Debug, Clone, Copy, PartialEq, Eq, Structural)]
pub enum SceneError {
    /// A sphere's radius is zero or negative.
    NonPositiveRadius,
    /// A metal's fuzziness lies outside `[0, 1]`, or a dielectric's
    /// refractive index is not positive.
    InvalidMaterial,
    /// The camera looks at its own position, or along its up vector, so no
    /// orthonormal basis exists.
    DegenerateView,
}

} // verus!
