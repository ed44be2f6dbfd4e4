//! Rays: a half-line from an origin along a direction.

use vstd::prelude::*;
use crate::vec3d::{add_spec, scale_spec, Point3D, Vec3D};

verus! {

/// A ray `origin + t * direction`; the direction need not be normalised.
#[derive(Debug, Clone, Copy, PartialEq, Eq, Structural)]
pub struct Ray {
    pub origin: Point3D,
    pub direction: Vec3D,
    /// The moment at which the ray is cast; geometry does not read it.
    pub time: i64,
}

/// The point at parameter `t` along the ray.
pub open spec fn at_spec(r: Ray, t: int) -> Point3D {
    add_spec(r.origin, scale_spec(r.direction, t))
}

impl Ray {
    pub fn new(origin: Point3D, direction: Vec3D, time: i64) -> (r: Ray)
        ensures
            r == (Ray { origin, direction, time }),
    {
        Ray { origin, direction, time }
    }

    pub fn origin(&self) -> (r: Point3D)
        ensures
            r == self.origin,
    {
        self.origin
    }

    pub fn direction(&self) -> (r: Vec3D)
        ensures
            r == self.direction,
    {
        self.direction
    }

    pub fn time(&self) -> (r: i64)
        ensures
            r == self.time,
    {
        self.time
    }

    /// The point `origin + direction * t`.
    pub fn at(&self, t: i64) -> (r: Point3D)
        ensures
            r == at_spec(*self, t as int),
    {
        self.origin.add(&self.direction.scale(t))
    }
}

} // verus!
