//! The camera: maps points of the image plane to rays, with a thin lens.

use vstd::prelude::*;
use crate::error::SceneError;
use crate::fixed::{fmul, tdiv, SCALE};
use crate::ray::Ray;
use crate::vec3d::{
    add_spec, bounded, cross_spec, lemma_product_bound, div_spec, is_zero, len_sq_raw, length_spec, scale_spec, sub_spec, unit_spec,
    Point3D, Vec3D,
};

verus! {

/// A camera with its viewport precomputed in world space.
#[derive(Debug, Clone, Copy, PartialEq, Eq, Structural)]
pub struct Camera {
    /// The eye, the centre of the lens.
    pub origin: Point3D,
    /// The width of the viewport on the focus plane.
    pub horizontal: Vec3D,
    /// The height of the viewport on the focus plane.
    pub vertical: Vec3D,
    pub lower_left_corner: Point3D,
    /// The unit vector to the right of the view.
    pub u: Vec3D,
    /// The unit vector up the view.
    pub v: Vec3D,
    /// The unit vector from the target back to the eye.
    pub w: Vec3D,
    pub lens_radius: i64,
}

/// The exact cross product of `a` and `b` is zero: they are colinear.
pub open spec fn colinear(a: Vec3D, b: Vec3D) -> bool {
    &&& a.y * b.z - a.z * b.y == 0
    &&& a.z * b.x - a.x * b.z == 0
    &&& a.x * b.y - a.y * b.x == 0
}

/// No orthonormal basis exists: the eye is the target, the view runs along
/// the up vector, or so nearly along it that the rounded sideways direction
/// vanishes.
pub open spec fn degenerate_view(origin: Point3D, lookat: Point3D, v_up: Vec3D) -> bool {
    ||| is_zero(sub_spec(origin, lookat))
    ||| colinear(v_up, sub_spec(origin, lookat))
    ||| is_zero(cross_spec(v_up, unit_spec(sub_spec(origin, lookat))))
}

/// The camera at `origin` looking at `lookat`, focused at distance `focus`,
/// with `v_up` upward; `tan_half_fov` is the tangent of half the vertical
/// field of view.
pub open spec fn camera_spec(
    origin: Point3D,
    lookat: Point3D,
    v_up: Vec3D,
    tan_half_fov: int,
    aspect_ratio: int,
    aperture: int,
    focus: int,
) -> Camera {
    let height = 2 * tan_half_fov;
    let width = fmul(aspect_ratio, height);
    let w = unit_spec(sub_spec(origin, lookat));
    let u = unit_spec(cross_spec(v_up, w));
    let v = cross_spec(w, u);
    let horizontal = scale_spec(scale_spec(u, width), focus);
    let vertical = scale_spec(scale_spec(v, height), focus);
    let two = 2 * SCALE;
    let lower_left_corner = sub_spec(
        sub_spec(sub_spec(origin, div_spec(horizontal, two)), div_spec(vertical, two)),
        scale_spec(w, focus),
    );
    Camera { origin, horizontal, vertical, lower_left_corner, u, v, w, lens_radius: tdiv(aperture, 2) as i64 }
}

/// The ray through the image-plane point `(s, t)`, from the point of the
/// lens that `disk`, a point of the unit disk, selects.
pub open spec fn get_ray_spec(c: Camera, s: int, t: int, disk: Vec3D) -> Ray {
    let rd = scale_spec(disk, c.lens_radius as int);
    let offset = add_spec(scale_spec(c.u, rd.x as int), scale_spec(c.v, rd.y as int));
    let target = add_spec(add_spec(c.lower_left_corner, scale_spec(c.horizontal, s)), scale_spec(c.vertical, t));
    Ray {
        origin: add_spec(c.origin, offset),
        direction: sub_spec(sub_spec(target, c.origin), offset),
        time: 0,
    }
}

impl Camera {
    /// A camera at `origin` looking at `lookat` with `v_up` upward, focused at
    /// the distance of `lookat`. `tan_half_fov` is the tangent of half the
    /// vertical field of view, `aspect_ratio` the width over the height, and
    /// `aperture` the diameter of the lens (zero for a pinhole).
    pub fn new(
        origin: Point3D,
        lookat: Point3D,
        v_up: Vec3D,
        tan_half_fov: i32,
        aspect_ratio: i32,
        aperture: i32,
    ) -> (r: Result<Camera, SceneError>)
        requires
            bounded(origin),
            bounded(lookat),
            bounded(v_up),
        ensures
            degenerate_view(origin, lookat, v_up) ==> r == Err::<Camera, SceneError>(SceneError::DegenerateView),
            !degenerate_view(origin, lookat, v_up) ==> r == Ok::<Camera, SceneError>(
                camera_spec(
                    origin,
                    lookat,
                    v_up,
                    tan_half_fov as int,
                    aspect_ratio as int,
                    aperture as int,
                    length_spec(sub_spec(origin, lookat)),
                ),
            ),
    {
        let focus = origin.sub(&lookat).length();
        Camera::with_focus(origin, lookat, v_up, tan_half_fov, aspect_ratio, aperture, focus)
    }

    /// As `new`, but focused at distance `focus_dist` along the view.
    pub fn with_focus(
        origin: Point3D,
        lookat: Point3D,
        v_up: Vec3D,
        tan_half_fov: i32,
        aspect_ratio: i32,
        aperture: i32,
        focus_dist: i64,
    ) -> (r: Result<Camera, SceneError>)
        requires
            bounded(origin),
            bounded(lookat),
            bounded(v_up),
        ensures
            degenerate_view(origin, lookat, v_up) ==> r == Err::<Camera, SceneError>(SceneError::DegenerateView),
            !degenerate_view(origin, lookat, v_up) ==> r == Ok::<Camera, SceneError>(
                camera_spec(
                    origin,
                    lookat,
                    v_up,
                    tan_half_fov as int,
                    aspect_ratio as int,
                    aperture as int,
                    focus_dist as int,
                ),
            ),
    {
        let back = origin.sub(&lookat);
        if back.x == 0 && back.y == 0 && back.z == 0 {
            return Err(SceneError::DegenerateView);
        }
        if is_colinear(&v_up, &back) {
            return Err(SceneError::DegenerateView);
        }
        let w = back.unit_vector();
        let side = v_up.cross(&w);
        if side.x == 0 && side.y == 0 && side.z == 0 {
            return Err(SceneError::DegenerateView);
        }
        let u = side.unit_vector();
        let v = w.cross(&u);
        let height = 2 * tan_half_fov as i64;
        assert(-0x8000_0000_0000_0000 <= aspect_ratio * height <= 0x8000_0000_0000_0000) by (nonlinear_arith)
            requires
                -0x8000_0000 <= aspect_ratio <= 0x8000_0000,
                -0x1_0000_0000 <= height <= 0x1_0000_0000,
        ;
        let width = crate::fixed::tdiv_wide(aspect_ratio as i128 * height as i128, SCALE as i128) as i64;
        let focus = focus_dist;
        let horizontal = u.scale(width).scale(focus);
        let vertical = v.scale(height).scale(focus);
        let two = 2 * SCALE as i64;
        let lower_left_corner = origin.sub(&horizontal.div_scalar(two)).sub(&vertical.div_scalar(two)).sub(
            &w.scale(focus),
        );
        let lens_radius = crate::fixed::tdiv_wide(aperture as i128, 2) as i64;
        Ok(Camera { origin, horizontal, vertical, lower_left_corner, u, v, w, lens_radius })
    }

    /// The ray through `(s, t)` from the point of the lens that `disk`, a
    /// point of the unit disk, selects.
    pub fn get_ray_with(&self, s: i64, t: i64, disk: &Vec3D) -> (r: Ray)
        ensures
            r == get_ray_spec(*self, s as int, t as int, *disk),
    {
        let rd = disk.scale(self.lens_radius);
        let offset = self.u.scale(rd.x as i64).add(&self.v.scale(rd.y as i64));
        let target = self.lower_left_corner.add(&self.horizontal.scale(s)).add(&self.vertical.scale(t));
        Ray { origin: self.origin.add(&offset), direction: target.sub(&self.origin).sub(&offset), time: 0 }
    }

    /// The ray through the image-plane point `(s, t)`, `(0, 0)` the lower
    /// left corner and `(1, 1)` the upper right, from a random point of the
    /// lens.
    pub fn get_ray(&self, s: i64, t: i64) -> (r: Ray)
        ensures
            exists|disk: Vec3D|
                len_sq_raw(disk) < SCALE * SCALE && bounded(disk) && r == get_ray_spec(*self, s as int, t as int, disk),
    {
        let disk = Vec3D::random_in_unit_disk();
        self.get_ray_with(s, t, &disk)
    }
}

/// Whether the exact cross product of `a` and `b` is zero.
fn is_colinear(a: &Vec3D, b: &Vec3D) -> (r: bool)
    ensures
        r == colinear(*a, *b),
{
    let (ax, ay, az) = (a.x as i128, a.y as i128, a.z as i128);
    let (bx, by, bz) = (b.x as i128, b.y as i128, b.z as i128);
    proof {
        lemma_product_bound(ax as int, bz as int);
        lemma_product_bound(ax as int, by as int);
        lemma_product_bound(ay as int, bx as int);
        lemma_product_bound(ay as int, bz as int);
        lemma_product_bound(az as int, bx as int);
        lemma_product_bound(az as int, by as int);
    }
    ay * bz - az * by == 0 && az * bx - ax * bz == 0 && ax * by - ay * bx == 0
}

/// A pinhole camera casts every ray from the eye, and the ray through a given
/// image-plane point does not depend on the random lens point.
pub proof fn lemma_pinhole_rays(c: Camera, s: int, t: int, d1: Vec3D, d2: Vec3D)
    requires
        c.lens_radius == 0,
        bounded(c.origin),
    ensures
        get_ray_spec(c, s, t, d1).origin == c.origin,
        get_ray_spec(c, s, t, d1) == get_ray_spec(c, s, t, d2),
{
    let zero = Vec3D { x: 0, y: 0, z: 0 };
    assert(scale_spec(d1, 0) == zero);
    assert(scale_spec(d2, 0) == zero);
    assert(scale_spec(c.u, 0) == zero);
    assert(scale_spec(c.v, 0) == zero);
    assert(add_spec(zero, zero) == zero);
}

} // verus!
