//! Ray-object intersection: spheres and lists of spheres.

use vstd::prelude::*;
use crate::error::SceneError;
use crate::fixed::{fmul, isqrt, isqrt_wide, lemma_isqrt, tdiv, tdiv_wide, LIMIT, SCALE};
use crate::material::Material;
use crate::ray::{at_spec, Ray};
use crate::sampling::random_range;
use crate::vec3d::{
    add_spec, bounded, unit_spec, lemma_unit_bounded, lemma_unit_length, is_zero, length_spec, scale_spec, dot_raw, len_sq_raw, lemma_neg_exact, lemma_product_bound, neg_spec, sub_spec, Point3D, Vec3D,
};

verus! {

/// Where a ray meets a surface.
#[derive(Debug, Clone, Copy, PartialEq, Eq, Structural)]
pub struct HitRecord {
    /// The point of intersection.
    pub p: Point3D,
    /// The ray parameter of the intersection.
    pub t: i64,
    /// The surface normal, turned to face the incoming ray.
    pub normal: Vec3D,
    /// Whether the ray meets the surface from outside.
    pub front_face: bool,
}

/// The ray meets the surface from outside when it runs against the outward normal.
pub open spec fn faces_front(r: Ray, outward: Vec3D) -> bool {
    dot_raw(r.direction, outward) < 0
}

/// The outward normal turned against the ray.
pub open spec fn facing_normal(r: Ray, outward: Vec3D) -> Vec3D {
    if faces_front(r, outward) {
        outward
    } else {
        neg_spec(outward)
    }
}

impl HitRecord {
    /// Sets the normal from the outward normal, turned to face the ray, and
    /// records on which side the ray arrived. The outward normal lies within
    /// the saturation bound, so that turning it is exact.
    pub fn set_normal_face(&mut self, r: &Ray, outward_normal: &Vec3D)
        requires
            bounded(*outward_normal),
        ensures
            final(self).front_face == faces_front(*r, *outward_normal),
            final(self).normal == facing_normal(*r, *outward_normal),
            final(self).p == old(self).p,
            final(self).t == old(self).t,
            dot_raw(final(self).normal, r.direction) <= 0,
    {
        let o = *outward_normal;
        let dot = r.direction.dot_raw(&o);
        self.front_face = dot < 0;
        self.normal = if self.front_face {
            o
        } else {
            o.neg()
        };
        proof {
            lemma_dot_swap(r.direction, o);
            lemma_neg_exact(o, r.direction);
        }
    }

    pub fn p(&self) -> (r: Point3D)
        ensures
            r == self.p,
    {
        self.p
    }

    pub fn t(&self) -> (r: i64)
        ensures
            r == self.t,
    {
        self.t
    }

    pub fn normal(&self) -> (r: Vec3D)
        ensures
            r == self.normal,
    {
        self.normal
    }

    pub fn front_face(&self) -> (r: bool)
        ensures
            r == self.front_face,
    {
        self.front_face
    }
}

proof fn lemma_dot_swap(a: Vec3D, b: Vec3D)
    ensures
        dot_raw(a, b) == dot_raw(b, a),
{
    assert(dot_raw(a, b) == dot_raw(b, a)) by (nonlinear_arith);
}

/// Anything a ray can meet.
pub trait Hittable {
    /// The hit of the ray within `(t_min, t_max)`: the record and the
    /// material at the nearest intersection, or none.
    spec fn hit_spec(&self, r: Ray, t_min: int, t_max: int) -> Option<(HitRecord, Material)>;

    /// The nearest intersection of the ray within `(t_min, t_max)`.
    fn hit(&self, r: &Ray, t_min: i64, t_max: i64) -> (res: Option<(HitRecord, Material)>)
        ensures
            res == self.hit_spec(*r, t_min as int, t_max as int),
    ;
}

/// A sphere with the material of its surface.
#[derive(Debug, Clone, Copy, PartialEq, Eq, Structural)]
pub struct Sphere {
    pub center: Point3D,
    pub radius: i32,
    pub material: Material,
}

/// The coefficients of `a t^2 + 2 half_b t + c = 0`, whose roots are where
/// the ray meets the sphere, in raw units squared.
pub open spec fn quad_a(r: Ray) -> int {
    len_sq_raw(r.direction)
}

pub open spec fn quad_half_b(s: Sphere, r: Ray) -> int {
    dot_raw(r.direction, sub_spec(r.origin, s.center))
}

pub open spec fn quad_c(s: Sphere, r: Ray) -> int {
    len_sq_raw(sub_spec(r.origin, s.center)) - s.radius * s.radius
}

pub open spec fn discriminant(s: Sphere, r: Ray) -> int {
    quad_half_b(s, r) * quad_half_b(s, r) - quad_a(r) * quad_c(s, r)
}

/// The nearer root, as a ray parameter.
pub open spec fn near_root(s: Sphere, r: Ray) -> int {
    tdiv((-quad_half_b(s, r) - isqrt(discriminant(s, r))) * SCALE, quad_a(r))
}

/// The farther root, as a ray parameter.
pub open spec fn far_root(s: Sphere, r: Ray) -> int {
    tdiv((-quad_half_b(s, r) + isqrt(discriminant(s, r))) * SCALE, quad_a(r))
}

/// The outward unit normal of the sphere at `p`: the direction from the
/// centre to `p`, normalised.
pub open spec fn outward_normal(s: Sphere, p: Point3D) -> Vec3D {
    unit_spec(sub_spec(p, s.center))
}

/// The record of the sphere's intersection with the ray at parameter `t`.
pub open spec fn record_at(s: Sphere, r: Ray, t: int) -> HitRecord {
    let p = at_spec(r, t);
    let outward = outward_normal(s, p);
    HitRecord {
        p,
        t: t as i64,
        normal: facing_normal(r, outward),
        front_face: faces_front(r, outward),
    }
}

/// The first root in `(t_min, t_max)`, in ascending order, with the sphere's
/// material; none where the ray misses, touches, or meets the sphere only
/// outside the range.
pub open spec fn sphere_hit_spec(s: Sphere, r: Ray, t_min: int, t_max: int) -> Option<(HitRecord, Material)> {
    if s.radius <= 0 || discriminant(s, r) <= 0 {
        None
    } else if t_min < near_root(s, r) < t_max {
        Some((record_at(s, r, near_root(s, r)), s.material))
    } else if t_min < far_root(s, r) < t_max {
        Some((record_at(s, r, far_root(s, r)), s.material))
    } else {
        None
    }
}

impl Sphere {
    /// A sphere; rejects a radius that is not positive and a material whose
    /// parameters are out of range.
    pub fn new(center: Point3D, radius: i32, material: Material) -> (r: Result<Sphere, SceneError>)
        ensures
            radius <= 0 ==> r == Err::<Sphere, SceneError>(SceneError::NonPositiveRadius),
            radius > 0 && !material.valid() ==> r == Err::<Sphere, SceneError>(SceneError::InvalidMaterial),
            radius > 0 && material.valid() ==> r == Ok::<Sphere, SceneError>(Sphere { center, radius, material }),
    {
        if radius <= 0 {
            Err(SceneError::NonPositiveRadius)
        } else if !material.is_valid() {
            Err(SceneError::InvalidMaterial)
        } else {
            Ok(Sphere { center, radius, material })
        }
    }

    fn record(&self, r: &Ray, t: i64) -> (rec: HitRecord)
        requires
            self.radius > 0,
        ensures
            rec == record_at(*self, *r, t as int),
    {
        let p = r.at(t);
        let outward = p.sub(&self.center).unit_vector();
        proof {
            lemma_unit_bounded(sub_spec(p, self.center));
        }
        let mut rec = HitRecord { p, t, normal: outward, front_face: true };
        rec.set_normal_face(r, &outward);
        rec
    }
}

impl Hittable for Sphere {
    open spec fn hit_spec(&self, r: Ray, t_min: int, t_max: int) -> Option<(HitRecord, Material)> {
        sphere_hit_spec(*self, r, t_min, t_max)
    }

    /// The intersection of the ray with the sphere nearest along the ray
    /// within `(t_min, t_max)`.
    fn hit(&self, r: &Ray, t_min: i64, t_max: i64) -> (res: Option<(HitRecord, Material)>)
        ensures
            res == self.hit_spec(*r, t_min as int, t_max as int),
    {
        if self.radius <= 0 {
            return None;
        }
        let sep = r.origin.sub(&self.center);
        let rad = self.radius as i128;
        proof {
            lemma_quad_bounds(*self, *r);
            lemma_product_bound(rad as int, rad as int);
        }
        let a = r.direction.length_squared_raw();
        let half_b = r.direction.dot_raw(&sep);
        let c = sep.length_squared_raw() - rad * rad;
        assert(a == quad_a(*r) && half_b == quad_half_b(*self, *r) && c == quad_c(*self, *r));
        let disc = half_b * half_b - a * c;
        if disc <= 0 {
            return None;
        }
        let root = isqrt_wide(disc as u128) as i128;
        proof {
            crate::fixed::lemma_root_below(disc as int, root as int, 0x1_0000_0000_0000_0000);
            lemma_a_positive(*self, *r);
        }
        let w = SCALE as i128;
        let near = tdiv_wide((-half_b - root) * w, a);
        if (t_min as i128) < near && near < t_max as i128 {
            let t = near as i64;
            return Some((self.record(r, t), self.material));
        }
        let far = tdiv_wide((-half_b + root) * w, a);
        if (t_min as i128) < far && far < t_max as i128 {
            let t = far as i64;
            return Some((self.record(r, t), self.material));
        }
        None
    }
}

/// The nearest intersection among the first objects: each object is tested
/// within `(t_min, closest)`, where `closest` is the parameter of the best hit
/// so far, so a later object replaces it only when strictly nearer.
pub open spec fn list_hit_spec(objects: Seq<Sphere>, r: Ray, t_min: int, t_max: int) -> Option<(HitRecord, Material)>
    decreases objects.len(),
{
    if objects.len() == 0 {
        None
    } else {
        let prev = list_hit_spec(objects.drop_last(), r, t_min, t_max);
        let closest = match prev {
            Some(h) => h.0.t as int,
            None => t_max,
        };
        match sphere_hit_spec(objects.last(), r, t_min, closest) {
            Some(h) => Some(h),
            None => prev,
        }
    }
}

/// A scene: a collection of spheres searched one by one.
pub struct HittableList {
    pub objects: Vec<Sphere>,
}

impl HittableList {
    pub open spec fn view(&self) -> Seq<Sphere> {
        self.objects@
    }

    pub fn new(objects: Vec<Sphere>) -> (r: HittableList)
        ensures
            r@ == objects@,
    {
        HittableList { objects }
    }

    pub fn add(&mut self, object: Sphere)
        ensures
            final(self)@ == old(self)@.push(object),
    {
        self.objects.push(object);
    }

    pub fn clear(&mut self)
        ensures
            final(self)@ == Seq::<Sphere>::empty(),
    {
        self.objects.clear();
    }
}

impl Hittable for HittableList {
    open spec fn hit_spec(&self, r: Ray, t_min: int, t_max: int) -> Option<(HitRecord, Material)> {
        list_hit_spec(self@, r, t_min, t_max)
    }

    /// The nearest intersection of the ray with any object within
    /// `(t_min, t_max)`; on equal parameters the earlier object wins.
    fn hit(&self, r: &Ray, t_min: i64, t_max: i64) -> (res: Option<(HitRecord, Material)>)
        ensures
            res == self.hit_spec(*r, t_min as int, t_max as int),
    {
        let mut best: Option<(HitRecord, Material)> = None;
        let mut closest = t_max;
        let n = self.objects.len();
        let mut i: usize = 0;
        while i < n
            invariant
                n == self@.len(),
                i <= n,
                best == list_hit_spec(self@.take(i as int), *r, t_min as int, t_max as int),
                closest == match best {
                    Some(h) => h.0.t as int,
                    None => t_max as int,
                },
            decreases n - i,
        {
            assert(self@.take(i as int + 1).drop_last() =~= self@.take(i as int));
            assert(self@.take(i as int + 1).last() == self@[i as int]);
            if let Some(h) = self.objects[i].hit(r, t_min, closest) {
                closest = h.0.t;
                best = Some(h);
            }
            i = i + 1;
        }
        assert(self@.take(n as int) =~= self@);
        best
    }
}

/// A hit of the sphere lies strictly inside the searched range.
proof fn lemma_sphere_hit_in_range(s: Sphere, r: Ray, t_min: int, t_max: int)
    requires
        i64::MIN <= t_min,
        t_max <= i64::MAX,
    ensures
        sphere_hit_spec(s, r, t_min, t_max) matches Some(h) ==> t_min < h.0.t < t_max,
{
}

/// Narrowing the range of a sphere's search: a hit within the narrower range
/// implies one within the wider, no farther; a hit of the wider range that
/// lies inside the narrower is found there too.
proof fn lemma_sphere_hit_narrow(s: Sphere, r: Ray, t_min: int, t1: int, t2: int)
    requires
        i64::MIN <= t_min,
        t2 <= t1 <= i64::MAX,
    ensures
        sphere_hit_spec(s, r, t_min, t2) matches Some(h2) ==> (sphere_hit_spec(s, r, t_min, t1) matches Some(h1)
            && h1.0.t <= h2.0.t),
        sphere_hit_spec(s, r, t_min, t1) matches Some(h1) ==> (h1.0.t < t2 ==> sphere_hit_spec(s, r, t_min, t2)
            == Some(h1)),
{
    if s.radius > 0 && discriminant(s, r) > 0 {
        crate::fixed::lemma_isqrt(discriminant(s, r));
        lemma_a_positive(s, r);
        let hb = quad_half_b(s, r);
        let root = isqrt(discriminant(s, r));
        assert((-hb - root) * SCALE <= (-hb + root) * SCALE) by (nonlinear_arith)
            requires
                root >= 0,
        ;
        lemma_tdiv_monotone((-hb - root) * SCALE, (-hb + root) * SCALE, quad_a(r));
    }
}

/// A hit that the search of a list accepts lies strictly inside the range.
proof fn lemma_list_hit_in_range(objects: Seq<Sphere>, r: Ray, t_min: int, t_max: int)
    requires
        i64::MIN <= t_min,
        t_max <= i64::MAX,
    ensures
        list_hit_spec(objects, r, t_min, t_max) matches Some(h) ==> t_min < h.0.t < t_max,
    decreases objects.len(),
{
    if objects.len() > 0 {
        let prev = list_hit_spec(objects.drop_last(), r, t_min, t_max);
        lemma_list_hit_in_range(objects.drop_last(), r, t_min, t_max);
        let closest = match prev {
            Some(h) => h.0.t as int,
            None => t_max,
        };
        lemma_sphere_hit_in_range(objects.last(), r, t_min, closest);
    }
}

/// The search of a list finds the nearest hit: whenever one of the objects
/// is hit within `(t_min, t_max)`, the list is hit too, at a parameter no
/// larger.
pub proof fn lemma_list_hit_nearest(objects: Seq<Sphere>, r: Ray, t_min: i64, t_max: i64, i: int)
    requires
        0 <= i < objects.len(),
    ensures
        sphere_hit_spec(objects[i], r, t_min as int, t_max as int) matches Some(g) ==> (list_hit_spec(
            objects,
            r,
            t_min as int,
            t_max as int,
        ) matches Some(h) && h.0.t <= g.0.t),
    decreases objects.len(),
{
    let (lo, hi) = (t_min as int, t_max as int);
    let rest = objects.drop_last();
    let prev = list_hit_spec(rest, r, lo, hi);
    let closest = match prev {
        Some(h) => h.0.t as int,
        None => hi,
    };
    lemma_list_hit_in_range(rest, r, lo, hi);
    lemma_sphere_hit_in_range(objects.last(), r, lo, closest);
    lemma_sphere_hit_in_range(objects[i], r, lo, hi);
    lemma_sphere_hit_narrow(objects.last(), r, lo, hi, closest);
    if i < objects.len() - 1 {
        assert(rest[i] == objects[i]);
        lemma_list_hit_nearest(rest, r, t_min, t_max, i);
    } else {
        assert(objects.last() == objects[i]);
    }
}

/// Every accepted hit of a sphere has its normal facing the incoming ray.
pub proof fn lemma_sphere_normal_faces_ray(s: Sphere, r: Ray, t_min: int, t_max: int)
    ensures
        sphere_hit_spec(s, r, t_min, t_max) matches Some(h) ==> dot_raw(h.0.normal, r.direction) <= 0,
{
    if let Some(h) = sphere_hit_spec(s, r, t_min, t_max) {
        let outward = outward_normal(s, h.0.p);
        lemma_unit_bounded(sub_spec(h.0.p, s.center));
        lemma_dot_swap(r.direction, outward);
        lemma_neg_exact(outward, r.direction);
    }
}

/// The normal of an accepted hit has unit length, up to the rounding of
/// normalisation, unless the hit point coincides with the centre.
pub proof fn lemma_sphere_normal_unit(s: Sphere, r: Ray, t_min: int, t_max: int)
    ensures
        sphere_hit_spec(s, r, t_min, t_max) matches Some(h) ==> (!is_zero(sub_spec(h.0.p, s.center)) ==> SCALE
            - 4 <= length_spec(h.0.normal) <= SCALE),
{
    if let Some(h) = sphere_hit_spec(s, r, t_min, t_max) {
        let d = sub_spec(h.0.p, s.center);
        if !is_zero(d) {
            let outward = outward_normal(s, h.0.p);
            lemma_unit_length(d);
            lemma_unit_bounded(d);
            lemma_neg_exact(outward, r.direction);
        }
    }
}

/// Every hit that a search of a list accepts has its normal facing the
/// incoming ray.
pub proof fn lemma_list_normal_faces_ray(objects: Seq<Sphere>, r: Ray, t_min: int, t_max: int)
    ensures
        list_hit_spec(objects, r, t_min, t_max) matches Some(h) ==> dot_raw(h.0.normal, r.direction) <= 0,
    decreases objects.len(),
{
    if objects.len() > 0 {
        let prev = list_hit_spec(objects.drop_last(), r, t_min, t_max);
        lemma_list_normal_faces_ray(objects.drop_last(), r, t_min, t_max);
        let closest = match prev {
            Some(h) => h.0.t as int,
            None => t_max,
        };
        lemma_sphere_normal_faces_ray(objects.last(), r, t_min, closest);
    }
}

/// Truncating division by a positive number keeps the order of numerators.
proof fn lemma_tdiv_monotone(a: int, b: int, d: int)
    requires
        a <= b,
        d > 0,
    ensures
        tdiv(a, d) <= tdiv(b, d),
{
    if a >= 0 {
        vstd::arithmetic::div_mod::lemma_div_is_ordered(a, b, d);
    } else if b >= 0 {
        vstd::arithmetic::div_mod::lemma_div_pos_is_pos(-a, d);
        vstd::arithmetic::div_mod::lemma_div_pos_is_pos(b, d);
    } else {
        vstd::arithmetic::div_mod::lemma_div_is_ordered(-b, -a, d);
    }
}

/// A ray from outside a sphere, aimed at its centre (its direction a
/// positive whole multiple `k` of the way to the centre), crosses the surface at
/// two roots, the nearer first; when neither root is cut off by
/// `(t_min, t_max)`, the nearer one is the hit.
pub proof fn lemma_aimed_at_center(s: Sphere, r: Ray, k: int, t_min: int, t_max: int)
    requires
        s.radius > 0,
        k >= 1,
        -LIMIT <= s.center.x - r.origin.x <= LIMIT,
        -LIMIT <= s.center.y - r.origin.y <= LIMIT,
        -LIMIT <= s.center.z - r.origin.z <= LIMIT,
        r.direction.x == k * (s.center.x - r.origin.x),
        r.direction.y == k * (s.center.y - r.origin.y),
        r.direction.z == k * (s.center.z - r.origin.z),
        len_sq_raw(sub_spec(r.origin, s.center)) > s.radius * s.radius,
        t_min < near_root(s, r),
        far_root(s, r) < t_max,
    ensures
        discriminant(s, r) > 0,
        near_root(s, r) <= far_root(s, r),
        sphere_hit_spec(s, r, t_min, t_max) == Some((record_at(s, r, near_root(s, r)), s.material)),
{
    let e = sub_spec(r.origin, s.center);
    let d = r.direction;
    assert(d.x == -k * e.x && d.y == -k * e.y && d.z == -k * e.z) by (nonlinear_arith)
        requires
            d.x == k * (s.center.x - r.origin.x),
            d.y == k * (s.center.y - r.origin.y),
            d.z == k * (s.center.z - r.origin.z),
            e.x == r.origin.x - s.center.x,
            e.y == r.origin.y - s.center.y,
            e.z == r.origin.z - s.center.z,
    ;
    let l = len_sq_raw(e);
    let rr = s.radius * s.radius;
    assert(d.x * e.x == -k * (e.x * e.x)) by (nonlinear_arith)
        requires
            d.x == -k * e.x,
    ;
    assert(d.y * e.y == -k * (e.y * e.y)) by (nonlinear_arith)
        requires
            d.y == -k * e.y,
    ;
    assert(d.z * e.z == -k * (e.z * e.z)) by (nonlinear_arith)
        requires
            d.z == -k * e.z,
    ;
    assert(quad_half_b(s, r) == -k * l) by (nonlinear_arith)
        requires
            quad_half_b(s, r) == d.x * e.x + d.y * e.y + d.z * e.z,
            d.x * e.x == -k * (e.x * e.x),
            d.y * e.y == -k * (e.y * e.y),
            d.z * e.z == -k * (e.z * e.z),
            l == e.x * e.x + e.y * e.y + e.z * e.z,
    ;
    let kk = k * k;
    assert(d.x * d.x == kk * (e.x * e.x)) by (nonlinear_arith)
        requires
            d.x == -k * e.x,
            kk == k * k,
    ;
    assert(d.y * d.y == kk * (e.y * e.y)) by (nonlinear_arith)
        requires
            d.y == -k * e.y,
            kk == k * k,
    ;
    assert(d.z * d.z == kk * (e.z * e.z)) by (nonlinear_arith)
        requires
            d.z == -k * e.z,
            kk == k * k,
    ;
    assert(quad_a(r) == kk * l) by (nonlinear_arith)
        requires
            quad_a(r) == d.x * d.x + d.y * d.y + d.z * d.z,
            d.x * d.x == kk * (e.x * e.x),
            d.y * d.y == kk * (e.y * e.y),
            d.z * d.z == kk * (e.z * e.z),
            l == e.x * e.x + e.y * e.y + e.z * e.z,
    ;
    assert(quad_a(r) == k * k * l);
    assert(discriminant(s, r) == k * k * l * rr) by (nonlinear_arith)
        requires
            discriminant(s, r) == quad_half_b(s, r) * quad_half_b(s, r) - quad_a(r) * quad_c(s, r),
            quad_half_b(s, r) == -k * l,
            quad_a(r) == k * k * l,
            quad_c(s, r) == l - rr,
    ;
    assert(k * k * l * rr > 0) by (nonlinear_arith)
        requires
            l > rr,
            rr == s.radius * s.radius,
            s.radius > 0,
            k >= 1,
    ;
    assert(quad_a(r) > 0) by (nonlinear_arith)
        requires
            quad_a(r) == k * k * l,
            l > 0,
            k >= 1,
    ;
    lemma_isqrt(discriminant(s, r));
    let hb = quad_half_b(s, r);
    let root = isqrt(discriminant(s, r));
    assert((-hb - root) * SCALE <= (-hb + root) * SCALE) by (nonlinear_arith)
        requires
            root >= 0,
    ;
    lemma_tdiv_monotone((-hb - root) * SCALE, (-hb + root) * SCALE, quad_a(r));
}

/// The intersection of a sphere centred at `s.center` with a ray agrees with
/// the intersection of the same sphere moved to the origin with the ray moved
/// by `-s.center`: both hit or both miss, at the same parameter. Where no
/// coordinate of the two hit points saturates, the normals and sides agree
/// and the points differ by `s.center`.
pub proof fn lemma_shift_invariance(s: Sphere, r: Ray, t_min: i64, t_max: i64)
    ensures
        ({
            let s0 = Sphere { center: Vec3D { x: 0, y: 0, z: 0 }, ..s };
            let r0 = Ray { origin: sub_spec(r.origin, s.center), ..r };
            let h = sphere_hit_spec(s, r, t_min as int, t_max as int);
            let h0 = sphere_hit_spec(s0, r0, t_min as int, t_max as int);
            &&& h.is_some() == h0.is_some()
            &&& h matches Some(a) ==> {
                let b = h0.unwrap();
                &&& a.0.t == b.0.t
                &&& a.1 == b.1
                &&& unsaturated(r, s.center, a.0.t as int) ==> {
                    &&& a.0.p == add_spec(b.0.p, s.center)
                    &&& a.0.normal == b.0.normal
                    &&& a.0.front_face == b.0.front_face
                }
            }
        }),
{
    let s0 = Sphere { center: Vec3D { x: 0, y: 0, z: 0 }, ..s };
    let r0 = Ray { origin: sub_spec(r.origin, s.center), ..r };
    lemma_shift_roots(s, r);
    let h = sphere_hit_spec(s, r, t_min as int, t_max as int);
    let h0 = sphere_hit_spec(s0, r0, t_min as int, t_max as int);
    if let Some(a) = h {
        let t = a.0.t as int;
        assert(a.0 == record_at(s, r, t));
        assert(h0 == Some((record_at(s0, r0, t), s.material)));
        if unsaturated(r, s.center, t) {
            lemma_shift_point(r, s.center, t);
            assert(outward_normal(s, at_spec(r, t)) == outward_normal(s0, at_spec(r0, t)));
        }
    }
}

/// Moving the sphere and the ray together leaves the roots unchanged.
proof fn lemma_shift_roots(s: Sphere, r: Ray)
    ensures
        ({
            let s0 = Sphere { center: Vec3D { x: 0, y: 0, z: 0 }, ..s };
            let r0 = Ray { origin: sub_spec(r.origin, s.center), ..r };
            &&& discriminant(s0, r0) == discriminant(s, r)
            &&& near_root(s0, r0) == near_root(s, r)
            &&& far_root(s0, r0) == far_root(s, r)
        }),
{
    let s0 = Sphere { center: Vec3D { x: 0, y: 0, z: 0 }, ..s };
    let r0 = Ray { origin: sub_spec(r.origin, s.center), ..r };
    assert(sub_spec(r0.origin, s0.center) == sub_spec(r.origin, s.center));
}

/// Without saturation, the point at `t` along the moved ray is the point at
/// `t` along the ray, moved.
proof fn lemma_shift_point(r: Ray, c: Vec3D, t: int)
    requires
        unsaturated(r, c, t),
    ensures
        ({
            let r0 = Ray { origin: sub_spec(r.origin, c), ..r };
            &&& sub_spec(at_spec(r, t), c) == at_spec(r0, t)
            &&& sub_spec(at_spec(r0, t), Vec3D { x: 0, y: 0, z: 0 }) == at_spec(r0, t)
            &&& at_spec(r, t) == add_spec(at_spec(r0, t), c)
        }),
{
    let r0 = Ray { origin: sub_spec(r.origin, c), ..r };
    let e = sub_spec(r.origin, c);
    let q = scale_spec(r.direction, t);
    let p = at_spec(r, t);
    let p0 = at_spec(r0, t);
    assert(e == Vec3D { x: (r.origin.x - c.x) as i32, y: (r.origin.y - c.y) as i32, z: (r.origin.z - c.z) as i32 });
    assert(p == Vec3D { x: (r.origin.x + q.x) as i32, y: (r.origin.y + q.y) as i32, z: (r.origin.z + q.z) as i32 });
    assert(p0 == Vec3D { x: (e.x + q.x) as i32, y: (e.y + q.y) as i32, z: (e.z + q.z) as i32 });
}

/// No coordinate saturates on the way to the point at parameter `t` along
/// the ray, nor on the way to the same point moved by `-c`.
pub open spec fn unsaturated(r: Ray, c: Vec3D, t: int) -> bool {
    let q = Vec3D {
        x: fmul(r.direction.x as int, t) as i32,
        y: fmul(r.direction.y as int, t) as i32,
        z: fmul(r.direction.z as int, t) as i32,
    };
    &&& -LIMIT <= fmul(r.direction.x as int, t) <= LIMIT
    &&& -LIMIT <= fmul(r.direction.y as int, t) <= LIMIT
    &&& -LIMIT <= fmul(r.direction.z as int, t) <= LIMIT
    &&& -LIMIT <= r.origin.x - c.x <= LIMIT
    &&& -LIMIT <= r.origin.y - c.y <= LIMIT
    &&& -LIMIT <= r.origin.z - c.z <= LIMIT
    &&& -LIMIT <= r.origin.x + q.x <= LIMIT
    &&& -LIMIT <= r.origin.y + q.y <= LIMIT
    &&& -LIMIT <= r.origin.z + q.z <= LIMIT
    &&& -LIMIT <= r.origin.x - c.x + q.x <= LIMIT
    &&& -LIMIT <= r.origin.y - c.y + q.y <= LIMIT
    &&& -LIMIT <= r.origin.z - c.z + q.z <= LIMIT
}

/// The radius of the ground sphere: 300 units.
pub const GROUND_RADIUS: i32 = 19660800;

/// The sphere that serves as ground in the generated scene.
pub open spec fn ground_sphere() -> Sphere {
    Sphere {
        center: Vec3D { x: 0, y: (-GROUND_RADIUS) as i32, z: 0 },
        radius: GROUND_RADIUS,
        material: Material::Lambertian { albedo: Vec3D { x: 32768, y: 32768, z: 32768 } },
    }
}

/// The three large spheres that stand last in the generated scene: brown
/// diffuse, polished metal and glass, one unit in radius.
pub open spec fn feature_spheres() -> Seq<Sphere> {
    seq![
        Sphere {
            center: Vec3D { x: -262144i32, y: 65536, z: 0 },
            radius: 65536,
            material: Material::Lambertian { albedo: Vec3D { x: 26214, y: 13107, z: 6554 } },
        },
        Sphere {
            center: Vec3D { x: 262144, y: 65536, z: 0 },
            radius: 65536,
            material: Material::Metal { albedo: Vec3D { x: 45875, y: 39322, z: 32768 }, fuzziness: 0 },
        },
        Sphere {
            center: Vec3D { x: 0, y: 65536, z: 0 },
            radius: 65536,
            material: Material::Dielectric { refr_index: 98304 },
        },
    ]
}

/// Every sphere has a positive radius and materials in range.
pub open spec fn spheres_valid(objects: Seq<Sphere>) -> bool {
    forall|i: int| 0 <= i < objects.len() ==> (#[trigger] objects[i]).radius > 0 && objects[i].material.valid()
}

impl HittableList {
    /// A random scene: a ground sphere, up to one small sphere of random
    /// material in each cell of a 22 by 22 grid, resting on the ground and
    /// clear of the metal feature sphere, then the three feature spheres.
    pub fn random_scene() -> (r: HittableList)
        ensures
            spheres_valid(r@),
            484 <= r@.len() <= 488,
            r@[0] == ground_sphere(),
            r@.subrange(r@.len() - 3, r@.len() as int) == feature_spheres(),
            forall|i: int|
                1 <= i < r@.len() - 3 ==> is_cell_sphere(#[trigger] r@[i]) && small_sphere_facts(r@[i]),
    {
        let mut objects: Vec<Sphere> = Vec::new();
        objects.push(
            Sphere {
                center: Vec3D { x: 0, y: -GROUND_RADIUS, z: 0 },
                radius: GROUND_RADIUS,
                material: Material::Lambertian { albedo: Vec3D { x: 32768, y: 32768, z: 32768 } },
            },
        );
        let ghost mut skipped: int = 0;
        let mut a: i32 = -11;
        while a < 11
            invariant
                -11 <= a <= 11,
                objects@.len() + skipped == 1 + 22 * (a + 11),
                0 <= skipped <= specials_before(a as int, -11),
                objects@[0] == ground_sphere(),
                spheres_valid(objects@),
                forall|i: int|
                    1 <= i < objects@.len() ==> is_cell_sphere(#[trigger] objects@[i]) && small_sphere_facts(
                        objects@[i],
                    ),
            decreases 11 - a,
        {
            let mut b: i32 = -11;
            while b < 11
                invariant
                    -11 <= a < 11,
                    -11 <= b <= 11,
                    objects@.len() + skipped == 1 + 22 * (a + 11) + (b + 11),
                    0 <= skipped <= specials_before(a as int, b as int),
                    objects@[0] == ground_sphere(),
                    spheres_valid(objects@),
                    forall|i: int|
                        1 <= i < objects@.len() ==> is_cell_sphere(#[trigger] objects@[i]) && small_sphere_facts(
                            objects@[i],
                        ),
                decreases 11 - b,
            {
                match small_sphere(a, b) {
                    Some(sphere) => {
                        objects.push(sphere);
                    },
                    None => {
                        proof {
                            skipped = skipped + 1;
                        }
                    },
                }
                b = b + 1;
            }
            a = a + 1;
        }
        let ghost before = objects@;
        objects.push(
            Sphere {
                center: Vec3D { x: -262144, y: 65536, z: 0 },
                radius: 65536,
                material: Material::Lambertian { albedo: Vec3D { x: 26214, y: 13107, z: 6554 } },
            },
        );
        objects.push(
            Sphere {
                center: Vec3D { x: 262144, y: 65536, z: 0 },
                radius: 65536,
                material: Material::Metal { albedo: Vec3D { x: 45875, y: 39322, z: 32768 }, fuzziness: 0 },
            },
        );
        objects.push(
            Sphere {
                center: Vec3D { x: 0, y: 65536, z: 0 },
                radius: 65536,
                material: Material::Dielectric { refr_index: 98304 },
            },
        );
        assert(objects@.subrange(objects@.len() - 3, objects@.len() as int) =~= feature_spheres());
        assert forall|i: int| 1 <= i < objects@.len() - 3 implies is_cell_sphere(#[trigger] objects@[i])
            && small_sphere_facts(objects@[i]) by {
            assert(objects@[i] == before[i]);
        }
        HittableList { objects }
    }
}

/// The draws of one grid cell lie in their ranges: the material choice in
/// `[0, 1)`, the radius in `[0.15, 0.25)`, the offsets within the cell in
/// `[0, 0.9)`, each albedo channel in `[0, 1)`, the fuzziness in `[0, 0.5)`.
pub open spec fn cell_draws_fit(choose_mat: int, radius: int, jx: int, jy: int, albedo: Vec3D, fuzz: int) -> bool {
    &&& 0 <= choose_mat < SCALE
    &&& 9830 <= radius < 16384
    &&& 0 <= jx < 58982
    &&& 0 <= jy < 58982
    &&& 0 <= albedo.x < SCALE && 0 <= albedo.y < SCALE && 0 <= albedo.z < SCALE
    &&& 0 <= fuzz < 32768
}

/// The centre of the small sphere of cell `(a, b)`: offset within the cell
/// and lifted so that the sphere rests on the ground sphere.
pub open spec fn cell_center(a: int, b: int, radius: int, jx: int, jy: int) -> Vec3D {
    let x = a * SCALE + jx;
    let y = b * SCALE + jy;
    let height = -GROUND_RADIUS + isqrt(GROUND_RADIUS * GROUND_RADIUS - x * x - y * y) + radius;
    Vec3D { x: x as i32, y: height as i32, z: y as i32 }
}

/// The point below the metal feature sphere that small spheres keep clear of.
pub open spec fn clearance_point() -> Vec3D {
    Vec3D { x: 262144, y: 13107, z: 0 }
}

/// The small sphere of grid cell `(a, b)` for the given draws: none where it
/// would come within 0.9 of the base of the metal feature sphere; otherwise
/// diffuse, metal or glass as the material choice falls below 0.5, below
/// 0.85, or above.
pub open spec fn cell_sphere(
    a: int,
    b: int,
    choose_mat: int,
    radius: int,
    jx: int,
    jy: int,
    albedo: Vec3D,
    fuzz: int,
) -> Option<Sphere> {
    let center = cell_center(a, b, radius, jx, jy);
    if len_sq_raw(sub_spec(center, clearance_point())) <= 58982 * 58982 {
        None
    } else {
        let material = if choose_mat < 32768 {
            Material::Lambertian { albedo }
        } else if choose_mat < 55705 {
            Material::Metal { albedo, fuzziness: fuzz as i32 }
        } else {
            Material::Dielectric { refr_index: 98304 }
        };
        Some(Sphere { center, radius: radius as i32, material })
    }
}

/// The sphere is the small sphere of some grid cell for some draws in range.
pub open spec fn is_cell_sphere(s: Sphere) -> bool {
    exists|a: int, b: int, cm: int, rad: int, jx: int, jy: int, alb: Vec3D, fz: int|
        -11 <= a < 11 && -11 <= b < 11 && cell_draws_fit(cm, rad, jx, jy, alb, fz) && Some(s)
            == #[trigger] cell_sphere(a, b, cm, rad, jx, jy, alb, fz)
}

/// What every small sphere satisfies: a radius in `[0.15, 0.25)`, its top
/// below height 0.5, an albedo in `[0, 1]`, a fuzziness below 0.5, glass of
/// index 1.5.
pub open spec fn small_sphere_facts(s: Sphere) -> bool {
    &&& 9830 <= s.radius < 16384
    &&& s.center.y + s.radius < 32768
    &&& s.material.valid()
    &&& s.material.conserves_energy()
    &&& match s.material {
        Material::Metal { fuzziness, .. } => fuzziness < 32768,
        Material::Dielectric { refr_index } => refr_index == 98304,
        _ => true,
    }
}

/// Only the four cells `(3..=4, -1..=0)` come within reach of the metal
/// feature sphere's base.
pub open spec fn special_cell(a: int, b: int) -> bool {
    (a == 3 || a == 4) && (b == -1 || b == 0)
}

/// How many special cells come before `(a, b)` in row-major order.
pub open spec fn specials_before(a: int, b: int) -> int {
    (if a > 3 {
        2int
    } else {
        0int
    }) + (if a > 4 {
        2int
    } else {
        0int
    }) + (if a == 3 || a == 4 {
        if b > 0 {
            2int
        } else if b > -1 {
            1int
        } else {
            0int
        }
    } else {
        0int
    })
}

/// The small sphere of grid cell `(a, b)` for the given draws; see `cell_sphere`.
pub fn small_sphere_with(
    a: i32,
    b: i32,
    choose_mat: i64,
    radius: i32,
    jx: i64,
    jy: i64,
    albedo: Vec3D,
    fuzz: i32,
) -> (r: Option<Sphere>)
    requires
        -11 <= a < 11,
        -11 <= b < 11,
        cell_draws_fit(choose_mat as int, radius as int, jx as int, jy as int, albedo, fuzz as int),
    ensures
        r == cell_sphere(a as int, b as int, choose_mat as int, radius as int, jx as int, jy as int, albedo, fuzz as int),
        r matches Some(s) ==> small_sphere_facts(s),
        !special_cell(a as int, b as int) ==> r is Some,
{
    assert(-11 * 65536 <= a * 65536 <= 10 * 65536 && -11 * 65536 <= b * 65536 <= 10 * 65536) by (nonlinear_arith)
        requires
            -11 <= a < 11,
            -11 <= b < 11,
    ;
    let x = a as i64 * 65536 + jx;
    let y = b as i64 * 65536 + jy;
    let g = GROUND_RADIUS as i128;
    assert(-11 * 65536 <= x <= 11 * 65536 && -11 * 65536 <= y <= 11 * 65536);
    assert(0 <= x * x <= 0x400_0000_0000 && 0 <= y * y <= 0x400_0000_0000) by (nonlinear_arith)
        requires
            -11 * 65536 <= x <= 11 * 65536,
            -11 * 65536 <= y <= 11 * 65536,
    ;
    assert(g * g == 386547056640000) by (nonlinear_arith)
        requires
            g == 19660800,
    ;
    let rest = g * g - x as i128 * x as i128 - y as i128 * y as i128;
    let root = isqrt_wide(rest as u128);
    proof {
        crate::fixed::lemma_root_below(rest as int, root as int, GROUND_RADIUS + 1);
    }
    let height = -(GROUND_RADIUS as i64) + root as i64 + radius as i64;
    let center = Vec3D { x: x as i32, y: height as i32, z: y as i32 };
    assert(center == cell_center(a as int, b as int, radius as int, jx as int, jy as int));
    let gap = center.sub(&Vec3D { x: 262144, y: 13107, z: 0 });
    let clear = gap.length_squared_raw();
    proof {
        if !special_cell(a as int, b as int) {
            lemma_clear_of_base(a as int, b as int, x as int, y as int, gap);
        }
    }
    if clear <= 58982 * 58982 {
        return None;
    }
    let material = if choose_mat < 32768 {
        Material::Lambertian { albedo }
    } else if choose_mat < 55705 {
        Material::Metal { albedo, fuzziness: fuzz }
    } else {
        Material::Dielectric { refr_index: 98304 }
    };
    Some(Sphere { center, radius, material })
}

/// Outside the special cells a small sphere stands clear of the base.
proof fn lemma_clear_of_base(a: int, b: int, x: int, y: int, gap: Vec3D)
    requires
        -11 <= a < 11,
        -11 <= b < 11,
        !special_cell(a, b),
        a * SCALE <= x < a * SCALE + 58982,
        b * SCALE <= y < b * SCALE + 58982,
        gap.x == x - 262144,
        gap.z == y,
    ensures
        len_sq_raw(gap) > 58982 * 58982,
{
    let (gx, gy, gz) = (gap.x as int, gap.y as int, gap.z as int);
    if a < 3 || a > 4 {
        assert(gx <= -65536 || gx >= 65536);
    } else {
        assert(gz <= -65536 || gz >= 65536);
    }
    assert(gx * gx + gy * gy + gz * gz > 58982 * 58982) by (nonlinear_arith)
        requires
            gx <= -65536 || gx >= 65536 || gz <= -65536 || gz >= 65536,
    ;
}

/// The small sphere of grid cell `(a, b)`, with its material, radius and
/// place in the cell drawn at random.
fn small_sphere(a: i32, b: i32) -> (r: Option<Sphere>)
    requires
        -11 <= a < 11,
        -11 <= b < 11,
    ensures
        r matches Some(s) ==> is_cell_sphere(s) && small_sphere_facts(s),
        !special_cell(a as int, b as int) ==> r is Some,
{
    let choose_mat = random_range(0, SCALE as i64);
    let radius = random_range(9830, 16384) as i32;
    let jx = random_range(0, 58982);
    let jy = random_range(0, 58982);
    let albedo = if choose_mat < 55705 {
        Vec3D::random(0, SCALE)
    } else {
        Vec3D { x: 0, y: 0, z: 0 }
    };
    let fuzz = if 32768 <= choose_mat && choose_mat < 55705 {
        random_range(0, 32768) as i32
    } else {
        0
    };
    let r = small_sphere_with(a, b, choose_mat, radius, jx, jy, albedo, fuzz);
    proof {
        if let Some(s) = r {
            assert(Some(s) == cell_sphere(
                a as int,
                b as int,
                choose_mat as int,
                radius as int,
                jx as int,
                jy as int,
                albedo,
                fuzz as int,
            ));
        }
    }
    r
}

/// The coefficients of the intersection quadratic stay well inside `i128`.
proof fn lemma_quad_bounds(s: Sphere, r: Ray)
    ensures
        0 <= quad_a(r) <= 3 * 0x4000_0000_0000_0000,
        -3 * 0x2000_0000_0000_0000 <= quad_half_b(s, r) <= 3 * 0x2000_0000_0000_0000,
        -0x4000_0000_0000_0000 <= quad_c(s, r) <= 3 * 0x1000_0000_0000_0000,
        discriminant(s, r) < 0x8000_0000_0000_0000_0000_0000_0000_0000,
        0 <= quad_half_b(s, r) * quad_half_b(s, r) <= 9 * 0x400_0000_0000_0000_0000_0000_0000_0000,
        -12 * 0x400_0000_0000_0000_0000_0000_0000_0000 <= quad_a(r) * quad_c(s, r)
            <= 9 * 0x400_0000_0000_0000_0000_0000_0000_0000,
{
    let d = r.direction;
    let e = sub_spec(r.origin, s.center);
    let a = quad_a(r);
    let hb = quad_half_b(s, r);
    let c = quad_c(s, r);
    assert(0 <= a <= 3 * 0x4000_0000_0000_0000) by (nonlinear_arith)
        requires
            a == d.x * d.x + d.y * d.y + d.z * d.z,
            -0x8000_0000 <= d.x <= 0x8000_0000,
            -0x8000_0000 <= d.y <= 0x8000_0000,
            -0x8000_0000 <= d.z <= 0x8000_0000,
    ;
    assert(-3 * 0x2000_0000_0000_0000 <= hb <= 3 * 0x2000_0000_0000_0000) by (nonlinear_arith)
        requires
            hb == d.x * e.x + d.y * e.y + d.z * e.z,
            -0x8000_0000 <= d.x <= 0x8000_0000,
            -0x8000_0000 <= d.y <= 0x8000_0000,
            -0x8000_0000 <= d.z <= 0x8000_0000,
            -0x4000_0000 <= e.x <= 0x4000_0000,
            -0x4000_0000 <= e.y <= 0x4000_0000,
            -0x4000_0000 <= e.z <= 0x4000_0000,
    ;
    assert(-0x4000_0000_0000_0000 <= c <= 3 * 0x1000_0000_0000_0000) by (nonlinear_arith)
        requires
            c == e.x * e.x + e.y * e.y + e.z * e.z - s.radius * s.radius,
            -0x8000_0000 <= s.radius <= 0x8000_0000,
            -0x4000_0000 <= e.x <= 0x4000_0000,
            -0x4000_0000 <= e.y <= 0x4000_0000,
            -0x4000_0000 <= e.z <= 0x4000_0000,
    ;
    assert(0 <= hb * hb <= 9 * 0x400_0000_0000_0000_0000_0000_0000_0000) by (nonlinear_arith)
        requires
            -3 * 0x2000_0000_0000_0000 <= hb <= 3 * 0x2000_0000_0000_0000,
    ;
    assert(-12 * 0x400_0000_0000_0000_0000_0000_0000_0000 <= a * c <= 9 * 0x400_0000_0000_0000_0000_0000_0000_0000) by (nonlinear_arith)
        requires
            0 <= a <= 3 * 0x4000_0000_0000_0000,
            -0x4000_0000_0000_0000 <= c <= 3 * 0x1000_0000_0000_0000,
    ;
}

/// A positive discriminant needs a moving ray.
proof fn lemma_a_positive(s: Sphere, r: Ray)
    requires
        discriminant(s, r) > 0,
    ensures
        quad_a(r) > 0,
{
    let d = r.direction;
    let e = sub_spec(r.origin, s.center);
    if quad_a(r) <= 0 {
        assert(d.x == 0 && d.y == 0 && d.z == 0) by (nonlinear_arith)
            requires
                d.x * d.x + d.y * d.y + d.z * d.z <= 0,
        ;
        assert(quad_half_b(s, r) == 0) by (nonlinear_arith)
            requires
                d.x == 0 && d.y == 0 && d.z == 0,
                quad_half_b(s, r) == d.x * e.x + d.y * e.y + d.z * e.z,
        ;
        assert(quad_a(r) == 0);
    }
}

} // verus!
