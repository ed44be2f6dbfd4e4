use raytracer::error::SceneError;
use raytracer::fixed::SCALE;
use raytracer::hittable::{HitRecord, Hittable, HittableList, Sphere, GROUND_RADIUS};
use raytracer::material::Material;
use raytracer::ray::Ray;
use raytracer::vec3d::Vec3D;

const S: i32 = SCALE;

fn v(x: i32, y: i32, z: i32) -> Vec3D {
    Vec3D::new(x, y, z)
}

fn grey() -> Material {
    Material::Lambertian { albedo: v(S / 2, S / 2, S / 2) }
}

fn sphere(center: Vec3D, radius: i32) -> Sphere {
    Sphere::new(center, radius, grey()).unwrap()
}

fn raw_len_sq(a: &Vec3D) -> i64 {
    let (x, y, z) = (a.x() as i64, a.y() as i64, a.z() as i64);
    x * x + y * y + z * z
}

#[test]
fn vector_arithmetic_is_exact_in_range() {
    let a = v(S, 2 * S, -3 * S);
    let b = v(S / 2, S, S);
    assert_eq!(a.add(&b), v(3 * S / 2, 3 * S, -2 * S));
    assert_eq!(a.sub(&b), v(S / 2, S, -4 * S));
    assert_eq!(a.neg(), v(-S, -2 * S, 3 * S));
    assert_eq!(a.scale(2 * S as i64), v(2 * S, 4 * S, -6 * S));
    assert_eq!(a.mul(&b), v(S / 2, 2 * S, -3 * S));
    assert_eq!(a.div_scalar(2 * S as i64), v(S / 2, S, -3 * S / 2));
    assert_eq!(a.dot(&b), (S / 2 + 2 * S - 3 * S) as i64);
    assert_eq!(v(3 * S, 4 * S, 0).length(), 5 * S as i64);
    assert_eq!(v(3 * S, 4 * S, 0).length_squared(), 25 * S as i64);
}

#[test]
fn cross_product_of_axes() {
    assert_eq!(v(S, 0, 0).cross(&v(0, S, 0)), v(0, 0, S));
    assert_eq!(v(0, S, 0).cross(&v(S, 0, 0)), v(0, 0, -S));
}

#[test]
fn arithmetic_saturates() {
    let big = v(i32::MAX, i32::MIN, 0);
    let r = big.add(&big);
    assert_eq!(r, v(1 << 30, -(1 << 30), 0));
}

#[test]
fn unit_vector_has_unit_length() {
    let cases = [v(1, 0, 0), v(1, 1, 0), v(3 * S, 4 * S, 12 * S), v(-7, 123456, 99), v(i32::MAX, i32::MAX, i32::MIN)];
    let one = (S as i64) * (S as i64);
    for c in cases.iter() {
        let u = c.unit_vector();
        let l = raw_len_sq(&u);
        let lo = (S as i64 - 4) * (S as i64 - 4);
        assert!(lo <= l && l <= one + 2, "{:?} -> {:?}", c, u);
    }
    assert_eq!(v(0, 0, 0).unit_vector(), v(0, 0, 0));
    assert_eq!(v(0, 5 * S, 0).unit_vector(), v(0, S, 0));
}

#[test]
fn reflect_about_normal() {
    let r = v(S, -S, 0).reflect(&v(0, S, 0));
    assert_eq!(r, v(S, S, 0));
}

#[test]
fn refract_straight_through() {
    let r = v(0, -S, 0).refract(&v(0, S, 0), S as i64);
    assert_eq!(r, v(0, -S, 0));
}

#[test]
fn random_vectors_stay_in_range() {
    for _ in 0..200 {
        let a = Vec3D::random(-5, 5);
        for c in [a.x(), a.y(), a.z()] {
            assert!((-5..5).contains(&c));
        }
        let b = Vec3D::random_in_unit_sphere();
        assert!(raw_len_sq(&b) < (S as i64) * (S as i64));
        let d = Vec3D::random_in_unit_disk();
        assert_eq!(d.z(), 0);
        assert!(raw_len_sq(&d) < (S as i64) * (S as i64));
        let u = Vec3D::random_unit_vector();
        let l = raw_len_sq(&u);
        assert!((S as i64 - 4) * (S as i64 - 4) <= l && l <= (S as i64) * (S as i64) + 2);
        let n = v(0, S, 0);
        let h = Vec3D::random_in_hemisphere(&n);
        assert!(h.y() >= 0);
    }
}

#[test]
fn ray_at_parameter() {
    let r = Ray::new(v(S, 0, 0), v(0, 2 * S, 0), 0);
    assert_eq!(r.at(S as i64 / 2), v(S, S, 0));
    assert_eq!(r.origin(), v(S, 0, 0));
    assert_eq!(r.direction(), v(0, 2 * S, 0));
    assert_eq!(r.time(), 0);
}

#[test]
fn sphere_rejects_bad_parameters() {
    assert_eq!(Sphere::new(v(0, 0, 0), 0, grey()), Err(SceneError::NonPositiveRadius));
    assert_eq!(Sphere::new(v(0, 0, 0), -S, grey()), Err(SceneError::NonPositiveRadius));
    let rough = Material::Metal { albedo: v(S, S, S), fuzziness: S + 1 };
    assert_eq!(Sphere::new(v(0, 0, 0), S, rough), Err(SceneError::InvalidMaterial));
    let odd_glass = Material::Dielectric { refr_index: 0 };
    assert_eq!(Sphere::new(v(0, 0, 0), S, odd_glass), Err(SceneError::InvalidMaterial));
}

#[test]
fn aimed_ray_hits_near_side() {
    // A sphere of radius 1 at (0, 0, -5), from the origin towards its centre.
    let s = sphere(v(0, 0, -5 * S), S);
    let r = Ray::new(v(0, 0, 0), v(0, 0, -5 * S), 0);
    let (rec, m) = s.hit(&r, 1, i64::MAX).unwrap();
    // Roots at t = 4/5 and 6/5 of the direction.
    assert_eq!(rec.t(), 52428);
    assert_eq!(m, grey());
    assert!(rec.front_face());
    let n = rec.normal();
    assert_eq!((n.x(), n.y()), (0, 0));
    assert!((S - 8..=S + 8).contains(&n.z()));
    // Cutting off the near root leaves the far one.
    let (far, _) = s.hit(&r, 60000, i64::MAX).unwrap();
    assert_eq!(far.t(), 78643);
    assert!(!far.front_face());
    // Cutting off both leaves nothing.
    assert!(s.hit(&r, 1, 40000).is_none());
}

#[test]
fn ray_missing_sphere() {
    let s = sphere(v(0, 0, -5 * S), S);
    let r = Ray::new(v(0, 0, 0), v(0, S, 0), 0);
    assert!(s.hit(&r, 1, i64::MAX).is_none());
}

#[test]
fn shifted_sphere_keeps_intersection() {
    let c = v(3 * S, -2 * S, 7 * S);
    let s = sphere(c, 2 * S);
    let s0 = sphere(v(0, 0, 0), 2 * S);
    let r = Ray::new(v(S, S, S), v(S, -S / 2, 3 * S), 0);
    let r0 = Ray::new(r.origin().sub(&c), r.direction(), 0);
    let (h, _) = s.hit(&r, 1, i64::MAX).unwrap();
    let (h0, _) = s0.hit(&r0, 1, i64::MAX).unwrap();
    assert_eq!(h.t(), h0.t());
    assert_eq!(h.normal(), h0.normal());
    assert_eq!(h.front_face(), h0.front_face());
    assert_eq!(h.p(), h0.p().add(&c));
}

#[test]
fn normal_faces_ray_from_inside() {
    let s = sphere(v(0, 0, 0), 2 * S);
    let r = Ray::new(v(0, 0, 0), v(S, S / 3, -S / 5), 0);
    let (rec, _) = s.hit(&r, 1, i64::MAX).unwrap();
    assert!(!rec.front_face());
    assert!(rec.normal().dot(&r.direction()) <= 0);
}

#[test]
fn set_normal_face_turns_normal() {
    let mut rec = HitRecord { p: v(0, 0, 0), t: 5, normal: v(0, 0, 0), front_face: true };
    let r = Ray::new(v(0, 0, 0), v(S, 0, 0), 0);
    rec.set_normal_face(&r, &v(S, 0, 0));
    assert!(!rec.front_face());
    assert_eq!(rec.normal(), v(-S, 0, 0));
    assert_eq!(rec.t(), 5);
    rec.set_normal_face(&r, &v(-S, 0, 0));
    assert!(rec.front_face());
    assert_eq!(rec.normal(), v(-S, 0, 0));
}

#[test]
fn list_keeps_nearest_hit() {
    let far = Sphere::new(v(0, 0, -10 * S), S, Material::Dielectric { refr_index: S }).unwrap();
    let near = sphere(v(0, 0, -5 * S), S);
    let mut world = HittableList::new(vec![far]);
    world.add(near);
    let r = Ray::new(v(0, 0, 0), v(0, 0, -S), 0);
    let (rec, m) = world.hit(&r, 1, i64::MAX).unwrap();
    assert_eq!(rec.t(), 4 * S as i64);
    assert_eq!(m, grey());
    world.clear();
    assert!(world.hit(&r, 1, i64::MAX).is_none());
}

#[test]
fn list_equal_distance_keeps_first() {
    let a = Sphere::new(v(0, 0, -5 * S), S, Material::Dielectric { refr_index: S }).unwrap();
    let b = sphere(v(0, 0, -5 * S), S);
    let world = HittableList::new(vec![a, b]);
    let r = Ray::new(v(0, 0, 0), v(0, 0, -S), 0);
    let (_, m) = world.hit(&r, 1, i64::MAX).unwrap();
    assert_eq!(m, Material::Dielectric { refr_index: S });
}

#[test]
fn random_scene_layout() {
    let world = HittableList::random_scene();
    let n = world.objects.len();
    assert!((4..=488).contains(&n));
    assert_eq!(world.objects[0].radius, GROUND_RADIUS);
    assert_eq!(world.objects[n - 1].material, Material::Dielectric { refr_index: 98304 });
    for s in world.objects.iter() {
        assert!(s.radius > 0);
    }
}

#[test]
fn index_and_in_place_ops() {
    let mut a = v(S, 2 * S, 3 * S);
    assert_eq!((a.index(0), a.index(1), a.index(2)), (S, 2 * S, 3 * S));
    a.add_assign(&v(S, S, S));
    assert_eq!(a, v(2 * S, 3 * S, 4 * S));
    a.mul_assign(&v(S / 2, S, 2 * S));
    assert_eq!(a, v(S, 3 * S, 8 * S));
}
