use raytracer::camera::Camera;
use raytracer::error::SceneError;
use raytracer::fixed::SCALE;
use raytracer::hittable::{HitRecord, Hittable, HittableList, Sphere};
use raytracer::material::Material;
use raytracer::ray::Ray;
use raytracer::render::{pixel_coordinate, ray_colour, sample_pixel, sky_colour};
use raytracer::vec3d::{first_in_ball, Vec3D};

const S: i32 = SCALE;

fn v(x: i32, y: i32, z: i32) -> Vec3D {
    Vec3D::new(x, y, z)
}

fn record(normal: Vec3D, front_face: bool) -> HitRecord {
    HitRecord { p: v(S, 2 * S, 3 * S), t: S as i64, normal, front_face }
}

fn raw_len_sq(a: &Vec3D) -> i64 {
    let (x, y, z) = (a.x() as i64, a.y() as i64, a.z() as i64);
    x * x + y * y + z * z
}

#[test]
fn empty_scene_sky_overhead() {
    let world = HittableList::new(vec![]);
    let up = Ray::new(v(0, 0, 0), v(0, S, 0), 0);
    assert_eq!(ray_colour(&up, &world, 10), v(32768, 45875, 65536));
}

#[test]
fn empty_scene_white_below() {
    let world = HittableList::new(vec![]);
    let down = Ray::new(v(0, 0, 0), v(0, -S, 0), 0);
    assert_eq!(ray_colour(&down, &world, 10), v(S, S, S));
    assert_eq!(sky_colour(&v(0, -3 * S, 0)), v(S, S, S));
}

#[test]
fn horizon_blends_halfway() {
    assert_eq!(sky_colour(&v(S, 0, 0)), v(49152, 55705, 65536));
}

#[test]
fn no_bounces_left_is_black() {
    let world = HittableList::new(vec![]);
    let up = Ray::new(v(0, 0, 0), v(0, S, 0), 0);
    assert_eq!(ray_colour(&up, &world, 0), v(0, 0, 0));
}

#[test]
fn facing_mirrors_terminate() {
    let mirror = Material::Metal { albedo: v(S, S, S), fuzziness: 0 };
    let left = Sphere::new(v(-2 * S, 0, 0), S, mirror).unwrap();
    let right = Sphere::new(v(2 * S, 0, 0), S, mirror).unwrap();
    let world = HittableList::new(vec![left, right]);
    let r = Ray::new(v(0, 0, 0), v(S, 0, 0), 0);
    for depth in [1, 2, 7, 50, 500] {
        assert_eq!(ray_colour(&r, &world, depth), v(0, 0, 0));
    }
}

#[test]
fn lambertian_keeps_albedo() {
    let albedo = v(S / 2, S / 4, S);
    let m = Material::Lambertian { albedo };
    let r_in = Ray::new(v(0, 0, 0), v(0, -S, 0), 7);
    let rec = record(v(0, S, 0), true);
    for _ in 0..50 {
        let (scattered, att) = m.scatter(&r_in, rec).unwrap();
        assert_eq!(att, albedo);
        assert_eq!(scattered.origin(), rec.p());
        assert_eq!(scattered.time(), 7);
    }
    let fixed = m.scatter_with(&r_in, &rec, &v(S, 0, 0), 0).unwrap();
    assert_eq!(fixed.0.direction(), v(S, S, 0));
}

#[test]
fn metal_mirror_and_absorption() {
    let albedo = v(S, S / 2, 0);
    let m = Material::Metal { albedo, fuzziness: 0 };
    let r_in = Ray::new(v(0, 0, 0), v(S, -S, 0), 0);
    let rec = record(v(0, S, 0), true);
    let (scattered, att) = m.scatter_with(&r_in, &rec, &v(0, 0, 0), 0).unwrap();
    assert_eq!(att, albedo);
    let d = scattered.direction();
    assert!(d.x() > 0 && d.y() > 0 && d.x() == d.y());
    // A blur that turns the ray into the surface absorbs it.
    let fuzzy = Material::Metal { albedo, fuzziness: S };
    assert!(fuzzy.scatter_with(&r_in, &rec, &v(0, -S + 1, 0), 0).is_none());
    for _ in 0..50 {
        if let Some((_, att)) = fuzzy.scatter(&r_in, rec) {
            assert_eq!(att, albedo);
        }
    }
}

#[test]
fn attenuation_within_unit_range() {
    let mats = [
        Material::Lambertian { albedo: v(S, 0, S / 3) },
        Material::Metal { albedo: v(0, S, S / 7), fuzziness: S / 2 },
        Material::Dielectric { refr_index: 98304 },
    ];
    let r_in = Ray::new(v(0, 0, 0), v(S / 3, -S, S / 5), 0);
    let rec = record(v(0, S, 0), true);
    for m in mats.iter() {
        for _ in 0..20 {
            if let Some((_, c)) = m.scatter(&r_in, rec) {
                for ch in [c.x(), c.y(), c.z()] {
                    assert!((0..=S).contains(&ch));
                }
            }
        }
    }
}

#[test]
fn glass_at_grazing_incidence_reflects() {
    let glass = Material::Dielectric { refr_index: 98304 };
    let r_in = Ray::new(v(0, 0, 0), v(S, 0, 0), 0);
    let rec = record(v(0, S, 0), true);
    for draw in [0, 1, S as i64 / 2, S as i64 - 1] {
        let (scattered, att) = glass.scatter_with(&r_in, &rec, &v(0, 0, 0), draw).unwrap();
        assert_eq!(att, v(S, S, S));
        assert_eq!(scattered.direction(), v(S, 0, 0));
    }
    for _ in 0..50 {
        let (scattered, _) = glass.scatter(&r_in, rec).unwrap();
        assert_eq!(scattered.direction(), v(S, 0, 0));
    }
}

#[test]
fn glass_near_grazing_reflects_for_most_draws() {
    let glass = Material::Dielectric { refr_index: 98304 };
    // cos_theta = 1/64: the reflectance is close to one.
    let r_in = Ray::new(v(0, 0, 0), v(S, -S / 64, 0), 0);
    let rec = record(v(0, S, 0), true);
    let reflected = r_in.direction().unit_vector().reflect(&v(0, S, 0));
    let (sc, _) = glass.scatter_with(&r_in, &rec, &v(0, 0, 0), 58000).unwrap();
    assert_eq!(sc.direction(), reflected);
}

#[test]
fn glass_head_on_refracts_straight() {
    let glass = Material::Dielectric { refr_index: 98304 };
    let r_in = Ray::new(v(0, 0, 0), v(0, -S, 0), 0);
    let rec = record(v(0, S, 0), true);
    let (sc, _) = glass.scatter_with(&r_in, &rec, &v(0, 0, 0), S as i64 - 1).unwrap();
    assert_eq!(sc.direction(), v(0, -S, 0));
    let (back, _) = glass.scatter_with(&r_in, &rec, &v(0, 0, 0), 0).unwrap();
    assert_eq!(back.direction(), v(0, S, 0));
}

#[test]
fn glass_total_internal_reflection() {
    let glass = Material::Dielectric { refr_index: 98304 };
    // Leaving the glass at 60 degrees from the normal: 1.5 * sin > 1.
    let r_in = Ray::new(v(0, 0, 0), v(56756, 32768, 0), 0);
    let rec = record(v(0, -S, 0), false);
    let reflected = r_in.direction().unit_vector().reflect(&v(0, -S, 0));
    let (sc, _) = glass.scatter_with(&r_in, &rec, &v(0, 0, 0), S as i64 - 1).unwrap();
    assert_eq!(sc.direction(), reflected);
}

fn camera(aperture: i32) -> Camera {
    Camera::new(v(13 * S, 2 * S, 3 * S), v(0, 0, 0), v(0, S, 0), 11556, 116508, aperture).unwrap()
}

#[test]
fn pinhole_rays_start_at_eye() {
    let cam = camera(0);
    for (s, t) in [(0, 0), (S as i64, S as i64), (S as i64 / 3, S as i64 / 2)] {
        let a = cam.get_ray(s, t);
        let b = cam.get_ray(s, t);
        assert_eq!(a.origin(), v(13 * S, 2 * S, 3 * S));
        assert_eq!(a, b);
    }
}

#[test]
fn lens_rays_start_near_eye() {
    let cam = camera(S / 10);
    for _ in 0..50 {
        let r = cam.get_ray(S as i64 / 2, S as i64 / 2);
        let d = r.origin().sub(&v(13 * S, 2 * S, 3 * S));
        assert!(raw_len_sq(&d) <= (S as i64 / 20 + 2) * (S as i64 / 20 + 2));
    }
}

#[test]
fn camera_centre_ray_points_at_target() {
    let cam = Camera::new(v(0, 0, 0), v(0, 0, -S), v(0, S, 0), S, S, 0).unwrap();
    let r = cam.get_ray(S as i64 / 2, S as i64 / 2);
    assert_eq!(r.origin(), v(0, 0, 0));
    assert_eq!(r.direction(), v(0, 0, -S));
    let corner = cam.get_ray(0, 0);
    assert_eq!(corner.direction(), v(-S, -S, -S));
}

#[test]
fn camera_focus_distance() {
    let eye = v(0, 0, 0);
    let target = v(0, 0, -2 * S);
    let near = Camera::new(eye, target, v(0, S, 0), S, S, 0).unwrap();
    let same = Camera::with_focus(eye, target, v(0, S, 0), S, S, 0, 2 * S as i64).unwrap();
    assert_eq!(near, same);
    let far = Camera::with_focus(eye, target, v(0, S, 0), S, S, 0, 4 * S as i64).unwrap();
    assert_eq!(far.horizontal, v(8 * S, 0, 0));
    assert_eq!(far.get_ray(S as i64 / 2, S as i64 / 2).direction(), v(0, 0, -4 * S));
    let lens = Camera::with_focus(eye, target, v(0, S, 0), S, S, S, 4 * S as i64).unwrap();
    assert_eq!(lens.lens_radius, S as i64 / 2);
}

#[test]
fn camera_rejects_degenerate_view() {
    let same = Camera::new(v(S, S, S), v(S, S, S), v(0, S, 0), S, S, 0);
    assert_eq!(same, Err(SceneError::DegenerateView));
    let along_up = Camera::new(v(0, 5 * S, 0), v(0, 0, 0), v(0, S, 0), S, S, 0);
    assert_eq!(along_up, Err(SceneError::DegenerateView));
}

#[test]
fn pixel_coordinates_span_the_plane() {
    assert_eq!(pixel_coordinate(0, 0, 5), 0);
    assert_eq!(pixel_coordinate(4, 0, 5), S as i64);
    assert_eq!(pixel_coordinate(2, S as i64 / 2, 5), (2 * S as i64 + S as i64 / 2) / 4);
}

#[test]
fn sampled_pixel_of_empty_scene_sums_sky() {
    let world = HittableList::new(vec![]);
    let cam = camera(0);
    let sum = sample_pixel(&cam, &world, 3, 4, 8, 6, 4, 5);
    for ch in [sum.x(), sum.y(), sum.z()] {
        assert!((0..=4 * S).contains(&ch));
    }
    assert_eq!(sum.z(), 4 * S);
    assert_eq!(sample_pixel(&cam, &world, 3, 4, 8, 6, 0, 5), v(0, 0, 0));
}

#[test]
fn mirror_reflects_nearly_grazing_ray() {
    let m = Material::Metal { albedo: v(S, S, S), fuzziness: 0 };
    let r_in = Ray::new(v(0, 0, 0), v(S, -1, 0), 0);
    let rec = record(v(0, S, 0), true);
    let (sc, att) = m.scatter_with(&r_in, &rec, &v(0, 0, 0), 0).unwrap();
    assert_eq!(att, v(S, S, S));
    assert_eq!(sc.direction(), v(S, 1, 0));
    assert!(sc.direction().dot(&v(0, S, 0)) >= 0 && sc.direction().y() > 0);
    // A ray that runs along the surface or into it from behind is absorbed.
    let along = Ray::new(v(0, 0, 0), v(S, 0, 0), 0);
    assert!(m.scatter_with(&along, &rec, &v(0, 0, 0), 0).is_none());
    let behind = Ray::new(v(0, 0, 0), v(S, 1, 0), 0);
    assert!(m.scatter_with(&behind, &rec, &v(0, 0, 0), 0).is_none());
}

#[test]
fn metal_absorbs_exactly_when_direction_enters() {
    let n = v(0, S, 0);
    let rec = record(n, true);
    let cases = [
        (v(16 * S, -5, 0), 1, v(0, S / 2, 0)),
        (v(S, -S, 0), S, v(0, -S + 1, 0)),
        (v(S, -S / 3, S / 5), S / 2, v(S / 3, -S / 2, 0)),
        (v(2 * S, -S / 100, 0), S / 4, v(0, -S / 2, S / 2)),
        (v(0, -S, 0), S, v(S / 2, S / 2, 0)),
    ];
    for (d, fuzziness, sample) in cases {
        let m = Material::Metal { albedo: v(S, S, S), fuzziness };
        let r_in = Ray::new(v(0, 0, 0), d, 0);
        let blur = (fuzziness as i64 * d.length()) / S as i64;
        let dir = d.reflect(&n).add(&sample.scale(blur));
        match m.scatter_with(&r_in, &rec, &sample, 0) {
            Some((sc, _)) => {
                assert_eq!(sc.direction(), dir);
                assert!(dir.y() > 0);
            },
            None => assert!(dir.y() <= 0),
        }
    }
    let m = Material::Metal { albedo: v(S, S, S), fuzziness: 1 };
    let r_in = Ray::new(v(0, 0, 0), v(16 * S, -5, 0), 0);
    let (sc, _) = m.scatter_with(&r_in, &rec, &v(0, S / 2, 0), 0).unwrap();
    assert_eq!(sc.direction(), v(16 * S, 13, 0));
}

#[test]
fn unit_ball_candidates_pick_first_inside() {
    let cands = vec![v(S - 1, S - 1, 0), v(0, 0, 0), v(S / 2, 0, 0)];
    assert_eq!(first_in_ball(&cands, false), Some(v(0, 0, 0)));
    assert_eq!(first_in_ball(&cands, true), Some(v(S / 2, 0, 0)));
    assert_eq!(first_in_ball(&vec![v(S - 1, 0, S - 1)], false), None);
    assert_eq!(first_in_ball(&vec![], false), None);
}

#[test]
fn camera_rejects_exactly_colinear_up() {
    let view = Camera::new(v(1, 2, 0), v(0, 0, 0), v(1, 2, 0), S, S, 0);
    assert_eq!(view, Err(SceneError::DegenerateView));
    let scaled = Camera::new(v(2 * S, 4 * S, 0), v(0, 0, 0), v(S, 2 * S, 0), S, S, 0);
    assert_eq!(scaled, Err(SceneError::DegenerateView));
}

#[test]
fn one_mirror_bounce_into_sky() {
    let m = Material::Metal { albedo: v(S / 2, S / 2, S / 2), fuzziness: 0 };
    let world = HittableList::new(vec![Sphere::new(v(0, -2 * S, 0), S, m).unwrap()]);
    let r = Ray::new(v(0, 0, 0), v(0, -S, 0), 0);
    assert_eq!(ray_colour(&r, &world, 2), v(16384, 22937, 32768));
    assert_eq!(ray_colour(&r, &world, 1), v(0, 0, 0));
}

#[test]
fn random_scene_feature_spheres_seen_from_above() {
    let world = HittableList::random_scene();
    assert!(world.objects.len() >= 484);
    let down = v(0, -S, 0);
    let cases = [
        (0, Material::Dielectric { refr_index: 98304 }),
        (4 * S, Material::Metal { albedo: v(45875, 39322, 32768), fuzziness: 0 }),
        (-4 * S, Material::Lambertian { albedo: v(26214, 13107, 6554) }),
    ];
    for (x, mat) in cases {
        let r = Ray::new(v(x, 10 * S, 0), down, 0);
        let (rec, m) = world.hit(&r, 64, i64::MAX).unwrap();
        assert_eq!(rec.t(), 8 * S as i64);
        assert_eq!(m, mat);
    }
}

#[test]
fn random_scene_small_spheres_in_range() {
    let world = HittableList::random_scene();
    let n = world.objects.len();
    for s in world.objects[1..n - 3].iter() {
        assert!((9830..16384).contains(&s.radius));
        assert!(s.center.y() + s.radius < S / 2);
        match s.material {
            Material::Lambertian { albedo } => {
                assert!([albedo.x(), albedo.y(), albedo.z()].iter().all(|c| (0..S).contains(c)))
            },
            Material::Metal { albedo, fuzziness } => {
                assert!([albedo.x(), albedo.y(), albedo.z()].iter().all(|c| (0..S).contains(c)));
                assert!((0..S / 2).contains(&fuzziness));
            },
            Material::Dielectric { refr_index } => assert_eq!(refr_index, 98304),
        }
    }
}

#[test]
fn hit_normals_have_unit_length() {
    let s = Sphere::new(v(S / 3, -S / 7, -5 * S), 3 * S / 2, Material::Dielectric { refr_index: S }).unwrap();
    for d in [v(0, 0, -S), v(S / 9, S / 11, -S), v(-S / 5, 0, -3 * S)] {
        let r = Ray::new(v(0, 0, 0), d, 0);
        let (rec, _) = s.hit(&r, 64, i64::MAX).unwrap();
        let l = raw_len_sq(&rec.normal());
        assert!((S as i64 - 4) * (S as i64 - 4) <= l && l <= (S as i64) * (S as i64) + 2);
        assert!(rec.normal().dot(&d) <= 0);
    }
}

#[test]
fn glass_near_grazing_reflects_below_bound() {
    let glass = Material::Dielectric { refr_index: 98304 };
    let rec = record(v(0, S, 0), true);
    for dy in [1, 16, 256, 1024] {
        let r_in = Ray::new(v(0, 0, 0), v(S, -dy, 0), 0);
        let unit = r_in.direction().unit_vector();
        let cos = unit.neg().dot(&v(0, S, 0));
        let reflected = unit.reflect(&v(0, S, 0));
        for draw in [0, (S as i64 - 5 * cos) / 2, S as i64 - 5 * cos - 1] {
            let (sc, _) = glass.scatter_with(&r_in, &rec, &v(0, 0, 0), draw).unwrap();
            assert_eq!(sc.direction(), reflected);
        }
    }
}
