//! Light transport: the colour seen along a ray, and the sampling of pixels.

use vstd::prelude::*;
use crate::camera::{get_ray_spec, Camera};
use crate::fixed::{fmul, lemma_fmul_one, lemma_fmul_unit, tdiv, tdiv_wide, SCALE};
use crate::hittable::{list_hit_spec, Hittable, HittableList, Sphere};
use crate::material::{in_unit_range, lemma_attenuation_in_range, sample_fits, scatter_spec};
use crate::ray::Ray;
use crate::sampling::random_range;
use crate::vec3d::{add_spec, bounded, len_sq_raw, is_zero, lemma_unit_length, mul_spec, scale_spec, unit_spec, Colour, Vec3D};

verus! {

/// The least ray parameter at which a hit counts: hits closer than this to a
/// ray's origin are taken for the surface the ray leaves.
pub const T_EPSILON: i64 = 64;

/// No light.
pub open spec fn black() -> Colour {
    Vec3D { x: 0, y: 0, z: 0 }
}

/// The colour of the sky overhead.
pub open spec fn sky_blue() -> Colour {
    Vec3D { x: 32768, y: 45875, z: 65536 }
}

/// The background along a direction: white looking straight down, blending
/// linearly in the height of the unit direction to sky blue straight up.
pub open spec fn sky_spec(direction: Vec3D) -> Colour {
    let t = tdiv(unit_spec(direction).y + SCALE, 2);
    add_spec(
        scale_spec(Vec3D { x: SCALE, y: SCALE, z: SCALE }, SCALE - t),
        scale_spec(sky_blue(), t),
    )
}

/// Every material of the scene has its parameters in range.
pub open spec fn scene_valid(objects: Seq<Sphere>) -> bool {
    forall|i: int| 0 <= i < objects.len() ==> (#[trigger] objects[i]).material.valid()
}

/// Every material of the scene conserves energy.
pub open spec fn scene_conserves_energy(objects: Seq<Sphere>) -> bool {
    forall|i: int| 0 <= i < objects.len() ==> (#[trigger] objects[i]).material.conserves_energy()
}

/// The sky is never brighter than full intensity.
pub proof fn lemma_sky_in_range(direction: Vec3D)
    ensures
        in_unit_range(sky_spec(direction)),
{
    let u = unit_spec(direction);
    if !is_zero(direction) {
        lemma_unit_length(direction);
    }
    let t = tdiv(u.y + SCALE, 2);
    assert(0 <= t <= SCALE);
    lemma_fmul_one(SCALE - t);
    let b = sky_blue();
    lemma_fmul_below(b.x as int, t);
    lemma_fmul_below(b.y as int, t);
    lemma_fmul_below(b.z as int, t);
}

/// A fraction of `t` is at most `t`.
proof fn lemma_fmul_below(b: int, t: int)
    requires
        0 <= b <= SCALE,
        0 <= t <= SCALE,
    ensures
        0 <= fmul(b, t) <= t,
{
    assert(0 <= b * t <= t * SCALE) by (nonlinear_arith)
        requires
            0 <= b <= SCALE,
            0 <= t,
    ;
    vstd::arithmetic::div_mod::lemma_div_is_ordered(b * t, t * SCALE, SCALE as int);
    vstd::arithmetic::div_mod::lemma_div_by_multiple(t, SCALE as int);
    vstd::arithmetic::div_mod::lemma_div_pos_is_pos(b * t, SCALE as int);
}

/// The attenuation of a colour in range by one in range stays in range.
proof fn lemma_mul_in_range(a: Colour, b: Colour)
    requires
        in_unit_range(a),
        in_unit_range(b),
    ensures
        in_unit_range(mul_spec(a, b)),
{
    lemma_fmul_unit(a.x as int, b.x as int);
    lemma_fmul_unit(a.y as int, b.y as int);
    lemma_fmul_unit(a.z as int, b.z as int);
    assert(a.x * b.x >= 0 && a.y * b.y >= 0 && a.z * b.z >= 0) by (nonlinear_arith)
        requires
            in_unit_range(a),
            in_unit_range(b),
    ;
}

/// The background colour along a direction.
pub fn sky_colour(direction: &Vec3D) -> (c: Colour)
    ensures
        c == sky_spec(*direction),
{
    let unit = direction.unit_vector();
    let t = tdiv_wide(unit.y as i128 + SCALE as i128, 2) as i64;
    let white = Vec3D { x: SCALE, y: SCALE, z: SCALE };
    let blue = Vec3D { x: 32768, y: 45875, z: 65536 };
    white.scale(SCALE as i64 - t).add(&blue.scale(t))
}

/// The random quantities that transport draws at each bounce: the sample
/// of the material and the draw in `[0, 1)`.
pub type Draws = Seq<(Vec3D, int)>;

/// The colour that light transport returns along `r` with `depth` bounces
/// left, given the random quantities of each bounce in turn: black with no
/// bounce left; the sky where the ray meets nothing; at the nearest hit,
/// black where the surface absorbs the ray, and otherwise the attenuation
/// times the colour along the scattered ray with one bounce fewer.
pub open spec fn transport(world: Seq<Sphere>, r: Ray, depth: nat, draws: Draws) -> Colour
    decreases depth,
{
    if depth == 0 {
        black()
    } else {
        match list_hit_spec(world, r, T_EPSILON as int, i64::MAX as int) {
            None => sky_spec(r.direction),
            Some(h) => match scatter_spec(h.1, r, h.0, draws[0].0, draws[0].1) {
                None => black(),
                Some(sc) => mul_spec(sc.1, transport(world, sc.0, (depth - 1) as nat, draws.drop_first())),
            },
        }
    }
}

/// The random quantities suit transport along `r`: one for each bounce that
/// meets a surface, each a sample that suits the material hit and a draw in
/// `[0, 1)`.
pub open spec fn draws_fit(world: Seq<Sphere>, r: Ray, depth: nat, draws: Draws) -> bool
    decreases depth,
{
    if depth == 0 {
        true
    } else {
        match list_hit_spec(world, r, T_EPSILON as int, i64::MAX as int) {
            None => true,
            Some(h) => {
                &&& draws.len() > 0
                &&& sample_fits(h.1, draws[0].0)
                &&& 0 <= draws[0].1 < SCALE
                &&& match scatter_spec(h.1, r, h.0, draws[0].0, draws[0].1) {
                    None => true,
                    Some(sc) => draws_fit(world, sc.0, (depth - 1) as nat, draws.drop_first()),
                }
            },
        }
    }
}

/// `c` is a colour that light transport can return along `r` with `depth`
/// bounces left.
pub open spec fn transport_outcome(world: Seq<Sphere>, r: Ray, depth: nat, c: Colour) -> bool {
    exists|draws: Draws| #[trigger] draws_fit(world, r, depth, draws) && c == transport(world, r, depth, draws)
}

/// The colour of the light arriving along `r`, following at most `depth`
/// bounces; see `transport`. In a scene whose materials conserve energy, no
/// channel exceeds full intensity.
pub fn ray_colour(r: &Ray, world: &HittableList, depth: u32) -> (c: Colour)
    requires
        scene_valid(world@),
    ensures
        transport_outcome(world@, *r, depth as nat, c),
        scene_conserves_energy(world@) ==> in_unit_range(c),
    decreases depth,
{
    if depth == 0 {
        let c = Vec3D { x: 0, y: 0, z: 0 };
        assert(draws_fit(world@, *r, 0, Seq::empty()) && c == transport(world@, *r, 0, Seq::empty()));
        return c;
    }
    let ghost d = depth as nat;
    match world.hit(r, T_EPSILON, i64::MAX) {
        Some((rec, m)) => {
            proof {
                lemma_hit_material_valid(world@, *r, T_EPSILON as int, i64::MAX as int);
            }
            let res = m.scatter(r, rec);
            let ghost w = choose|sample: Vec3D, draw: int|
                sample_fits(m, sample) && 0 <= draw < SCALE && res == scatter_spec(m, *r, rec, sample, draw);
            assert(list_hit_spec(world@, *r, T_EPSILON as int, i64::MAX as int) == Some((rec, m)));
            match res {
                Some((scattered, attenuation)) => {
                    let rest = ray_colour(&scattered, world, depth - 1);
                    let c = attenuation.mul(&rest);
                    proof {
                        let tail = choose|t: Draws|
                            #[trigger] draws_fit(world@, scattered, (depth - 1) as nat, t) && rest == transport(
                                world@,
                                scattered,
                                (depth - 1) as nat,
                                t,
                            );
                        let draws = seq![(w.0, w.1)] + tail;
                        assert(draws.drop_first() =~= tail);
                        assert(draws[0] == (w.0, w.1));
                        assert(((d - 1) as nat) == (depth - 1) as nat);
                        assert(draws_fit(world@, *r, d, draws));
                        assert(c == transport(world@, *r, d, draws));
                        if scene_conserves_energy(world@) {
                            lemma_hit_material_energy(world@, *r, T_EPSILON as int, i64::MAX as int);
                            lemma_attenuation_in_range(m, *r, rec, w.0, w.1);
                            lemma_mul_in_range(attenuation, rest);
                        }
                    }
                    c
                },
                None => {
                    let c = Vec3D { x: 0, y: 0, z: 0 };
                    proof {
                        let draws = seq![(w.0, w.1)];
                        assert(draws_fit(world@, *r, d, draws) && c == transport(world@, *r, d, draws));
                    }
                    c
                },
            }
        },
        None => {
            proof {
                lemma_sky_in_range(r.direction);
            }
            let c = sky_colour(&r.direction);
            assert(draws_fit(world@, *r, d, Seq::empty()) && c == transport(world@, *r, d, Seq::empty()));
            c
        },
    }
}

/// The image-plane coordinate of pixel `i` of `n`, displaced by `jitter` in
/// `[0, 1)` of a pixel: `(i + jitter) / (n - 1)`.
pub open spec fn plane_coord(i: int, jitter: int, n: int) -> int {
    (i * SCALE + jitter) / (n - 1)
}

/// The saturating sum of a sequence of colours.
pub open spec fn colour_sum(cs: Seq<Colour>) -> Colour
    decreases cs.len(),
{
    if cs.len() == 0 {
        black()
    } else {
        add_spec(colour_sum(cs.drop_last()), cs.last())
    }
}

/// The image-plane coordinate of a pixel; see `plane_coord`.
pub fn pixel_coordinate(i: u32, jitter: i64, n: u32) -> (r: i64)
    requires
        n >= 2,
        0 <= jitter < SCALE,
    ensures
        r == plane_coord(i as int, jitter as int, n as int),
{
    assert(0 <= i * SCALE <= 0xffff_ffff * SCALE) by (nonlinear_arith)
        requires
            0 <= i <= 0xffff_ffff,
    ;
    (i as i64 * SCALE as i64 + jitter) / (n as i64 - 1)
}

/// `c` is a colour that one sample of pixel `(col, row)` can give: transport
/// along the camera ray through the pixel displaced by jitters in `[0, 1)`,
/// from a point of the lens.
pub open spec fn pixel_sample_outcome(
    cam: Camera,
    world: Seq<Sphere>,
    col: int,
    row: int,
    width: int,
    height: int,
    depth: nat,
    c: Colour,
) -> bool {
    exists|js: int, jt: int, disk: Vec3D|
        0 <= js < SCALE && 0 <= jt < SCALE && len_sq_raw(disk) < SCALE * SCALE && bounded(disk)
            && transport_outcome(
            world,
            #[trigger] get_ray_spec(cam, plane_coord(col, js, width), plane_coord(row, jt, height), disk),
            depth,
            c,
        )
}

/// The sum of the colours of `samples` rays through random points of pixel
/// `(col, row)` of a `width` by `height` image, row 0 at the bottom, each
/// followed for at most `max_depth` bounces.
pub fn sample_pixel(
    cam: &Camera,
    world: &HittableList,
    col: u32,
    row: u32,
    width: u32,
    height: u32,
    samples: u32,
    max_depth: u32,
) -> (c: Colour)
    requires
        width >= 2,
        height >= 2,
        scene_valid(world@),
    ensures
        exists|cs: Seq<Colour>|
            cs.len() == samples && c == colour_sum(cs) && (forall|k: int|
                0 <= k < cs.len() ==> pixel_sample_outcome(
                    *cam,
                    world@,
                    col as int,
                    row as int,
                    width as int,
                    height as int,
                    max_depth as nat,
                    #[trigger] cs[k],
                )) && (scene_conserves_energy(world@) ==> forall|k: int|
                0 <= k < cs.len() ==> in_unit_range(#[trigger] cs[k])),
{
    let mut sum = Vec3D { x: 0, y: 0, z: 0 };
    let ghost mut cs: Seq<Colour> = Seq::empty();
    let mut k: u32 = 0;
    while k < samples
        invariant
            k <= samples,
            width >= 2,
            height >= 2,
            scene_valid(world@),
            cs.len() == k,
            sum == colour_sum(cs),
            scene_conserves_energy(world@) ==> forall|j: int| 0 <= j < cs.len() ==> in_unit_range(#[trigger] cs[j]),
            forall|j: int|
                0 <= j < cs.len() ==> pixel_sample_outcome(
                    *cam,
                    world@,
                    col as int,
                    row as int,
                    width as int,
                    height as int,
                    max_depth as nat,
                    #[trigger] cs[j],
                ),
        decreases samples - k,
    {
        let js = random_range(0, SCALE as i64);
        let jt = random_range(0, SCALE as i64);
        let s = pixel_coordinate(col, js, width);
        let t = pixel_coordinate(row, jt, height);
        let r = cam.get_ray(s, t);
        let c = ray_colour(&r, world, max_depth);
        proof {
            let disk = choose|disk: Vec3D|
                len_sq_raw(disk) < SCALE * SCALE && bounded(disk) && r == #[trigger] get_ray_spec(
                    *cam,
                    s as int,
                    t as int,
                    disk,
                );
            assert(pixel_sample_outcome(
                *cam,
                world@,
                col as int,
                row as int,
                width as int,
                height as int,
                max_depth as nat,
                c,
            )) by {
                assert(get_ray_spec(
                    *cam,
                    plane_coord(col as int, js as int, width as int),
                    plane_coord(row as int, jt as int, height as int),
                    disk,
                ) == r);
            }
            assert(cs.push(c).drop_last() =~= cs);
            cs = cs.push(c);
        }
        sum = sum.add(&c);
        k = k + 1;
    }
    sum
}

/// The material of any hit in a scene of energy-conserving materials
/// conserves energy.
proof fn lemma_hit_material_energy(objects: Seq<Sphere>, r: Ray, t_min: int, t_max: int)
    requires
        scene_conserves_energy(objects),
    ensures
        list_hit_spec(objects, r, t_min, t_max) matches Some(h) ==> h.1.conserves_energy(),
    decreases objects.len(),
{
    if objects.len() > 0 {
        let prev = objects.drop_last();
        assert(scene_conserves_energy(prev)) by {
            assert forall|i: int| 0 <= i < prev.len() implies (#[trigger] prev[i]).material.conserves_energy() by {
                assert(prev[i] == objects[i]);
            }
        }
        lemma_hit_material_energy(prev, r, t_min, t_max);
        assert(objects.last() == objects[objects.len() - 1]);
    }
}

/// The material of any hit in a scene of valid materials is valid.
proof fn lemma_hit_material_valid(objects: Seq<Sphere>, r: Ray, t_min: int, t_max: int)
    requires
        scene_valid(objects),
    ensures
        list_hit_spec(objects, r, t_min, t_max) matches Some(h) ==> h.1.valid(),
    decreases objects.len(),
{
    if objects.len() > 0 {
        let prev = objects.drop_last();
        assert(scene_valid(prev)) by {
            assert forall|i: int| 0 <= i < prev.len() implies (#[trigger] prev[i]).material.valid() by {
                assert(prev[i] == objects[i]);
            }
        }
        lemma_hit_material_valid(prev, r, t_min, t_max);
        assert(objects.last() == objects[objects.len() - 1]);
    }
}

} // verus!
