//! Surface materials and how they scatter light.

use vstd::prelude::*;
use crate::fixed::{fdiv, fmul, lemma_fdiv_unit, lemma_fmul_one, lemma_fmul_unit, isqrt, isqrt_wide, lemma_root_below, tdiv_wide, SCALE, SCALE_SQ};
use crate::hittable::HitRecord;
use crate::ray::Ray;
use crate::sampling::random_range;
use crate::vec3d::{
    add_spec, bounded, dot_raw, length_spec, lemma_product_bound, dot_spec, is_zero, len_sq_raw, neg_spec, reflect_spec, refract_perp, refract_spec, scale_spec,
    unit_spec, Colour, Vec3D,
};

verus! {

/// How a surface scatters the light that reaches it.
#[derive(Debug, Clone, Copy, PartialEq, Eq, Structural)]
pub enum Material {
    /// A diffuse surface.
    Lambertian { albedo: Colour },
    /// A reflective surface; `fuzziness` in `[0, SCALE]` blurs the reflection.
    Metal { albedo: Colour, fuzziness: i32 },
    /// A transparent, refracting surface such as glass.
    Dielectric { refr_index: i32 },
}

/// Each channel of the colour lies in `[0, 1]`.
pub open spec fn in_unit_range(c: Colour) -> bool {
    0 <= c.x <= SCALE && 0 <= c.y <= SCALE && 0 <= c.z <= SCALE
}

impl Material {
    /// The parameters lie in their ranges: fuzziness in `[0, 1]`, a positive
    /// refractive index.
    pub open spec fn valid(self) -> bool {
        match self {
            Material::Lambertian { .. } => true,
            Material::Metal { fuzziness, .. } => 0 <= fuzziness <= SCALE,
            Material::Dielectric { refr_index } => refr_index > 0,
        }
    }

    /// The surface reflects no more light than reaches it: every albedo
    /// channel lies in `[0, 1]`.
    pub open spec fn conserves_energy(self) -> bool {
        match self {
            Material::Lambertian { albedo } => in_unit_range(albedo),
            Material::Metal { albedo, .. } => in_unit_range(albedo),
            Material::Dielectric { .. } => true,
        }
    }

    /// Whether the parameters lie in their ranges.
    pub fn is_valid(&self) -> (r: bool)
        ensures
            r == self.valid(),
    {
        match self {
            Material::Lambertian { .. } => true,
            Material::Metal { fuzziness, .. } => 0 <= *fuzziness && *fuzziness <= SCALE,
            Material::Dielectric { refr_index } => *refr_index > 0,
        }
    }
}

/// `v` confined to `[lo, hi]`.
pub open spec fn confine(v: int, lo: int, hi: int) -> int {
    if v < lo {
        lo
    } else if v > hi {
        hi
    } else {
        v
    }
}

/// The ratio of refractive indices across the surface: `1 / refr_index`
/// entering from outside, `refr_index` leaving.
pub open spec fn index_ratio(refr_index: int, front_face: bool) -> int {
    if front_face {
        fdiv(SCALE as int, refr_index)
    } else {
        refr_index
    }
}

/// The cosine of the angle between the reversed unit direction and the
/// normal, confined to `[0, 1]`.
pub open spec fn cos_incidence(unit_dir: Vec3D, normal: Vec3D) -> int {
    confine(dot_spec(neg_spec(unit_dir), normal), 0, SCALE as int)
}

/// The sine that belongs to a cosine in `[0, 1]`.
pub open spec fn sin_from_cos(cos: int) -> int {
    isqrt(SCALE * SCALE - cos * cos)
}

/// Schlick's approximation of the Fresnel reflectance:
/// `r0 + (1 - r0) (1 - cos)^5` with `r0 = ((1 - ratio) / (1 + ratio))^2`.
pub open spec fn schlick(cos: int, ratio: int) -> int {
    let q = fdiv(SCALE - ratio, SCALE + ratio);
    let r0 = fmul(q, q);
    let m = SCALE - cos;
    let m5 = fmul(fmul(fmul(fmul(m, m), m), m), m);
    r0 + fmul(SCALE - r0, m5)
}

/// The light is reflected, not refracted: always under total internal
/// reflection, otherwise when the draw falls below the reflectance. (A
/// dielectric also reflects where the perpendicular part of the refracted
/// direction, as computed, is longer than one: total internal reflection as
/// the rounding shows it.)
pub open spec fn reflects(cos: int, ratio: int, draw: int) -> bool {
    fmul(ratio, sin_from_cos(cos)) > SCALE || draw < schlick(cos, ratio)
}

/// The direction a metal sends `d` in, off a surface with normal `n`: the
/// mirror image of `d` blurred by `f` times the point `s` of the unit ball.
/// The blur is scaled by the length of `d`, so the result is `|d|` times
/// the blurred reflection of the unit direction; reflecting `d` itself keeps
/// a small component along the normal that normalising would round away.
pub open spec fn metal_direction(d: Vec3D, n: Vec3D, f: int, s: Vec3D) -> Vec3D {
    add_spec(reflect_spec(d, n), scale_spec(s, fmul(f, length_spec(d))))
}

/// Full intensity in every channel.
pub open spec fn white() -> Colour {
    Vec3D { x: SCALE, y: SCALE, z: SCALE }
}

/// The scattering of `r_in` at `rec`, given the random quantities: `sample`,
/// the unit vector of a Lambertian surface or the point of the unit ball that
/// blurs a metal, and `draw` in `[0, 1)`, which chooses between reflection and
/// refraction in a dielectric.
pub open spec fn scatter_spec(m: Material, r_in: Ray, rec: HitRecord, sample: Vec3D, draw: int) -> Option<(Ray, Colour)> {
    match m {
        Material::Lambertian { albedo } => Some(
            (Ray { origin: rec.p, direction: add_spec(rec.normal, sample), time: r_in.time }, albedo),
        ),
        Material::Metal { albedo, fuzziness } => {
            let direction = metal_direction(r_in.direction, rec.normal, fuzziness as int, sample);
            if dot_raw(direction, rec.normal) > 0 {
                Some((Ray { origin: rec.p, direction, time: r_in.time }, albedo))
            } else {
                None
            }
        },
        Material::Dielectric { refr_index } => {
            let ratio = index_ratio(refr_index as int, rec.front_face);
            let unit = unit_spec(r_in.direction);
            let cos = cos_incidence(unit, rec.normal);
            let direction = if reflects(cos, ratio, draw) || len_sq_raw(refract_perp(unit, rec.normal, ratio))
                > SCALE * SCALE {
                reflect_spec(unit, rec.normal)
            } else {
                refract_spec(unit, rec.normal, ratio)
            };
            Some((Ray { origin: rec.p, direction, time: r_in.time }, white()))
        },
    }
}

/// What a surface may draw as its random sample: for a Lambertian surface a
/// unit vector, for a metal a point of the unit ball.
pub open spec fn sample_fits(m: Material, sample: Vec3D) -> bool {
    match m {
        Material::Lambertian { .. } => exists|v: Vec3D| !is_zero(v) && sample == unit_spec(v),
        Material::Metal { .. } => len_sq_raw(sample) < SCALE * SCALE && bounded(sample),
        Material::Dielectric { .. } => true,
    }
}

impl Material {
    /// Scatters `r_in` at `rec` with the given random quantities; see
    /// `scatter_spec`.
    pub fn scatter_with(&self, r_in: &Ray, rec: &HitRecord, sample: &Vec3D, draw: i64) -> (res: Option<(Ray, Colour)>)
        requires
            self.valid(),
        ensures
            res == scatter_spec(*self, *r_in, *rec, *sample, draw as int),
    {
        match self {
            Material::Lambertian { albedo } => {
                Some((Ray { origin: rec.p, direction: rec.normal.add(sample), time: r_in.time }, *albedo))
            },
            Material::Metal { albedo, fuzziness } => {
                let len = r_in.direction.length();
                assert(0 <= *fuzziness * len <= SCALE * 0x1_0000_0000) by (nonlinear_arith)
                    requires
                        0 <= *fuzziness <= SCALE,
                        0 <= len < 0x1_0000_0000,
                ;
                let blur = tdiv_wide(*fuzziness as i128 * len as i128, SCALE as i128) as i64;
                let direction = r_in.direction.reflect(&rec.normal).add(&sample.scale(blur));
                assert(direction == metal_direction(r_in.direction, rec.normal, *fuzziness as int, *sample));
                if direction.dot_raw(&rec.normal) > 0 {
                    Some((Ray { origin: rec.p, direction, time: r_in.time }, *albedo))
                } else {
                    None
                }
            },
            Material::Dielectric { refr_index } => {
                let ratio: i64 = if rec.front_face {
                    proof {
                        vstd::arithmetic::div_mod::lemma_div_is_ordered_by_denominator(
                            SCALE * SCALE,
                            *refr_index as int,
                            0x8000_0000,
                        );
                        vstd::arithmetic::div_mod::lemma_div_is_ordered_by_denominator(SCALE * SCALE, 1, *refr_index as int);
                    }
                    tdiv_wide(SCALE_SQ, *refr_index as i128) as i64
                } else {
                    *refr_index as i64
                };
                let unit = r_in.direction.unit_vector();
                let cos = cos_of(&unit, &rec.normal);
                let perp = unit.refract_perp(&rec.normal, ratio);
                let direction = if reflects_exec(cos, ratio, draw) || perp.length_squared_raw() > SCALE_SQ {
                    unit.reflect(&rec.normal)
                } else {
                    unit.refract(&rec.normal, ratio)
                };
                Some((Ray { origin: rec.p, direction, time: r_in.time }, Vec3D { x: SCALE, y: SCALE, z: SCALE }))
            },
        }
    }

    /// Scatters `r_in` at `rec`, drawing the random quantities: the result is
    /// `scatter_spec` for some sample that suits the material and some draw
    /// in `[0, 1)`.
    pub fn scatter(&self, r_in: &Ray, rec: HitRecord) -> (res: Option<(Ray, Colour)>)
        requires
            self.valid(),
        ensures
            exists|sample: Vec3D, draw: int|
                sample_fits(*self, sample) && 0 <= draw < SCALE && res == scatter_spec(*self, *r_in, rec, sample, draw),
    {
        let sample = match self {
            Material::Lambertian { .. } => Vec3D::random_unit_vector(),
            Material::Metal { .. } => Vec3D::random_in_unit_sphere(),
            Material::Dielectric { .. } => Vec3D { x: 0, y: 0, z: 0 },
        };
        let draw = random_range(0, SCALE as i64);
        let res = self.scatter_with(r_in, &rec, &sample, draw);
        assert(sample_fits(*self, sample) && 0 <= draw < SCALE && res == scatter_spec(*self, *r_in, rec, sample, draw as int));
        res
    }
}

/// No material gains energy: where every albedo channel lies in `[0, 1]`,
/// so does every channel of the attenuation that scattering returns.
pub proof fn lemma_attenuation_in_range(m: Material, r_in: Ray, rec: HitRecord, sample: Vec3D, draw: int)
    requires
        m.conserves_energy(),
    ensures
        scatter_spec(m, r_in, rec, sample, draw) matches Some(sc) ==> in_unit_range(sc.1),
{
}

/// At grazing incidence Schlick's reflectance is exactly one.
pub proof fn lemma_schlick_grazing(ratio: int)
    ensures
        schlick(0, ratio) == SCALE,
{
    lemma_fmul_one(SCALE as int);
    let q = fdiv(SCALE - ratio, SCALE + ratio);
    lemma_fmul_one(SCALE - fmul(q, q));
}

/// One factor of `(1 - cos)^5`: a lower bound `S - k c` on the product so far
/// gives `S - (k + 1) c` after one more factor, Bernoulli's inequality.
proof fn lemma_power_factor(mk: int, c: int, k: int)
    requires
        0 <= c <= SCALE,
        0 <= mk <= SCALE,
        k >= 0,
        mk >= SCALE - k * c,
    ensures
        0 <= fmul(mk, SCALE - c) <= SCALE,
        fmul(mk, SCALE - c) >= SCALE - (k + 1) * c,
{
    let m = SCALE - c;
    lemma_fmul_unit(mk, m);
    assert(mk * m >= 0) by (nonlinear_arith)
        requires
            mk >= 0,
            m >= 0,
    ;
    let x = SCALE - (k + 1) * c;
    assert((k + 1) * c == k * c + c) by (nonlinear_arith);
    if x > 0 {
        assert(SCALE * x <= mk * m) by (nonlinear_arith)
            requires
                mk >= SCALE - k * c,
                SCALE - k * c > 0,
                m == SCALE - c,
                0 <= c <= SCALE,
                k >= 0,
                x == SCALE - (k + 1) * c,
        ;
        vstd::arithmetic::div_mod::lemma_div_is_ordered(SCALE * x, mk * m, SCALE as int);
        vstd::arithmetic::div_mod::lemma_div_by_multiple(x, SCALE as int);
        assert(SCALE * x == x * SCALE) by (nonlinear_arith);
    }
}

/// Near grazing incidence Schlick's reflectance is close to one: at least
/// `1 - 5 cos`.
pub proof fn lemma_schlick_near_grazing(cos: int, ratio: int)
    requires
        0 <= cos <= SCALE,
        ratio > 0,
    ensures
        schlick(cos, ratio) >= SCALE - 5 * cos,
{
    let q = fdiv(SCALE - ratio, SCALE + ratio);
    lemma_fdiv_unit(SCALE - ratio, SCALE + ratio);
    lemma_fmul_unit(q, q);
    assert(q * q >= 0) by (nonlinear_arith);
    let r0 = fmul(q, q);
    let m = SCALE - cos;
    lemma_fmul_one(m);
    lemma_power_factor(m, cos, 1);
    let m2 = fmul(m, m);
    lemma_power_factor(m2, cos, 2);
    let m3 = fmul(m2, m);
    lemma_power_factor(m3, cos, 3);
    let m4 = fmul(m3, m);
    lemma_power_factor(m4, cos, 4);
    let m5 = fmul(m4, m);
    let x = SCALE - 5 * cos;
    lemma_fmul_unit(SCALE - r0, m5);
    assert((SCALE - r0) * m5 >= 0) by (nonlinear_arith)
        requires
            0 <= r0 <= SCALE,
            m5 >= 0,
    ;
    if x > 0 {
        // (1 - r0) m5 >= (1 - r0) (1 - 5 cos) >= (1 - r0) - 5 cos.
        assert(SCALE * (SCALE - r0 - 5 * cos) <= (SCALE - r0) * m5) by (nonlinear_arith)
            requires
                0 <= r0 <= SCALE,
                m5 >= x,
                x == SCALE - 5 * cos,
                cos >= 0,
        ;
        if SCALE - r0 - 5 * cos > 0 {
            vstd::arithmetic::div_mod::lemma_div_is_ordered(
                SCALE * (SCALE - r0 - 5 * cos),
                (SCALE - r0) * m5,
                SCALE as int,
            );
            vstd::arithmetic::div_mod::lemma_div_by_multiple(SCALE - r0 - 5 * cos, SCALE as int);
            assert(SCALE * (SCALE - r0 - 5 * cos) == (SCALE - r0 - 5 * cos) * SCALE) by (nonlinear_arith);
        }
    }
}

/// A dielectric of refractive index at least one, struck from outside near
/// grazing incidence, reflects for every draw below `1 - 5 cos`: with
/// probability at least `1 - 5 cos`.
pub proof fn lemma_near_grazing_reflects(refr_index: i32, r_in: Ray, rec: HitRecord, draw: int)
    requires
        refr_index >= SCALE,
        rec.front_face,
        0 <= draw < SCALE - 5 * cos_incidence(unit_spec(r_in.direction), rec.normal),
    ensures
        scatter_spec(Material::Dielectric { refr_index }, r_in, rec, Vec3D { x: 0, y: 0, z: 0 }, draw) == Some(
            (
                Ray {
                    origin: rec.p,
                    direction: reflect_spec(unit_spec(r_in.direction), rec.normal),
                    time: r_in.time,
                },
                white(),
            ),
        ),
{
    let ratio = index_ratio(refr_index as int, true);
    let cos = cos_incidence(unit_spec(r_in.direction), rec.normal);
    vstd::arithmetic::div_mod::lemma_div_is_ordered_by_denominator(SCALE * SCALE, 1, refr_index as int);
    vstd::arithmetic::div_mod::lemma_div_is_ordered_by_denominator(SCALE * SCALE, refr_index as int, 0x8000_0000);
    assert(ratio > 0);
    lemma_schlick_near_grazing(cos, ratio);
    assert(reflects(cos, ratio, draw));
}

/// A dielectric of refractive index at least one, struck from outside at
/// grazing incidence, reflects whatever the draw in `[0, 1)`.
pub proof fn lemma_grazing_reflects(refr_index: i32, r_in: Ray, rec: HitRecord, draw: int)
    requires
        refr_index >= SCALE,
        rec.front_face,
        cos_incidence(unit_spec(r_in.direction), rec.normal) == 0,
        0 <= draw < SCALE,
    ensures
        scatter_spec(Material::Dielectric { refr_index }, r_in, rec, Vec3D { x: 0, y: 0, z: 0 }, draw) == Some(
            (
                Ray {
                    origin: rec.p,
                    direction: reflect_spec(unit_spec(r_in.direction), rec.normal),
                    time: r_in.time,
                },
                white(),
            ),
        ),
{
    let ratio = index_ratio(refr_index as int, true);
    vstd::arithmetic::div_mod::lemma_div_is_ordered_by_denominator(SCALE * SCALE, SCALE as int, refr_index as int);
    vstd::arithmetic::div_mod::lemma_div_by_multiple(SCALE as int, SCALE as int);
    vstd::arithmetic::div_mod::lemma_div_pos_is_pos(SCALE * SCALE, refr_index as int);
    crate::fixed::lemma_isqrt(SCALE * SCALE);
    crate::fixed::lemma_root_unique(SCALE * SCALE, sin_from_cos(0), SCALE as int);
    lemma_fmul_one(ratio);
    lemma_schlick_grazing(ratio);
    assert(reflects(0, ratio, draw));
}

/// The cosine of incidence.
fn cos_of(unit: &Vec3D, normal: &Vec3D) -> (r: i64)
    ensures
        r == cos_incidence(*unit, *normal),
        0 <= r <= SCALE,
{
    let c = unit.neg().dot(normal);
    if c < 0 {
        0
    } else if c > SCALE as i64 {
        SCALE as i64
    } else {
        c
    }
}

/// The fixed-point product of two scalars in `[-1, 1]`.
fn fmul_unit(a: i64, b: i64) -> (r: i64)
    requires
        -SCALE <= a <= SCALE,
        -SCALE <= b <= SCALE,
    ensures
        r == fmul(a as int, b as int),
        -SCALE <= r <= SCALE,
        a * b >= 0 ==> r >= 0,
{
    proof {
        lemma_fmul_unit(a as int, b as int);
        lemma_product_bound(a as int, b as int);
    }
    tdiv_wide(a as i128 * b as i128, SCALE as i128) as i64
}

/// Schlick's reflectance; see `schlick`.
fn schlick_exec(cos: i64, ratio: i64) -> (r: i64)
    requires
        0 <= cos <= SCALE,
        0 < ratio <= 0x1_0000_0000,
    ensures
        r == schlick(cos as int, ratio as int),
{
    let s = SCALE as i64;
    let x = (s - ratio) as i128;
    let y = (s + ratio) as i128;
    proof {
        lemma_fdiv_unit(x as int, y as int);
    }
    let q = tdiv_wide(x * SCALE as i128, y) as i64;
    let r0 = fmul_unit(q, q);
    proof {
        assert(q * q >= 0) by (nonlinear_arith);
    }
    let m = s - cos;
    let m2 = fmul_unit(m, m);
    let m3 = fmul_unit(m2, m);
    let m4 = fmul_unit(m3, m);
    let m5 = fmul_unit(m4, m);
    proof {
        assert(m * m >= 0) by (nonlinear_arith) requires m >= 0;
        assert(m2 * m >= 0) by (nonlinear_arith) requires m2 >= 0, m >= 0;
        assert(m3 * m >= 0) by (nonlinear_arith) requires m3 >= 0, m >= 0;
    }
    r0 + fmul_unit(s - r0, m5)
}

/// Whether a dielectric reflects; see `reflects`.
fn reflects_exec(cos: i64, ratio: i64, draw: i64) -> (r: bool)
    requires
        0 <= cos <= SCALE,
        0 < ratio <= 0x1_0000_0000,
    ensures
        r == reflects(cos as int, ratio as int, draw as int),
{
    let c = cos as i128;
    assert(0 <= c * c <= SCALE * SCALE) by (nonlinear_arith)
        requires
            0 <= c <= SCALE,
    ;
    let sin = isqrt_wide((SCALE_SQ - c * c) as u128);
    proof {
        lemma_root_below(SCALE * SCALE - c * c, sin as int, SCALE + 1);
        assert(0 <= ratio * sin <= 0x1_0000_0000 * (SCALE + 1)) by (nonlinear_arith)
            requires
                0 < ratio <= 0x1_0000_0000,
                0 <= sin <= SCALE + 1,
        ;
    }
    let bent = tdiv_wide(ratio as i128 * sin as i128, SCALE as i128);
    bent > SCALE as i128 || draw < schlick_exec(cos, ratio)
}

} // verus!