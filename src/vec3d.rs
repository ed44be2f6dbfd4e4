//! Three-component fixed-point vectors, used for points, directions and colours.

use vstd::prelude::*;
use crate::sampling::random_range;
use crate::fixed::{clamp, clamp_wide, fdiv, fmul, isqrt, isqrt_wide, lemma_isqrt_ge, lemma_root_below, tdiv, tdiv_wide, LIMIT, SCALE, SCALE_SQ};

verus! {

/// A vector of three fixed-point components.
#[derive(Debug, Clone, Copy, PartialEq, Eq, Structural)]
pub struct Vec3D {
    pub x: i32,
    pub y: i32,
    pub z: i32,
}

/// A position in space.
pub type Point3D = Vec3D;

/// An RGB colour; one unit (`SCALE`) is full intensity.
pub type Colour = Vec3D;

/// The vector with the given components, each saturated into `[-LIMIT, LIMIT]`.
pub open spec fn clamped(x: int, y: int, z: int) -> Vec3D {
    Vec3D { x: clamp(x) as i32, y: clamp(y) as i32, z: clamp(z) as i32 }
}

/// The dot product in raw units squared, without rounding.
pub open spec fn dot_raw(a: Vec3D, b: Vec3D) -> int {
    a.x * b.x + a.y * b.y + a.z * b.z
}

/// The squared Euclidean norm in raw units squared, without rounding.
pub open spec fn len_sq_raw(a: Vec3D) -> int {
    dot_raw(a, a)
}

pub open spec fn is_zero(a: Vec3D) -> bool {
    a.x == 0 && a.y == 0 && a.z == 0
}

/// Every component lies in `[-LIMIT, LIMIT]`.
pub open spec fn bounded(a: Vec3D) -> bool {
    -LIMIT <= a.x <= LIMIT && -LIMIT <= a.y <= LIMIT && -LIMIT <= a.z <= LIMIT
}

pub open spec fn add_spec(a: Vec3D, b: Vec3D) -> Vec3D {
    clamped(a.x + b.x, a.y + b.y, a.z + b.z)
}

pub open spec fn sub_spec(a: Vec3D, b: Vec3D) -> Vec3D {
    clamped(a.x - b.x, a.y - b.y, a.z - b.z)
}

pub open spec fn neg_spec(a: Vec3D) -> Vec3D {
    clamped(-a.x, -a.y, -a.z)
}

/// The component-wise product.
pub open spec fn mul_spec(a: Vec3D, b: Vec3D) -> Vec3D {
    clamped(fmul(a.x as int, b.x as int), fmul(a.y as int, b.y as int), fmul(a.z as int, b.z as int))
}

/// The product with a scalar.
pub open spec fn scale_spec(a: Vec3D, s: int) -> Vec3D {
    clamped(fmul(a.x as int, s), fmul(a.y as int, s), fmul(a.z as int, s))
}

/// The quotient by a positive scalar.
pub open spec fn div_spec(a: Vec3D, s: int) -> Vec3D {
    clamped(fdiv(a.x as int, s), fdiv(a.y as int, s), fdiv(a.z as int, s))
}

/// The fixed-point dot product.
pub open spec fn dot_spec(a: Vec3D, b: Vec3D) -> int {
    tdiv(dot_raw(a, b), SCALE as int)
}

pub open spec fn cross_spec(a: Vec3D, b: Vec3D) -> Vec3D {
    clamped(
        tdiv(a.y * b.z - a.z * b.y, SCALE as int),
        tdiv(a.z * b.x - a.x * b.z, SCALE as int),
        tdiv(a.x * b.y - a.y * b.x, SCALE as int),
    )
}

/// The fixed-point Euclidean norm.
pub open spec fn length_spec(a: Vec3D) -> int {
    isqrt(len_sq_raw(a))
}

/// `2^64`: the norm is taken at 32 extra bits of precision when normalising.
pub open spec fn norm_shift() -> int {
    0x1_0000_0000_0000_0000
}

/// The norm at 32 extra bits of precision.
pub open spec fn fine_length(a: Vec3D) -> int {
    isqrt(len_sq_raw(a) * norm_shift())
}

/// `a` divided by its norm; the zero vector stays zero.
pub open spec fn unit_spec(a: Vec3D) -> Vec3D {
    if is_zero(a) {
        a
    } else {
        clamped(
            tdiv(a.x * 0x1_0000_0000_0000, fine_length(a)),
            tdiv(a.y * 0x1_0000_0000_0000, fine_length(a)),
            tdiv(a.z * 0x1_0000_0000_0000, fine_length(a)),
        )
    }
}

/// The mirror image of `v` about the plane with normal `n`: `v - 2 (v . n) n`.
pub open spec fn reflect_spec(v: Vec3D, n: Vec3D) -> Vec3D {
    sub_spec(v, scale_spec(n, 2 * dot_spec(v, n)))
}

/// The part of a refracted direction that is perpendicular to the normal.
pub open spec fn refract_perp(uv: Vec3D, n: Vec3D, ratio: int) -> Vec3D {
    scale_spec(add_spec(uv, scale_spec(n, dot_spec(neg_spec(uv), n))), ratio)
}

/// The magnitude, along the normal, of a refracted direction.
pub open spec fn refract_par_len(uv: Vec3D, n: Vec3D, ratio: int) -> int {
    isqrt(SCALE * SCALE - len_sq_raw(refract_perp(uv, n, ratio)))
}

/// Snell's law for the unit direction `uv` through a surface with unit normal `n`.
pub open spec fn refract_spec(uv: Vec3D, n: Vec3D, ratio: int) -> Vec3D {
    add_spec(refract_perp(uv, n, ratio), scale_spec(n, -refract_par_len(uv, n, ratio)))
}

pub open spec fn abs_int(v: int) -> int {
    if v < 0 {
        -v
    } else {
        v
    }
}

impl Vec3D {
    pub fn new(x: i32, y: i32, z: i32) -> (r: Vec3D)
        ensures
            r == (Vec3D { x, y, z }),
    {
        Vec3D { x, y, z }
    }

    pub fn x(&self) -> (r: i32)
        ensures
            r == self.x,
    {
        self.x
    }

    pub fn y(&self) -> (r: i32)
        ensures
            r == self.y,
    {
        self.y
    }

    pub fn z(&self) -> (r: i32)
        ensures
            r == self.z,
    {
        self.z
    }

    /// The squared length in raw units squared.
    pub(crate) fn length_squared_raw(&self) -> (r: i128)
        ensures
            r == len_sq_raw(*self),
            0 <= r <= 3 * 0x4000_0000_0000_0000,
    {
        proof {
            lemma_square_nonneg(self.x as int);
            lemma_square_nonneg(self.y as int);
            lemma_square_nonneg(self.z as int);
        }
        self.dot_raw(self)
    }

    pub(crate) fn dot_raw(&self, other: &Vec3D) -> (r: i128)
        ensures
            r == dot_raw(*self, *other),
            -3 * 0x4000_0000_0000_0000 <= r <= 3 * 0x4000_0000_0000_0000,
    {
        let (ax, ay, az) = (self.x as i128, self.y as i128, self.z as i128);
        let (bx, by, bz) = (other.x as i128, other.y as i128, other.z as i128);
        proof {
            lemma_product_bound(ax as int, bx as int);
            lemma_product_bound(ay as int, by as int);
            lemma_product_bound(az as int, bz as int);
        }
        ax * bx + ay * by + az * bz
    }

    pub fn length_squared(&self) -> (r: i64)
        ensures
            r == tdiv(len_sq_raw(*self), SCALE as int),
    {
        tdiv_wide(self.length_squared_raw(), SCALE as i128) as i64
    }

    pub fn length(&self) -> (r: i64)
        ensures
            r == length_spec(*self),
            0 <= r < 0x1_0000_0000,
    {
        let r = isqrt_wide(self.length_squared_raw() as u128);
        proof {
            lemma_root_below(len_sq_raw(*self), r as int, 0x1_0000_0000);
        }
        r as i64
    }

    pub fn dot(&self, other: &Vec3D) -> (r: i64)
        ensures
            r == dot_spec(*self, *other),
            -0xc000_0000_0000 <= r <= 0xc000_0000_0000,
    {
        tdiv_wide(self.dot_raw(other), SCALE as i128) as i64
    }

    pub fn cross(&self, other: &Vec3D) -> (r: Vec3D)
        ensures
            r == cross_spec(*self, *other),
    {
        let (ax, ay, az) = (self.x as i128, self.y as i128, self.z as i128);
        let (bx, by, bz) = (other.x as i128, other.y as i128, other.z as i128);
        proof {
            lemma_product_bound(ax as int, bz as int);
            lemma_product_bound(ax as int, by as int);
            lemma_product_bound(ay as int, bx as int);
            lemma_product_bound(ay as int, bz as int);
            lemma_product_bound(az as int, bx as int);
            lemma_product_bound(az as int, by as int);
        }
        let s = SCALE as i128;
        Vec3D {
            x: clamp_wide(tdiv_wide(ay * bz - az * by, s)),
            y: clamp_wide(tdiv_wide(az * bx - ax * bz, s)),
            z: clamp_wide(tdiv_wide(ax * by - ay * bx, s)),
        }
    }

    pub fn add(&self, other: &Vec3D) -> (r: Vec3D)
        ensures
            r == add_spec(*self, *other),
    {
        Vec3D {
            x: clamp_wide(self.x as i128 + other.x as i128),
            y: clamp_wide(self.y as i128 + other.y as i128),
            z: clamp_wide(self.z as i128 + other.z as i128),
        }
    }

    pub fn sub(&self, other: &Vec3D) -> (r: Vec3D)
        ensures
            r == sub_spec(*self, *other),
    {
        Vec3D {
            x: clamp_wide(self.x as i128 - other.x as i128),
            y: clamp_wide(self.y as i128 - other.y as i128),
            z: clamp_wide(self.z as i128 - other.z as i128),
        }
    }

    pub fn neg(&self) -> (r: Vec3D)
        ensures
            r == neg_spec(*self),
    {
        Vec3D {
            x: clamp_wide(-(self.x as i128)),
            y: clamp_wide(-(self.y as i128)),
            z: clamp_wide(-(self.z as i128)),
        }
    }

    /// The component with the given index: `x`, `y`, `z` for 0, 1, 2.
    pub fn index(&self, idx: usize) -> (r: i32)
        requires
            idx < 3,
        ensures
            idx == 0 ==> r == self.x,
            idx == 1 ==> r == self.y,
            idx == 2 ==> r == self.z,
    {
        if idx == 0 {
            self.x
        } else if idx == 1 {
            self.y
        } else {
            self.z
        }
    }

    /// Adds `other` in place.
    pub fn add_assign(&mut self, other: &Vec3D)
        ensures
            *final(self) == add_spec(*old(self), *other),
    {
        *self = self.add(other);
    }

    /// Multiplies by `other` component-wise in place.
    pub fn mul_assign(&mut self, other: &Vec3D)
        ensures
            *final(self) == mul_spec(*old(self), *other),
    {
        *self = self.mul(other);
    }

    /// The component-wise product, as colours are attenuated.
    pub fn mul(&self, other: &Vec3D) -> (r: Vec3D)
        ensures
            r == mul_spec(*self, *other),
    {
        Vec3D {
            x: scale_component(self.x, other.x as i64),
            y: scale_component(self.y, other.y as i64),
            z: scale_component(self.z, other.z as i64),
        }
    }

    pub fn scale(&self, s: i64) -> (r: Vec3D)
        ensures
            r == scale_spec(*self, s as int),
    {
        Vec3D {
            x: scale_component(self.x, s),
            y: scale_component(self.y, s),
            z: scale_component(self.z, s),
        }
    }

    pub fn div_scalar(&self, s: i64) -> (r: Vec3D)
        requires
            s > 0,
        ensures
            r == div_spec(*self, s as int),
    {
        let w = SCALE as i128;
        Vec3D {
            x: clamp_wide(tdiv_wide(self.x as i128 * w, s as i128)),
            y: clamp_wide(tdiv_wide(self.y as i128 * w, s as i128)),
            z: clamp_wide(tdiv_wide(self.z as i128 * w, s as i128)),
        }
    }
}

/// The largest component magnitude of a unit vector drawn at random.
const UNIT: i32 = 65536;

impl Vec3D {
    /// The vector divided by its length; the zero vector is returned unchanged.
    pub fn unit_vector(&self) -> (r: Vec3D)
        ensures
            r == unit_spec(*self),
            !is_zero(*self) ==> SCALE - 4 <= length_spec(r) <= SCALE,
    {
        if self.x == 0 && self.y == 0 && self.z == 0 {
            return *self;
        }
        proof {
            lemma_unit_length(*self);
        }
        let l2 = self.length_squared_raw();
        proof {
            lemma_nonzero_len_sq(*self);
        }
        let m = isqrt_wide(l2 as u128 * 0x1_0000_0000_0000_0000u128);
        proof {
            assert(l2 * 0x1_0000_0000_0000_0000 >= 1) by (nonlinear_arith)
                requires
                    l2 >= 1,
            ;
            lemma_isqrt_ge(l2 * 0x1_0000_0000_0000_0000, 1);
        }
        let w: i128 = 0x1_0000_0000_0000;
        let mw = m as i128;
        Vec3D {
            x: clamp_wide(tdiv_wide(self.x as i128 * w, mw)),
            y: clamp_wide(tdiv_wide(self.y as i128 * w, mw)),
            z: clamp_wide(tdiv_wide(self.z as i128 * w, mw)),
        }
    }

    /// The mirror image about the plane with the given normal.
    pub fn reflect(&self, normal: &Vec3D) -> (r: Vec3D)
        ensures
            r == reflect_spec(*self, *normal),
    {
        let d = self.dot(normal);
        self.sub(&normal.scale(2 * d))
    }

    /// Refracts this unit direction through a surface with the given unit
    /// normal, for the ratio of refractive indices `ratio`.
    /// The caller guarantees that no total internal reflection occurs: the
    /// perpendicular part is at most one long.
    pub fn refract(&self, normal: &Vec3D, ratio: i64) -> (r: Vec3D)
        requires
            len_sq_raw(refract_perp(*self, *normal, ratio as int)) <= SCALE * SCALE,
        ensures
            r == refract_spec(*self, *normal, ratio as int),
    {
        let perp = self.refract_perp(normal, ratio);
        let l2 = perp.length_squared_raw();
        let one: i128 = 0x1_0000_0000;
        let diff = one - l2;
        let par = isqrt_wide(diff as u128);
        proof {
            lemma_root_below(diff as int, par as int, 0x1_0000_0000);
        }
        perp.add(&normal.scale(-(par as i64)))
    }

    /// The part of a refracted direction perpendicular to the normal; see
    /// `refract_perp`.
    pub fn refract_perp(&self, normal: &Vec3D, ratio: i64) -> (r: Vec3D)
        ensures
            r == refract_perp(*self, *normal, ratio as int),
    {
        let cos_theta = self.neg().dot(normal);
        self.add(&normal.scale(cos_theta)).scale(ratio)
    }

    /// A vector whose components are drawn independently and uniformly from
    /// `[min, max)`.
    pub fn random(min: i32, max: i32) -> (r: Vec3D)
        requires
            min < max,
        ensures
            min <= r.x < max,
            min <= r.y < max,
            min <= r.z < max,
    {
        Vec3D {
            x: random_range(min as i64, max as i64) as i32,
            y: random_range(min as i64, max as i64) as i32,
            z: random_range(min as i64, max as i64) as i32,
        }
    }

    /// A point drawn uniformly from inside the unit ball, by rejection from
    /// the enclosing cube: the first accepted of the candidates drawn, or
    /// the centre should all `MAX_TRIES` be rejected.
    pub fn random_in_unit_sphere() -> (r: Vec3D)
        ensures
            exists|cands: Seq<Vec3D>|
                drawn_candidates(cands, false, false) && r == #[trigger] pick_or(cands, false, Vec3D { x: 0, y: 0, z: 0 }),
            len_sq_raw(r) < SCALE * SCALE,
            bounded(r),
    {
        let cands = draw_candidates(false, false);
        let r = match first_in_ball(&cands, false) {
            Some(v) => v,
            None => Vec3D { x: 0, y: 0, z: 0 },
        };
        proof {
            lemma_first_accepted_drawn(cands@, false, false);
            assert(r == pick_or(cands@, false, Vec3D { x: 0, y: 0, z: 0 }));
        }
        r
    }

    /// A point drawn uniformly from inside the unit disk of the `z = 0`
    /// plane, by rejection from the enclosing square; the centre should all
    /// `MAX_TRIES` candidates be rejected.
    pub fn random_in_unit_disk() -> (r: Vec3D)
        ensures
            exists|cands: Seq<Vec3D>|
                drawn_candidates(cands, true, false) && r == #[trigger] pick_or(cands, false, Vec3D { x: 0, y: 0, z: 0 }),
            len_sq_raw(r) < SCALE * SCALE,
            r.z == 0,
            bounded(r),
    {
        let cands = draw_candidates(true, false);
        let r = match first_in_ball(&cands, false) {
            Some(v) => v,
            None => Vec3D { x: 0, y: 0, z: 0 },
        };
        proof {
            lemma_first_accepted_drawn(cands@, true, false);
            assert(r == pick_or(cands@, false, Vec3D { x: 0, y: 0, z: 0 }));
        }
        r
    }

    /// A direction drawn uniformly from the unit sphere: the first non-zero
    /// candidate of the unit ball, which is uniform in direction, normalised;
    /// straight up should all `MAX_TRIES` candidates be rejected.
    pub fn random_unit_vector() -> (r: Vec3D)
        ensures
            exists|cands: Seq<Vec3D>|
                drawn_candidates(cands, false, true) && r == unit_spec(
                    #[trigger] pick_or(cands, true, Vec3D { x: 0, y: 0, z: SCALE }),
                ),
            exists|v: Vec3D| !is_zero(v) && r == unit_spec(v),
            SCALE - 4 <= length_spec(r) <= SCALE,
    {
        let cands = draw_candidates(false, true);
        let v = match first_in_ball(&cands, true) {
            Some(v) => v,
            None => Vec3D { x: 0, y: 0, z: UNIT },
        };
        proof {
            lemma_first_accepted_drawn(cands@, false, true);
            assert(v == pick_or(cands@, true, Vec3D { x: 0, y: 0, z: UNIT }));
        }
        let u = v.unit_vector();
        assert(!is_zero(v) && u == unit_spec(v));
        u
    }

    /// A point of the unit ball on the same side as `normal`.
    pub fn random_in_hemisphere(normal: &Vec3D) -> (r: Vec3D)
        ensures
            len_sq_raw(r) < SCALE * SCALE,
            dot_raw(r, *normal) >= 0,
    {
        let v = Vec3D::random_in_unit_sphere();
        if v.dot_raw(normal) >= 0 {
            v
        } else {
            proof {
                lemma_neg_exact(v, *normal);
            }
            v.neg()
        }
    }
}

/// A candidate of rejection sampling: a point of the cube `[-1, 1)^3`, or
/// with `flat` of the square `[-1, 1)^2` in the plane `z = 0`.
pub open spec fn in_cube(v: Vec3D, flat: bool) -> bool {
    &&& -SCALE <= v.x < SCALE
    &&& -SCALE <= v.y < SCALE
    &&& if flat {
        v.z == 0
    } else {
        -SCALE <= v.z < SCALE
    }
}

/// Rejection sampling accepts a candidate strictly inside the unit ball,
/// and with `skip_zero` not the centre itself.
pub open spec fn accepts(v: Vec3D, skip_zero: bool) -> bool {
    len_sq_raw(v) < SCALE * SCALE && !(skip_zero && is_zero(v))
}

/// The first accepted candidate, if any.
pub open spec fn first_accepted(cands: Seq<Vec3D>, skip_zero: bool) -> Option<Vec3D>
    decreases cands.len(),
{
    if cands.len() == 0 {
        None
    } else if accepts(cands[0], skip_zero) {
        Some(cands[0])
    } else {
        first_accepted(cands.drop_first(), skip_zero)
    }
}

/// The first accepted candidate, or `fallback` where none is.
pub open spec fn pick_or(cands: Seq<Vec3D>, skip_zero: bool, fallback: Vec3D) -> Vec3D {
    match first_accepted(cands, skip_zero) {
        Some(v) => v,
        None => fallback,
    }
}

/// The candidates that rejection sampling draws: points of the cube, drawn
/// until one is accepted or `MAX_TRIES` have been rejected.
pub open spec fn drawn_candidates(cands: Seq<Vec3D>, flat: bool, skip_zero: bool) -> bool {
    &&& cands.len() <= MAX_TRIES
    &&& forall|i: int| 0 <= i < cands.len() ==> in_cube(#[trigger] cands[i], flat)
    &&& cands.len() == MAX_TRIES || first_accepted(cands, skip_zero) is Some
    &&& cands.len() > 0 ==> first_accepted(cands.drop_last(), skip_zero) is None
}

/// Appending a candidate changes the first accepted one only where none was.
proof fn lemma_first_accepted_push(cands: Seq<Vec3D>, v: Vec3D, skip_zero: bool)
    ensures
        first_accepted(cands.push(v), skip_zero) == match first_accepted(cands, skip_zero) {
            Some(w) => Some(w),
            None => if accepts(v, skip_zero) {
                Some(v)
            } else {
                None
            },
        },
    decreases cands.len(),
{
    let p = cands.push(v);
    if cands.len() > 0 {
        assert(p.drop_first() =~= cands.drop_first().push(v));
        assert(p[0] == cands[0]);
        lemma_first_accepted_push(cands.drop_first(), v, skip_zero);
        if !accepts(cands[0], skip_zero) {
            assert(first_accepted(p, skip_zero) == first_accepted(p.drop_first(), skip_zero));
            assert(first_accepted(cands, skip_zero) == first_accepted(cands.drop_first(), skip_zero));
        }
    } else {
        assert(p.len() == 1 && p[0] == v);
        assert(p.drop_first() =~= Seq::<Vec3D>::empty());
        assert(first_accepted(p.drop_first(), skip_zero) is None);
    }
}

/// The first accepted candidate is accepted and is one of the candidates.
proof fn lemma_first_accepted_member(cands: Seq<Vec3D>, skip_zero: bool)
    ensures
        first_accepted(cands, skip_zero) matches Some(v) ==> accepts(v, skip_zero) && exists|i: int|
            0 <= i < cands.len() && cands[i] == v,
    decreases cands.len(),
{
    if cands.len() > 0 && !accepts(cands[0], skip_zero) {
        lemma_first_accepted_member(cands.drop_first(), skip_zero);
        if let Some(v) = first_accepted(cands, skip_zero) {
            let i = choose|i: int| 0 <= i < cands.drop_first().len() && cands.drop_first()[i] == v;
            assert(cands[i + 1] == v);
        }
    } else if cands.len() > 0 {
        assert(cands[0] == cands[0]);
    }
}

/// What a drawn candidate that is accepted satisfies.
proof fn lemma_first_accepted_drawn(cands: Seq<Vec3D>, flat: bool, skip_zero: bool)
    requires
        forall|i: int| 0 <= i < cands.len() ==> in_cube(#[trigger] cands[i], flat),
    ensures
        first_accepted(cands, skip_zero) matches Some(v) ==> accepts(v, skip_zero) && in_cube(v, flat) && bounded(
            v,
        ),
{
    lemma_first_accepted_member(cands, skip_zero);
}

/// How many candidates rejection sampling draws before it gives up.
pub const MAX_TRIES: u32 = 64;

/// Draws candidates of the cube (or with `flat` of the square) until one is
/// accepted or `MAX_TRIES` have been rejected.
fn draw_candidates(flat: bool, skip_zero: bool) -> (cands: Vec<Vec3D>)
    ensures
        drawn_candidates(cands@, flat, skip_zero),
{
    let mut cands: Vec<Vec3D> = Vec::new();
    let mut done = false;
    while !done && cands.len() < MAX_TRIES as usize
        invariant
            cands@.len() <= MAX_TRIES,
            forall|i: int| 0 <= i < cands@.len() ==> in_cube(#[trigger] cands@[i], flat),
            done == (first_accepted(cands@, skip_zero) is Some),
            cands@.len() > 0 ==> first_accepted(cands@.drop_last(), skip_zero) is None,
        decreases MAX_TRIES - cands@.len(),
    {
        let v = if flat {
            let x = random_range(-UNIT as i64, UNIT as i64) as i32;
            let y = random_range(-UNIT as i64, UNIT as i64) as i32;
            Vec3D { x, y, z: 0 }
        } else {
            Vec3D::random(-UNIT, UNIT)
        };
        let ok = accepts_exec(&v, skip_zero);
        let ghost before = cands@;
        proof {
            lemma_first_accepted_push(before, v, skip_zero);
        }
        cands.push(v);
        assert(cands@.drop_last() =~= before);
        done = ok;
    }
    cands
}

/// Whether rejection sampling accepts the candidate; see `accepts`.
fn accepts_exec(v: &Vec3D, skip_zero: bool) -> (r: bool)
    ensures
        r == accepts(*v, skip_zero),
{
    v.length_squared_raw() < SCALE_SQ && !(skip_zero && v.x == 0 && v.y == 0 && v.z == 0)
}

/// The first candidate that rejection sampling accepts, if any: inside the
/// unit ball, and with `skip_zero` not the centre.
pub fn first_in_ball(cands: &Vec<Vec3D>, skip_zero: bool) -> (r: Option<Vec3D>)
    ensures
        r == first_accepted(cands@, skip_zero),
{
    let n = cands.len();
    let mut i: usize = 0;
    assert(cands@.subrange(0, n as int) =~= cands@);
    while i < n
        invariant
            n == cands@.len(),
            i <= n,
            first_accepted(cands@, skip_zero) == first_accepted(cands@.subrange(i as int, n as int), skip_zero),
        decreases n - i,
    {
        let ghost rest = cands@.subrange(i as int, n as int);
        assert(rest[0] == cands@[i as int]);
        assert(rest.drop_first() =~= cands@.subrange(i as int + 1, n as int));
        if accepts_exec(&cands[i], skip_zero) {
            return Some(cands[i]);
        }
        i = i + 1;
    }
    assert(cands@.subrange(n as int, n as int) =~= Seq::<Vec3D>::empty());
    None
}

/// Negating a vector within the saturation bound is exact: it negates dot
/// products and keeps the length.
pub proof fn lemma_neg_exact(a: Vec3D, b: Vec3D)
    requires
        bounded(a),
    ensures
        neg_spec(a) == (Vec3D { x: -a.x as i32, y: -a.y as i32, z: -a.z as i32 }),
        dot_raw(neg_spec(a), b) == -dot_raw(a, b),
        len_sq_raw(neg_spec(a)) == len_sq_raw(a),
{
    let n = neg_spec(a);
    assert(dot_raw(n, b) == -dot_raw(a, b)) by (nonlinear_arith)
        requires
            n.x == -a.x,
            n.y == -a.y,
            n.z == -a.z,
    ;
    assert(len_sq_raw(n) == len_sq_raw(a)) by (nonlinear_arith)
        requires
            n.x == -a.x,
            n.y == -a.y,
            n.z == -a.z,
    ;
}

/// A normalised vector lies within the saturation bound.
pub proof fn lemma_unit_bounded(v: Vec3D)
    ensures
        bounded(unit_spec(v)),
{
}

/// One component of a normalised vector: `q = x * 2^48 / m` rounded toward
/// zero, where `|x| * 2^32 <= m`.
proof fn lemma_unit_component(x: int, m: int)
    requires
        m > 0,
        abs_int(x) * 0x1_0000_0000 <= m,
    ensures
        ({
            let q = tdiv(x * 0x1_0000_0000_0000, m);
            &&& abs_int(q) <= SCALE
            &&& abs_int(q) * m <= abs_int(x) * 0x1_0000_0000_0000
            &&& abs_int(x) * 0x1_0000_0000_0000 < (abs_int(q) + 1) * m
            &&& q * q == abs_int(q) * abs_int(q)
        }),
{
    let k: int = 0x1_0000_0000_0000;
    let ax = abs_int(x);
    let a = ax * k;
    assert(abs_int(x * k) == a) by (nonlinear_arith)
        requires
            ax == abs_int(x),
            a == ax * k,
            k > 0,
    ;
    let aq = a / m;
    vstd::arithmetic::div_mod::lemma_fundamental_div_mod(a, m);
    vstd::arithmetic::div_mod::lemma_mod_bound(a, m);
    assert(a <= m * SCALE) by (nonlinear_arith)
        requires
            ax * 0x1_0000_0000 <= m,
            a == ax * 0x1_0000_0000_0000,
            ax >= 0,
    ;
    vstd::arithmetic::div_mod::lemma_div_is_ordered(a, m * SCALE, m);
    vstd::arithmetic::div_mod::lemma_div_by_multiple(SCALE as int, m);
    assert(m * SCALE == SCALE * m) by (nonlinear_arith);
    vstd::arithmetic::div_mod::lemma_div_pos_is_pos(a, m);
    assert(aq * m == m * aq) by (nonlinear_arith);
    assert((aq + 1) * m == m * aq + m) by (nonlinear_arith);
    let q = tdiv(x * k, m);
    assert(abs_int(q) == aq);
    assert(q * q == aq * aq) by (nonlinear_arith)
        requires
            q == aq || q == -aq,
    ;
}

/// Normalisation is accurate: the squared length of the unit vector of a
/// non-zero vector lies within a few raw units of one, so its length lies
/// in `[1 - 4 / SCALE, 1]`.
pub proof fn lemma_unit_length(v: Vec3D)
    requires
        !is_zero(v),
    ensures
        (SCALE - 4) * (SCALE - 4) <= len_sq_raw(unit_spec(v)) <= SCALE * SCALE + 2,
        SCALE - 4 <= length_spec(unit_spec(v)) <= SCALE,
        bounded(unit_spec(v)),
        -SCALE <= unit_spec(v).x <= SCALE,
        -SCALE <= unit_spec(v).y <= SCALE,
        -SCALE <= unit_spec(v).z <= SCALE,
{
    let l = len_sq_raw(v);
    lemma_nonzero_len_sq(v);
    let n = l * norm_shift();
    let m = fine_length(v);
    crate::fixed::lemma_isqrt(n);
    let k: int = 0x1_0000_0000_0000;
    let e: int = 0x1_0000_0000;
    // m is at least 2^32, and each |x| * 2^32 is at most m.
    assert(e * e <= n) by (nonlinear_arith)
        requires
            l >= 1,
            n == l * norm_shift(),
            e * e == norm_shift(),
    ;
    lemma_isqrt_ge(n, e);
    let (ax, ay, az) = (abs_int(v.x as int), abs_int(v.y as int), abs_int(v.z as int));
    assert(ax * ax + ay * ay + az * az == l) by (nonlinear_arith)
        requires
            l == v.x * v.x + v.y * v.y + v.z * v.z,
            ax == abs_int(v.x as int),
            ay == abs_int(v.y as int),
            az == abs_int(v.z as int),
    ;
    lemma_square_nonneg(ax);
    lemma_square_nonneg(ay);
    lemma_square_nonneg(az);
    assert((ax * e) * (ax * e) <= n && (ay * e) * (ay * e) <= n && (az * e) * (az * e) <= n) by (nonlinear_arith)
        requires
            ax * ax + ay * ay + az * az == l,
            ax * ax >= 0,
            ay * ay >= 0,
            az * az >= 0,
            n == l * (e * e),
    ;
    assert(ax >= 0 && ay >= 0 && az >= 0);
    lemma_isqrt_ge(n, ax * e);
    lemma_isqrt_ge(n, ay * e);
    lemma_isqrt_ge(n, az * e);
    lemma_unit_component(v.x as int, m);
    lemma_unit_component(v.y as int, m);
    lemma_unit_component(v.z as int, m);
    let qx = tdiv(v.x * k, m);
    let qy = tdiv(v.y * k, m);
    let qz = tdiv(v.z * k, m);
    let u = unit_spec(v);
    assert(u.x == qx && u.y == qy && u.z == qz);
    let (bx, by, bz) = (abs_int(qx), abs_int(qy), abs_int(qz));
    let qs = bx * bx + by * by + bz * bz;
    assert(len_sq_raw(u) == qs);
    lemma_unit_sum(ax, ay, az, bx, by, bz, l, m);
    // The length follows from the squared length.
    crate::fixed::lemma_isqrt(qs);
    lemma_isqrt_ge(qs, SCALE - 4);
    crate::fixed::lemma_root_below(qs, isqrt(qs), SCALE + 1);
}

/// The arithmetic core of `lemma_unit_length`.
proof fn lemma_unit_sum(ax: int, ay: int, az: int, bx: int, by: int, bz: int, l: int, m: int)
    requires
        ax >= 0 && ay >= 0 && az >= 0,
        0 <= bx <= SCALE && 0 <= by <= SCALE && 0 <= bz <= SCALE,
        ax * ax + ay * ay + az * az == l,
        m >= 0x1_0000_0000,
        m * m <= l * 0x1_0000_0000_0000_0000,
        l * 0x1_0000_0000_0000_0000 < (m + 1) * (m + 1),
        bx * m <= ax * 0x1_0000_0000_0000 < (bx + 1) * m,
        by * m <= ay * 0x1_0000_0000_0000 < (by + 1) * m,
        bz * m <= az * 0x1_0000_0000_0000 < (bz + 1) * m,
    ensures
        (SCALE - 4) * (SCALE - 4) <= bx * bx + by * by + bz * bz <= SCALE * SCALE + 2,
{
    let k: int = 0x1_0000_0000_0000;
    let qs = bx * bx + by * by + bz * bz;
    let xs = l * k * k;
    assert((bx * m) * (bx * m) <= (ax * k) * (ax * k)) by (nonlinear_arith)
        requires
            0 <= bx * m <= ax * k,
    ;
    assert((by * m) * (by * m) <= (ay * k) * (ay * k)) by (nonlinear_arith)
        requires
            0 <= by * m <= ay * k,
    ;
    assert((bz * m) * (bz * m) <= (az * k) * (az * k)) by (nonlinear_arith)
        requires
            0 <= bz * m <= az * k,
    ;
    let mm = m * m;
    lemma_sum_of_scaled_squares(bx, by, bz, m);
    lemma_sum_of_scaled_squares(ax, ay, az, k);
    assert(xs == l * (k * k)) by (nonlinear_arith)
        requires
            xs == l * k * k,
    ;
    assert(qs * mm <= xs);
    assert(xs < (m + 1) * (m + 1) * 0x1_0000_0000) by (nonlinear_arith)
        requires
            xs == l * k * k,
            k == 0x1_0000_0000_0000,
            l * 0x1_0000_0000_0000_0000 < (m + 1) * (m + 1),
    ;
    assert(qs <= SCALE * SCALE + 2) by (nonlinear_arith)
        requires
            qs * (m * m) < (m + 1) * (m + 1) * 0x1_0000_0000,
            m >= 0x1_0000_0000,
            qs >= 0,
    ;
    assert(((ax * k) * (ax * k)) < ((bx + 1) * m) * ((bx + 1) * m)) by (nonlinear_arith)
        requires
            0 <= ax * k < (bx + 1) * m,
    ;
    assert(((ay * k) * (ay * k)) < ((by + 1) * m) * ((by + 1) * m)) by (nonlinear_arith)
        requires
            0 <= ay * k < (by + 1) * m,
    ;
    assert(((az * k) * (az * k)) < ((bz + 1) * m) * ((bz + 1) * m)) by (nonlinear_arith)
        requires
            0 <= az * k < (bz + 1) * m,
    ;
    let ps = (bx + 1) * (bx + 1) + (by + 1) * (by + 1) + (bz + 1) * (bz + 1);
    lemma_sum_of_scaled_squares(bx + 1, by + 1, bz + 1, m);
    assert(xs < ps * (m * m));
    assert(m * m * 0x1_0000_0000 <= xs) by (nonlinear_arith)
        requires
            xs == l * k * k,
            k == 0x1_0000_0000_0000,
            m * m <= l * 0x1_0000_0000_0000_0000,
    ;
    assert(0x1_0000_0000 < ps) by (nonlinear_arith)
        requires
            m * m * 0x1_0000_0000 <= xs,
            xs < ps * (m * m),
            m >= 0x1_0000_0000,
    ;
    assert(ps == qs + 2 * (bx + by + bz) + 3) by (nonlinear_arith)
        requires
            ps == (bx + 1) * (bx + 1) + (by + 1) * (by + 1) + (bz + 1) * (bz + 1),
            qs == bx * bx + by * by + bz * bz,
    ;
}

proof fn lemma_sum_of_scaled_squares(a: int, b: int, c: int, m: int)
    ensures
        (a * a + b * b + c * c) * (m * m) == (a * m) * (a * m) + (b * m) * (b * m) + (c * m) * (c * m),
{
    assert((a * a + b * b + c * c) * (m * m) == (a * m) * (a * m) + (b * m) * (b * m) + (c * m) * (c * m))
        by (nonlinear_arith);
}

/// A non-zero vector has a positive squared length.
pub proof fn lemma_nonzero_len_sq(a: Vec3D)
    requires
        !is_zero(a),
    ensures
        len_sq_raw(a) >= 1,
{
    assert(len_sq_raw(a) >= 1) by (nonlinear_arith)
        requires
            !(a.x == 0 && a.y == 0 && a.z == 0),
            len_sq_raw(a) == a.x * a.x + a.y * a.y + a.z * a.z,
    ;
}

proof fn lemma_square_nonneg(a: int)
    ensures
        a * a >= 0,
{
    assert(a * a >= 0) by (nonlinear_arith);
}

pub(crate) proof fn lemma_product_bound(a: int, b: int)
    requires
        -0x8000_0000 <= a <= 0x8000_0000,
        -0x8000_0000 <= b <= 0x8000_0000,
    ensures
        -0x4000_0000_0000_0000 <= a * b <= 0x4000_0000_0000_0000,
{
    assert(-0x4000_0000_0000_0000 <= a * b <= 0x4000_0000_0000_0000) by (nonlinear_arith)
        requires
            -0x8000_0000 <= a <= 0x8000_0000,
            -0x8000_0000 <= b <= 0x8000_0000,
    ;
}

/// One component scaled by a fixed-point scalar, saturated.
fn scale_component(c: i32, s: i64) -> (r: i32)
    ensures
        r == clamp(fmul(c as int, s as int)),
{
    assert(-0x8000_0000_0000_0000_0000_0000 <= c * s <= 0x8000_0000_0000_0000_0000_0000) by (nonlinear_arith)
        requires
            -0x8000_0000 <= c <= 0x8000_0000,
            -0x8000_0000_0000_0000 <= s <= 0x8000_0000_0000_0000,
    ;
    clamp_wide(tdiv_wide(c as i128 * s as i128, SCALE as i128))
}

} // verus!
