//! Fixed-point scalars: integers counted in units of `1 / SCALE`.

use vstd::prelude::*;

verus! {

/// The number of raw units in one: a scalar `v` stands for `v / SCALE`.
pub const SCALE: i32 = 65536;

/// `SCALE * SCALE`: one in raw units squared.
pub const SCALE_SQ: i128 = 4294967296;

/// The magnitude to which vector arithmetic saturates.
pub const LIMIT: i32 = 1073741824;

/// Saturates a value into `[-LIMIT, LIMIT]`.
pub open spec fn clamp(v: int) -> int {
    if v > LIMIT {
        LIMIT as int
    } else if v < -LIMIT {
        -LIMIT
    } else {
        v
    }
}

/// Division rounding toward zero, as Rust's integer division does.
pub open spec fn tdiv(a: int, b: int) -> int {
    if a >= 0 {
        a / b
    } else {
        -((-a) / b)
    }
}

/// The fixed-point product of two scalars.
pub open spec fn fmul(a: int, b: int) -> int {
    tdiv(a * b, SCALE as int)
}

/// The fixed-point quotient of two scalars.
pub open spec fn fdiv(a: int, b: int) -> int {
    tdiv(a * SCALE, b)
}

/// Saturates a wide value into `[-LIMIT, LIMIT]`.
pub fn clamp_wide(v: i128) -> (r: i32)
    ensures
        r == clamp(v as int),
{
    if v > LIMIT as i128 {
        LIMIT
    } else if v < -(LIMIT as i128) {
        -LIMIT
    } else {
        v as i32
    }
}

/// Truncating division of wide values.
pub fn tdiv_wide(a: i128, b: i128) -> (r: i128)
    requires
        b > 0,
        a > i128::MIN,
    ensures
        r == tdiv(a as int, b as int),
{
    if a >= 0 {
        a / b
    } else {
        -((-a) / b)
    }
}

/// `r` is the integer square root of `n`: the largest `r` with `r * r <= n`.
pub open spec fn is_root(n: int, r: int) -> bool {
    0 <= r && r * r <= n && n < (r + 1) * (r + 1)
}

/// The integer square root of a non-negative `n`.
pub open spec fn isqrt(n: int) -> int {
    choose|r: int| is_root(n, r)
}

proof fn lemma_square_le(a: int, b: int)
    requires
        0 <= a <= b,
    ensures
        a * a <= b * b,
{
    assert(a * a <= b * b) by (nonlinear_arith)
        requires
            0 <= a <= b,
    ;
}

/// An integer square root is unique.
pub proof fn lemma_root_unique(n: int, r1: int, r2: int)
    requires
        is_root(n, r1),
        is_root(n, r2),
    ensures
        r1 == r2,
{
    if r1 < r2 {
        lemma_square_le(r1 + 1, r2);
    } else if r2 < r1 {
        lemma_square_le(r2 + 1, r1);
    }
}

/// Every non-negative integer has an integer square root.
pub proof fn lemma_isqrt(n: int)
    requires
        n >= 0,
    ensures
        is_root(n, isqrt(n)),
    decreases n,
{
    if n == 0 {
        assert(is_root(0, 0));
    } else {
        lemma_isqrt(n - 1);
        let r = isqrt(n - 1);
        if (r + 1) * (r + 1) <= n {
            assert((r + 2) * (r + 2) == (r + 1) * (r + 1) + 2 * r + 3) by (nonlinear_arith);
            assert(is_root(n, r + 1));
        } else {
            assert(is_root(n, r));
        }
    }
}

/// A product of scalars in `[-1, 1]` stays in `[-1, 1]`, and keeps the sign
/// of the exact product.
pub proof fn lemma_fmul_unit(a: int, b: int)
    requires
        -SCALE <= a <= SCALE,
        -SCALE <= b <= SCALE,
    ensures
        -SCALE <= fmul(a, b) <= SCALE,
        a * b >= 0 ==> fmul(a, b) >= 0,
        a * b <= 0 ==> fmul(a, b) <= 0,
{
    let p = a * b;
    assert(-SCALE * SCALE <= p <= SCALE * SCALE) by (nonlinear_arith)
        requires
            -SCALE <= a <= SCALE,
            -SCALE <= b <= SCALE,
            p == a * b,
    ;
    vstd::arithmetic::div_mod::lemma_div_by_multiple(SCALE as int, SCALE as int);
    if p >= 0 {
        vstd::arithmetic::div_mod::lemma_div_is_ordered(p, SCALE * SCALE, SCALE as int);
        vstd::arithmetic::div_mod::lemma_div_pos_is_pos(p, SCALE as int);
    } else {
        vstd::arithmetic::div_mod::lemma_div_is_ordered(-p, SCALE * SCALE, SCALE as int);
        vstd::arithmetic::div_mod::lemma_div_pos_is_pos(-p, SCALE as int);
    }
}

/// Multiplying by one is exact.
pub proof fn lemma_fmul_one(b: int)
    ensures
        fmul(b, SCALE as int) == b,
        fmul(SCALE as int, b) == b,
{
    if b >= 0 {
        vstd::arithmetic::div_mod::lemma_div_by_multiple(b, SCALE as int);
    } else {
        vstd::arithmetic::div_mod::lemma_div_by_multiple(-b, SCALE as int);
        assert(-b * SCALE == -(b * SCALE)) by (nonlinear_arith);
    }
    assert(b * SCALE == SCALE * b) by (nonlinear_arith);
}

/// A quotient `x / y` with `|x| <= y` lies in `[-1, 1]`.
pub proof fn lemma_fdiv_unit(x: int, y: int)
    requires
        y > 0,
        -y <= x <= y,
    ensures
        -SCALE <= fdiv(x, y) <= SCALE,
{
    let ax = if x >= 0 { x } else { -x };
    assert(ax * SCALE <= y * SCALE) by (nonlinear_arith)
        requires
            0 <= ax <= y,
    ;
    assert(y * SCALE == SCALE * y) by (nonlinear_arith);
    assert(-x * SCALE == -(x * SCALE)) by (nonlinear_arith);
    vstd::arithmetic::div_mod::lemma_div_is_ordered(ax * SCALE, y * SCALE, y);
    vstd::arithmetic::div_mod::lemma_div_by_multiple(SCALE as int, y);
    vstd::arithmetic::div_mod::lemma_div_pos_is_pos(ax * SCALE, y);
}

/// A root of a number below `b * b` is below `b`.
pub proof fn lemma_root_below(n: int, r: int, b: int)
    requires
        is_root(n, r),
        0 <= b,
        n < b * b,
    ensures
        r < b,
{
    if r >= b {
        lemma_square_le(b, r);
    }
}

/// Any `k` whose square is at most `n` is at most the square root of `n`.
pub proof fn lemma_isqrt_ge(n: int, k: int)
    requires
        0 <= k,
        k * k <= n,
    ensures
        k <= isqrt(n),
{
    lemma_isqrt(n);
    let r = isqrt(n);
    if k > r {
        lemma_square_le(r + 1, k);
    }
}

/// The integer square root of `n`, by bisection.
pub fn isqrt_wide(n: u128) -> (r: u64)
    ensures
        r == isqrt(n as int),
        is_root(n as int, r as int),
{
    let mut lo: u128 = 0;
    let mut hi: u128 = 0x1_0000_0000_0000_0000;
    assert(n < hi * hi) by (nonlinear_arith)
        requires
            hi == 0x1_0000_0000_0000_0000u128,
            n <= u128::MAX,
    ;
    while hi - lo > 1
        invariant
            lo < hi <= 0x1_0000_0000_0000_0000u128,
            lo * lo <= n,
            n < hi * hi,
        decreases hi - lo,
    {
        let mid: u128 = lo + (hi - lo) / 2;
        assert(mid * mid <= 0xffff_ffff_ffff_ffffu128 * 0xffff_ffff_ffff_ffffu128) by {
            lemma_square_le(mid as int, 0xffff_ffff_ffff_ffff);
        }
        if mid * mid <= n {
            lo = mid;
        } else {
            hi = mid;
        }
    }
    assert(is_root(n as int, lo as int));
    proof {
        lemma_isqrt(n as int);
        lemma_root_unique(n as int, lo as int, isqrt(n as int));
    }
    lo as u64
}

} // verus!
