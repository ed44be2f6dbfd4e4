//! Turning accumulated light into 8-bit channel values and image text.

use vstd::prelude::*;
use crate::fixed::{tdiv, tdiv_wide, SCALE};
use crate::material::confine;
use crate::vec3d::Colour;

verus! {

/// `0.999` in raw units: the largest channel value before scaling to 256 levels.
pub const CHANNEL_MAX: i32 = 65470;

/// `b` to the power `e`.
pub open spec fn power(b: int, e: nat) -> int
    decreases e,
{
    if e == 0 {
        1
    } else {
        b * power(b, (e - 1) as nat)
    }
}

/// Level `k` of 256 lies at or below the gamma-corrected channel
/// `(v / SCALE)^(1 / 2.2)`: `(k / 256)^11 <= (v / SCALE)^5`.
pub open spec fn gamma_admits(k: int, v: int) -> bool {
    power(k, 11) <= power(v, 5) * 256
}

/// The level of the gamma-corrected channel `v` in `[0, 1]`: the largest
/// `k <= 255` that it admits.
pub open spec fn is_gamma_level(k: int, v: int) -> bool {
    0 <= k <= 255 && gamma_admits(k, v) && (k == 255 || !gamma_admits(k + 1, v))
}

pub open spec fn gamma_level(v: int) -> int {
    choose|k: int| is_gamma_level(k, v)
}

/// The 8-bit value of one channel of a sum of `samples` colours: the mean,
/// gamma-corrected if asked, confined to `[0, 0.999]`, times 256, truncated.
pub open spec fn quantize(sum: int, samples: int, gamma: bool) -> int {
    let mean = tdiv(sum, samples);
    if gamma {
        gamma_level(confine(mean, 0, SCALE as int))
    } else {
        confine(mean, 0, CHANNEL_MAX as int) * 256 / SCALE as int
    }
}

proof fn lemma_power_nonneg(b: int, e: nat)
    requires
        b >= 0,
    ensures
        power(b, e) >= 0,
    decreases e,
{
    if e > 0 {
        lemma_power_nonneg(b, (e - 1) as nat);
        assert(b * power(b, (e - 1) as nat) >= 0) by (nonlinear_arith)
            requires
                b >= 0,
                power(b, (e - 1) as nat) >= 0,
        ;
    }
}

/// Powers of non-negative numbers keep their order.
proof fn lemma_power_mono(a: int, b: int, e: nat)
    requires
        0 <= a <= b,
    ensures
        power(a, e) <= power(b, e),
    decreases e,
{
    if e > 0 {
        let e1 = (e - 1) as nat;
        lemma_power_mono(a, b, e1);
        lemma_power_nonneg(a, e1);
        lemma_power_nonneg(b, e1);
        assert(a * power(a, e1) <= b * power(b, e1)) by (nonlinear_arith)
            requires
                0 <= a <= b,
                0 <= power(a, e1) <= power(b, e1),
        ;
    }
}

proof fn lemma_gamma_level_unique(v: int, k1: int, k2: int)
    requires
        v >= 0,
        is_gamma_level(k1, v),
        is_gamma_level(k2, v),
    ensures
        k1 == k2,
{
    if k1 < k2 {
        lemma_power_mono(k1 + 1, k2, 11);
    } else if k2 < k1 {
        lemma_power_mono(k2 + 1, k1, 11);
    }
}

/// `b^e` for small numbers.
fn power_exec(b: u128, e: u32) -> (r: u128)
    requires
        b <= 256,
        e <= 11,
    ensures
        r == power(b as int, e as nat),
{
    let mut r: u128 = 1;
    let mut i: u32 = 0;
    while i < e
        invariant
            i <= e <= 11,
            b <= 256,
            r == power(b as int, i as nat),
        decreases e - i,
    {
        proof {
            lemma_power_mono(b as int, 256, i as nat);
            lemma_power_nonneg(b as int, i as nat);
            lemma_power_256(i as nat);
            assert(b * r <= 256 * power(256, i as nat)) by (nonlinear_arith)
                requires
                    b <= 256,
                    0 <= r <= power(256, i as nat),
            ;
            assert(power(b as int, (i + 1) as nat) == b * power(b as int, i as nat));
        }
        r = b * r;
        i = i + 1;
    }
    r
}

proof fn lemma_power_256(e: nat)
    requires
        e <= 11,
    ensures
        power(256, e) <= 0x1_0000_0000_0000_0000_0000_00,
        power(256, (e + 1) as nat) <= 0x1_0000_0000_0000_0000_0000_0000,
{
    reveal_with_fuel(power, 13);
}

/// `v^5` for `v` in `[0, 1]`.
fn fifth_power(v: u128) -> (r: u128)
    requires
        v <= 65536,
    ensures
        r == power(v as int, 5),
        r <= 0x1_0000_0000_0000_0000_0000,
{
    proof {
        reveal_with_fuel(power, 6);
        lemma_power_mono(v as int, 65536, 5);
        assert(v * v <= 0x1_0000_0000) by (nonlinear_arith) requires v <= 65536;
        assert(v * v * v <= 0x1_0000_0000_0000) by (nonlinear_arith) requires v <= 65536, v * v <= 0x1_0000_0000;
        assert(v * v * v * v <= 0x1_0000_0000_0000_0000) by (nonlinear_arith)
            requires v <= 65536, v * v * v <= 0x1_0000_0000_0000;
        assert(v * v * v * v * v <= 0x1_0000_0000_0000_0000_0000) by (nonlinear_arith)
            requires v <= 65536, v * v * v * v <= 0x1_0000_0000_0000_0000;
        assert(power(v as int, 5) == v * (v * (v * (v * v))));
        assert(v * (v * (v * (v * v))) == v * v * v * v * v) by (nonlinear_arith);
    }
    v * v * v * v * v
}

/// The gamma-corrected level of a channel in `[0, 1]`.
fn gamma_level_exec(v: i64) -> (k: u16)
    requires
        0 <= v <= SCALE,
    ensures
        k == gamma_level(v as int),
        k <= 255,
{
    let target = fifth_power(v as u128) * 256;
    let mut k: u128 = 0;
    assert(power(0, 11) == 0) by {
        reveal_with_fuel(power, 12);
    }
    while k < 255 && power_exec(k + 1, 11) <= target
        invariant
            k <= 255,
            target == power(v as int, 5) * 256,
            gamma_admits(k as int, v as int),
        decreases 255 - k,
    {
        k = k + 1;
    }
    assert(is_gamma_level(k as int, v as int));
    proof {
        lemma_gamma_level_unique(v as int, k as int, gamma_level(v as int));
    }
    k as u16
}

/// The 8-bit value of one channel; see `quantize`.
pub fn transform_colour(init_val: i32, samples_per_pixel: u32, gamma: bool) -> (r: u16)
    requires
        samples_per_pixel > 0,
    ensures
        r == quantize(init_val as int, samples_per_pixel as int, gamma),
        r <= 255,
{
    let mean = tdiv_wide(init_val as i128, samples_per_pixel as i128) as i64;
    if gamma {
        let v = if mean < 0 {
            0
        } else if mean > SCALE as i64 {
            SCALE as i64
        } else {
            mean
        };
        gamma_level_exec(v)
    } else {
        let v = if mean < 0 {
            0
        } else if mean > CHANNEL_MAX as i64 {
            CHANNEL_MAX as i64
        } else {
            mean
        };
        proof {
            vstd::arithmetic::div_mod::lemma_div_is_ordered(v * 256, CHANNEL_MAX * 256, SCALE as int);
        }
        (v * 256 / SCALE as i64) as u16
    }
}

/// The character of a decimal digit.
pub open spec fn digit_char(d: int) -> char {
    if d == 0 {
        '0'
    } else if d == 1 {
        '1'
    } else if d == 2 {
        '2'
    } else if d == 3 {
        '3'
    } else if d == 4 {
        '4'
    } else if d == 5 {
        '5'
    } else if d == 6 {
        '6'
    } else if d == 7 {
        '7'
    } else if d == 8 {
        '8'
    } else {
        '9'
    }
}

/// The decimal digits of `n`, most significant first, without leading zeros.
pub open spec fn decimal(n: nat) -> Seq<char>
    decreases n,
{
    if n < 10 {
        seq![digit_char(n as int)]
    } else {
        decimal(n / 10).push(digit_char((n % 10) as int))
    }
}

/// One pixel as a line of image text: three channel values and a newline.
pub open spec fn pixel_text(r: int, g: int, b: int) -> Seq<char> {
    decimal(r as nat) + seq![' '] + decimal(g as nat) + seq![' '] + decimal(b as nat) + seq!['\n']
}

/// Relies on `String::push`, which appends the character to the end of the string.
#[verifier::external_body]
fn push_char(s: &mut String, c: char)
    ensures
        final(s)@ == old(s)@.push(c),
{
    s.push(c);
}

fn digit(d: u64) -> (c: char)
    requires
        d < 10,
    ensures
        c == digit_char(d as int),
{
    match d {
        0 => '0',
        1 => '1',
        2 => '2',
        3 => '3',
        4 => '4',
        5 => '5',
        6 => '6',
        7 => '7',
        8 => '8',
        _ => '9',
    }
}

/// Appends the decimal digits of `n`.
pub fn push_decimal(s: &mut String, n: u64)
    ensures
        final(s)@ == old(s)@ + decimal(n as nat),
    decreases n,
{
    if n >= 10 {
        push_decimal(s, n / 10);
    }
    push_char(s, digit(n % 10));
    proof {
        if n >= 10 {
            assert(final(s)@ =~= old(s)@ + decimal(n as nat));
        } else {
            assert(final(s)@ =~= old(s)@ + decimal(n as nat));
        }
    }
}

/// The line of image text for a pixel whose samples sum to `pixel_colour`.
pub fn get_colour(pixel_colour: Colour, samples_per_pixel: u32, gamma: bool) -> (text: String)
    requires
        samples_per_pixel > 0,
    ensures
        text@ == pixel_text(
            quantize(pixel_colour.x as int, samples_per_pixel as int, gamma),
            quantize(pixel_colour.y as int, samples_per_pixel as int, gamma),
            quantize(pixel_colour.z as int, samples_per_pixel as int, gamma),
        ),
{
    let r = transform_colour(pixel_colour.x, samples_per_pixel, gamma);
    let g = transform_colour(pixel_colour.y, samples_per_pixel, gamma);
    let b = transform_colour(pixel_colour.z, samples_per_pixel, gamma);
    let mut text = String::new();
    push_decimal(&mut text, r as u64);
    push_char(&mut text, ' ');
    push_decimal(&mut text, g as u64);
    push_char(&mut text, ' ');
    push_decimal(&mut text, b as u64);
    push_char(&mut text, '\n');
    assert(text@ =~= pixel_text(r as int, g as int, b as int));
    text
}

/// The header of a plain-text PPM image of the given size with 255 levels.
pub open spec fn header_text(width: int, height: int) -> Seq<char> {
    seq!['P', '3', '\n'] + decimal(width as nat) + seq![' '] + decimal(height as nat) + seq!['\n', '2', '5', '5', '\n']
}

/// The header of the image.
pub fn ppm_header(width: u64, height: u64) -> (text: String)
    ensures
        text@ == header_text(width as int, height as int),
{
    let mut text = String::new();
    push_char(&mut text, 'P');
    push_char(&mut text, '3');
    push_char(&mut text, '\n');
    push_decimal(&mut text, width);
    push_char(&mut text, ' ');
    push_decimal(&mut text, height);
    push_char(&mut text, '\n');
    push_char(&mut text, '2');
    push_char(&mut text, '5');
    push_char(&mut text, '5');
    push_char(&mut text, '\n');
    assert(text@ =~= header_text(width as int, height as int));
    text
}

} // verus!
