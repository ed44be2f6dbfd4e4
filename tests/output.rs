use raytracer::colour::{get_colour, ppm_header, push_decimal, transform_colour};
use raytracer::fixed::SCALE;
use raytracer::vec3d::Vec3D;

const S: i32 = SCALE;

#[test]
fn full_white_quantizes_to_255() {
    assert_eq!(get_colour(Vec3D::new(S, S, S), 1, false), "255 255 255\n");
}

#[test]
fn black_quantizes_to_zero() {
    assert_eq!(get_colour(Vec3D::new(0, 0, 0), 1, false), "0 0 0\n");
}

#[test]
fn quantize_divides_by_samples_and_clamps() {
    assert_eq!(transform_colour(4 * S, 8, false), 128);
    assert_eq!(transform_colour(-S, 1, false), 0);
    assert_eq!(transform_colour(10 * S, 2, false), 255);
    assert_eq!(get_colour(Vec3D::new(S / 2, S / 4, 3 * S), 2, false), "64 32 255\n");
}

#[test]
fn gamma_correction_levels() {
    assert_eq!(transform_colour(S / 4, 1, true), 136);
    assert_eq!(transform_colour(S / 2, 1, true), 186);
    assert_eq!(transform_colour(S, 1, true), 255);
    assert_eq!(transform_colour(0, 1, true), 0);
    assert_eq!(transform_colour(-5, 1, true), 0);
    assert_eq!(get_colour(Vec3D::new(S, S / 2, S / 4), 1, true), "255 186 136\n");
}

#[test]
fn decimal_text() {
    let mut s = String::from("x");
    push_decimal(&mut s, 0);
    push_decimal(&mut s, 1920);
    push_decimal(&mut s, u64::MAX);
    assert_eq!(s, format!("x01920{}", u64::MAX));
}

#[test]
fn image_header() {
    // The magic number of plain-text PPM is 3.
    let expected = format!("P{}\n1920 1080\n255\n", 3);
    assert_eq!(ppm_header(1920, 1080), expected);
}
