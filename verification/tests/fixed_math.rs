use some_graphics::fixed::{div_trunc, div_trunc_wide, isqrt, Vec3, SCALE};

#[test]
fn isqrt_brackets_squares() {
    assert_eq!(isqrt(0), 0);
    assert_eq!(isqrt(1), 1);
    assert_eq!(isqrt(3), 1);
    assert_eq!(isqrt(4), 2);
    assert_eq!(isqrt(10), 3);
    assert_eq!(isqrt(16), 4);
    assert_eq!(isqrt(999999), 999);
    assert_eq!(isqrt(1000000), 1000);
    assert_eq!(isqrt(3000000), 1732);
}

#[test]
fn division_truncates_toward_zero() {
    assert_eq!(div_trunc(7, 2), 3);
    assert_eq!(div_trunc(-7, 2), -3);
    assert_eq!(div_trunc(0, 5), 0);
    assert_eq!(div_trunc(-1, 1000), 0);
    assert_eq!(div_trunc_wide(-2000000000000, 3), -666666666666);
    assert_eq!(div_trunc_wide(5, 5), 1);
}

#[test]
fn normalize_scales_to_one_unit() {
    assert_eq!(Vec3::new(3000, 0, 0).normalize(), Vec3::new(SCALE, 0, 0));
    assert_eq!(Vec3::new(0, -4500, 0).normalize(), Vec3::new(0, -SCALE, 0));
    // sqrt(3_000_000) = 1732, so each component becomes 1_000_000 / 1732.
    assert_eq!(
        Vec3::new(1000, 1000, 1000).normalize(),
        Vec3::new(577, 577, 577)
    );
    // The zero vector stays zero instead of dividing by zero.
    assert_eq!(Vec3::new(0, 0, 0).normalize(), Vec3::new(0, 0, 0));
}

#[test]
fn vector_helpers() {
    let a = Vec3::new(1, 2, 3);
    let b = Vec3::new(10, 20, 30);
    assert_eq!(b.sub(a), Vec3::new(9, 18, 27));
    assert_eq!(a.neg(), Vec3::new(-1, -2, -3));
    assert_eq!(a.dot_small(b), 10 + 40 + 90);
    // cross((1,0,0), (0,1,0)) = (0,0,1) in raw units scales to SCALE * SCALE,
    // and cross_scaled rescales it back by SCALE.
    let x = Vec3::new(SCALE, 0, 0);
    let y = Vec3::new(0, SCALE, 0);
    assert_eq!(x.cross_scaled(y), Vec3::new(0, 0, SCALE));
    assert_eq!(y.cross_scaled(x), Vec3::new(0, 0, -SCALE));
    assert_eq!(x.cross_small(y), Vec3::new(0, 0, SCALE * SCALE));
}
