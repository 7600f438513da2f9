use geomorph::math::{angle_diff, angle_normalize, fmod, remainder};

#[test]
fn test_fmod() {
    // 5.3° mod 2.1° leaves 1.1°, carrying the sign of the dividend.
    let a: i64 = 5_300_000_000;
    let b: i64 = 2_100_000_000;
    assert_eq!(fmod(a, b), 1_100_000_000);
    assert_eq!(fmod(-a, b), -1_100_000_000);
    assert_eq!(fmod(a, -b), 1_100_000_000);
}

#[test]
fn test_remainder() {
    // 5.3° = 3 * 2.1° - 1.0°: the nearest-multiple remainder is negative.
    let numer: i64 = 5_300_000_000;
    let denom: i64 = 2_100_000_000;
    assert_eq!(remainder(numer, denom), -1_000_000_000);
}

#[test]
fn test_angle_normalize() {
    let d: i64 = 453_000_000_000;
    assert_eq!(angle_normalize(d), 93_000_000_000);
}

#[test]
fn angle_normalize_maps_minus_half_turn_up() {
    // Exactly -180° normalizes to +180°, never -180°.
    assert_eq!(angle_normalize(-180_000_000_000), 180_000_000_000);
    assert_eq!(angle_normalize(180_000_000_000), 180_000_000_000);
    assert_eq!(angle_normalize(540_000_000_000), 180_000_000_000);
}

#[test]
fn test_angle_diff() {
    let x: i64 = 453_000_000_000;
    let y: i64 = 1_832_000_000_000;
    assert_eq!(angle_diff(x, y), -61_000_000_000);
}
