//! Class thresholds, radius law, and fixed-point scalar helpers.

use gravitas::fx::{SCALE, isqrt, icbrt, div_fix, lerp_fix, clamp_fix};
use gravitas::body::Class;

fn fx(units: i64) -> i64 {
    units * SCALE
}

#[test]
fn class_thresholds_match_the_table() {
    assert_eq!(Class::from_mass(0), Class::Asteroid);
    assert_eq!(Class::from_mass(fx(499)), Class::Asteroid);
    assert_eq!(Class::from_mass(fx(500)), Class::Planet);
    assert_eq!(Class::from_mass(fx(19_999)), Class::Planet);
    assert_eq!(Class::from_mass(fx(20_000)), Class::Star);
    assert_eq!(Class::from_mass(fx(999_999)), Class::Star);
    assert_eq!(Class::from_mass(fx(1_000_000)), Class::BlackHole);
}

#[test]
fn radius_follows_the_clamped_root_law() {
    // tiny asteroid pinned at the lower clamp of 1.2
    assert_eq!(Class::radius_for_mass(fx(1)), 78643);
    // mass 2500: sqrt = 50, * 0.12 = 6, the upper asteroid clamp
    // sqrt(400) * 0.12 = 2.4 units: exactly 20 times the 0.12 constant
    assert_eq!(Class::radius_for_mass(fx(400)), 20 * 7864);
    // mid planet: sqrt(19000) * 0.07, inside the [6, 16] clamp band
    let sq = isqrt(fx(19_000) as u128 * SCALE as u128) as i128;
    assert_eq!(Class::radius_for_mass(fx(19_000)), (sq * 4588 / SCALE as i128) as i64);
    // heavy star clamps at 32, black hole below its lower clamp of 32
    assert_eq!(Class::radius_for_mass(fx(900_000)), fx(32));
    assert_eq!(Class::radius_for_mass(fx(1_000_000)), fx(32));
    // radius is always within [1.2, 60]
    for m in [0, fx(1), fx(499), fx(500), fx(30_000), fx(5_000_000)] {
        let r = Class::radius_for_mass(m);
        assert!(r >= 78643 && r <= fx(60));
    }
}

#[test]
fn glow_and_rarity_per_class() {
    assert_eq!(Class::Asteroid.glow(), SCALE);
    assert_eq!(Class::Planet.glow(), 78643);
    assert_eq!(Class::Star.glow(), 3 * SCALE);
    assert_eq!(Class::BlackHole.glow(), 0);
    assert_eq!(Class::Asteroid.rarity(), SCALE);
    assert_eq!(Class::Planet.rarity(), 5 * SCALE);
    assert_eq!(Class::Star.rarity(), 25 * SCALE);
    assert_eq!(Class::BlackHole.rarity(), 100 * SCALE);
}

#[test]
fn integer_roots_bracket_their_input() {
    for n in [0u128, 1, 2, 3, 4, 15, 16, 17, 1 << 40, (1 << 60) + 12345] {
        let r = isqrt(n);
        assert!(r * r <= n);
        assert!((r + 1) * (r + 1) > n);
        let c = icbrt(n);
        assert!(c * c * c <= n);
        assert!((c + 1) * (c + 1) * (c + 1) > n);
    }
}

#[test]
fn fixed_point_helpers_truncate_toward_zero() {
    assert_eq!(div_fix(7, 2), 3);
    assert_eq!(div_fix(-7, 2), -3);
    assert_eq!(lerp_fix(fx(2), fx(10), SCALE / 2), fx(6));
    assert_eq!(lerp_fix(fx(10), fx(2), SCALE), fx(2));
    assert_eq!(lerp_fix(fx(10), fx(2), 0), fx(10));
    assert_eq!(clamp_fix(5, 0, 3), 3);
    assert_eq!(clamp_fix(-5, 0, 3), 0);
    assert_eq!(clamp_fix(2, 0, 3), 2);
}
