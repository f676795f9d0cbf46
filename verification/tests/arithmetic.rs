use asteroids::trig::{cos_deg, nearest_degree_of, sin_deg, turn};
use asteroids::units::{
    clamp_coord, isqrt, isqrt_up, scale, ACCEL, COORD_MAX, DAMAGE, FULL_HEALTH, MUZZLE_SPEED, ONE,
    SPEED_CAP, SPEED_CAP_SQ, STEP, SWEEP_LIMIT_SQ, WRAP_LIMIT,
};
use asteroids::vector::{wrap, Vec2};

#[test]
fn constants_have_their_documented_values() {
    assert_eq!(ONE, 1_000_000);
    assert_eq!(STEP, 20_000);
    assert_eq!(ACCEL, 10_000);
    assert_eq!(WRAP_LIMIT, 1_050_000);
    assert_eq!(SPEED_CAP, ONE);
    assert_eq!(SPEED_CAP_SQ, ONE * ONE);
    assert_eq!(MUZZLE_SPEED, 2 * ONE);
    assert_eq!(SWEEP_LIMIT_SQ, 2 * ONE * ONE);
    assert_eq!(FULL_HEALTH, ONE);
    assert_eq!(DAMAGE, ONE / 2);
}

#[test]
fn clamp_saturates_at_the_coordinate_limit() {
    assert_eq!(clamp_coord(0), 0);
    assert_eq!(clamp_coord(COORD_MAX), COORD_MAX);
    assert_eq!(clamp_coord(COORD_MAX + 1), COORD_MAX);
    assert_eq!(clamp_coord(-COORD_MAX - 1), -COORD_MAX);
    assert_eq!(clamp_coord(i64::MAX), COORD_MAX);
    assert_eq!(clamp_coord(i64::MIN), -COORD_MAX);
    assert_eq!(clamp_coord(-12_345), -12_345);
}

#[test]
fn scale_rounds_toward_zero() {
    assert_eq!(scale(1_500_000, STEP), 30_000);
    assert_eq!(scale(-1_500_000, STEP), -30_000);
    assert_eq!(scale(999_999, STEP), 19_999);
    assert_eq!(scale(-999_999, STEP), -19_999);
    assert_eq!(scale(-1, 999_999), 0);
    assert_eq!(scale(7, -500_000), -3);
    assert_eq!(scale(COORD_MAX, COORD_MAX), 10_000_000_000);
    assert_eq!(scale(ONE, ONE), ONE);
}

#[test]
fn square_roots_round_down_and_up() {
    assert_eq!(isqrt(0), 0);
    assert_eq!(isqrt_up(0), 0);
    assert_eq!(isqrt(1), 1);
    assert_eq!(isqrt(2), 1);
    assert_eq!(isqrt_up(2), 2);
    assert_eq!(isqrt(999_999_999_999), 999_999);
    assert_eq!(isqrt(1_000_000_000_000), 1_000_000);
    assert_eq!(isqrt_up(1_000_000_000_000), 1_000_000);
    assert_eq!(isqrt_up(1_000_000_000_001), 1_000_001);
    assert_eq!(isqrt(20_000_000_000_000_000), 141_421_356);
    assert_eq!(isqrt_up(20_000_000_000_000_000), 141_421_357);
    assert_eq!(isqrt(i64::MAX), 3_037_000_499);
}

#[test]
fn sines_and_cosines_of_the_quarter_turns() {
    assert_eq!((cos_deg(0), sin_deg(0)), (ONE, 0));
    assert_eq!((cos_deg(90), sin_deg(90)), (0, ONE));
    assert_eq!((cos_deg(180), sin_deg(180)), (-ONE, 0));
    assert_eq!((cos_deg(270), sin_deg(270)), (0, -ONE));
}

#[test]
fn sines_and_cosines_to_the_nearest_millionth() {
    assert_eq!(sin_deg(30), 500_000);
    assert_eq!(cos_deg(60), 500_000);
    assert_eq!(sin_deg(45), 707_107);
    assert_eq!(cos_deg(45), 707_107);
    assert_eq!((cos_deg(10), sin_deg(10)), (984_808, 173_648));
    assert_eq!((cos_deg(200), sin_deg(200)), (-939_693, -342_020));
    assert_eq!((cos_deg(359), sin_deg(359)), (999_848, -17_452));
    assert_eq!(sin_deg(1), 17_452);
    assert_eq!(sin_deg(89), 999_848);
}

#[test]
fn every_heading_is_of_unit_length_within_two_millionths() {
    for deg in 0..360u32 {
        let c = cos_deg(deg) as f64 / 1e6;
        let s = sin_deg(deg) as f64 / 1e6;
        assert!(((c * c + s * s).sqrt() - 1.0).abs() < 2e-6);
        assert!((c - (deg as f64).to_radians().cos()).abs() < 1e-6);
        assert!((s - (deg as f64).to_radians().sin()).abs() < 1e-6);
    }
}

#[test]
fn turning_wraps_around_the_full_turn() {
    assert_eq!(turn(0, 10), 10);
    assert_eq!(turn(350, 10), 0);
    assert_eq!(turn(355, 10), 5);
    assert_eq!(turn(0, 350), 350);
    assert_eq!(turn(5, 350), 355);
    assert_eq!(turn(359, 359), 358);
}

#[test]
fn nearest_degree_is_the_best_fitting_direction() {
    assert_eq!(nearest_degree_of(ONE, 0), 0);
    assert_eq!(nearest_degree_of(0, ONE), 90);
    assert_eq!(nearest_degree_of(-ONE, 0), 180);
    assert_eq!(nearest_degree_of(ONE, ONE), 45);
    assert_eq!(nearest_degree_of(-ONE, ONE), 135);
    assert_eq!(nearest_degree_of(24, 7), 16);
    assert_eq!(nearest_degree_of(7, 24), 74);
    assert_eq!(nearest_degree_of(1_765_896, 938_944), 28);
    assert_eq!(nearest_degree_of(938_944, 1_765_896), 62);
}

#[test]
fn nearest_degree_rounds_to_the_nearer_neighbour() {
    for tenths in 0..=1800u32 {
        let angle = (tenths as f64 / 10.0).to_radians();
        let along = (angle.cos() * 1e9).round() as i64;
        let across = (angle.sin() * 1e9).round() as i64;
        let found = nearest_degree_of(along, across);
        if tenths % 10 == 5 {
            assert!(found == tenths / 10 || found == tenths / 10 + 1);
        } else {
            assert_eq!(found, (tenths + 5) / 10);
        }
    }
}

#[test]
fn nearest_degree_of_no_direction_is_zero() {
    assert_eq!(nearest_degree_of(0, 0), 0);
}

#[test]
fn nearest_degree_at_the_largest_products() {
    let max = 20_000_000_000_000_000i64;
    assert_eq!(nearest_degree_of(max, max), 45);
    assert_eq!(nearest_degree_of(-max, max), 135);
    assert_eq!(nearest_degree_of(-max, 0), 180);
    assert_eq!(nearest_degree_of(max, 0), 0);
}

#[test]
fn vector_sum_saturates() {
    assert_eq!(Vec2::new(1, 2).plus(Vec2::new(-3, 4)), Vec2::new(-2, 6));
    assert_eq!(
        Vec2::new(COORD_MAX, -COORD_MAX).plus(Vec2::new(1, -1)),
        Vec2::new(COORD_MAX, -COORD_MAX)
    );
    assert_eq!(
        Vec2::new(COORD_MAX, COORD_MAX).plus(Vec2::new(-COORD_MAX, -1)),
        Vec2::new(0, COORD_MAX - 1)
    );
}

#[test]
fn vector_scaling_is_fixed_point_and_saturates() {
    assert_eq!(Vec2::new(1_500_000, -1_500_000).scaled(STEP), Vec2::new(30_000, -30_000));
    assert_eq!(Vec2::new(999_999, -999_999).scaled(STEP), Vec2::new(19_999, -19_999));
    assert_eq!(Vec2::new(-3, 3).scaled(500_000), Vec2::new(-1, 1));
    assert_eq!(
        Vec2::new(COORD_MAX, -COORD_MAX).scaled(COORD_MAX),
        Vec2::new(COORD_MAX, -COORD_MAX)
    );
    assert_eq!(Vec2::new(123, -456).scaled(ONE), Vec2::new(123, -456));
    assert_eq!(Vec2::new(123, -456).scaled(-ONE), Vec2::new(-123, 456));
}

#[test]
fn clamped_constructor_brings_components_into_range() {
    assert_eq!(Vec2::clamped(i64::MAX, i64::MIN), Vec2::new(COORD_MAX, -COORD_MAX));
    assert_eq!(Vec2::clamped(5, -5), Vec2::new(5, -5));
    assert!(Vec2::clamped(i64::MAX, 0).is_bounded());
    assert!(!Vec2::new(COORD_MAX + 1, 0).is_bounded());
    assert!(Vec2::new(COORD_MAX, -COORD_MAX).is_bounded());
}

#[test]
fn squared_norm_and_norm() {
    assert_eq!(Vec2::new(3_000_000, 4_000_000).sqnorm(), 25_000_000_000_000);
    assert_eq!(Vec2::new(3_000_000, 4_000_000).norm(), 5_000_000);
    assert_eq!(Vec2::new(1, 1).norm(), 1);
    assert_eq!(Vec2::zero().norm(), 0);
    assert_eq!(Vec2::new(COORD_MAX, COORD_MAX).sqnorm(), 20_000_000_000_000_000);
    assert_eq!(Vec2::new(COORD_MAX, -COORD_MAX).norm(), 141_421_356);
}

#[test]
fn normalizing_gives_unit_length_never_more() {
    assert_eq!(Vec2::new(3_000_000, 4_000_000).normalized(), Vec2::new(600_000, 800_000));
    assert_eq!(Vec2::new(1, 0).normalized(), Vec2::new(ONE, 0));
    assert_eq!(Vec2::new(-7, 24).normalized(), Vec2::new(-280_000, 960_000));
    assert_eq!(Vec2::new(COORD_MAX, -COORD_MAX).normalized(), Vec2::new(707_106, -707_106));
    assert_eq!(Vec2::new(1_000_000, 10_000).normalized(), Vec2::new(999_950, 9_999));
    assert_eq!(Vec2::new(-1, -1).normalized(), Vec2::new(-500_000, -500_000));
}

#[test]
fn normalizing_the_zero_vector_is_a_no_op() {
    assert_eq!(Vec2::zero().normalized(), Vec2::zero());
}

#[test]
fn rotation_by_whole_degrees() {
    assert_eq!(Vec2::x_axis().rotated(0), Vec2::new(ONE, 0));
    assert_eq!(Vec2::x_axis().rotated(90), Vec2::new(0, ONE));
    assert_eq!(Vec2::new(500_000, -250_000).rotated(30), Vec2::new(558_012, 33_493));
    assert_eq!(Vec2::new(3, 4).rotated(180), Vec2::new(-3, -4));
    assert_eq!(Vec2::new(1_234_567, -7_654_321).rotated(123), Vec2::new(5_747_063, 5_204_237));
    assert_eq!(Vec2::new(COORD_MAX, COORD_MAX).rotated(45), Vec2::new(0, COORD_MAX));
}

#[test]
fn angle_between_vectors() {
    let x = Vec2::x_axis();
    assert_eq!(x.angle_between(Vec2::new(0, ONE)), 90);
    assert_eq!(x.angle_between(Vec2::new(-ONE, 0)), 180);
    assert_eq!(x.angle_between(Vec2::new(ONE, 0)), 0);
    assert_eq!(x.angle_between(Vec2::new(ONE, ONE)), 45);
    assert_eq!(x.angle_between(Vec2::new(0, -ONE)), 90);
    assert_eq!(x.angle_between(Vec2::new(1_732_051, 1_000_000)), 30);
    assert_eq!(x.angle_between(Vec2::new(-1_879_386, -684_040)), 160);
    assert_eq!(Vec2::new(3, 4).angle_between(Vec2::new(4, 3)), 16);
    assert_eq!(Vec2::new(4, 3).angle_between(Vec2::new(3, 4)), 16);
    assert_eq!(x.angle_between(Vec2::new(2_000_000, -2_000_000)), 45);
    assert_eq!(Vec2::new(0, -5).angle_between(Vec2::new(7, 0)), 90);
    let corner = Vec2::new(COORD_MAX, COORD_MAX);
    assert_eq!(corner.angle_between(Vec2::new(-COORD_MAX, COORD_MAX)), 90);
    assert_eq!(corner.angle_between(Vec2::new(-COORD_MAX, -COORD_MAX)), 180);
}

#[test]
fn angle_with_the_zero_vector_is_zero() {
    assert_eq!(Vec2::x_axis().angle_between(Vec2::zero()), 0);
    assert_eq!(Vec2::zero().angle_between(Vec2::x_axis()), 0);
    assert_eq!(Vec2::zero().angle_between(Vec2::zero()), 0);
}

#[test]
fn wrap_flips_components_beyond_the_limit() {
    let mut v = Vec2::new(1_050_001, -1_050_001);
    wrap(&mut v);
    assert_eq!(v, Vec2::new(-1_050_001, 1_050_001));
    let mut w = Vec2::new(1_070_000, 0);
    wrap(&mut w);
    assert_eq!(w, Vec2::new(-1_070_000, 0));
    let mut far = Vec2::new(COORD_MAX, -COORD_MAX);
    wrap(&mut far);
    assert_eq!(far, Vec2::new(-COORD_MAX, COORD_MAX));
}

#[test]
fn wrap_leaves_components_within_the_limit_untouched() {
    let mut v = Vec2::new(1_050_000, -1_050_000);
    wrap(&mut v);
    assert_eq!(v, Vec2::new(1_050_000, -1_050_000));
    let mut w = Vec2::new(0, 999_999);
    wrap(&mut w);
    assert_eq!(w, Vec2::new(0, 999_999));
}

#[test]
fn wrap_treats_each_axis_on_its_own() {
    let mut v = Vec2::new(1_500_000, 200_000);
    wrap(&mut v);
    assert_eq!(v, Vec2::new(-1_500_000, 200_000));
    let mut w = Vec2::new(-300_000, -1_200_000);
    wrap(&mut w);
    assert_eq!(w, Vec2::new(-300_000, 1_200_000));
}

#[test]
fn wrap_is_a_bounce_not_a_modulo() {
    let mut v = Vec2::new(1_060_000, 0);
    wrap(&mut v);
    assert_eq!(v.x, -1_060_000);
    wrap(&mut v);
    assert_eq!(v.x, 1_060_000);
}
