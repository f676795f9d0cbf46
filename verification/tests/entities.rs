use asteroids::bullet::Bullet;
use asteroids::collision::{exact_detect, hits, near_detect, sqdist_of};
use asteroids::mook::{random_vec, vec_from_samples, Mook, DEFAULT_LEVEL, HALF, MIN_LEVEL};
use asteroids::ship::{Ship, TURN_STEP};
use asteroids::units::{ACCEL, FULL_HEALTH, MUZZLE_SPEED, ONE, SPEED_CAP_SQ};
use asteroids::vector::Vec2;

#[test]
fn new_ship_rests_at_the_origin() {
    let ship = Ship::new();
    assert_eq!(ship.pos, Vec2::new(0, 0));
    assert_eq!(ship.vel, Vec2::new(0, 0));
    assert_eq!(ship.orient, 0);
    assert_eq!(ship.health, FULL_HEALTH);
    assert_eq!(Ship::default(), ship);
}

#[test]
fn ship_step_moves_by_velocity_times_step() {
    let mut ship = Ship::new();
    ship.vel = Vec2::new(500_000, -250_000);
    ship.step();
    assert_eq!(ship.pos, Vec2::new(10_000, -5_000));
    ship.step();
    assert_eq!(ship.pos, Vec2::new(20_000, -10_000));
    assert_eq!(ship.vel, Vec2::new(500_000, -250_000));
}

#[test]
fn ship_step_bounces_at_the_edge() {
    let mut ship = Ship::new();
    ship.pos = Vec2::new(1_040_000, 0);
    ship.vel = Vec2::new(ONE, 0);
    ship.step();
    assert_eq!(ship.pos, Vec2::new(-1_060_000, 0));
    ship.step();
    assert_eq!(ship.pos, Vec2::new(-1_040_000, 0));
}

#[test]
fn ship_step_at_the_limit_does_not_bounce() {
    let mut ship = Ship::new();
    ship.pos = Vec2::new(1_030_000, -1_030_000);
    ship.vel = Vec2::new(ONE, 0);
    ship.step();
    assert_eq!(ship.pos, Vec2::new(1_050_000, -1_030_000));
}

#[test]
fn accelerate_adds_along_the_facing() {
    let mut ship = Ship::new();
    ship.accelerate(ACCEL);
    assert_eq!(ship.vel, Vec2::new(10_000, 0));
    ship.orient = 10;
    ship.vel = Vec2::zero();
    ship.accelerate(ACCEL);
    assert_eq!(ship.vel, Vec2::new(9_848, 1_736));
    ship.accelerate(-ACCEL);
    assert_eq!(ship.vel, Vec2::new(0, 0));
}

#[test]
fn accel_and_decel_use_the_fixed_thrust() {
    let mut ship = Ship::new();
    ship.accel();
    assert_eq!(ship.vel, Vec2::new(ACCEL, 0));
    ship.decel();
    ship.decel();
    assert_eq!(ship.vel, Vec2::new(-ACCEL, 0));
    let mut other = Ship::new();
    other.orient = 10;
    other.decel();
    assert_eq!(other.vel, Vec2::new(-9_848, -1_736));
}

#[test]
fn speed_is_capped_at_one_unit() {
    let mut ship = Ship::new();
    for _ in 0..100 {
        ship.accel();
    }
    assert_eq!(ship.vel, Vec2::new(ONE, 0));
    ship.accel();
    assert_eq!(ship.vel, Vec2::new(ONE, 0));
}

#[test]
fn speed_never_exceeds_the_cap_whatever_the_thrusts() {
    let mut ship = Ship::new();
    let mut turn = 0u32;
    for i in 0..2_000i64 {
        turn = (turn + 7) % 5;
        if turn == 0 {
            ship.turn_left();
        }
        if i % 3 == 0 {
            ship.accelerate(ACCEL * (1 + i % 50));
        } else if i % 7 == 0 {
            ship.accelerate(-3 * ONE);
        } else {
            ship.accel();
        }
        assert!(ship.vel.sqnorm() <= SPEED_CAP_SQ);
    }
}

#[test]
fn capped_ship_pushed_sideways_is_renormalised_toward_the_new_direction() {
    let mut ship = Ship::new();
    ship.vel = Vec2::new(ONE, 0);
    ship.orient = 90;
    ship.accel();
    assert_eq!(ship.vel, Vec2::new(999_950, 9_999));
    assert!(ship.vel.sqnorm() <= SPEED_CAP_SQ);
}

#[test]
fn long_thrust_at_an_angle_stays_on_the_cap() {
    let mut ship = Ship::new();
    ship.orient = 30;
    for _ in 0..300 {
        ship.accel();
    }
    assert_eq!(ship.vel, Vec2::new(866_018, 500_010));
}

#[test]
fn thrust_below_the_cap_adds_exactly_along_the_facing() {
    let mut ship = Ship::new();
    ship.vel = Vec2::new(700_000, 690_000);
    ship.orient = 45;
    ship.accel();
    assert_eq!(ship.vel, Vec2::new(707_071, 697_071));
    ship.vel = Vec2::new(700_000, 690_000);
    ship.decel();
    assert_eq!(ship.vel, Vec2::new(692_929, 682_929));
    for facing in 0..360u32 {
        let mut probe = Ship::new();
        probe.vel = Vec2::new(-600_000, 787_000);
        probe.orient = facing;
        let heading = probe.orient_vec();
        probe.accel();
        assert_eq!(probe.vel, Vec2::new(-600_000 + heading.x / 100, 787_000 + heading.y / 100));
        assert!(probe.vel != Vec2::new(-600_000, 787_000));
        assert!(probe.vel.sqnorm() <= SPEED_CAP_SQ);
    }
}

#[test]
fn turning_changes_facing_not_velocity() {
    let mut ship = Ship::new();
    ship.vel = Vec2::new(300_000, 400_000);
    ship.turn_left();
    assert_eq!(ship.orient, TURN_STEP);
    assert_eq!(ship.vel, Vec2::new(300_000, 400_000));
    ship.turn_right();
    ship.turn_right();
    assert_eq!(ship.orient, 350);
    for _ in 0..36 {
        ship.turn_left();
    }
    assert_eq!(ship.orient, 350);
    assert_eq!(ship.vel, Vec2::new(300_000, 400_000));
}

#[test]
fn orient_vec_is_the_unit_heading() {
    let mut ship = Ship::new();
    assert_eq!(ship.orient_vec(), Vec2::new(ONE, 0));
    ship.orient = 90;
    assert_eq!(ship.orient_vec(), Vec2::new(0, ONE));
    ship.orient = 200;
    assert_eq!(ship.orient_vec(), Vec2::new(-939_693, -342_020));
}

#[test]
fn ship_fire_is_pure_and_uses_muzzle_speed() {
    let mut ship = Ship::new();
    ship.pos = Vec2::new(123, -456);
    ship.vel = Vec2::new(500_000, 0);
    ship.orient = 45;
    let copy = ship;
    let bullet = ship.fire();
    assert_eq!(ship, copy);
    assert_eq!(bullet.pos, Vec2::new(123, -456));
    assert_eq!(bullet.vel, Vec2::new(1_414_214, 1_414_214));
    ship.orient = 0;
    assert_eq!(ship.fire().vel, Vec2::new(MUZZLE_SPEED, 0));
    ship.orient = 200;
    assert_eq!(ship.fire().vel, Vec2::new(-1_879_386, -684_040));
}

#[test]
fn bullet_step_moves_and_never_wraps() {
    let mut bullet = Bullet::new(Vec2::new(1_040_000, 0), Vec2::new(2 * ONE, -ONE));
    bullet.step();
    assert_eq!(bullet.pos, Vec2::new(1_080_000, -20_000));
    bullet.step();
    assert_eq!(bullet.pos, Vec2::new(1_120_000, -40_000));
    assert_eq!(bullet.vel, Vec2::new(2 * ONE, -ONE));
}

#[test]
fn bullet_expires_strictly_beyond_the_limit() {
    assert!(!Bullet::new(Vec2::new(ONE, ONE), Vec2::zero()).is_expired());
    assert!(!Bullet::new(Vec2::new(-ONE, ONE), Vec2::zero()).is_expired());
    assert!(Bullet::new(Vec2::new(ONE + 1, ONE), Vec2::zero()).is_expired());
    assert!(Bullet::new(Vec2::new(ONE, -ONE - 1), Vec2::zero()).is_expired());
    assert!(!Bullet::new(Vec2::new(1_414_213, 0), Vec2::zero()).is_expired());
    assert!(Bullet::new(Vec2::new(1_414_214, 0), Vec2::zero()).is_expired());
    assert!(!Bullet::new(Vec2::zero(), Vec2::new(5 * ONE, 0)).is_expired());
}

#[test]
fn bullet_orientation_is_the_angle_of_its_velocity() {
    assert_eq!(Bullet::new(Vec2::zero(), Vec2::new(2 * ONE, 0)).orient(), 0);
    assert_eq!(Bullet::new(Vec2::zero(), Vec2::new(0, 2 * ONE)).orient(), 90);
    assert_eq!(Bullet::new(Vec2::zero(), Vec2::new(-2 * ONE, 0)).orient(), 180);
    assert_eq!(Bullet::new(Vec2::zero(), Vec2::new(0, -2 * ONE)).orient(), 90);
    assert_eq!(Bullet::new(Vec2::zero(), Vec2::new(-1_879_386, -684_040)).orient(), 160);
    assert_eq!(Bullet::new(Vec2::zero(), Vec2::zero()).orient(), 0);
}

#[test]
fn bullet_orientation_gives_back_every_facing() {
    let mut ship = Ship::new();
    for facing in 0..360u32 {
        ship.orient = facing;
        let expected = if facing <= 180 { facing } else { 360 - facing };
        assert_eq!(ship.fire().orient(), expected);
    }
}

#[test]
fn bullet_orientation_gives_back_the_facing_after_flight() {
    let mut ship = Ship::new();
    ship.orient = 28;
    let mut bullet = ship.fire();
    assert_eq!(bullet.vel, Vec2::new(1_765_896, 938_944));
    for _ in 0..10 {
        bullet.step();
        assert_eq!(bullet.orient(), 28);
    }
    ship.orient = 62;
    assert_eq!(ship.fire().orient(), 62);
    ship.orient = 298;
    assert_eq!(ship.fire().orient(), 62);
    ship.orient = 332;
    assert_eq!(ship.fire().orient(), 28);
}

#[test]
fn new_mook_has_full_health_and_default_level() {
    let mook = Mook::new(Vec2::new(1, 2), Vec2::new(3, 4), 77);
    assert_eq!(mook.pos, Vec2::new(1, 2));
    assert_eq!(mook.vel, Vec2::new(3, 4));
    assert_eq!(mook.orient, 77);
    assert_eq!(mook.health, FULL_HEALTH);
    assert_eq!(mook.level, DEFAULT_LEVEL);
    assert_eq!(DEFAULT_LEVEL, 5);
    assert_eq!(MIN_LEVEL, 1);
}

#[test]
fn mook_step_moves_spins_and_bounces() {
    let mut mook = Mook::new(Vec2::new(1_045_000, -100_000), Vec2::new(500_000, 250_000), 358);
    mook.step();
    assert_eq!(mook.pos, Vec2::new(-1_055_000, -95_000));
    assert_eq!(mook.orient, 4);
    assert_eq!(mook.health, FULL_HEALTH);
    mook.step();
    assert_eq!(mook.pos, Vec2::new(-1_045_000, -90_000));
    assert_eq!(mook.orient, 10);
}

#[test]
fn mook_takes_half_its_health_per_hit_down_to_zero() {
    let mut mook = Mook::new(Vec2::zero(), Vec2::zero(), 0);
    assert!(!mook.is_destroyed());
    mook.take_hit();
    assert_eq!(mook.health, 500_000);
    assert!(!mook.is_destroyed());
    mook.take_hit();
    assert_eq!(mook.health, 0);
    assert!(mook.is_destroyed());
    mook.take_hit();
    assert_eq!(mook.health, 0);
    let mut weak = Mook::new(Vec2::zero(), Vec2::zero(), 0);
    weak.health = 300_000;
    weak.take_hit();
    assert_eq!(weak.health, 0);
}

#[test]
fn mook_explodes_into_two_halves_one_level_down() {
    let mut parent = Mook::new(Vec2::new(5, -6), Vec2::new(1_000, 2_000), 6);
    parent.health = 0;
    let (first, second) = parent.explode().unwrap();
    assert_eq!(first.pos, Vec2::new(5, -6));
    assert_eq!(second.pos, Vec2::new(5, -6));
    assert_eq!(first.vel, Vec2::new(1_000 + 99_452, 2_000 + 10_452));
    assert_eq!(second.vel, Vec2::new(1_000 - 99_452, 2_000 - 10_452));
    assert_eq!((first.level, second.level), (4, 4));
    assert_eq!((first.health, second.health), (FULL_HEALTH, FULL_HEALTH));
    assert_eq!((first.orient, second.orient), (6, 6));
}

#[test]
fn mook_of_the_smallest_level_leaves_nothing() {
    let mut small = Mook::new(Vec2::zero(), Vec2::zero(), 0);
    small.level = MIN_LEVEL;
    assert_eq!(small.explode(), None);
    small.level = 2;
    let (first, _) = small.explode().unwrap();
    assert_eq!(first.level, 1);
}

#[test]
fn samples_map_onto_the_visible_field() {
    assert_eq!(vec_from_samples(0, 0xffff_ffff), Vec2::new(-ONE, 999_998));
    assert_eq!(vec_from_samples(0x8000_0000, 0x4000_0000), Vec2::new(0, -500_000));
    assert_eq!(vec_from_samples(4_294, 4_295), Vec2::new(-ONE, -999_998));
}

#[test]
fn mook_from_samples_is_exact() {
    let mook = Mook::from_samples(0x8000_0000, 0, 0xffff_ffff, 0x4000_0000, 0x4000_0000);
    assert_eq!(mook.pos, Vec2::new(0, -ONE));
    assert_eq!(mook.vel, Vec2::new(499_999, -250_000));
    assert_eq!(mook.orient, 90);
    assert_eq!(mook.health, FULL_HEALTH);
    assert_eq!(mook.level, DEFAULT_LEVEL);
    let edge = Mook::from_samples(0, 0, 0, 0, 0xffff_ffff);
    assert_eq!(edge.vel, Vec2::new(-HALF, -HALF));
    assert_eq!(edge.orient, 359);
    let low = Mook::from_samples(0, 0, 0, 0, 0);
    assert_eq!(low.orient, 0);
}

#[test]
fn random_mooks_lie_in_the_field_and_differ() {
    let mut distinct = false;
    let first = Mook::random();
    for _ in 0..200 {
        let mook = Mook::random();
        assert!(-ONE <= mook.pos.x && mook.pos.x < ONE);
        assert!(-ONE <= mook.pos.y && mook.pos.y < ONE);
        assert!(-HALF <= mook.vel.x && mook.vel.x <= HALF);
        assert!(-HALF <= mook.vel.y && mook.vel.y <= HALF);
        assert!(mook.orient < 360);
        assert_eq!(mook.health, FULL_HEALTH);
        assert_eq!(mook.level, DEFAULT_LEVEL);
        if mook != first {
            distinct = true;
        }
    }
    assert!(distinct);
}

#[test]
fn random_vectors_lie_in_the_field_and_differ() {
    let first = random_vec();
    let mut distinct = false;
    for _ in 0..200 {
        let v = random_vec();
        assert!(-ONE <= v.x && v.x < ONE);
        assert!(-ONE <= v.y && v.y < ONE);
        if v != first {
            distinct = true;
        }
    }
    assert!(distinct);
}

#[test]
fn squared_distance_between_points() {
    assert_eq!(sqdist_of(Vec2::new(1, 2), Vec2::new(4, 6)), 25);
    assert_eq!(sqdist_of(Vec2::new(-3, 0), Vec2::new(0, 4)), 25);
    assert_eq!(sqdist_of(Vec2::new(7, 7), Vec2::new(7, 7)), 0);
}

#[test]
fn exact_phase_is_the_inscribed_circle() {
    let mook = Mook::new(Vec2::zero(), Vec2::zero(), 0);
    let on_rim = Bullet::new(Vec2::new(125_000, 0), Vec2::zero());
    let beyond = Bullet::new(Vec2::new(125_001, 0), Vec2::zero());
    assert!(exact_detect(&mook, &on_rim));
    assert!(!exact_detect(&mook, &beyond));
    assert!(hits(&mook, &on_rim));
    assert!(!hits(&mook, &beyond));
}

#[test]
fn broad_phase_is_the_sum_of_the_bounding_radii() {
    let mook = Mook::new(Vec2::zero(), Vec2::zero(), 0);
    let touching = Bullet::new(Vec2::new(0, -(16 * 11_049 + 10_050)), Vec2::zero());
    let apart = Bullet::new(Vec2::new(0, -(16 * 11_049 + 10_051)), Vec2::zero());
    assert!(near_detect(&mook, &touching));
    assert!(!near_detect(&mook, &apart));
    assert!(!hits(&mook, &touching));
    assert!(!hits(&mook, &apart));
}

#[test]
fn each_level_down_halves_the_mook() {
    let mut mook = Mook::new(Vec2::new(ONE, ONE), Vec2::zero(), 0);
    let mut half_side = 125_000i64;
    let mut level = DEFAULT_LEVEL;
    while level >= MIN_LEVEL {
        mook.level = level;
        let inside = Bullet::new(Vec2::new(ONE + half_side / 2, ONE), Vec2::zero());
        let outside = Bullet::new(Vec2::new(ONE + half_side + 1, ONE), Vec2::zero());
        assert!(hits(&mook, &inside));
        assert!(!hits(&mook, &outside));
        half_side /= 2;
        level -= 1;
    }
    mook.level = 1;
    assert!(exact_detect(&mook, &Bullet::new(Vec2::new(ONE + 7_812, ONE), Vec2::zero())));
    assert!(!exact_detect(&mook, &Bullet::new(Vec2::new(ONE + 7_813, ONE), Vec2::zero())));
}
