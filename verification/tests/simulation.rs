use asteroids::board::Board;
use asteroids::bullet::Bullet;
use asteroids::events::{Events, Intent, Key, KeyState};
use asteroids::game::{Event, Flow, Game};
use asteroids::mook::Mook;
use asteroids::units::{FULL_HEALTH, MUZZLE_SPEED, ONE};
use asteroids::vector::Vec2;

fn sorted(mut keys: Vec<u32>) -> Vec<u32> {
    keys.sort();
    keys
}

fn still_mook(x: i64, y: i64, level: u32) -> Mook {
    let mut mook = Mook::new(Vec2::new(x, y), Vec2::zero(), 0);
    mook.level = level;
    mook
}

fn still_bullet(x: i64, y: i64) -> Bullet {
    Bullet::new(Vec2::new(x, y), Vec2::zero())
}

#[test]
fn new_board_holds_only_a_fresh_ship() {
    let board = Board::new();
    assert_eq!(board.ship().pos, Vec2::zero());
    assert_eq!(board.ship().vel, Vec2::zero());
    assert_eq!(board.ship().orient, 0);
    assert_eq!(board.ship().health, FULL_HEALTH);
    assert!(board.bullet_keys().is_empty());
    assert!(board.mook_keys().is_empty());
    assert_eq!(board.bulletct(), 0);
    assert_eq!(board.mookct(), 0);
}

#[test]
fn ship_at_origin_fires_once() {
    let mut board = Board::new();
    let key = board.fire();
    assert_eq!(key, Some(0));
    assert_eq!(board.bullet_keys(), vec![0]);
    let bullet = board.bullet(0).unwrap();
    assert_eq!(bullet.vel, Vec2::new(MUZZLE_SPEED, 0));
    assert_eq!(bullet.pos, Vec2::new(0, 0));
    assert_eq!(board.bulletct(), 1);
    assert!(board.mook_keys().is_empty());
    assert_eq!(board.ship().vel, Vec2::zero());
}

#[test]
fn bullets_get_keys_in_issuance_order() {
    let mut board = Board::new();
    for expected in 0..25u32 {
        assert_eq!(board.fire(), Some(expected));
    }
    assert_eq!(sorted(board.bullet_keys()), (0..25u32).collect::<Vec<u32>>());
    assert_eq!(board.bulletct(), 25);
    assert_eq!(board.mookct(), 0);
}

#[test]
fn mooks_get_keys_in_issuance_order() {
    let mut board = Board::new();
    for expected in 0..17u32 {
        assert_eq!(board.add_mook(), Some(expected));
    }
    assert_eq!(sorted(board.mook_keys()), (0..17u32).collect::<Vec<u32>>());
    assert_eq!(board.mookct(), 17);
    assert_eq!(board.bulletct(), 0);
    for key in 0..17u32 {
        let mook = board.mook(key).unwrap();
        assert!(-ONE <= mook.pos.x && mook.pos.x < ONE);
        assert_eq!(mook.health, FULL_HEALTH);
    }
}

#[test]
fn spawned_entities_are_stored_under_their_keys() {
    let mut board = Board::new();
    let a = still_mook(100, 200, 3);
    let b = still_mook(-300, 400, 5);
    assert_eq!(board.spawn_mook(a), Some(0));
    assert_eq!(board.spawn_mook(b), Some(1));
    assert_eq!(board.mook(0), Some(a));
    assert_eq!(board.mook(1), Some(b));
    assert_eq!(board.mook(2), None);
    let shot = Bullet::new(Vec2::new(1, 2), Vec2::new(3, 4));
    assert_eq!(board.spawn_bullet(shot), Some(0));
    assert_eq!(board.bullet(0), Some(shot));
    assert_eq!(board.bullet(1), None);
}

#[test]
fn removed_keys_are_never_issued_again() {
    let mut board = Board::new();
    assert_eq!(board.fire(), Some(0));
    assert_eq!(board.fire(), Some(1));
    assert_eq!(board.fire(), Some(2));
    let removed = board.remove_bullet(1);
    assert_eq!(removed.vel, Vec2::new(MUZZLE_SPEED, 0));
    assert_eq!(sorted(board.bullet_keys()), vec![0, 2]);
    assert_eq!(board.fire(), Some(3));
    assert_eq!(sorted(board.bullet_keys()), vec![0, 2, 3]);
    board.remove_bullet(3);
    board.remove_bullet(0);
    board.remove_bullet(2);
    assert_eq!(board.fire(), Some(4));
    assert_eq!(board.bullet_keys(), vec![4]);

    assert_eq!(board.spawn_mook(still_mook(0, 0, 5)), Some(0));
    assert_eq!(board.spawn_mook(still_mook(0, 0, 5)), Some(1));
    let gone = board.remove_mook(0);
    assert_eq!(gone.level, 5);
    assert_eq!(board.spawn_mook(still_mook(0, 0, 5)), Some(2));
    assert_eq!(sorted(board.mook_keys()), vec![1, 2]);
}

#[test]
fn sweep_does_not_free_keys() {
    let mut board = Board::new();
    board.spawn_bullet(still_bullet(3 * ONE, 0));
    board.spawn_bullet(still_bullet(0, 0));
    board.sweep();
    assert_eq!(board.bullet_keys(), vec![1]);
    assert_eq!(board.bulletct(), 2);
    assert_eq!(board.fire(), Some(2));
}

#[test]
fn sweep_removes_bullets_strictly_beyond_the_limit() {
    let mut board = Board::new();
    board.spawn_bullet(still_bullet(ONE, ONE));
    board.spawn_bullet(still_bullet(ONE + 1, ONE));
    board.spawn_bullet(still_bullet(-ONE, -ONE));
    board.spawn_bullet(still_bullet(-ONE, -ONE - 1));
    board.spawn_bullet(still_bullet(1_414_213, 0));
    board.spawn_bullet(still_bullet(0, 1_414_214));
    board.spawn_bullet(still_bullet(0, 0));
    board.sweep();
    assert_eq!(sorted(board.bullet_keys()), vec![0, 2, 4, 6]);
    assert_eq!(board.bullet(0), Some(still_bullet(ONE, ONE)));
    assert_eq!(board.bullet(4), Some(still_bullet(1_414_213, 0)));
}

#[test]
fn sweep_removes_mooks_without_health() {
    let mut board = Board::new();
    let mut dead = still_mook(0, 0, 5);
    dead.health = 0;
    let mut hurt = still_mook(0, 0, 5);
    hurt.health = 1;
    board.spawn_mook(dead);
    board.spawn_mook(hurt);
    board.spawn_mook(still_mook(5 * ONE, 5 * ONE, 1));
    board.sweep();
    assert_eq!(sorted(board.mook_keys()), vec![1, 2]);
    assert_eq!(board.mook(1), Some(hurt));
    assert_eq!(board.mookct(), 3);
}

#[test]
fn advance_moves_every_entity() {
    let mut board = Board::new();
    board.apply(Intent::Thrust);
    board.spawn_bullet(Bullet::new(Vec2::new(0, 0), Vec2::new(0, MUZZLE_SPEED)));
    board.spawn_bullet(Bullet::new(Vec2::new(ONE, 0), Vec2::new(MUZZLE_SPEED, 0)));
    board.spawn_mook(Mook::new(Vec2::new(-500_000, 500_000), Vec2::new(250_000, -250_000), 90));
    board.advance();
    assert_eq!(board.ship().pos, Vec2::new(200, 0));
    assert_eq!(board.bullet(0).unwrap().pos, Vec2::new(0, 40_000));
    assert_eq!(board.bullet(1).unwrap().pos, Vec2::new(1_040_000, 0));
    let mook = board.mook(0).unwrap();
    assert_eq!(mook.pos, Vec2::new(-495_000, 495_000));
    assert_eq!(mook.orient, 96);
    assert_eq!(mook.health, FULL_HEALTH);
}

#[test]
fn hit_removes_the_bullet_and_damages_the_mook_once() {
    let mut board = Board::new();
    board.spawn_mook(still_mook(300_000, 300_000, 5));
    board.spawn_bullet(still_bullet(310_000, 290_000));
    board.collision_detect();
    assert!(board.bullet_keys().is_empty());
    assert_eq!(board.mook_keys(), vec![0]);
    let mook = board.mook(0).unwrap();
    assert_eq!(mook.health, 500_000);
    assert_eq!(mook.pos, Vec2::new(300_000, 300_000));
    assert_eq!(mook.level, 5);
    assert_eq!(board.mookct(), 1);
    assert_eq!(board.bulletct(), 1);
}

#[test]
fn far_pair_is_left_alone() {
    let mut board = Board::new();
    let mook = still_mook(300_000, 300_000, 5);
    let bullet = still_bullet(-300_000, -300_000);
    board.spawn_mook(mook);
    board.spawn_bullet(bullet);
    board.collision_detect();
    assert_eq!(board.bullet_keys(), vec![0]);
    assert_eq!(board.bullet(0), Some(bullet));
    assert_eq!(board.mook_keys(), vec![0]);
    assert_eq!(board.mook(0), Some(mook));
}

#[test]
fn near_miss_passes_the_broad_phase_only() {
    let mut board = Board::new();
    let mook = still_mook(0, 0, 5);
    let bullet = still_bullet(130_000, 0);
    board.spawn_mook(mook);
    board.spawn_bullet(bullet);
    board.collision_detect();
    assert_eq!(board.bullet(0), Some(bullet));
    assert_eq!(board.mook(0), Some(mook));
}

#[test]
fn mook_hit_twice_in_one_tick_is_destroyed_and_split() {
    let mut board = Board::new();
    board.spawn_mook(still_mook(1_500_000, 1_500_000, 5));
    board.spawn_bullet(still_bullet(1_500_000, 1_500_000));
    board.spawn_bullet(still_bullet(1_500_100, 1_499_900));
    board.collision_detect();
    assert!(board.bullet_keys().is_empty());
    let parent = board.mook(0).unwrap();
    assert_eq!(parent.health, 0);
    assert_eq!(sorted(board.mook_keys()), vec![0, 1, 2]);
    let first = board.mook(1).unwrap();
    let second = board.mook(2).unwrap();
    assert_eq!((first.level, second.level), (4, 4));
    assert_eq!((first.health, second.health), (FULL_HEALTH, FULL_HEALTH));
    assert_eq!(first.pos, Vec2::new(1_500_000, 1_500_000));
    assert_eq!(second.pos, Vec2::new(1_500_000, 1_500_000));
    assert_eq!(first.vel, Vec2::new(100_000, 0));
    assert_eq!(second.vel, Vec2::new(-100_000, 0));
    assert_eq!(board.mookct(), 3);
    board.sweep();
    assert_eq!(sorted(board.mook_keys()), vec![1, 2]);
}

#[test]
fn mook_hit_twice_in_one_step_is_gone_after_the_tick() {
    let mut board = Board::new();
    board.spawn_mook(still_mook(1_500_000, 1_500_000, 5));
    board.spawn_bullet(still_bullet(-1_500_000, -1_500_000));
    board.spawn_bullet(still_bullet(-1_500_000, -1_500_000));
    board.step();
    assert_eq!(board.mook(0), None);
    assert!(board.bullet_keys().is_empty());
    assert_eq!(sorted(board.mook_keys()), vec![1, 2]);
    for key in [1u32, 2u32] {
        let half = board.mook(key).unwrap();
        assert_eq!(half.level, 4);
        assert_eq!(half.health, FULL_HEALTH);
        assert_eq!(half.pos, Vec2::new(-1_500_000, -1_500_000));
        assert_eq!(half.orient, 6);
    }
    assert_eq!(board.mook(1).unwrap().vel, Vec2::new(99_452, 10_452));
    assert_eq!(board.mook(2).unwrap().vel, Vec2::new(-99_452, -10_452));
}

#[test]
fn smallest_mook_hit_twice_is_removed_without_halves() {
    let mut board = Board::new();
    board.spawn_mook(still_mook(1_500_000, 1_500_000, 1));
    board.spawn_bullet(still_bullet(1_500_000, 1_500_000));
    board.spawn_bullet(still_bullet(1_500_000, 1_500_000));
    board.collision_detect();
    assert_eq!(board.mook(0).unwrap().health, 0);
    assert_eq!(board.mook_keys(), vec![0]);
    board.sweep();
    assert!(board.mook_keys().is_empty());
    assert!(board.bullet_keys().is_empty());
    assert_eq!(board.mookct(), 1);
}

#[test]
fn three_hits_leave_health_at_zero_not_below() {
    let mut board = Board::new();
    board.spawn_mook(still_mook(0, 0, 5));
    for _ in 0..3 {
        board.spawn_bullet(still_bullet(0, 0));
    }
    board.collision_detect();
    assert_eq!(board.mook(0).unwrap().health, 0);
    assert!(board.bullet_keys().is_empty());
    assert_eq!(sorted(board.mook_keys()), vec![0, 1, 2]);
}

#[test]
fn mook_without_health_is_not_split_again() {
    let mut board = Board::new();
    let mut dead = still_mook(0, 0, 5);
    dead.health = 0;
    board.spawn_mook(dead);
    board.spawn_bullet(still_bullet(0, 0));
    board.collision_detect();
    assert_eq!(board.mook_keys(), vec![0]);
    assert!(board.bullet_keys().is_empty());
    assert_eq!(board.mookct(), 1);
}

#[test]
fn one_bullet_over_two_mooks_damages_both() {
    let mut board = Board::new();
    board.spawn_mook(still_mook(0, 0, 5));
    board.spawn_mook(still_mook(50_000, 0, 5));
    board.spawn_mook(still_mook(900_000, 900_000, 5));
    board.spawn_bullet(still_bullet(25_000, 0));
    board.collision_detect();
    assert!(board.bullet_keys().is_empty());
    assert_eq!(board.mook(0).unwrap().health, 500_000);
    assert_eq!(board.mook(1).unwrap().health, 500_000);
    assert_eq!(board.mook(2).unwrap().health, FULL_HEALTH);
    assert_eq!(board.mookct(), 3);
}

#[test]
fn two_mooks_destroyed_in_one_pass_split_in_the_order_of_their_keys() {
    let mut board = Board::new();
    board.spawn_mook(still_mook(-500_000, 0, 3));
    board.spawn_mook(still_mook(500_000, 0, 2));
    board.spawn_bullet(still_bullet(-500_000, 0));
    board.spawn_bullet(still_bullet(-500_000, 0));
    board.spawn_bullet(still_bullet(500_000, 0));
    board.spawn_bullet(still_bullet(500_000, 0));
    board.collision_detect();
    assert_eq!(sorted(board.mook_keys()), vec![0, 1, 2, 3, 4, 5]);
    assert_eq!(board.mookct(), 6);
    for (key, x, level, kick) in [
        (2u32, -500_000i64, 2u32, 100_000i64),
        (3, -500_000, 2, -100_000),
        (4, 500_000, 1, 100_000),
        (5, 500_000, 1, -100_000),
    ] {
        let half = board.mook(key).unwrap();
        assert_eq!(half.pos, Vec2::new(x, 0));
        assert_eq!(half.level, level);
        assert_eq!(half.vel, Vec2::new(kick, 0));
        assert_eq!(half.health, FULL_HEALTH);
    }
    board.sweep();
    assert_eq!(sorted(board.mook_keys()), vec![2, 3, 4, 5]);
}

#[test]
fn many_mooks_destroyed_in_one_pass_split_in_the_order_of_their_keys() {
    let mut board = Board::new();
    for i in 0..12i64 {
        board.spawn_mook(still_mook(-900_000 + 150_000 * i, 0, 2 + (i % 3) as u32));
        board.spawn_bullet(still_bullet(-900_000 + 150_000 * i, 0));
        board.spawn_bullet(still_bullet(-900_000 + 150_000 * i, 0));
    }
    board.collision_detect();
    assert_eq!(board.mookct(), 36);
    for i in 0..12u32 {
        let parent = board.mook(i).unwrap();
        assert_eq!(parent.health, 0);
        let first = board.mook(12 + 2 * i).unwrap();
        let second = board.mook(13 + 2 * i).unwrap();
        assert_eq!(first.pos, parent.pos);
        assert_eq!(second.pos, parent.pos);
        assert_eq!(first.level, parent.level - 1);
        assert_eq!(second.level, parent.level - 1);
        assert_eq!(first.vel, Vec2::new(100_000, 0));
        assert_eq!(second.vel, Vec2::new(-100_000, 0));
    }
}

#[test]
fn step_runs_advance_then_collide_then_sweep() {
    let mut board = Board::new();
    board.spawn_mook(Mook::new(Vec2::new(0, 500_000), Vec2::zero(), 0));
    board.spawn_bullet(Bullet::new(Vec2::new(0, 330_000), Vec2::new(0, MUZZLE_SPEED)));
    board.spawn_bullet(Bullet::new(Vec2::new(0, 1_400_000), Vec2::new(0, MUZZLE_SPEED)));
    board.step();
    assert_eq!(board.mook(0).unwrap().health, FULL_HEALTH);
    assert_eq!(board.bullet(0).unwrap().pos, Vec2::new(0, 370_000));
    assert_eq!(board.bullet(1), None);
    board.step();
    assert_eq!(board.mook(0).unwrap().health, 500_000);
    assert_eq!(board.mook(0).unwrap().orient, 12);
    assert!(board.bullet_keys().is_empty());
    assert_eq!(board.bulletct(), 2);
}

#[test]
fn step_moves_the_ship_and_keeps_it() {
    let mut board = Board::new();
    for _ in 0..50 {
        board.apply(Intent::Thrust);
    }
    assert_eq!(board.ship().vel, Vec2::new(500_000, 0));
    for _ in 0..3 {
        board.step();
    }
    assert_eq!(board.ship().pos, Vec2::new(30_000, 0));
    assert_eq!(board.ship().health, FULL_HEALTH);
}

#[test]
fn intents_take_effect_one_by_one() {
    let mut board = Board::new();
    board.apply(Intent::TurnLeft);
    assert_eq!(board.ship().orient, 10);
    board.apply(Intent::TurnRight);
    board.apply(Intent::TurnRight);
    assert_eq!(board.ship().orient, 350);
    board.apply(Intent::Reverse);
    assert_eq!(board.ship().vel, Vec2::new(-9_848, 1_736));
    board.apply(Intent::Fire);
    assert_eq!(board.bullet(0).unwrap().vel, Vec2::new(1_969_616, -347_296));
    board.apply(Intent::Quit);
    assert_eq!(board.ship().orient, 350);
    assert_eq!(board.bullet_keys(), vec![0]);
    board.apply_all(&vec![Intent::TurnLeft, Intent::Thrust, Intent::Fire]);
    assert_eq!(board.ship().orient, 0);
    assert_eq!(board.ship().vel, Vec2::new(152, 1_736));
    assert_eq!(board.bullet(1).unwrap().vel, Vec2::new(MUZZLE_SPEED, 0));
}

#[test]
fn held_keys_are_a_set() {
    let mut events = Events::new();
    assert!(events.intents().is_empty());
    events.update_keysdown(KeyState::Pressed, Key::Up);
    events.update_keysdown(KeyState::Pressed, Key::Up);
    assert!(events.is_down(Key::Up));
    assert!(!events.is_down(Key::Down));
    assert_eq!(events.intents(), vec![Intent::Thrust]);
    events.update_keysdown(KeyState::Released, Key::Up);
    assert!(!events.is_down(Key::Up));
    events.update_keysdown(KeyState::Released, Key::Left);
    assert!(events.intents().is_empty());
}

#[test]
fn intents_come_in_the_fixed_order() {
    let mut events = Events::new();
    for key in [Key::Quit, Key::Fire, Key::Down, Key::Up, Key::Right, Key::Left] {
        events.update_keysdown(KeyState::Pressed, key);
    }
    assert_eq!(
        events.intents(),
        vec![
            Intent::TurnLeft,
            Intent::TurnRight,
            Intent::Thrust,
            Intent::Reverse,
            Intent::Fire,
            Intent::Quit
        ]
    );
    events.update_keysdown(KeyState::Released, Key::Right);
    events.update_keysdown(KeyState::Released, Key::Down);
    assert_eq!(
        events.intents(),
        vec![Intent::TurnLeft, Intent::Thrust, Intent::Fire, Intent::Quit]
    );
}

#[test]
fn each_key_has_its_intent() {
    assert_eq!(Key::Left.intent(), Intent::TurnLeft);
    assert_eq!(Key::Right.intent(), Intent::TurnRight);
    assert_eq!(Key::Up.intent(), Intent::Thrust);
    assert_eq!(Key::Down.intent(), Intent::Reverse);
    assert_eq!(Key::Fire.intent(), Intent::Fire);
    assert_eq!(Key::Quit.intent(), Intent::Quit);
}

#[test]
fn holding_left_and_up_turns_and_thrusts_in_one_tick() {
    let mut game = Game::new();
    assert_eq!(game.handle_event(Event::Keyboard(KeyState::Pressed, Key::Left)), Flow::Continue);
    assert_eq!(game.handle_event(Event::Keyboard(KeyState::Pressed, Key::Up)), Flow::Continue);
    assert_eq!(game.apply_input(), Flow::Continue);
    let ship = game.board().ship();
    assert_eq!(ship.orient, 10);
    assert_eq!(ship.vel, Vec2::new(9_848, 1_736));
    assert_eq!(ship.pos, Vec2::zero());
    game.step();
    assert_eq!(game.board().ship().pos, Vec2::new(196, 34));
    assert_eq!(game.apply_input(), Flow::Continue);
    assert_eq!(game.board().ship().orient, 20);
}

#[test]
fn holding_right_and_down_turns_and_brakes_in_one_tick() {
    let mut game = Game::new();
    game.handle_event(Event::Keyboard(KeyState::Pressed, Key::Right));
    game.handle_event(Event::Keyboard(KeyState::Pressed, Key::Down));
    assert_eq!(game.apply_input(), Flow::Continue);
    let ship = game.board().ship();
    assert_eq!(ship.orient, 350);
    assert_eq!(ship.vel, Vec2::new(-9_848, 1_736));
    assert_eq!(ship.pos, Vec2::zero());
}

#[test]
fn holding_left_right_and_up_thrusts_along_the_old_facing() {
    let mut game = Game::new();
    for key in [Key::Up, Key::Right, Key::Left, Key::Fire] {
        game.handle_event(Event::Keyboard(KeyState::Pressed, key));
    }
    assert_eq!(game.apply_input(), Flow::Continue);
    let ship = game.board().ship();
    assert_eq!(ship.orient, 0);
    assert_eq!(ship.vel, Vec2::new(10_000, 0));
    assert_eq!(game.board().bullet(0).unwrap().vel, Vec2::new(MUZZLE_SPEED, 0));
}

#[test]
fn closing_the_window_stops_the_loop() {
    let mut game = Game::new();
    game.handle_event(Event::Keyboard(KeyState::Pressed, Key::Fire));
    assert_eq!(game.handle_event(Event::Closed), Flow::Stop);
    assert!(game.events().is_down(Key::Fire));
    assert!(game.board().bullet_keys().is_empty());
}

#[test]
fn quit_key_stops_the_loop_after_the_other_intents() {
    let mut game = Game::new();
    game.handle_event(Event::Keyboard(KeyState::Pressed, Key::Quit));
    game.handle_event(Event::Keyboard(KeyState::Pressed, Key::Fire));
    assert_eq!(game.apply_input(), Flow::Stop);
    assert_eq!(game.board().bullet_keys(), vec![0]);
    game.handle_event(Event::Keyboard(KeyState::Released, Key::Quit));
    assert_eq!(game.apply_input(), Flow::Continue);
    assert_eq!(game.board().bulletct(), 2);
}

#[test]
fn holding_fire_spawns_one_bullet_per_tick() {
    let mut game = Game::new();
    game.handle_event(Event::Keyboard(KeyState::Pressed, Key::Fire));
    for tick in 1..=5u32 {
        game.step();
        assert_eq!(game.apply_input(), Flow::Continue);
        assert_eq!(game.board().bulletct(), tick);
    }
    assert_eq!(game.board().bullet(0).unwrap().pos, Vec2::new(160_000, 0));
    assert_eq!(game.board().bullet(4).unwrap().pos, Vec2::zero());
}

#[test]
fn bullets_fly_out_and_are_swept() {
    let mut game = Game::new();
    game.handle_event(Event::Keyboard(KeyState::Pressed, Key::Fire));
    game.apply_input();
    game.handle_event(Event::Keyboard(KeyState::Released, Key::Fire));
    for _ in 0..35 {
        game.step();
    }
    assert_eq!(game.board().bullet(0).unwrap().pos, Vec2::new(1_400_000, 0));
    game.step();
    assert!(game.board().bullet_keys().is_empty());
    assert_eq!(game.board().bulletct(), 1);
}

#[test]
fn session_on_a_prepared_board() {
    let mut board = Board::new();
    board.spawn_mook(still_mook(0, 0, 5));
    let mut game = Game::with_board(board);
    assert_eq!(game.board().mook_keys(), vec![0]);
    assert!(game.events().intents().is_empty());
    game.step();
    assert_eq!(game.board().mook(0).unwrap().orient, 6);
}

#[test]
fn a_board_can_be_copied_and_printed() {
    let mut board = Board::new();
    board.fire();
    board.spawn_mook(still_mook(10, 20, 3));
    let copy = board.clone();
    board.fire();
    board.remove_mook(0);
    assert_eq!(copy.bullet_keys(), vec![0]);
    assert_eq!(copy.bulletct(), 1);
    assert_eq!(copy.mook(0), Some(still_mook(10, 20, 3)));
    assert_eq!(copy.ship(), board.ship());
    assert_eq!(board.bulletct(), 2);
    assert!(board.mook_keys().is_empty());
    assert!(copy.is_wf());
    let text = format!("{:?}", copy);
    assert!(text.contains("bulletct: 1"));
    assert!(text.contains("mookct: 1"));
}
