use platformer::components::{Dynamic, Player, Vec2};
use platformer::level::{Level, CAMERA_HEIGHT, CAMERA_WIDTH};
use platformer::physics::{CollisionSystem, ForceSystem, GRAVITY};
use platformer::player::{
    takeoff_speed, CameraFollowSystem, FrameInput, MovementBindings, PlayerBindings,
    PlayerMovementSystem, FULL_HOP_HEIGHT, JUMP_COUNT, MAX_AERIAL_SPEED, MAX_GROUND_SPEED,
    SHORT_HOP_HEIGHT,
};

fn body(vx: i64, vy: i64, grounded: bool) -> Dynamic {
    Dynamic { velocity: Vec2 { x: vx, y: vy }, grounded, friction_coefficient: 1000 }
}

fn input(movement: i64, short_hop: bool, full_hop: bool) -> FrameInput {
    FrameInput { movement, short_hop, full_hop }
}

#[test]
fn player_jump_bookkeeping() {
    let mut p = Player::default();
    assert_eq!(p, Player { jump_ready: true, jump_count: 0 });
    p.reset_jumps(3);
    assert_eq!(p, Player { jump_ready: true, jump_count: 3 });
    p.trigger_jump();
    assert_eq!(p, Player { jump_ready: false, jump_count: 2 });
}

#[test]
fn horizontal_axis_sums_then_saturates() {
    assert_eq!(PlayerBindings::horizontal(&vec![]), 0);
    assert_eq!(PlayerBindings::horizontal(&vec![300, -100]), 200);
    assert_eq!(PlayerBindings::horizontal(&vec![1000, 1000, -500]), 1000);
    assert_eq!(PlayerBindings::horizontal(&vec![-1000, -1000, 1000]), -1000);
    assert_eq!(PlayerBindings::horizontal(&vec![1000, 1000, -1000]), 1000);
    let axes = PlayerBindings::horizontal_axes();
    assert_eq!(axes.len(), 7);
    assert_eq!(axes[0], MovementBindings::Horizontal(-1));
    assert_eq!(axes[6], MovementBindings::Horizontal(5));
    let frame = FrameInput::from_sources(&vec![600, 600], true, false);
    assert_eq!(frame, input(1000, true, false));
}

#[test]
fn takeoff_speeds() {
    assert_eq!(GRAVITY, -800_000);
    assert_eq!(takeoff_speed(FULL_HOP_HEIGHT), 240_000);
    assert_eq!(takeoff_speed(SHORT_HOP_HEIGHT), 178_885);
    assert_eq!(takeoff_speed(0), 0);
    let v = takeoff_speed(FULL_HOP_HEIGHT);
    assert_eq!(v * v / (-2 * GRAVITY), FULL_HOP_HEIGHT);
}

#[test]
fn full_hop_from_the_ground() {
    let mut b = body(0, 0, true);
    let mut p = Player::default();
    PlayerMovementSystem::steer(&mut b, &mut p, &input(0, false, true), 16_667);
    assert_eq!(b.velocity.y, 240_000);
    assert_eq!(p, Player { jump_ready: false, jump_count: JUMP_COUNT - 1 });
    assert_eq!(b.friction_coefficient, 1000);
}

#[test]
fn no_takeoff_when_both_hops_are_held() {
    let mut b = body(0, 0, true);
    let mut p = Player::default();
    PlayerMovementSystem::steer(&mut b, &mut p, &input(0, true, true), 16_667);
    assert_eq!(b.velocity.y, 0);
    assert_eq!(p, Player { jump_ready: true, jump_count: JUMP_COUNT });
}

#[test]
fn short_hop_from_the_ground() {
    let mut b = body(0, 0, true);
    let mut p = Player::default();
    PlayerMovementSystem::steer(&mut b, &mut p, &input(0, true, false), 16_667);
    assert_eq!(b.velocity.y, 178_885);
    assert_eq!(p, Player { jump_ready: false, jump_count: JUMP_COUNT - 1 });
}

#[test]
fn ground_acceleration_and_cap() {
    let mut b = body(0, 0, true);
    let mut p = Player::default();
    PlayerMovementSystem::steer(&mut b, &mut p, &input(1000, false, false), 10_000);
    assert_eq!(b.velocity.x, 19_200);
    assert_eq!(b.friction_coefficient, 0);
    for _ in 0..20 {
        PlayerMovementSystem::steer(&mut b, &mut p, &input(1000, false, false), 10_000);
        assert!(b.velocity.x <= MAX_GROUND_SPEED);
    }
    assert_eq!(b.velocity.x, MAX_GROUND_SPEED);
    // landing faster than the ground allows is capped at once
    let mut fast = body(-MAX_AERIAL_SPEED, 0, true);
    PlayerMovementSystem::steer(&mut fast, &mut p, &input(0, false, false), 10_000);
    assert_eq!(fast.velocity.x, -MAX_GROUND_SPEED);
}

#[test]
fn ground_speed_stays_capped_over_whole_ticks() {
    let pixels = vec![[255, 255, 255, 255]; 6].into_iter().chain(vec![[0, 0, 0, 255]; 3]).collect::<Vec<_>>();
    let level = Level::from_pixels(3, 3, &pixels).unwrap();
    let mut pos = Vec2 { x: -16_000, y: 0 };
    let mut b = body(0, 0, true);
    let mut p = Player::default();
    for _ in 0..30 {
        ForceSystem::apply(&mut b, true, 16_667);
        PlayerMovementSystem::steer(&mut b, &mut p, &input(1000, false, false), 16_667);
        CollisionSystem::resolve(&level, &mut pos, &mut b, 16_667);
        assert!(b.velocity.x.abs() <= MAX_GROUND_SPEED);
        assert!(b.grounded);
        if pos.x > 0 {
            break;
        }
    }
}

#[test]
fn aerial_jump_budget() {
    let mut b = body(0, -5_000, false);
    let mut p = Player { jump_ready: true, jump_count: 1 };
    PlayerMovementSystem::steer(&mut b, &mut p, &input(1000, false, true), 16_667);
    assert_eq!(b.velocity, Vec2 { x: 128_000, y: 178_885 });
    assert_eq!(p, Player { jump_ready: false, jump_count: 0 });
    // releasing the action relatches readiness but restores no jump
    let mut falling = body(0, -5_000, false);
    PlayerMovementSystem::steer(&mut falling, &mut p, &input(0, false, false), 16_667);
    assert_eq!(p, Player { jump_ready: true, jump_count: 0 });
    PlayerMovementSystem::steer(&mut falling, &mut p, &input(0, true, false), 16_667);
    assert_eq!(falling.velocity.y, -5_000);
    assert_eq!(p, Player { jump_ready: true, jump_count: 0 });
}

#[test]
fn at_most_jump_count_jumps_between_landings() {
    let mut b = body(0, 0, true);
    let mut p = Player::default();
    PlayerMovementSystem::steer(&mut b, &mut p, &input(0, false, false), 16_667);
    assert_eq!(p.jump_count, JUMP_COUNT);
    b.grounded = false;
    let mut jumps = 0;
    for tick in 0..12 {
        let pressed = tick % 2 == 0;
        b.velocity.y = -1;
        PlayerMovementSystem::steer(&mut b, &mut p, &input(0, pressed, false), 16_667);
        if b.velocity.y != -1 {
            jumps += 1;
        }
    }
    assert_eq!(jumps, JUMP_COUNT);
}

#[test]
fn aerial_boost_and_steering() {
    let mut b = body(10_000, 0, false);
    let mut p = Player { jump_ready: true, jump_count: 2 };
    PlayerMovementSystem::steer(&mut b, &mut p, &input(-500, true, false), 16_667);
    assert_eq!(b.velocity.x, 10_000 - 76_800);
    let mut drift = body(0, 0, false);
    let mut q = Player { jump_ready: false, jump_count: 0 };
    PlayerMovementSystem::steer(&mut drift, &mut q, &input(-1000, false, false), 100_000);
    assert_eq!(drift.velocity.x, -51_200);
}

#[test]
fn movement_stage_skips_bodies_without_player() {
    let mut bodies = vec![body(0, 0, true), body(0, 0, true)];
    let mut players = vec![None, Some(Player::default())];
    PlayerMovementSystem.run(&mut bodies, &mut players, &input(0, false, true), 16_667);
    assert_eq!(bodies[0], body(0, 0, true));
    assert_eq!(bodies[1].velocity.y, 240_000);
    assert_eq!(players[1], Some(Player { jump_ready: false, jump_count: 1 }));
}

#[test]
fn camera_stays_inside_large_levels() {
    let pixels = vec![[255, 255, 255, 255]; 100 * 50];
    let level = Level::from_pixels(100, 50, &pixels).unwrap();
    // the level spans -800_000..800_000 by -400_000..400_000
    let cam = CameraFollowSystem::follow(&level, Vec2 { x: -790_000, y: 395_000 });
    assert_eq!(cam, Vec2 { x: -800_000 + CAMERA_WIDTH / 2, y: 400_000 - CAMERA_HEIGHT / 2 });
    let mid = CameraFollowSystem::follow(&level, Vec2 { x: 1_000, y: -2_000 });
    assert_eq!(mid, Vec2 { x: 1_000, y: -2_000 });
    let last = CameraFollowSystem.run(&level, &vec![Vec2 { x: 5, y: 6 }, Vec2 { x: 7, y: 8 }]);
    assert_eq!(last, Vec2 { x: 7, y: 8 });
}

#[test]
fn camera_centres_on_small_levels() {
    let pixels = vec![[255, 255, 255, 255]; 9];
    let level = Level::from_pixels(3, 3, &pixels).unwrap();
    let cam = CameraFollowSystem::follow(&level, Vec2 { x: 20_000, y: -20_000 });
    assert_eq!(cam, Vec2 { x: 0, y: 0 });
    assert_eq!(CameraFollowSystem.run(&level, &vec![]), Vec2 { x: 0, y: 0 });
}
