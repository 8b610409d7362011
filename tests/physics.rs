use platformer::components::{Dynamic, Gravity, Tile, Vec2};
use platformer::fixed::integer_sqrt;
use platformer::level::{Level, LevelError};
use platformer::physics::{apply_resistance, attempt_collision, CollisionSystem, Contact, ForceSystem};

const WHITE: [u8; 4] = [255, 255, 255, 255];
const BLACK: [u8; 4] = [0, 0, 0, 255];
const BLUE: [u8; 4] = [0, 148, 255, 255];
const GREEN: [u8; 4] = [0, 216, 68, 255];

fn body(vx: i64, vy: i64, grounded: bool) -> Dynamic {
    Dynamic { velocity: Vec2 { x: vx, y: vy }, grounded, friction_coefficient: 1000 }
}

/// Three by three tiles with a floor of ground along the bottom row.
fn floor_level() -> Level {
    let pixels = vec![WHITE, WHITE, WHITE, WHITE, WHITE, WHITE, BLACK, BLACK, BLACK];
    Level::from_pixels(3, 3, &pixels).unwrap()
}

#[test]
fn resistance_moves_toward_zero_without_overshoot() {
    assert_eq!(apply_resistance(5, 2), 3);
    assert_eq!(apply_resistance(5, 10), 0);
    assert_eq!(apply_resistance(-5, 2), -3);
    assert_eq!(apply_resistance(-5, 10), 0);
    assert_eq!(apply_resistance(0, 3), 0);
    assert_eq!(apply_resistance(7, 0), 7);
    for v in [-100i64, -3, 0, 4, 250] {
        for r in [0i64, 1, 50, 1000] {
            let out = apply_resistance(v, r);
            assert!(out == 0 || (out < 0) == (v < 0));
            assert!(out.abs() <= v.abs());
        }
    }
}

#[test]
fn friction_stops_full_ground_speed_in_a_tenth_of_a_second() {
    let mut b = body(96_000, 0, true);
    ForceSystem::apply(&mut b, false, 100_000);
    assert_eq!(b.velocity, Vec2 { x: 0, y: 0 });
}

#[test]
fn air_resistance_and_gravity() {
    let mut b = body(96_000, 0, false);
    ForceSystem::apply(&mut b, true, 100_000);
    assert_eq!(b.velocity, Vec2 { x: 70_400, y: -80_000 });
    let mut steering = body(-1_000, 500, false);
    steering.friction_coefficient = 0;
    ForceSystem::apply(&mut steering, false, 100_000);
    assert_eq!(steering.velocity, Vec2 { x: -1_000, y: 500 });
}

#[test]
fn force_stage_applies_gravity_only_to_tagged_bodies() {
    let mut bodies = vec![body(0, 0, false), body(0, 0, false)];
    let gravities = vec![Some(Gravity), None];
    ForceSystem.run(&mut bodies, &gravities, 50_000);
    assert_eq!(bodies[0].velocity.y, -40_000);
    assert_eq!(bodies[1].velocity.y, 0);
}

#[test]
fn level_from_pixels_flips_rows() {
    let pixels = vec![WHITE, BLUE, GREEN, BLACK, WHITE, WHITE];
    let level = Level::from_pixels(3, 2, &pixels).unwrap();
    assert_eq!(level.tiles, vec![Tile::Background, Tile::Start, Tile::End, Tile::Ground, Tile::Background, Tile::Background]);
    assert_eq!((level.left, level.right, level.bottom, level.top), (-24_000, 24_000, -16_000, 16_000));
    // bottom row, first column is the fourth pixel
    assert_eq!(level.tiles[(level.height - 0 - 1) * level.width + 0], Tile::Ground);
    assert_eq!(level.tile_position(0), Vec2 { x: -16_000, y: 8_000 });
    assert_eq!(level.tile_position(5), Vec2 { x: 16_000, y: -8_000 });
}

#[test]
fn level_rejects_unknown_colours() {
    let pixels = vec![WHITE, [1, 2, 3, 255], [9, 9, 9, 255]];
    assert_eq!(Level::from_pixels(3, 1, &pixels).err(), Some(LevelError::InvalidTileColor { index: 1 }));
    let translucent = vec![[0, 0, 0, 128]];
    assert_eq!(Level::from_pixels(1, 1, &translucent).err(), Some(LevelError::InvalidTileColor { index: 0 }));
    assert_eq!(Tile::from_color(&GREEN), Some(Tile::End));
}

#[test]
fn empty_level_has_no_collisions() {
    let level = Level::default();
    let mut p = Vec2 { x: 5, y: 5 };
    assert_eq!(attempt_collision(&mut p, &level), None);
    assert_eq!(p, Vec2 { x: 5, y: 5 });
}

#[test]
fn gap_in_floor_is_not_solid() {
    let pixels = vec![BLACK, WHITE, BLACK];
    let level = Level::from_pixels(3, 1, &pixels).unwrap();
    let mut p = Vec2 { x: 0, y: 9_000 };
    let mut b = body(0, -100_000, false);
    let settled = CollisionSystem::resolve(&level, &mut p, &mut b, 100_000);
    assert!(settled);
    assert_eq!(p, Vec2 { x: 0, y: -1_000 });
    assert_eq!(b.velocity, Vec2 { x: 0, y: -100_000 });
    assert!(!b.grounded);
}

#[test]
fn body_resting_on_ground_is_grounded_after_a_tick() {
    let level = floor_level();
    let mut p = Vec2 { x: 0, y: 0 };
    let mut b = body(0, 0, true);
    ForceSystem::apply(&mut b, true, 16_667);
    assert_eq!(b.velocity.y, -13_333);
    let settled = CollisionSystem::resolve(&level, &mut p, &mut b, 16_667);
    assert!(settled);
    assert!(b.grounded);
    assert_eq!(p, Vec2 { x: 0, y: 0 });
    assert_eq!(b.velocity.y, 0);
}

#[test]
fn body_above_ground_is_not_grounded() {
    let level = floor_level();
    let mut p = Vec2 { x: 0, y: 1_000 };
    let mut b = body(0, 0, true);
    let settled = CollisionSystem::resolve(&level, &mut p, &mut b, 16_667);
    assert!(settled);
    assert!(!b.grounded);
    assert_eq!(p, Vec2 { x: 0, y: 1_000 });
}

#[test]
fn body_inside_a_tile_is_pushed_out() {
    let level = floor_level();
    // just inside the top of the middle floor tile, a little to its right
    let mut p = Vec2 { x: 3_000, y: -10_000 };
    let mut b = body(500, -700, false);
    let settled = CollisionSystem::resolve(&level, &mut p, &mut b, 0);
    assert!(settled);
    assert_eq!(p, Vec2 { x: 3_000, y: 0 });
    assert_eq!(b.velocity, Vec2 { x: 500, y: 0 });
    assert!(b.grounded);
}

#[test]
fn horizontal_push_zeroes_horizontal_velocity() {
    // a wall in the middle column of a single row
    let pixels = vec![WHITE, BLACK, WHITE];
    let level = Level::from_pixels(3, 1, &pixels).unwrap();
    let mut p = Vec2 { x: -12_000, y: 0 };
    assert_eq!(attempt_collision(&mut p, &level), Some(Contact::TileRight));
    assert_eq!(p, Vec2 { x: -16_000, y: 0 });
    let mut q = Vec2 { x: 10_000, y: 500 };
    assert_eq!(attempt_collision(&mut q, &level), Some(Contact::TileLeft));
    assert_eq!(q, Vec2 { x: 16_000, y: 500 });
    let mut r = Vec2 { x: 4_000, y: -3_000 };
    let mut b = body(800, 900, false);
    assert!(CollisionSystem::resolve(&level, &mut r, &mut b, 0));
    assert_eq!(r, Vec2 { x: 16_000, y: -3_000 });
    assert_eq!(b.velocity, Vec2 { x: 0, y: 900 });
}

#[test]
fn equal_offsets_resolve_vertically() {
    let pixels = vec![BLACK];
    let level = Level::from_pixels(1, 1, &pixels).unwrap();
    let mut p = Vec2 { x: 4_000, y: -4_000 };
    assert_eq!(attempt_collision(&mut p, &level), Some(Contact::TileAbove));
    assert_eq!(p, Vec2 { x: 4_000, y: -16_000 });
    let mut centre = Vec2 { x: 0, y: 0 };
    assert_eq!(attempt_collision(&mut centre, &level), Some(Contact::TileBelow));
    assert_eq!(centre, Vec2 { x: 0, y: 16_000 });
}

#[test]
fn nearest_tile_wins() {
    // two solid tiles side by side in one row; the body is nearer the right one
    let pixels = vec![BLACK, BLACK];
    let level = Level::from_pixels(2, 1, &pixels).unwrap();
    let mut p = Vec2 { x: 2_000, y: 13_000 };
    assert_eq!(attempt_collision(&mut p, &level), Some(Contact::TileBelow));
    assert_eq!(p, Vec2 { x: 2_000, y: 16_000 });
}

#[test]
fn resolution_stops_at_the_step_limit() {
    // a body on the top row of a one-tile level keeps finding the same tile
    let pixels = vec![BLACK];
    let level = Level::from_pixels(1, 1, &pixels).unwrap();
    let mut p = Vec2 { x: 0, y: 16_000 };
    let mut b = body(0, 0, false);
    let settled = CollisionSystem::resolve(&level, &mut p, &mut b, 0);
    assert!(!settled);
    assert!(b.grounded);
    assert_eq!(p, Vec2 { x: 0, y: 16_000 });
}

#[test]
fn collision_stage_reports_each_body() {
    let level = floor_level();
    let mut positions = vec![Vec2 { x: 0, y: 1_000 }, Vec2 { x: 0, y: -10_000 }];
    let mut bodies = vec![body(0, 0, true), body(0, 0, false)];
    let settled = CollisionSystem.run(&level, &mut positions, &mut bodies, 0);
    assert_eq!(settled, vec![true, true]);
    assert!(!bodies[0].grounded);
    assert!(bodies[1].grounded);
    assert_eq!(positions[1], Vec2 { x: 0, y: 0 });
}

#[test]
fn integer_square_roots() {
    assert_eq!(integer_sqrt(0), 0);
    assert_eq!(integer_sqrt(1), 1);
    assert_eq!(integer_sqrt(15), 3);
    assert_eq!(integer_sqrt(16), 4);
    assert_eq!(integer_sqrt(57_600_000_000), 240_000);
    assert_eq!(integer_sqrt(u64::MAX), 4_294_967_295);
}

#[test]
fn dynamic_defaults() {
    assert_eq!(Dynamic::default(), body(0, 0, false));
    assert!(Dynamic::default().within_limits());
}

#[test]
fn flat_floor_catches_falling_bodies() {
    let mut p = Vec2 { x: 100, y: 500 };
    let mut b = body(2_000, -10_000, false);
    CollisionSystem::resolve_flat(0, &mut p, &mut b, 100_000);
    assert_eq!(p, Vec2 { x: 300, y: 0 });
    assert_eq!(b.velocity, Vec2 { x: 2_000, y: 0 });
    assert!(b.grounded);
    let mut high = Vec2 { x: 0, y: 5_000 };
    let mut c = body(0, -10_000, true);
    CollisionSystem::resolve_flat(0, &mut high, &mut c, 100_000);
    assert_eq!(high, Vec2 { x: 0, y: 4_000 });
    assert!(!c.grounded);
}
