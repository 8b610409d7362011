//! Player input, jump state machine and camera tracking.
use vstd::prelude::*;

use crate::components::{Dynamic, Player, Vec2};
use crate::fixed::{
    divide, integer_sqrt, lemma_quotient_bounds, quotient, FRACTION_ONE, MICROS_PER_SECOND,
};
use crate::level::{Level, CAMERA_HEIGHT, CAMERA_WIDTH};
use crate::physics::GRAVITY;

verus! {

/// Time from takeoff to apex of a full hop, in microseconds.
pub const FULL_HOP_TIME: i64 = 300_000;

/// Apex heights of the three kinds of jump, in sub-units.
pub const SHORT_HOP_HEIGHT: i64 = 20_000;

pub const FULL_HOP_HEIGHT: i64 = 36_000;

pub const AERIAL_HOP_HEIGHT: i64 = 20_000;

/// Aerial jumps granted on each landing.
pub const JUMP_COUNT: usize = 2;

/// Top horizontal speed on the ground, in sub-units per second.
pub const MAX_GROUND_SPEED: i64 = 96_000;

/// Time to go from rest to full speed in the opposite direction on the ground.
pub const GROUND_TURN_TIME: i64 = 100_000;

pub const GROUND_ACCELERATION: i64 = 1_920_000;

/// Top horizontal speed in the air, in sub-units per second.
pub const MAX_AERIAL_SPEED: i64 = 128_000;

/// Time to go from full speed one way to full speed the other way in the air.
pub const AERIAL_TURN_TIME: i64 = 500_000;

pub const AERIAL_ACCELERATION: i64 = 512_000;

/// Horizontal speed added by an aerial jump: the acceleration of this many
/// microseconds.
pub const AERIAL_BOOST_TIME: i64 = 300_000;

pub const AERIAL_JUMP_HORZ_BOOST: i64 = 153_600;

/// The accelerations turn full speed around in their turn times, and the boost
/// is the aerial acceleration of its boost time.
pub proof fn lemma_movement_constants()
    ensures
        GROUND_ACCELERATION * GROUND_TURN_TIME == 2 * MAX_GROUND_SPEED * MICROS_PER_SECOND,
        AERIAL_ACCELERATION * AERIAL_TURN_TIME == 2 * MAX_AERIAL_SPEED * MICROS_PER_SECOND,
        AERIAL_JUMP_HORZ_BOOST * MICROS_PER_SECOND == AERIAL_ACCELERATION * AERIAL_BOOST_TIME,
{
}


/// Largest jump height accepted by `takeoff_speed`.
pub const MAX_HOP_HEIGHT: i64 = 1_000_000_000_000;

/// A logical input axis; the number tells bound sources apart.
#[derive(Clone, Copy, Debug, PartialEq, Eq, Structural)]
pub enum MovementBindings {
    Horizontal(i8),
}

/// A logical input action.
#[derive(Clone, Copy, Debug, PartialEq, Eq, Structural)]
pub enum ActionBindings {
    ShortHop,
    FullHop,
}

/// The player's input scheme.
#[derive(Clone, Copy, Debug, PartialEq, Eq, Structural)]
pub struct PlayerBindings;

/// Sum of the first `n` axis values.
pub open spec fn axis_sum(values: Seq<i64>, n: int) -> int
    decreases n,
{
    if n <= 0 {
        0
    } else {
        axis_sum(values, n - 1) + values[n - 1]
    }
}

pub open spec fn clamp(v: int, lo: int, hi: int) -> int {
    if v < lo {
        lo
    } else if v > hi {
        hi
    } else {
        v
    }
}

impl PlayerBindings {
    /// The sources of the horizontal axis: `Horizontal(-1)` to `Horizontal(5)`.
    pub fn horizontal_axes() -> (r: Vec<MovementBindings>)
        ensures
            r@.len() == 7,
            forall|k: int| 0 <= k < 7 ==> #[trigger] r@[k] == MovementBindings::Horizontal((k - 1) as i8),
    {
        let mut r: Vec<MovementBindings> = Vec::new();
        let mut id: i8 = -1;
        while id < 6
            invariant
                -1 <= id <= 6,
                r@.len() == id + 1,
                forall|k: int| 0 <= k < r@.len() ==> #[trigger] r@[k] == MovementBindings::Horizontal((k - 1) as i8),
            decreases 6 - id,
        {
            r.push(MovementBindings::Horizontal(id));
            id = id + 1;
        }
        r
    }

    /// The horizontal axis: the sum of every bound source's value, in per-mille,
    /// saturated into `[-FRACTION_ONE, FRACTION_ONE]`.
    pub fn horizontal(values: &Vec<i64>) -> (r: i64)
        requires
            forall|k: int| 0 <= k < values@.len() ==> -FRACTION_ONE <= #[trigger] values@[k] <= FRACTION_ONE,
        ensures
            r == clamp(axis_sum(values@, values@.len() as int), -FRACTION_ONE as int, FRACTION_ONE as int),
    {
        let mut sum: i128 = 0;
        let mut k: usize = 0;
        while k < values.len()
            invariant
                k <= values@.len(),
                sum == axis_sum(values@, k as int),
                -1000 * k <= sum <= 1000 * k,
                k <= usize::MAX,
                forall|m: int| 0 <= m < values@.len() ==> -FRACTION_ONE <= #[trigger] values@[m] <= FRACTION_ONE,
            decreases values@.len() - k,
        {
            sum = sum + values[k] as i128;
            k = k + 1;
        }
        if sum < -FRACTION_ONE as i128 {
            -FRACTION_ONE
        } else if sum > FRACTION_ONE as i128 {
            FRACTION_ONE
        } else {
            sum as i64
        }
    }
}

/// What the player asks for in one tick.
#[derive(Clone, Copy, Debug, PartialEq, Eq, Structural)]
pub struct FrameInput {
    /// Horizontal axis in per-mille, within `[-FRACTION_ONE, FRACTION_ONE]`.
    pub movement: i64,
    pub short_hop: bool,
    pub full_hop: bool,
}

impl FrameInput {
    pub open spec fn wf(self) -> bool {
        -FRACTION_ONE <= self.movement <= FRACTION_ONE
    }

    /// Input from the values of the horizontal axis's sources and the two
    /// actions.
    pub fn from_sources(axis_values: &Vec<i64>, short_hop: bool, full_hop: bool) -> (r: FrameInput)
        requires
            forall|k: int| 0 <= k < axis_values@.len() ==> -FRACTION_ONE <= #[trigger] axis_values@[k] <= FRACTION_ONE,
        ensures
            r.wf(),
            r.movement == clamp(axis_sum(axis_values@, axis_values@.len() as int), -FRACTION_ONE as int, FRACTION_ONE as int),
            r.short_hop == short_hop,
            r.full_hop == full_hop,
    {
        FrameInput { movement: PlayerBindings::horizontal(axis_values), short_hop, full_hop }
    }
}

/// `v` is the integer takeoff speed that reaches height `h`: the largest whose
/// square is at most `-2 h GRAVITY`.
pub open spec fn is_takeoff_speed(v: int, h: int) -> bool {
    0 <= v && v * v <= -2 * h * GRAVITY < (v + 1) * (v + 1)
}

pub open spec fn takeoff(h: int) -> int {
    choose|v: int| is_takeoff_speed(v, h)
}

proof fn lemma_takeoff_unique(v1: int, v2: int, h: int)
    requires
        is_takeoff_speed(v1, h),
        is_takeoff_speed(v2, h),
    ensures
        v1 == v2,
{
    if v1 < v2 {
        assert((v1 + 1) * (v1 + 1) <= v2 * v2) by (nonlinear_arith)
            requires 0 <= v1 < v2;
    } else if v2 < v1 {
        assert((v2 + 1) * (v2 + 1) <= v1 * v1) by (nonlinear_arith)
            requires 0 <= v2 < v1;
    }
}

/// Upward speed that brings a body to height `height` under `GRAVITY`.
pub fn takeoff_speed(height: i64) -> (v: i64)
    requires
        0 <= height <= MAX_HOP_HEIGHT,
    ensures
        is_takeoff_speed(v as int, height as int),
        v == takeoff(height as int),
        0 <= v <= 2_000_000_000,
{
    assert(0 <= 2 * height * 800_000 <= 1_600_000_000_000_000_000) by (nonlinear_arith)
        requires 0 <= height <= 1_000_000_000_000i64;
    let n: u64 = (2 * height as u64) * 800_000;
    let r = integer_sqrt(n);
    assert(r <= 2_000_000_000) by (nonlinear_arith)
        requires r * r <= n, n <= 1_600_000_000_000_000_000u64;
    proof {
        assert(is_takeoff_speed(r as int, height as int));
        lemma_takeoff_unique(r as int, takeoff(height as int), height as int);
    }
    r as i64
}

/// Jump takeoff: a full hop triggered on the ground launches the body at
/// exactly `sqrt(-2 FULL_HOP_HEIGHT GRAVITY)`, and an unobstructed body
/// launched at that speed peaks, by `v^2 / (-2 GRAVITY)`, at `FULL_HOP_HEIGHT`.
pub proof fn lemma_full_hop_takeoff(body: Dynamic, player: Player, input: FrameInput, delta: int)
    requires
        body.grounded,
        input.full_hop,
        !input.short_hop,
    ensures
        steered(body, player, input, delta).0.velocity.y == 240_000,
        ({
            let v = steered(body, player, input, delta).0.velocity.y as int;
            &&& v * v == -2 * FULL_HOP_HEIGHT * GRAVITY
            &&& v * v / (-2 * GRAVITY) == FULL_HOP_HEIGHT
        }),
{
    assert(is_takeoff_speed(240_000, FULL_HOP_HEIGHT as int));
    lemma_takeoff_unique(240_000, takeoff(FULL_HOP_HEIGHT as int), FULL_HOP_HEIGHT as int);
}


/// Speed change from accelerating at `rate` with input `m` (per-mille) for
/// `delta` microseconds.
pub open spec fn acceleration_step(m: int, rate: int, delta: int) -> int {
    quotient(m * rate * delta, FRACTION_ONE * MICROS_PER_SECOND)
}

/// A body and its player after the input stage. On the ground, a hop takes
/// off only when exactly one of the two hop actions is held.
pub open spec fn steered(body: Dynamic, player: Player, input: FrameInput, delta: int) -> (
    Dynamic,
    Player,
) {
    let m = input.movement as int;
    let coefficient = if m != 0 {
        0
    } else {
        FRACTION_ONE
    };
    let vx = body.velocity.x as int;
    let vy = body.velocity.y as int;
    let acting = input.short_hop || input.full_hop;
    if body.grounded {
        let accelerating = (m < 0 && vx > -MAX_GROUND_SPEED) || (m > 0 && vx < MAX_GROUND_SPEED);
        let vx1 = if accelerating {
            clamp(
                vx + acceleration_step(m, GROUND_ACCELERATION as int, delta),
                -MAX_GROUND_SPEED as int,
                MAX_GROUND_SPEED as int,
            )
        } else {
            vx
        };
        let jumped = Player { jump_ready: false, jump_count: (JUMP_COUNT - 1) as usize };
        let (vy1, player1) = if input.short_hop && !input.full_hop {
            (takeoff(SHORT_HOP_HEIGHT as int), jumped)
        } else if input.full_hop && !input.short_hop {
            (takeoff(FULL_HOP_HEIGHT as int), jumped)
        } else {
            (vy, Player { jump_ready: true, jump_count: JUMP_COUNT })
        };
        (
            Dynamic {
                velocity: Vec2 {
                    x: clamp(vx1, -MAX_GROUND_SPEED as int, MAX_GROUND_SPEED as int) as i64,
                    y: vy1 as i64,
                },
                friction_coefficient: coefficient,
                ..body
            },
            player1,
        )
    } else if player.jump_ready && player.jump_count > 0 && acting {
        (
            Dynamic {
                velocity: Vec2 {
                    x: clamp(
                        vx + quotient(m * AERIAL_JUMP_HORZ_BOOST, FRACTION_ONE as int),
                        -MAX_AERIAL_SPEED as int,
                        MAX_AERIAL_SPEED as int,
                    ) as i64,
                    y: takeoff(AERIAL_HOP_HEIGHT as int) as i64,
                },
                friction_coefficient: coefficient,
                ..body
            },
            Player { jump_ready: false, jump_count: (player.jump_count - 1) as usize },
        )
    } else {
        (
            Dynamic {
                velocity: Vec2 {
                    x: clamp(
                        vx + acceleration_step(m, AERIAL_ACCELERATION as int, delta),
                        -MAX_AERIAL_SPEED as int,
                        MAX_AERIAL_SPEED as int,
                    ) as i64,
                    y: body.velocity.y,
                },
                friction_coefficient: coefficient,
                ..body
            },
            Player { jump_ready: if acting { player.jump_ready } else { true }, ..player },
        )
    }
}

/// `acceleration_step` on machine integers.
fn accelerate(m: i64, rate: i64, delta: u32) -> (r: i64)
    requires
        -FRACTION_ONE <= m <= FRACTION_ONE,
        0 <= rate <= GROUND_ACCELERATION,
    ensures
        r == acceleration_step(m as int, rate as int, delta as int),
        -10_000_000_000 <= r <= 10_000_000_000,
{
    assert(-1000 * 1_920_000 <= m * rate <= 1000 * 1_920_000) by (nonlinear_arith)
        requires -1000 <= m <= 1000, 0 <= rate <= 1_920_000;
    let mr = m as i128 * rate as i128;
    assert(-1000 * 1_920_000 * 4_294_967_295int <= mr * delta <= 1000 * 1_920_000 * 4_294_967_295int)
        by (nonlinear_arith)
        requires -1000 * 1_920_000 <= mr <= 1000 * 1_920_000, 0 <= delta <= 4_294_967_295int;
    proof {
        lemma_quotient_bounds(mr * delta, FRACTION_ONE * MICROS_PER_SECOND);
    }
    divide(mr * delta as i128, (FRACTION_ONE * MICROS_PER_SECOND) as i128)
}

fn clamp_speed(v: i64, limit: i64) -> (r: i64)
    requires
        limit >= 0,
    ensures
        r == clamp(v as int, -limit as int, limit as int),
{
    if v < -limit {
        -limit
    } else if v > limit {
        limit
    } else {
        v
    }
}

#[derive(Clone, Copy, Debug, PartialEq, Eq, Structural)]
pub struct PlayerMovementSystem;

impl PlayerMovementSystem {
    /// The input stage on one player body: steering, the ground and aerial
    /// speed caps, and the jump state machine; on the ground a hop takes off
    /// only when exactly one of the two hop actions is held.
    pub fn steer(body: &mut Dynamic, player: &mut Player, input: &FrameInput, delta: u32)
        requires
            old(body).wf(),
            input.wf(),
        ensures
            (*final(body), *final(player)) == steered(*old(body), *old(player), *input, delta as int),
            final(body).wf(),
            old(body).grounded ==> -MAX_GROUND_SPEED <= final(body).velocity.x <= MAX_GROUND_SPEED,
            old(body).grounded ==> final(player).jump_count <= JUMP_COUNT,
            !old(body).grounded ==> final(player).jump_count <= old(player).jump_count,
    {
        let movement = input.movement;
        if movement != 0 {
            body.friction_coefficient = 0;
        } else {
            body.friction_coefficient = FRACTION_ONE;
        }
        let acting = input.short_hop || input.full_hop;
        if body.grounded {
            player.reset_jumps(JUMP_COUNT);
            if (movement < 0 && body.velocity.x > -MAX_GROUND_SPEED) || (movement > 0
                && body.velocity.x < MAX_GROUND_SPEED) {
                let step = accelerate(movement, GROUND_ACCELERATION, delta);
                body.velocity.x = clamp_speed(body.velocity.x + step, MAX_GROUND_SPEED);
            }
            if player.jump_ready {
                if input.short_hop && !input.full_hop {
                    body.velocity.y = takeoff_speed(SHORT_HOP_HEIGHT);
                    player.trigger_jump();
                } else if input.full_hop && !input.short_hop {
                    body.velocity.y = takeoff_speed(FULL_HOP_HEIGHT);
                    player.trigger_jump();
                }
            }
            body.velocity.x = clamp_speed(body.velocity.x, MAX_GROUND_SPEED);
        } else {
            if player.jump_ready && player.jump_count > 0 && acting {
                body.velocity.y = takeoff_speed(AERIAL_HOP_HEIGHT);
                player.trigger_jump();
                let boost = divide(
                    movement as i128 * AERIAL_JUMP_HORZ_BOOST as i128,
                    FRACTION_ONE as i128,
                );
                body.velocity.x = body.velocity.x + boost;
            } else {
                if !acting {
                    player.jump_ready = true;
                }
                let step = accelerate(movement, AERIAL_ACCELERATION, delta);
                body.velocity.x = body.velocity.x + step;
            }
            body.velocity.x = clamp_speed(body.velocity.x, MAX_AERIAL_SPEED);
        }
    }

    /// The input stage over every body that is a player's; `players[i]` is the
    /// jump state of body `i`, if it has one.
    pub fn run(
        &self,
        dynamics: &mut Vec<Dynamic>,
        players: &mut Vec<Option<Player>>,
        input: &FrameInput,
        delta: u32,
    )
        requires
            old(dynamics)@.len() == old(players)@.len(),
            forall|i: int| 0 <= i < old(dynamics)@.len() ==> (#[trigger] old(dynamics)@[i]).wf(),
            input.wf(),
        ensures
            final(dynamics)@.len() == old(dynamics)@.len(),
            final(players)@.len() == old(players)@.len(),
            forall|i: int|
                0 <= i < old(dynamics)@.len() ==> match #[trigger] old(players)@[i] {
                    None => final(dynamics)@[i] == old(dynamics)@[i] && final(players)@[i] is None,
                    Some(pl) => {
                        let (b, q) = steered(old(dynamics)@[i], pl, *input, delta as int);
                        final(dynamics)@[i] == b && final(players)@[i] == Some(q)
                    },
                },
    {
        let n = dynamics.len();
        let mut i: usize = 0;
        while i < n
            invariant
                n == old(dynamics)@.len(),
                n == old(players)@.len(),
                dynamics@.len() == n,
                players@.len() == n,
                i <= n,
                input.wf(),
                forall|k: int| i <= k < n ==> #[trigger] dynamics@[k] == old(dynamics)@[k],
                forall|k: int| i <= k < n ==> #[trigger] players@[k] == old(players)@[k],
                forall|k: int| 0 <= k < n ==> (#[trigger] old(dynamics)@[k]).wf(),
                forall|k: int|
                    0 <= k < i ==> match #[trigger] old(players)@[k] {
                        None => dynamics@[k] == old(dynamics)@[k] && players@[k] is None,
                        Some(pl) => {
                            let (b, q) = steered(old(dynamics)@[k], pl, *input, delta as int);
                            dynamics@[k] == b && players@[k] == Some(q)
                        },
                    },
            decreases n - i,
        {
            match players[i] {
                None => {},
                Some(pl) => {
                    let mut body = dynamics[i];
                    let mut player = pl;
                    PlayerMovementSystem::steer(&mut body, &mut player, input, delta);
                    dynamics[i] = body;
                    players[i] = Some(player);
                },
            }
            i = i + 1;
        }
    }
}

/// Airborne jumps that the input stage triggers over a run of ticks, each given
/// the body as it stands and the input of that tick.
pub open spec fn aerial_jumps(player: Player, ticks: Seq<(Dynamic, FrameInput)>, delta: int) -> nat
    decreases ticks.len(),
{
    if ticks.len() == 0 {
        0
    } else {
        let next = steered(ticks[0].0, player, ticks[0].1, delta).1;
        (if next.jump_count < player.jump_count {
            1nat
        } else {
            0nat
        }) + aerial_jumps(next, ticks.drop_first(), delta)
    }
}

/// Jump budget: while airborne, a player triggers no more jumps than its
/// `jump_count` (at most `JUMP_COUNT`, as landing leaves it), and with no jumps
/// left the input stage leaves the vertical velocity alone.
pub proof fn lemma_double_jump_budget(player: Player, ticks: Seq<(Dynamic, FrameInput)>, delta: int)
    requires
        forall|k: int| 0 <= k < ticks.len() ==> !(#[trigger] ticks[k]).0.grounded,
    ensures
        aerial_jumps(player, ticks, delta) <= player.jump_count,
        ticks.len() > 0 && player.jump_count == 0 ==> steered(ticks[0].0, player, ticks[0].1, delta).0.velocity.y
            == ticks[0].0.velocity.y,
    decreases ticks.len(),
{
    if ticks.len() > 0 {
        let next = steered(ticks[0].0, player, ticks[0].1, delta).1;
        assert(!ticks[0].0.grounded);
        let rest = ticks.drop_first();
        assert forall|k: int| 0 <= k < rest.len() implies !(#[trigger] rest[k]).0.grounded by {
            assert(rest[k] == ticks[k + 1]);
        }
        lemma_double_jump_budget(next, rest, delta);
    }
}

/// Where the viewport, `half` to each side of `pos`, fits in `[lo, hi]`: `pos`
/// moved the least that keeps it inside; where it does not fit, the centre.
pub open spec fn frame_axis(pos: int, lo: int, hi: int, half: int) -> int {
    if hi - lo < 2 * half {
        lo + (hi - lo) / 2
    } else if pos - half < lo {
        lo + half
    } else if pos + half > hi {
        hi - half
    } else {
        pos
    }
}

fn frame(pos: i64, lo: i64, hi: i64, half: i64) -> (r: i64)
    requires
        -0x1000_0000_0000_0000 <= pos <= 0x1000_0000_0000_0000,
        -0x1000_0000_0000 <= lo <= hi <= 0x1000_0000_0000,
        0 <= half <= CAMERA_WIDTH,
    ensures
        r == frame_axis(pos as int, lo as int, hi as int, half as int),
{
    if hi - lo < 2 * half {
        lo + (hi - lo) / 2
    } else if pos - half < lo {
        lo + half
    } else if pos + half > hi {
        hi - half
    } else {
        pos
    }
}

#[derive(Clone, Copy, Debug, PartialEq, Eq, Structural)]
pub struct CameraFollowSystem;

impl CameraFollowSystem {
    /// Camera position that tracks `target` while its viewport stays within
    /// the level; along an axis where the level is smaller than the viewport,
    /// the camera is centred on the level.
    pub fn follow(level: &Level, target: Vec2) -> (r: Vec2)
        requires
            level.wf(),
            target.is_position(),
        ensures
            r == CameraFollowSystem::spec_follow(level, target),
            level.right - level.left >= CAMERA_WIDTH ==> level.left <= r.x - CAMERA_WIDTH / 2 && r.x
                + CAMERA_WIDTH / 2 <= level.right,
            level.top - level.bottom >= CAMERA_HEIGHT ==> level.bottom <= r.y - CAMERA_HEIGHT / 2 && r.y
                + CAMERA_HEIGHT / 2 <= level.top,
    {
        Vec2 {
            x: frame(target.x, level.left, level.right, CAMERA_WIDTH / 2),
            y: frame(target.y, level.bottom, level.top, CAMERA_HEIGHT / 2),
        }
    }

    /// The camera stage: follows the last of the players' positions, or the
    /// origin where there is no player.
    pub fn run(&self, level: &Level, players: &Vec<Vec2>) -> (r: Vec2)
        requires
            level.wf(),
            forall|i: int| 0 <= i < players@.len() ==> (#[trigger] players@[i]).is_position(),
        ensures
            players@.len() == 0 ==> r == CameraFollowSystem::spec_follow(level, Vec2 { x: 0, y: 0 }),
            players@.len() > 0 ==> r == CameraFollowSystem::spec_follow(level, players@.last()),
    {
        let target = if players.len() == 0 {
            Vec2 { x: 0, y: 0 }
        } else {
            players[players.len() - 1]
        };
        CameraFollowSystem::follow(level, target)
    }

    pub open spec fn spec_follow(level: &Level, target: Vec2) -> Vec2 {
        Vec2 {
            x: frame_axis(target.x as int, level.left as int, level.right as int, CAMERA_WIDTH / 2) as i64,
            y: frame_axis(target.y as int, level.bottom as int, level.top as int, CAMERA_HEIGHT / 2) as i64,
        }
    }
}

} // verus!
