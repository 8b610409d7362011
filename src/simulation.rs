//! One simulation tick: force, then input, then collision.
use vstd::prelude::*;

use crate::components::{Dynamic, Player, Vec2};
use crate::fixed::abs;
use crate::level::Level;
use crate::physics::{collided, forced, lemma_collision_never_speeds_up};
use crate::player::{steered, FrameInput, MAX_GROUND_SPEED};

verus! {

/// A player body after one tick: its position, its body and its jump state.
pub open spec fn player_tick(
    level: &Level,
    p: Vec2,
    body: Dynamic,
    player: Player,
    gravity: bool,
    input: FrameInput,
    delta: int,
) -> (Vec2, Dynamic, Player) {
    let (steered_body, next_player) = steered(forced(body, gravity, delta), player, input, delta);
    let (q, next_body, _) = collided(level, p, steered_body, delta);
    (q, next_body, next_player)
}

/// Ground speed cap: a tick that begins with the body grounded ends with its
/// horizontal speed at most `MAX_GROUND_SPEED`, whatever the input.
pub proof fn lemma_ground_speed_cap(
    level: &Level,
    p: Vec2,
    body: Dynamic,
    player: Player,
    gravity: bool,
    input: FrameInput,
    delta: int,
)
    requires
        body.grounded,
    ensures
        abs(player_tick(level, p, body, player, gravity, input, delta).1.velocity.x as int)
            <= MAX_GROUND_SPEED,
{
    let (steered_body, _) = steered(forced(body, gravity, delta), player, input, delta);
    lemma_collision_never_speeds_up(level, p, steered_body, delta);
}

/// A player body after one tick for each of `inputs`, in order.
pub open spec fn player_ticks(
    level: &Level,
    p: Vec2,
    body: Dynamic,
    player: Player,
    gravity: bool,
    inputs: Seq<FrameInput>,
    delta: int,
) -> (Vec2, Dynamic, Player)
    decreases inputs.len(),
{
    if inputs.len() == 0 {
        (p, body, player)
    } else {
        let (q, b, pl) = player_tick(level, p, body, player, gravity, inputs[0], delta);
        player_ticks(level, q, b, pl, gravity, inputs.drop_first(), delta)
    }
}

/// The body is grounded at the start of each of the ticks for `inputs`.
pub open spec fn grounded_throughout(
    level: &Level,
    p: Vec2,
    body: Dynamic,
    player: Player,
    gravity: bool,
    inputs: Seq<FrameInput>,
    delta: int,
) -> bool
    decreases inputs.len(),
{
    inputs.len() == 0 || {
        let (q, b, pl) = player_tick(level, p, body, player, gravity, inputs[0], delta);
        body.grounded && grounded_throughout(level, q, b, pl, gravity, inputs.drop_first(), delta)
    }
}

/// Ground speed cap over any number of ticks: after one or more ticks, each
/// begun on the ground, the horizontal speed is at most `MAX_GROUND_SPEED`.
pub proof fn lemma_ground_speed_cap_over_ticks(
    level: &Level,
    p: Vec2,
    body: Dynamic,
    player: Player,
    gravity: bool,
    inputs: Seq<FrameInput>,
    delta: int,
)
    requires
        inputs.len() > 0,
        grounded_throughout(level, p, body, player, gravity, inputs, delta),
    ensures
        abs(player_ticks(level, p, body, player, gravity, inputs, delta).1.velocity.x as int)
            <= MAX_GROUND_SPEED,
    decreases inputs.len(),
{
    let (q, b, pl) = player_tick(level, p, body, player, gravity, inputs[0], delta);
    assert(body.grounded);
    assert(player_ticks(level, p, body, player, gravity, inputs, delta) == player_ticks(
        level,
        q,
        b,
        pl,
        gravity,
        inputs.drop_first(),
        delta,
    ));
    if inputs.len() == 1 {
        lemma_ground_speed_cap(level, p, body, player, gravity, inputs[0], delta);
        assert(player_ticks(level, q, b, pl, gravity, inputs.drop_first(), delta) == (q, b, pl));
    } else {
        lemma_ground_speed_cap_over_ticks(level, q, b, pl, gravity, inputs.drop_first(), delta);
    }
}

} // verus!
