//! Per-entity records that the stages read and write.
use vstd::prelude::*;

use crate::fixed::{FRACTION_ONE, POSITION_LIMIT, VELOCITY_LIMIT};

verus! {

/// A pair of fixed-point coordinates: a position in sub-units or a velocity in
/// sub-units per second.
#[derive(Clone, Copy, Debug, PartialEq, Eq, Structural)]
pub struct Vec2 {
    pub x: i64,
    pub y: i64,
}

impl Vec2 {
    pub fn new(x: i64, y: i64) -> (r: Vec2)
        ensures
            r == (Vec2 { x, y }),
    {
        Vec2 { x, y }
    }

    pub open spec fn is_position(self) -> bool {
        -POSITION_LIMIT <= self.x <= POSITION_LIMIT && -POSITION_LIMIT <= self.y <= POSITION_LIMIT
    }
}

/// Marks a body that gravity pulls down.
#[derive(Clone, Copy, Debug, PartialEq, Eq, Structural)]
pub struct Gravity;

/// Marks an entity that never moves.
#[derive(Clone, Copy, Debug, PartialEq, Eq, Structural)]
pub struct Static;

/// A movable body.
#[derive(Clone, Copy, Debug, PartialEq, Eq, Structural)]
pub struct Dynamic {
    pub velocity: Vec2,
    /// True iff the body rested on a solid tile at the last collision resolution.
    pub grounded: bool,
    /// Per-mille multiplier on friction and air resistance.
    pub friction_coefficient: i64,
}

impl Dynamic {
    /// The ranges within which every stage accepts a body.
    pub open spec fn wf(self) -> bool {
        &&& -VELOCITY_LIMIT <= self.velocity.x <= VELOCITY_LIMIT
        &&& -VELOCITY_LIMIT <= self.velocity.y <= VELOCITY_LIMIT
        &&& 0 <= self.friction_coefficient <= FRACTION_ONE
    }

    /// Whether `wf` holds, for callers that cannot know it in advance.
    pub fn within_limits(&self) -> (r: bool)
        ensures
            r == self.wf(),
    {
        -VELOCITY_LIMIT <= self.velocity.x && self.velocity.x <= VELOCITY_LIMIT
            && -VELOCITY_LIMIT <= self.velocity.y && self.velocity.y <= VELOCITY_LIMIT
            && 0 <= self.friction_coefficient && self.friction_coefficient <= FRACTION_ONE
    }
}

impl Default for Dynamic {
    /// At rest, airborne, with full friction.
    fn default() -> (r: Dynamic)
        ensures
            r == (Dynamic {
                velocity: Vec2 { x: 0, y: 0 },
                grounded: false,
                friction_coefficient: FRACTION_ONE,
            }),
    {
        Dynamic { velocity: Vec2 { x: 0, y: 0 }, grounded: false, friction_coefficient: FRACTION_ONE }
    }
}

/// One cell of the level grid.
#[derive(Clone, Copy, Debug, PartialEq, Eq, Structural)]
pub enum Tile {
    Background,
    Ground,
    Start,
    End,
}

impl Tile {
    pub open spec fn spec_is_solid(&self) -> bool {
        !(self is Background)
    }

    /// Every tile but the background blocks movement.
    #[verifier::when_used_as_spec(spec_is_solid)]
    pub fn is_solid(&self) -> (r: bool)
        ensures
            r == self.spec_is_solid(),
    {
        match self {
            Tile::Background => false,
            _ => true,
        }
    }
}

/// Jump state of a player-controlled body.
#[derive(Clone, Copy, Debug, PartialEq, Eq, Structural)]
pub struct Player {
    /// True iff a new jump may be triggered.
    pub jump_ready: bool,
    /// Jumps left before landing again.
    pub jump_count: usize,
}

impl Player {
    pub fn reset_jumps(&mut self, jump_count: usize)
        ensures
            *final(self) == (Player { jump_ready: true, jump_count }),
    {
        self.jump_ready = true;
        self.jump_count = jump_count;
    }

    pub fn trigger_jump(&mut self)
        requires
            old(self).jump_count > 0,
        ensures
            *final(self) == (Player { jump_ready: false, jump_count: (old(self).jump_count - 1) as usize }),
    {
        self.jump_ready = false;
        self.jump_count = self.jump_count - 1;
    }
}

impl Default for Player {
    /// Ready to jump, with no jumps left until the first landing.
    fn default() -> (r: Player)
        ensures
            r == (Player { jump_ready: true, jump_count: 0 }),
    {
        Player { jump_ready: true, jump_count: 0 }
    }
}

} // verus!
