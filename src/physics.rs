//! Force stage and collision stage.
use vstd::prelude::*;

use crate::components::{Dynamic, Gravity, Vec2};
use crate::fixed::{
    abs, divide, lemma_quotient_bounds, quotient, FRACTION_ONE, MICROS_PER_SECOND, POSITION_LIMIT,
    VELOCITY_LIMIT,
};
use crate::level::{Level, BLOCK_SIZE, HALF_BLOCK, MAX_LEVEL_SIDE};
use crate::player::{FULL_HOP_HEIGHT, FULL_HOP_TIME, MAX_AERIAL_SPEED, MAX_GROUND_SPEED};

verus! {

/// Time in which friction stops a body moving at full ground speed.
pub const GROUND_STOP_TIME: i64 = 100_000;

/// Time in which air resistance stops a body moving at full aerial speed.
pub const AIR_STOP_TIME: i64 = 500_000;

/// Deceleration on the ground, in sub-units per second squared.
pub const FRICTION: i64 = 960_000;

/// Deceleration in the air, in sub-units per second squared.
pub const AIR_RESISTANCE: i64 = 256_000;

/// Vertical acceleration, `-2 h / t^2` for the apex height `h` and the time to
/// apex `t` of a full hop.
pub const GRAVITY: i64 = -800_000;

/// The resistances stop a body at top speed in their stop times, and gravity
/// is `-2 h / t^2` for the height `h` and time to apex `t` of a full hop.
pub proof fn lemma_force_constants()
    ensures
        FRICTION * GROUND_STOP_TIME == MAX_GROUND_SPEED * MICROS_PER_SECOND,
        AIR_RESISTANCE * AIR_STOP_TIME == MAX_AERIAL_SPEED * MICROS_PER_SECOND,
        GRAVITY * FULL_HOP_TIME * FULL_HOP_TIME == -2 * FULL_HOP_HEIGHT * MICROS_PER_SECOND
            * MICROS_PER_SECOND,
{
}

/// `v` moved toward zero by `r`, stopping at zero.
pub open spec fn resisted(v: int, r: int) -> int {
    if v < 0 {
        if v + r < 0 {
            v + r
        } else {
            0
        }
    } else if v > 0 {
        if v - r > 0 {
            v - r
        } else {
            0
        }
    } else {
        0
    }
}

pub fn apply_resistance(velocity: i64, resistance: i64) -> (r: i64)
    requires
        resistance >= 0,
    ensures
        r == resisted(velocity as int, resistance as int),
        r == 0 || (r < 0) == (velocity < 0),
        abs(r as int) <= abs(velocity as int),
{
    if velocity < 0 {
        let v = velocity + resistance;
        if v < 0 {
            v
        } else {
            0
        }
    } else if velocity > 0 {
        let v = velocity - resistance;
        if v > 0 {
            v
        } else {
            0
        }
    } else {
        0
    }
}

pub open spec fn base_rate(grounded: bool) -> int {
    if grounded {
        FRICTION as int
    } else {
        AIR_RESISTANCE as int
    }
}

/// Speed taken off a body in one tick of `delta` microseconds.
pub open spec fn resistance(body: Dynamic, delta: int) -> int {
    base_rate(body.grounded) * body.friction_coefficient * delta / (FRACTION_ONE * MICROS_PER_SECOND)
}

/// Speed gravity adds in one tick (negative: downward).
pub open spec fn gravity_step(delta: int) -> int {
    quotient(GRAVITY * delta, MICROS_PER_SECOND as int)
}

/// A body after the force stage.
pub open spec fn forced(body: Dynamic, gravity: bool, delta: int) -> Dynamic {
    Dynamic {
        velocity: Vec2 {
            x: resisted(body.velocity.x as int, resistance(body, delta)) as i64,
            y: if gravity {
                (body.velocity.y + gravity_step(delta)) as i64
            } else {
                body.velocity.y
            },
        },
        ..body
    }
}

proof fn lemma_force_bounds(body: Dynamic, delta: int)
    requires
        body.wf(),
        0 <= delta <= u32::MAX,
    ensures
        0 <= resistance(body, delta) <= 5_000_000_000,
        -5_000_000_000 <= gravity_step(delta) <= 0,
{
    let f = body.friction_coefficient as int;
    let b = base_rate(body.grounded);
    assert(0 <= b * f * delta <= 960_000 * 1000 * 4_294_967_295int) by (nonlinear_arith)
        requires 0 <= b <= 960_000, 0 <= f <= 1000, 0 <= delta <= 4_294_967_295int;
    assert(GRAVITY == -800_000);
    assert(-800_000 * 4_294_967_295int <= GRAVITY * delta <= 0) by (nonlinear_arith)
        requires GRAVITY == -800_000, 0 <= delta <= 4_294_967_295int;
    lemma_quotient_bounds(GRAVITY * delta, MICROS_PER_SECOND as int);
}

#[derive(Clone, Copy, Debug, PartialEq, Eq, Structural)]
pub struct ForceSystem;

impl ForceSystem {
    /// Applies friction or air resistance to the horizontal velocity and, where
    /// `gravity` holds, gravity to the vertical velocity.
    pub fn apply(body: &mut Dynamic, gravity: bool, delta: u32)
        requires
            old(body).wf(),
        ensures
            *final(body) == forced(*old(body), gravity, delta as int),
    {
        proof {
            lemma_force_bounds(*body, delta as int);
        }
        let rate: i128 = if body.grounded {
            FRICTION as i128
        } else {
            AIR_RESISTANCE as i128
        };
        let f = body.friction_coefficient as i128;
        let d = delta as i128;
        assert(0 <= rate * f <= 960_000_000) by (nonlinear_arith)
            requires 0 <= rate <= 960_000, 0 <= f <= 1000;
        let rf = rate * f;
        assert(0 <= rf * d <= 960_000_000 * 4_294_967_295int) by (nonlinear_arith)
            requires 0 <= rf <= 960_000_000, 0 <= d <= 4_294_967_295int;
        let r = divide(rf * d, (FRACTION_ONE * MICROS_PER_SECOND) as i128);
        body.velocity.x = apply_resistance(body.velocity.x, r);
        if gravity {
            assert(-800_000 * 4_294_967_295int <= GRAVITY * delta <= 0) by (nonlinear_arith)
                requires GRAVITY == -800_000, 0 <= delta <= 4_294_967_295int;
            let g = divide(GRAVITY as i128 * delta as i128, MICROS_PER_SECOND as i128);
            body.velocity.y = body.velocity.y + g;
        }
    }

    /// The force stage over every body; `gravities[i]` tells whether body `i`
    /// carries gravity.
    pub fn run(&self, dynamics: &mut Vec<Dynamic>, gravities: &Vec<Option<Gravity>>, delta: u32)
        requires
            old(dynamics)@.len() == gravities@.len(),
            forall|i: int| 0 <= i < old(dynamics)@.len() ==> (#[trigger] old(dynamics)@[i]).wf(),
        ensures
            final(dynamics)@.len() == old(dynamics)@.len(),
            forall|i: int|
                0 <= i < old(dynamics)@.len() ==> #[trigger] final(dynamics)@[i] == forced(
                    old(dynamics)@[i],
                    gravities@[i] is Some,
                    delta as int,
                ),
    {
        let n = dynamics.len();
        let mut i: usize = 0;
        while i < n
            invariant
                n == old(dynamics)@.len(),
                n == gravities@.len(),
                dynamics@.len() == n,
                i <= n,
                forall|k: int| i <= k < n ==> #[trigger] dynamics@[k] == old(dynamics)@[k],
                forall|k: int| 0 <= k < old(dynamics)@.len() ==> (#[trigger] old(dynamics)@[k]).wf(),
                forall|k: int|
                    0 <= k < i ==> #[trigger] dynamics@[k] == forced(
                        old(dynamics)@[k],
                        gravities@[k] is Some,
                        delta as int,
                    ),
            decreases n - i,
        {
            let mut body = dynamics[i];
            ForceSystem::apply(&mut body, gravities[i].is_some(), delta);
            dynamics[i] = body;
            i = i + 1;
        }
    }
}



/// Most resolution steps that the collision stage takes for one body in a tick.
pub const MAX_RESOLUTION_STEPS: usize = 16;

/// Where the tile that a resolution step pushed the body away from lies.
#[derive(Clone, Copy, Debug, PartialEq, Eq, Structural)]
pub enum Contact {
    TileLeft,
    TileBelow,
    TileRight,
    TileAbove,
}

pub open spec fn floor_div(a: int) -> int {
    a / (BLOCK_SIZE as int)
}

pub open spec fn ceil_div(a: int) -> int {
    -((-a) / (BLOCK_SIZE as int))
}

/// `v` saturated into `[0, n - 1]`.
pub open spec fn clamp_index(v: int, n: int) -> int {
    if v < 0 {
        0
    } else if v > n - 1 {
        n - 1
    } else {
        v
    }
}

/// Horizontal offset of `x` from the centre of column `col`.
pub open spec fn offset_x(level: &Level, x: int, col: int) -> int {
    x - level.left - (col * BLOCK_SIZE + HALF_BLOCK)
}

/// Vertical offset of `y` from the centre of row `row`.
pub open spec fn offset_y(level: &Level, y: int, row: int) -> int {
    y - level.bottom - (row * BLOCK_SIZE + HALF_BLOCK)
}

pub open spec fn first_col(level: &Level, x: int) -> int {
    clamp_index(floor_div(x - level.left - HALF_BLOCK), level.width as int)
}

pub open spec fn last_col(level: &Level, x: int) -> int {
    clamp_index(ceil_div(x - level.left - HALF_BLOCK), level.width as int)
}

pub open spec fn first_row(level: &Level, y: int) -> int {
    clamp_index(floor_div(y - level.bottom - HALF_BLOCK), level.height as int)
}

pub open spec fn last_row(level: &Level, y: int) -> int {
    clamp_index(ceil_div(y - level.bottom - HALF_BLOCK), level.height as int)
}

/// A solid tile of the small rectangle of tiles around `p` that a resolution
/// step examines.
pub open spec fn is_candidate(level: &Level, p: Vec2, col: int, row: int) -> bool {
    &&& first_col(level, p.x as int) <= col <= last_col(level, p.x as int)
    &&& first_row(level, p.y as int) <= row <= last_row(level, p.y as int)
    &&& level.in_grid(col, row)
    &&& level.tile_at(col, row).is_solid()
}

pub open spec fn distance2(level: &Level, p: Vec2, col: int, row: int) -> int {
    let dx = offset_x(level, p.x as int, col);
    let dy = offset_y(level, p.y as int, row);
    dx * dx + dy * dy
}

/// Tile `(c1, r1)` is nearer to `p` than `(c2, r2)`, ties going to the lower
/// column and then to the lower row.
pub open spec fn precedes(level: &Level, p: Vec2, c1: int, r1: int, c2: int, r2: int) -> bool {
    let d1 = distance2(level, p, c1, r1);
    let d2 = distance2(level, p, c2, r2);
    d1 < d2 || (d1 == d2 && (c1 < c2 || (c1 == c2 && r1 <= r2)))
}

pub open spec fn is_nearest(level: &Level, p: Vec2, col: int, row: int) -> bool {
    &&& is_candidate(level, p, col, row)
    &&& forall|c: int, r: int| #[trigger]
        is_candidate(level, p, c, r) ==> precedes(level, p, col, row, c, r)
}

/// The sign of an offset, zero counting as positive.
pub open spec fn direction(v: int) -> int {
    if v < 0 {
        -1
    } else {
        1
    }
}

/// The body at `p` pushed out of tile `(col, row)` along the axis of larger
/// offset (the vertical one on a tie), so that it lies a whole tile from it.
pub open spec fn push(level: &Level, p: Vec2, col: int, row: int) -> (Vec2, Contact) {
    let dx = offset_x(level, p.x as int, col);
    let dy = offset_y(level, p.y as int, row);
    if abs(dx) > abs(dy) {
        (
            Vec2 { x: (p.x + (BLOCK_SIZE - abs(dx)) * direction(dx)) as i64, y: p.y },
            if dx > 0 {
                Contact::TileLeft
            } else {
                Contact::TileRight
            },
        )
    } else {
        (
            Vec2 { x: p.x, y: (p.y + (BLOCK_SIZE - abs(dy)) * direction(dy)) as i64 },
            if dy >= 0 {
                Contact::TileBelow
            } else {
                Contact::TileAbove
            },
        )
    }
}

/// One resolution step: the push away from the nearest solid candidate tile,
/// or `None` where there is none.
pub open spec fn collision_step(level: &Level, p: Vec2) -> Option<(Vec2, Contact)> {
    if exists|c: int, r: int| is_nearest(level, p, c, r) {
        let (c, r) = choose|c: int, r: int| is_nearest(level, p, c, r);
        Some(push(level, p, c, r))
    } else {
        None
    }
}

/// The tile-sized box centred on `p` shares area with tile `(col, row)`.
pub open spec fn overlaps(level: &Level, p: Vec2, col: int, row: int) -> bool {
    abs(offset_x(level, p.x as int, col)) < BLOCK_SIZE && abs(offset_y(level, p.y as int, row))
        < BLOCK_SIZE
}

/// No solid tile of the grid overlaps the body at `p`.
pub open spec fn is_clear(level: &Level, p: Vec2) -> bool {
    forall|c: int, r: int|
        level.in_grid(c, r) && level.tile_at(c, r).is_solid() ==> !#[trigger] overlaps(level, p, c, r)
}

pub open spec fn within(p: Vec2, limit: int) -> bool {
    -limit <= p.x <= limit && -limit <= p.y <= limit
}

proof fn lemma_no_candidate(level: &Level, p: Vec2)
    requires
        forall|c: int, r: int| c <= last_col(level, p.x as int) ==> !#[trigger] is_candidate(level, p, c, r),
    ensures
        collision_step(level, p) is None,
{
    assert forall|c: int, r: int| !is_nearest(level, p, c, r) by {
        if is_nearest(level, p, c, r) {
            assert(is_candidate(level, p, c, r));
        }
    }
}

proof fn lemma_nearest_unique(level: &Level, p: Vec2, c1: int, r1: int, c2: int, r2: int)
    requires
        is_nearest(level, p, c1, r1),
        is_nearest(level, p, c2, r2),
    ensures
        c1 == c2 && r1 == r2,
{
    assert(is_candidate(level, p, c2, r2));
    assert(is_candidate(level, p, c1, r1));
}

/// `floor_div` on machine integers.
fn floor_block(a: i64) -> (r: i64)
    ensures
        r == floor_div(a as int),
{
    if a >= 0 {
        ((a as u64) / (BLOCK_SIZE as u64)) as i64
    } else {
        let m: u64 = (-(a as i128) - 1) as u64;
        let q: u64 = m / (BLOCK_SIZE as u64);
        proof {
            let b = BLOCK_SIZE as int;
            vstd::arithmetic::div_mod::lemma_fundamental_div_mod(m as int, b);
            let rm = (m as int) % b;
            assert(0 <= rm < b) by {
                vstd::arithmetic::div_mod::lemma_mod_bound(m as int, b);
            }
            vstd::arithmetic::div_mod::lemma_fundamental_div_mod_converse(
                a as int,
                b,
                -(q as int) - 1,
                b - rm - 1,
            );
        }
        -(q as i64) - 1
    }
}

/// `ceil_div` on machine integers.
fn ceil_block(a: i64) -> (r: i64)
    requires
        a > i64::MIN,
    ensures
        r == ceil_div(a as int),
{
    let f = floor_block(-a);
    -f
}



/// `clamp_index` on machine integers.
fn clamp_to_grid(v: i64, n: usize) -> (r: usize)
    requires
        n >= 1,
    ensures
        r == clamp_index(v as int, n as int),
{
    if v < 0 {
        0
    } else if v as u64 > (n - 1) as u64 {
        n - 1
    } else {
        v as usize
    }
}

/// The nearest solid tile of the rectangle that a resolution step examines
/// around `p`, as column and row.
fn nearest_solid(level: &Level, p: Vec2) -> (r: Option<(usize, usize)>)
    requires
        level.wf(),
        within(p, 2 * POSITION_LIMIT),
    ensures
        r is None ==> collision_step(level, p) is None,
        r matches Some((c, w)) ==> is_nearest(level, p, c as int, w as int),
{
    if level.width == 0 || level.height == 0 {
        assert forall|c: int, r: int| !is_nearest(level, p, c, r) by {}
        return None;
    }
    let w = level.width;
    let h = level.height;
    let ax = p.x - level.left - HALF_BLOCK;
    let ay = p.y - level.bottom - HALF_BLOCK;
    let col_lo = clamp_to_grid(floor_block(ax), w);
    let col_hi = clamp_to_grid(ceil_block(ax), w);
    let row_lo = clamp_to_grid(floor_block(ay), h);
    let row_hi = clamp_to_grid(ceil_block(ay), h);
    assert(col_lo == first_col(level, p.x as int) && col_hi == last_col(level, p.x as int));
    assert(row_lo == first_row(level, p.y as int) && row_hi == last_row(level, p.y as int));
    // nearest solid tile so far: column, row and squared distance
    let mut best: Option<(usize, usize, i128)> = None;
    let mut i: usize = col_lo;
    while i <= col_hi
        invariant
            level.wf(),
            w == level.width,
            h == level.height,
            w >= 1,
            h >= 1,
            within(p, 2 * POSITION_LIMIT),
            col_lo == first_col(level, p.x as int),
            col_hi == last_col(level, p.x as int),
            row_lo == first_row(level, p.y as int),
            row_hi == last_row(level, p.y as int),
            col_hi < w,
            row_hi < h,
            col_lo <= i <= col_hi + 1,
            match best {
                None => forall|c: int, r: int| c < i ==> !#[trigger] is_candidate(level, p, c, r),
                Some((bc, br, bd)) => {
                    &&& is_candidate(level, p, bc as int, br as int)
                    &&& bd == distance2(level, p, bc as int, br as int)
                    &&& bc < i
                    &&& forall|c: int, r: int|
                        c < i && #[trigger] is_candidate(level, p, c, r) ==> precedes(
                            level,
                            p,
                            bc as int,
                            br as int,
                            c,
                            r,
                        )
                },
            },
        decreases col_hi + 1 - i,
    {
        let mut j: usize = row_lo;
        while j <= row_hi
            invariant
                level.wf(),
                w == level.width,
                h == level.height,
                w >= 1,
                h >= 1,
                within(p, 2 * POSITION_LIMIT),
                col_lo == first_col(level, p.x as int),
                col_hi == last_col(level, p.x as int),
                row_lo == first_row(level, p.y as int),
                row_hi == last_row(level, p.y as int),
                col_hi < w,
                row_hi < h,
                col_lo <= i <= col_hi,
                row_lo <= j <= row_hi + 1,
                match best {
                    None => forall|c: int, r: int|
                        (c < i || (c == i && r < j)) ==> !#[trigger] is_candidate(level, p, c, r),
                    Some((bc, br, bd)) => {
                        &&& is_candidate(level, p, bc as int, br as int)
                        &&& bd == distance2(level, p, bc as int, br as int)
                        &&& (bc < i || (bc == i && br < j))
                        &&& forall|c: int, r: int|
                            (c < i || (c == i && r < j)) && #[trigger] is_candidate(level, p, c, r)
                                ==> precedes(level, p, bc as int, br as int, c, r)
                    },
                },
            decreases row_hi + 1 - j,
        {
            assert((h - j - 1) * w + i < w * h) by (nonlinear_arith)
                requires j < h, i < w;
            assert((h - j - 1) * w <= w * h) by (nonlinear_arith)
                requires j < h, i < w;
            let n = level.tiles.len();
            assert(w * h == n);
            let index = (h - j - 1) * w + i;
            if level.tiles[index].is_solid() {
                assert(i < MAX_LEVEL_SIDE && j < MAX_LEVEL_SIDE);
                assert(0 <= i as i128 * BLOCK_SIZE as i128 <= 16_777_216 * 16_000) by (nonlinear_arith)
                    requires i < 16_777_216usize, BLOCK_SIZE == 16_000;
                assert(0 <= j as i128 * BLOCK_SIZE as i128 <= 16_777_216 * 16_000) by (nonlinear_arith)
                    requires j < 16_777_216usize, BLOCK_SIZE == 16_000;
                let dx: i128 = p.x as i128 - level.left as i128 - (i as i128 * BLOCK_SIZE as i128
                    + HALF_BLOCK as i128);
                let dy: i128 = p.y as i128 - level.bottom as i128 - (j as i128 * BLOCK_SIZE as i128
                    + HALF_BLOCK as i128);
                assert(-0x4000_0000_0000_0000 <= dx <= 0x4000_0000_0000_0000);
                assert(-0x4000_0000_0000_0000 <= dy <= 0x4000_0000_0000_0000);
                assert(0 <= dx * dx <= 0x1000_0000_0000_0000_0000_0000_0000_0000) by (nonlinear_arith)
                    requires -0x4000_0000_0000_0000 <= dx <= 0x4000_0000_0000_0000;
                assert(0 <= dy * dy <= 0x1000_0000_0000_0000_0000_0000_0000_0000) by (nonlinear_arith)
                    requires -0x4000_0000_0000_0000 <= dy <= 0x4000_0000_0000_0000;
                assert(dx * dx + dy * dy <= 0x2000_0000_0000_0000_0000_0000_0000_0000);
                let d = dx * dx + dy * dy;
                assert(d == distance2(level, p, i as int, j as int));
                match best {
                    None => {
                        best = Some((i, j, d));
                    },
                    Some((_, _, bd)) => {
                        if d < bd {
                            best = Some((i, j, d));
                        }
                    },
                }
            }
            j = j + 1;
        }
        i = i + 1;
    }
    match best {
        None => {
            proof {
                lemma_no_candidate(level, p);
            }
            None
        },
        Some((bc, br, _)) => Some((bc, br)),
    }
}

/// One resolution step: pushes `position` out of the nearest solid tile around
/// it and tells where that tile lay, or leaves it and returns `None` where no
/// solid tile is near.
pub fn attempt_collision(position: &mut Vec2, level: &Level) -> (r: Option<Contact>)
    requires
        level.wf(),
        within(*old(position), 2 * POSITION_LIMIT),
    ensures
        collision_step(level, *old(position)) is None ==> r is None && *final(position) == *old(
            position,
        ),
        collision_step(level, *old(position)) matches Some((q, contact)) ==> r == Some(contact)
            && *final(position) == q,
        within(*final(position), 2 * POSITION_LIMIT),
{
    let p = *position;
    match nearest_solid(level, p) {
        None => None,
        Some((bc, br)) => {
            proof {
                let (c, r) = choose|c: int, r: int| is_nearest(level, p, c, r);
                lemma_nearest_unique(level, p, c, r, bc as int, br as int);
            }
            assert(bc < MAX_LEVEL_SIDE && br < MAX_LEVEL_SIDE);
            assert(0 <= bc as i64 * BLOCK_SIZE <= 16_777_216 * 16_000) by (nonlinear_arith)
                requires bc < 16_777_216usize, BLOCK_SIZE == 16_000;
            assert(0 <= br as i64 * BLOCK_SIZE <= 16_777_216 * 16_000) by (nonlinear_arith)
                requires br < 16_777_216usize, BLOCK_SIZE == 16_000;
            let dx: i64 = p.x - level.left - (bc as i64 * BLOCK_SIZE + HALF_BLOCK);
            let dy: i64 = p.y - level.bottom - (br as i64 * BLOCK_SIZE + HALF_BLOCK);
            let adx: i64 = if dx < 0 { -dx } else { dx };
            let ady: i64 = if dy < 0 { -dy } else { dy };
            if adx > ady {
                position.x = if dx < 0 { p.x - (BLOCK_SIZE - adx) } else { p.x + (BLOCK_SIZE - adx) };
                if dx > 0 { Some(Contact::TileLeft) } else { Some(Contact::TileRight) }
            } else {
                position.y = if dy < 0 { p.y - (BLOCK_SIZE - ady) } else { p.y + (BLOCK_SIZE - ady) };
                if dy >= 0 { Some(Contact::TileBelow) } else { Some(Contact::TileAbove) }
            }
        },
    }
}



/// The body after a resolution step that ended with `contact`: the velocity
/// component toward the tile is zeroed, and a tile below grounds the body.
pub open spec fn react(body: Dynamic, contact: Contact) -> Dynamic {
    match contact {
        Contact::TileLeft | Contact::TileRight => Dynamic {
            velocity: Vec2 { x: 0, ..body.velocity },
            ..body
        },
        Contact::TileBelow => Dynamic {
            velocity: Vec2 { y: 0, ..body.velocity },
            grounded: true,
            ..body
        },
        Contact::TileAbove => Dynamic { velocity: Vec2 { y: 0, ..body.velocity }, ..body },
    }
}

/// Resolution steps until none finds a tile, at most `fuel` of them: the final
/// position, the body, and whether it ended because no tile was found.
pub open spec fn settle(level: &Level, p: Vec2, body: Dynamic, fuel: nat) -> (Vec2, Dynamic, bool)
    decreases fuel,
{
    if fuel == 0 {
        (p, body, false)
    } else {
        match collision_step(level, p) {
            None => (p, body, true),
            Some((q, contact)) => settle(level, q, react(body, contact), (fuel - 1) as nat),
        }
    }
}

/// `p` moved by velocity `v` for `delta` microseconds.
pub open spec fn integrate(p: Vec2, v: Vec2, delta: int) -> Vec2 {
    Vec2 {
        x: (p.x + quotient(v.x * delta, MICROS_PER_SECOND as int)) as i64,
        y: (p.y + quotient(v.y * delta, MICROS_PER_SECOND as int)) as i64,
    }
}

/// The collision stage on one body: integrate, unground, then resolve.
pub open spec fn collided(level: &Level, p: Vec2, body: Dynamic, delta: int) -> (
    Vec2,
    Dynamic,
    bool,
) {
    settle(
        level,
        integrate(p, body.velocity, delta),
        Dynamic { grounded: false, ..body },
        MAX_RESOLUTION_STEPS as nat,
    )
}

proof fn lemma_displacement_bound(v: int, delta: int)
    requires
        -VELOCITY_LIMIT <= v <= VELOCITY_LIMIT,
        0 <= delta <= u32::MAX,
    ensures
        abs(quotient(v * delta, MICROS_PER_SECOND as int)) <= 0x40_0000_0000_0000,
{
    assert(abs(v * delta) <= VELOCITY_LIMIT * 4_294_967_295int) by (nonlinear_arith)
        requires -VELOCITY_LIMIT <= v <= VELOCITY_LIMIT, 0 <= delta <= 4_294_967_295int,
            VELOCITY_LIMIT > 0;
    lemma_quotient_bounds(v * delta, MICROS_PER_SECOND as int);
    assert(abs(v * delta) / 1_000_000 <= 0x40_0000_0000_0000) by (nonlinear_arith)
        requires abs(v * delta) <= 1_099_511_627_776 * 4_294_967_295int, abs(v * delta) >= 0;
}

/// `p` moved by `v` for `delta` microseconds, on machine integers.
fn displace(p: i64, v: i64, delta: u32) -> (r: i64)
    requires
        -POSITION_LIMIT <= p <= POSITION_LIMIT,
        -VELOCITY_LIMIT <= v <= VELOCITY_LIMIT,
    ensures
        r == p + quotient(v * delta, MICROS_PER_SECOND as int),
        -2 * POSITION_LIMIT <= r <= 2 * POSITION_LIMIT,
{
    proof {
        lemma_displacement_bound(v as int, delta as int);
    }
    assert(abs(v * delta) <= VELOCITY_LIMIT * 4_294_967_295int) by (nonlinear_arith)
        requires -VELOCITY_LIMIT <= v <= VELOCITY_LIMIT, 0 <= delta <= 4_294_967_295int,
            VELOCITY_LIMIT > 0;
    p + divide(v as i128 * delta as i128, MICROS_PER_SECOND as i128)
}

#[derive(Clone, Copy, Debug, PartialEq, Eq, Structural)]
pub struct CollisionSystem;

impl CollisionSystem {
    /// Moves one body by its velocity, then pushes it out of solid tiles until
    /// none is near, zeroing the velocity toward each tile it is pushed from.
    /// Returns false where `MAX_RESOLUTION_STEPS` steps did not settle it.
    pub fn resolve(level: &Level, position: &mut Vec2, body: &mut Dynamic, delta: u32) -> (settled:
        bool)
        requires
            level.wf(),
            old(position).is_position(),
            old(body).wf(),
        ensures
            (*final(position), *final(body), settled) == collided(
                level,
                *old(position),
                *old(body),
                delta as int,
            ),
            final(body).wf(),
    {
        position.x = displace(position.x, body.velocity.x, delta);
        position.y = displace(position.y, body.velocity.y, delta);
        body.grounded = false;
        let ghost start = (*position, *body);
        assert(start.0 == integrate(*old(position), old(body).velocity, delta as int));
        assert(start.1 == Dynamic { grounded: false, ..*old(body) });
        let mut steps: usize = 0;
        while steps < MAX_RESOLUTION_STEPS
            invariant
                level.wf(),
                steps <= MAX_RESOLUTION_STEPS,
                within(*position, 2 * POSITION_LIMIT),
                body.wf(),
                start.0 == integrate(*old(position), old(body).velocity, delta as int),
                start.1 == (Dynamic { grounded: false, ..*old(body) }),
                settle(level, start.0, start.1, MAX_RESOLUTION_STEPS as nat) == settle(
                    level,
                    *position,
                    *body,
                    (MAX_RESOLUTION_STEPS - steps) as nat,
                ),
            decreases MAX_RESOLUTION_STEPS - steps,
        {
            match attempt_collision(position, level) {
                None => {
                    assert(settle(level, *position, *body, (MAX_RESOLUTION_STEPS - steps) as nat) == (
                        *position,
                        *body,
                        true,
                    ));
                    return true;
                },
                Some(Contact::TileLeft) | Some(Contact::TileRight) => {
                    body.velocity.x = 0;
                },
                Some(Contact::TileBelow) => {
                    body.velocity.y = 0;
                    body.grounded = true;
                },
                Some(Contact::TileAbove) => {
                    body.velocity.y = 0;
                },
            }
            steps = steps + 1;
        }
        false
    }

    /// The collision stage against a single floor line at height `floor`, for
    /// levels without a tile grid: a body that moves below the floor is put
    /// back on it, stopped vertically and grounded; any other is airborne.
    pub fn resolve_flat(floor: i64, position: &mut Vec2, body: &mut Dynamic, delta: u32)
        requires
            old(position).is_position(),
            old(body).wf(),
        ensures
            ({
                let q = integrate(*old(position), old(body).velocity, delta as int);
                if q.y < floor {
                    &&& *final(position) == (Vec2 { x: q.x, y: floor })
                    &&& *final(body) == (Dynamic {
                        velocity: Vec2 { x: old(body).velocity.x, y: 0 },
                        grounded: true,
                        ..*old(body)
                    })
                } else {
                    &&& *final(position) == q
                    &&& *final(body) == (Dynamic { grounded: false, ..*old(body) })
                }
            }),
    {
        position.x = displace(position.x, body.velocity.x, delta);
        position.y = displace(position.y, body.velocity.y, delta);
        if position.y < floor {
            position.y = floor;
            body.velocity.y = 0;
            body.grounded = true;
        } else {
            body.grounded = false;
        }
    }

    /// The collision stage over every body; `positions[i]` is where body `i`
    /// stands. Returns, for each body, whether its resolution settled.
    pub fn run(
        &self,
        level: &Level,
        positions: &mut Vec<Vec2>,
        dynamics: &mut Vec<Dynamic>,
        delta: u32,
    ) -> (settled: Vec<bool>)
        requires
            level.wf(),
            old(positions)@.len() == old(dynamics)@.len(),
            forall|i: int| 0 <= i < old(dynamics)@.len() ==> (#[trigger] old(dynamics)@[i]).wf(),
            forall|i: int| 0 <= i < old(positions)@.len() ==> (#[trigger] old(positions)@[i]).is_position(),
        ensures
            final(positions)@.len() == old(positions)@.len(),
            final(dynamics)@.len() == old(dynamics)@.len(),
            settled@.len() == old(dynamics)@.len(),
            forall|i: int|
                0 <= i < old(dynamics)@.len() ==> (final(positions)@[i], final(dynamics)@[i], #[trigger] settled@[i])
                    == collided(level, old(positions)@[i], old(dynamics)@[i], delta as int),
    {
        let n = dynamics.len();
        let mut settled: Vec<bool> = Vec::new();
        let mut i: usize = 0;
        while i < n
            invariant
                level.wf(),
                n == old(dynamics)@.len(),
                n == old(positions)@.len(),
                dynamics@.len() == n,
                positions@.len() == n,
                settled@.len() == i,
                i <= n,
                forall|k: int| i <= k < n ==> #[trigger] dynamics@[k] == old(dynamics)@[k],
                forall|k: int| i <= k < n ==> #[trigger] positions@[k] == old(positions)@[k],
                forall|k: int| 0 <= k < n ==> (#[trigger] old(dynamics)@[k]).wf(),
                forall|k: int| 0 <= k < n ==> (#[trigger] old(positions)@[k]).is_position(),
                forall|k: int|
                    0 <= k < i ==> (positions@[k], dynamics@[k], #[trigger] settled@[k]) == collided(
                        level,
                        old(positions)@[k],
                        old(dynamics)@[k],
                        delta as int,
                    ),
            decreases n - i,
        {
            let mut position = positions[i];
            let mut body = dynamics[i];
            let done = CollisionSystem::resolve(level, &mut position, &mut body, delta);
            positions[i] = position;
            dynamics[i] = body;
            settled.push(done);
            i = i + 1;
        }
        settled
    }
}



proof fn lemma_nearest_exists(level: &Level, p: Vec2, col: int, row: int)
    requires
        is_candidate(level, p, col, row),
    ensures
        exists|c: int, r: int| is_nearest(level, p, c, r),
    decreases distance2(level, p, col, row), col, row,
{
    let d = distance2(level, p, col, row);
    let dx = offset_x(level, p.x as int, col);
    let dy = offset_y(level, p.y as int, row);
    assert(d >= 0) by (nonlinear_arith)
        requires d == dx * dx + dy * dy;
    if !is_nearest(level, p, col, row) {
        let (c, r) = choose|c: int, r: int|
            #[trigger] is_candidate(level, p, c, r) && !precedes(level, p, col, row, c, r);
        let dx2 = offset_x(level, p.x as int, c);
        let dy2 = offset_y(level, p.y as int, r);
        assert(distance2(level, p, c, r) >= 0) by (nonlinear_arith)
            requires distance2(level, p, c, r) == dx2 * dx2 + dy2 * dy2;
        lemma_nearest_exists(level, p, c, r);
    }
}

/// A tile in the grid that overlaps the body lies in the rectangle that a
/// resolution step examines.
proof fn lemma_overlap_in_range(level: &Level, p: Vec2, col: int, row: int)
    requires
        level.wf(),
        level.in_grid(col, row),
        overlaps(level, p, col, row),
    ensures
        first_col(level, p.x as int) <= col <= last_col(level, p.x as int),
        first_row(level, p.y as int) <= row <= last_row(level, p.y as int),
{
    lemma_axis_in_range(p.x as int - level.left - HALF_BLOCK, col, level.width as int);
    lemma_axis_in_range(p.y as int - level.bottom - HALF_BLOCK, row, level.height as int);
}

proof fn lemma_axis_in_range(a: int, i: int, n: int)
    requires
        0 <= i < n,
        abs(a - i * BLOCK_SIZE) < BLOCK_SIZE,
    ensures
        clamp_index(floor_div(a), n) <= i <= clamp_index(ceil_div(a), n),
{
    let b = BLOCK_SIZE as int;
    vstd::arithmetic::div_mod::lemma_fundamental_div_mod(a, b);
    vstd::arithmetic::div_mod::lemma_mod_bound(a, b);
    vstd::arithmetic::div_mod::lemma_fundamental_div_mod(-a, b);
    vstd::arithmetic::div_mod::lemma_mod_bound(-a, b);
    let q = a / b;
    let q2 = (-a) / b;
    assert(q <= i) by (nonlinear_arith)
        requires a == b * q + a % b, 0 <= a % b < b, a < i * b + b, b == 16_000;
    assert(q2 <= -i) by (nonlinear_arith)
        requires -a == b * q2 + (-a) % b, 0 <= (-a) % b < b, -a < -i * b + b, b == 16_000;
}

/// Where a resolution step finds no tile, no solid tile overlaps the body.
pub proof fn lemma_no_step_is_clear(level: &Level, p: Vec2)
    requires
        level.wf(),
        collision_step(level, p) is None,
    ensures
        is_clear(level, p),
{
    assert forall|c: int, r: int|
        level.in_grid(c, r) && level.tile_at(c, r).is_solid() implies !#[trigger] overlaps(
        level,
        p,
        c,
        r,
    ) by {
        if overlaps(level, p, c, r) {
            lemma_overlap_in_range(level, p, c, r);
            assert(is_candidate(level, p, c, r));
            lemma_nearest_exists(level, p, c, r);
        }
    }
}

proof fn lemma_settle_clear(level: &Level, p: Vec2, body: Dynamic, fuel: nat)
    requires
        level.wf(),
        settle(level, p, body, fuel).2,
    ensures
        is_clear(level, settle(level, p, body, fuel).0),
    decreases fuel,
{
    if fuel > 0 {
        match collision_step(level, p) {
            None => lemma_no_step_is_clear(level, p),
            Some((q, contact)) => lemma_settle_clear(level, q, react(body, contact), (fuel - 1) as nat),
        }
    }
}

/// Collision separation: when the collision stage settles a body, no solid tile
/// of the level overlaps it, that is, along one axis or the other its offset
/// from every solid tile's centre is at least a whole tile.
pub proof fn lemma_collision_separation(level: &Level, p: Vec2, body: Dynamic, delta: int)
    requires
        level.wf(),
        collided(level, p, body, delta).2,
    ensures
        is_clear(level, collided(level, p, body, delta).0),
{
    lemma_settle_clear(
        level,
        integrate(p, body.velocity, delta),
        Dynamic { grounded: false, ..body },
        MAX_RESOLUTION_STEPS as nat,
    );
}

proof fn lemma_settle_keeps_grounded(level: &Level, p: Vec2, body: Dynamic, fuel: nat)
    requires
        body.grounded,
    ensures
        settle(level, p, body, fuel).1.grounded,
    decreases fuel,
{
    if fuel > 0 {
        match collision_step(level, p) {
            None => {},
            Some((q, contact)) => lemma_settle_keeps_grounded(
                level,
                q,
                react(body, contact),
                (fuel - 1) as nat,
            ),
        }
    }
}

/// A body whose nearest solid tile, once moved, lies below it (no farther to
/// the side than below) ends the collision stage grounded.
pub proof fn lemma_landing_grounds(level: &Level, p: Vec2, body: Dynamic, delta: int, col: int, row: int)
    requires
        level.wf(),
        is_nearest(level, integrate(p, body.velocity, delta), col, row),
        abs(offset_x(level, integrate(p, body.velocity, delta).x as int, col)) <= offset_y(
            level,
            integrate(p, body.velocity, delta).y as int,
            row,
        ),
    ensures
        collided(level, p, body, delta).1.grounded,
{
    let q = integrate(p, body.velocity, delta);
    let b = Dynamic { grounded: false, ..body };
    let (c, r) = choose|c: int, r: int| is_nearest(level, q, c, r);
    lemma_nearest_unique(level, q, c, r, col, row);
    let (q2, contact) = push(level, q, col, row);
    assert(contact == Contact::TileBelow);
    lemma_settle_keeps_grounded(level, q2, react(b, contact), (MAX_RESOLUTION_STEPS - 1) as nat);
}

/// The body's tile-sized box lies within the level's rectangle.
pub open spec fn inside(level: &Level, p: Vec2) -> bool {
    &&& level.left + HALF_BLOCK <= p.x <= level.right - HALF_BLOCK
    &&& level.bottom + HALF_BLOCK <= p.y <= level.top - HALF_BLOCK
}

proof fn lemma_axis_candidate_overlaps(a: int, i: int, n: int)
    requires
        0 <= a <= (n - 1) * BLOCK_SIZE,
        clamp_index(floor_div(a), n) <= i <= clamp_index(ceil_div(a), n),
    ensures
        abs(a - i * BLOCK_SIZE) < BLOCK_SIZE,
{
    let b = BLOCK_SIZE as int;
    vstd::arithmetic::div_mod::lemma_fundamental_div_mod(a, b);
    vstd::arithmetic::div_mod::lemma_mod_bound(a, b);
    vstd::arithmetic::div_mod::lemma_fundamental_div_mod(-a, b);
    vstd::arithmetic::div_mod::lemma_mod_bound(-a, b);
    let q = a / b;
    let q2 = (-a) / b;
    assert(0 <= q <= n - 1) by (nonlinear_arith)
        requires a == b * q + a % b, 0 <= a % b < b, 0 <= a <= (n - 1) * b, b == 16_000;
    assert(0 <= -q2 <= n - 1 && -q2 <= q + 1 && q <= -q2) by (nonlinear_arith)
        requires -a == b * q2 + (-a) % b, 0 <= (-a) % b < b, 0 <= a <= (n - 1) * b, b == 16_000,
            a == b * q + a % b, 0 <= a % b < b;
    assert(abs(a - i * BLOCK_SIZE) < BLOCK_SIZE) by (nonlinear_arith)
        requires -a == b * q2 + (-a) % b, 0 <= (-a) % b < b, b == 16_000, a == b * q + a % b,
            0 <= a % b < b, q <= i <= -q2, b == BLOCK_SIZE;
}

/// Grounded flag: a body that, once moved, lies within the level and overlaps
/// no solid tile is left where it moved to, with its velocity, and not grounded.
pub proof fn lemma_clear_body_is_airborne(level: &Level, p: Vec2, body: Dynamic, delta: int)
    requires
        level.wf(),
        inside(level, integrate(p, body.velocity, delta)),
        is_clear(level, integrate(p, body.velocity, delta)),
    ensures
        collided(level, p, body, delta) == (
            integrate(p, body.velocity, delta),
            Dynamic { grounded: false, ..body },
            true,
        ),
{
    let q = integrate(p, body.velocity, delta);
    assert forall|c: int, r: int| !is_nearest(level, q, c, r) by {
        if is_nearest(level, q, c, r) {
            assert(is_candidate(level, q, c, r));
            lemma_axis_candidate_overlaps(q.x - level.left - HALF_BLOCK, c, level.width as int);
            lemma_axis_candidate_overlaps(q.y - level.bottom - HALF_BLOCK, r, level.height as int);
            assert(overlaps(level, q, c, r));
        }
    }
}

proof fn lemma_settle_never_speeds_up(level: &Level, p: Vec2, body: Dynamic, fuel: nat)
    ensures
        abs(settle(level, p, body, fuel).1.velocity.x as int) <= abs(body.velocity.x as int),
        abs(settle(level, p, body, fuel).1.velocity.y as int) <= abs(body.velocity.y as int),
    decreases fuel,
{
    if fuel > 0 {
        match collision_step(level, p) {
            None => {},
            Some((q, contact)) => lemma_settle_never_speeds_up(
                level,
                q,
                react(body, contact),
                (fuel - 1) as nat,
            ),
        }
    }
}

/// The collision stage only ever zeroes velocity components: neither speed
/// grows.
pub proof fn lemma_collision_never_speeds_up(level: &Level, p: Vec2, body: Dynamic, delta: int)
    ensures
        abs(collided(level, p, body, delta).1.velocity.x as int) <= abs(body.velocity.x as int),
        abs(collided(level, p, body, delta).1.velocity.y as int) <= abs(body.velocity.y as int),
{
    lemma_settle_never_speeds_up(
        level,
        integrate(p, body.velocity, delta),
        Dynamic { grounded: false, ..body },
        MAX_RESOLUTION_STEPS as nat,
    );
}

} // verus!
