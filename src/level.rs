//! The static tile grid and its bounding rectangle.
use vstd::prelude::*;

use crate::components::{Tile, Vec2};

verus! {

/// Side of a square tile, in sub-units.
pub const BLOCK_SIZE: i64 = 16_000;

pub const HALF_BLOCK: i64 = 8_000;

/// Width of the camera's viewport, in sub-units.
pub const CAMERA_WIDTH: i64 = 384_000;

/// Height of the camera's viewport, in sub-units.
pub const CAMERA_HEIGHT: i64 = 216_000;

/// Largest number of tiles along either side of a level.
pub const MAX_LEVEL_SIDE: usize = 16_777_216;

/// Where the player enters the level.
pub const PLAYER_SPAWN_X: i64 = -176_000;

pub const PLAYER_SPAWN_Y: i64 = -200_000;

/// An RGBA pixel of a level bitmap.
pub type Color = [u8; 4];

pub open spec fn spec_color_tile(c: Color) -> Option<Tile> {
    if c[3] != 255 {
        None
    } else if c[0] == 255 && c[1] == 255 && c[2] == 255 {
        Some(Tile::Background)
    } else if c[0] == 0 && c[1] == 0 && c[2] == 0 {
        Some(Tile::Ground)
    } else if c[0] == 0 && c[1] == 148 && c[2] == 255 {
        Some(Tile::Start)
    } else if c[0] == 0 && c[1] == 216 && c[2] == 68 {
        Some(Tile::End)
    } else {
        None
    }
}

impl Tile {
    /// The tile that a bitmap colour encodes: opaque white, black, blue
    /// (0, 148, 255) and green (0, 216, 68); any other colour encodes none.
    pub fn from_color(c: &Color) -> (r: Option<Tile>)
        ensures
            r == spec_color_tile(*c),
    {
        if c[3] != 255 {
            None
        } else if c[0] == 255 && c[1] == 255 && c[2] == 255 {
            Some(Tile::Background)
        } else if c[0] == 0 && c[1] == 0 && c[2] == 0 {
            Some(Tile::Ground)
        } else if c[0] == 0 && c[1] == 148 && c[2] == 255 {
            Some(Tile::Start)
        } else if c[0] == 0 && c[1] == 216 && c[2] == 68 {
            Some(Tile::End)
        } else {
            None
        }
    }
}

#[derive(Clone, Copy, Debug, PartialEq, Eq, Structural)]
pub enum LevelError {
    /// The pixel at this index (row-major, top row first) encodes no tile.
    InvalidTileColor { index: usize },
}

/// The tile grid, stored row-major with the top row first, and the world-space
/// rectangle it covers, centred on the origin.
pub struct Level {
    pub tiles: Vec<Tile>,
    pub width: usize,
    pub height: usize,
    pub left: i64,
    pub bottom: i64,
    pub right: i64,
    pub top: i64,
}

impl Level {
    pub open spec fn wf(&self) -> bool {
        &&& self.width <= MAX_LEVEL_SIDE
        &&& self.height <= MAX_LEVEL_SIDE
        &&& self.tiles@.len() == self.width * self.height
        &&& self.left == -(HALF_BLOCK * self.width)
        &&& self.right == HALF_BLOCK * self.width
        &&& self.bottom == -(HALF_BLOCK * self.height)
        &&& self.top == HALF_BLOCK * self.height
    }

    /// Index into `tiles` of the tile in column `col`, row `row` counted from the
    /// bottom.
    pub open spec fn index_of(&self, col: int, row: int) -> int {
        (self.height - row - 1) * self.width + col
    }

    pub open spec fn in_grid(&self, col: int, row: int) -> bool {
        0 <= col < self.width && 0 <= row < self.height
    }

    pub open spec fn tile_at(&self, col: int, row: int) -> Tile {
        self.tiles@[self.index_of(col, row)]
    }

    /// An empty level covering no area.
    pub fn empty() -> (r: Level)
        ensures
            r.wf(),
            r.width == 0,
            r.height == 0,
    {
        Level { tiles: Vec::new(), width: 0, height: 0, left: 0, bottom: 0, right: 0, top: 0 }
    }

    /// Builds a level from a bitmap given row by row, top row first.
    pub fn from_pixels(width: usize, height: usize, pixels: &Vec<Color>) -> (r: Result<
        Level,
        LevelError,
    >)
        requires
            width <= MAX_LEVEL_SIDE,
            height <= MAX_LEVEL_SIDE,
            pixels@.len() == width * height,
        ensures
            r is Ok <==> forall|k: int| 0 <= k < pixels@.len() ==> spec_color_tile(pixels@[k]) is Some,
            r matches Ok(level) ==> {
                &&& level.wf()
                &&& level.width == width
                &&& level.height == height
                &&& forall|k: int|
                    0 <= k < pixels@.len() ==> Some(#[trigger] level.tiles@[k]) == spec_color_tile(
                        pixels@[k],
                    )
            },
            r matches Err(LevelError::InvalidTileColor { index }) ==> {
                &&& index < pixels@.len()
                &&& spec_color_tile(pixels@[index as int]) is None
                &&& forall|k: int| 0 <= k < index ==> spec_color_tile(pixels@[k]) is Some
            },
    {
        let mut tiles: Vec<Tile> = Vec::new();
        let mut k: usize = 0;
        while k < pixels.len()
            invariant
                k <= pixels@.len(),
                tiles@.len() == k,
                forall|m: int| 0 <= m < k ==> Some(#[trigger] tiles@[m]) == spec_color_tile(pixels@[m]),
            decreases pixels@.len() - k,
        {
            match Tile::from_color(&pixels[k]) {
                Some(tile) => tiles.push(tile),
                None => {
                    assert forall|m: int| 0 <= m < k implies spec_color_tile(pixels@[m]) is Some by {
                        assert(Some(tiles@[m]) == spec_color_tile(pixels@[m]));
                    }
                    return Err(LevelError::InvalidTileColor { index: k });
                },
            }
            k = k + 1;
        }
        assert forall|m: int| 0 <= m < pixels@.len() implies spec_color_tile(pixels@[m]) is Some by {
            assert(Some(tiles@[m]) == spec_color_tile(pixels@[m]));
        }
        assert(width as int * HALF_BLOCK <= MAX_LEVEL_SIDE as int * HALF_BLOCK) by (nonlinear_arith)
            requires width <= MAX_LEVEL_SIDE;
        assert(height as int * HALF_BLOCK <= MAX_LEVEL_SIDE as int * HALF_BLOCK) by (nonlinear_arith)
            requires height <= MAX_LEVEL_SIDE;
        let half_width = HALF_BLOCK * width as i64;
        let half_height = HALF_BLOCK * height as i64;
        Ok(
            Level {
                tiles,
                width,
                height,
                left: -half_width,
                bottom: -half_height,
                right: half_width,
                top: half_height,
            },
        )
    }

    /// World position of the centre of the tile stored at `index`.
    pub fn tile_position(&self, index: usize) -> (r: Vec2)
        requires
            self.wf(),
            index < self.tiles@.len(),
        ensures
            r.x == self.left + (index % self.width) * BLOCK_SIZE + HALF_BLOCK,
            r.y == self.top - (index / self.width) * BLOCK_SIZE - HALF_BLOCK,
    {
        let col = index % self.width;
        let row = index / self.width;
        assert(col < MAX_LEVEL_SIDE && row < MAX_LEVEL_SIDE) by (nonlinear_arith)
            requires
                col == index % self.width,
                row == index / self.width,
                index < self.width * self.height,
                self.width <= MAX_LEVEL_SIDE,
                self.height <= MAX_LEVEL_SIDE;
        let x = self.left + col as i64 * BLOCK_SIZE + HALF_BLOCK;
        let y = self.top - row as i64 * BLOCK_SIZE - HALF_BLOCK;
        Vec2 { x, y }
    }
}

impl Default for Level {
    fn default() -> (r: Level)
        ensures
            r.wf(),
            r.width == 0,
            r.height == 0,
    {
        Level::empty()
    }
}

} // verus!
