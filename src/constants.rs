use vstd::prelude::*;

verus! {

/// Width of the screen in pixels.
pub const SCREEN_WIDTH: u16 = 200;

/// Height of the screen in pixels.
pub const SCREEN_HEIGHT: u16 = 150;

/// Side length, in pixels, of one tile.
pub const TILE_SIZE: u16 = 1;

/// Number of tile columns on the screen.
pub const NUMBER_OF_TILES_X: u16 = 200;

/// Number of tile rows on the screen.
pub const NUMBER_OF_TILES_Y: u16 = 150;

} // verus!
