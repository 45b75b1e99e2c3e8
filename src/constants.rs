use vstd::prelude::*;

verus! {

/// Width of the board, in cells.
pub const LEVEL_X_MAX: u16 = 10;

/// Height of the board, in cells.
pub const LEVEL_Y_MAX: u16 = 10;

/// Side of one cell on screen, in pixels.
pub const GRID_SQUARE_SIZE: u16 = 32;

/// Number of cells on the board.
pub const LEVEL_CELLS: usize = 100;

} // verus!
