//! Cascade-resolution engine of a falling-blocks matching puzzle.
//!
//! A grid of coloured blocks grows from falling three-block pieces. Whenever
//! three or more blocks of one colour line up along a row, a column or a
//! diagonal they blink, are cleared, the blocks above fall into the gap, and
//! the search starts again until the grid is quiet.

use vstd::prelude::*;

pub mod block;
pub mod cascade;
pub mod column;
pub mod frame;
pub mod game;
pub mod gravity;
pub mod grid;
pub mod matching;
pub mod order;
pub mod pit;
pub mod renderer;
pub mod timer;

verus! {

/// Number of columns of the playfield.
pub const NUM_COLS: usize = 6;

/// Number of rows of the playfield.
pub const NUM_ROWS: usize = 13;

/// Column in which a new falling piece appears.
pub const STARTING_X: usize = 2;

/// Row of the lowest block of a new falling piece.
pub const STARTING_Y: usize = 0;

/// A grid coordinate: `x` is the column, `y` the row, growing downwards.
#[derive(Debug, Clone, Copy, PartialEq, Eq, Structural)]
pub struct Vec2 {
    pub x: usize,
    pub y: usize,
}

impl Vec2 {
    /// The coordinate of column `x`, row `y`.
    pub fn xy(x: usize, y: usize) -> (p: Self)
        ensures
            p == (Vec2 { x, y }),
    {
        Self { x, y }
    }
}

} // verus!
