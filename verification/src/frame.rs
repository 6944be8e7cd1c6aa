//! Frames: what a renderer is handed, one display code for each cell.

use crate::{NUM_COLS, NUM_ROWS};
use vstd::prelude::*;

verus! {

/// One display code for each cell of the playfield, in column-major order:
/// 0 to 5 for the six colours, 6 for a blinking block, -1 for an empty cell.
pub type Frame = [[i8; NUM_ROWS]; NUM_COLS];

/// A frame of empty cells.
pub fn new_frame() -> (frame: Frame)
    ensures
        forall|x: int, y: int| 0 <= x < NUM_COLS && 0 <= y < NUM_ROWS ==> #[trigger] frame[x][y] == -1,
{
    let column: [i8; NUM_ROWS] = [-1;NUM_ROWS];
    [column;NUM_COLS]
}

/// Something that shows in a frame.
pub trait Drawable {
    /// The code that drawing writes into the cell at column `x`, row `y`,
    /// or none where it leaves the cell as it is.
    spec fn paints(&self, x: int, y: int) -> Option<int>;

    /// Draws onto the frame: every cell that is painted gets its code, every
    /// other cell keeps what it had.
    fn draw(&self, frame: &mut Frame)
        ensures
            forall|x: int, y: int|
                0 <= x < NUM_COLS && 0 <= y < NUM_ROWS ==> #[trigger] final(frame)[x][y] as int
                    == match self.paints(x, y) {
                    Some(code) => code,
                    None => old(frame)[x][y] as int,
                },
    ;
}

} // verus!
