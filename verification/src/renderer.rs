//! What a renderer has to know: whether the screen is large enough, which
//! colour stands for which display code, and which cells of a frame have to
//! be painted.

use crate::frame::Frame;
use crate::{NUM_COLS, NUM_ROWS};
use vstd::prelude::*;

verus! {

/// Why the playfield cannot be shown.
#[derive(Debug, Clone, Copy, PartialEq, Eq, Structural)]
pub enum RendererError {
    /// The size of the screen is not known.
    Size,
    /// The screen has fewer columns or rows than the playfield, whose
    /// columns and rows are given.
    MinimumSize(usize, usize),
}

/// The colours in which cells are painted.
#[derive(Debug, Clone, Copy, PartialEq, Eq, Structural)]
pub enum Tint {
    Blue,
    Yellow,
    Green,
    Red,
    Cyan,
    Magenta,
    Grey,
    Black,
}

/// One cell to paint: its column and row on the screen and its colour.
#[derive(Debug, Clone, Copy, PartialEq, Eq, Structural)]
pub struct Stroke {
    pub x: u16,
    pub y: u16,
    pub tint: Tint,
}

/// The colour for a display code: the six colours of the blocks for 0 to 5,
/// grey for a blinking block, black for an empty cell and any other code.
pub open spec fn tint_of(number: int) -> Tint {
    if number == 0 {
        Tint::Blue
    } else if number == 1 {
        Tint::Yellow
    } else if number == 2 {
        Tint::Green
    } else if number == 3 {
        Tint::Red
    } else if number == 4 {
        Tint::Cyan
    } else if number == 5 {
        Tint::Magenta
    } else if number == 6 {
        Tint::Grey
    } else {
        Tint::Black
    }
}

/// The stroke for the `n`-th cell of a frame, counted column by column.
pub open spec fn stroke_at(frame: Frame, n: int) -> Stroke {
    Stroke {
        x: (n / NUM_ROWS as int) as u16,
        y: (n % NUM_ROWS as int) as u16,
        tint: tint_of(frame[n / NUM_ROWS as int][n % NUM_ROWS as int] as int),
    }
}

/// The strokes that turn the first `n` cells of one frame into those of
/// another: one for each cell whose code differs, column by column.
pub open spec fn strokes_between(last_frame: Frame, frame: Frame, n: nat) -> Seq<Stroke>
    decreases n,
{
    if n == 0 {
        Seq::empty()
    } else {
        let rest = strokes_between(last_frame, frame, (n - 1) as nat);
        let x = (n - 1) / NUM_ROWS as int;
        let y = (n - 1) % NUM_ROWS as int;
        if last_frame[x][y] == frame[x][y] {
            rest
        } else {
            rest.push(stroke_at(frame, n - 1))
        }
    }
}

/// The strokes that paint the first `n` cells of a frame, column by column.
pub open spec fn strokes_of(frame: Frame, n: nat) -> Seq<Stroke> {
    Seq::new(n, |i: int| stroke_at(frame, i))
}

/// Whether the playfield fits on a screen of the given columns and rows.
/// An unknown size is refused as such, a screen with too few columns or
/// rows with the size that is needed.
pub fn assert_screen_size(size: Option<(u16, u16)>) -> (fits: Result<(), RendererError>)
    ensures
        fits == match size {
            None => Err::<(), RendererError>(RendererError::Size),
            Some((cols, rows)) => if cols < NUM_COLS || rows < NUM_ROWS {
                Err(RendererError::MinimumSize(NUM_COLS, NUM_ROWS))
            } else {
                Ok(())
            },
        },
{
    match size {
        None => Err(RendererError::Size),
        Some((cols, rows)) => {
            if (cols as usize) < NUM_COLS || (rows as usize) < NUM_ROWS {
                Err(RendererError::MinimumSize(NUM_COLS, NUM_ROWS))
            } else {
                Ok(())
            }
        },
    }
}

/// The colour in which a display code is painted.
pub fn number_to_tint(number: i8) -> (tint: Tint)
    ensures
        tint == tint_of(number as int),
{
    match number {
        0 => Tint::Blue,
        1 => Tint::Yellow,
        2 => Tint::Green,
        3 => Tint::Red,
        4 => Tint::Cyan,
        5 => Tint::Magenta,
        6 => Tint::Grey,
        _ => Tint::Black,
    }
}

/// The strokes that paint a whole frame: one for each cell, column by
/// column.
pub fn init(frame: &Frame) -> (strokes: Vec<Stroke>)
    ensures
        strokes@ == strokes_of(*frame, (NUM_COLS * NUM_ROWS) as nat),
{
    let mut strokes: Vec<Stroke> = Vec::new();
    let mut x: usize = 0;
    while x < NUM_COLS
        invariant
            x <= NUM_COLS,
            strokes@ == strokes_of(*frame, (x * NUM_ROWS) as nat),
        decreases NUM_COLS - x,
    {
        let mut y: usize = 0;
        while y < NUM_ROWS
            invariant
                x < NUM_COLS,
                y <= NUM_ROWS,
                strokes@ == strokes_of(*frame, (x * NUM_ROWS + y) as nat),
            decreases NUM_ROWS - y,
        {
            let ghost n = (x * NUM_ROWS + y) as int;
            let stroke = Stroke { x: x as u16, y: y as u16, tint: number_to_tint(frame[x][y]) };
            proof {
                assert(n / NUM_ROWS as int == x && n % NUM_ROWS as int == y);
                assert(stroke == stroke_at(*frame, n));
                assert(strokes@.push(stroke) =~= strokes_of(*frame, (n + 1) as nat));
            }
            strokes.push(stroke);
            y += 1;
        }
        x += 1;
    }
    strokes
}

/// The strokes that bring the screen from one frame to the next: one for
/// each cell whose code has changed, column by column.
pub fn render(last_frame: &Frame, frame: &Frame) -> (strokes: Vec<Stroke>)
    ensures
        strokes@ == strokes_between(*last_frame, *frame, (NUM_COLS * NUM_ROWS) as nat),
{
    let mut strokes: Vec<Stroke> = Vec::new();
    let mut x: usize = 0;
    while x < NUM_COLS
        invariant
            x <= NUM_COLS,
            strokes@ == strokes_between(*last_frame, *frame, (x * NUM_ROWS) as nat),
        decreases NUM_COLS - x,
    {
        let mut y: usize = 0;
        while y < NUM_ROWS
            invariant
                x < NUM_COLS,
                y <= NUM_ROWS,
                strokes@ == strokes_between(*last_frame, *frame, (x * NUM_ROWS + y) as nat),
            decreases NUM_ROWS - y,
        {
            let ghost n = (x * NUM_ROWS + y) as int;
            proof {
                assert(n / NUM_ROWS as int == x && n % NUM_ROWS as int == y);
            }
            if last_frame[x][y] != frame[x][y] {
                let stroke = Stroke { x: x as u16, y: y as u16, tint: number_to_tint(frame[x][y]) };
                assert(stroke == stroke_at(*frame, n));
                strokes.push(stroke);
            }
            y += 1;
        }
        x += 1;
    }
    strokes
}

} // verus!
