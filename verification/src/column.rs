//! The falling piece: three blocks stacked in one column of the grid, which
//! the player shifts and reorders while it falls, and which becomes part of
//! the grid where it lands.

use crate::block::{Block, BlockKind};
use crate::frame::{Drawable, Frame};
use crate::grid::{grid_view, positions, put, Grid, Pos};
use crate::pit::Heap;
use crate::timer::{nanos, Timer, TimerView};
use crate::{Vec2, NUM_COLS, NUM_ROWS, STARTING_X, STARTING_Y};
use rand::distributions::Uniform;
use rand::{thread_rng, Rng};
use std::time::Duration;
use vstd::prelude::*;

verus! {

/// The three blocks of a piece, from the top one to the base.
pub type Shaft = [Block; 3];

/// The falling piece. `y` is the row of its base, the lowest block; the two
/// blocks above are part of the grid only as far as their rows exist.
#[derive(Debug)]
pub struct Column {
    shaft: Shaft,
    x: usize,
    y: usize,
    dropping: bool,
    move_timer: Timer,
}

/// What a piece is: its blocks from top to base, the column and the row of
/// its base, whether it is still airborne, and the clock of its fall.
pub struct ColumnView {
    pub shaft: Seq<Block>,
    pub x: int,
    pub y: int,
    pub dropping: bool,
    pub timer: TimerView,
}

impl View for Column {
    type V = ColumnView;

    closed spec fn view(&self) -> ColumnView {
        ColumnView {
            shaft: self.shaft@,
            x: self.x as int,
            y: self.y as int,
            dropping: self.dropping,
            timer: self.move_timer@,
        }
    }
}

impl ColumnView {
    /// A piece that has just appeared: at the starting cell, airborne, with
    /// its clock started.
    pub open spec fn fresh(shaft: Seq<Block>) -> ColumnView {
        ColumnView {
            shaft,
            x: STARTING_X as int,
            y: STARTING_Y as int,
            dropping: true,
            timer: TimerView::fresh(Column::MOVE_MILLIS as nat),
        }
    }

    /// The piece stands in the grid and has three blocks.
    pub open spec fn valid(self) -> bool {
        0 <= self.x < NUM_COLS && 0 <= self.y < NUM_ROWS && self.shaft.len() == 3
    }

    /// An airborne piece cannot go down: it stands in the bottom row or on
    /// a block.
    pub open spec fn hits_below(self, g: Grid) -> bool {
        self.dropping && (self.y == NUM_ROWS - 1 || !g[self.x][self.y + 1].is_empty())
    }

    /// An airborne piece cannot go left: it stands in the first column or
    /// beside a block.
    pub open spec fn hits_left(self, g: Grid) -> bool {
        self.dropping && (self.x == 0 || !g[self.x - 1][self.y].is_empty())
    }

    /// An airborne piece cannot go right: it stands in the last column or
    /// beside a block.
    pub open spec fn hits_right(self, g: Grid) -> bool {
        self.dropping && (self.x == NUM_COLS - 1 || !g[self.x + 1][self.y].is_empty())
    }

    /// The piece one row further down, if it is airborne and can go there;
    /// else the piece as it is.
    pub open spec fn moved_down(self, g: Grid) -> ColumnView {
        if self.dropping && !self.hits_below(g) {
            ColumnView { y: self.y + 1, ..self }
        } else {
            self
        }
    }

    /// The piece one column further left, if it is airborne and can go
    /// there; else the piece as it is.
    pub open spec fn moved_left(self, g: Grid) -> ColumnView {
        if self.dropping && !self.hits_left(g) {
            ColumnView { x: self.x - 1, ..self }
        } else {
            self
        }
    }

    /// The piece one column further right, if it is airborne and can go
    /// there; else the piece as it is.
    pub open spec fn moved_right(self, g: Grid) -> ColumnView {
        if self.dropping && !self.hits_right(g) {
            ColumnView { x: self.x + 1, ..self }
        } else {
            self
        }
    }

    /// The piece with its blocks rotated by one place: the base goes to the
    /// top, the other two move down. A landed piece stays as it is.
    pub open spec fn cycled(self) -> ColumnView {
        if self.dropping {
            ColumnView { shaft: seq![self.shaft[2], self.shaft[0], self.shaft[1]], ..self }
        } else {
            self
        }
    }

    /// The piece after `elapsed` nanoseconds: when its clock runs out the
    /// clock starts over and the piece moves down.
    pub open spec fn ticked(self, g: Grid, elapsed: nat) -> ColumnView {
        if self.timer.advanced(elapsed).ready {
            (ColumnView { timer: TimerView::fresh(self.timer.interval_millis), ..self }).moved_down(
                g,
            )
        } else {
            ColumnView { timer: self.timer.advanced(elapsed), ..self }
        }
    }

    /// How many blocks of the piece have a row in the grid: all three, or
    /// fewer where the base stands in one of the two top rows.
    pub open spec fn visible(self) -> nat {
        if self.y >= 2 {
            3
        } else {
            (self.y + 1) as nat
        }
    }

    /// The cell of the `i`-th block counted from the base upwards.
    pub open spec fn cell(self, i: int) -> Pos {
        Pos { x: self.x, y: self.y - i }
    }

    /// The block that is `i` places above the base.
    pub open spec fn block(self, i: int) -> Block {
        self.shaft[2 - i]
    }

    /// The cells that the piece covers: that of the base first, then those
    /// above it as far as the grid goes.
    pub open spec fn cells(self) -> Seq<Pos> {
        Seq::new(self.visible(), |i: int| self.cell(i))
    }

    /// Whether the piece covers the cell at column `x`, row `y`.
    pub open spec fn covers(self, x: int, y: int) -> bool {
        x == self.x && self.y - self.visible() < y <= self.y
    }

    /// The grid with the lowest `n` blocks of the piece written into it.
    pub open spec fn transferred(self, g: Grid, n: nat) -> Grid
        decreases n,
    {
        if n == 0 {
            g
        } else {
            put(self.transferred(g, (n - 1) as nat), self.cell(n - 1), self.block(n - 1))
        }
    }

    /// The grid with the piece written into it, as far as it has rows for
    /// the blocks.
    pub open spec fn settled_in(self, g: Grid) -> Grid {
        self.transferred(g, self.visible())
    }

    /// The piece lands: it cannot go down, and its clock would run out
    /// within `elapsed` nanoseconds.
    pub open spec fn lands(self, g: Grid, elapsed: nat) -> bool {
        self.hits_below(g) && self.timer.advanced(elapsed).ready
    }

    /// The piece after it has landed: no longer airborne, else unchanged.
    pub open spec fn grounded(self) -> ColumnView {
        ColumnView { dropping: false, ..self }
    }
}

/// `Rng::sample_iter` of rand on the generator of the current thread, with
/// the distribution `Uniform::new_inclusive(low, high)`, cut off after
/// `count` draws: that many numbers, each from `low` to `high`. Which
/// numbers is a matter of chance.
#[verifier::external_body]
fn roll_dice(low: u8, high: u8, count: usize) -> (rolls: Vec<u8>)
    requires
        low <= high,
    ensures
        rolls@.len() == count,
        forall|i: int| 0 <= i < rolls@.len() ==> low <= #[trigger] rolls@[i] <= high,
{
    thread_rng().sample_iter(Uniform::<u8>::new_inclusive(low, high)).take(count).collect()
}

impl Column {
    /// The interval, in milliseconds, at which a piece falls one row by
    /// itself.
    pub const MOVE_MILLIS: u64 = 1000;

    #[verifier::type_invariant]
    spec fn in_grid(self) -> bool {
        self.x < NUM_COLS && self.y < NUM_ROWS
    }

    /// A new piece of three blocks whose colours are drawn at random, each
    /// one of the six.
    pub fn new() -> (column: Self)
        ensures
            column@ == ColumnView::fresh(column@.shaft),
            column@.valid(),
            forall|i: int|
                0 <= i < 3 ==> !(#[trigger] column@.shaft[i]).is_empty() && !column@.shaft[i].exploding,
    {
        let rolls = roll_dice(1, 6, 3);
        let column = Self::from_rolls(rolls[0], rolls[1], rolls[2]);
        proof {
            use_type_invariant(&column);
        }
        column
    }

    /// The new piece for three die rolls, from the top block to the base:
    /// each roll from 1 to 6 picks its colour, any other roll leaves the
    /// block empty.
    pub fn from_rolls(top: u8, middle: u8, base: u8) -> (column: Self)
        ensures
            column@ == ColumnView::fresh(
                seq![
                    Block { kind: BlockKind::of_roll(top), exploding: false },
                    Block { kind: BlockKind::of_roll(middle), exploding: false },
                    Block { kind: BlockKind::of_roll(base), exploding: false },
                ],
            ),
    {
        let shaft = [
            Block::new(BlockKind::from_roll(top)),
            Block::new(BlockKind::from_roll(middle)),
            Block::new(BlockKind::from_roll(base)),
        ];
        let column = Self::from(shaft);
        assert(column@.shaft =~= seq![
            Block { kind: BlockKind::of_roll(top), exploding: false },
            Block { kind: BlockKind::of_roll(middle), exploding: false },
            Block { kind: BlockKind::of_roll(base), exploding: false },
        ]);
        column
    }

    /// A new piece of the given blocks.
    pub fn from(shaft: Shaft) -> (column: Self)
        ensures
            column@ == ColumnView::fresh(shaft@),
    {
        Self {
            shaft,
            x: STARTING_X,
            y: STARTING_Y,
            dropping: true,
            move_timer: Timer::from_millis(Column::MOVE_MILLIS),
        }
    }

    /// The column of the grid in which the piece stands.
    pub fn x(&self) -> (x: usize)
        ensures
            x == self@.x,
            x < NUM_COLS,
    {
        proof {
            use_type_invariant(self);
        }
        self.x
    }

    /// The row of the base of the piece.
    pub fn y(&self) -> (y: usize)
        ensures
            y == self@.y,
            y < NUM_ROWS,
    {
        proof {
            use_type_invariant(self);
        }
        self.y
    }

    /// Whether the piece is still airborne.
    pub fn dropping(&self) -> (dropping: bool)
        ensures
            dropping == self@.dropping,
    {
        self.dropping
    }

    /// The blocks of the piece, from the top one to the base.
    pub fn shaft(&self) -> (shaft: Shaft)
        ensures
            shaft@ == self@.shaft,
    {
        self.shaft
    }

    /// Rotates the blocks of an airborne piece by one place.
    pub fn cycle(&mut self)
        ensures
            final(self)@ == old(self)@.cycled(),
    {
        proof {
            use_type_invariant(&*self);
        }
        if self.dropping {
            let shaft = self.shaft;
            self.shaft = [shaft[2], shaft[0], shaft[1]];
            assert(self.shaft@ =~= seq![shaft@[2], shaft@[0], shaft@[1]]);
        }
    }

    /// Moves an airborne piece one row down, unless it is in the bottom row
    /// or stands on a block. A landed piece stays where it is.
    pub fn move_down(&mut self, heap: &Heap)
        ensures
            final(self)@ == old(self)@.moved_down(grid_view(*heap)),
    {
        if self.dropping && !self.detect_hit_downwards(heap) {
            proof {
                use_type_invariant(&*self);
            }
            self.y += 1;
        }
    }

    /// Moves an airborne piece one column to the left, unless it is in the
    /// first column or a block is in the way. A landed piece stays where it
    /// is.
    pub fn move_left(&mut self, heap: &Heap)
        ensures
            final(self)@ == old(self)@.moved_left(grid_view(*heap)),
    {
        if self.dropping && !self.detect_hit_leftwards(heap) {
            proof {
                use_type_invariant(&*self);
            }
            self.x -= 1;
        }
    }

    /// Moves an airborne piece one column to the right, unless it is in the
    /// last column or a block is in the way. A landed piece stays where it
    /// is.
    pub fn move_right(&mut self, heap: &Heap)
        ensures
            final(self)@ == old(self)@.moved_right(grid_view(*heap)),
    {
        if self.dropping && !self.detect_hit_rightwards(heap) {
            proof {
                use_type_invariant(&*self);
            }
            self.x += 1;
        }
    }

    /// Lands the piece if it is due. An airborne piece that cannot go down
    /// lands as soon as its clock would run out within `delta`; the clock
    /// itself is not advanced, so that the player keeps the time that is
    /// left to reorder the blocks. On landing the piece is no longer
    /// airborne, and its blocks are written into the grid from the base
    /// upwards, as far as the grid goes; the cells written are returned in
    /// that order. Otherwise nothing changes and nothing is returned.
    pub fn detect_landing(&mut self, heap: &mut Heap, delta: Duration) -> (landed: Option<
        Vec<Vec2>,
    >)
        ensures
            final(self)@.valid(),
            landed is Some <==> old(self)@.lands(grid_view(*old(heap)), nanos(delta)),
            landed is None ==> final(self)@ == old(self)@ && *final(heap) == *old(heap),
            landed is Some ==> final(self)@ == old(self)@.grounded(),
            landed is Some ==> positions(landed->0@) == old(self)@.cells(),
            landed is Some ==> landed->0@.len() == old(self)@.visible(),
            landed is Some ==> grid_view(*final(heap)) == old(self)@.settled_in(
                grid_view(*old(heap)),
            ),
            landed is Some ==> forall|i: int|
                0 <= i < landed->0@.len() ==> (#[trigger] landed->0@[i]).x < NUM_COLS
                    && landed->0@[i].y < NUM_ROWS,
            landed is Some ==> forall|x: int, y: int|
                0 <= x < NUM_COLS && 0 <= y < NUM_ROWS && !old(self)@.covers(x, y)
                    ==> #[trigger] final(heap)[x][y] == old(heap)[x][y],
            landed is Some ==> forall|x: int, y: int|
                0 <= x < NUM_COLS && 0 <= y < NUM_ROWS && old(self)@.covers(x, y)
                    ==> #[trigger] final(heap)[x][y] == old(self)@.block(old(self)@.y - y),
    {
        proof {
            use_type_invariant(&*self);
        }
        if self.detect_hit_downwards(heap) {
            let mut move_timer_copy = self.move_timer;
            move_timer_copy.update(delta);
            if move_timer_copy.is_ready() {
                self.dropping = false;
                let ghost piece = old(self)@;
                let ghost g = grid_view(*heap);
                let mut origins: Vec<Vec2> = Vec::new();
                let mut i: usize = 0;
                assert(positions(origins@) =~= piece.cells().take(0));
                while i < 3 && i <= self.y
                    invariant
                        i <= 3,
                        i <= piece.visible(),
                        self.x < NUM_COLS,
                        self.y < NUM_ROWS,
                        piece == old(self)@,
                        self@ == piece.grounded(),
                        g == grid_view(*old(heap)),
                        positions(origins@) == piece.cells().take(i as int),
                        grid_view(*heap) == piece.transferred(g, i as nat),
                        forall|n: int|
                            0 <= n < origins@.len() ==> (#[trigger] origins@[n]).x < NUM_COLS
                                && origins@[n].y < NUM_ROWS,
                        forall|x: int, y: int|
                            0 <= x < NUM_COLS && 0 <= y < NUM_ROWS ==> #[trigger] heap[x][y] == if x
                                == piece.x && piece.y - i < y <= piece.y {
                                piece.block(piece.y - y)
                            } else {
                                old(heap)[x][y]
                            },
                    decreases 3 - i,
                {
                    let origin = Vec2::xy(self.x, self.y - i);
                    let ghost held = positions(origins@);
                    let ghost before = grid_view(*heap);
                    heap[origin.x][origin.y] = self.shaft[2 - i];
                    origins.push(origin);
                    proof {
                        assert(origin@ == piece.cell(i as int));
                        assert(self.shaft[2 - i] == piece.block(i as int));
                        assert(positions(origins@) =~= held.push(origin@));
                        assert(piece.cells().take(i + 1) =~= piece.cells().take(i as int).push(
                            origin@,
                        ));
                        assert(grid_view(*heap) =~~= put(before, origin@, piece.block(i as int)));
                    }
                    i += 1;
                }
                proof {
                    assert(i == piece.visible());
                    assert(piece.cells().take(i as int) =~= piece.cells());
                }
                return Some(origins);
            }
        }
        None
    }

    /// Lets `delta` pass for the piece: when its clock runs out the clock
    /// starts over and the piece moves down. Returns whether the piece is
    /// still airborne.
    pub fn update(&mut self, heap: &Heap, delta: Duration) -> (dropping: bool)
        ensures
            final(self)@ == old(self)@.ticked(grid_view(*heap), nanos(delta)),
            dropping == old(self)@.dropping,
    {
        proof {
            use_type_invariant(&*self);
        }
        let mut move_timer = self.move_timer;
        move_timer.update(delta);
        if move_timer.is_ready() {
            move_timer.reset();
            self.move_timer = move_timer;
            self.move_down(heap);
        } else {
            self.move_timer = move_timer;
        }
        self.dropping
    }

    /// Whether an airborne piece is kept from going down.
    pub fn detect_hit_downwards(&self, heap: &Heap) -> (hit: bool)
        ensures
            hit == self@.hits_below(grid_view(*heap)),
    {
        proof {
            use_type_invariant(self);
        }
        self.dropping && (self.y == NUM_ROWS - 1 || !heap[self.x][self.y + 1].empty())
    }

    /// Whether an airborne piece is kept from going left.
    pub fn detect_hit_leftwards(&self, heap: &Heap) -> (hit: bool)
        ensures
            hit == self@.hits_left(grid_view(*heap)),
    {
        proof {
            use_type_invariant(self);
        }
        self.dropping && (self.x == 0 || !heap[self.x - 1][self.y].empty())
    }

    /// Whether an airborne piece is kept from going right.
    pub fn detect_hit_rightwards(&self, heap: &Heap) -> (hit: bool)
        ensures
            hit == self@.hits_right(grid_view(*heap)),
    {
        proof {
            use_type_invariant(self);
        }
        self.dropping && (self.x == NUM_COLS - 1 || !heap[self.x + 1][self.y].empty())
    }
}

impl Default for Column {
    /// A new piece of three empty blocks.
    fn default() -> (column: Self)
        ensures
            column@ == ColumnView::fresh(
                seq![
                    Block { kind: None, exploding: false },
                    Block { kind: None, exploding: false },
                    Block { kind: None, exploding: false },
                ],
            ),
    {
        let column = Self::from([Block::default(), Block::default(), Block::default()]);
        assert(column@.shaft =~= seq![
            Block { kind: None, exploding: false },
            Block { kind: None, exploding: false },
            Block { kind: None, exploding: false },
        ]);
        column
    }
}

impl Drawable for Column {
    /// An airborne piece paints the cells it covers with the codes of its
    /// blocks; a landed piece is part of the grid and paints nothing.
    open spec fn paints(&self, x: int, y: int) -> Option<int> {
        if self@.dropping && self@.covers(x, y) {
            Some(self@.block(self@.y - y).code())
        } else {
            None
        }
    }

    fn draw(&self, frame: &mut Frame) {
        proof {
            use_type_invariant(self);
        }
        if self.dropping {
            let mut i: usize = 0;
            while i < 3 && i <= self.y
                invariant
                    i <= 3,
                    i <= self@.visible(),
                    self.x < NUM_COLS,
                    self.y < NUM_ROWS,
                    self.dropping,
                    forall|x: int, y: int|
                        0 <= x < NUM_COLS && 0 <= y < NUM_ROWS ==> #[trigger] frame[x][y] as int
                            == if x == self@.x && self@.y - i < y <= self@.y {
                            self@.block(self@.y - y).code()
                        } else {
                            old(frame)[x][y] as int
                        },
                decreases 3 - i,
            {
                frame[self.x][self.y - i] = self.shaft[2 - i].numbered();
                i += 1;
            }
        }
    }
}

} // verus!
