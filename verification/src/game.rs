//! A game: the pit, the piece that is falling and the piece that comes
//! next, with the rules by which a driver lets time pass and hands on the
//! player's commands.

use crate::column::{Column, ColumnView};
use crate::frame::{new_frame, Drawable, Frame};
use crate::pit::{Pit, PitStage, PitView};
use crate::timer::nanos;
use crate::{NUM_COLS, NUM_ROWS};
use std::time::Duration;
use vstd::prelude::*;

verus! {

/// What the player can ask of the falling piece.
#[derive(Debug, Clone, Copy, PartialEq, Eq, Structural)]
pub enum Command {
    Left,
    Right,
    Down,
    Cycle,
}

/// A game in progress.
pub struct Game {
    column: Column,
    upcoming_column: Column,
    pit: Pit,
}

/// What a game is: the falling piece, the next piece, and the pit.
pub struct GameView {
    pub column: ColumnView,
    pub upcoming: ColumnView,
    pub pit: PitView,
}

impl View for Game {
    type V = GameView;

    closed spec fn view(&self) -> GameView {
        GameView { column: self.column@, upcoming: self.upcoming_column@, pit: self.pit@ }
    }
}

impl GameView {
    /// The piece after a command: an airborne piece moves or turns as
    /// asked, where it can; a landed piece ignores the player.
    pub open spec fn commanded(self, command: Command) -> ColumnView {
        match command {
            Command::Left => self.column.moved_left(self.pit.heap),
            Command::Right => self.column.moved_right(self.pit.heap),
            Command::Down => self.column.moved_down(self.pit.heap),
            Command::Cycle => self.column.cycled(),
        }
    }

    /// The display code of the cell at column `x`, row `y`: that of the
    /// falling piece where it covers the cell, else that of the pit.
    pub open spec fn code_at(self, x: int, y: int) -> int {
        if self.column.dropping && self.column.covers(x, y) {
            self.column.block(self.column.y - y).code()
        } else {
            self.pit.heap[x][y].code()
        }
    }
}

impl Game {
    /// A game with an empty pit and two pieces drawn at random: each is new
    /// and has three blocks, and each block has one of the six colours and is
    /// not blinking. Which colours is a matter of chance.
    pub fn new() -> (game: Self)
        ensures
            game@.pit == PitView::fresh(),
            game@.column == ColumnView::fresh(game@.column.shaft),
            game@.upcoming == ColumnView::fresh(game@.upcoming.shaft),
            game@.column.valid(),
            game@.upcoming.valid(),
            forall|i: int|
                0 <= i < 3 ==> !(#[trigger] game@.column.shaft[i]).is_empty()
                    && !game@.column.shaft[i].exploding,
            forall|i: int|
                0 <= i < 3 ==> !(#[trigger] game@.upcoming.shaft[i]).is_empty()
                    && !game@.upcoming.shaft[i].exploding,
    {
        Self::from_columns(Column::new(), Column::new())
    }

    /// A game with an empty pit and the given pieces.
    pub fn from_columns(column: Column, upcoming_column: Column) -> (game: Self)
        ensures
            game@ == (GameView { column: column@, upcoming: upcoming_column@, pit: PitView::fresh() }),
    {
        Self { column, upcoming_column, pit: Pit::new() }
    }

    /// The pit of the game.
    pub fn pit(&self) -> (pit: &Pit)
        ensures
            pit@ == self@.pit,
    {
        &self.pit
    }

    /// The falling piece.
    pub fn column(&self) -> (column: &Column)
        ensures
            column@ == self@.column,
    {
        &self.column
    }

    /// The piece that comes next.
    pub fn upcoming_column(&self) -> (column: &Column)
        ensures
            column@ == self@.upcoming,
    {
        &self.upcoming_column
    }

    /// Hands a command of the player to the falling piece.
    pub fn command(&mut self, command: Command)
        ensures
            final(self)@ == (GameView { column: old(self)@.commanded(command), ..old(self)@ }),
    {
        match command {
            Command::Left => self.column.move_left(self.pit.heap()),
            Command::Right => self.column.move_right(self.pit.heap()),
            Command::Down => self.column.move_down(self.pit.heap()),
            Command::Cycle => self.column.cycle(),
        }
    }

    /// Lets `delta` pass. The pit takes its step. While the pit is stable
    /// the piece falls by its own clock; once the piece has landed and the
    /// pit is stable again, the next piece takes its place and a new next
    /// piece is drawn at random. Returns whether the game is lost.
    pub fn update(&mut self, delta: Duration) -> (lost: bool)
        ensures
            old(self)@.pit.valid(),
            final(self)@.pit.valid(),
            old(self)@.pit.steps_to(old(self)@.column, nanos(delta), final(self)@.pit),
            ({
                let piece = old(self)@.pit.piece_after(old(self)@.column, nanos(delta));
                if final(self)@.pit.stage != PitStage::Stable {
                    final(self)@.column == piece && final(self)@.upcoming == old(self)@.upcoming
                } else if piece.dropping {
                    final(self)@.column == piece.ticked(final(self)@.pit.heap, nanos(delta))
                        && final(self)@.upcoming == old(self)@.upcoming
                } else {
                    final(self)@.column == old(self)@.upcoming && final(self)@.upcoming
                        == ColumnView::fresh(final(self)@.upcoming.shaft) && forall|i: int|
                        0 <= i < 3 ==> !(#[trigger] final(self)@.upcoming.shaft[i]).is_empty()
                }
            }),
            lost == (final(self)@.pit.stage == PitStage::Stable && final(self)@.pit.top_row_taken()),
    {
        self.pit.update(&mut self.column, delta);
        if self.pit.stable() && !self.column.update(self.pit.heap(), delta) {
            let mut next = Column::new();
            std::mem::swap(&mut self.upcoming_column, &mut next);
            self.column = next;
        }
        self.pit.topped_up()
    }

    /// The frame that shows the game: the pit with the falling piece on
    /// top of it.
    pub fn frame(&self) -> (frame: Frame)
        ensures
            forall|x: int, y: int|
                0 <= x < NUM_COLS && 0 <= y < NUM_ROWS ==> #[trigger] frame[x][y] as int
                    == self@.code_at(x, y),
    {
        let mut frame = new_frame();
        self.pit.draw(&mut frame);
        self.column.draw(&mut frame);
        frame
    }
}

} // verus!
