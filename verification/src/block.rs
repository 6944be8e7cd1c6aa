//! Blocks: the cells of the playfield and of the falling piece.

use vstd::prelude::*;
use vstd::std_specs::cmp::PartialEqSpecImpl;

verus! {

/// The six colours a block can have.
#[derive(Debug, Clone, Copy, PartialEq, Eq, Structural)]
pub enum BlockKind {
    Blue,
    Yellow,
    Green,
    Red,
    Cyan,
    Magenta,
}

impl BlockKind {
    /// The display code of a colour: its position in the declaration, from 0.
    pub open spec fn code(self) -> int {
        match self {
            BlockKind::Blue => 0,
            BlockKind::Yellow => 1,
            BlockKind::Green => 2,
            BlockKind::Red => 3,
            BlockKind::Cyan => 4,
            BlockKind::Magenta => 5,
        }
    }

    /// The colour drawn for a die roll: 1 to 6 give the six colours in
    /// declaration order, anything else gives none.
    pub open spec fn of_roll(roll: u8) -> Option<BlockKind> {
        if roll == 1 {
            Some(BlockKind::Blue)
        } else if roll == 2 {
            Some(BlockKind::Yellow)
        } else if roll == 3 {
            Some(BlockKind::Green)
        } else if roll == 4 {
            Some(BlockKind::Red)
        } else if roll == 5 {
            Some(BlockKind::Cyan)
        } else if roll == 6 {
            Some(BlockKind::Magenta)
        } else {
            None
        }
    }

    /// Picks the colour for a die roll.
    pub fn from_roll(roll: u8) -> (kind: Option<BlockKind>)
        ensures
            kind == Self::of_roll(roll),
            kind is Some <==> 1 <= roll <= 6,
    {
        match roll {
            1 => Some(BlockKind::Blue),
            2 => Some(BlockKind::Yellow),
            3 => Some(BlockKind::Green),
            4 => Some(BlockKind::Red),
            5 => Some(BlockKind::Cyan),
            6 => Some(BlockKind::Magenta),
            _ => None,
        }
    }
}

/// One cell: empty or of one colour, with a transient flag that is set while
/// a matched block blinks before it is cleared.
#[derive(Debug, Clone, Copy)]
pub struct Block {
    pub kind: Option<BlockKind>,
    pub exploding: bool,
}

impl Block {
    /// An empty cell is one without a colour.
    pub open spec fn is_empty(self) -> bool {
        self.kind is None
    }

    /// The display code: 6 while blinking, else the colour's code, else -1.
    pub open spec fn code(self) -> int {
        if self.exploding {
            6
        } else {
            match self.kind {
                Some(kind) => kind.code(),
                None => -1,
            }
        }
    }

    /// A block of the given colour that is not blinking.
    pub fn new(kind: Option<BlockKind>) -> (block: Self)
        ensures
            block.kind == kind,
            !block.exploding,
    {
        Self { kind, exploding: false }
    }

    /// The code under which the block is drawn.
    pub fn numbered(&self) -> (n: i8)
        ensures
            n == self.code(),
            -1 <= n <= 6,
    {
        if self.exploding {
            return 6;
        }
        match self.kind {
            Some(BlockKind::Blue) => 0,
            Some(BlockKind::Yellow) => 1,
            Some(BlockKind::Green) => 2,
            Some(BlockKind::Red) => 3,
            Some(BlockKind::Cyan) => 4,
            Some(BlockKind::Magenta) => 5,
            None => -1,
        }
    }

    /// Gives the block another colour, or none; the flag stays.
    pub fn update(&mut self, kind: Option<BlockKind>)
        ensures
            final(self).kind == kind,
            final(self).exploding == old(self).exploding,
    {
        self.kind = kind;
    }

    /// Whether the cell holds no block.
    pub fn empty(&self) -> (e: bool)
        ensures
            e == self.is_empty(),
    {
        self.kind.is_none()
    }
}

impl Default for Block {
    /// The empty cell.
    fn default() -> (block: Self)
        ensures
            block.is_empty(),
            !block.exploding,
    {
        Self { kind: None, exploding: false }
    }
}

impl PartialEq for Block {
    /// Two blocks are equal when their colours are; the flag does not count.
    fn eq(&self, other: &Self) -> (equal: bool) {
        match (self.kind, other.kind) {
            (Some(a), Some(b)) => a == b,
            (None, None) => true,
            _ => false,
        }
    }
}

impl PartialEqSpecImpl for Block {
    open spec fn obeys_eq_spec() -> bool {
        true
    }

    open spec fn eq_spec(&self, other: &Self) -> bool {
        self.kind == other.kind
    }
}

} // verus!
