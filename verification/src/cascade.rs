//! Why every cascade ends: clearing takes blocks away, gravity and blinking
//! leave their number alone, and between two clearings the pit can only
//! take so many steps.

use crate::block::Block;
use crate::column::ColumnView;
use crate::gravity::{
    below, can_fall, fall_once, fallen, lemma_fall_once, lemma_slack_shape, slack,
};
use crate::grid::{
    all_in_grid, cleared, flagged, in_grid, kind_at, put, same_shape, Grid, Pos,
};
use crate::pit::{PitStage, PitView};
use vstd::prelude::*;

verus! {

/// What a cell counts for: one if it holds a block, nothing if it is empty.
pub open spec fn weight(b: Block) -> nat {
    if b.is_empty() {
        0
    } else {
        1
    }
}

/// The number of blocks in the first `n` cells of a column.
pub open spec fn column_blocks(column: Seq<Block>, n: nat) -> nat
    decreases n,
{
    if n == 0 {
        0
    } else {
        column_blocks(column, (n - 1) as nat) + weight(column[n - 1])
    }
}

/// The number of blocks in the first `n` columns of a grid.
pub open spec fn grid_blocks(g: Grid, n: nat) -> nat
    decreases n,
{
    if n == 0 {
        0
    } else {
        grid_blocks(g, (n - 1) as nat) + column_blocks(g[n - 1], g[n - 1].len())
    }
}

/// The number of blocks in a grid.
pub open spec fn blocks(g: Grid) -> nat {
    grid_blocks(g, g.len())
}

/// Replacing one cell of a column changes the count by the difference of
/// the weights, if the cell is among those counted.
pub proof fn lemma_column_put(column: Seq<Block>, y: int, b: Block, n: nat)
    requires
        0 <= y < column.len(),
        n <= column.len(),
    ensures
        column_blocks(column.update(y, b), n) == column_blocks(column, n) + if y < n {
            weight(b) - weight(column[y])
        } else {
            0
        },
    decreases n,
{
    if n > 0 {
        lemma_column_put(column, y, b, (n - 1) as nat);
    }
}

/// Replacing one cell of a grid changes the count by the difference of the
/// weights, if the cell is in one of the columns counted.
pub proof fn lemma_grid_put(g: Grid, p: Pos, b: Block, n: nat)
    requires
        in_grid(g, p),
        n <= g.len(),
    ensures
        grid_blocks(put(g, p, b), n) == grid_blocks(g, n) + if p.x < n {
            weight(b) - weight(g[p.x][p.y])
        } else {
            0
        },
    decreases n,
{
    if n > 0 {
        lemma_grid_put(g, p, b, (n - 1) as nat);
        if p.x == n - 1 {
            lemma_column_put(g[p.x], p.y, b, g[p.x].len());
        }
    }
}

/// Writing a block into a cell keeps the shape of the grid and changes the
/// number of blocks by what the new block weighs more than the old.
pub proof fn lemma_put(g: Grid, p: Pos, b: Block)
    requires
        in_grid(g, p),
    ensures
        same_shape(g, put(g, p, b)),
        blocks(put(g, p, b)) == blocks(g) + weight(b) - weight(g[p.x][p.y]),
{
    lemma_grid_put(g, p, b, g.len());
}

/// A block that falls is still there.
pub proof fn lemma_fallen_blocks(g: Grid, p: Pos)
    requires
        can_fall(g, p),
    ensures
        blocks(fallen(g, p)) == blocks(g),
{
    let block = g[p.x][p.y];
    let left = Block { kind: None, exploding: block.exploding };
    let emptied = put(g, p, left);
    lemma_put(g, p, left);
    lemma_put(emptied, below(p), block);
}

/// A pass of gravity keeps the number of blocks.
pub proof fn lemma_fall_once_blocks(g: Grid, falling: Seq<Pos>)
    requires
        all_in_grid(g, falling),
    ensures
        blocks(fall_once(g, falling).grid) == blocks(g),
    decreases falling.len(),
{
    if falling.len() > 0 {
        let front = falling.drop_last();
        assert forall|i: int| 0 <= i < front.len() implies in_grid(g, #[trigger] front[i]) by {
            assert(front[i] == falling[i]);
        }
        lemma_fall_once_blocks(g, front);
        let before = fall_once(g, front);
        if can_fall(before.grid, falling.last()) {
            lemma_fallen_blocks(before.grid, falling.last());
        }
    }
}

/// Blinking keeps the number of blocks.
pub proof fn lemma_flagged_blocks(g: Grid, cells: Seq<Pos>, flag: bool)
    requires
        all_in_grid(g, cells),
    ensures
        same_shape(g, flagged(g, cells, flag)),
        blocks(flagged(g, cells, flag)) == blocks(g),
    decreases cells.len(),
{
    if cells.len() > 0 {
        let front = cells.drop_last();
        let last = cells.last();
        assert forall|i: int| 0 <= i < front.len() implies in_grid(g, #[trigger] front[i]) by {
            assert(front[i] == cells[i]);
        }
        assert(in_grid(g, cells[cells.len() - 1]));
        lemma_flagged_blocks(g, front, flag);
        let before = flagged(g, front, flag);
        lemma_put(before, last, Block { kind: before[last.x][last.y].kind, exploding: flag });
    }
}

/// Clearing never adds a block, and takes at least one away where the
/// first of the cells holds one.
pub proof fn lemma_cleared_blocks(g: Grid, cells: Seq<Pos>)
    requires
        all_in_grid(g, cells),
    ensures
        same_shape(g, cleared(g, cells)),
        blocks(cleared(g, cells)) <= blocks(g),
        cells.len() > 0 && kind_at(g, cells[0]) is Some ==> blocks(cleared(g, cells)) < blocks(g),
    decreases cells.len(),
{
    if cells.len() > 0 {
        let front = cells.drop_last();
        let last = cells.last();
        assert forall|i: int| 0 <= i < front.len() implies in_grid(g, #[trigger] front[i]) by {
            assert(front[i] == cells[i]);
        }
        assert(in_grid(g, cells[cells.len() - 1]));
        lemma_cleared_blocks(g, front);
        if front.len() > 0 {
            assert(front[0] == cells[0]);
        }
        lemma_put(cleared(g, front), last, Block { kind: None, exploding: false });
    }
}

/// How far a stage is from the end of its round: falling comes before
/// matching, matching before collecting, and collecting ends the round.
pub open spec fn phase(p: PitView) -> nat {
    match p.stage {
        PitStage::Stable => 0,
        PitStage::Collecting => 1,
        PitStage::Matching => 2,
        PitStage::Dropping => 3,
    }
}

/// How many steps of its own a stage can still take: the blinks that are
/// left while collecting, the rows that are left to fall while dropping.
pub open spec fn leeway(p: PitView) -> int {
    match p.stage {
        PitStage::Collecting => 3 - p.blinks,
        PitStage::Dropping => slack(p.heap, p.active),
        _ => 0,
    }
}

/// A step of a cascade brings the end nearer, provided that it lasts as
/// long as the interval of the pit's clock: it takes blocks away, or it
/// keeps them and moves on to a later stage, or it stays in its stage and
/// uses up leeway.
pub proof fn lemma_step_descends(p: PitView, piece: ColumnView, elapsed: nat, next: PitView)
    requires
        p.valid(),
        p.stage != PitStage::Stable,
        p.timer.interval_millis * 1_000_000 <= elapsed,
        p.steps_to(piece, elapsed, next),
    ensures
        blocks(next.heap) <= blocks(p.heap),
        blocks(next.heap) == blocks(p.heap) ==> phase(next) <= phase(p),
        blocks(next.heap) == blocks(p.heap) && phase(next) == phase(p) ==> 0 <= leeway(next)
            < leeway(p),
{
    assert(p.timer.advanced(elapsed).ready);
    match p.stage {
        PitStage::Stable => {},
        PitStage::Matching => {},
        PitStage::Collecting => {
            if p.blinks == 3 {
                assert(kind_at(p.heap, p.active[0]) is Some);
                lemma_cleared_blocks(p.heap, p.active);
            } else {
                lemma_flagged_blocks(p.heap, p.active, (p.blinks + 1) % 2 != 0);
            }
        },
        PitStage::Dropping => {
            let fall = fall_once(p.heap, p.active);
            lemma_fall_once(p.heap, p.active);
            lemma_fall_once_blocks(p.heap, p.active);
            assert forall|i: int| 0 <= i < fall.falling.len() implies in_grid(
                p.heap,
                #[trigger] fall.falling[i],
            ) by {
                assert(in_grid(fall.grid, fall.falling[i]));
            }
            lemma_slack_shape(p.heap, fall.grid, fall.falling);
        },
    }
}

/// A run of the pit: states without end, each valid and each leading to the
/// next by a step of `elapsed` nanoseconds, which is no less than the
/// interval of the pit's clock.
pub open spec fn is_run(
    states: spec_fn(nat) -> PitView,
    pieces: spec_fn(nat) -> ColumnView,
    elapsed: nat,
) -> bool {
    forall|i: nat|
        {
            &&& (#[trigger] states(i)).valid()
            &&& states(i).timer.interval_millis * 1_000_000 <= elapsed
            &&& states(i).steps_to(pieces(i), elapsed, states((i + 1) as nat))
        }
}

/// Every cascade ends: in a run of the pit, from any state on, a stable
/// state follows.
pub proof fn lemma_cascade_ends(
    states: spec_fn(nat) -> PitView,
    pieces: spec_fn(nat) -> ColumnView,
    elapsed: nat,
    i: nat,
) -> (j: nat)
    requires
        is_run(states, pieces, elapsed),
    ensures
        i <= j,
        states(j).stage == PitStage::Stable,
    decreases blocks(states(i).heap), phase(states(i)), leeway(states(i)),
{
    let p = states(i);
    let next = states((i + 1) as nat);
    assert(p.valid());
    assert(next.valid());
    if p.stage == PitStage::Stable {
        i
    } else {
        lemma_step_descends(p, pieces(i), elapsed, next);
        lemma_cascade_ends(states, pieces, elapsed, (i + 1) as nat)
    }
}

} // verus!
