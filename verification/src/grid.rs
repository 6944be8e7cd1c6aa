//! The mathematical model of the playfield: a grid of blocks in column-major
//! order, positions in it, and the straight runs of equal colour that the
//! matching engine looks for.

use crate::block::{Block, BlockKind};
use crate::pit::CardinalAxis;
use crate::Vec2;
use vstd::prelude::*;

verus! {

/// A position as the contracts see it: column `x`, row `y`, rows growing
/// downwards. Unlike a `Vec2` it may lie outside every grid.
pub struct Pos {
    pub x: int,
    pub y: int,
}

impl View for Vec2 {
    type V = Pos;

    open spec fn view(&self) -> Pos {
        Pos { x: self.x as int, y: self.y as int }
    }
}

/// The positions that a list of coordinates names, in the same order.
pub open spec fn positions(s: Seq<Vec2>) -> Seq<Pos> {
    Seq::new(s.len(), |i: int| s[i]@)
}

/// One step along a line of the grid: the change of column and of row.
pub struct Step {
    pub dx: int,
    pub dy: int,
}

impl Step {
    /// A step that leaves its starting point.
    pub open spec fn moves(self) -> bool {
        self.dx != 0 || self.dy != 0
    }

    /// The step back.
    pub open spec fn reversed(self) -> Step {
        Step { dx: -self.dx, dy: -self.dy }
    }
}

impl Pos {
    /// The position one step further.
    pub open spec fn after(self, d: Step) -> Pos {
        Pos { x: self.x + d.dx, y: self.y + d.dy }
    }

    /// The position `n` steps further.
    pub open spec fn far(self, d: Step, n: int) -> Pos {
        Pos { x: self.x + n * d.dx, y: self.y + n * d.dy }
    }
}

/// The playfield as a value: `g[x][y]` is the block in column `x`, row `y`.
pub type Grid = Seq<Seq<Block>>;

/// The grid that an array of columns holds.
pub open spec fn grid_view<const R: usize, const C: usize>(heap: [[Block; R]; C]) -> Grid {
    Seq::new(C as nat, |x: int| heap[x]@)
}

/// Whether the position names a cell of the grid.
pub open spec fn in_grid(g: Grid, p: Pos) -> bool {
    0 <= p.x < g.len() && 0 <= p.y < g[p.x].len()
}

/// Whether every position of the list names a cell of the grid.
pub open spec fn all_in_grid(g: Grid, s: Seq<Pos>) -> bool {
    forall|i: int| 0 <= i < s.len() ==> in_grid(g, #[trigger] s[i])
}

/// The colour at a position: none for an empty cell and none outside the
/// grid, so that a run ends at the border as it does at another colour.
pub open spec fn kind_at(g: Grid, p: Pos) -> Option<BlockKind> {
    if in_grid(g, p) {
        g[p.x][p.y].kind
    } else {
        None
    }
}

/// Two grids have the same shape: as many columns, each as long.
pub open spec fn same_shape(a: Grid, b: Grid) -> bool {
    a.len() == b.len() && forall|x: int| 0 <= x < a.len() ==> (#[trigger] a[x]).len() == b[x].len()
}

/// The grid with the block `b` in the cell `p`.
pub open spec fn put(g: Grid, p: Pos, b: Block) -> Grid {
    g.update(p.x, g[p.x].update(p.y, b))
}

/// The grid with every listed cell emptied and its flag taken down.
pub open spec fn cleared(g: Grid, cells: Seq<Pos>) -> Grid
    decreases cells.len(),
{
    if cells.len() == 0 {
        g
    } else {
        put(cleared(g, cells.drop_last()), cells.last(), Block { kind: None, exploding: false })
    }
}

/// The grid with the flag of every listed cell set to `flag`.
pub open spec fn flagged(g: Grid, cells: Seq<Pos>, flag: bool) -> Grid
    decreases cells.len(),
{
    if cells.len() == 0 {
        g
    } else {
        let before = flagged(g, cells.drop_last(), flag);
        let p = cells.last();
        put(before, p, Block { kind: before[p.x][p.y].kind, exploding: flag })
    }
}

/// A position is the last of a list or one of those before it.
pub proof fn lemma_contains_last(cells: Seq<Pos>, p: Pos)
    requires
        cells.len() > 0,
    ensures
        cells.contains(p) <==> p == cells.last() || cells.drop_last().contains(p),
{
    let front = cells.drop_last();
    if cells.contains(p) {
        let i = choose|i: int| 0 <= i < cells.len() && cells[i] == p;
        if i < front.len() {
            assert(front[i] == p);
        }
    }
    if front.contains(p) {
        let i = choose|i: int| 0 <= i < front.len() && front[i] == p;
        assert(cells[i] == p);
    }
    if p == cells.last() {
        assert(cells[cells.len() - 1] == p);
    }
}

/// What clearing does, cell by cell: the listed cells are empty and dark,
/// and every other cell is as it was.
pub proof fn lemma_cleared(g: Grid, cells: Seq<Pos>)
    requires
        all_in_grid(g, cells),
    ensures
        same_shape(g, cleared(g, cells)),
        forall|x: int, y: int|
            in_grid(g, Pos { x, y }) ==> #[trigger] cleared(g, cells)[x][y] == if cells.contains(
                Pos { x, y },
            ) {
                Block { kind: None, exploding: false }
            } else {
                g[x][y]
            },
    decreases cells.len(),
{
    if cells.len() > 0 {
        let front = cells.drop_last();
        let last = cells.last();
        assert forall|i: int| 0 <= i < front.len() implies in_grid(g, #[trigger] front[i]) by {
            assert(front[i] == cells[i]);
        }
        assert(in_grid(g, cells[cells.len() - 1]));
        lemma_cleared(g, front);
        assert forall|x: int, y: int| in_grid(g, Pos { x, y }) implies #[trigger] cleared(
            g,
            cells,
        )[x][y] == if cells.contains(Pos { x, y }) {
            Block { kind: None, exploding: false }
        } else {
            g[x][y]
        } by {
            lemma_contains_last(cells, Pos { x, y });
        }
    } else {
        assert forall|x: int, y: int| !cells.contains(Pos { x, y }) by {}
    }
}

/// What setting flags does, cell by cell: the listed cells have the flag,
/// every other cell has the flag it had, and no cell changes its colour.
pub proof fn lemma_flagged(g: Grid, cells: Seq<Pos>, flag: bool)
    requires
        all_in_grid(g, cells),
    ensures
        same_shape(g, flagged(g, cells, flag)),
        forall|p: Pos| #[trigger] kind_at(flagged(g, cells, flag), p) == kind_at(g, p),
        forall|x: int, y: int|
            in_grid(g, Pos { x, y }) ==> #[trigger] flagged(g, cells, flag)[x][y] == (Block {
                kind: g[x][y].kind,
                exploding: if cells.contains(Pos { x, y }) {
                    flag
                } else {
                    g[x][y].exploding
                },
            }),
    decreases cells.len(),
{
    if cells.len() > 0 {
        let front = cells.drop_last();
        let last = cells.last();
        assert forall|i: int| 0 <= i < front.len() implies in_grid(g, #[trigger] front[i]) by {
            assert(front[i] == cells[i]);
        }
        assert(in_grid(g, cells[cells.len() - 1]));
        lemma_flagged(g, front, flag);
        let before = flagged(g, front, flag);
        assert(in_grid(before, last));
        assert forall|p: Pos| #[trigger] kind_at(flagged(g, cells, flag), p) == kind_at(g, p) by {
            assert(kind_at(before, p) == kind_at(g, p));
        }
        assert forall|x: int, y: int| in_grid(g, Pos { x, y }) implies #[trigger] flagged(
            g,
            cells,
            flag,
        )[x][y] == (Block {
            kind: g[x][y].kind,
            exploding: if cells.contains(Pos { x, y }) {
                flag
            } else {
                g[x][y].exploding
            },
        }) by {
            lemma_contains_last(cells, Pos { x, y });
        }
    } else {
        assert forall|x: int, y: int| !cells.contains(Pos { x, y }) by {}
    }
}

/// How far a walk from `p` in direction `d` can go before it leaves the
/// grid; it bounds the length of every ray.
pub open spec fn room(g: Grid, p: Pos, d: Step) -> int {
    if d.dx > 0 {
        g.len() - p.x
    } else if d.dx < 0 {
        p.x + 1
    } else if d.dy > 0 {
        (if 0 <= p.x < g.len() {
            g[p.x].len() as int
        } else {
            0
        }) - p.y
    } else {
        p.y + 1
    }
}

/// The cells of colour `k` that follow `p` without a gap in direction `d`,
/// nearest first. `p` itself is not among them.
pub open spec fn ray(g: Grid, k: BlockKind, p: Pos, d: Step) -> Seq<Pos>
    decreases room(g, p, d),
{
    if d.moves() && kind_at(g, p.after(d)) == Some(k) {
        seq![p.after(d)] + ray(g, k, p.after(d), d)
    } else {
        Seq::empty()
    }
}

impl CardinalAxis {
    /// The direction in which an axis is searched first: north, west,
    /// north-east, north-west. `Default` is no axis and goes nowhere.
    pub open spec fn ahead(self) -> Step {
        match self {
            CardinalAxis::Default => Step { dx: 0, dy: 0 },
            CardinalAxis::NxS => Step { dx: 0, dy: -1 },
            CardinalAxis::ExW => Step { dx: -1, dy: 0 },
            CardinalAxis::NExSW => Step { dx: 1, dy: -1 },
            CardinalAxis::NWxSE => Step { dx: -1, dy: -1 },
        }
    }

    /// The direction in which it is searched second: south, east,
    /// south-west, south-east.
    pub open spec fn behind(self) -> Step {
        self.ahead().reversed()
    }
}

/// The neighbours of `p` on one axis that continue its colour `k`: those
/// ahead, nearest first, then those behind, nearest first.
pub open spec fn axis_run(g: Grid, k: BlockKind, p: Pos, axis: CardinalAxis) -> Seq<Pos> {
    ray(g, k, p, axis.ahead()) + ray(g, k, p, axis.behind())
}

/// An axis qualifies when the seed has two neighbours or more on it, that
/// is, when the run through the seed is three cells long or longer.
pub open spec fn qualifies(g: Grid, k: BlockKind, p: Pos, axis: CardinalAxis) -> bool {
    axis_run(g, k, p, axis).len() >= 2
}

/// What one axis contributes to a match: its run if it qualifies, else
/// nothing.
pub open spec fn axis_matches(g: Grid, k: BlockKind, p: Pos, axis: CardinalAxis) -> Seq<Pos> {
    if qualifies(g, k, p, axis) {
        axis_run(g, k, p, axis)
    } else {
        Seq::empty()
    }
}

/// What the four axes through `p` contribute, in the order north-south,
/// east-west, north-east to south-west, north-west to south-east.
pub open spec fn axes_matches(g: Grid, k: BlockKind, p: Pos) -> Seq<Pos> {
    axis_matches(g, k, p, CardinalAxis::NxS) + axis_matches(g, k, p, CardinalAxis::ExW)
        + axis_matches(g, k, p, CardinalAxis::NExSW) + axis_matches(g, k, p, CardinalAxis::NWxSE)
}

/// The match found from one seed: nothing for an empty seed; else the cells
/// of every qualifying axis and, if there are any, the seed itself at the
/// end.
pub open spec fn matches_around(g: Grid, p: Pos) -> Seq<Pos> {
    match kind_at(g, p) {
        None => Seq::empty(),
        Some(k) => {
            let found = axes_matches(g, k, p);
            if found.len() > 0 {
                found.push(p)
            } else {
                found
            }
        },
    }
}

/// The matches of all seeds one after another, duplicates included.
pub open spec fn all_matches(g: Grid, seeds: Seq<Pos>) -> Seq<Pos>
    decreases seeds.len(),
{
    if seeds.len() == 0 {
        Seq::empty()
    } else {
        all_matches(g, seeds.drop_last()) + matches_around(g, seeds.last())
    }
}

/// The list without its repetitions: of each position the first occurrence
/// stays, in its place.
pub open spec fn distinct(s: Seq<Pos>) -> Seq<Pos>
    decreases s.len(),
{
    if s.len() == 0 {
        Seq::empty()
    } else {
        let head = distinct(s.drop_last());
        if head.contains(s.last()) {
            head
        } else {
            head.push(s.last())
        }
    }
}

/// What the matching engine returns for a grid and a list of seeds: every
/// cell of a qualifying run through a seed, each once, in the order in
/// which the search meets them.
pub open spec fn matched(g: Grid, seeds: Seq<Pos>) -> Seq<Pos> {
    distinct(all_matches(g, seeds))
}

} // verus!
