//! Gravity: which blocks lose their support when cells are cleared, how a
//! pass over the falling blocks lets each fall one row, and why repeated
//! passes come to rest.

use crate::block::Block;
use crate::grid::{all_in_grid, in_grid, kind_at, positions, put, same_shape, Grid, Pos};
use crate::Vec2;
use vstd::prelude::*;

verus! {

/// The position one row further down.
pub open spec fn below(p: Pos) -> Pos {
    Pos { x: p.x, y: p.y + 1 }
}

/// The position one row further up.
pub open spec fn above(p: Pos) -> Pos {
    Pos { x: p.x, y: p.y - 1 }
}

/// The blocks that stand on the cell `p`: the cells above it that are not
/// empty, up to the first empty one or the top, nearest first.
pub open spec fn stack_above(g: Grid, p: Pos) -> Seq<Pos>
    decreases p.y,
{
    if kind_at(g, above(p)) is Some {
        seq![above(p)] + stack_above(g, above(p))
    } else {
        Seq::empty()
    }
}

/// The shape of a stack: its cells are those one, two, three rows above
/// `p` and so on without a gap, each holds a block, and the cell above the
/// last is empty or beyond the top.
pub proof fn lemma_stack_shape(g: Grid, p: Pos)
    ensures
        forall|i: int|
            0 <= i < stack_above(g, p).len() ==> #[trigger] stack_above(g, p)[i] == (Pos {
                x: p.x,
                y: p.y - 1 - i,
            }),
        forall|i: int|
            0 <= i < stack_above(g, p).len() ==> kind_at(g, #[trigger] stack_above(g, p)[i]) is Some,
        kind_at(g, Pos { x: p.x, y: p.y - 1 - stack_above(g, p).len() }) is None,
    decreases p.y,
{
    if kind_at(g, above(p)) is Some {
        let rest = stack_above(g, above(p));
        let here = stack_above(g, p);
        lemma_stack_shape(g, above(p));
        assert forall|i: int| 0 <= i < here.len() implies #[trigger] here[i] == (Pos {
            x: p.x,
            y: p.y - 1 - i,
        }) && kind_at(g, here[i]) is Some by {
            if i > 0 {
                assert(here[i] == rest[i - 1]);
            }
        }
    }
}

/// The blocks left without support by clearing the given cells: the stack
/// above each of them, in the order of the cells.
pub open spec fn unsupported(g: Grid, cleared: Seq<Pos>) -> Seq<Pos>
    decreases cleared.len(),
{
    if cleared.len() == 0 {
        Seq::empty()
    } else {
        unsupported(g, cleared.drop_last()) + stack_above(g, cleared.last())
    }
}

/// The rows of the list never grow: the lowest cells of the grid come first.
pub open spec fn lowest_first(s: Seq<Pos>) -> bool {
    forall|i: int, j: int| 0 <= i < j < s.len() ==> s[i].y >= s[j].y
}

/// The two lists hold the same positions, each as often as the other.
pub open spec fn same_positions(a: Seq<Pos>, b: Seq<Pos>) -> bool {
    a.to_multiset() == b.to_multiset()
}

/// Two lists of coordinates that hold the same coordinates equally often
/// name the same positions equally often.
pub proof fn lemma_same_positions(a: Seq<Vec2>, b: Seq<Vec2>)
    requires
        a.to_multiset() == b.to_multiset(),
    ensures
        same_positions(positions(a), positions(b)),
    decreases a.len(),
{
    broadcast use vstd::multiset::group_multiset_axioms;

    vstd::seq_lib::to_multiset_len(a);
    vstd::seq_lib::to_multiset_len(b);
    if a.len() == 0 {
        assert(positions(a) =~= positions(b));
    } else {
        let x = a.last();
        let front = a.drop_last();
        assert(a =~= front.push(x));
        vstd::seq_lib::to_multiset_build(front, x);
        vstd::seq_lib::to_multiset_contains(a, x);
        vstd::seq_lib::to_multiset_contains(b, x);
        assert(a[a.len() - 1] == x);
        let j = choose|j: int| 0 <= j < b.len() && b[j] == x;
        let rest = b.remove(j);
        vstd::seq_lib::to_multiset_remove(b, j);
        assert(front.to_multiset() =~= a.to_multiset().remove(x));
        lemma_same_positions(front, rest);
        assert(positions(a) =~= positions(front).push(x@));
        vstd::seq_lib::to_multiset_build(positions(front), x@);
        assert(positions(rest) =~= positions(b).remove(j));
        vstd::seq_lib::to_multiset_remove(positions(b), j);
        vstd::seq_lib::to_multiset_contains(positions(b), x@);
        assert(positions(b)[j] == x@);
        assert(positions(b).to_multiset() =~= positions(rest).to_multiset().insert(x@));
    }
}

/// A falling position can fall when it is not in the bottom row and the
/// cell below it is empty.
pub open spec fn can_fall(g: Grid, p: Pos) -> bool {
    in_grid(g, p) && p.y + 1 < g[p.x].len() && g[p.x][p.y + 1].is_empty()
}

/// The grid after the block at `p` has fallen one row: the cell below holds
/// the block as it was, and the cell `p` has lost its colour.
pub open spec fn fallen(g: Grid, p: Pos) -> Grid {
    let block = g[p.x][p.y];
    put(put(g, p, Block { kind: None, exploding: block.exploding }), below(p), block)
}

/// The outcome of a pass of gravity: the grid, the falling positions, and
/// whether any of them moved.
pub struct Fall {
    pub grid: Grid,
    pub falling: Seq<Pos>,
    pub moved: bool,
}

/// One pass of gravity: the falling positions are taken in order, and each
/// that can fall in the grid as the earlier ones left it falls one row.
pub open spec fn fall_once(g: Grid, falling: Seq<Pos>) -> Fall
    decreases falling.len(),
{
    if falling.len() == 0 {
        Fall { grid: g, falling: Seq::empty(), moved: false }
    } else {
        let before = fall_once(g, falling.drop_last());
        let p = falling.last();
        if can_fall(before.grid, p) {
            Fall {
                grid: fallen(before.grid, p),
                falling: before.falling.push(below(p)),
                moved: true,
            }
        } else {
            Fall { grid: before.grid, falling: before.falling.push(p), moved: before.moved }
        }
    }
}

/// The outcome of the last of `n` passes of gravity, each made on what the
/// one before left. Of no passes at all the outcome is the grid and the
/// positions as they are, with nothing moved.
pub open spec fn fall_times(g: Grid, falling: Seq<Pos>, n: nat) -> Fall
    decreases n,
{
    if n == 0 {
        Fall { grid: g, falling, moved: false }
    } else if n == 1 {
        fall_once(g, falling)
    } else {
        let first = fall_once(g, falling);
        fall_times(first.grid, first.falling, (n - 1) as nat)
    }
}

/// The rows that the falling positions could still fall if nothing were in
/// their way: for each the distance to the bottom row.
pub open spec fn slack(g: Grid, falling: Seq<Pos>) -> int
    decreases falling.len(),
{
    if falling.len() == 0 {
        0
    } else {
        let p = falling.last();
        slack(g, falling.drop_last()) + (g[p.x].len() - 1 - p.y)
    }
}

/// Slack depends on the shape of the grid only, and is never negative for
/// positions in the grid.
pub proof fn lemma_slack_shape(a: Grid, b: Grid, falling: Seq<Pos>)
    requires
        same_shape(a, b),
        all_in_grid(a, falling),
    ensures
        slack(a, falling) == slack(b, falling),
        slack(a, falling) >= 0,
    decreases falling.len(),
{
    if falling.len() > 0 {
        let front = falling.drop_last();
        assert forall|i: int| 0 <= i < front.len() implies in_grid(a, #[trigger] front[i]) by {
            assert(front[i] == falling[i]);
        }
        lemma_slack_shape(a, b, front);
        assert(in_grid(a, falling[falling.len() - 1]));
    }
}

/// What one pass does: it keeps the shape of the grid and the number of
/// falling positions, leaves them in the grid, takes at least one row of
/// slack where it moved anything, and changes nothing where it did not.
pub proof fn lemma_fall_once(g: Grid, falling: Seq<Pos>)
    requires
        all_in_grid(g, falling),
    ensures
        same_shape(g, fall_once(g, falling).grid),
        fall_once(g, falling).falling.len() == falling.len(),
        all_in_grid(fall_once(g, falling).grid, fall_once(g, falling).falling),
        fall_once(g, falling).moved ==> slack(g, fall_once(g, falling).falling) < slack(
            g,
            falling,
        ),
        !fall_once(g, falling).moved ==> fall_once(g, falling).grid == g && fall_once(
            g,
            falling,
        ).falling == falling,
        slack(g, fall_once(g, falling).falling) <= slack(g, falling),
    decreases falling.len(),
{
    if falling.len() == 0 {
        assert(falling =~= Seq::<Pos>::empty());
    } else {
        let front = falling.drop_last();
        let p = falling.last();
        assert forall|i: int| 0 <= i < front.len() implies in_grid(g, #[trigger] front[i]) by {
            assert(front[i] == falling[i]);
        }
        assert(in_grid(g, falling[falling.len() - 1]));
        lemma_fall_once(g, front);
        let before = fall_once(g, front);
        let after = fall_once(g, falling);
        assert(after.falling.drop_last() =~= before.falling);
        assert forall|i: int| 0 <= i < after.falling.len() implies in_grid(
            after.grid,
            #[trigger] after.falling[i],
        ) by {
            if i < before.falling.len() {
                assert(in_grid(before.grid, before.falling[i]));
            }
        }
        if !after.moved {
            assert(after.falling =~= falling);
        }
    }
}

/// A pass moves nothing exactly when none of the positions can fall: each
/// is in the bottom row or has a block below it.
pub proof fn lemma_rest_is_support(g: Grid, falling: Seq<Pos>)
    requires
        all_in_grid(g, falling),
    ensures
        !fall_once(g, falling).moved <==> forall|i: int|
            0 <= i < falling.len() ==> !can_fall(g, #[trigger] falling[i]),
    decreases falling.len(),
{
    if falling.len() > 0 {
        let front = falling.drop_last();
        assert forall|i: int| 0 <= i < front.len() implies in_grid(g, #[trigger] front[i]) by {
            assert(front[i] == falling[i]);
        }
        lemma_rest_is_support(g, front);
        lemma_fall_once(g, front);
        if !fall_once(g, falling).moved {
            assert forall|i: int| 0 <= i < falling.len() implies !can_fall(
                g,
                #[trigger] falling[i],
            ) by {
                if i < front.len() {
                    assert(front[i] == falling[i]);
                }
            }
        }
        if forall|i: int| 0 <= i < falling.len() ==> !can_fall(g, #[trigger] falling[i]) {
            assert forall|i: int| 0 <= i < front.len() implies !can_fall(g, #[trigger] front[i]) by {
                assert(front[i] == falling[i]);
            }
            assert(!can_fall(g, falling[falling.len() - 1]));
        }
    }
}

/// Passes after a pass that moved nothing move nothing and change nothing.
pub proof fn lemma_rest_stays(g: Grid, falling: Seq<Pos>, n: nat)
    requires
        all_in_grid(g, falling),
        !fall_once(g, falling).moved,
    ensures
        fall_times(g, falling, n).grid == g,
        fall_times(g, falling, n).falling == falling,
        !fall_times(g, falling, n).moved,
    decreases n,
{
    lemma_fall_once(g, falling);
    if n > 1 {
        lemma_rest_stays(g, falling, (n - 1) as nat);
    }
}

/// Gravity comes to rest. From any grid and any positions in it there is a
/// number `n`, no larger than the slack, such that each of the first `n`
/// passes moves something, and every later pass moves nothing and leaves
/// grid and positions as the first `n` left them.
pub proof fn lemma_falling_settles(g: Grid, falling: Seq<Pos>) -> (n: nat)
    requires
        all_in_grid(g, falling),
    ensures
        n <= slack(g, falling),
        forall|m: nat| 1 <= m <= n ==> (#[trigger] fall_times(g, falling, m)).moved,
        forall|m: nat|
            m > n ==> {
                &&& !(#[trigger] fall_times(g, falling, m)).moved
                &&& fall_times(g, falling, m).grid == fall_times(g, falling, n).grid
                &&& fall_times(g, falling, m).falling == fall_times(g, falling, n).falling
            },
    decreases slack(g, falling),
{
    let first = fall_once(g, falling);
    lemma_fall_once(g, falling);
    lemma_slack_shape(g, first.grid, falling);
    if !first.moved {
        assert forall|m: nat| m > 0 implies {
            &&& !(#[trigger] fall_times(g, falling, m)).moved
            &&& fall_times(g, falling, m).grid == fall_times(g, falling, 0).grid
            &&& fall_times(g, falling, m).falling == fall_times(g, falling, 0).falling
        } by {
            lemma_rest_stays(g, falling, m);
        }
        0
    } else {
        lemma_slack_shape(g, first.grid, first.falling);
        let rest = lemma_falling_settles(first.grid, first.falling);
        let n = rest + 1;
        assert forall|m: nat| 1 <= m <= n implies (#[trigger] fall_times(g, falling, m)).moved by {
            if m > 1 {
                assert(fall_times(first.grid, first.falling, (m - 1) as nat).moved);
            }
        }
        assert forall|m: nat| m > n implies {
            &&& !(#[trigger] fall_times(g, falling, m)).moved
            &&& fall_times(g, falling, m).grid == fall_times(g, falling, n).grid
            &&& fall_times(g, falling, m).falling == fall_times(g, falling, n).falling
        } by {
            let later = fall_times(first.grid, first.falling, (m - 1) as nat);
            assert(!later.moved);
            assert(later.grid == fall_times(first.grid, first.falling, rest).grid);
        }
        n
    }
}

} // verus!
