//! The pit: the settled playfield with the engine that finds matches in it,
//! clears them and lets the blocks above fall.

use crate::block::{Block, BlockKind};
use crate::column::{Column, ColumnView};
use crate::frame::{Drawable, Frame};
use crate::grid::{
    all_in_grid, all_matches, axes_matches, axis_matches, axis_run, cleared, distinct, flagged,
    grid_view, in_grid, kind_at, lemma_flagged, matched, matches_around, positions, put, ray,
    room, Grid, Pos, Step,
};
use crate::gravity::{
    above, below, can_fall, fall_once, fallen, lemma_fall_once, lemma_same_positions,
    lowest_first, same_positions, stack_above, unsupported,
};
use crate::matching::{
    found_from, lemma_distinct, lemma_matched_sound, lemma_matches_around_sound, no_repeats,
};
use crate::order::sort_lowest_first;
use crate::timer::{nanos, Timer, TimerView};
use crate::{Vec2, NUM_COLS, NUM_ROWS};
use std::time::Duration;
use vstd::prelude::*;

verus! {

/// The settled playfield: `NUM_COLS` columns of `NUM_ROWS` blocks each.
pub type Heap = [[Block; NUM_ROWS]; NUM_COLS];

/// The four axes along which blocks can line up, with `Default` as the
/// place before the first. A value of this type is a cursor: `next` moves it
/// on to the following axis and hands that axis out.
#[derive(Debug)]
pub enum CardinalAxis {
    Default,
    NxS,
    ExW,
    NExSW,
    NWxSE,
}

impl Default for CardinalAxis {
    /// The cursor before the first axis.
    fn default() -> (axis: Self)
        ensures
            axis == CardinalAxis::Default,
    {
        CardinalAxis::Default
    }
}

impl CardinalAxis {
    /// The axis that follows: north-south, east-west, north-east to
    /// south-west, north-west to south-east, and none after the last.
    pub open spec fn successor(self) -> Option<CardinalAxis> {
        match self {
            CardinalAxis::Default => Some(CardinalAxis::NxS),
            CardinalAxis::NxS => Some(CardinalAxis::ExW),
            CardinalAxis::ExW => Some(CardinalAxis::NExSW),
            CardinalAxis::NExSW => Some(CardinalAxis::NWxSE),
            CardinalAxis::NWxSE => None,
        }
    }

    /// How many axes follow.
    pub open spec fn remaining(self) -> nat {
        match self {
            CardinalAxis::Default => 4,
            CardinalAxis::NxS => 3,
            CardinalAxis::ExW => 2,
            CardinalAxis::NExSW => 1,
            CardinalAxis::NWxSE => 0,
        }
    }

    /// Moves the cursor to the following axis and returns it; at the last
    /// axis the cursor stays and nothing is returned.
    pub fn next(&mut self) -> (axis: Option<CardinalAxis>)
        ensures
            axis == old(self).successor(),
            *final(self) == match old(self).successor() {
                Some(following) => following,
                None => *old(self),
            },
    {
        match *self {
            CardinalAxis::Default => {
                *self = CardinalAxis::NxS;
                Some(CardinalAxis::NxS)
            },
            CardinalAxis::NxS => {
                *self = CardinalAxis::ExW;
                Some(CardinalAxis::ExW)
            },
            CardinalAxis::ExW => {
                *self = CardinalAxis::NExSW;
                Some(CardinalAxis::NExSW)
            },
            CardinalAxis::NExSW => {
                *self = CardinalAxis::NWxSE;
                Some(CardinalAxis::NWxSE)
            },
            CardinalAxis::NWxSE => None,
        }
    }

    /// The step, as a pair of column and row change, in which the axis is
    /// searched first.
    fn heading(&self) -> (d: (i8, i8))
        ensures
            (Step { dx: d.0 as int, dy: d.1 as int }) == self.ahead(),
    {
        match self {
            CardinalAxis::Default => (0, 0),
            CardinalAxis::NxS => (0, -1),
            CardinalAxis::ExW => (-1, 0),
            CardinalAxis::NExSW => (1, -1),
            CardinalAxis::NWxSE => (-1, -1),
        }
    }
}

/// The matches that the axes up to and including the cursor contribute.
pub open spec fn matches_through(g: Grid, k: BlockKind, p: Pos, cursor: CardinalAxis) -> Seq<Pos> {
    match cursor {
        CardinalAxis::Default => Seq::empty(),
        CardinalAxis::NxS => axis_matches(g, k, p, CardinalAxis::NxS),
        CardinalAxis::ExW => axis_matches(g, k, p, CardinalAxis::NxS) + axis_matches(
            g,
            k,
            p,
            CardinalAxis::ExW,
        ),
        CardinalAxis::NExSW => axis_matches(g, k, p, CardinalAxis::NxS) + axis_matches(
            g,
            k,
            p,
            CardinalAxis::ExW,
        ) + axis_matches(g, k, p, CardinalAxis::NExSW),
        CardinalAxis::NWxSE => axes_matches(g, k, p),
    }
}

/// The stages of a cascade.
#[derive(Debug, Clone, Copy, PartialEq, Eq, Structural)]
pub enum PitStage {
    Stable,
    Matching,
    Collecting,
    Dropping,
}

/// Where a cascade stands: its stage, the clock that paces it, and how often
/// the matched blocks have blinked.
pub struct PitState {
    stage: PitStage,
    move_timer: Timer,
    times: u8,
}

/// Appends to `found` the cells that continue the colour of `seed` from
/// `origin` in one direction, nearest first.
fn scan<const R: usize, const C: usize>(
    heap: &[[Block; R]; C],
    origin: Vec2,
    seed: Block,
    dx: i8,
    dy: i8,
    found: &mut Vec<Vec2>,
)
    requires
        origin.x < C,
        origin.y < R,
        -1 <= dx <= 1,
        -1 <= dy <= 1,
        seed.kind is Some,
    ensures
        positions(final(found)@) == positions(old(found)@) + ray(
            grid_view(*heap),
            seed.kind->0,
            origin@,
            Step { dx: dx as int, dy: dy as int },
        ),
{
    let ghost g = grid_view(*heap);
    let ghost k = seed.kind->0;
    let ghost d = Step { dx: dx as int, dy: dy as int };
    let ghost target = positions(found@) + ray(g, k, origin@, d);
    let mut at = origin;
    if dx == 0 && dy == 0 {
        assert(positions(found@) + Seq::<Pos>::empty() =~= positions(found@));
        return ;
    }
    loop
        invariant
            at.x < C,
            at.y < R,
            d.moves(),
            g == grid_view(*heap),
            k == seed.kind->0,
            seed.kind is Some,
            d == (Step { dx: dx as int, dy: dy as int }),
            -1 <= dx <= 1,
            -1 <= dy <= 1,
            positions(found@) + ray(g, k, at@, d) == target,
        ensures
            positions(found@) == target,
        decreases room(g, at@, d),
    {
        if (dx < 0 && at.x == 0) || (dx > 0 && at.x >= C - 1) || (dy < 0 && at.y == 0) || (dy > 0
            && at.y >= R - 1) {
            assert(ray(g, k, at@, d) =~= Seq::<Pos>::empty());
            assert(positions(found@) + Seq::<Pos>::empty() =~= positions(found@));
            break ;
        }
        let x: usize = if dx < 0 {
            at.x - 1
        } else if dx > 0 {
            at.x + 1
        } else {
            at.x
        };
        let y: usize = if dy < 0 {
            at.y - 1
        } else if dy > 0 {
            at.y + 1
        } else {
            at.y
        };
        let next = Vec2::xy(x, y);
        assert(next@ == at@.after(d));
        assert(kind_at(g, next@) == heap[x as int][y as int].kind);
        if heap[x][y] != seed {
            assert(ray(g, k, at@, d) =~= Seq::<Pos>::empty());
            assert(positions(found@) + Seq::<Pos>::empty() =~= positions(found@));
            break ;
        }
        proof {
            assert(ray(g, k, at@, d) == seq![next@] + ray(g, k, next@, d));
            assert(positions(found@.push(next)) =~= positions(found@).push(next@));
            assert(positions(found@).push(next@) + ray(g, k, next@, d) =~= positions(found@) + (
            seq![next@] + ray(g, k, next@, d)));
        }
        found.push(next);
        at = next;
    }
}

impl Default for PitState {
    /// The state before any piece has landed: stable, the clock started,
    /// no blink counted.
    fn default() -> (state: Self)
        ensures
            state.stage() == PitStage::Stable,
            state.clock() == TimerView::fresh(PitState::MOVE_MILLIS as nat),
            state.blinks() == 0,
    {
        Self { stage: PitStage::Stable, move_timer: Timer::from_millis(Self::MOVE_MILLIS), times: 0 }
    }
}

impl PitState {
    /// The interval, in milliseconds, of one step of a cascade.
    pub const MOVE_MILLIS: u64 = 1000;

    /// The stage the cascade is in.
    pub closed spec fn stage(&self) -> PitStage {
        self.stage
    }

    /// The clock that paces the cascade.
    pub closed spec fn clock(&self) -> TimerView {
        self.move_timer@
    }

    /// How often the matched blocks have blinked.
    pub closed spec fn blinks(&self) -> nat {
        self.times as nat
    }

    /// The state before any piece has landed: stable, the clock started,
    /// no blink counted.
    pub fn new() -> (state: Self)
        ensures
            state.stage() == PitStage::Stable,
            state.clock() == TimerView::fresh(PitState::MOVE_MILLIS as nat),
            state.blinks() == 0,
    {
        Self::default()
    }

    /// One pass of gravity over the listed positions, in their order: each
    /// that is above the bottom row with an empty cell below it falls one
    /// row, block and position together, into the grid as the earlier ones
    /// left it. Returns whether anything fell.
    pub fn update_dropping_at<const R: usize, const C: usize>(
        &self,
        heap: &mut [[Block; R]; C],
        origins: &mut [Vec2],
    ) -> (something_dropped: bool)
        requires
            forall|i: int|
                0 <= i < old(origins)@.len() ==> old(origins)@[i].x < C && old(origins)@[i].y < R,
        ensures
            grid_view(*final(heap)) == fall_once(
                grid_view(*old(heap)),
                positions(old(origins)@),
            ).grid,
            positions(final(origins)@) == fall_once(
                grid_view(*old(heap)),
                positions(old(origins)@),
            ).falling,
            something_dropped == fall_once(grid_view(*old(heap)), positions(old(origins)@)).moved,
            final(origins)@.len() == old(origins)@.len(),
            forall|i: int|
                0 <= i < final(origins)@.len() ==> final(origins)@[i].x < C
                    && final(origins)@[i].y < R,
            !something_dropped ==> *final(heap) == *old(heap) && final(origins)@ == old(origins)@,
    {
        let ghost g = grid_view(*heap);
        let ghost start = positions(origins@);
        let ghost first = origins@;
        let mut something_dropped = false;
        let mut i: usize = 0;
        assert(start.take(0) =~= Seq::<Pos>::empty());
        assert(positions(origins@).take(0) =~= Seq::<Pos>::empty());
        while i < origins.len()
            invariant
                i <= origins@.len(),
                origins@.len() == first.len(),
                start == positions(first),
                forall|n: int| 0 <= n < origins@.len() ==> origins@[n].x < C && origins@[n].y < R,
                forall|n: int| i <= n < origins@.len() ==> origins@[n] == first[n],
                grid_view(*heap) == fall_once(g, start.take(i as int)).grid,
                positions(origins@).take(i as int) == fall_once(g, start.take(i as int)).falling,
                something_dropped == fall_once(g, start.take(i as int)).moved,
                !something_dropped ==> *heap == *old(heap) && origins@ == first,
            decreases origins@.len() - i,
        {
            let origin = origins[i];
            let ghost before = fall_once(g, start.take(i as int));
            let ghost held = positions(origins@);
            proof {
                assert(start.take(i + 1).drop_last() =~= start.take(i as int));
                assert(start.take(i + 1).last() == origin@);
            }
            if origin.y < R - 1 && heap[origin.x][origin.y + 1].empty() {
                let new_item = heap[origin.x][origin.y];
                let ghost emptied = put(
                    before.grid,
                    origin@,
                    Block { kind: None, exploding: new_item.exploding },
                );
                heap[origin.x][origin.y].update(None);
                assert(grid_view(*heap) =~~= emptied);
                let moved = Vec2::xy(origin.x, origin.y + 1);
                origins[i] = moved;
                heap[moved.x][moved.y] = new_item;
                something_dropped = true;
                proof {
                    assert(moved@ == below(origin@));
                    assert(grid_view(*heap) =~~= fallen(before.grid, origin@));
                    assert(positions(origins@).take(i + 1) =~= held.take(i as int).push(moved@));
                }
            } else {
                proof {
                    assert(!can_fall(before.grid, origin@));
                    assert(positions(origins@).take(i + 1) =~= held.take(i as int).push(origin@));
                }
            }
            i += 1;
        }
        proof {
            assert(start.take(origins@.len() as int) =~= start);
            assert(positions(origins@).take(origins@.len() as int) =~= positions(origins@));
        }
        something_dropped
    }

    /// The blocks left hanging when the listed cells have been cleared: for
    /// each cell the blocks stacked directly on it, up to the first empty
    /// cell. The lowest rows come first; among blocks of one row the order
    /// is not fixed.
    pub fn collect_dropping_at<const R: usize, const C: usize>(
        &self,
        heap: &[[Block; R]; C],
        origins: &[Vec2],
    ) -> (items: Vec<Vec2>)
        requires
            forall|i: int| 0 <= i < origins@.len() ==> origins@[i].x < C && origins@[i].y < R,
        ensures
            same_positions(
                positions(items@),
                unsupported(grid_view(*heap), positions(origins@)),
            ),
            lowest_first(positions(items@)),
            items@.len() == unsupported(grid_view(*heap), positions(origins@)).len(),
            forall|j: int|
                0 <= j < items@.len() ==> (#[trigger] items@[j]).x < C && items@[j].y < R,
    {
        let ghost g = grid_view(*heap);
        let ghost cells = positions(origins@);
        let mut items: Vec<Vec2> = Vec::new();
        let mut i: usize = 0;
        assert(positions(items@) =~= Seq::<Pos>::empty());
        assert(cells.take(0) =~= Seq::<Pos>::empty());
        while i < origins.len()
            invariant
                i <= origins@.len(),
                g == grid_view(*heap),
                cells == positions(origins@),
                forall|n: int| 0 <= n < origins@.len() ==> origins@[n].x < C && origins@[n].y < R,
                positions(items@) == unsupported(g, cells.take(i as int)),
                forall|j: int|
                    0 <= j < items@.len() ==> (#[trigger] items@[j]).x < C && items@[j].y < R,
            decreases origins@.len() - i,
        {
            let origin = origins[i];
            let ghost before = positions(items@);
            let mut y: usize = origin.y;
            proof {
                assert(cells.take(i + 1).drop_last() =~= cells.take(i as int));
                assert(cells.take(i + 1).last() == origin@);
            }
            while y > 0
                invariant
                    origin.x < C,
                    y <= origin.y < R,
                    g == grid_view(*heap),
                    positions(items@) + stack_above(g, Pos { x: origin.x as int, y: y as int })
                        == before + stack_above(g, origin@),
                    forall|j: int|
                        0 <= j < items@.len() ==> (#[trigger] items@[j]).x < C && items@[j].y < R,
                ensures
                    positions(items@) == before + stack_above(g, origin@),
                    forall|j: int|
                        0 <= j < items@.len() ==> (#[trigger] items@[j]).x < C && items@[j].y < R,
                decreases y,
            {
                let ghost here = Pos { x: origin.x as int, y: y as int };
                let up = Vec2::xy(origin.x, y - 1);
                assert(up@ == above(here));
                assert(kind_at(g, up@) == heap[origin.x as int][y - 1].kind);
                if heap[origin.x][y - 1].empty() {
                    assert(stack_above(g, here) =~= Seq::<Pos>::empty());
                    assert(positions(items@) + Seq::<Pos>::empty() =~= positions(items@));
                    break ;
                }
                proof {
                    assert(positions(items@.push(up)) =~= positions(items@).push(up@));
                    assert(positions(items@).push(up@) + stack_above(g, up@) =~= positions(items@)
                        + (seq![up@] + stack_above(g, up@)));
                }
                items.push(up);
                y -= 1;
            }
            proof {
                if y == 0 {
                    let here = Pos { x: origin.x as int, y: 0 };
                    assert(kind_at(g, above(here)) is None);
                    assert(stack_above(g, here) =~= Seq::<Pos>::empty());
                    assert(positions(items@) + Seq::<Pos>::empty() =~= positions(items@));
                }
            }
            i += 1;
        }
        let ghost unsorted = items@;
        proof {
            assert(cells.take(origins@.len() as int) =~= cells);
        }
        sort_lowest_first(&mut items);
        proof {
            lemma_same_positions(items@, unsorted);
            vstd::seq_lib::to_multiset_len(items@);
            vstd::seq_lib::to_multiset_len(unsorted);
            assert forall|j: int| 0 <= j < items@.len() implies (#[trigger] items@[j]).x < C
                && items@[j].y < R by {
                vstd::seq_lib::to_multiset_contains(items@, items@[j]);
                vstd::seq_lib::to_multiset_contains(unsorted, items@[j]);
                assert(items@.contains(items@[j]));
                let n = choose|n: int| 0 <= n < unsorted.len() && unsorted[n] == items@[j];
                assert(unsorted[n].x < C);
            }
            assert(lowest_first(positions(items@)));
        }
        items
    }

    /// The matching engine: every cell of a run of three or more of one
    /// colour through one of the seeds, the seeds on such runs included,
    /// each cell once, in the order in which the seeds and their axes are
    /// searched. Empty seeds find nothing.
    pub fn collect_matching_at<const R: usize, const C: usize>(
        &self,
        heap: &[[Block; R]; C],
        origins: &[Vec2],
    ) -> (items: Vec<Vec2>)
        requires
            forall|i: int| 0 <= i < origins@.len() ==> origins@[i].x < C && origins@[i].y < R,
        ensures
            positions(items@) == matched(grid_view(*heap), positions(origins@)),
            no_repeats(positions(items@)),
            forall|j: int|
                0 <= j < items@.len() ==> (#[trigger] items@[j]).x < C && items@[j].y < R
                    && !heap[items@[j].x as int][items@[j].y as int].is_empty(),
            forall|j: int|
                0 <= j < items@.len() ==> exists|i: int|
                    0 <= i < origins@.len() && found_from(
                        grid_view(*heap),
                        #[trigger] origins@[i]@,
                        #[trigger] items@[j]@,
                    ),
    {
        let ghost g = grid_view(*heap);
        let ghost seeds = positions(origins@);
        let mut items: Vec<Vec2> = Vec::new();
        let mut cache = [[false; R]; C];
        let mut i: usize = 0;
        assert(positions(items@) =~= Seq::<Pos>::empty());
        assert(seeds.take(0) =~= Seq::<Pos>::empty());
        while i < origins.len()
            invariant
                i <= origins@.len(),
                g == grid_view(*heap),
                seeds == positions(origins@),
                forall|n: int| 0 <= n < origins@.len() ==> origins@[n].x < C && origins@[n].y < R,
                positions(items@) == distinct(all_matches(g, seeds.take(i as int))),
                forall|x: int, y: int|
                    0 <= x < C && 0 <= y < R ==> (#[trigger] cache[x][y] <==> positions(
                        items@,
                    ).contains(Pos { x, y })),
            decreases origins@.len() - i,
        {
            let found = self.matching_at(heap, &origins[i]);
            let ghost before = all_matches(g, seeds.take(i as int));
            let ghost around = positions(found@);
            proof {
                assert(seeds.take(i + 1).drop_last() =~= seeds.take(i as int));
                assert(seeds.take(i + 1).last() == origins@[i as int]@);
                assert(all_matches(g, seeds.take(i + 1)) == before + around);
                assert(before + around.take(0) =~= before);
            }
            let mut j: usize = 0;
            while j < found.len()
                invariant
                    j <= found@.len(),
                    i < origins@.len(),
                    g == grid_view(*heap),
                    around == positions(found@),
                    around == matches_around(g, origins@[i as int]@),
                    positions(items@) == distinct(before + around.take(j as int)),
                    forall|x: int, y: int|
                        0 <= x < C && 0 <= y < R ==> (#[trigger] cache[x][y] <==> positions(
                            items@,
                        ).contains(Pos { x, y })),
                decreases found@.len() - j,
            {
                let item = found[j];
                let ghost sofar = before + around.take(j as int);
                proof {
                    assert(around.contains(around[j as int]));
                    lemma_matches_around_sound(g, origins@[i as int]@, item@);
                    assert(in_grid(g, item@));
                    let longer = before + around.take(j + 1);
                    assert(longer.drop_last() =~= sofar);
                    assert(longer.last() == item@);
                }
                if !cache[item.x][item.y] {
                    let ghost held = positions(items@);
                    cache[item.x][item.y] = true;
                    items.push(item);
                    proof {
                        assert(positions(items@) =~= held.push(item@));
                        assert forall|x: int, y: int| 0 <= x < C && 0 <= y < R implies (
                        #[trigger] cache[x][y] <==> positions(items@).contains(Pos { x, y })) by {
                            let q = Pos { x, y };
                            if q == item@ {
                                assert(positions(items@)[held.len() as int] == q);
                            } else {
                                if held.contains(q) {
                                    let n = choose|n: int| 0 <= n < held.len() && held[n] == q;
                                    assert(positions(items@)[n] == q);
                                }
                                if positions(items@).contains(q) {
                                    let n = choose|n: int|
                                        0 <= n < positions(items@).len() && positions(
                                            items@,
                                        )[n] == q;
                                    assert(held[n] == q);
                                }
                            }
                        }
                    }
                }
                j += 1;
            }
            proof {
                assert(around.take(found@.len() as int) =~= around);
            }
            i += 1;
        }
        proof {
            assert(seeds.take(origins@.len() as int) =~= seeds);
            lemma_distinct(all_matches(g, seeds));
            assert forall|j: int| 0 <= j < items@.len() implies (#[trigger] items@[j]).x < C
                && items@[j].y < R && !heap[items@[j].x as int][items@[j].y as int].is_empty() by {
                assert(positions(items@)[j] == items@[j]@);
                assert(matched(g, seeds).contains(items@[j]@));
                let i = lemma_matched_sound(g, seeds, items@[j]@);
                assert(kind_at(g, items@[j]@) == heap[items@[j].x as int][items@[j].y as int].kind);
            }
            assert forall|j: int| 0 <= j < items@.len() implies exists|i: int|
                0 <= i < origins@.len() && found_from(
                    g,
                    #[trigger] origins@[i]@,
                    #[trigger] items@[j]@,
                ) by {
                assert(positions(items@)[j] == items@[j]@);
                assert(matched(g, seeds).contains(items@[j]@));
                let i = lemma_matched_sound(g, seeds, items@[j]@);
                assert(seeds[i] == origins@[i]@);
                assert(found_from(g, origins@[i]@, items@[j]@));
            }
        }
        items
    }

    /// The match found from one seed: the cells of every run of three or
    /// more of the seed's colour that passes through it, axis by axis, and
    /// the seed itself last; nothing for an empty seed or without such a run.
    pub fn matching_at<const R: usize, const C: usize>(
        &self,
        heap: &[[Block; R]; C],
        origin: &Vec2,
    ) -> (items: Vec<Vec2>)
        requires
            origin.x < C,
            origin.y < R,
        ensures
            positions(items@) == matches_around(grid_view(*heap), origin@),
    {
        let mut items: Vec<Vec2> = Vec::new();
        let origin_item = heap[origin.x][origin.y];
        let ghost g = grid_view(*heap);
        assert(kind_at(g, origin@) == origin_item.kind);
        if origin_item.empty() {
            assert(positions(items@) =~= Seq::<Pos>::empty());
            return items;
        }
        let ghost k = origin_item.kind->0;
        let mut cardinal_axis = CardinalAxis::default();
        assert(positions(items@) =~= Seq::<Pos>::empty());
        loop
            invariant
                origin.x < C,
                origin.y < R,
                g == grid_view(*heap),
                origin_item.kind == Some(k),
                positions(items@) == matches_through(g, k, origin@, cardinal_axis),
            ensures
                positions(items@) == axes_matches(g, k, origin@),
            decreases cardinal_axis.remaining(),
        {
            let ghost before = positions(items@);
            match cardinal_axis.next() {
                None => {
                    break ;
                },
                Some(axis) => {
                    let mut matches: Vec<Vec2> = Vec::new();
                    let (dx, dy) = axis.heading();
                    assert(positions(matches@) =~= Seq::<Pos>::empty());
                    scan(heap, *origin, origin_item, dx, dy, &mut matches);
                    scan(heap, *origin, origin_item, -dx, -dy, &mut matches);
                    assert(positions(matches@) =~= axis_run(g, k, origin@, axis));
                    if matches.len() >= 2 {
                        assert(positions(items@ + matches@) =~= positions(items@) + positions(
                            matches@,
                        ));
                        items.append(&mut matches);
                    } else {
                        assert(before + Seq::<Pos>::empty() =~= before);
                    }
                    assert(positions(items@) == before + axis_matches(g, k, origin@, axis));
                },
            }
        }
        if !items.is_empty() {
            assert(positions(items@.push(*origin)) =~= positions(items@).push(origin@));
            items.push(*origin);
        }
        items
    }
}

/// The pit: the playfield, the state of the cascade, and the positions the
/// cascade is working on. What the positions are depends on the stage: the
/// cells a piece has just landed in, the matched cells while they blink, or
/// the blocks that are falling.
pub struct Pit {
    heap: Heap,
    state: PitState,
    active_origins: Vec<Vec2>,
}

/// What a pit is.
pub struct PitView {
    pub heap: Grid,
    pub stage: PitStage,
    pub timer: TimerView,
    pub blinks: nat,
    pub active: Seq<Pos>,
}

impl View for Pit {
    type V = PitView;

    closed spec fn view(&self) -> PitView {
        PitView {
            heap: grid_view(self.heap),
            stage: self.state.stage,
            timer: self.state.move_timer@,
            blinks: self.state.times as nat,
            active: positions(self.active_origins@),
        }
    }
}

impl PitView {
    /// The invariant of the pit: the grid has its size, the positions being
    /// worked on lie in it, there are none exactly when the pit is stable,
    /// blinks are counted, up to three, only while collecting, and what
    /// blinks is a block.
    pub open spec fn valid(self) -> bool {
        &&& self.heap.len() == NUM_COLS
        &&& forall|x: int| 0 <= x < NUM_COLS ==> (#[trigger] self.heap[x]).len() == NUM_ROWS
        &&& self.timer.valid()
        &&& all_in_grid(self.heap, self.active)
        &&& (self.stage == PitStage::Stable <==> self.active.len() == 0)
        &&& self.blinks <= 3
        &&& (self.stage != PitStage::Collecting ==> self.blinks == 0)
        &&& (self.stage == PitStage::Collecting ==> forall|i: int|
            0 <= i < self.active.len() ==> kind_at(self.heap, #[trigger] self.active[i]) is Some)
    }

    /// The pit before any piece has landed: an empty grid, stable, its
    /// clock started.
    pub open spec fn fresh() -> PitView {
        PitView {
            heap: Seq::new(
                NUM_COLS as nat,
                |x: int| Seq::new(NUM_ROWS as nat, |y: int| Block { kind: None, exploding: false }),
            ),
            stage: PitStage::Stable,
            timer: TimerView::fresh(PitState::MOVE_MILLIS as nat),
            blinks: 0,
            active: Seq::empty(),
        }
    }

    /// A step of a stable pit. Its clock advances. When the clock has run
    /// out the piece is asked to land: if it does, its blocks are in the
    /// grid, its cells are the positions to match, and matching is next;
    /// if it does not, the clock starts over.
    pub open spec fn stable_step(self, piece: ColumnView, elapsed: nat) -> (PitView, ColumnView) {
        let timer = self.timer.advanced(elapsed);
        if !timer.ready {
            (PitView { timer, ..self }, piece)
        } else if piece.lands(self.heap, elapsed) {
            (
                PitView {
                    heap: piece.settled_in(self.heap),
                    stage: PitStage::Matching,
                    timer,
                    active: piece.cells(),
                    ..self
                },
                piece.grounded(),
            )
        } else {
            (PitView { timer: TimerView::fresh(self.timer.interval_millis), ..self }, piece)
        }
    }

    /// A step of a matching pit: the matching engine runs with the
    /// positions as seeds. What it finds is collected next; if it finds
    /// nothing the pit is stable again.
    pub open spec fn matching_step(self) -> PitView {
        let found = matched(self.heap, self.active);
        PitView {
            stage: if found.len() == 0 {
                PitStage::Stable
            } else {
                PitStage::Collecting
            },
            active: found,
            ..self
        }
    }

    /// A step of a collecting pit that has not blinked three times yet. Its
    /// clock advances; when it has run out it starts over, the count goes
    /// up, and the matched blocks are lit after an odd number of blinks and
    /// dark after an even number.
    pub open spec fn blink_step(self, elapsed: nat) -> PitView {
        let timer = self.timer.advanced(elapsed);
        if timer.ready {
            PitView {
                heap: flagged(self.heap, self.active, (self.blinks + 1) % 2 != 0),
                timer: TimerView::fresh(self.timer.interval_millis),
                blinks: self.blinks + 1,
                ..self
            }
        } else {
            PitView { timer, ..self }
        }
    }

    /// A step of a collecting pit after the third blink leads to `next`:
    /// the matched cells are cleared, the count starts over, and the blocks
    /// that stood on cleared cells are the positions from now on, lowest
    /// rows first. They fall next; if there are none the pit is stable.
    pub open spec fn clears_to(self, next: PitView) -> bool {
        &&& next.heap == cleared(self.heap, self.active)
        &&& same_positions(next.active, unsupported(next.heap, self.active))
        &&& lowest_first(next.active)
        &&& next.stage == if next.active.len() == 0 {
            PitStage::Stable
        } else {
            PitStage::Dropping
        }
        &&& next.blinks == 0
        &&& next.timer == self.timer
    }

    /// A step of a dropping pit. Its clock advances; when it has run out it
    /// starts over and gravity makes one pass over the positions. When
    /// nothing moved, the blocks have come to rest and are matched next.
    pub open spec fn dropping_step(self, elapsed: nat) -> PitView {
        let timer = self.timer.advanced(elapsed);
        if timer.ready {
            let fall = fall_once(self.heap, self.active);
            PitView {
                heap: fall.grid,
                stage: if fall.moved {
                    PitStage::Dropping
                } else {
                    PitStage::Matching
                },
                timer: TimerView::fresh(self.timer.interval_millis),
                active: fall.falling,
                ..self
            }
        } else {
            PitView { timer, ..self }
        }
    }

    /// The piece after a step of the pit: only a stable pit touches it.
    pub open spec fn piece_after(self, piece: ColumnView, elapsed: nat) -> ColumnView {
        if self.stage == PitStage::Stable {
            self.stable_step(piece, elapsed).1
        } else {
            piece
        }
    }

    /// A step of the pit, `elapsed` nanoseconds after the last one, leads to
    /// `next`: the step of the stage the pit is in.
    pub open spec fn steps_to(self, piece: ColumnView, elapsed: nat, next: PitView) -> bool {
        match self.stage {
            PitStage::Stable => next == self.stable_step(piece, elapsed).0,
            PitStage::Matching => next == self.matching_step(),
            PitStage::Collecting => if self.blinks == 3 {
                self.clears_to(next)
            } else {
                next == self.blink_step(elapsed)
            },
            PitStage::Dropping => next == self.dropping_step(elapsed),
        }
    }

    /// Whether the top row holds a block.
    pub open spec fn top_row_taken(self) -> bool {
        exists|x: int| 0 <= x < NUM_COLS && !(#[trigger] self.heap[x])[0].is_empty()
    }
}

/// Coordinates within the bounds of a heap name cells of its grid.
pub proof fn lemma_bounds_in_grid<const R: usize, const C: usize>(
    heap: [[Block; R]; C],
    items: Seq<Vec2>,
)
    requires
        forall|i: int| 0 <= i < items.len() ==> (#[trigger] items[i]).x < C && items[i].y < R,
    ensures
        all_in_grid(grid_view(heap), positions(items)),
        grid_view(heap).len() == C,
        forall|x: int| 0 <= x < C ==> (#[trigger] grid_view(heap)[x]).len() == R,
{
    assert forall|i: int| 0 <= i < positions(items).len() implies in_grid(
        grid_view(heap),
        #[trigger] positions(items)[i],
    ) by {
        assert(items[i].x < C);
    }
}

impl Default for Pit {
    /// The pit before any piece has landed.
    fn default() -> (pit: Self)
        ensures
            pit@ == PitView::fresh(),
    {
        let heap: Heap = Self::new_heap(None);
        let active_origins: Vec<Vec2> = Vec::new();
        let state = PitState::new();
        proof {
            assert(grid_view(heap) =~~= PitView::fresh().heap);
            assert(positions(active_origins@) =~= Seq::<Pos>::empty());
        }
        Self { heap, active_origins, state }
    }
}

/// A list with the same coordinates in the same order.
fn copy_of(items: &[Vec2]) -> (copy: Vec<Vec2>)
    ensures
        copy@ == items@,
{
    let mut copy: Vec<Vec2> = Vec::new();
    let mut i: usize = 0;
    while i < items.len()
        invariant
            i <= items@.len(),
            copy@ == items@.take(i as int),
        decreases items@.len() - i,
    {
        copy.push(items[i]);
        assert(items@.take(i + 1) =~= items@.take(i as int).push(items@[i as int]));
        i += 1;
    }
    assert(items@.take(items@.len() as int) =~= items@);
    copy
}

impl Pit {
    #[verifier::type_invariant]
    spec fn in_order(self) -> bool {
        self@.valid()
    }

    /// The pit before any piece has landed.
    pub fn new() -> (pit: Self)
        ensures
            pit@ == PitView::fresh(),
    {
        Self::default()
    }

    /// A grid of `C` columns and `R` rows in which every cell holds a block
    /// of the given colour, or is empty where none is given.
    pub fn new_heap<const R: usize, const C: usize>(block_kind: Option<BlockKind>) -> (heap: [[Block;
        R]; C])
        ensures
            forall|x: int, y: int|
                0 <= x < C && 0 <= y < R ==> #[trigger] heap[x][y] == (Block {
                    kind: block_kind,
                    exploding: false,
                }),
    {
        let column: [Block; R] = [Block::new(block_kind);R];
        [column;C]
    }

    /// One step of the pit, `delta` after the last one.
    ///
    /// A stable pit waits for its clock and then asks the piece to land. A
    /// landing starts a cascade, which goes on step by step: the landed
    /// blocks are matched; the matches blink three times and are cleared;
    /// the blocks above them fall, one row for each time the clock runs
    /// out, and are matched in their turn, until nothing matches and the
    /// pit is stable again. Only a stable pit touches the piece.
    pub fn update(&mut self, column: &mut Column, delta: Duration)
        ensures
            old(self)@.valid(),
            final(self)@.valid(),
            old(self)@.steps_to(old(column)@, nanos(delta), final(self)@),
            final(column)@ == old(self)@.piece_after(old(column)@, nanos(delta)),
    {
        proof {
            use_type_invariant(&*self);
        }
        let ghost before = self@;
        proof {
            assert forall|i: int| 0 <= i < self.active_origins@.len() implies (
            #[trigger] self.active_origins@[i]).x < NUM_COLS && self.active_origins@[i].y
                < NUM_ROWS by {
                assert(in_grid(before.heap, before.active[i]));
            }
        }
        let mut heap = self.heap;
        let mut move_timer = self.state.move_timer;
        let times = self.state.times;
        match self.state.stage {
            PitStage::Stable => {
                move_timer.update(delta);
                if !move_timer.is_ready() {
                    self.state.move_timer = move_timer;
                } else {
                    match column.detect_landing(&mut heap, delta) {
                        Some(origins) => {
                            proof {
                                lemma_bounds_in_grid(heap, origins@);
                            }
                            *self = Pit {
                                heap,
                                state: PitState { stage: PitStage::Matching, move_timer, times },
                                active_origins: origins,
                            };
                        },
                        None => {
                            move_timer.reset();
                            self.state.move_timer = move_timer;
                        },
                    }
                }
            },
            PitStage::Matching => {
                let found = self.state.collect_matching_at(&heap, self.active_origins.as_slice());
                let stage = if found.is_empty() {
                    PitStage::Stable
                } else {
                    PitStage::Collecting
                };
                proof {
                    assert forall|i: int| 0 <= i < positions(found@).len() implies kind_at(
                        grid_view(heap),
                        #[trigger] positions(found@)[i],
                    ) is Some by {
                        assert(found@[i].x < NUM_COLS);
                    }
                }
                *self = Pit {
                    heap,
                    state: PitState { stage, move_timer, times },
                    active_origins: found,
                };
            },
            PitStage::Collecting => {
                if times == 3 {
                    let mut i: usize = 0;
                    assert(before.active.take(0) =~= Seq::<Pos>::empty());
                    while i < self.active_origins.len()
                        invariant
                            i <= self.active_origins@.len(),
                            before.active == positions(self.active_origins@),
                            forall|n: int|
                                0 <= n < self.active_origins@.len() ==> (
                                #[trigger] self.active_origins@[n]).x < NUM_COLS
                                    && self.active_origins@[n].y < NUM_ROWS,
                            grid_view(heap) == cleared(before.heap, before.active.take(i as int)),
                        decreases self.active_origins@.len() - i,
                    {
                        let item = self.active_origins[i];
                        let ghost held = grid_view(heap);
                        heap[item.x][item.y].exploding = false;
                        heap[item.x][item.y].update(None);
                        proof {
                            assert(before.active.take(i + 1).drop_last() =~= before.active.take(
                                i as int,
                            ));
                            assert(before.active.take(i + 1).last() == item@);
                            assert(grid_view(heap) =~~= put(
                                held,
                                item@,
                                Block { kind: None, exploding: false },
                            ));
                        }
                        i += 1;
                    }
                    proof {
                        assert(before.active.take(self.active_origins@.len() as int)
                            =~= before.active);
                    }
                    let hanging = self.state.collect_dropping_at(
                        &heap,
                        self.active_origins.as_slice(),
                    );
                    let stage = if hanging.is_empty() {
                        PitStage::Stable
                    } else {
                        PitStage::Dropping
                    };
                    proof {
                        lemma_bounds_in_grid(heap, hanging@);
                    }
                    *self = Pit {
                        heap,
                        state: PitState { stage, move_timer, times: 0 },
                        active_origins: hanging,
                    };
                } else {
                    move_timer.update(delta);
                    if !move_timer.is_ready() {
                        self.state.move_timer = move_timer;
                    } else {
                        move_timer.reset();
                        let exploding = (times + 1) % 2 != 0;
                        let mut i: usize = 0;
                        assert(before.active.take(0) =~= Seq::<Pos>::empty());
                        while i < self.active_origins.len()
                            invariant
                                i <= self.active_origins@.len(),
                                before.active == positions(self.active_origins@),
                                forall|n: int|
                                    0 <= n < self.active_origins@.len() ==> (
                                    #[trigger] self.active_origins@[n]).x < NUM_COLS
                                        && self.active_origins@[n].y < NUM_ROWS,
                                grid_view(heap) == flagged(
                                    before.heap,
                                    before.active.take(i as int),
                                    exploding,
                                ),
                            decreases self.active_origins@.len() - i,
                        {
                            let item = self.active_origins[i];
                            let ghost held = grid_view(heap);
                            heap[item.x][item.y].exploding = exploding;
                            proof {
                                assert(before.active.take(i + 1).drop_last()
                                    =~= before.active.take(i as int));
                                assert(before.active.take(i + 1).last() == item@);
                                assert(grid_view(heap) =~~= put(
                                    held,
                                    item@,
                                    Block { kind: held[item@.x][item@.y].kind, exploding },
                                ));
                            }
                            i += 1;
                        }
                        proof {
                            assert(before.active.take(self.active_origins@.len() as int)
                                =~= before.active);
                            lemma_flagged(before.heap, before.active, exploding);
                        }
                        self.heap = heap;
                        self.state.move_timer = move_timer;
                        self.state.times = times + 1;
                    }
                }
            },
            PitStage::Dropping => {
                move_timer.update(delta);
                if !move_timer.is_ready() {
                    self.state.move_timer = move_timer;
                } else {
                    move_timer.reset();
                    let mut origins = copy_of(self.active_origins.as_slice());
                    proof {
                        lemma_fall_once(before.heap, before.active);
                    }
                    let something_dropped = self.state.update_dropping_at(
                        &mut heap,
                        origins.as_mut_slice(),
                    );
                    let stage = if something_dropped {
                        PitStage::Dropping
                    } else {
                        PitStage::Matching
                    };
                    proof {
                        lemma_bounds_in_grid(heap, origins@);
                    }
                    *self = Pit {
                        heap,
                        state: PitState { stage, move_timer, times },
                        active_origins: origins,
                    };
                }
            },
        }
    }

    /// The playfield.
    pub fn heap(&self) -> (heap: &Heap)
        ensures
            grid_view(*heap) == self@.heap,
    {
        &self.heap
    }

    /// The stage of the cascade.
    pub fn stage(&self) -> (stage: PitStage)
        ensures
            stage == self@.stage,
    {
        self.state.stage
    }

    /// How often the matched blocks have blinked.
    pub fn blink_count(&self) -> (blinks: u8)
        ensures
            blinks == self@.blinks,
    {
        self.state.times
    }

    /// The positions the cascade is working on: cells of the grid, and none
    /// exactly when the pit is stable.
    pub fn active_origins(&self) -> (origins: &[Vec2])
        ensures
            self@.valid(),
            positions(origins@) == self@.active,
            origins@.len() == 0 <==> self@.stage == PitStage::Stable,
            forall|i: int|
                0 <= i < origins@.len() ==> (#[trigger] origins@[i]).x < NUM_COLS && origins@[i].y
                    < NUM_ROWS,
    {
        proof {
            use_type_invariant(self);
            assert forall|i: int| 0 <= i < self.active_origins@.len() implies (
            #[trigger] self.active_origins@[i]).x < NUM_COLS && self.active_origins@[i].y
                < NUM_ROWS by {
                assert(in_grid(self@.heap, self@.active[i]));
            }
        }
        self.active_origins.as_slice()
    }

    /// Whether no cascade is under way.
    pub fn stable(&self) -> (stable: bool)
        ensures
            self@.valid(),
            stable == (self@.stage == PitStage::Stable),
    {
        proof {
            use_type_invariant(self);
        }
        self.state.stage == PitStage::Stable
    }

    /// Whether the game is lost: the pit is stable and the top row of some
    /// column holds a block.
    pub fn topped_up(&self) -> (lost: bool)
        ensures
            lost == (self@.stage == PitStage::Stable && self@.top_row_taken()),
    {
        if !self.stable() {
            return false;
        }
        let mut x: usize = 0;
        while x < NUM_COLS
            invariant
                x <= NUM_COLS,
                self@.stage == PitStage::Stable,
                forall|n: int| 0 <= n < x ==> (#[trigger] self@.heap[n])[0].is_empty(),
            decreases NUM_COLS - x,
        {
            if !self.heap[x][0].empty() {
                assert(!(self@.heap[x as int])[0].is_empty());
                return true;
            }
            x += 1;
        }
        false
    }
}

impl Drawable for Pit {
    /// The pit paints every cell with the code of its block.
    open spec fn paints(&self, x: int, y: int) -> Option<int> {
        Some(self@.heap[x][y].code())
    }

    fn draw(&self, frame: &mut Frame) {
        let mut x: usize = 0;
        while x < NUM_COLS
            invariant
                x <= NUM_COLS,
                forall|i: int, j: int|
                    0 <= i < x && 0 <= j < NUM_ROWS ==> #[trigger] frame[i][j] as int
                        == self.heap[i][j].code(),
                forall|i: int, j: int|
                    x <= i < NUM_COLS && 0 <= j < NUM_ROWS ==> #[trigger] frame[i][j] == old(
                        frame,
                    )[i][j],
            decreases NUM_COLS - x,
        {
            let mut y: usize = 0;
            while y < NUM_ROWS
                invariant
                    x < NUM_COLS,
                    y <= NUM_ROWS,
                    forall|i: int, j: int|
                        0 <= i < x && 0 <= j < NUM_ROWS ==> #[trigger] frame[i][j] as int
                            == self.heap[i][j].code(),
                    forall|j: int|
                        0 <= j < y ==> #[trigger] frame[x as int][j] as int == self.heap[x as int][j].code(),
                    forall|i: int, j: int|
                        x <= i < NUM_COLS && 0 <= j < NUM_ROWS && !(i == x && j < y)
                            ==> #[trigger] frame[i][j] == old(frame)[i][j],
                decreases NUM_ROWS - y,
            {
                frame[x][y] = self.heap[x][y].numbered();
                y += 1;
            }
            x += 1;
        }
    }
}

} // verus!
