use rust_columns::block::{Block, BlockKind};
use rust_columns::column::Column;
use rust_columns::order::lower_row_first;
use rust_columns::pit::{Heap, Pit, PitState};
use rust_columns::{Vec2, NUM_COLS, NUM_ROWS, STARTING_X, STARTING_Y};
use std::cmp::Ordering;
use std::time::Duration;

type Small = [[Block; 3]; 3];

fn heap_of(rows: [&str; 3]) -> Small {
    let mut heap: Small = Pit::new_heap(None);
    for (y, row) in rows.iter().enumerate() {
        for (x, c) in row.chars().enumerate() {
            let kind = match c {
                'b' => Some(BlockKind::Blue),
                'y' => Some(BlockKind::Yellow),
                'g' => Some(BlockKind::Green),
                'r' => Some(BlockKind::Red),
                'c' => Some(BlockKind::Cyan),
                'm' => Some(BlockKind::Magenta),
                _ => None,
            };
            heap[x][y] = Block::new(kind);
        }
    }
    heap
}

fn all_cells() -> Vec<Vec2> {
    let mut cells = Vec::new();
    for x in 0..3 {
        for y in 0..3 {
            cells.push(Vec2::xy(x, y));
        }
    }
    cells
}

fn on_a_run_of_three(heap: &Small, seed: Vec2, cell: Vec2) -> bool {
    let steps: [(i32, i32); 4] = [(0, 1), (1, 0), (1, -1), (1, 1)];
    let kind = heap[seed.x][seed.y].kind;
    if kind.is_none() {
        return false;
    }
    let at = |x: i32, y: i32| -> bool {
        (0..3).contains(&x) && (0..3).contains(&y) && heap[x as usize][y as usize].kind == kind
    };
    for (dx, dy) in steps {
        let mut run = vec![seed];
        for sign in [-1, 1] {
            let (mut x, mut y) = (seed.x as i32 + sign * dx, seed.y as i32 + sign * dy);
            while at(x, y) {
                run.push(Vec2::xy(x as usize, y as usize));
                x += sign * dx;
                y += sign * dy;
            }
        }
        if run.len() >= 3 && run.contains(&cell) {
            return true;
        }
    }
    false
}

fn grids() -> Vec<Small> {
    vec![
        heap_of(["bbb", "b.b", "bbb"]),
        heap_of(["bby", "byb", "ybb"]),
        heap_of(["rgr", "grg", "rgr"]),
        heap_of(["mmm", "mmm", "mmm"]),
        heap_of(["...", "...", "..."]),
        heap_of(["bb.", "b.b", ".bb"]),
        heap_of(["c.c", ".c.", "c.c"]),
        heap_of(["yyy", "rrr", "ggg"]),
    ]
}

#[test]
fn matches_are_sound_on_sample_grids() {
    let state = PitState::new();
    for heap in grids() {
        for seed in all_cells() {
            let items = state.collect_matching_at(&heap, &[seed]);
            for item in &items {
                assert!(!heap[item.x][item.y].empty());
                assert_eq!(heap[item.x][item.y].kind, heap[seed.x][seed.y].kind);
                assert!(on_a_run_of_three(&heap, seed, *item));
            }
            // and complete: every cell on a run of three through the seed is found
            for cell in all_cells() {
                if on_a_run_of_three(&heap, seed, cell) {
                    assert!(items.contains(&cell));
                }
            }
        }
    }
}

#[test]
fn matches_hold_no_cell_twice() {
    let state = PitState::new();
    for heap in grids() {
        let items = state.collect_matching_at(&heap, &all_cells());
        for (i, a) in items.iter().enumerate() {
            for b in &items[i + 1..] {
                assert_ne!(a, b);
            }
        }
        let again = state.collect_matching_at(&heap, &[all_cells(), all_cells()].concat());
        assert_eq!(items, again);
    }
}

#[test]
fn matching_at_lists_the_axes_in_order_and_the_seed_last() {
    let state = PitState::new();
    let heap = heap_of(["mmm", "mmm", "mmm"]);
    let items = state.matching_at(&heap, &Vec2::xy(1, 1));
    assert_eq!(
        items,
        vec![
            Vec2::xy(1, 0),
            Vec2::xy(1, 2),
            Vec2::xy(0, 1),
            Vec2::xy(2, 1),
            Vec2::xy(2, 0),
            Vec2::xy(0, 2),
            Vec2::xy(0, 0),
            Vec2::xy(2, 2),
            Vec2::xy(1, 1),
        ]
    );
    let items = state.matching_at(&heap, &Vec2::xy(0, 2));
    assert_eq!(
        items,
        vec![
            Vec2::xy(0, 1),
            Vec2::xy(0, 0),
            Vec2::xy(1, 2),
            Vec2::xy(2, 2),
            Vec2::xy(1, 1),
            Vec2::xy(2, 0),
            Vec2::xy(0, 2),
        ]
    );
}

#[test]
fn matching_at_finds_nothing_from_an_empty_seed_or_a_short_run() {
    let state = PitState::new();
    let heap = heap_of(["bb.", "...", "b.b"]);
    assert!(state.matching_at(&heap, &Vec2::xy(1, 1)).is_empty());
    assert!(state.matching_at(&heap, &Vec2::xy(0, 0)).is_empty());
    assert!(state.matching_at(&heap, &Vec2::xy(2, 2)).is_empty());
    assert!(state.collect_matching_at(&heap, &[]).is_empty());
}

#[test]
fn a_run_ends_at_another_colour() {
    let state = PitState::new();
    let mut heap: [[Block; 1]; 6] = Pit::new_heap(Some(BlockKind::Red));
    heap[3][0] = Block::new(Some(BlockKind::Blue));
    assert_eq!(
        state.matching_at(&heap, &Vec2::xy(1, 0)),
        vec![Vec2::xy(0, 0), Vec2::xy(2, 0), Vec2::xy(1, 0)]
    );
    assert!(state.matching_at(&heap, &Vec2::xy(4, 0)).is_empty());
    assert!(state.matching_at(&heap, &Vec2::xy(3, 0)).is_empty());
}

#[test]
fn vertical_run_is_found_from_each_of_its_cells() {
    let state = PitState::new();
    let heap = heap_of(["b..", "b..", "b.."]);
    for seed in [Vec2::xy(0, 0), Vec2::xy(0, 1), Vec2::xy(0, 2)] {
        let items = state.collect_matching_at(&heap, &[seed]);
        assert_eq!(items.len(), 3);
        for cell in [Vec2::xy(0, 0), Vec2::xy(0, 1), Vec2::xy(0, 2)] {
            assert!(items.contains(&cell));
        }
    }
}

#[test]
fn seeds_from_two_corners_find_the_whole_grid_once() {
    let state = PitState::new();
    let heap: Small = Pit::new_heap(Some(BlockKind::Magenta));
    let items = state.collect_matching_at(&heap, &[Vec2::xy(0, 0), Vec2::xy(2, 2)]);
    assert_eq!(items.len(), 9);
    for cell in all_cells() {
        assert_eq!(items.iter().filter(|p| **p == cell).count(), 1);
    }
}

#[test]
fn matching_again_keeps_what_was_found() {
    let state = PitState::new();
    for heap in grids() {
        for seed in all_cells() {
            let first = state.collect_matching_at(&heap, &[seed]);
            let second = state.collect_matching_at(&heap, &first);
            for cell in &first {
                assert!(second.contains(cell));
            }
        }
    }
}

#[test]
fn matching_again_adds_nothing_when_the_seeds_lie_on_every_run() {
    let state = PitState::new();
    for heap in grids() {
        let first = state.collect_matching_at(&heap, &all_cells());
        let second = state.collect_matching_at(&heap, &first);
        for cell in &second {
            assert!(first.contains(cell));
        }
        assert_eq!(first.len(), second.len());
    }
}

#[test]
fn matching_again_can_find_a_run_that_no_seed_lies_on() {
    let state = PitState::new();
    let heap = heap_of(["bbb", "..b", "..b"]);
    let first = state.collect_matching_at(&heap, &[Vec2::xy(0, 0)]);
    assert_eq!(first, vec![Vec2::xy(1, 0), Vec2::xy(2, 0), Vec2::xy(0, 0)]);
    let second = state.collect_matching_at(&heap, &first);
    assert_eq!(second.len(), 5);
    assert!(second.contains(&Vec2::xy(2, 1)));
    assert!(second.contains(&Vec2::xy(2, 2)));
}

#[test]
fn dropping_comes_to_rest_and_stays_there() {
    let state = PitState::new();
    for heap in grids() {
        let mut heap = heap;
        let mut falling: Vec<Vec2> = all_cells();
        falling.sort_by(lower_row_first);
        let mut passes = 0;
        while state.update_dropping_at(&mut heap, &mut falling) {
            passes += 1;
            assert!(passes <= 9 * 2);
        }
        let rest = heap;
        let at_rest = falling.clone();
        for _ in 0..3 {
            assert!(!state.update_dropping_at(&mut heap, &mut falling));
            assert_eq!(falling, at_rest);
            for cell in all_cells() {
                assert_eq!(heap[cell.x][cell.y].kind, rest[cell.x][cell.y].kind);
            }
        }
        // every followed position has reached the floor or stands on a block
        for p in &falling {
            assert!(p.y == 2 || !heap[p.x][p.y + 1].empty());
        }
    }
}

#[test]
fn a_pass_moves_each_free_block_one_row() {
    let state = PitState::new();
    let mut heap = heap_of(["r.g", "...", "..."]);
    heap[0][0].exploding = true;
    let mut falling = [Vec2::xy(0, 0), Vec2::xy(2, 0), Vec2::xy(1, 2)];
    assert!(state.update_dropping_at(&mut heap, &mut falling));
    assert_eq!(falling, [Vec2::xy(0, 1), Vec2::xy(2, 1), Vec2::xy(1, 2)]);
    assert_eq!(heap[0][1].kind, Some(BlockKind::Red));
    assert!(heap[0][1].exploding);
    assert_eq!(heap[2][1].kind, Some(BlockKind::Green));
    assert!(heap[0][0].empty());
    assert!(heap[2][0].empty());
    // the flag of the cell that was left stays
    assert!(heap[0][0].exploding);
}

#[test]
fn a_pass_takes_the_positions_in_their_order() {
    let state = PitState::new();
    // the upper block first: it cannot move yet, the lower one can
    let mut heap = heap_of(["r..", "g..", "..."]);
    let mut falling = [Vec2::xy(0, 0), Vec2::xy(0, 1)];
    assert!(state.update_dropping_at(&mut heap, &mut falling));
    assert_eq!(falling, [Vec2::xy(0, 0), Vec2::xy(0, 2)]);
    // the lower block first: both move in one pass
    let mut heap = heap_of(["r..", "g..", "..."]);
    let mut falling = [Vec2::xy(0, 1), Vec2::xy(0, 0)];
    assert!(state.update_dropping_at(&mut heap, &mut falling));
    assert_eq!(falling, [Vec2::xy(0, 2), Vec2::xy(0, 1)]);
    assert!(heap[0][0].empty());
    assert_eq!(heap[0][1].kind, Some(BlockKind::Red));
    assert_eq!(heap[0][2].kind, Some(BlockKind::Green));
}

#[test]
fn nothing_drops_without_positions() {
    let state = PitState::new();
    let mut heap = heap_of(["r..", "...", "..."]);
    assert!(!state.update_dropping_at(&mut heap, &mut []));
    assert_eq!(heap[0][0].kind, Some(BlockKind::Red));
}

#[test]
fn hanging_blocks_are_listed_lowest_row_first() {
    let state = PitState::new();
    let mut heap: [[Block; 5]; 3] = Pit::new_heap(None);
    for (x, y) in [(0, 0), (0, 1), (0, 2), (1, 3), (2, 1), (2, 2)] {
        heap[x][y] = Block::new(Some(BlockKind::Red));
    }
    let cleared = [Vec2::xy(0, 3), Vec2::xy(1, 4), Vec2::xy(2, 3), Vec2::xy(2, 0)];
    let items = state.collect_dropping_at(&heap, &cleared);
    assert_eq!(items.len(), 6);
    assert!(items.windows(2).all(|w| w[0].y >= w[1].y));
    for (x, y) in [(0, 0), (0, 1), (0, 2), (1, 3), (2, 1), (2, 2)] {
        assert_eq!(items.iter().filter(|p| **p == Vec2::xy(x, y)).count(), 1);
    }
    assert_eq!(items[0], Vec2::xy(1, 3));
    assert_eq!(items[5], Vec2::xy(0, 0));
}

#[test]
fn a_stack_ends_at_the_first_empty_cell() {
    let state = PitState::new();
    let mut heap: [[Block; 5]; 1] = Pit::new_heap(Some(BlockKind::Red));
    heap[0][1] = Block::default();
    let items = state.collect_dropping_at(&heap, &[Vec2::xy(0, 4)]);
    assert_eq!(items, vec![Vec2::xy(0, 3), Vec2::xy(0, 2)]);
    assert!(state.collect_dropping_at(&heap, &[Vec2::xy(0, 0)]).is_empty());
    assert!(state.collect_dropping_at(&heap, &[Vec2::xy(0, 2)]).is_empty());
    assert!(state.collect_dropping_at(&heap, &[]).is_empty());
}

#[test]
fn lower_rows_come_first_in_the_order() {
    assert_eq!(lower_row_first(&Vec2::xy(0, 5), &Vec2::xy(3, 2)), Ordering::Less);
    assert_eq!(lower_row_first(&Vec2::xy(0, 2), &Vec2::xy(3, 2)), Ordering::Equal);
    assert_eq!(lower_row_first(&Vec2::xy(4, 1), &Vec2::xy(3, 2)), Ordering::Greater);
}

#[test]
fn landing_never_writes_outside_the_grid() {
    let delta = Duration::from_millis(Column::MOVE_MILLIS);
    for height in 0..NUM_ROWS {
        let mut heap: Heap = Pit::new_heap(None);
        // a floor that leaves `height` rows free above it
        if height + 1 < NUM_ROWS {
            heap[STARTING_X][height + 1] = Block::new(Some(BlockKind::Cyan));
        }
        let before = heap;
        let mut col = Column::from([
            Block::new(Some(BlockKind::Red)),
            Block::new(Some(BlockKind::Green)),
            Block::new(Some(BlockKind::Blue)),
        ]);
        for _ in 0..height {
            col.move_down(&heap);
        }
        assert_eq!(col.y(), STARTING_Y + height);
        let landed = col.detect_landing(&mut heap, delta).unwrap();
        assert_eq!(landed.len(), usize::min(3, height + 1));
        for (i, p) in landed.iter().enumerate() {
            assert!(p.x < NUM_COLS && p.y < NUM_ROWS);
            assert_eq!(*p, Vec2::xy(STARTING_X, height - i));
        }
        for x in 0..NUM_COLS {
            for y in 0..NUM_ROWS {
                if !landed.contains(&Vec2::xy(x, y)) {
                    assert_eq!(heap[x][y].kind, before[x][y].kind);
                }
            }
        }
    }
}

#[test]
fn a_column_of_three_alike_runs_through_the_whole_cascade() {
    let state = PitState::new();
    let mut heap = heap_of(["y..", "y..", "y.."]);
    let landed = [Vec2::xy(0, 2), Vec2::xy(0, 1), Vec2::xy(0, 0)];
    let matched = state.collect_matching_at(&heap, &landed);
    assert_eq!(matched.len(), 3);
    for cell in landed {
        assert!(matched.contains(&cell));
    }
    for cell in &matched {
        heap[cell.x][cell.y].update(None);
    }
    assert!(state.collect_dropping_at(&heap, &matched).is_empty());
}
