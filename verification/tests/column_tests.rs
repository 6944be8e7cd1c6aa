use rust_columns::block::{Block, BlockKind};
use rust_columns::column::Column;
use rust_columns::frame::{new_frame, Drawable};
use rust_columns::pit::{Heap, Pit};
use rust_columns::{Vec2, NUM_COLS, NUM_ROWS, STARTING_X, STARTING_Y};
use std::time::Duration;

const DELTA: Duration = Duration::from_millis(Column::MOVE_MILLIS);

#[test]
fn test_new() {
    let col = Column::new();

    assert_eq!(col.x(), STARTING_X);
    assert_eq!(col.y(), STARTING_Y);
    assert!(col.dropping());

    const MAX_COUNT: u8 = 5;
    let mut count_cmp = MAX_COUNT;
    loop {
        let shaft_cmp = Column::new().shaft();
        let different = col
            .shaft()
            .iter()
            .enumerate()
            .any(|(i, block)| block != &shaft_cmp[i]);

        if different {
            break;
        }
        count_cmp -= 1;

        assert!(
            count_cmp > 0,
            "two columns instances were equal after {MAX_COUNT} comparisons"
        );
    }
}

#[test]
fn test_cycle() {
    let mut col = Column::new();
    let shaft_copy = col.shaft();
    col.cycle();
    let shaft = col.shaft();

    assert_eq!(shaft_copy[0], shaft[1]);
    assert_eq!(shaft_copy[1], shaft[2]);
    assert_eq!(shaft_copy[2], shaft[0]);
}

#[test]
fn test_update() {
    let heap = Pit::new_heap(None);
    let mut col = Column::new();

    col.update(&heap, Duration::from_millis(Column::MOVE_MILLIS - 1));
    assert_eq!(col.y(), 0);
    col.update(&heap, Duration::from_millis(1));
    assert_eq!(col.y(), 1);
}

#[test]
fn test_landing_on_heap() {
    let mut heap: Heap = Pit::new_heap(None);
    let mut col = Column::new();

    assert_eq!(col.detect_landing(&mut heap, DELTA), None);

    heap[STARTING_X][STARTING_Y + 1] = Block::new(Some(BlockKind::Blue));

    assert_eq!(
        col.detect_landing(&mut heap, DELTA),
        Some(vec![Vec2::xy(STARTING_X, STARTING_Y)])
    );
}

#[test]
fn test_landing_reached_bottom() {
    let mut heap: Heap = Pit::new_heap(None);
    let mut col = Column::new();

    assert_eq!(col.detect_landing(&mut heap, DELTA), None);

    for _ in 1..NUM_ROWS {
        col.move_down(&heap);
    }

    assert_eq!(
        col.detect_landing(&mut heap, DELTA),
        Some(vec![
            Vec2::xy(STARTING_X, NUM_ROWS - 1),
            Vec2::xy(STARTING_X, NUM_ROWS - 2),
            Vec2::xy(STARTING_X, NUM_ROWS - 3)
        ])
    );
}

fn rgb() -> [Block; 3] {
    [
        Block::new(Some(BlockKind::Red)),
        Block::new(Some(BlockKind::Green)),
        Block::new(Some(BlockKind::Blue)),
    ]
}

#[test]
fn new_piece_has_three_blocks_of_some_colour() {
    for _ in 0..50 {
        let col = Column::new();
        for block in col.shaft() {
            assert!(!block.empty());
            assert!(!block.exploding);
            assert!((0..=5).contains(&block.numbered()));
        }
    }
}

#[test]
fn rolls_fix_the_blocks_from_top_to_base() {
    let col = Column::from_rolls(1, 4, 6);
    let shaft = col.shaft();
    assert_eq!(shaft[0].kind, Some(BlockKind::Blue));
    assert_eq!(shaft[1].kind, Some(BlockKind::Red));
    assert_eq!(shaft[2].kind, Some(BlockKind::Magenta));
    assert_eq!((col.x(), col.y()), (STARTING_X, STARTING_Y));
    assert!(col.dropping());
    assert!(Column::from_rolls(0, 7, 200).shaft().iter().all(|b| b.empty()));
}

#[test]
fn default_piece_is_empty_at_the_start() {
    let col = Column::default();
    assert!(col.shaft().iter().all(|b| b.empty()));
    assert_eq!((col.x(), col.y()), (STARTING_X, STARTING_Y));
    assert!(col.dropping());
}

#[test]
fn cycle_moves_the_base_to_the_top() {
    let mut col = Column::from(rgb());
    col.cycle();
    let shaft = col.shaft();
    assert_eq!(shaft[0].kind, Some(BlockKind::Blue));
    assert_eq!(shaft[1].kind, Some(BlockKind::Red));
    assert_eq!(shaft[2].kind, Some(BlockKind::Green));
    col.cycle();
    col.cycle();
    assert_eq!(col.shaft()[0].kind, Some(BlockKind::Red));
}

#[test]
fn cycle_leaves_a_landed_piece_alone() {
    let mut heap: Heap = Pit::new_heap(None);
    let mut col = Column::from(rgb());
    heap[STARTING_X][STARTING_Y + 1] = Block::new(Some(BlockKind::Blue));
    assert!(col.detect_landing(&mut heap, DELTA).is_some());
    assert!(!col.dropping());
    col.cycle();
    assert_eq!(col.shaft()[0].kind, Some(BlockKind::Red));
    assert_eq!(col.shaft()[2].kind, Some(BlockKind::Blue));
}

#[test]
fn moves_stop_at_the_walls() {
    let heap: Heap = Pit::new_heap(None);
    let mut col = Column::from(rgb());
    for _ in 0..NUM_COLS + 3 {
        col.move_left(&heap);
    }
    assert_eq!(col.x(), 0);
    for _ in 0..NUM_COLS + 3 {
        col.move_right(&heap);
    }
    assert_eq!(col.x(), NUM_COLS - 1);
    for _ in 0..NUM_ROWS + 3 {
        col.move_down(&heap);
    }
    assert_eq!(col.y(), NUM_ROWS - 1);
}

#[test]
fn moves_stop_at_blocks() {
    let mut heap: Heap = Pit::new_heap(None);
    heap[STARTING_X - 1][STARTING_Y] = Block::new(Some(BlockKind::Cyan));
    heap[STARTING_X + 1][STARTING_Y] = Block::new(Some(BlockKind::Cyan));
    heap[STARTING_X][STARTING_Y + 1] = Block::new(Some(BlockKind::Cyan));
    let mut col = Column::from(rgb());
    assert!(col.detect_hit_leftwards(&heap));
    assert!(col.detect_hit_rightwards(&heap));
    assert!(col.detect_hit_downwards(&heap));
    col.move_left(&heap);
    col.move_right(&heap);
    col.move_down(&heap);
    assert_eq!((col.x(), col.y()), (STARTING_X, STARTING_Y));
}

#[test]
fn a_free_piece_hits_nothing() {
    let heap: Heap = Pit::new_heap(None);
    let col = Column::from(rgb());
    assert!(!col.detect_hit_leftwards(&heap));
    assert!(!col.detect_hit_rightwards(&heap));
    assert!(!col.detect_hit_downwards(&heap));
}

#[test]
fn landing_waits_for_the_clock() {
    let mut heap: Heap = Pit::new_heap(None);
    heap[STARTING_X][STARTING_Y + 1] = Block::new(Some(BlockKind::Blue));
    let mut col = Column::from(rgb());
    let short = Duration::from_millis(Column::MOVE_MILLIS - 1);
    assert_eq!(col.detect_landing(&mut heap, short), None);
    assert!(col.dropping());
    assert!(heap[STARTING_X][STARTING_Y].empty());
    // the clock of the piece was not advanced by the question
    assert_eq!(col.detect_landing(&mut heap, short), None);
    assert!(col.detect_landing(&mut heap, DELTA).is_some());
    assert!(!col.dropping());
}

#[test]
fn landing_writes_the_blocks_from_the_base_upwards() {
    let mut heap: Heap = Pit::new_heap(None);
    let mut col = Column::from(rgb());
    for _ in 1..NUM_ROWS {
        col.move_down(&heap);
    }
    let landed = col.detect_landing(&mut heap, DELTA).unwrap();
    assert_eq!(landed.len(), 3);
    assert_eq!(heap[STARTING_X][NUM_ROWS - 1].kind, Some(BlockKind::Blue));
    assert_eq!(heap[STARTING_X][NUM_ROWS - 2].kind, Some(BlockKind::Green));
    assert_eq!(heap[STARTING_X][NUM_ROWS - 3].kind, Some(BlockKind::Red));
    let mut filled = 0;
    for x in 0..NUM_COLS {
        for y in 0..NUM_ROWS {
            if !heap[x][y].empty() {
                filled += 1;
            }
        }
    }
    assert_eq!(filled, 3);
}

#[test]
fn landing_near_the_top_drops_the_blocks_that_do_not_fit() {
    let mut heap: Heap = Pit::new_heap(None);
    heap[STARTING_X][2] = Block::new(Some(BlockKind::Cyan));
    let mut col = Column::from(rgb());
    col.move_down(&heap);
    assert_eq!(col.y(), 1);
    let landed = col.detect_landing(&mut heap, DELTA).unwrap();
    assert_eq!(landed, vec![Vec2::xy(STARTING_X, 1), Vec2::xy(STARTING_X, 0)]);
    assert_eq!(heap[STARTING_X][1].kind, Some(BlockKind::Blue));
    assert_eq!(heap[STARTING_X][0].kind, Some(BlockKind::Green));
    assert_eq!(heap[STARTING_X][2].kind, Some(BlockKind::Cyan));
}

#[test]
fn a_landed_piece_does_not_land_again() {
    let mut heap: Heap = Pit::new_heap(None);
    heap[STARTING_X][STARTING_Y + 1] = Block::new(Some(BlockKind::Blue));
    let mut col = Column::from(rgb());
    assert!(col.detect_landing(&mut heap, DELTA).is_some());
    assert_eq!(col.detect_landing(&mut heap, DELTA), None);
}

#[test]
fn update_reports_whether_the_piece_is_airborne() {
    let mut heap: Heap = Pit::new_heap(None);
    heap[STARTING_X][STARTING_Y + 1] = Block::new(Some(BlockKind::Blue));
    let mut col = Column::from(rgb());
    assert!(col.update(&heap, DELTA));
    assert_eq!(col.y(), STARTING_Y);
    assert!(col.detect_landing(&mut heap, DELTA).is_some());
    assert!(!col.update(&heap, DELTA));
    assert_eq!((col.x(), col.y()), (STARTING_X, STARTING_Y));
}

#[test]
fn update_falls_one_row_for_each_interval() {
    let heap: Heap = Pit::new_heap(None);
    let mut col = Column::from(rgb());
    for row in 1..=4 {
        col.update(&heap, Duration::from_millis(400));
        col.update(&heap, Duration::from_millis(600));
        assert_eq!(col.y(), row);
    }
}

#[test]
fn an_airborne_piece_is_drawn_as_far_as_it_is_in_the_grid() {
    let heap: Heap = Pit::new_heap(None);
    let mut col = Column::from(rgb());
    let mut frame = new_frame();
    col.draw(&mut frame);
    assert_eq!(frame[STARTING_X][0], 0);
    assert_eq!(frame[STARTING_X][1], -1);
    col.move_down(&heap);
    col.move_down(&heap);
    col.move_down(&heap);
    let mut frame = new_frame();
    col.draw(&mut frame);
    assert_eq!(frame[STARTING_X][3], 0);
    assert_eq!(frame[STARTING_X][2], 2);
    assert_eq!(frame[STARTING_X][1], 3);
    assert_eq!(frame[STARTING_X][0], -1);
    assert_eq!(frame[STARTING_X][4], -1);
}

#[test]
fn a_landed_piece_is_not_drawn() {
    let mut heap: Heap = Pit::new_heap(None);
    heap[STARTING_X][STARTING_Y + 1] = Block::new(Some(BlockKind::Blue));
    let mut col = Column::from(rgb());
    assert!(col.detect_landing(&mut heap, DELTA).is_some());
    let mut frame = new_frame();
    col.draw(&mut frame);
    assert!(frame.iter().all(|column| column.iter().all(|code| *code == -1)));
}

#[test]
fn a_landed_piece_stays_where_it_is() {
    let mut heap: Heap = Pit::new_heap(None);
    let mut col = Column::from(rgb());
    for _ in 0..3 {
        col.move_down(&heap);
    }
    heap[STARTING_X][5] = Block::new(Some(BlockKind::Cyan));
    col.move_down(&heap);
    assert_eq!(col.y(), 4);
    assert!(col.detect_landing(&mut heap, DELTA).is_some());
    let empty: Heap = Pit::new_heap(None);
    col.move_left(&empty);
    col.move_right(&empty);
    col.move_right(&empty);
    col.move_down(&empty);
    assert!(!col.update(&empty, DELTA));
    assert_eq!((col.x(), col.y()), (STARTING_X, 4));
    assert!(!col.detect_hit_downwards(&heap));
    assert!(!col.detect_hit_leftwards(&heap));
    assert!(!col.detect_hit_rightwards(&heap));
}
