use rust_columns::frame::new_frame;
use rust_columns::renderer::{
    assert_screen_size, init, number_to_tint, render, RendererError, Stroke, Tint,
};
use rust_columns::{NUM_COLS, NUM_ROWS};

#[test]
fn an_unknown_screen_size_is_an_error() {
    assert_eq!(assert_screen_size(None), Err(RendererError::Size));
}

#[test]
fn a_small_screen_is_told_the_size_that_is_needed() {
    let needed = Err(RendererError::MinimumSize(NUM_COLS, NUM_ROWS));
    assert_eq!(assert_screen_size(Some((5, 13))), needed);
    assert_eq!(assert_screen_size(Some((6, 12))), needed);
    assert_eq!(assert_screen_size(Some((0, 0))), needed);
    assert_eq!(assert_screen_size(Some((5, 200))), needed);
}

#[test]
fn a_screen_of_the_size_of_the_playfield_is_enough() {
    assert_eq!(assert_screen_size(Some((6, 13))), Ok(()));
    assert_eq!(assert_screen_size(Some((80, 24))), Ok(()));
    assert_eq!(assert_screen_size(Some((u16::MAX, u16::MAX))), Ok(()));
}

#[test]
fn every_code_has_its_tint() {
    assert_eq!(number_to_tint(0), Tint::Blue);
    assert_eq!(number_to_tint(1), Tint::Yellow);
    assert_eq!(number_to_tint(2), Tint::Green);
    assert_eq!(number_to_tint(3), Tint::Red);
    assert_eq!(number_to_tint(4), Tint::Cyan);
    assert_eq!(number_to_tint(5), Tint::Magenta);
    assert_eq!(number_to_tint(6), Tint::Grey);
    assert_eq!(number_to_tint(-1), Tint::Black);
    assert_eq!(number_to_tint(7), Tint::Black);
    assert_eq!(number_to_tint(i8::MIN), Tint::Black);
}

#[test]
fn init_paints_every_cell_column_by_column() {
    let mut frame = new_frame();
    frame[1][2] = 3;
    let strokes = init(&frame);
    assert_eq!(strokes.len(), NUM_COLS * NUM_ROWS);
    assert_eq!(strokes[0], Stroke { x: 0, y: 0, tint: Tint::Black });
    assert_eq!(strokes[1], Stroke { x: 0, y: 1, tint: Tint::Black });
    assert_eq!(strokes[NUM_ROWS + 2], Stroke { x: 1, y: 2, tint: Tint::Red });
    assert_eq!(strokes[NUM_COLS * NUM_ROWS - 1], Stroke { x: 5, y: 12, tint: Tint::Black });
}

#[test]
fn render_paints_the_cells_that_changed() {
    let last = new_frame();
    let mut frame = new_frame();
    assert!(render(&last, &frame).is_empty());
    frame[4][0] = 6;
    frame[0][12] = 1;
    frame[4][1] = 0;
    assert_eq!(
        render(&last, &frame),
        vec![
            Stroke { x: 0, y: 12, tint: Tint::Yellow },
            Stroke { x: 4, y: 0, tint: Tint::Grey },
            Stroke { x: 4, y: 1, tint: Tint::Blue },
        ]
    );
    assert_eq!(
        render(&frame, &last),
        vec![
            Stroke { x: 0, y: 12, tint: Tint::Black },
            Stroke { x: 4, y: 0, tint: Tint::Black },
            Stroke { x: 4, y: 1, tint: Tint::Black },
        ]
    );
    assert!(render(&frame, &frame).is_empty());
}
