use rust_columns::block::{Block, BlockKind};

#[test]
fn test_default() {
    assert!(Block::default().empty());
}

#[test]
fn new_block_keeps_its_colour_and_is_dark() {
    let block = Block::new(Some(BlockKind::Red));
    assert!(!block.empty());
    assert!(!block.exploding);
    assert_eq!(block.kind, Some(BlockKind::Red));
    assert!(Block::new(None).empty());
}

#[test]
fn numbered_gives_one_code_per_colour() {
    assert_eq!(Block::new(Some(BlockKind::Blue)).numbered(), 0);
    assert_eq!(Block::new(Some(BlockKind::Yellow)).numbered(), 1);
    assert_eq!(Block::new(Some(BlockKind::Green)).numbered(), 2);
    assert_eq!(Block::new(Some(BlockKind::Red)).numbered(), 3);
    assert_eq!(Block::new(Some(BlockKind::Cyan)).numbered(), 4);
    assert_eq!(Block::new(Some(BlockKind::Magenta)).numbered(), 5);
    assert_eq!(Block::new(None).numbered(), -1);
}

#[test]
fn numbered_shows_a_blinking_block_as_six() {
    let mut block = Block::new(Some(BlockKind::Green));
    block.exploding = true;
    assert_eq!(block.numbered(), 6);
    let mut empty = Block::default();
    empty.exploding = true;
    assert_eq!(empty.numbered(), 6);
}

#[test]
fn update_changes_the_colour_and_keeps_the_flag() {
    let mut block = Block::new(Some(BlockKind::Cyan));
    block.exploding = true;
    block.update(None);
    assert!(block.empty());
    assert!(block.exploding);
    block.update(Some(BlockKind::Blue));
    assert_eq!(block.kind, Some(BlockKind::Blue));
}

#[test]
fn equality_compares_colours_only() {
    let mut lit = Block::new(Some(BlockKind::Yellow));
    lit.exploding = true;
    let dark = Block::new(Some(BlockKind::Yellow));
    assert!(lit == dark);
    assert!(dark != Block::new(Some(BlockKind::Red)));
    assert!(dark != Block::default());
    assert!(Block::default() == Block::new(None));
}

#[test]
fn rolls_one_to_six_pick_the_six_colours() {
    assert_eq!(BlockKind::from_roll(0), None);
    assert_eq!(BlockKind::from_roll(1), Some(BlockKind::Blue));
    assert_eq!(BlockKind::from_roll(2), Some(BlockKind::Yellow));
    assert_eq!(BlockKind::from_roll(3), Some(BlockKind::Green));
    assert_eq!(BlockKind::from_roll(4), Some(BlockKind::Red));
    assert_eq!(BlockKind::from_roll(5), Some(BlockKind::Cyan));
    assert_eq!(BlockKind::from_roll(6), Some(BlockKind::Magenta));
    assert_eq!(BlockKind::from_roll(7), None);
}
