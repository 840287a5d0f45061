use vlam::grid::Grid;
use vlam::vector::Vec2;
use vlam::voxel::{Block, BlockType};

#[test]
fn grid_starts_filled_and_keeps_writes_apart() {
    let mut grid = Grid::new(3, 2, 7u32).unwrap();
    assert_eq!(grid.width(), 3);
    assert_eq!(grid.height(), 2);
    for y in 0..2 {
        for x in 0..3 {
            assert_eq!(grid.read(Vec2::new(x, y)), 7);
        }
    }
    grid.write(Vec2::new(2, 1), 9);
    grid.write(Vec2::new(0, 1), 4);
    for y in 0..2 {
        for x in 0..3 {
            let expected = match (x, y) {
                (2, 1) => 9,
                (0, 1) => 4,
                _ => 7,
            };
            assert_eq!(grid.read(Vec2::new(x, y)), expected);
        }
    }
}

#[test]
fn grid_contains_only_its_cells() {
    let grid = Grid::new(3, 2, false).unwrap();
    assert!(grid.contains(Vec2::new(0, 0)));
    assert!(grid.contains(Vec2::new(2, 1)));
    assert!(!grid.contains(Vec2::new(3, 1)));
    assert!(!grid.contains(Vec2::new(2, 2)));
    assert!(!grid.contains(Vec2::new(u32::MAX, 0)));
}

#[test]
fn empty_grid_has_no_cells() {
    let grid = Grid::new(0, 5, 1u8).unwrap();
    assert!(!grid.contains(Vec2::new(0, 0)));
    assert_eq!(grid.width(), 0);
    assert_eq!(grid.height(), 5);
}

#[test]
fn bool_block_is_one_cell() {
    assert_eq!(<bool as Block>::size(), 1);
    let mut block = <bool as Block>::empty();
    assert!(!block);
    assert!(<bool as Block>::is_empty(block));
    assert!(!<bool as Block>::get(block, Vec2::new(0, 0)));
    <bool as Block>::set(&mut block, Vec2::new(0, 0));
    assert!(block);
    assert!(!<bool as Block>::is_empty(block));
    assert!(<bool as Block>::get(block, Vec2::new(0, 0)));
}

#[test]
fn u16_block_packs_four_by_four() {
    assert_eq!(<u16 as Block>::size(), 4);
    let mut block = <u16 as Block>::empty();
    assert_eq!(block, 0);
    assert!(<u16 as Block>::is_empty(block));
    <u16 as Block>::set(&mut block, Vec2::new(1, 2));
    assert_eq!(block, 1 << 9);
    <u16 as Block>::set(&mut block, Vec2::new(3, 3));
    assert_eq!(block, (1 << 9) | (1 << 15));
    <u16 as Block>::set(&mut block, Vec2::new(1, 2));
    assert_eq!(block, (1 << 9) | (1 << 15));
    assert!(!<u16 as Block>::is_empty(block));
    for y in 0..4 {
        for x in 0..4 {
            let marked = (x, y) == (1, 2) || (x, y) == (3, 3);
            assert_eq!(<u16 as Block>::get(block, Vec2::new(x, y)), marked);
        }
    }
}

#[test]
fn u64_block_packs_eight_by_eight() {
    assert_eq!(<u64 as Block>::size(), 8);
    let mut block: BlockType = <u64 as Block>::empty();
    assert_eq!(block, 0);
    assert!(<u64 as Block>::is_empty(block));
    <u64 as Block>::set(&mut block, Vec2::new(3, 4));
    assert_eq!(block, 1u64 << 35);
    <u64 as Block>::set(&mut block, Vec2::new(7, 7));
    assert_eq!(block, (1u64 << 35) | (1u64 << 63));
    <u64 as Block>::set(&mut block, Vec2::new(0, 0));
    assert_eq!(block, (1u64 << 35) | (1u64 << 63) | 1);
    assert!(!<u64 as Block>::is_empty(block));
    for y in 0..8 {
        for x in 0..8 {
            let marked = (x, y) == (3, 4) || (x, y) == (7, 7) || (x, y) == (0, 0);
            assert_eq!(<u64 as Block>::get(block, Vec2::new(x, y)), marked);
        }
    }
}

#[test]
fn every_single_mark_makes_a_block_non_empty() {
    for y in 0..8 {
        for x in 0..8 {
            let mut block = <u64 as Block>::empty();
            <u64 as Block>::set(&mut block, Vec2::new(x, y));
            assert!(!<u64 as Block>::is_empty(block));
            assert_eq!(block.count_ones(), 1);
        }
    }
    for y in 0..4 {
        for x in 0..4 {
            let mut block = <u16 as Block>::empty();
            <u16 as Block>::set(&mut block, Vec2::new(x, y));
            assert!(!<u16 as Block>::is_empty(block));
            assert_eq!(block.count_ones(), 1);
        }
    }
}

#[test]
fn u64_block_is_stored_as_two_words() {
    let mut storage = Grid::new(2, 2, Vec2::new(0u32, 0u32)).unwrap();
    let word: u64 = 0x1234_5678_9ABC_DEF0;
    <u64 as Block>::write(&mut storage, Vec2::new(1, 0), word);
    assert_eq!(
        storage.read(Vec2::new(1, 0)),
        Vec2::new(0x9ABC_DEF0, 0x1234_5678)
    );
    assert_eq!(storage.read(Vec2::new(0, 0)), Vec2::new(0, 0));
    assert_eq!(<u64 as Block>::read(&storage, Vec2::new(1, 0)), word);
    assert_eq!(<u64 as Block>::read(&storage, Vec2::new(0, 1)), 0);
    <u64 as Block>::write(&mut storage, Vec2::new(0, 1), u64::MAX);
    assert_eq!(<u64 as Block>::read(&storage, Vec2::new(0, 1)), u64::MAX);
}

#[test]
fn u16_block_is_stored_in_the_low_half_of_a_word() {
    let mut storage = Grid::new(2, 1, 0u32).unwrap();
    <u16 as Block>::write(&mut storage, Vec2::new(0, 0), 0xBEEF);
    assert_eq!(storage.read(Vec2::new(0, 0)), 0xBEEF);
    assert_eq!(<u16 as Block>::read(&storage, Vec2::new(0, 0)), 0xBEEF);
    storage.write(Vec2::new(1, 0), 0x0001_BEEF);
    assert_eq!(<u16 as Block>::read(&storage, Vec2::new(1, 0)), 0xBEEF);
}

#[test]
fn bool_block_is_stored_as_itself() {
    let mut storage = Grid::new(1, 2, false).unwrap();
    <bool as Block>::write(&mut storage, Vec2::new(0, 1), true);
    assert!(<bool as Block>::read(&storage, Vec2::new(0, 1)));
    assert!(!<bool as Block>::read(&storage, Vec2::new(0, 0)));
}
