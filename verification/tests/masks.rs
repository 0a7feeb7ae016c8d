use tower_def::coord::{Coord, Direction, DirectionMask};
use tower_def::grid::Grid;
use tower_def::state::GameState;

#[test]
fn mask_bits_follow_flags() {
    let mask = DirectionMask::from_flags(true, false, true, false);
    assert_eq!(mask.bits(), 0b0101);
    assert!(mask.permits(Direction::Up));
    assert!(!mask.permits(Direction::Right));
    assert!(mask.permits(Direction::Down));
    assert!(!mask.permits(Direction::Left));
}

#[test]
fn each_direction_has_its_bit() {
    assert_eq!(Direction::Up.bit(), 0b0001);
    assert_eq!(Direction::Right.bit(), 0b0010);
    assert_eq!(Direction::Down.bit(), 0b0100);
    assert_eq!(Direction::Left.bit(), 0b1000);
    assert_eq!(DirectionMask::from_flags(true, false, false, false).bits(), 1);
    assert_eq!(DirectionMask::from_flags(false, true, false, false).bits(), 2);
    assert_eq!(DirectionMask::from_flags(false, false, true, false).bits(), 4);
    assert_eq!(DirectionMask::from_flags(false, false, false, true).bits(), 8);
}

#[test]
fn full_and_empty_masks() {
    assert_eq!(DirectionMask::full().bits(), 0b1111);
    assert_eq!(DirectionMask::none().bits(), 0);
    assert!(DirectionMask::none().is_blocked());
    assert!(!DirectionMask::full().is_blocked());
    assert!(!DirectionMask::from_flags(false, false, false, true).is_blocked());
}

#[test]
fn bits_round_trip() {
    for bits in 0u8..16 {
        assert_eq!(DirectionMask::from_bits(bits).bits(), bits);
    }
    assert_eq!(DirectionMask::from_bits(0b1_0110).bits(), 0b0110);
    assert_eq!(DirectionMask::from_bits(0xff), DirectionMask::full());
    assert_eq!(
        DirectionMask::from_bits(0b1010),
        DirectionMask::from_flags(false, true, false, true)
    );
}

#[test]
fn coord_compares_by_value() {
    assert_eq!(Coord::new(3, 4), Coord { x: 3, y: 4 });
    assert_ne!(Coord::new(3, 4), Coord::new(4, 3));
}

#[test]
fn fresh_grid_is_impassable() {
    let grid = Grid::new(3, 2);
    assert_eq!(grid.width(), 3);
    assert_eq!(grid.height(), 2);
    for x in 0..3 {
        for y in 0..2 {
            assert_eq!(grid.mask(Coord::new(x, y)), DirectionMask::none());
        }
    }
    assert!(grid.has_cell(Coord::new(2, 1)));
    assert!(!grid.has_cell(Coord::new(3, 0)));
    assert!(!grid.has_cell(Coord::new(0, 2)));
    assert_eq!(grid.mask(Coord::new(7, 7)), DirectionMask::none());
}

#[test]
fn set_changes_one_cell() {
    let mut grid = Grid::new(2, 3);
    let mask = DirectionMask::from_flags(true, true, false, false);
    grid.set(Coord::new(1, 2), mask);
    for x in 0..2 {
        for y in 0..3 {
            let expected = if x == 1 && y == 2 { mask } else { DirectionMask::none() };
            assert_eq!(grid.mask(Coord::new(x, y)), expected);
        }
    }
}

#[test]
fn empty_grid_has_no_cells() {
    let grid = Grid::new(0, 5);
    assert!(!grid.has_cell(Coord::new(0, 0)));
    let grid = Grid::new(5, 0);
    assert!(!grid.has_cell(Coord::new(0, 0)));
}

#[test]
fn game_begins_in_the_menu() {
    assert_eq!(GameState::default(), GameState::MainMenu);
    assert_ne!(GameState::default(), GameState::Game);
}
