use game2048::cell::tile_value;
use game2048::Cell;
use rand::Rng;

#[test]
fn cell_test_empty() {
    let empty = Cell::empty();

    assert_eq!(empty, Cell::Empty);
}

#[test]
fn test_filled() {
    let mut filled = Cell::empty();

    filled.gen_filled_cell();

    assert!(filled.is_filled());
}

#[test]
fn test_get_value() {
    let mut rng = rand::thread_rng();

    let value = if rng.gen_bool(0.5) { 2 } else { 4 };

    let mut filled = Cell::empty();

    filled.set_value(value);

    assert_eq!(filled.get_value(), Some(value));
}

#[test]
fn test_set_value() {
    let mut rng = rand::thread_rng();

    let value = if rng.gen_bool(0.5) { 2 } else { 4 };

    let mut filled = Cell::empty();

    filled.set_value(value);

    assert_eq!(filled.get_value(), Some(value));
}

#[test]
fn new_cell_is_two_or_four() {
    for _ in 0..200 {
        let cell = Cell::new();
        assert!(cell == Cell::Filled(2) || cell == Cell::Filled(4));
    }
}

#[test]
fn gen_filled_cell_overwrites_a_filled_cell() {
    let mut cell = Cell::Filled(512);
    cell.gen_filled_cell();
    assert!(cell == Cell::Filled(2) || cell == Cell::Filled(4));
}

#[test]
fn empty_and_filled_queries() {
    assert!(Cell::Empty.is_empty());
    assert!(!Cell::Empty.is_filled());
    assert_eq!(Cell::Empty.get_value(), None);
    assert!(Cell::Filled(8).is_filled());
    assert!(!Cell::Filled(8).is_empty());
    assert_eq!(Cell::Filled(8).get_value(), Some(8));
}

#[test]
fn set_value_replaces_any_value() {
    let mut cell = Cell::Filled(16);
    cell.set_value(32);
    assert_eq!(cell, Cell::Filled(32));
}

#[test]
fn tile_value_follows_the_coin() {
    assert_eq!(tile_value(true), 2);
    assert_eq!(tile_value(false), 4);
}
