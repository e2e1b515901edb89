use game2048::board::{distinct_position, ROCOLMAX, ROCOLMIN};
use game2048::{Board, BoardError, Cell, Game};

const CELLS: [Cell; 16] = [
    Cell::Filled(1),
    Cell::Filled(2),
    Cell::Filled(3),
    Cell::Filled(4),
    Cell::Filled(5),
    Cell::Filled(6),
    Cell::Filled(7),
    Cell::Filled(8),
    Cell::Filled(9),
    Cell::Filled(10),
    Cell::Filled(11),
    Cell::Filled(12),
    Cell::Filled(13),
    Cell::Filled(14),
    Cell::Filled(15),
    Cell::Filled(16),
];

fn numbered_board() -> Board {
    Board::new(CELLS)
}

fn is_fresh(cell: &Cell) -> bool {
    cell.get_value() == Some(2) || cell.get_value() == Some(4)
}

#[test]
fn test_gen_board() {
    let board = Board::gen_new().unwrap();

    assert_eq!(board.get_filled_count(), 2);

    let filled = board.get_filled();

    assert!(filled[0].get_value() == Some(2) || filled[0].get_value() == Some(4));

    assert!(filled[1].get_value() == Some(2) || filled[1].get_value() == Some(4));
}

#[test]
fn test_new() {
    let board = Board::new(CELLS);

    assert_eq!(board.get_cells(), &CELLS);
}

#[test]
fn board_test_empty() {
    let board = Board::empty();

    assert_eq!(board.get_cells(), &[Cell::Empty; 16]);
}

#[test]
fn test_get_row() {
    let board = numbered_board();
    let rows = [
        [Cell::Filled(1), Cell::Filled(2), Cell::Filled(3), Cell::Filled(4)],
        [Cell::Filled(5), Cell::Filled(6), Cell::Filled(7), Cell::Filled(8)],
        [Cell::Filled(9), Cell::Filled(10), Cell::Filled(11), Cell::Filled(12)],
        [Cell::Filled(13), Cell::Filled(14), Cell::Filled(15), Cell::Filled(16)],
    ];

    assert_eq!(board.get_row(1), Ok(rows[0]));
    assert_eq!(board.get_row(2), Ok(rows[1]));
    assert_eq!(board.get_row(3), Ok(rows[2]));
    assert_eq!(board.get_row(4), Ok(rows[3]));
    assert_eq!(board.get_rows(), Ok(rows));

    assert_eq!(
        board.get_row(5),
        Err(BoardError::RangeError {
            min: ROCOLMIN,
            max: ROCOLMAX,
            value: 5,
        })
    );
}

#[test]
fn test_get_column() {
    let board = numbered_board();
    let columns = [
        [Cell::Filled(1), Cell::Filled(5), Cell::Filled(9), Cell::Filled(13)],
        [Cell::Filled(2), Cell::Filled(6), Cell::Filled(10), Cell::Filled(14)],
        [Cell::Filled(3), Cell::Filled(7), Cell::Filled(11), Cell::Filled(15)],
        [Cell::Filled(4), Cell::Filled(8), Cell::Filled(12), Cell::Filled(16)],
    ];

    assert_eq!(board.get_column(1), Ok(columns[0]));
    assert_eq!(board.get_column(2), Ok(columns[1]));
    assert_eq!(board.get_column(3), Ok(columns[2]));
    assert_eq!(board.get_column(4), Ok(columns[3]));
    assert_eq!(board.get_columns(), Ok(columns));

    assert_eq!(
        board.get_column(5),
        Err(BoardError::RangeError {
            min: ROCOLMIN,
            max: ROCOLMAX,
            value: 5,
        })
    );
}

// The cell at (row, column) is stored at (row - 1) * 4 + (column - 1).
#[test]
fn test_get_cell() {
    let board = numbered_board();
    assert_eq!(board.get_cell(1, 1), Ok(Cell::Filled(1)));
    assert_eq!(board.get_cell(2, 2), Ok(Cell::Filled(6)));
    assert_eq!(board.get_cell(3, 3), Ok(Cell::Filled(11)));
    assert_eq!(board.get_cell(4, 4), Ok(Cell::Filled(16)));
    assert_eq!(board.get_cells(), &CELLS);

    assert_eq!(
        board.get_cell(5, 5),
        Err(BoardError::RangeError {
            min: 1,
            max: 4,
            value: 5,
        })
    );
}

#[test]
fn set_then_get_round_trips_everywhere() {
    for row in 1..=4 {
        for column in 1..=4 {
            let mut board = numbered_board();
            assert_eq!(board.set_cell(row, column, Cell::Filled(64)), Ok(()));
            assert_eq!(board.get_cell(row, column), Ok(Cell::Filled(64)));
            let index = (row - 1) * 4 + (column - 1);
            for (i, cell) in board.get_cells().iter().enumerate() {
                if i != index {
                    assert_eq!(*cell, CELLS[i]);
                }
            }
        }
    }
}

#[test]
fn rows_and_columns_agree_with_single_cells() {
    let board = numbered_board();
    for i in 1..=4 {
        let row = board.get_row(i).unwrap();
        let column = board.get_column(i).unwrap();
        for j in 1..=4 {
            assert_eq!(Ok(row[j - 1]), board.get_cell(i, j));
            assert_eq!(Ok(column[j - 1]), board.get_cell(j, i));
        }
    }
}

#[test]
fn out_of_range_indices_report_the_offending_value() {
    let mut board = numbered_board();
    for bad in [0usize, 5, usize::MAX] {
        let range = || BoardError::RangeError { min: 1, max: 4, value: bad };
        assert_eq!(board.get_row(bad), Err(range()));
        assert_eq!(board.get_column(bad), Err(range()));
        assert_eq!(board.get_cell(bad, 1), Err(range()));
        assert_eq!(board.get_cell(1, bad), Err(range()));
        assert_eq!(board.set_cell(bad, 2, Cell::Filled(2)), Err(range()));
        assert_eq!(board.set_cell(2, bad, Cell::Filled(2)), Err(range()));
        assert_eq!(board.gen_cell(bad, 3), Err(range()));
        assert_eq!(board.gen_cell(3, bad), Err(range()));
    }
    assert_eq!(board.get_cells(), &CELLS);
}

#[test]
fn row_is_checked_before_column() {
    let board = Board::empty();
    assert_eq!(
        board.get_cell(0, 7),
        Err(BoardError::RangeError { min: 1, max: 4, value: 0 })
    );
}

#[test]
fn gen_cell_overwrites_with_a_fresh_tile() {
    let mut board = numbered_board();
    assert_eq!(board.gen_cell(2, 3), Ok(()));
    let cell = board.get_cell(2, 3).unwrap();
    assert!(is_fresh(&cell));
    for (i, cell) in board.get_cells().iter().enumerate() {
        if i != 6 {
            assert_eq!(*cell, CELLS[i]);
        }
    }
}

#[test]
fn gen_new_spawns_two_tiles_at_distinct_places() {
    for _ in 0..500 {
        let board = Board::gen_new().unwrap();
        let places: Vec<usize> = (0..16).filter(|&i| board.get_cells()[i].is_filled()).collect();
        assert_eq!(places.len(), 2);
        assert_ne!(places[0], places[1]);
        assert!(board.get_filled().iter().all(is_fresh));
    }
}

#[test]
fn distinct_position_skips_the_first() {
    assert_eq!(distinct_position(5, 4), 4);
    assert_eq!(distinct_position(5, 5), 6);
    assert_eq!(distinct_position(0, 0), 1);
    assert_eq!(distinct_position(15, 14), 14);
    for first in 0..16 {
        let seen: Vec<usize> = (0..15).map(|d| distinct_position(first, d)).collect();
        assert!(!seen.contains(&first));
        for w in seen.windows(2) {
            assert!(w[0] < w[1]);
        }
    }
}

#[test]
fn get_filled_keeps_storage_order() {
    let mut board = Board::empty();
    board.set_cell(3, 2, Cell::Filled(8)).unwrap();
    board.set_cell(1, 4, Cell::Filled(2)).unwrap();
    board.set_cell(4, 4, Cell::Filled(4)).unwrap();
    assert_eq!(board.get_filled(), vec![Cell::Filled(2), Cell::Filled(8), Cell::Filled(4)]);
    assert_eq!(board.get_filled_count(), 3);
    assert_eq!(Board::empty().get_filled_count(), 0);
}

#[test]
fn empty_positions_lists_the_holes_in_order() {
    let mut board = numbered_board();
    board.set_cell(1, 2, Cell::Empty).unwrap();
    board.set_cell(4, 1, Cell::Empty).unwrap();
    assert_eq!(board.empty_positions(), vec![1, 12]);
    assert_eq!(numbered_board().empty_positions(), Vec::<usize>::new());
}

#[test]
fn spawn_fills_exactly_one_empty_cell() {
    let mut board = numbered_board();
    board.set_cell(2, 2, Cell::Empty).unwrap();
    board.set_cell(3, 4, Cell::Empty).unwrap();
    assert_eq!(board.spawn(), Ok(()));
    let holes = board.empty_positions();
    assert_eq!(holes.len(), 1);
    let filled_hole = if holes[0] == 5 { 11 } else { 5 };
    assert!(holes[0] == 5 || holes[0] == 11);
    assert!(is_fresh(&board.get_cells()[filled_hole]));
}

#[test]
fn spawn_on_a_full_board_fails() {
    let mut board = numbered_board();
    assert_eq!(board.spawn(), Err(BoardError::BoardFull));
    assert_eq!(board.get_cells(), &CELLS);
}

#[test]
fn game_starts_with_two_tiles() {
    let mut game = Game::new().unwrap();
    assert_eq!(game.get_board().get_filled_count(), 2);
    game.get_board_mut().set_cell(1, 1, Cell::Filled(1024)).unwrap();
    assert_eq!(game.get_board().get_cell(1, 1), Ok(Cell::Filled(1024)));
}

#[test]
fn with_two_tiles_places_the_drawn_values_at_the_drawn_places() {
    let board = Board::with_two_tiles(5, 5, true, false);
    assert_eq!(board.get_cell(2, 2), Ok(Cell::Filled(2)));
    assert_eq!(board.get_cell(2, 3), Ok(Cell::Filled(4)));
    assert_eq!(board.get_filled_count(), 2);

    let board = Board::with_two_tiles(9, 3, false, true);
    assert_eq!(board.get_cell(3, 2), Ok(Cell::Filled(4)));
    assert_eq!(board.get_cell(1, 4), Ok(Cell::Filled(2)));
    for (i, cell) in board.get_cells().iter().enumerate() {
        if i != 9 && i != 3 {
            assert_eq!(*cell, Cell::Empty);
        }
    }
}

#[test]
fn spawn_at_fills_the_chosen_empty_cell() {
    let mut board = numbered_board();
    board.set_cell(1, 3, Cell::Empty).unwrap();
    board.set_cell(3, 1, Cell::Empty).unwrap();
    board.set_cell(4, 4, Cell::Empty).unwrap();
    let start = board;

    assert_eq!(board.spawn_at(1, false), Ok(()));
    assert_eq!(board.get_cell(3, 1), Ok(Cell::Filled(4)));
    assert_eq!(board.get_cell(1, 3), Ok(Cell::Empty));
    assert_eq!(board.get_cell(4, 4), Ok(Cell::Empty));

    let mut other = start;
    assert_eq!(other.spawn_at(2, true), Ok(()));
    assert_eq!(other.get_cell(4, 4), Ok(Cell::Filled(2)));
    assert_eq!(other.empty_positions(), vec![2, 8]);

    let mut full = numbered_board();
    assert_eq!(full.spawn_at(0, true), Err(BoardError::BoardFull));
    assert_eq!(full.get_cells(), &CELLS);
}
