//! The 4×4 board: addressing, spawning tiles, and resolving moves.
//!
//! Cells are stored in row-major order; rows and columns are numbered from 1, and
//! the cell at (row, column) sits at index `(row - 1) * 4 + (column - 1)`.
use vstd::prelude::*;

use crate::cell::{fresh_value, is_fresh_tile, tile_value, Cell};
use crate::direction::{axis_of, Axis, Direction};
use crate::errors::BoardError;
use crate::line::{
    all_filled, all_wf, lemma_full_slide_unchanged, lemma_locked_unchanged, lemma_slide_wf, locked, slid,
    slide_line, slide_overflows,
};
use crate::random::{random_below, random_coin};

verus! {

/// The smallest row or column number.
pub const ROCOLMIN: usize = 1;

/// The largest row or column number: the side of the square grid.
pub const ROCOLMAX: usize = 4;

/// Whether `v` numbers a row or a column.
pub open spec fn in_range(v: int) -> bool {
    1 <= v <= 4
}

/// The storage index of the cell at (`row`, `column`).
pub open spec fn cell_index(row: int, column: int) -> int {
    (row - 1) * 4 + (column - 1)
}

/// The error that reports `value` as a row or column number out of range.
pub open spec fn range_error(value: usize) -> BoardError {
    BoardError::RangeError { min: 1, max: 4, value }
}

/// The error for a pair of coordinates, if any: the row is checked first.
pub open spec fn coord_error(row: usize, column: usize) -> Option<BoardError> {
    if !in_range(row as int) {
        Some(range_error(row))
    } else if !in_range(column as int) {
        Some(range_error(column))
    } else {
        None
    }
}

/// The storage index of position `pos` of line `line` when moving in `direction`:
/// position 0 is at the edge the tiles move toward.
pub open spec fn motion_index(direction: Direction, line: int, pos: int) -> int {
    match direction {
        Direction::Up => pos * 4 + line,
        Direction::Down => (3 - pos) * 4 + line,
        Direction::Left => line * 4 + pos,
        Direction::Right => line * 4 + (3 - pos),
    }
}

/// The line that storage index `i` lies on when moving in `direction`.
pub open spec fn line_of(direction: Direction, i: int) -> int {
    match direction {
        Direction::Up | Direction::Down => i % 4,
        Direction::Left | Direction::Right => i / 4,
    }
}

/// The position along its line of storage index `i` when moving in `direction`.
pub open spec fn pos_of(direction: Direction, i: int) -> int {
    match direction {
        Direction::Up => i / 4,
        Direction::Down => 3 - i / 4,
        Direction::Left => i % 4,
        Direction::Right => 3 - i % 4,
    }
}

/// Line `line` of `cells` in motion order for `direction`.
pub open spec fn line_cells(cells: Seq<Cell>, direction: Direction, line: int) -> Seq<Cell> {
    Seq::new(4, |p: int| cells[motion_index(direction, line, p)])
}

/// `cells` after a move in `direction`: each line slides and merges on its own.
pub open spec fn moved(cells: Seq<Cell>, direction: Direction) -> Seq<Cell> {
    Seq::new(
        16,
        |i: int| slid(line_cells(cells, direction, line_of(direction, i)))[pos_of(direction, i)],
    )
}

/// Whether a move in `direction` would merge two tiles into one too large to hold.
pub open spec fn move_overflows(cells: Seq<Cell>, direction: Direction) -> bool {
    exists|l: int| 0 <= l < 4 && slide_overflows(#[trigger] line_cells(cells, direction, l))
}

/// The filled cells of `cells`, in storage order.
pub open spec fn filled_cells(cells: Seq<Cell>) -> Seq<Cell>
    decreases cells.len(),
{
    if cells.len() == 0 {
        Seq::empty()
    } else {
        let rest = filled_cells(cells.drop_last());
        if cells.last() is Filled {
            rest.push(cells.last())
        } else {
            rest
        }
    }
}

/// The storage indices of the empty cells of `cells`, in increasing order.
pub open spec fn empty_indices(cells: Seq<Cell>) -> Seq<int>
    decreases cells.len(),
{
    if cells.len() == 0 {
        Seq::empty()
    } else {
        let rest = empty_indices(cells.drop_last());
        if cells.last() is Empty {
            rest.push(cells.len() - 1)
        } else {
            rest
        }
    }
}

/// The board of sixteen cells that holds a tile of `first_value` at `first`, one of
/// `second_value` at `second`, and nothing else.
pub open spec fn two_tile_cells(first: int, first_value: u128, second: int, second_value: u128) -> Seq<Cell> {
    Seq::new(16, |i: int| Cell::Empty).update(first, Cell::Filled(first_value)).update(
        second,
        Cell::Filled(second_value),
    )
}

/// Whether `cells` holds an empty cell.
pub open spec fn has_empty(cells: Seq<Cell>) -> bool {
    exists|i: int| 0 <= i < cells.len() && (#[trigger] cells[i]) is Empty
}

/// Whether `after` is `before` with one empty cell filled with a fresh tile.
pub open spec fn spawned_into(before: Seq<Cell>, after: Seq<Cell>) -> bool {
    exists|i: int|
        0 <= i < before.len() && before[i] is Empty && is_fresh_tile(#[trigger] after[i])
            && after == before.update(i, after[i])
}

/// Whether `cells` holds exactly two tiles, both fresh, at two different places.
pub open spec fn two_fresh_tiles(cells: Seq<Cell>) -> bool {
    exists|i: int, j: int|
        0 <= i < cells.len() && 0 <= j < cells.len() && i != j && is_fresh_tile(#[trigger] cells[i])
            && is_fresh_tile(#[trigger] cells[j]) && forall|k: int|
            0 <= k < cells.len() && k != i && k != j ==> (#[trigger] cells[k]) is Empty
}

/// When every line along `direction` is full with no equal neighbours, a move in
/// `direction` neither overflows nor changes anything, so it reports no change and
/// spawns no tile.
pub proof fn lemma_locked_move_is_noop(cells: Seq<Cell>, direction: Direction)
    requires
        cells.len() == 16,
        forall|l: int| 0 <= l < 4 ==> locked(#[trigger] line_cells(cells, direction, l)),
    ensures
        !move_overflows(cells, direction),
        moved(cells, direction) == cells,
{
    assert forall|l: int| 0 <= l < 4 implies !slide_overflows(
        #[trigger] line_cells(cells, direction, l),
    ) && slid(line_cells(cells, direction, l)) == line_cells(cells, direction, l) by {
        let lc = line_cells(cells, direction, l);
        lemma_locked_unchanged(lc);
    }
    assert forall|i: int| 0 <= i < 16 implies moved(cells, direction)[i] == cells[i] by {
        lemma_index_on_line(direction, i);
    }
    assert(moved(cells, direction) =~= cells);
}

/// A move that changes the board leaves at least one empty cell behind.
pub proof fn lemma_changed_move_leaves_room(cells: Seq<Cell>, direction: Direction)
    requires
        cells.len() == 16,
        moved(cells, direction) != cells,
    ensures
        has_empty(moved(cells, direction)),
{
    let m = moved(cells, direction);
    if !has_empty(m) {
        assert forall|l: int| 0 <= l < 4 implies slid(#[trigger] line_cells(cells, direction, l))
            == line_cells(cells, direction, l) by {
            let lc = line_cells(cells, direction, l);
            assert forall|p: int| 0 <= p < lc.len() implies (#[trigger] slid(lc)[p]) is Filled by {
                lemma_motion_index(direction, l, p);
                let i = motion_index(direction, l, p);
                assert(m[i] is Filled);
            }
            lemma_full_slide_unchanged(lc);
        }
        assert forall|i: int| 0 <= i < 16 implies m[i] == cells[i] by {
            lemma_index_on_line(direction, i);
        }
        assert(m =~= cells);
    }
}

/// The cells of a board of two fresh tiles at distinct places: the filled cells are
/// exactly two, both fresh.
proof fn lemma_two_fresh_filled(cells: Seq<Cell>, i: int, j: int, n: int)
    requires
        0 <= i < cells.len(),
        0 <= j < cells.len(),
        i != j,
        is_fresh_tile(cells[i]),
        is_fresh_tile(cells[j]),
        forall|k: int| 0 <= k < cells.len() && k != i && k != j ==> (#[trigger] cells[k]) is Empty,
        0 <= n <= cells.len(),
    ensures
        filled_cells(cells.subrange(0, n)).len() == (if i < n { 1int } else { 0 }) + (if j < n {
            1int
        } else {
            0
        }),
        forall|k: int|
            0 <= k < filled_cells(cells.subrange(0, n)).len() ==> is_fresh_tile(
                #[trigger] filled_cells(cells.subrange(0, n))[k],
            ),
    decreases n,
{
    if n > 0 {
        assert(cells.subrange(0, n).drop_last() =~= cells.subrange(0, n - 1));
        lemma_two_fresh_filled(cells, i, j, n - 1);
    }
}

/// The second of two distinct positions among sixteen, from a draw among the fifteen
/// positions other than `first`: the draw counts them in order, skipping `first`.
pub fn distinct_position(first: usize, draw: usize) -> (r: usize)
    requires
        first < 16,
        draw < 15,
    ensures
        r == (if draw < first { draw } else { (draw + 1) as usize }),
        r < 16,
        r != first,
{
    if draw < first {
        draw
    } else {
        draw + 1
    }
}

/// A move that does not overflow keeps every tile a power of two no smaller than 2.
pub proof fn lemma_move_wf(cells: Seq<Cell>, direction: Direction)
    requires
        cells.len() == 16,
        all_wf(cells),
        !move_overflows(cells, direction),
    ensures
        all_wf(moved(cells, direction)),
{
    assert forall|i: int| 0 <= i < 16 implies (#[trigger] moved(cells, direction)[i]).wf() by {
        lemma_index_on_line(direction, i);
        let l = line_of(direction, i);
        let lc = line_cells(cells, direction, l);
        assert forall|p: int| 0 <= p < 4 implies (#[trigger] lc[p]).wf() by {
            lemma_motion_index(direction, l, p);
        }
        assert(!slide_overflows(lc));
        lemma_slide_wf(lc);
    }
}

/// Writing a cell and reading it back gives the value written, and every other cell
/// reads as before; a row or a column read whole agrees with its cells read one by one.
pub proof fn lemma_addressing(before: Board, after: Board, row: int, column: int, value: Cell)
    requires
        in_range(row),
        in_range(column),
        after@ == before@.update(cell_index(row, column), value),
    ensures
        after.cell_at(row, column) == value,
        forall|r: int, c: int|
            in_range(r) && in_range(c) && (r != row || c != column) ==> #[trigger] after.cell_at(
                r,
                c,
            ) == before.cell_at(r, c),
        forall|c: int| in_range(c) ==> #[trigger] before.row_at(row)[c - 1] == before.cell_at(row, c),
        forall|r: int|
            in_range(r) ==> #[trigger] before.column_at(column)[r - 1] == before.cell_at(r, column),
{
    before.lemma_len();
}

/// The position in `motion_index` order is a bijection between lines × positions and
/// storage indices.
proof fn lemma_motion_index(direction: Direction, line: int, pos: int)
    requires
        0 <= line < 4,
        0 <= pos < 4,
    ensures
        0 <= motion_index(direction, line, pos) < 16,
        line_of(direction, motion_index(direction, line, pos)) == line,
        pos_of(direction, motion_index(direction, line, pos)) == pos,
{
}

proof fn lemma_index_on_line(direction: Direction, i: int)
    requires
        0 <= i < 16,
    ensures
        0 <= line_of(direction, i) < 4,
        0 <= pos_of(direction, i) < 4,
        motion_index(direction, line_of(direction, i), pos_of(direction, i)) == i,
{
}

/// The storage index of the cell at (`row`, `column`).
fn index_of(row: usize, column: usize) -> (r: usize)
    requires
        in_range(row as int),
        in_range(column as int),
    ensures
        r == cell_index(row as int, column as int),
        r < 16,
{
    (row - 1) * 4 + (column - 1)
}

/// Whether `value` numbers a row or a column, as a result carrying the range error.
fn check_range(value: usize) -> (r: Result<(), BoardError>)
    ensures
        in_range(value as int) ==> r == Ok::<(), BoardError>(()),
        !in_range(value as int) ==> r == Err::<(), BoardError>(range_error(value)),
{
    if ROCOLMIN <= value && value <= ROCOLMAX {
        Ok(())
    } else {
        Err(BoardError::RangeError { min: ROCOLMIN, max: ROCOLMAX, value })
    }
}

/// Checks a pair of coordinates, the row first.
fn check_coords(row: usize, column: usize) -> (r: Result<(), BoardError>)
    ensures
        match coord_error(row, column) {
            Some(e) => r == Err::<(), BoardError>(e),
            None => r == Ok::<(), BoardError>(()),
        },
{
    match check_range(row) {
        Err(e) => Err(e),
        Ok(()) => check_range(column),
    }
}

/// The storage index of position `pos` of line `line` when moving in `direction`.
fn motion_index_of(direction: Direction, line: usize, pos: usize) -> (r: usize)
    requires
        line < 4,
        pos < 4,
    ensures
        r == motion_index(direction, line as int, pos as int),
        r < 16,
{
    match direction {
        Direction::Up => pos * 4 + line,
        Direction::Down => (3 - pos) * 4 + line,
        Direction::Left => line * 4 + pos,
        Direction::Right => line * 4 + (3 - pos),
    }
}

/// Whether two cell arrays differ somewhere.
fn differs(a: &[Cell; 16], b: &[Cell; 16]) -> (r: bool)
    ensures
        r == (a@ != b@),
{
    let mut i: usize = 0;
    while i < 16
        invariant
            i <= 16,
            forall|j: int| 0 <= j < i ==> a@[j] == b@[j],
        decreases 16 - i,
    {
        if a[i] != b[i] {
            return true;
        }
        i += 1;
    }
    assert(a@ =~= b@);
    false
}

/// A 4×4 grid of cells.
#[derive(Debug, Clone, Copy, PartialEq, Eq)]
pub struct Board {
    cells: [Cell; 16],
}

impl View for Board {
    type V = Seq<Cell>;

    /// The cells in storage order.
    closed spec fn view(&self) -> Seq<Cell> {
        self.cells@
    }
}

impl Board {
    /// The cell at (`row`, `column`); meaningful for coordinates in range.
    pub open spec fn cell_at(self, row: int, column: int) -> Cell {
        self@[cell_index(row, column)]
    }

    /// Row `row`, left to right.
    pub open spec fn row_at(self, row: int) -> Seq<Cell> {
        Seq::new(4, |c: int| self.cell_at(row, c + 1))
    }

    /// Column `column`, top to bottom.
    pub open spec fn column_at(self, column: int) -> Seq<Cell> {
        Seq::new(4, |r: int| self.cell_at(r + 1, column))
    }

    /// The view always has sixteen cells.
    pub proof fn lemma_len(self)
        ensures
            self@.len() == 16,
    {
    }

    /// A board holding `cells`, in row-major order.
    pub fn new(cells: [Cell; 16]) -> (r: Board)
        ensures
            r@ == cells@,
    {
        Board { cells }
    }

    /// A board of empty cells.
    pub fn empty() -> (r: Board)
        ensures
            r@ == Seq::new(16, |i: int| Cell::Empty),
    {
        let r = Board::new([Cell::Empty; 16]);
        assert(r@ =~= Seq::new(16, |i: int| Cell::Empty));
        r
    }

    /// The cells in storage order.
    pub fn get_cells(&self) -> (r: &[Cell; 16])
        ensures
            r@ == self@,
    {
        &self.cells
    }

    /// Row `row` (in range), left to right.
    fn row_of(&self, row: usize) -> (r: [Cell; 4])
        requires
            in_range(row as int),
        ensures
            r@ == self.row_at(row as int),
    {
        let r = [
            self.cells[index_of(row, 1)],
            self.cells[index_of(row, 2)],
            self.cells[index_of(row, 3)],
            self.cells[index_of(row, 4)],
        ];
        assert(r@ =~= self.row_at(row as int));
        r
    }

    /// Column `column` (in range), top to bottom.
    fn column_of(&self, column: usize) -> (r: [Cell; 4])
        requires
            in_range(column as int),
        ensures
            r@ == self.column_at(column as int),
    {
        let r = [
            self.cells[index_of(1, column)],
            self.cells[index_of(2, column)],
            self.cells[index_of(3, column)],
            self.cells[index_of(4, column)],
        ];
        assert(r@ =~= self.column_at(column as int));
        r
    }

    /// All four rows, from row 1 down; never fails.
    pub fn get_rows(&self) -> (r: Result<[[Cell; 4]; 4], BoardError>)
        ensures
            match r {
                Ok(rows) => forall|i: int| 0 <= i < 4 ==> (#[trigger] rows[i])@ == self.row_at(i + 1),
                Err(_) => false,
            },
    {
        Ok([self.row_of(1), self.row_of(2), self.row_of(3), self.row_of(4)])
    }

    /// Row `row`, left to right, or the range error for `row`.
    pub fn get_row(&self, row: usize) -> (r: Result<[Cell; 4], BoardError>)
        ensures
            match r {
                Ok(cells) => in_range(row as int) && cells@ == self.row_at(row as int),
                Err(e) => !in_range(row as int) && e == range_error(row),
            },
    {
        match check_range(row) {
            Err(e) => Err(e),
            Ok(()) => Ok(self.row_of(row)),
        }
    }

    /// All four columns, from column 1 rightward; never fails.
    pub fn get_columns(&self) -> (r: Result<[[Cell; 4]; 4], BoardError>)
        ensures
            match r {
                Ok(columns) => forall|i: int|
                    0 <= i < 4 ==> (#[trigger] columns[i])@ == self.column_at(i + 1),
                Err(_) => false,
            },
    {
        Ok([self.column_of(1), self.column_of(2), self.column_of(3), self.column_of(4)])
    }

    /// Column `column`, top to bottom, or the range error for `column`.
    pub fn get_column(&self, column: usize) -> (r: Result<[Cell; 4], BoardError>)
        ensures
            match r {
                Ok(cells) => in_range(column as int) && cells@ == self.column_at(column as int),
                Err(e) => !in_range(column as int) && e == range_error(column),
            },
    {
        match check_range(column) {
            Err(e) => Err(e),
            Ok(()) => Ok(self.column_of(column)),
        }
    }

    /// The cell at (`row`, `column`), or the range error of the row, else of the column.
    pub fn get_cell(&self, row: usize, column: usize) -> (r: Result<Cell, BoardError>)
        ensures
            match coord_error(row, column) {
                Some(e) => r == Err::<Cell, BoardError>(e),
                None => r == Ok::<Cell, BoardError>(self.cell_at(row as int, column as int)),
            },
    {
        match check_coords(row, column) {
            Err(e) => Err(e),
            Ok(()) => Ok(self.cells[index_of(row, column)]),
        }
    }

    /// Puts `value` at (`row`, `column`). On a range error nothing changes.
    pub fn set_cell(&mut self, row: usize, column: usize, value: Cell) -> (r: Result<
        (),
        BoardError,
    >)
        ensures
            match coord_error(row, column) {
                Some(e) => r == Err::<(), BoardError>(e) && final(self)@ == old(self)@,
                None => r == Ok::<(), BoardError>(()) && final(self)@ == old(self)@.update(
                    cell_index(row as int, column as int),
                    value,
                ),
            },
    {
        match check_coords(row, column) {
            Err(e) => Err(e),
            Ok(()) => {
                self.cells[index_of(row, column)] = value;
                Ok(())
            },
        }
    }

    /// Overwrites the cell at (`row`, `column`), whatever it held, with a fresh tile of
    /// 2 or 4. On a range error nothing changes.
    pub fn gen_cell(&mut self, row: usize, column: usize) -> (r: Result<(), BoardError>)
        ensures
            match coord_error(row, column) {
                Some(e) => r == Err::<(), BoardError>(e) && final(self)@ == old(self)@,
                None => {
                    let i = cell_index(row as int, column as int);
                    &&& r == Ok::<(), BoardError>(())
                    &&& is_fresh_tile(final(self)@[i])
                    &&& final(self)@ == old(self)@.update(i, final(self)@[i])
                },
            },
    {
        match check_coords(row, column) {
            Err(e) => Err(e),
            Ok(()) => {
                let i = index_of(row, column);
                let mut cell = self.cells[i];
                cell.gen_filled_cell();
                self.cells[i] = cell;
                Ok(())
            },
        }
    }

    /// The filled cells, in storage order.
    pub fn get_filled(&self) -> (r: Vec<Cell>)
        ensures
            r@ == filled_cells(self@),
    {
        let mut r: Vec<Cell> = Vec::new();
        let mut i: usize = 0;
        while i < 16
            invariant
                i <= 16,
                r@ == filled_cells(self.cells@.subrange(0, i as int)),
            decreases 16 - i,
        {
            assert(self.cells@.subrange(0, i + 1).drop_last() =~= self.cells@.subrange(0, i as int));
            if self.cells[i].is_filled() {
                r.push(self.cells[i]);
            }
            i += 1;
        }
        assert(self.cells@.subrange(0, 16) =~= self.cells@);
        r
    }

    /// How many cells are filled.
    pub fn get_filled_count(&self) -> (r: usize)
        ensures
            r == filled_cells(self@).len(),
    {
        self.get_filled().len()
    }

    /// The cells after a move in `direction`, or the overflow that stops it.
    fn resolve(&self, direction: Direction) -> (r: Result<[Cell; 16], BoardError>)
        ensures
            match r {
                Ok(next) => !move_overflows(self@, direction) && next@ == moved(self@, direction),
                Err(e) => move_overflows(self@, direction) && e is Overflow,
            },
    {
        let mut next: [Cell; 16] = self.cells;
        let mut l: usize = 0;
        while l < 4
            invariant
                l <= 4,
                forall|i: int|
                    0 <= i < 16 ==> next@[i] == (if line_of(direction, i) < l {
                        moved(self@, direction)[i]
                    } else {
                        self@[i]
                    }),
                forall|k: int|
                    0 <= k < l ==> !slide_overflows(#[trigger] line_cells(self@, direction, k)),
            decreases 4 - l,
        {
            let i0 = motion_index_of(direction, l, 0);
            let i1 = motion_index_of(direction, l, 1);
            let i2 = motion_index_of(direction, l, 2);
            let i3 = motion_index_of(direction, l, 3);
            let line = [self.cells[i0], self.cells[i1], self.cells[i2], self.cells[i3]];
            let ghost lc = line_cells(self@, direction, l as int);
            assert(line@ =~= lc);
            match slide_line(line) {
                Err(e) => {
                    return Err(e);
                },
                Ok(out) => {
                    let ghost before = next@;
                    next[i0] = out[0];
                    next[i1] = out[1];
                    next[i2] = out[2];
                    next[i3] = out[3];
                    proof {
                        lemma_motion_index(direction, l as int, 0);
                        lemma_motion_index(direction, l as int, 1);
                        lemma_motion_index(direction, l as int, 2);
                        lemma_motion_index(direction, l as int, 3);
                        assert forall|i: int| 0 <= i < 16 implies next@[i] == (if line_of(
                            direction,
                            i,
                        ) < l + 1 {
                            moved(self@, direction)[i]
                        } else {
                            self@[i]
                        }) by {
                            lemma_index_on_line(direction, i);
                            if line_of(direction, i) == l {
                                let p = pos_of(direction, i);
                                assert(next@[i] == out@[p]);
                            } else {
                                assert(next@[i] == before[i]);
                            }
                        }
                    }
                },
            }
            l += 1;
        }
        assert(next@ =~= moved(self@, direction));
        Ok(next)
    }

    /// Applies a move in `direction` along either axis and says whether it changed the
    /// board; an overflow leaves the board as it was.
    fn move_along(&mut self, direction: Direction) -> (r: Result<bool, BoardError>)
        ensures
            match r {
                Ok(changed) => {
                    &&& !move_overflows(old(self)@, direction)
                    &&& final(self)@ == moved(old(self)@, direction)
                    &&& changed == (moved(old(self)@, direction) != old(self)@)
                },
                Err(e) => move_overflows(old(self)@, direction) && e is Overflow && final(self)@ == old(self)@,
            },
    {
        match self.resolve(direction) {
            Err(e) => Err(e),
            Ok(next) => {
                let changed = differs(&next, &self.cells);
                self.cells = next;
                Ok(changed)
            },
        }
    }

    /// Moves every row; only Left and Right lie on this axis, any other direction is
    /// refused with `InvalidMoveDirection` and changes nothing.
    fn move_x(&mut self, direction: &Direction) -> (r: Result<bool, BoardError>)
        ensures
            axis_of(*direction) == Axis::Y ==> r == Err::<bool, BoardError>(
                BoardError::InvalidMoveDirection(*direction, Axis::X),
            ) && final(self)@ == old(self)@,
            axis_of(*direction) == Axis::X ==> match r {
                Ok(changed) => {
                    &&& !move_overflows(old(self)@, *direction)
                    &&& final(self)@ == moved(old(self)@, *direction)
                    &&& changed == (moved(old(self)@, *direction) != old(self)@)
                },
                Err(e) => move_overflows(old(self)@, *direction) && e is Overflow && final(self)@ == old(self)@,
            },
    {
        match direction {
            Direction::Left | Direction::Right => self.move_along(*direction),
            _ => Err(BoardError::InvalidMoveDirection(*direction, Axis::X)),
        }
    }

    /// Moves every column; only Up and Down lie on this axis, any other direction is
    /// refused with `InvalidMoveDirection` and changes nothing.
    fn move_y(&mut self, direction: &Direction) -> (r: Result<bool, BoardError>)
        ensures
            axis_of(*direction) == Axis::X ==> r == Err::<bool, BoardError>(
                BoardError::InvalidMoveDirection(*direction, Axis::Y),
            ) && final(self)@ == old(self)@,
            axis_of(*direction) == Axis::Y ==> match r {
                Ok(changed) => {
                    &&& !move_overflows(old(self)@, *direction)
                    &&& final(self)@ == moved(old(self)@, *direction)
                    &&& changed == (moved(old(self)@, *direction) != old(self)@)
                },
                Err(e) => move_overflows(old(self)@, *direction) && e is Overflow && final(self)@ == old(self)@,
            },
    {
        match direction {
            Direction::Up | Direction::Down => self.move_along(*direction),
            _ => Err(BoardError::InvalidMoveDirection(*direction, Axis::Y)),
        }
    }

    /// The board that the random draws of `gen_new` give: the first tile sits at storage
    /// index `first`; `draw` picks the second among the other fifteen indices, counted
    /// in order; each coin gives its tile's value, 2 on heads and 4 on tails.
    pub fn with_two_tiles(first: usize, draw: usize, first_heads: bool, second_heads: bool) -> (r:
        Board)
        requires
            first < 16,
            draw < 15,
        ensures
            r@ == two_tile_cells(
                first as int,
                fresh_value(first_heads),
                if draw < first { draw as int } else { draw + 1 },
                fresh_value(second_heads),
            ),
    {
        let second = distinct_position(first, draw);
        let mut board = Board::empty();
        board.cells[first] = Cell::Filled(tile_value(first_heads));
        board.cells[second] = Cell::Filled(tile_value(second_heads));
        assert(board@ =~= two_tile_cells(
            first as int,
            fresh_value(first_heads),
            second as int,
            fresh_value(second_heads),
        ));
        board
    }

    /// A board of two fresh tiles, 2 or 4 each with even odds, at two different
    /// places chosen uniformly at random; every other cell is empty. Never fails.
    pub fn gen_new() -> (r: Result<Board, BoardError>)
        ensures
            match r {
                Ok(board) => {
                    &&& two_fresh_tiles(board@)
                    &&& filled_cells(board@).len() == 2
                    &&& forall|k: int|
                        0 <= k < 2 ==> is_fresh_tile(#[trigger] filled_cells(board@)[k])
                },
                Err(_) => false,
            },
    {
        let first = random_below(16);
        let draw = random_below(15);
        let first_heads = random_coin();
        let second_heads = random_coin();
        let board = Board::with_two_tiles(first, draw, first_heads, second_heads);
        proof {
            let s = board@;
            let second: int = if draw < first { draw as int } else { draw + 1 };
            assert(is_fresh_tile(s[first as int]));
            assert(is_fresh_tile(s[second]));
            assert forall|k: int| 0 <= k < 16 && k != first && k != second implies (
            #[trigger] s[k]) is Empty by {}
            lemma_two_fresh_filled(s, first as int, second, 16);
            assert(s.subrange(0, 16) =~= s);
        }
        Ok(board)
    }

    /// The storage indices of the empty cells, in increasing order.
    pub fn empty_positions(&self) -> (r: Vec<usize>)
        ensures
            forall|k: int| 0 <= k < r@.len() ==> r@[k] < 16 && self@[r@[k] as int] is Empty,
            forall|a: int, b: int| 0 <= a < b < r@.len() ==> r@[a] < r@[b],
            forall|i: int| 0 <= i < 16 && self@[i] is Empty ==> r@.contains(i as usize),
            r@.len() == empty_indices(self@).len(),
            forall|k: int| 0 <= k < r@.len() ==> r@[k] as int == #[trigger] empty_indices(self@)[k],
    {
        let mut r: Vec<usize> = Vec::new();
        let mut i: usize = 0;
        while i < 16
            invariant
                i <= 16,
                forall|k: int| 0 <= k < r@.len() ==> r@[k] < i && self@[r@[k] as int] is Empty,
                forall|a: int, b: int| 0 <= a < b < r@.len() ==> r@[a] < r@[b],
                forall|j: int| 0 <= j < i && self@[j] is Empty ==> r@.contains(j as usize),
                r@.len() == empty_indices(self@.subrange(0, i as int)).len(),
                forall|k: int|
                    0 <= k < r@.len() ==> r@[k] as int == #[trigger] empty_indices(
                        self@.subrange(0, i as int),
                    )[k],
            decreases 16 - i,
        {
            assert(self@.subrange(0, i + 1).drop_last() =~= self@.subrange(0, i as int));
            if self.cells[i].is_empty() {
                let ghost before = r@;
                r.push(i);
                assert forall|j: int| 0 <= j < i + 1 && self@[j] is Empty implies r@.contains(
                    j as usize,
                ) by {
                    if j < i {
                        let k = choose|k: int| 0 <= k < before.len() && before[k] == j as usize;
                        assert(r@[k] == j as usize);
                    } else {
                        assert(r@[before.len() as int] == i);
                    }
                }
            }
            i += 1;
        }
        assert(self@.subrange(0, 16) =~= self@);
        r
    }

    /// Puts a tile of 2 (on heads) or 4 (on tails) into the `k`-th empty cell, counting
    /// in storage order from 0. Fails with `BoardFull`, changing nothing, when no cell
    /// is empty.
    pub fn spawn_at(&mut self, k: usize, heads: bool) -> (r: Result<(), BoardError>)
        requires
            has_empty(old(self)@) ==> k < empty_indices(old(self)@).len(),
        ensures
            match r {
                Ok(()) => {
                    &&& has_empty(old(self)@)
                    &&& final(self)@ == old(self)@.update(
                        empty_indices(old(self)@)[k as int],
                        Cell::Filled(fresh_value(heads)),
                    )
                },
                Err(e) => !has_empty(old(self)@) && e == BoardError::BoardFull && final(self)@
                    == old(self)@,
            },
    {
        let empties = self.empty_positions();
        if empties.len() == 0 {
            assert forall|i: int| 0 <= i < 16 implies !(#[trigger] self@[i] is Empty) by {
                if self@[i] is Empty {
                    assert(empties@.contains(i as usize));
                }
            }
            return Err(BoardError::BoardFull);
        }
        assert(self@[empties@[0] as int] is Empty);
        let i = empties[k];
        assert(i as int == empty_indices(self@)[k as int]);
        self.cells[i] = Cell::Filled(tile_value(heads));
        Ok(())
    }

    /// Puts a fresh tile, 2 or 4 with even odds, into an empty cell chosen uniformly at
    /// random. Fails with `BoardFull`, changing nothing, when no cell is empty.
    pub fn spawn(&mut self) -> (r: Result<(), BoardError>)
        ensures
            match r {
                Ok(()) => has_empty(old(self)@) && spawned_into(old(self)@, final(self)@),
                Err(e) => !has_empty(old(self)@) && e == BoardError::BoardFull && final(self)@
                    == old(self)@,
            },
    {
        let empties = self.empty_positions();
        if empties.len() == 0 {
            return self.spawn_at(0, true);
        }
        let ghost before = self@;
        let k = random_below(empties.len());
        assert(before[empties@[k as int] as int] is Empty);
        let r = self.spawn_at(k, random_coin());
        proof {
            let i = empty_indices(before)[k as int];
            assert(self@[i] == Cell::Filled(fresh_value(true)) || self@[i] == Cell::Filled(
                fresh_value(false),
            ));
            assert(self@ =~= before.update(i, self@[i]));
        }
        r
    }

    /// One turn: resolves a move in `direction` as `update` does and, only when it
    /// changed the board, spawns a fresh tile into one of the empty cells. A move that
    /// changes nothing spawns nothing.
    pub fn play(&mut self, direction: Direction) -> (r: Result<bool, BoardError>)
        ensures
            match r {
                Ok(changed) => {
                    &&& !move_overflows(old(self)@, direction)
                    &&& changed == (moved(old(self)@, direction) != old(self)@)
                    &&& changed ==> spawned_into(moved(old(self)@, direction), final(self)@)
                    &&& !changed ==> final(self)@ == old(self)@
                },
                Err(e) => move_overflows(old(self)@, direction) && e is Overflow && final(self)@
                    == old(self)@,
            },
    {
        let ghost start = self@;
        match self.update(direction) {
            Err(e) => Err(e),
            Ok(false) => Ok(false),
            Ok(true) => {
                proof {
                    lemma_changed_move_leaves_room(start, direction);
                }
                match self.spawn() {
                    Err(e) => Err(e),
                    Ok(()) => Ok(true),
                }
            },
        }
    }

    /// Resolves a move in `direction`: every tile slides as far as it can, equal
    /// neighbours merge once, and the result says whether the board changed. When a
    /// merged tile would not fit in a `u128` the move fails with `Overflow` and the
    /// board is left as it was. No tile is spawned here.
    pub fn update(&mut self, direction: Direction) -> (r: Result<bool, BoardError>)
        ensures
            match r {
                Ok(changed) => {
                    &&& !move_overflows(old(self)@, direction)
                    &&& final(self)@ == moved(old(self)@, direction)
                    &&& changed == (moved(old(self)@, direction) != old(self)@)
                },
                Err(e) => move_overflows(old(self)@, direction) && e is Overflow && final(self)@ == old(self)@,
            },
    {
        match Axis::from(direction) {
            Axis::X => self.move_x(&direction),
            Axis::Y => self.move_y(&direction),
        }
    }
}

} // verus!
