//! The four move directions, the axis each lies on, and their textual names.
use vstd::prelude::*;
use vstd::string::*;

use crate::errors::BoardError;

verus! {

/// Where a move pushes the tiles.
#[derive(Debug, Clone, Copy, PartialEq, Eq, Structural)]
pub enum Direction {
    /// Toward row 1.
    Up,
    /// Toward the last row.
    Down,
    /// Toward column 1.
    Left,
    /// Toward the last column.
    Right,
}

/// The grouping of directions: rows move along X, columns along Y.
#[derive(Debug, Clone, Copy, PartialEq, Eq, Structural)]
pub enum Axis {
    /// Left or Right: each row moves on its own.
    X,
    /// Up or Down: each column moves on its own.
    Y,
}

/// The axis a direction lies on.
pub open spec fn axis_of(direction: Direction) -> Axis {
    match direction {
        Direction::Up | Direction::Down => Axis::Y,
        Direction::Left | Direction::Right => Axis::X,
    }
}

/// The direction whose name is `text`, if any; names are lower case.
pub open spec fn direction_named(text: Seq<char>) -> Option<Direction> {
    if text == "up"@ {
        Some(Direction::Up)
    } else if text == "down"@ {
        Some(Direction::Down)
    } else if text == "left"@ {
        Some(Direction::Left)
    } else if text == "right"@ {
        Some(Direction::Right)
    } else {
        None
    }
}

/// Whether two strings hold the same characters.
fn same_text(text: &str, word: &str) -> (r: bool)
    ensures
        r == (text@ == word@),
{
    let n = text.unicode_len();
    if n != word.unicode_len() {
        return false;
    }
    let mut i: usize = 0;
    while i < n
        invariant
            n == text@.len(),
            n == word@.len(),
            i <= n,
            forall|j: int| 0 <= j < i ==> text@[j] == word@[j],
        decreases n - i,
    {
        if text.get_char(i) != word.get_char(i) {
            return false;
        }
        i += 1;
    }
    assert(text@ =~= word@);
    true
}

impl Direction {
    /// Reads a direction from its name: "up", "down", "left" or "right", case-sensitive.
    /// Any other text is refused with `InvalidDirection` carrying that text.
    pub fn parse(text: &str) -> (r: Result<Direction, BoardError>)
        ensures
            match direction_named(text@) {
                Some(d) => r == Ok::<Direction, BoardError>(d),
                None => match r {
                    Err(BoardError::InvalidDirection { direction }) => direction@ == text@,
                    _ => false,
                },
            },
    {
        if same_text(text, "up") {
            Ok(Direction::Up)
        } else if same_text(text, "down") {
            Ok(Direction::Down)
        } else if same_text(text, "left") {
            Ok(Direction::Left)
        } else if same_text(text, "right") {
            Ok(Direction::Right)
        } else {
            Err(BoardError::InvalidDirection { direction: text.to_owned() })
        }
    }

    /// The axis this direction lies on.
    pub fn axis(&self) -> (r: Axis)
        ensures
            r == axis_of(*self),
    {
        match self {
            Direction::Up | Direction::Down => Axis::Y,
            Direction::Left | Direction::Right => Axis::X,
        }
    }
}

impl From<Direction> for Axis {
    fn from(direction: Direction) -> (r: Axis) {
        direction.axis()
    }
}

impl vstd::std_specs::convert::FromSpecImpl<Direction> for Axis {
    open spec fn obeys_from_spec() -> bool {
        true
    }

    open spec fn from_spec(direction: Direction) -> Axis {
        axis_of(direction)
    }
}

impl<'a> TryFrom<&'a str> for Direction {
    type Error = BoardError;

    /// Reads a direction from its name, as `Direction::parse` does.
    fn try_from(text: &'a str) -> (r: Result<Direction, BoardError>)
        ensures
            match direction_named(text@) {
                Some(d) => r == Ok::<Direction, BoardError>(d),
                None => match r {
                    Err(BoardError::InvalidDirection { direction }) => direction@ == text@,
                    _ => false,
                },
            },
    {
        Direction::parse(text)
    }
}

/// The error carries the refused text as a `String`, which a spec value cannot build,
/// so the outcome is stated in the `ensures` of `try_from` itself rather than here.
impl<'a> vstd::std_specs::convert::TryFromSpecImpl<&'a str> for Direction {
    open spec fn obeys_try_from_spec() -> bool {
        false
    }

    open spec fn try_from_spec(text: &'a str) -> Result<Direction, BoardError> {
        match direction_named(text@) {
            Some(d) => Ok(d),
            None => Err(arbitrary()),
        }
    }
}

} // verus!
