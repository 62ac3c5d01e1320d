use vstd::prelude::*;

verus! {

/// The position of a cell on the terminal.
///
/// The top-left cell is at row 0 column 0.
#[derive(Copy, Clone, Eq, PartialEq, Structural, Debug)]
pub struct Position {
    pub row: usize,
    pub col: usize,
}

impl Position {
    /// The top-left corner of the screen.
    pub open spec fn origin() -> Position {
        Position { row: 0, col: 0 }
    }

    /// The row-major index of this position on a grid `width` cells wide.
    pub open spec fn index(self, width: nat) -> int {
        self.row * width + self.col
    }

    /// Whether this position lies on a grid of the given dimensions.
    pub open spec fn in_bounds(self, width: nat, height: nat) -> bool {
        self.row < height && self.col < width
    }
}

impl Default for Position {
    /// Relies on nothing: the default position is the origin.
    fn default() -> (r: Position)
        ensures
            r == Position::origin(),
    {
        Position { row: 0, col: 0 }
    }
}

} // verus!
