use vstd::prelude::*;
use crate::style::Style;

verus! {

/// Represents one cell on the terminal.
///
/// Each cell contains exactly one character which may be styled.
#[derive(Copy, Clone, Eq, PartialEq, Structural, Debug)]
pub struct Cell {
    pub contents: char,
    pub style: Style,
}

impl Cell {
    /// The default cell: a space with the default style.
    pub open spec fn blank() -> Cell {
        Cell { contents: ' ', style: Style::plain() }
    }
}

impl Default for Cell {
    fn default() -> (r: Cell)
        ensures
            r == Cell::blank(),
    {
        Cell { contents: ' ', style: Style { bold: false } }
    }
}

} // verus!
