use vstd::prelude::*;

verus! {

/// Glyph of a mine that was stepped on.
pub const MINE: char = '*';

/// Glyph of a cell that is still covered.
pub const CELL: char = '?';

/// Glyph of a flagged cell.
pub const FLAG: char = 'F';

/// What the player has done to a cell so far.
#[derive(Clone, Copy, Debug, PartialEq, Eq, Structural)]
pub enum CellState {
    Hidden,
    Revealed,
    Flagged,
}

/// One square of the board.
#[derive(Clone, Copy, Debug, PartialEq, Eq, Structural)]
pub struct Cell {
    pub mine: bool,
    pub state: CellState,
}

/// The colour a cell is drawn in.
#[derive(Clone, Copy, Debug, PartialEq, Eq, Structural)]
pub enum Color {
    LightBlue,
    Blue,
    Reset,
}

/// The glyph a cell shows when no neighbour count is drawn over it.
pub open spec fn glyph_of(c: Cell) -> char {
    match c.state {
        CellState::Hidden => CELL,
        CellState::Flagged => FLAG,
        CellState::Revealed => if c.mine { MINE } else { ' ' },
    }
}

/// Hidden and Flagged swap; a revealed cell keeps its state.
pub open spec fn toggled(c: Cell) -> Cell {
    match c.state {
        CellState::Hidden => Cell { state: CellState::Flagged, ..c },
        CellState::Flagged => Cell { state: CellState::Hidden, ..c },
        CellState::Revealed => c,
    }
}

impl Cell {
    pub fn as_char(&self) -> (r: char)
        ensures
            r == glyph_of(*self),
    {
        match self.state {
            CellState::Hidden => CELL,
            CellState::Revealed if !self.mine => ' ',
            CellState::Flagged => FLAG,
            _ => MINE,
        }
    }

    /// Covered squares are light blue, flags blue, uncovered squares plain.
    pub fn color(&self) -> (r: Color)
        ensures
            r == match self.state {
                CellState::Hidden => Color::LightBlue,
                CellState::Flagged => Color::Blue,
                CellState::Revealed => Color::Reset,
            },
    {
        match self.state {
            CellState::Hidden => Color::LightBlue,
            CellState::Flagged => Color::Blue,
            CellState::Revealed => Color::Reset,
        }
    }
}

} // verus!
