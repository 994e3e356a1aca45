//! Occupants, cells, and the shapes a cell is shown as.

use vstd::prelude::*;

verus! {

/// What a grid cell holds.
#[derive(Clone, Copy, Debug, PartialEq, Eq, Structural)]
pub enum Occupant {
    Empty,
    PlayerA,
    PlayerB,
}

impl Occupant {
    /// The other player; `Empty` has no opponent and stays `Empty`.
    pub open spec fn swapped(self) -> Occupant {
        match self {
            Occupant::Empty => Occupant::Empty,
            Occupant::PlayerA => Occupant::PlayerB,
            Occupant::PlayerB => Occupant::PlayerA,
        }
    }

    /// The other player; `Empty` has no opponent and stays `Empty`.
    pub fn opponent(self) -> (r: Occupant)
        ensures
            r == self.swapped(),
    {
        match self {
            Occupant::Empty => Occupant::Empty,
            Occupant::PlayerA => Occupant::PlayerB,
            Occupant::PlayerB => Occupant::PlayerA,
        }
    }
}

/// How one cell is put on the screen.  Coordinates are grid coordinates; the
/// renderer scales them by the cell edge.
#[derive(Clone, Copy, Debug, PartialEq, Eq, Structural)]
pub enum DrawCommand {
    /// The border of an empty cell.
    Outline { row: usize, col: usize },
    /// A cell filled with its owner's colour; `owner` is never `Empty`.
    Fill { row: usize, col: usize, owner: Occupant },
}

/// One cell of the grid: where it is and who holds it.  A cell never moves.
#[derive(Clone, Copy, Debug, PartialEq, Eq, Structural)]
pub struct Cell {
    pub row: usize,
    pub col: usize,
    pub occupant: Occupant,
}

impl Cell {
    /// The shape an occupant is shown as at a position: an outline when the
    /// cell is empty, else a fill in the owner's colour.
    pub open spec fn shape(self) -> DrawCommand {
        if self.occupant == Occupant::Empty {
            DrawCommand::Outline { row: self.row, col: self.col }
        } else {
            DrawCommand::Fill { row: self.row, col: self.col, owner: self.occupant }
        }
    }

    pub fn new(row: usize, col: usize, occupant: Occupant) -> (cell: Cell)
        ensures
            cell.row == row,
            cell.col == col,
            cell.occupant == occupant,
    {
        Cell { row, col, occupant }
    }

    /// The command that draws this cell.
    pub fn draw(&self) -> (cmd: DrawCommand)
        ensures
            cmd == self.shape(),
    {
        match self.occupant {
            Occupant::Empty => DrawCommand::Outline { row: self.row, col: self.col },
            owner => DrawCommand::Fill { row: self.row, col: self.col, owner },
        }
    }
}

} // verus!
