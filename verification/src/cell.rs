//! Cells of the board: occupancy, special-cell type, offset, powerup.

use vstd::prelude::*;

verus! {

/// The kind of a cell, determined by the sign of its `offset`:
/// negative offsets are snakes, positive ones ladders.
#[derive(Clone, Copy, PartialEq, Eq, Structural, Debug)]
pub enum CellType {
    NormalCell,
    LadderCell,
    SnakeCell,
}

/// A powerup that a cell can carry and a player can hold.
/// At most one powerup occupies a given cell.
#[derive(Clone, Copy, PartialEq, Eq, Structural, Debug)]
pub enum PowerupType {
    Antivenom,
    Nothing,
    Escalator,
    Doubleroll,
}

/// One cell of the board.  `occupant` holds the handle (index into the
/// player arena) of the player standing here, if any; a handle appears in
/// at most one cell at a time.  `offset` is the signed displacement applied
/// to a player landing here, zero for a normal cell.
#[derive(Clone, Copy, PartialEq, Eq, Structural, Debug)]
pub struct Cell {
    pub occupant: Option<usize>,
    pub cell_type: CellType,
    pub offset: i32,
    pub powerup: PowerupType,
}

impl Cell {
    /// A fresh cell: unoccupied, normal, no powerup.
    pub fn new() -> (c: Cell)
        ensures
            c == (Cell {
                occupant: None,
                cell_type: CellType::NormalCell,
                offset: 0,
                powerup: PowerupType::Nothing,
            }),
    {
        Cell {
            occupant: None,
            cell_type: CellType::NormalCell,
            offset: 0,
            powerup: PowerupType::Nothing,
        }
    }

    /// A cell with every attribute given.
    pub fn new_with(
        occupant: Option<usize>,
        cell_type: CellType,
        offset: i32,
        powerup: PowerupType,
    ) -> (c: Cell)
        ensures
            c == (Cell { occupant, cell_type, offset, powerup }),
    {
        Cell { occupant, cell_type, offset, powerup }
    }
}

/// The cell type that `offset` dictates: negative is a snake, positive a
/// ladder, zero a normal cell.
pub open spec fn type_of_offset(offset: int) -> CellType {
    if offset < 0 {
        CellType::SnakeCell
    } else if offset > 0 {
        CellType::LadderCell
    } else {
        CellType::NormalCell
    }
}

} // verus!
