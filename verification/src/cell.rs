//! The binary state of a single grid cell, convertible to and from the one
//! bit stored for it.

use vstd::prelude::*;

verus! {

/// The state of one cell of the grid: either `Dead` or `Alive`.
#[derive(Copy, Clone, Debug, PartialEq, Eq, Structural)]
pub enum Cell {
    Dead,
    Alive,
}

impl Cell {
    /// The boolean the cell stands for: `true` exactly when the cell is alive.
    pub open spec fn is_alive(self) -> bool {
        self is Alive
    }

    /// The single bit stored for this cell.
    pub open spec fn as_bit(self) -> u8 {
        if self is Alive {
            1
        } else {
            0
        }
    }
}

impl From<u8> for Cell {
    /// Any non-zero byte reads back as `Alive`; zero reads back as `Dead`.
    fn from(rhs: u8) -> (c: Cell) {
        if rhs == 0 {
            Cell::Dead
        } else {
            Cell::Alive
        }
    }
}

impl vstd::std_specs::convert::FromSpecImpl<u8> for Cell {
    open spec fn obeys_from_spec() -> bool {
        true
    }

    open spec fn from_spec(rhs: u8) -> Cell {
        if rhs == 0 {
            Cell::Dead
        } else {
            Cell::Alive
        }
    }
}

impl From<Cell> for u8 {
    /// A dead cell is stored as 0, a live cell as 1.
    fn from(rhs: Cell) -> (b: u8) {
        match rhs {
            Cell::Dead => 0,
            Cell::Alive => 1,
        }
    }
}

impl vstd::std_specs::convert::FromSpecImpl<Cell> for u8 {
    open spec fn obeys_from_spec() -> bool {
        true
    }

    open spec fn from_spec(rhs: Cell) -> u8 {
        rhs.as_bit()
    }
}

} // verus!
