//! Cells of the grid, the directions a move can take, and the errors of the
//! board.

use vstd::prelude::*;
use vstd::arithmetic::power2::pow2;
use crate::text::{decimal, power_text};

verus! {

/// One cell of the grid: empty, or a tile holding the exponent of its value.
#[derive(Clone, Copy, PartialEq, Eq, Debug, Structural)]
pub enum Tile {
    Empty,
    Occupied(u8),
}

/// A direction in which every tile of the board is pushed.
#[derive(Clone, Copy, PartialEq, Eq, Debug, Structural)]
pub enum Action {
    Up,
    Left,
    Down,
    Right,
}

/// Why a board could not be made or changed.
#[derive(Clone, Copy, PartialEq, Eq, Debug, Structural)]
pub enum BoardError {
    /// The board would have no cell: no row, or rows without cells.
    ZeroSized,
    /// The rows of the grid are not all of one length.
    Ragged,
    /// Every cell holds a tile, so no tile can be added.
    Full,
}

impl Tile {
    /// Whether the cell holds a tile.
    pub open spec fn occupied(self) -> bool {
        self is Occupied
    }

    /// The number a tile shows: two to its power. An empty cell shows nothing
    /// and counts as zero.
    pub open spec fn value(self) -> nat {
        match self {
            Tile::Empty => 0,
            Tile::Occupied(power) => pow2(power as nat),
        }
    }

    /// What the cell shows: the value of its tile in decimal, or nothing.
    pub open spec fn label_text(self) -> Seq<char> {
        match self {
            Tile::Empty => Seq::empty(),
            Tile::Occupied(_) => decimal(self.value()),
        }
    }

    /// The text that the cell shows: the value of its tile in decimal, or
    /// nothing for an empty cell.
    pub fn label(&self) -> (text: String)
        ensures
            text@ == self.label_text(),
    {
        match self {
            Tile::Empty => String::new(),
            Tile::Occupied(power) => power_text(*power),
        }
    }

    /// Tells whether the cell holds a tile.
    pub fn is_occupied(&self) -> (b: bool)
        ensures
            b == self.occupied(),
    {
        match self {
            Tile::Empty => false,
            Tile::Occupied(_) => true,
        }
    }
}

} // verus!
