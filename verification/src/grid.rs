//! The mathematical model of the board: a grid of cells as a sequence of
//! rows, the lines that a move works on, and what a move makes of the grid.

use vstd::prelude::*;
use crate::line::{blanks, compacted, line_gain, reduced};
use crate::tile::{Action, BoardError, Tile};

verus! {

/// The cells of a grid held in vectors, row by row.
pub open spec fn grid_of(cells: Vec<Vec<Tile>>) -> Seq<Seq<Tile>> {
    Seq::new(cells@.len(), |r: int| cells@[r]@)
}

/// Whether the grid has `height` rows of `width` cells each.
pub open spec fn rectangular(cells: Seq<Seq<Tile>>, height: nat, width: nat) -> bool {
    cells.len() == height && forall|r: int| 0 <= r < height ==> (#[trigger] cells[r]).len() == width
}

/// The number of cells in a row of the grid.
pub open spec fn grid_width(cells: Seq<Seq<Tile>>) -> nat {
    if cells.len() == 0 {
        0
    } else {
        cells[0].len()
    }
}

/// The number of tiles in a line.
pub open spec fn tile_count(line: Seq<Tile>) -> nat {
    compacted(line).len()
}

/// The number of tiles in the first `rows` rows of the grid.
pub open spec fn count_upto(cells: Seq<Seq<Tile>>, rows: nat) -> nat
    decreases rows,
{
    if rows == 0 {
        0
    } else {
        count_upto(cells, (rows - 1) as nat) + tile_count(cells[rows - 1])
    }
}

/// The number of tiles on the grid.
pub open spec fn grid_count(cells: Seq<Seq<Tile>>) -> nat {
    count_upto(cells, cells.len())
}

/// A column of the grid, from top to bottom.
pub open spec fn column(cells: Seq<Seq<Tile>>, c: int) -> Seq<Tile> {
    Seq::new(cells.len(), |r: int| cells[r][c])
}

/// The number of lines that a move works on: the rows for a horizontal move,
/// the columns for a vertical one.
pub open spec fn line_count(cells: Seq<Seq<Tile>>, action: Action) -> nat {
    match action {
        Action::Left | Action::Right => cells.len(),
        Action::Up | Action::Down => grid_width(cells),
    }
}

/// The `k`-th line of the grid, turned so that the move pushes its tiles
/// toward the front: rows from the left for `Left` and from the right for
/// `Right`, columns from the top for `Up` and from the bottom for `Down`.
pub open spec fn line_of(cells: Seq<Seq<Tile>>, action: Action, k: int) -> Seq<Tile> {
    match action {
        Action::Left => cells[k],
        Action::Right => cells[k].reverse(),
        Action::Up => column(cells, k),
        Action::Down => column(cells, k).reverse(),
    }
}

/// The cell at row `r` and column `c` after the move.
pub open spec fn moved_cell(cells: Seq<Seq<Tile>>, action: Action, r: int, c: int) -> Tile {
    match action {
        Action::Left => reduced(line_of(cells, action, r))[c],
        Action::Right => reduced(line_of(cells, action, r)).reverse()[c],
        Action::Up => reduced(line_of(cells, action, c))[r],
        Action::Down => reduced(line_of(cells, action, c)).reverse()[r],
    }
}

/// The grid after the move: every line reduced and put back where it was.
pub open spec fn stepped_cells(cells: Seq<Seq<Tile>>, action: Action) -> Seq<Seq<Tile>> {
    Seq::new(
        cells.len(),
        |r: int| Seq::new(cells[r].len(), |c: int| moved_cell(cells, action, r, c)),
    )
}

/// The score that the move earns on its first `lines` lines.
pub open spec fn gain_upto(cells: Seq<Seq<Tile>>, action: Action, lines: nat) -> nat
    decreases lines,
{
    if lines == 0 {
        0
    } else {
        gain_upto(cells, action, (lines - 1) as nat) + line_gain(line_of(cells, action, lines - 1))
    }
}

/// The number of merges that the move makes on its first `lines` lines.
pub open spec fn merges_upto(cells: Seq<Seq<Tile>>, action: Action, lines: nat) -> nat
    decreases lines,
{
    if lines == 0 {
        0
    } else {
        merges_upto(cells, action, (lines - 1) as nat) + if line_gain(
            line_of(cells, action, lines - 1),
        ) > 0 {
            1nat
        } else {
            0nat
        }
    }
}

/// The score that the move earns on the whole grid.
pub open spec fn step_gain(cells: Seq<Seq<Tile>>, action: Action) -> nat {
    gain_upto(cells, action, line_count(cells, action))
}

/// The number of merges that the move makes on the whole grid.
pub open spec fn step_merges(cells: Seq<Seq<Tile>>, action: Action) -> nat {
    merges_upto(cells, action, line_count(cells, action))
}

/// Why a grid cannot be a board, if it cannot: it has no cell, or its rows
/// differ in length.
pub open spec fn grid_fault(cells: Seq<Seq<Tile>>) -> Option<BoardError> {
    if cells.len() == 0 || cells[0].len() == 0 {
        Some(BoardError::ZeroSized)
    } else if !rectangular(cells, cells.len(), cells[0].len()) {
        Some(BoardError::Ragged)
    } else {
        None
    }
}

/// The model of a board: its size, its cells row by row, the number of tiles
/// it counts and the score so far.
pub struct BoardModel {
    pub width: nat,
    pub height: nat,
    pub cells: Seq<Seq<Tile>>,
    pub filled: nat,
    pub score: nat,
}

impl BoardModel {
    /// The board of the given size without a tile and without a score.
    pub open spec fn blank(width: nat, height: nat) -> BoardModel {
        BoardModel {
            width,
            height,
            cells: Seq::new(height, |r: int| blanks(width)),
            filled: 0,
            score: 0,
        }
    }

    /// The board that holds the given grid, with no score yet.
    pub open spec fn holding(cells: Seq<Seq<Tile>>) -> BoardModel {
        BoardModel {
            width: grid_width(cells),
            height: cells.len(),
            cells,
            filled: grid_count(cells),
            score: 0,
        }
    }

    /// A board has at least one cell, all its rows are as long as its width,
    /// and the number of tiles it counts is the number of tiles on its grid.
    pub open spec fn valid(self) -> bool {
        &&& self.width > 0
        &&& self.height > 0
        &&& rectangular(self.cells, self.height, self.width)
        &&& self.filled == grid_count(self.cells)
    }

    /// The board after a move: the grid stepped, one tile fewer for each
    /// line that merged, the gains of all lines added to the score.
    pub open spec fn stepped(self, action: Action) -> BoardModel {
        BoardModel {
            width: self.width,
            height: self.height,
            cells: stepped_cells(self.cells, action),
            filled: (self.filled - step_merges(self.cells, action)) as nat,
            score: self.score + step_gain(self.cells, action),
        }
    }

    /// Whether the score after the move still fits in 64 bits.
    pub open spec fn step_fits(self, action: Action) -> bool {
        self.score + step_gain(self.cells, action) <= u64::MAX
    }

    /// Whether every cell holds a tile.
    pub open spec fn full(self) -> bool {
        forall|r: int, c: int|
            0 <= r < self.height && 0 <= c < self.width ==> (#[trigger] self.cells[r][c]).occupied()
    }
}

/// The score of the first lines is no more than that of more lines.
pub proof fn lemma_gain_upto_grows(cells: Seq<Seq<Tile>>, action: Action, few: nat, many: nat)
    requires
        few <= many,
    ensures
        gain_upto(cells, action, few) <= gain_upto(cells, action, many),
    decreases many,
{
    if few < many {
        lemma_gain_upto_grows(cells, action, few, (many - 1) as nat);
    }
}

} // verus!
