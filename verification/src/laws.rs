//! What holds of every board, whatever is played on it.

use vstd::prelude::*;
use crate::grid::{
    column, gain_upto, grid_count, grid_fault, line_count, line_of, merges_upto, moved_cell,
    rectangular, step_gain, step_merges, stepped_cells, tile_count, BoardModel,
};
use crate::grid_laws::{column_upto, lemma_stepped_column, lemma_stepped_valid};
use crate::line::{lemma_compacted_tiles, lemma_reduced_len, line_gain, reduced};
use crate::line_laws::{lemma_compacted_uniform, lemma_reduce_settled, lemma_reduce_unmoved};
use crate::placement::{
    empties_upto, empty_count, lemma_empties_and_tiles, lemma_sprinkled_valid,
    lemma_tile_count_update,
};
use crate::tile::{Action, Tile};

verus! {

/// The lines of the stepped grid are the reduced lines of the grid.
pub proof fn lemma_stepped_line(
    cells: Seq<Seq<Tile>>,
    action: Action,
    height: nat,
    width: nat,
    k: int,
)
    requires
        rectangular(cells, height, width),
        height > 0,
        0 <= k < line_count(cells, action),
    ensures
        line_of(stepped_cells(cells, action), action, k) == reduced(line_of(cells, action, k)),
{
    let after = stepped_cells(cells, action);
    let line = line_of(cells, action, k);
    lemma_reduced_len(line);
    match action {
        Action::Left => {
            assert(after[k] =~= reduced(line));
        },
        Action::Right => {
            assert(after[k] =~= reduced(line).reverse());
            assert(reduced(line).reverse().reverse() =~= reduced(line));
        },
        Action::Up | Action::Down => {
            lemma_stepped_column(cells, action, height, width, k);
            assert(column(after, k) =~= column_upto(after, k, height));
            assert(reduced(line).reverse().reverse() =~= reduced(line));
        },
    }
}

/// Where the first lines earn nothing together, none of them earns
/// anything and none of them merges.
pub proof fn lemma_no_gain(cells: Seq<Seq<Tile>>, action: Action, lines: nat)
    requires
        gain_upto(cells, action, lines) == 0,
    ensures
        merges_upto(cells, action, lines) == 0,
        forall|k: int| 0 <= k < lines ==> line_gain(#[trigger] line_of(cells, action, k)) == 0,
    decreases lines,
{
    if lines > 0 {
        lemma_no_gain(cells, action, (lines - 1) as nat);
    }
}

/// Where none of the first lines earns anything, they earn nothing together.
pub proof fn lemma_gain_of_idle_lines(cells: Seq<Seq<Tile>>, action: Action, lines: nat)
    requires
        forall|k: int| 0 <= k < lines ==> line_gain(#[trigger] line_of(cells, action, k)) == 0,
    ensures
        gain_upto(cells, action, lines) == 0,
        merges_upto(cells, action, lines) == 0,
    decreases lines,
{
    if lines > 0 {
        lemma_gain_of_idle_lines(cells, action, (lines - 1) as nat);
    }
}

/// A move that leaves no merge for a second move in its direction is
/// idempotent: the second move changes neither the grid nor the count of
/// tiles, and adds nothing to the score.
pub proof fn lemma_step_idempotent(board: BoardModel, action: Action)
    requires
        board.valid(),
        step_gain(board.stepped(action).cells, action) == 0,
    ensures
        board.stepped(action).stepped(action) == board.stepped(action),
{
    let cells = board.cells;
    let once = stepped_cells(cells, action);
    let twice = stepped_cells(once, action);
    lemma_stepped_valid(board, action);
    lemma_no_gain(once, action, line_count(once, action));
    assert forall|r: int, c: int| 0 <= r < board.height && 0 <= c < board.width implies moved_cell(
        once,
        action,
        r,
        c,
    ) == moved_cell(cells, action, r, c) by {
        let k = match action {
            Action::Left | Action::Right => r,
            Action::Up | Action::Down => c,
        };
        lemma_stepped_line(cells, action, board.height, board.width, k);
        assert(line_gain(line_of(once, action, k)) == 0);
        lemma_reduce_settled(line_of(cells, action, k));
    }
    assert(twice =~~= once);
}

/// A move that finds nothing to push and nothing to merge changes nothing:
/// where the grid stays as it is, so do the count of tiles and the score.
pub proof fn lemma_step_unmoved(board: BoardModel, action: Action)
    requires
        board.valid(),
        stepped_cells(board.cells, action) == board.cells,
    ensures
        board.stepped(action) == board,
{
    let cells = board.cells;
    assert forall|k: int| 0 <= k < line_count(cells, action) implies line_gain(
        #[trigger] line_of(cells, action, k),
    ) == 0 by {
        lemma_stepped_line(cells, action, board.height, board.width, k);
        lemma_reduce_unmoved(line_of(cells, action, k));
    }
    lemma_gain_of_idle_lines(cells, action, line_count(cells, action));
}

/// The grid of a valid board can be made into a board again, and that
/// board differs from the first in its score only, which starts at zero.
pub proof fn lemma_round_trip(board: BoardModel)
    requires
        board.valid(),
    ensures
        grid_fault(board.cells) is None,
        BoardModel::holding(board.cells).valid(),
        BoardModel::holding(board.cells) == (BoardModel { score: 0, ..board }),
{
}

/// A line has as many tiles as cells exactly when every cell holds a tile.
pub proof fn lemma_line_full(line: Seq<Tile>)
    ensures
        empty_count(line) == 0 <==> forall|c: int| 0 <= c < line.len() ==> line[c].occupied(),
{
    lemma_compacted_tiles(line);
    lemma_compacted_uniform(line);
    if exists|c: int| 0 <= c < line.len() && !line[c].occupied() {
        let c = choose|c: int| 0 <= c < line.len() && !line[c].occupied();
        lemma_tile_count_update(line, c, Tile::Occupied(0));
        lemma_compacted_tiles(line.update(c, Tile::Occupied(0)));
    }
}

/// The first rows have no empty cell exactly when each of their cells
/// holds a tile.
pub proof fn lemma_rows_full(cells: Seq<Seq<Tile>>, rows: nat)
    requires
        rows <= cells.len(),
    ensures
        empties_upto(cells, rows) == 0 <==> forall|r: int, c: int|
            0 <= r < rows && 0 <= c < cells[r].len() ==> (#[trigger] cells[r][c]).occupied(),
    decreases rows,
{
    if rows > 0 {
        lemma_rows_full(cells, (rows - 1) as nat);
        lemma_line_full(cells[rows - 1]);
    }
}

/// A valid board counts as many tiles as it has cells exactly when every
/// cell holds a tile. Whether neighbours could still merge plays no part.
pub proof fn lemma_lost_iff_full(board: BoardModel)
    requires
        board.valid(),
    ensures
        board.filled <= board.width * board.height,
        board.filled == board.width * board.height <==> board.full(),
{
    lemma_empties_and_tiles(board.cells, board.height, board.width);
    assert(board.height * board.width == board.width * board.height) by (nonlinear_arith);
    lemma_rows_full(board.cells, board.height);
}

/// One thing that can be played on a board.
pub enum Play {
    /// A move in a direction.
    Step(Action),
    /// A new tile: the draw for the cell, then the draw for the power.
    Sprinkle(nat, nat),
}

impl BoardModel {
    /// The board after one play. A new tile on a board without an empty
    /// cell leaves the board as it is.
    pub open spec fn after(self, play: Play) -> BoardModel {
        match play {
            Play::Step(action) => self.stepped(action),
            Play::Sprinkle(cell_draw, tile_draw) => if self.filled < self.width * self.height {
                self.sprinkled(cell_draw, tile_draw)
            } else {
                self
            },
        }
    }

    /// The board after a sequence of plays, the first of them played first.
    pub open spec fn after_all(self, plays: Seq<Play>) -> BoardModel
        decreases plays.len(),
    {
        if plays.len() == 0 {
            self
        } else {
            self.after_all(plays.drop_last()).after(plays.last())
        }
    }
}

/// Whatever is played on a valid board, in whatever order, the board stays
/// valid: the tiles it counts are the tiles on its grid, and its size stays.
pub proof fn lemma_play_keeps_valid(board: BoardModel, plays: Seq<Play>)
    requires
        board.valid(),
    ensures
        board.after_all(plays).valid(),
        board.after_all(plays).filled == grid_count(board.after_all(plays).cells),
        board.after_all(plays).width == board.width,
        board.after_all(plays).height == board.height,
        board.after_all(plays).score >= board.score,
    decreases plays.len(),
{
    if plays.len() > 0 {
        let earlier = board.after_all(plays.drop_last());
        lemma_play_keeps_valid(board, plays.drop_last());
        match plays.last() {
            Play::Step(action) => {
                lemma_stepped_valid(earlier, action);
            },
            Play::Sprinkle(cell_draw, tile_draw) => {
                if earlier.filled < earlier.width * earlier.height {
                    lemma_sprinkled_valid(earlier, cell_draw, tile_draw);
                }
            },
        }
    }
}

} // verus!
