//! What holds of every grid: tiles can be counted by rows or by columns, and
//! a move takes away exactly one tile for each line that merges.

use vstd::prelude::*;
use crate::grid::{
    column, count_upto, grid_count, line_of, merges_upto, moved_cell, rectangular, step_merges, stepped_cells,
    tile_count, BoardModel,
};
use crate::line::{is_tile, lemma_compacted_push, lemma_reduced_len, reduced};
use crate::line_laws::{lemma_compacted_reverse, lemma_compacted_uniform, lemma_reduced_tiles};
use crate::tile::{Action, Tile};

verus! {

/// The first `rows` cells of a column, from the top.
pub open spec fn column_upto(cells: Seq<Seq<Tile>>, c: int, rows: nat) -> Seq<Tile> {
    Seq::new(rows, |r: int| cells[r][c])
}

/// The number of tiles in the first `rows` rows of the first `cols` columns,
/// counted column by column.
pub open spec fn column_count_upto(cells: Seq<Seq<Tile>>, rows: nat, cols: nat) -> nat
    decreases cols,
{
    if cols == 0 {
        0
    } else {
        column_count_upto(cells, rows, (cols - 1) as nat) + tile_count(
            column_upto(cells, cols - 1, rows),
        )
    }
}

/// An empty line holds no tile.
pub proof fn lemma_tile_count_empty(line: Seq<Tile>)
    requires
        line.len() == 0,
    ensures
        tile_count(line) == 0,
{
    line.lemma_filter_len(is_tile());
}

/// A cell more at the back of a line is a tile more if it holds one.
pub proof fn lemma_tile_count_push(line: Seq<Tile>, cell: Tile)
    ensures
        tile_count(line.push(cell)) == tile_count(line) + if cell.occupied() {
            1nat
        } else {
            0nat
        },
{
    lemma_compacted_push(line, cell);
}

/// Turning a line round keeps the number of its tiles.
pub proof fn lemma_tile_count_reverse(line: Seq<Tile>)
    ensures
        tile_count(line.reverse()) == tile_count(line),
{
    lemma_compacted_reverse(line);
}

/// Rows without tiles count no tile.
pub proof fn lemma_count_no_tiles(cells: Seq<Seq<Tile>>, rows: nat)
    requires
        rows <= cells.len(),
        forall|r: int, c: int|
            0 <= r < rows && 0 <= c < cells[r].len() ==> !(#[trigger] cells[r][c]).occupied(),
    ensures
        count_upto(cells, rows) == 0,
    decreases rows,
{
    if rows > 0 {
        lemma_count_no_tiles(cells, (rows - 1) as nat);
        let row = cells[rows - 1];
        assert forall|c: int| 0 <= c < row.len() implies !row[c].occupied() by {
            assert(!cells[rows - 1][c].occupied());
        }
        lemma_compacted_uniform(row);
    }
}

/// A blank board is valid.
pub proof fn lemma_blank_valid(width: nat, height: nat)
    requires
        width > 0,
        height > 0,
    ensures
        BoardModel::blank(width, height).valid(),
{
    lemma_count_no_tiles(BoardModel::blank(width, height).cells, height);
}

proof fn lemma_column_count_no_rows(cells: Seq<Seq<Tile>>, cols: nat)
    ensures
        column_count_upto(cells, 0, cols) == 0,
    decreases cols,
{
    if cols > 0 {
        lemma_column_count_no_rows(cells, (cols - 1) as nat);
        lemma_tile_count_empty(column_upto(cells, cols - 1, 0));
    }
}

proof fn lemma_column_count_row(cells: Seq<Seq<Tile>>, rows: nat, cols: nat)
    requires
        0 < rows <= cells.len(),
        cols <= cells[rows - 1].len(),
    ensures
        column_count_upto(cells, rows, cols) == column_count_upto(cells, (rows - 1) as nat, cols)
            + tile_count(cells[rows - 1].take(cols as int)),
    decreases cols,
{
    let row = cells[rows - 1];
    if cols == 0 {
        lemma_tile_count_empty(row.take(0));
    } else {
        let c = cols - 1;
        lemma_column_count_row(cells, rows, c as nat);
        lemma_tile_count_push(column_upto(cells, c, (rows - 1) as nat), row[c]);
        assert(column_upto(cells, c, (rows - 1) as nat).push(row[c]) =~= column_upto(
            cells,
            c,
            rows,
        ));
        lemma_tile_count_push(row.take(c), row[c]);
        assert(row.take(c).push(row[c]) =~= row.take(cols as int));
    }
}

/// Counting the tiles column by column gives what counting them row by row
/// gives.
pub proof fn lemma_count_by_columns(cells: Seq<Seq<Tile>>, rows: nat, width: nat)
    requires
        rows <= cells.len(),
        forall|r: int| 0 <= r < rows ==> (#[trigger] cells[r]).len() == width,
    ensures
        column_count_upto(cells, rows, width) == count_upto(cells, rows),
    decreases rows,
{
    if rows == 0 {
        lemma_column_count_no_rows(cells, width);
    } else {
        lemma_count_by_columns(cells, (rows - 1) as nat, width);
        lemma_column_count_row(cells, rows, width);
        assert(cells[rows - 1].take(width as int) =~= cells[rows - 1]);
    }
}

proof fn lemma_row_step_count(
    cells: Seq<Seq<Tile>>,
    action: Action,
    height: nat,
    width: nat,
    rows: nat,
)
    requires
        rectangular(cells, height, width),
        action == Action::Left || action == Action::Right,
        rows <= height,
    ensures
        count_upto(stepped_cells(cells, action), rows) + merges_upto(cells, action, rows)
            == count_upto(cells, rows),
    decreases rows,
{
    if rows > 0 {
        let r = rows - 1;
        lemma_row_step_count(cells, action, height, width, r as nat);
        let line = line_of(cells, action, r);
        lemma_reduced_len(line);
        lemma_reduced_tiles(line);
        if action == Action::Left {
            assert(stepped_cells(cells, action)[r] =~= reduced(line));
        } else {
            assert(stepped_cells(cells, action)[r] =~= reduced(line).reverse());
            lemma_tile_count_reverse(reduced(line));
            lemma_tile_count_reverse(cells[r]);
        }
    }
}

/// A column of the stepped grid is the reduced column, turned back where the
/// move goes downward.
pub proof fn lemma_stepped_column(
    cells: Seq<Seq<Tile>>,
    action: Action,
    height: nat,
    width: nat,
    c: int,
)
    requires
        rectangular(cells, height, width),
        action == Action::Up || action == Action::Down,
        0 <= c < width,
    ensures
        column_upto(stepped_cells(cells, action), c, height) == if action == Action::Up {
            reduced(line_of(cells, action, c))
        } else {
            reduced(line_of(cells, action, c)).reverse()
        },
{
    let line = line_of(cells, action, c);
    let after = column_upto(stepped_cells(cells, action), c, height);
    let target = if action == Action::Up {
        reduced(line)
    } else {
        reduced(line).reverse()
    };
    lemma_reduced_len(line);
    assert(after.len() == target.len());
    assert forall|r: int| 0 <= r < height implies after[r] == target[r] by {
        assert(stepped_cells(cells, action)[r][c] == moved_cell(cells, action, r, c));
    }
    assert(after =~= target);
}

proof fn lemma_column_step_count(
    cells: Seq<Seq<Tile>>,
    action: Action,
    height: nat,
    width: nat,
    cols: nat,
)
    requires
        rectangular(cells, height, width),
        action == Action::Up || action == Action::Down,
        cols <= width,
    ensures
        column_count_upto(stepped_cells(cells, action), height, cols) + merges_upto(
            cells,
            action,
            cols,
        ) == column_count_upto(cells, height, cols),
    decreases cols,
{
    if cols > 0 {
        let c = cols - 1;
        lemma_column_step_count(cells, action, height, width, c as nat);
        let line = line_of(cells, action, c);
        lemma_stepped_column(cells, action, height, width, c);
        lemma_reduced_tiles(line);
        assert(column_upto(cells, c, height) =~= column(cells, c));
        if action == Action::Down {
            lemma_tile_count_reverse(reduced(line));
            lemma_tile_count_reverse(column(cells, c));
        }
    }
}

/// A move takes one tile from the grid for each line that merges, and no
/// other tile comes or goes.
pub proof fn lemma_stepped_count(cells: Seq<Seq<Tile>>, action: Action, height: nat, width: nat)
    requires
        rectangular(cells, height, width),
        height > 0,
    ensures
        grid_count(stepped_cells(cells, action)) + step_merges(cells, action) == grid_count(cells),
{
    match action {
        Action::Left | Action::Right => {
            lemma_row_step_count(cells, action, height, width, height);
        },
        Action::Up | Action::Down => {
            lemma_column_step_count(cells, action, height, width, width);
            lemma_count_by_columns(cells, height, width);
            lemma_count_by_columns(stepped_cells(cells, action), height, width);
        },
    }
}

/// A move on a valid board leaves a valid board: the tiles that the board
/// counts after the move are the tiles on its grid.
pub proof fn lemma_stepped_valid(board: BoardModel, action: Action)
    requires
        board.valid(),
    ensures
        board.stepped(action).valid(),
        step_merges(board.cells, action) <= board.filled,
{
    lemma_stepped_count(board.cells, action, board.height, board.width);
}

} // verus!
