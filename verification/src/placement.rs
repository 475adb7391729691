//! Where a new tile goes: the empty cells of the grid in reading order, and
//! the board after one of them has been filled.

use vstd::prelude::*;
use crate::grid::{count_upto, rectangular, tile_count, BoardModel};
use crate::grid_laws::{lemma_tile_count_empty, lemma_tile_count_push};
use crate::line::{is_tile, lemma_compacted_tiles};
use crate::line_laws::lemma_compacted_uniform;
use crate::tile::Tile;

verus! {

/// The number of empty cells in a line.
pub open spec fn empty_count(line: Seq<Tile>) -> nat {
    (line.len() - tile_count(line)) as nat
}

/// The number of empty cells in the first `rows` rows of the grid.
pub open spec fn empties_upto(cells: Seq<Seq<Tile>>, rows: nat) -> nat
    decreases rows,
{
    if rows == 0 {
        0
    } else {
        empties_upto(cells, (rows - 1) as nat) + empty_count(cells[rows - 1])
    }
}

/// The index of the empty cell of a line that has `n` empty cells before
/// it. Where the line has too few empty cells, the line's length.
pub open spec fn nth_empty(line: Seq<Tile>, n: nat) -> int
    decreases line.len(),
{
    if line.len() == 0 {
        0
    } else if line[0].occupied() {
        1 + nth_empty(line.skip(1), n)
    } else if n == 0 {
        0
    } else {
        1 + nth_empty(line.skip(1), (n - 1) as nat)
    }
}

/// The row and column of the empty cell that has `n` empty cells before it
/// in reading order, counting from the start of row `from`: row by row,
/// each row from the left.
pub open spec fn nth_empty_cell_from(cells: Seq<Seq<Tile>>, from: nat, n: nat) -> (int, int)
    decreases cells.len() - from,
{
    if from >= cells.len() {
        (from as int, 0)
    } else if n < empty_count(cells[from as int]) {
        (from as int, nth_empty(cells[from as int], n))
    } else {
        nth_empty_cell_from(cells, from + 1, (n - empty_count(cells[from as int])) as nat)
    }
}

/// The row and column of the empty cell of a grid that has `n` empty cells
/// before it in reading order.
pub open spec fn nth_empty_cell(cells: Seq<Seq<Tile>>, n: nat) -> (int, int) {
    nth_empty_cell_from(cells, 0, n)
}

/// The tile that a draw puts on the board: of power 1 for eighty draws in a
/// hundred, of power 2 for the other twenty.
pub open spec fn drawn_tile(tile_draw: nat) -> Tile {
    if tile_draw % 100 < 80 {
        Tile::Occupied(1)
    } else {
        Tile::Occupied(2)
    }
}

/// The grid with one cell replaced.
pub open spec fn with_cell(cells: Seq<Seq<Tile>>, r: int, c: int, tile: Tile) -> Seq<Seq<Tile>> {
    cells.update(r, cells[r].update(c, tile))
}

impl BoardModel {
    /// The number of empty cells of the board.
    pub open spec fn vacancies(self) -> nat {
        (self.width * self.height - self.filled) as nat
    }

    /// The cell that a draw picks: the empty cells are numbered in reading
    /// order, and the draw is taken modulo their number.
    pub open spec fn picked_cell(self, cell_draw: nat) -> (int, int) {
        nth_empty_cell(self.cells, cell_draw % self.vacancies())
    }

    /// Whether `after` is this board with one more tile: a tile of power 1
    /// or 2 on a cell that was empty, and nothing else changed.
    pub open spec fn gained_tile(self, after: BoardModel) -> bool {
        exists|r: int, c: int, power: u8|
            {
                &&& 0 <= r < self.height
                &&& 0 <= c < self.width
                &&& !self.cells[r][c].occupied()
                &&& (power == 1 || power == 2)
                &&& after == (BoardModel {
                    cells: #[trigger] with_cell(self.cells, r, c, Tile::Occupied(power)),
                    filled: self.filled + 1,
                    ..self
                })
            }
    }

    /// The board after a new tile has been put on the empty cell that
    /// `cell_draw` picks, with the power that `tile_draw` picks.
    pub open spec fn sprinkled(self, cell_draw: nat, tile_draw: nat) -> BoardModel {
        let at = self.picked_cell(cell_draw);
        BoardModel {
            width: self.width,
            height: self.height,
            cells: with_cell(self.cells, at.0, at.1, drawn_tile(tile_draw)),
            filled: self.filled + 1,
            score: self.score,
        }
    }
}

/// The tiles of a line are its first cell, if that is a tile, and the tiles
/// of the rest.
pub proof fn lemma_tile_count_front(line: Seq<Tile>)
    requires
        line.len() > 0,
    ensures
        tile_count(line) == tile_count(line.skip(1)) + if line[0].occupied() {
            1nat
        } else {
            0nat
        },
{
    Seq::filter_distributes_over_add(seq![line[0]], line.skip(1), is_tile());
    assert(seq![line[0]] + line.skip(1) =~= line);
    lemma_compacted_uniform(seq![line[0]]);
}

/// A line with more than `n` empty cells has its `n`-th empty cell within
/// its length, and that cell is empty.
pub proof fn lemma_nth_empty(line: Seq<Tile>, n: nat)
    requires
        n < empty_count(line),
    ensures
        0 <= nth_empty(line, n) < line.len(),
        !line[nth_empty(line, n)].occupied(),
    decreases line.len(),
{
    if line.len() == 0 {
        lemma_tile_count_empty(line);
    } else {
        lemma_tile_count_front(line);
        if line[0].occupied() {
            lemma_nth_empty(line.skip(1), n);
        } else if n > 0 {
            lemma_nth_empty(line.skip(1), (n - 1) as nat);
        }
    }
}

/// Counts the tiles of a line.
pub fn count_tiles(line: &Vec<Tile>) -> (count: usize)
    ensures
        count == tile_count(line@),
        count <= line.len(),
{
    let mut count: usize = 0;
    let mut i: usize = 0;
    while i < line.len()
        invariant
            i <= line.len(),
            count <= i,
            count == tile_count(line@.take(i as int)),
        decreases line.len() - i,
    {
        proof {
            lemma_tile_count_push(line@.take(i as int), line[i as int]);
            assert(line@.take(i as int).push(line[i as int]) =~= line@.take(i + 1));
        }
        if line[i].is_occupied() {
            count += 1;
        }
        i += 1;
    }
    proof {
        lemma_tile_count_empty(line@.take(0));
        assert(line@.take(line.len() as int) =~= line@);
    }
    count
}

/// Finds the empty cell of a line that has `n` empty cells before it.
pub fn find_empty(line: &Vec<Tile>, n: usize) -> (at: usize)
    requires
        n < empty_count(line@),
    ensures
        at == nth_empty(line@, n as nat),
        at < line.len(),
        !line[at as int].occupied(),
{
    proof {
        lemma_nth_empty(line@, n as nat);
        assert(line@.skip(0) =~= line@);
    }
    let mut c: usize = 0;
    let mut left: usize = n;
    loop
        invariant
            c <= line.len(),
            left < empty_count(line@.skip(c as int)),
            nth_empty(line@, n as nat) == c + nth_empty(line@.skip(c as int), left as nat),
        decreases line.len() - c,
    {
        let ghost rest = line@.skip(c as int);
        proof {
            if c == line.len() {
                lemma_tile_count_empty(rest);
            }
            lemma_tile_count_front(rest);
            assert(rest.skip(1) =~= line@.skip(c + 1));
        }
        if !line[c].is_occupied() {
            if left == 0 {
                return c;
            }
            left -= 1;
        }
        c += 1;
    }
}

/// Putting a tile on an empty cell of a line adds one tile to the line.
pub proof fn lemma_tile_count_update(line: Seq<Tile>, c: int, tile: Tile)
    requires
        0 <= c < line.len(),
        !line[c].occupied(),
        tile.occupied(),
    ensures
        tile_count(line.update(c, tile)) == tile_count(line) + 1,
    decreases line.len(),
{
    let last = line.len() - 1;
    let front = line.drop_last();
    assert(front.push(line[last]) =~= line);
    lemma_tile_count_push(front, line[last]);
    if c == last {
        assert(front.push(tile) =~= line.update(c, tile));
        lemma_tile_count_push(front, tile);
    } else {
        lemma_tile_count_update(front, c, tile);
        assert(front.update(c, tile).push(line[last]) =~= line.update(c, tile));
        lemma_tile_count_push(front.update(c, tile), line[last]);
    }
}

/// The empty cells and the tiles of the first rows are all their cells.
pub proof fn lemma_empties_and_tiles(cells: Seq<Seq<Tile>>, rows: nat, width: nat)
    requires
        rows <= cells.len(),
        forall|r: int| 0 <= r < rows ==> (#[trigger] cells[r]).len() == width,
    ensures
        empties_upto(cells, rows) + count_upto(cells, rows) == rows * width,
    decreases rows,
{
    if rows > 0 {
        lemma_empties_and_tiles(cells, (rows - 1) as nat, width);
        lemma_compacted_tiles(cells[rows - 1]);
        assert((rows - 1) * width + width == rows * width) by (nonlinear_arith);
    } else {
        assert(rows * width == 0) by (nonlinear_arith)
            requires
                rows == 0,
        ;
    }
}

/// The empty cells of the first rows are no more than those of more rows.
pub proof fn lemma_empties_upto_grows(cells: Seq<Seq<Tile>>, few: nat, many: nat)
    requires
        few <= many,
    ensures
        empties_upto(cells, few) <= empties_upto(cells, many),
    decreases many,
{
    if few < many {
        lemma_empties_upto_grows(cells, few, (many - 1) as nat);
    }
}

/// Where the rows from `from` on hold more than `n` empty cells, the `n`-th
/// of them lies on the grid, in one of those rows, and is empty.
pub proof fn lemma_nth_empty_cell_from(
    cells: Seq<Seq<Tile>>,
    from: nat,
    n: nat,
    height: nat,
    width: nat,
)
    requires
        rectangular(cells, height, width),
        from <= height,
        n < empties_upto(cells, height) - empties_upto(cells, from),
    ensures
        from <= nth_empty_cell_from(cells, from, n).0 < height,
        0 <= nth_empty_cell_from(cells, from, n).1 < width,
        !cells[nth_empty_cell_from(cells, from, n).0][nth_empty_cell_from(
            cells,
            from,
            n,
        ).1].occupied(),
    decreases height - from,
{
    if from < height {
        let row = cells[from as int];
        if n < empty_count(row) {
            lemma_nth_empty(row, n);
        } else {
            lemma_empties_upto_grows(cells, from + 1, height);
            lemma_nth_empty_cell_from(
                cells,
                from + 1,
                (n - empty_count(row)) as nat,
                height,
                width,
            );
        }
    }
}

/// A tile put on an empty cell is one tile more in every count that
/// reaches its row.
pub proof fn lemma_with_cell_count(
    cells: Seq<Seq<Tile>>,
    r: int,
    c: int,
    tile: Tile,
    rows: nat,
)
    requires
        rows <= cells.len(),
        0 <= r < cells.len(),
        0 <= c < cells[r].len(),
        !cells[r][c].occupied(),
        tile.occupied(),
    ensures
        count_upto(with_cell(cells, r, c, tile), rows) == count_upto(cells, rows) + if r < rows {
            1nat
        } else {
            0nat
        },
    decreases rows,
{
    if rows > 0 {
        lemma_with_cell_count(cells, r, c, tile, (rows - 1) as nat);
        if r == rows - 1 {
            lemma_tile_count_update(cells[r], c, tile);
        }
    }
}

/// On a valid board with an empty cell, every draw picks an empty cell of
/// the grid, and the board with the new tile on it is valid again.
pub proof fn lemma_sprinkled_valid(board: BoardModel, cell_draw: nat, tile_draw: nat)
    requires
        board.valid(),
        board.filled < board.width * board.height,
    ensures
        0 <= board.picked_cell(cell_draw).0 < board.height,
        0 <= board.picked_cell(cell_draw).1 < board.width,
        !board.cells[board.picked_cell(cell_draw).0][board.picked_cell(cell_draw).1].occupied(),
        board.sprinkled(cell_draw, tile_draw).valid(),
        board.gained_tile(board.sprinkled(cell_draw, tile_draw)),
{
    let n = cell_draw % board.vacancies();
    let at = board.picked_cell(cell_draw);
    lemma_empties_and_tiles(board.cells, board.height, board.width);
    assert(board.height * board.width == board.width * board.height) by (nonlinear_arith);
    lemma_nth_empty_cell_from(board.cells, 0, n, board.height, board.width);
    lemma_with_cell_count(board.cells, at.0, at.1, drawn_tile(tile_draw), board.height);
    let power = if tile_draw % 100 < 80 {
        1u8
    } else {
        2u8
    };
    assert(board.sprinkled(cell_draw, tile_draw) == (BoardModel {
        cells: with_cell(board.cells, at.0, at.1, Tile::Occupied(power)),
        filled: board.filled + 1,
        ..board
    }));
}

} // verus!
