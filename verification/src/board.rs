//! The board engine: the grid of cells with its score and its count of
//! tiles, and the moves that change it.

use vstd::prelude::*;
use crate::chance::random_usize;
use crate::grid::{
    count_upto, gain_upto, grid_fault, grid_of, lemma_gain_upto_grows, line_count, line_of,
    merges_upto, moved_cell, rectangular, step_gain, stepped_cells, BoardModel,
};
use crate::grid_laws::{lemma_blank_valid, lemma_stepped_valid};
use crate::laws::lemma_lost_iff_full;
use crate::line::{blanks, checked_line_gain, lemma_reduced_len, reduce_line, reduced};
use crate::placement::{
    count_tiles, drawn_tile, empties_upto, find_empty, lemma_empties_and_tiles,
    lemma_empties_upto_grows, lemma_sprinkled_valid, nth_empty_cell_from, with_cell,
};
use crate::render::{grid_text, render_grid};
use crate::tile::{Action, BoardError, Tile};

verus! {

/// A board of the game. Its model is a [`BoardModel`].
pub struct Board {
    width: usize,
    height: usize,
    cells: Vec<Vec<Tile>>,
    filled_tiles: u128,
    total_score: u64,
}

impl View for Board {
    type V = BoardModel;

    closed spec fn view(&self) -> BoardModel {
        BoardModel {
            width: self.width as nat,
            height: self.height as nat,
            cells: grid_of(self.cells),
            filled: self.filled_tiles as nat,
            score: self.total_score as nat,
        }
    }
}

impl Board {
    /// A board is well formed when its model is valid.
    pub open spec fn wf(&self) -> bool {
        self@.valid()
    }

    /// Makes a board of the given size with every cell empty.
    pub fn new(width: usize, height: usize) -> (made: Result<Board, BoardError>)
        ensures
            (width == 0 || height == 0) ==> made == Err::<Board, BoardError>(BoardError::ZeroSized),
            width > 0 && height > 0 ==> made is Ok && made->Ok_0.wf() && made->Ok_0@
                == BoardModel::blank(width as nat, height as nat),
    {
        if width == 0 || height == 0 {
            return Err(BoardError::ZeroSized);
        }
        let mut cells: Vec<Vec<Tile>> = Vec::new();
        let mut r: usize = 0;
        while r < height
            invariant
                r <= height,
                cells.len() == r,
                forall|i: int| 0 <= i < r ==> (#[trigger] cells[i])@ == blanks(width as nat),
            decreases height - r,
        {
            let mut row: Vec<Tile> = Vec::new();
            let mut c: usize = 0;
            while c < width
                invariant
                    c <= width,
                    row@ == blanks(c as nat),
                decreases width - c,
            {
                row.push(Tile::Empty);
                assert(row@ =~= blanks((c + 1) as nat));
                c += 1;
            }
            cells.push(row);
            r += 1;
        }
        proof {
            lemma_blank_valid(width as nat, height as nat);
            assert(grid_of(cells) =~= BoardModel::blank(width as nat, height as nat).cells);
        }
        Ok(Board { width, height, cells, filled_tiles: 0, total_score: 0 })
    }

    /// Makes a board that holds the given grid, row by row, with no score.
    /// A grid without a cell or with rows of different lengths is refused.
    pub fn from(row_major_board: Vec<Vec<Tile>>) -> (made: Result<Board, BoardError>)
        ensures
            match made {
                Ok(board) => grid_fault(grid_of(row_major_board)) is None && board.wf() && board@
                    == BoardModel::holding(grid_of(row_major_board)),
                Err(error) => grid_fault(grid_of(row_major_board)) == Some(error),
            },
    {
        let ghost grid = grid_of(row_major_board);
        let height = row_major_board.len();
        if height == 0 {
            return Err(BoardError::ZeroSized);
        }
        let width = row_major_board[0].len();
        assert(grid[0] == row_major_board[0]@);
        if width == 0 {
            return Err(BoardError::ZeroSized);
        }
        let mut filled: u128 = 0;
        let mut r: usize = 0;
        while r < height
            invariant
                grid == grid_of(row_major_board),
                height == row_major_board.len() == grid.len(),
                height > 0,
                0 < width == grid[0].len(),
                r <= height,
                rectangular(grid.take(r as int), r as nat, width as nat),
                filled == count_upto(grid, r as nat),
                filled <= r * width,
            decreases height - r,
        {
            let row = &row_major_board[r];
            assert(grid[r as int] == row@);
            if row.len() != width {
                assert(!rectangular(grid, height as nat, width as nat));
                return Err(BoardError::Ragged);
            }
            let tiles = count_tiles(row);
            assert(filled + tiles <= (r + 1) * width <= u128::MAX) by (nonlinear_arith)
                requires
                    filled <= r * width,
                    tiles <= width,
                    r < 0xffff_ffff_ffff_ffff,
                    width <= 0xffff_ffff_ffff_ffff,
            ;
            filled = filled + tiles as u128;
            assert(rectangular(grid.take(r + 1), (r + 1) as nat, width as nat)) by {
                assert forall|i: int| 0 <= i < r + 1 implies (#[trigger] grid.take(r + 1)[i]).len()
                    == width by {
                    if i < r {
                        assert(grid.take(r as int)[i] == grid[i]);
                    }
                }
            }
            r += 1;
        }
        assert(grid.take(height as int) =~= grid);
        Ok(Board { width, height, cells: row_major_board, filled_tiles: filled, total_score: 0 })
    }

    /// A copy of the grid, row by row.
    pub fn get_data(&self) -> (data: Vec<Vec<Tile>>)
        ensures
            grid_of(data) == self@.cells,
    {
        let mut data: Vec<Vec<Tile>> = Vec::new();
        let mut r: usize = 0;
        while r < self.cells.len()
            invariant
                r <= self.cells.len(),
                data.len() == r,
                forall|i: int| 0 <= i < r ==> (#[trigger] data[i])@ == self.cells[i]@,
            decreases self.cells.len() - r,
        {
            let row = &self.cells[r];
            let mut copy: Vec<Tile> = Vec::new();
            let mut c: usize = 0;
            while c < row.len()
                invariant
                    c <= row.len(),
                    copy@ == row@.take(c as int),
                decreases row.len() - c,
            {
                copy.push(row[c]);
                assert(copy@ =~= row@.take(c + 1));
                c += 1;
            }
            assert(row@.take(row.len() as int) =~= row@);
            data.push(copy);
            r += 1;
        }
        assert(grid_of(data) =~= grid_of(self.cells));
        data
    }

    /// Puts a new tile on an empty cell. The empty cells are numbered in
    /// reading order and `cell_draw`, taken modulo their number, picks one;
    /// `tile_draw` picks the power: 1 for eighty values in a hundred, else 2.
    /// A board without an empty cell is left as it is.
    pub fn sprinkle_with(&mut self, cell_draw: usize, tile_draw: usize) -> (done: Result<
        (),
        BoardError,
    >)
        requires
            old(self).wf(),
        ensures
            final(self).wf(),
            old(self)@.filled >= old(self)@.width * old(self)@.height ==> done == Err::<
                (),
                BoardError,
            >(BoardError::Full) && final(self)@ == old(self)@,
            old(self)@.filled < old(self)@.width * old(self)@.height ==> done is Ok && final(self)@
                == old(self)@.sprinkled(cell_draw as nat, tile_draw as nat),
    {
        let ghost before = self@;
        let width = self.width as u128;
        let height = self.height as u128;
        assert(width * height <= u128::MAX) by (nonlinear_arith)
            requires
                width <= 0xffff_ffff_ffff_ffff,
                height <= 0xffff_ffff_ffff_ffff,
        ;
        proof {
            lemma_empties_and_tiles(before.cells, before.height, before.width);
            assert(before.height * before.width == before.width * before.height)
                by (nonlinear_arith);
        }
        let area = width * height;
        if self.filled_tiles == area {
            return Err(BoardError::Full);
        }
        let vacancies = area - self.filled_tiles;
        let tile = if tile_draw % 100 < 80 {
            Tile::Occupied(1)
        } else {
            Tile::Occupied(2)
        };
        let mut left: u128 = (cell_draw as u128) % vacancies;
        let mut r: usize = 0;
        proof {
            lemma_sprinkled_valid(before, cell_draw as nat, tile_draw as nat);
        }
        loop
            invariant
                self@ == before,
                before == old(self)@,
                before.valid(),
                before.filled < before.width * before.height <= u128::MAX,
                tile == drawn_tile(tile_draw as nat),
                before.sprinkled(cell_draw as nat, tile_draw as nat).valid(),
                r <= before.height,
                left < empties_upto(before.cells, before.height) - empties_upto(
                    before.cells,
                    r as nat,
                ),
                before.picked_cell(cell_draw as nat) == nth_empty_cell_from(
                    before.cells,
                    r as nat,
                    left as nat,
                ),
            decreases before.height - r,
        {
            proof {
                lemma_empties_upto_grows(before.cells, (r + 1) as nat, before.height);
            }
            let empties = self.cells[r].len() - count_tiles(&self.cells[r]);
            if left < empties as u128 {
                let c = find_empty(&self.cells[r], left as usize);
                self.cells[r][c] = tile;
                self.filled_tiles = self.filled_tiles + 1;
                assert(grid_of(self.cells) =~= with_cell(before.cells, r as int, c as int, tile));
                return Ok(());
            }
            left = left - empties as u128;
            r += 1;
        }
    }

    /// Puts a new tile of power 1 or 2 on an empty cell picked by chance.
    /// A board without an empty cell is left as it is.
    pub fn sprinkle_random(&mut self) -> (done: Result<(), BoardError>)
        requires
            old(self).wf(),
        ensures
            final(self).wf(),
            old(self)@.filled >= old(self)@.width * old(self)@.height ==> done == Err::<
                (),
                BoardError,
            >(BoardError::Full) && final(self)@ == old(self)@,
            old(self)@.filled < old(self)@.width * old(self)@.height ==> done is Ok && exists|
                cell_draw: nat,
                tile_draw: nat,
            | final(self)@ == #[trigger] old(self)@.sprinkled(cell_draw, tile_draw),
            old(self)@.filled < old(self)@.width * old(self)@.height ==> old(self)@.gained_tile(
                final(self)@,
            ),
    {
        let cell_draw = random_usize();
        let tile_draw = random_usize();
        proof {
            if self@.filled < self@.width * self@.height {
                lemma_sprinkled_valid(self@, cell_draw as nat, tile_draw as nat);
            }
        }
        self.sprinkle_with(cell_draw, tile_draw)
    }

    /// The score so far.
    pub fn score(&self) -> (score: u64)
        ensures
            score == self@.score,
    {
        self.total_score
    }

    /// The number of cells in a row.
    pub fn width(&self) -> (width: usize)
        ensures
            width == self@.width,
    {
        self.width
    }

    /// The number of rows.
    pub fn height(&self) -> (height: usize)
        ensures
            height == self@.height,
    {
        self.height
    }

    /// The number of tiles that the board counts.
    pub fn filled(&self) -> (filled: u128)
        ensures
            filled == self@.filled,
    {
        self.filled_tiles
    }

    /// Tells whether the game is lost: whether the board counts as many
    /// tiles as it has cells, which is when every cell holds a tile.
    /// Whether tiles could still merge plays no part.
    pub fn lost(&self) -> (lost: bool)
        requires
            self.wf(),
        ensures
            lost == (self@.filled == self@.width * self@.height),
            lost == self@.full(),
    {
        let width = self.width as u128;
        let height = self.height as u128;
        assert(width * height <= u128::MAX) by (nonlinear_arith)
            requires
                width <= 0xffff_ffff_ffff_ffff,
                height <= 0xffff_ffff_ffff_ffff,
        ;
        proof {
            lemma_lost_iff_full(self@);
        }
        self.filled_tiles == width * height
    }

    /// The board as text, framed, one line of cells for each row.
    pub fn render(&self) -> (text: String)
        ensures
            text@ == grid_text(self@.cells),
    {
        render_grid(&self.cells)
    }

    /// The `k`-th line of the grid, turned as the move needs it.
    fn oriented_line(&self, action: &Action, k: usize) -> (line: Vec<Tile>)
        requires
            self.wf(),
            k < line_count(self@.cells, *action),
        ensures
            line@ == line_of(self@.cells, *action, k as int),
    {
        let size = match action {
            Action::Left | Action::Right => self.width,
            Action::Up | Action::Down => self.height,
        };
        let ghost target = line_of(self@.cells, *action, k as int);
        let mut line: Vec<Tile> = Vec::new();
        let mut i: usize = 0;
        while i < size
            invariant
                self.wf(),
                k < line_count(self@.cells, *action),
                target == line_of(self@.cells, *action, k as int),
                size == target.len(),
                i <= size,
                line@ == target.take(i as int),
            decreases size - i,
        {
            let cell = match action {
                Action::Left => self.cells[k][i],
                Action::Right => self.cells[k][size - 1 - i],
                Action::Up => self.cells[i][k],
                Action::Down => self.cells[size - 1 - i][k],
            };
            assert(cell == target[i as int]);
            line.push(cell);
            assert(line@ =~= target.take(i + 1));
            i += 1;
        }
        assert(target.take(size as int) =~= target);
        line
    }

    /// Tells whether the score after the move still fits in 64 bits, which
    /// is what `step` asks for.
    pub fn can_step(&self, action: &Action) -> (fits: bool)
        requires
            self.wf(),
        ensures
            fits == self@.step_fits(*action),
    {
        let lines = match action {
            Action::Left | Action::Right => self.height,
            Action::Up | Action::Down => self.width,
        };
        let mut score = self.total_score;
        let mut k: usize = 0;
        while k < lines
            invariant
                self.wf(),
                lines == line_count(self@.cells, *action),
                k <= lines,
                score == self@.score + gain_upto(self@.cells, *action, k as nat),
            decreases lines - k,
        {
            let line = self.oriented_line(action, k);
            proof {
                lemma_gain_upto_grows(self@.cells, *action, (k + 1) as nat, lines as nat);
            }
            let total = match checked_line_gain(&line) {
                Some(earned) => score.checked_add(earned),
                None => None,
            };
            match total {
                Some(sum) => {
                    score = sum;
                },
                None => {
                    return false;
                },
            }
            k += 1;
        }
        true
    }

    /// Pushes every tile as far as it goes in the direction of the move and
    /// merges, in each line, the first pair of equal neighbours. Each merge
    /// takes one tile from the count and adds the value of the new tile to
    /// the score, which has to fit in 64 bits still: `can_step` tells.
    pub fn step(&mut self, action: &Action)
        requires
            old(self).wf(),
            old(self)@.step_fits(*action),
        ensures
            final(self).wf(),
            final(self)@ == old(self)@.stepped(*action),
    {
        let ghost before = self@;
        let lines = match action {
            Action::Left | Action::Right => self.height,
            Action::Up | Action::Down => self.width,
        };
        let mut moved: Vec<Vec<Tile>> = Vec::new();
        let mut score = self.total_score;
        let mut merges: u128 = 0;
        let mut k: usize = 0;
        while k < lines
            invariant
                self.wf(),
                self@ == before,
                lines == line_count(before.cells, *action),
                before.score + step_gain(before.cells, *action) <= u64::MAX,
                k <= lines,
                moved.len() == k,
                forall|j: int|
                    0 <= j < k ==> (#[trigger] moved[j])@ == reduced(
                        line_of(before.cells, *action, j),
                    ),
                score == before.score + gain_upto(before.cells, *action, k as nat),
                merges == merges_upto(before.cells, *action, k as nat),
                merges <= k,
            decreases lines - k,
        {
            let line = self.oriented_line(action, k);
            proof {
                lemma_gain_upto_grows(before.cells, *action, (k + 1) as nat, lines as nat);
            }
            let (earned, after) = reduce_line(&line);
            if earned > 0 {
                merges += 1;
            }
            score += earned;
            moved.push(after);
            k += 1;
        }
        let width = self.width;
        let height = self.height;
        let mut cells: Vec<Vec<Tile>> = Vec::new();
        let mut r: usize = 0;
        while r < height
            invariant
                before.valid(),
                width == before.width,
                height == before.height,
                moved.len() == line_count(before.cells, *action),
                forall|j: int|
                    0 <= j < moved.len() ==> (#[trigger] moved[j])@ == reduced(
                        line_of(before.cells, *action, j),
                    ),
                r <= height,
                cells.len() == r,
                forall|i: int|
                    0 <= i < r ==> (#[trigger] cells[i])@ == stepped_cells(before.cells, *action)[i],
            decreases height - r,
        {
            let mut row: Vec<Tile> = Vec::new();
            let mut c: usize = 0;
            while c < width
                invariant
                    before.valid(),
                    width == before.width,
                    height == before.height,
                    moved.len() == line_count(before.cells, *action),
                    forall|j: int|
                        0 <= j < moved.len() ==> (#[trigger] moved[j])@ == reduced(
                            line_of(before.cells, *action, j),
                        ),
                    r < height,
                    c <= width,
                    row.len() == c,
                    forall|i: int|
                        0 <= i < c ==> #[trigger] row[i] == moved_cell(
                            before.cells,
                            *action,
                            r as int,
                            i,
                        ),
                decreases width - c,
            {
                proof {
                    let k = match action {
                        Action::Left | Action::Right => r as int,
                        Action::Up | Action::Down => c as int,
                    };
                    lemma_reduced_len(line_of(before.cells, *action, k));
                }
                let cell = match action {
                    Action::Left => moved[r][c],
                    Action::Right => moved[r][width - 1 - c],
                    Action::Up => moved[c][r],
                    Action::Down => moved[c][height - 1 - r],
                };
                row.push(cell);
                c += 1;
            }
            assert(row@ =~= stepped_cells(before.cells, *action)[r as int]);
            cells.push(row);
            r += 1;
        }
        proof {
            lemma_stepped_valid(before, *action);
            assert(grid_of(cells) =~= stepped_cells(before.cells, *action));
        }
        self.cells = cells;
        self.filled_tiles = self.filled_tiles - merges;
        self.total_score = score;
    }
}

} // verus!
