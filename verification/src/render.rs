//! The board as text: a frame of `#` round rows of centred tile values.

use vstd::prelude::*;
use vstd::string::{StrSliceExecFns, StringExecFns};
use crate::grid::{grid_of, grid_width};
use crate::tile::Tile;

verus! {

/// A piece of text written a number of times in a row.
pub open spec fn repeated(piece: Seq<char>, times: nat) -> Seq<char>
    decreases times,
{
    if times == 0 {
        Seq::empty()
    } else {
        repeated(piece, (times - 1) as nat) + piece
    }
}

/// A label in the middle of a field of the given width. Of the blanks that
/// fill the field, the smaller half stands before the label. A label too
/// long for the field stands as it is.
pub open spec fn centered(label: Seq<char>, width: nat) -> Seq<char> {
    if label.len() >= width {
        label
    } else {
        let blanks = (width - label.len()) as nat;
        repeated(" "@, blanks / 2) + label + repeated(" "@, (blanks - blanks / 2) as nat)
    }
}

/// The width of the field that a cell is shown in.
pub open spec fn cell_width() -> nat {
    5
}

/// The number of frame marks in the top and bottom line of a board with
/// rows of the given number of cells.
pub open spec fn frame_marks(width: nat) -> nat {
    2 + (5 * width) / 2
}

/// The top and the bottom line of the frame.
pub open spec fn border_line(width: nat) -> Seq<char> {
    repeated("##"@, frame_marks(width)) + "\r\n"@
}

/// A line of the frame without cells.
pub open spec fn spacer_line(width: nat) -> Seq<char> {
    "##"@ + repeated("  "@, (frame_marks(width) - 2) as nat) + "##\r\n"@
}

/// The first cells of a row next to each other, each in its field.
pub open spec fn cells_text(row: Seq<Tile>, cells: nat) -> Seq<char>
    decreases cells,
{
    if cells == 0 {
        Seq::empty()
    } else {
        cells_text(row, (cells - 1) as nat) + centered(row[cells - 1].label_text(), cell_width())
    }
}

/// A row between the two sides of the frame.
pub open spec fn row_line(row: Seq<Tile>) -> Seq<char> {
    "##"@ + cells_text(row, row.len()) + "##\r\n"@
}

/// The first rows of a grid, a line without cells after each.
pub open spec fn rows_text(cells: Seq<Seq<Tile>>, rows: nat) -> Seq<char>
    decreases rows,
{
    if rows == 0 {
        Seq::empty()
    } else {
        rows_text(cells, (rows - 1) as nat) + row_line(cells[rows - 1]) + spacer_line(
            grid_width(cells),
        )
    }
}

/// A grid as text: the top of the frame, a line without cells, the rows,
/// the bottom of the frame. Every line ends in a carriage return and a line
/// feed.
pub open spec fn grid_text(cells: Seq<Seq<Tile>>) -> Seq<char> {
    border_line(grid_width(cells)) + spacer_line(grid_width(cells)) + rows_text(cells, cells.len())
        + border_line(grid_width(cells))
}

/// Writes a piece of text a number of times at the end of a text.
pub fn append_repeated(text: &mut String, piece: &str, times: u128)
    ensures
        final(text)@ == old(text)@ + repeated(piece@, times as nat),
{
    let mut done: u128 = 0;
    assert(text@ + repeated(piece@, 0) =~= text@);
    while done < times
        invariant
            done <= times,
            text@ == old(text)@ + repeated(piece@, done as nat),
        decreases times - done,
    {
        text.append(piece);
        done += 1;
        assert(text@ =~= old(text)@ + repeated(piece@, done as nat));
    }
}

/// Writes a label in the middle of a field at the end of a text.
pub fn append_centered(text: &mut String, label: &str, width: usize)
    ensures
        final(text)@ == old(text)@ + centered(label@, width as nat),
{
    let length = label.unicode_len();
    if length >= width {
        text.append(label);
    } else {
        let blanks = width - length;
        append_repeated(text, " ", (blanks / 2) as u128);
        text.append(label);
        append_repeated(text, " ", (blanks - blanks / 2) as u128);
        assert(text@ =~= old(text)@ + centered(label@, width as nat));
    }
}

/// Writes a line of the frame without cells at the end of a text.
pub fn append_spacer(text: &mut String, width: usize)
    ensures
        final(text)@ == old(text)@ + spacer_line(width as nat),
{
    let marks: u128 = 2 + (5 * (width as u128)) / 2;
    text.append("##");
    append_repeated(text, "  ", marks - 2);
    text.append("##\r\n");
    assert(text@ =~= old(text)@ + spacer_line(width as nat));
}

/// Writes the top or bottom line of the frame at the end of a text.
pub fn append_border(text: &mut String, width: usize)
    ensures
        final(text)@ == old(text)@ + border_line(width as nat),
{
    let marks: u128 = 2 + (5 * (width as u128)) / 2;
    append_repeated(text, "##", marks);
    text.append("\r\n");
    assert(text@ =~= old(text)@ + border_line(width as nat));
}

/// Writes a row between the two sides of the frame at the end of a text.
pub fn append_row(text: &mut String, row: &Vec<Tile>)
    ensures
        final(text)@ == old(text)@ + row_line(row@),
{
    text.append("##");
    let ghost start = text@;
    let mut c: usize = 0;
    assert(start + cells_text(row@, 0) =~= start);
    while c < row.len()
        invariant
            c <= row.len(),
            start == old(text)@ + "##"@,
            text@ == start + cells_text(row@, c as nat),
        decreases row.len() - c,
    {
        let label = row[c].label();
        append_centered(text, label.as_str(), 5);
        c += 1;
        assert(text@ =~= start + cells_text(row@, c as nat));
    }
    text.append("##\r\n");
    assert(text@ =~= old(text)@ + row_line(row@));
}

/// Writes a grid as text.
pub fn render_grid(cells: &Vec<Vec<Tile>>) -> (text: String)
    ensures
        text@ == grid_text(grid_of(*cells)),
{
    let ghost grid = grid_of(*cells);
    let width = if cells.len() == 0 {
        0
    } else {
        cells[0].len()
    };
    assert(width == grid_width(grid));
    let mut text = String::new();
    append_border(&mut text, width);
    append_spacer(&mut text, width);
    let ghost start = text@;
    assert(start =~= border_line(width as nat) + spacer_line(width as nat));
    let mut r: usize = 0;
    assert(start + rows_text(grid, 0) =~= start);
    while r < cells.len()
        invariant
            r <= cells.len(),
            grid == grid_of(*cells),
            width == grid_width(grid),
            text@ == start + rows_text(grid, r as nat),
        decreases cells.len() - r,
    {
        append_row(&mut text, &cells[r]);
        append_spacer(&mut text, width);
        r += 1;
        assert(grid[r - 1] == cells@[r - 1]@);
        assert(text@ =~= start + rows_text(grid, r as nat));
    }
    append_border(&mut text, width);
    assert(text@ =~= grid_text(grid));
    text
}

} // verus!
