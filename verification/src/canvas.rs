//! The picture being drawn: rows of cells, each holding one character and, where it was
//! painted, the colour it was painted in.
use vstd::prelude::*;

use crate::color::Color;

verus! {

/// One character cell of the picture.
#[derive(Clone, Copy, Debug, PartialEq, Eq, Structural)]
pub struct Cell {
    pub ch: char,
    /// `None` for an unpainted cell, which keeps the terminal's default colour.
    pub fg: Option<Color>,
}

impl Cell {
    /// A blank, unpainted cell.
    pub fn blank() -> (c: Cell)
        ensures
            c == blank_cell(),
    {
        Cell { ch: ' ', fg: None }
    }

    /// The character `ch` painted in `color`.
    pub fn styled(ch: char, color: Color) -> (c: Cell)
        ensures
            c == painted(ch, color),
    {
        Cell { ch, fg: Some(color) }
    }
}

pub open spec fn blank_cell() -> Cell {
    Cell { ch: ' ', fg: None }
}

pub open spec fn painted(ch: char, color: Color) -> Cell {
    Cell { ch, fg: Some(color) }
}

/// The cells of a picture, row by row.
pub open spec fn cells(lines: Seq<Vec<Cell>>) -> Seq<Seq<Cell>> {
    lines.map_values(|r: Vec<Cell>| r@)
}

/// A picture has a row of cells for each row of the grid.
pub broadcast proof fn lemma_cells_len(lines: Seq<Vec<Cell>>)
    ensures
        #[trigger] cells(lines).len() == lines.len(),
{
}

/// Two pictures have the same number of rows and each row the same number of cells.
pub open spec fn same_shape(a: Seq<Seq<Cell>>, b: Seq<Seq<Cell>>) -> bool {
    &&& a.len() == b.len()
    &&& forall|r: int| 0 <= r < a.len() ==> #[trigger] a[r].len() == b[r].len()
}

/// A picture of `height` rows of `width` blank cells.
pub open spec fn blank_picture(width: nat, height: nat) -> Seq<Seq<Cell>> {
    Seq::new(height, |r: int| Seq::new(width, |c: int| blank_cell()))
}

/// A picture of `height` rows, each of `width` blank cells.
pub fn blank_lines(width: usize, height: usize) -> (lines: Vec<Vec<Cell>>)
    ensures
        cells(lines@) == blank_picture(width as nat, height as nat),
        lines@.len() == height,
{
    let mut row: Vec<Cell> = Vec::new();
    for i in 0..width
        invariant
            row@ == Seq::new(i as nat, |c: int| blank_cell()),
    {
        row.push(Cell::blank());
        assert(row@ =~= Seq::new((i + 1) as nat, |c: int| blank_cell()));
    }
    let mut lines: Vec<Vec<Cell>> = Vec::new();
    for j in 0..height
        invariant
            row@ == Seq::new(width as nat, |c: int| blank_cell()),
            lines@.len() == j,
            forall|r: int| 0 <= r < j ==> #[trigger] lines@[r]@ == row@,
    {
        let copy = copy_row(&row);
        lines.push(copy);
    }
    assert(cells(lines@) =~= blank_picture(width as nat, height as nat)) by {
        assert forall|r: int| 0 <= r < height implies #[trigger] cells(lines@)[r]
            =~= blank_picture(width as nat, height as nat)[r] by {}
    }
    lines
}

/// A copy of a row of cells.
pub fn copy_row(row: &Vec<Cell>) -> (r: Vec<Cell>)
    ensures
        r@ == row@,
{
    let mut r: Vec<Cell> = Vec::new();
    for i in 0..row.len()
        invariant
            r@ == row@.take(i as int),
    {
        r.push(row[i]);
        assert(r@ =~= row@.take(i + 1));
    }
    assert(r@ =~= row@);
    r
}

/// Writes `c` into row `y`, column `x`, and leaves every other cell as it was.
pub fn put(lines: &mut Vec<Vec<Cell>>, y: usize, x: usize, c: Cell)
    requires
        y < old(lines)@.len(),
        x < old(lines)@[y as int]@.len(),
    ensures
        final(lines)@.len() == old(lines)@.len(),
        cells(final(lines)@) == cells(old(lines)@).update(
            y as int,
            cells(old(lines)@)[y as int].update(x as int, c),
        ),
{
    lines[y][x] = c;
    assert(cells(lines@) =~= cells(old(lines)@).update(
        y as int,
        cells(old(lines)@)[y as int].update(x as int, c),
    ));
}

} // verus!
