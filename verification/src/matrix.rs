//! The scratch grid of the optimal aligner: one row for each needle character,
//! one column for each position of the window. It grows to the largest shape
//! asked for and is kept from one call to the next.
use vstd::prelude::*;

verus! {

/// How the best alignment that ends in a cell reached it.
#[derive(Clone, Copy, Debug)]
pub enum Step {
    /// No alignment ends in the cell.
    Unreached,
    /// The cell matches the first needle character.
    First,
    /// From the cell one row up and one column to the left.
    Extend,
    /// From a cell one row up, over the given number of skipped columns.
    Skip(u32),
}

/// A cell of the grid.
#[derive(Clone, Copy, Debug)]
pub struct Cell {
    /// The running total of the best alignment that ends here.
    pub score: u64,
    /// The length of the run that ends here.
    pub run: u32,
    /// The way back.
    pub step: Step,
}

/// A cell that no alignment ends in.
pub open spec fn blank() -> Cell {
    Cell { score: 0, run: 0, step: Step::Unreached }
}

pub fn blank_cell() -> (cell: Cell)
    ensures
        cell == blank(),
{
    Cell { score: 0, run: 0, step: Step::Unreached }
}

/// Blanks the first `cols` cells of a row, lengthening the row where it is shorter.
fn clear_row(row: &mut Vec<Cell>, cols: usize)
    ensures
        final(row)@.len() >= cols,
        final(row)@.len() >= old(row)@.len(),
        forall|c: int| 0 <= c < cols ==> final(row)@[c] == blank(),
{
    let mut c: usize = 0;
    while c < cols
        invariant
            c <= cols,
            row@.len() >= c,
            row@.len() >= old(row)@.len(),
            forall|k: int| 0 <= k < c ==> row@[k] == blank(),
        decreases cols - c,
    {
        if c < row.len() {
            row[c] = blank_cell();
        } else {
            row.push(blank_cell());
        }
        c = c + 1;
    }
}

/// The grid. Nothing holds between calls but its size.
pub struct MatrixSlab {
    rows: Vec<Vec<Cell>>,
}

impl MatrixSlab {
    /// The number of rows that the grid has room for.
    pub closed spec fn height(&self) -> int {
        self.rows@.len() as int
    }

    /// The number of columns that row `r` has room for.
    pub closed spec fn width(&self, r: int) -> int {
        self.rows@[r]@.len() as int
    }

    /// The cell in row `r` and column `c`.
    pub closed spec fn at(&self, r: int, c: int) -> Cell {
        self.rows@[r]@[c]
    }

    /// Whether the grid has room for `rows` rows of `cols` columns.
    pub open spec fn spans(&self, rows: int, cols: int) -> bool {
        &&& self.height() >= rows
        &&& forall|r: int| 0 <= r < rows ==> self.width(r) >= cols
    }

    /// Whether the grid has room for whatever `other` has room for.
    pub open spec fn covers(&self, other: &MatrixSlab) -> bool {
        &&& self.height() >= other.height()
        &&& forall|r: int| 0 <= r < other.height() ==> self.width(r) >= other.width(r)
    }

    /// Whether the grid has the room that `other` has, row for row.
    pub open spec fn same_shape(&self, other: &MatrixSlab) -> bool {
        &&& self.height() == other.height()
        &&& forall|r: int| 0 <= r < other.height() ==> self.width(r) == other.width(r)
    }

    /// A grid without rows.
    pub fn new() -> (slab: Self)
        ensures
            slab.height() == 0,
    {
        MatrixSlab { rows: Vec::new() }
    }

    /// Makes room for `rows` rows of `cols` columns and blanks those cells.
    /// The grid never gets smaller.
    pub fn reserve(&mut self, rows: usize, cols: usize)
        ensures
            final(self).spans(rows as int, cols as int),
            final(self).covers(old(self)),
            forall|r: int, c: int|
                0 <= r < rows && 0 <= c < cols ==> #[trigger] final(self).at(r, c) == blank(),
    {
        let mut r: usize = 0;
        while r < rows
            invariant
                r <= rows,
                self.rows@.len() >= r,
                self.rows@.len() >= old(self).rows@.len(),
                forall|k: int| 0 <= k < r ==> (#[trigger] self.rows@[k])@.len() >= cols,
                forall|k: int|
                    0 <= k < old(self).rows@.len() ==> (#[trigger] self.rows@[k])@.len() >= old(
                        self,
                    ).rows@[k]@.len(),
                forall|k: int, c: int|
                    0 <= k < r && 0 <= c < cols ==> #[trigger] self.rows@[k]@[c] == blank(),
            decreases rows - r,
        {
            if r == self.rows.len() {
                self.rows.push(Vec::new());
            }
            clear_row(&mut self.rows[r], cols);
            r = r + 1;
        }
    }

    /// The cell in row `r` and column `c`.
    pub fn get(&self, r: usize, c: usize) -> (cell: Cell)
        requires
            0 <= r < self.height(),
            0 <= c < self.width(r as int),
        ensures
            cell == self.at(r as int, c as int),
    {
        self.rows[r][c]
    }

    /// Writes the cell in row `r` and column `c`.
    pub fn set(&mut self, r: usize, c: usize, cell: Cell)
        requires
            0 <= r < old(self).height(),
            0 <= c < old(self).width(r as int),
        ensures
            final(self).same_shape(old(self)),
            final(self).at(r as int, c as int) == cell,
            forall|k: int, d: int|
                0 <= k < old(self).height() && 0 <= d < old(self).width(k) && (k != r || d != c)
                    ==> #[trigger] final(self).at(k, d) == old(self).at(k, d),
    {
        let row = &mut self.rows[r];
        row[c] = cell;
    }
}

} // verus!
