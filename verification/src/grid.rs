//! A fixed-size 2D occupancy grid.
//!
//! Each cell holds either `0` (the sentinel for "unoccupied") or the positive
//! id of the organism occupying it. Positions are `(row, col)` pairs with
//! `0 <= row < num_rows` and `0 <= col < num_cols`.

use vstd::prelude::*;

verus! {

/// A grid position, written `(row, col)`.
pub type CellIndex = (usize, usize);

/// The mathematical counterpart of a `CellIndex`.
pub open spec fn idx(p: CellIndex) -> (int, int) {
    (p.0 as int, p.1 as int)
}

/// The four axis-aligned directions a probe can scan in:
/// `PosX`/`NegX` run along rows (increasing/decreasing row index),
/// `PosY`/`NegY` along columns (increasing/decreasing column index).
#[derive(Clone, Copy)]
pub enum SeekOrientation {
    PosX,
    PosY,
    NegX,
    NegY,
}

/// One grid cell: `value == 0` means unoccupied, a non-zero value is the id
/// of the organism occupying the cell.
#[derive(Clone, Copy, Debug)]
pub struct Cell {
    pub value: u32,
}

impl Default for Cell {
    fn default() -> (r: Self)
        ensures
            r.value == 0,
    {
        Cell { value: 0 }
    }
}

impl Cell {
    pub fn new(value: u32) -> (r: Self)
        ensures
            r.value == value,
    {
        Cell { value }
    }

    pub fn set(&mut self, id: u32)
        ensures
            final(self).value == id,
    {
        self.value = id;
    }

    pub fn unset(&mut self)
        ensures
            final(self).value == 0,
    {
        self.value = 0;
    }
}

/// 1 when a cell is occupied, 0 when it holds the sentinel.
pub open spec fn occ(c: Cell) -> int {
    if c.value != 0 {
        1
    } else {
        0
    }
}

/// How many of the first `j` cells of a row are occupied.
pub open spec fn row_occupied_upto(row: Seq<Cell>, j: int) -> int
    decreases j,
{
    if j <= 0 {
        0
    } else {
        row_occupied_upto(row, j - 1) + occ(row[j - 1])
    }
}

/// How many cells of the first `i` rows are occupied.
pub open spec fn occupied_upto(cells: Seq<Vec<Cell>>, i: int) -> int
    decreases i,
{
    if i <= 0 {
        0
    } else {
        occupied_upto(cells, i - 1) + row_occupied_upto(cells[i - 1]@, cells[i - 1]@.len() as int)
    }
}

pub proof fn lemma_row_occupied_zero(row: Seq<Cell>, j: int)
    requires
        forall|c: int| 0 <= c < j ==> (#[trigger] row[c]).value == 0,
    ensures
        row_occupied_upto(row, j) == 0,
    decreases j,
{
    if j > 0 {
        lemma_row_occupied_zero(row, j - 1);
    }
}

/// Two rows that agree everywhere but at column `c` have occupancy counts
/// that differ exactly by the change at `c`.
pub proof fn lemma_row_occupied_update(r1: Seq<Cell>, r2: Seq<Cell>, c: int, j: int)
    requires
        r1.len() == r2.len(),
        0 <= c < r1.len(),
        forall|k: int| 0 <= k < r1.len() && k != c ==> r1[k] == r2[k],
        0 <= j <= r1.len(),
    ensures
        row_occupied_upto(r2, j) == row_occupied_upto(r1, j) + if c < j {
            occ(r2[c]) - occ(r1[c])
        } else {
            0
        },
    decreases j,
{
    if j > 0 {
        lemma_row_occupied_update(r1, r2, c, j - 1);
    }
}

pub proof fn lemma_occupied_zero(cells: Seq<Vec<Cell>>, i: int)
    requires
        forall|r: int, c: int|
            0 <= r < i && 0 <= c < cells[r]@.len() ==> (#[trigger] cells[r]@[c]).value == 0,
    ensures
        occupied_upto(cells, i) == 0,
    decreases i,
{
    if i > 0 {
        lemma_occupied_zero(cells, i - 1);
        lemma_row_occupied_zero(cells[i - 1]@, cells[i - 1]@.len() as int);
    }
}

/// Two cell arrays that agree on every row but row `r` have occupancy
/// counts that differ exactly by the change in row `r`.
pub proof fn lemma_occupied_update(cells1: Seq<Vec<Cell>>, cells2: Seq<Vec<Cell>>, r: int, i: int)
    requires
        cells1.len() == cells2.len(),
        0 <= r < cells1.len(),
        forall|k: int| 0 <= k < cells1.len() && k != r ==> cells1[k] == cells2[k],
        0 <= i <= cells1.len(),
    ensures
        occupied_upto(cells2, i) == occupied_upto(cells1, i) + if r < i {
            row_occupied_upto(cells2[r]@, cells2[r]@.len() as int) - row_occupied_upto(
                cells1[r]@,
                cells1[r]@.len() as int,
            )
        } else {
            0
        },
    decreases i,
{
    if i > 0 {
        lemma_occupied_update(cells1, cells2, r, i - 1);
    }
}

/// From a position already at the grid edge in the scan direction there are
/// no cells between the position and that edge, so the probe finds nothing.
pub proof fn lemma_seek_zero_at_edge(g: Grid, pos: (int, int), o: SeekOrientation)
    requires
        g.wf(),
        g.in_bounds(pos),
        match o {
            SeekOrientation::PosX => pos.0 == g.num_rows - 1,
            SeekOrientation::NegX => pos.0 == 0,
            SeekOrientation::PosY => pos.1 == g.num_cols - 1,
            SeekOrientation::NegY => pos.1 == 0,
        },
    ensures
        !g.seek_zero_spec(pos, o),
{
}

/// A `num_rows x num_cols` array of cells, row-major.
#[derive(Clone, Debug)]
pub struct Grid {
    pub cells: Vec<Vec<Cell>>,
    pub num_rows: usize,
    pub num_cols: usize,
}

impl Grid {
    /// The shape agrees with the cell storage, and the total cell count fits
    /// in `usize` so that occupancy counts can be computed.
    pub open spec fn wf(self) -> bool {
        &&& self.cells@.len() == self.num_rows
        &&& forall|i: int|
            0 <= i < self.num_rows ==> (#[trigger] self.cells@[i])@.len() == self.num_cols
        &&& self.num_rows * self.num_cols <= usize::MAX
    }

    /// The occupant id stored at `(r, c)`.
    pub open spec fn cell_value(self, r: int, c: int) -> u32 {
        self.cells@[r]@[c].value
    }

    pub open spec fn in_bounds(self, pos: (int, int)) -> bool {
        0 <= pos.0 < self.num_rows && 0 <= pos.1 < self.num_cols
    }

    pub open spec fn same_shape(self, other: Grid) -> bool {
        self.num_rows == other.num_rows && self.num_cols == other.num_cols
    }

    /// The number of occupied cells.
    pub open spec fn occupied_count(self) -> int {
        occupied_upto(self.cells@, self.cells@.len() as int)
    }

    /// Whether, scanning strictly from `pos` toward the grid edge along
    /// `o` (exclusive of `pos` itself, inclusive of the edge), at least one
    /// unoccupied cell exists.
    pub open spec fn seek_zero_spec(self, pos: (int, int), o: SeekOrientation) -> bool {
        match o {
            SeekOrientation::PosX => exists|i: int|
                pos.0 < i < self.num_rows && #[trigger] self.cell_value(i, pos.1) == 0,
            SeekOrientation::NegX => exists|i: int|
                0 <= i < pos.0 && #[trigger] self.cell_value(i, pos.1) == 0,
            SeekOrientation::PosY => exists|j: int|
                pos.1 < j < self.num_cols && #[trigger] self.cell_value(pos.0, j) == 0,
            SeekOrientation::NegY => exists|j: int|
                0 <= j < pos.1 && #[trigger] self.cell_value(pos.0, j) == 0,
        }
    }

    pub fn new(row_size: usize, column_size: usize) -> (g: Self)
        requires
            row_size * column_size <= usize::MAX,
        ensures
            g.wf(),
            g.num_rows == row_size,
            g.num_cols == column_size,
            forall|r: int, c: int| g.in_bounds((r, c)) ==> #[trigger] g.cell_value(r, c) == 0,
    {
        let mut cells: Vec<Vec<Cell>> = Vec::new();
        let mut i: usize = 0;
        while i < row_size
            invariant
                i <= row_size,
                cells@.len() == i,
                forall|r: int| 0 <= r < i ==> (#[trigger] cells@[r])@.len() == column_size,
                forall|r: int, c: int|
                    0 <= r < i && 0 <= c < column_size ==> (#[trigger] cells@[r]@[c]).value == 0,
            decreases row_size - i,
        {
            let mut row: Vec<Cell> = Vec::new();
            let mut j: usize = 0;
            while j < column_size
                invariant
                    j <= column_size,
                    row@.len() == j,
                    forall|c: int| 0 <= c < j ==> (#[trigger] row@[c]).value == 0,
                decreases column_size - j,
            {
                row.push(Cell { value: 0 });
                j = j + 1;
            }
            cells.push(row);
            i = i + 1;
        }
        Grid { cells, num_rows: row_size, num_cols: column_size }
    }

    /// Writes `id` into the cell at `index` (an `id` of 0 clears the cell).
    pub fn set_cell(&mut self, index: CellIndex, id: u32)
        requires
            old(self).wf(),
            old(self).in_bounds(idx(index)),
        ensures
            final(self).wf(),
            final(self).same_shape(*old(self)),
            final(self).cell_value(index.0 as int, index.1 as int) == id,
            forall|r: int, c: int|
                old(self).in_bounds((r, c)) && (r, c) != idx(index)
                    ==> #[trigger] final(self).cell_value(r, c) == old(self).cell_value(r, c),
            final(self).occupied_count() == old(self).occupied_count() + (if id != 0 {
                1int
            } else {
                0int
            }) - (if old(self).cell_value(index.0 as int, index.1 as int) != 0 {
                1int
            } else {
                0int
            }),
    {
        self.cells[index.0][index.1] = Cell { value: id };
        proof {
            let r = index.0 as int;
            let c = index.1 as int;
            lemma_row_occupied_update(
                old(self).cells@[r]@,
                self.cells@[r]@,
                c,
                old(self).cells@[r]@.len() as int,
            );
            lemma_occupied_update(old(self).cells@, self.cells@, r, old(self).cells@.len() as int);
        }
    }

    /// Writes the sentinel into the cell at `index`.
    pub fn unset_cell(&mut self, index: CellIndex)
        requires
            old(self).wf(),
            old(self).in_bounds(idx(index)),
        ensures
            final(self).wf(),
            final(self).same_shape(*old(self)),
            final(self).cell_value(index.0 as int, index.1 as int) == 0,
            forall|r: int, c: int|
                old(self).in_bounds((r, c)) && (r, c) != idx(index)
                    ==> #[trigger] final(self).cell_value(r, c) == old(self).cell_value(r, c),
            final(self).occupied_count() == old(self).occupied_count() - (if old(self).cell_value(
                index.0 as int,
                index.1 as int,
            ) != 0 {
                1int
            } else {
                0int
            }),
    {
        self.set_cell(index, 0);
    }

    /// Sets every cell back to the sentinel, keeping the shape.
    pub fn reset(&mut self)
        requires
            old(self).wf(),
        ensures
            final(self).wf(),
            final(self).same_shape(*old(self)),
            forall|r: int, c: int|
                final(self).in_bounds((r, c)) ==> #[trigger] final(self).cell_value(r, c) == 0,
            final(self).occupied_count() == 0,
    {
        let fresh = Grid::new(self.num_rows, self.num_cols);
        self.cells = fresh.cells;
        proof {
            assert forall|r: int, c: int|
                0 <= r < self.cells@.len() && 0 <= c < self.cells@[r]@.len() implies (
            self.cells@[r]@[c]).value == 0 by {
                assert(fresh.in_bounds((r, c)));
                assert(fresh.cell_value(r, c) == 0);
            }
            lemma_occupied_zero(self.cells@, self.cells@.len() as int);
        }
    }

    /// The number of occupied cells, which serves as the population count.
    pub fn num_set(&self) -> (r: usize)
        requires
            self.wf(),
        ensures
            r as int == self.occupied_count(),
    {
        let num_rows = self.num_rows;
        let num_cols = self.num_cols;
        let mut count: usize = 0;
        let mut i: usize = 0;
        while i < num_rows
            invariant
                self.wf(),
                num_rows == self.num_rows,
                num_cols == self.num_cols,
                i <= num_rows,
                count as int == occupied_upto(self.cells@, i as int),
                count as int <= i * num_cols,
            decreases num_rows - i,
        {
            let mut j: usize = 0;
            while j < num_cols
                invariant
                    self.wf(),
                    num_rows == self.num_rows,
                    num_cols == self.num_cols,
                    i < num_rows,
                    j <= num_cols,
                    count as int == occupied_upto(self.cells@, i as int) + row_occupied_upto(
                        self.cells@[i as int]@,
                        j as int,
                    ),
                    count as int <= i * num_cols + j,
                decreases num_cols - j,
            {
                if self.cells[i][j].value != 0 {
                    proof {
                        assert(i * num_cols + j < num_rows * num_cols) by (nonlinear_arith)
                            requires
                                0 <= i < num_rows,
                                0 <= j < num_cols,
                        ;
                    }
                    count = count + 1;
                }
                j = j + 1;
            }
            proof {
                assert(i * num_cols + num_cols == (i + 1) * num_cols) by (nonlinear_arith);
            }
            i = i + 1;
        }
        count
    }

    /// True iff, scanning strictly from `pos` toward the grid edge along
    /// `orientation` (exclusive of `pos`, inclusive of the edge), at least
    /// one unoccupied cell exists. This is a linear probe over the whole
    /// remaining span, not an adjacency check.
    pub fn seek_zero(&self, pos: CellIndex, orientation: SeekOrientation) -> (r: bool)
        requires
            self.wf(),
            self.in_bounds(idx(pos)),
        ensures
            r == self.seek_zero_spec(idx(pos), orientation),
    {
        let (x, y) = pos;
        match orientation {
            SeekOrientation::PosX => {
                let mut i: usize = x + 1;
                while i < self.num_rows
                    invariant
                        self.wf(),
                        pos == (x, y),
                        orientation == SeekOrientation::PosX,
                        x < self.num_rows,
                        y < self.num_cols,
                        x < i <= self.num_rows,
                        forall|m: int| x < m < i ==> #[trigger] self.cell_value(m, y as int) != 0,
                    decreases self.num_rows - i,
                {
                    if self.cells[i][y].value == 0 {
                        proof {
                            assert(self.cell_value(i as int, y as int) == 0);
                        }
                        return true;
                    }
                    i = i + 1;
                }
                false
            }
            SeekOrientation::NegX => {
                let mut i: usize = 0;
                while i < x
                    invariant
                        self.wf(),
                        pos == (x, y),
                        orientation == SeekOrientation::NegX,
                        x < self.num_rows,
                        y < self.num_cols,
                        i <= x,
                        forall|m: int| 0 <= m < i ==> #[trigger] self.cell_value(m, y as int) != 0,
                    decreases x - i,
                {
                    if self.cells[i][y].value == 0 {
                        proof {
                            assert(self.cell_value(i as int, y as int) == 0);
                        }
                        return true;
                    }
                    i = i + 1;
                }
                false
            }
            SeekOrientation::PosY => {
                let mut j: usize = y + 1;
                while j < self.num_cols
                    invariant
                        self.wf(),
                        pos == (x, y),
                        orientation == SeekOrientation::PosY,
                        x < self.num_rows,
                        y < self.num_cols,
                        y < j <= self.num_cols,
                        forall|m: int| y < m < j ==> #[trigger] self.cell_value(x as int, m) != 0,
                    decreases self.num_cols - j,
                {
                    if self.cells[x][j].value == 0 {
                        proof {
                            assert(self.cell_value(x as int, j as int) == 0);
                        }
                        return true;
                    }
                    j = j + 1;
                }
                false
            }
            SeekOrientation::NegY => {
                let mut j: usize = 0;
                while j < y
                    invariant
                        self.wf(),
                        pos == (x, y),
                        orientation == SeekOrientation::NegY,
                        x < self.num_rows,
                        y < self.num_cols,
                        j <= y,
                        forall|m: int| 0 <= m < j ==> #[trigger] self.cell_value(x as int, m) != 0,
                    decreases y - j,
                {
                    if self.cells[x][j].value == 0 {
                        proof {
                            assert(self.cell_value(x as int, j as int) == 0);
                        }
                        return true;
                    }
                    j = j + 1;
                }
                false
            }
        }
    }

    /// Applies `updates` in order; where two updates name the same cell the
    /// later one wins.
    pub fn set_cells(&mut self, updates: Vec<(CellIndex, u32)>)
        requires
            old(self).wf(),
            forall|k: int|
                0 <= k < updates@.len() ==> old(self).in_bounds(idx((#[trigger] updates@[k]).0)),
        ensures
            final(self).wf(),
            final(self).same_shape(*old(self)),
            forall|r: int, c: int|
                old(self).in_bounds((r, c)) && (forall|k: int|
                    0 <= k < updates@.len() ==> idx((#[trigger] updates@[k]).0) != (r, c))
                    ==> #[trigger] final(self).cell_value(r, c) == old(self).cell_value(r, c),
            forall|k: int|
                0 <= k < updates@.len() && (forall|k2: int|
                    k < k2 < updates@.len() ==> idx((#[trigger] updates@[k2]).0) != idx(
                        updates@[k].0,
                    )) ==> final(self).cell_value(
                    idx((#[trigger] updates@[k]).0).0,
                    idx(updates@[k].0).1,
                ) == updates@[k].1,
    {
        let mut n: usize = 0;
        while n < updates.len()
            invariant
                self.wf(),
                self.same_shape(*old(self)),
                n <= updates@.len(),
                forall|k: int|
                    0 <= k < updates@.len() ==> old(self).in_bounds(idx((#[trigger] updates@[k]).0)),
                forall|r: int, c: int|
                    old(self).in_bounds((r, c)) && (forall|k: int|
                        0 <= k < n ==> idx((#[trigger] updates@[k]).0) != (r, c))
                        ==> #[trigger] self.cell_value(r, c) == old(self).cell_value(r, c),
                forall|k: int|
                    0 <= k < n && (forall|k2: int|
                        k < k2 < n ==> idx((#[trigger] updates@[k2]).0) != idx(updates@[k].0))
                        ==> self.cell_value(
                        idx((#[trigger] updates@[k]).0).0,
                        idx(updates@[k].0).1,
                    ) == updates@[k].1,
            decreases updates@.len() - n,
        {
            let (cell, id) = updates[n];
            self.set_cell(cell, id);
            n = n + 1;
        }
    }

    /// Writes the sentinel into every listed cell.
    pub fn unset_cells(&mut self, cells: Vec<CellIndex>)
        requires
            old(self).wf(),
            forall|k: int|
                0 <= k < cells@.len() ==> old(self).in_bounds(idx(#[trigger] cells@[k])),
        ensures
            final(self).wf(),
            final(self).same_shape(*old(self)),
            forall|r: int, c: int|
                old(self).in_bounds((r, c)) && (forall|k: int|
                    0 <= k < cells@.len() ==> idx(#[trigger] cells@[k]) != (r, c))
                    ==> #[trigger] final(self).cell_value(r, c) == old(self).cell_value(r, c),
            forall|k: int|
                0 <= k < cells@.len() ==> final(self).cell_value(
                    idx(#[trigger] cells@[k]).0,
                    idx(cells@[k]).1,
                ) == 0,
    {
        let mut n: usize = 0;
        while n < cells.len()
            invariant
                self.wf(),
                self.same_shape(*old(self)),
                n <= cells@.len(),
                forall|k: int|
                    0 <= k < cells@.len() ==> old(self).in_bounds(idx(#[trigger] cells@[k])),
                forall|r: int, c: int|
                    old(self).in_bounds((r, c)) && (forall|k: int|
                        0 <= k < cells@.len() ==> idx(#[trigger] cells@[k]) != (r, c))
                        ==> #[trigger] self.cell_value(r, c) == old(self).cell_value(r, c),
                forall|k: int|
                    0 <= k < n ==> self.cell_value(
                        idx(#[trigger] cells@[k]).0,
                        idx(cells@[k]).1,
                    ) == 0,
            decreases cells@.len() - n,
        {
            let cell = cells[n];
            self.unset_cell(cell);
            n = n + 1;
        }
    }

    pub fn get(&self, index: CellIndex) -> (r: Cell)
        requires
            self.wf(),
            self.in_bounds((index.0 as int, index.1 as int)),
        ensures
            r.value == self.cell_value(index.0 as int, index.1 as int),
    {
        self.cells[index.0][index.1]
    }

    pub fn is_set(&self, index: CellIndex) -> (r: bool)
        requires
            self.wf(),
            self.in_bounds((index.0 as int, index.1 as int)),
        ensures
            r == (self.cell_value(index.0 as int, index.1 as int) != 0),
    {
        if self.cells[index.0][index.1].value == 0 {
            false
        } else {
            true
        }
    }

    /// `(num_rows, num_cols)`; a grid with no rows reports zero columns as
    /// well, since there is no row whose length could be measured.
    pub fn shape(&self) -> (r: (usize, usize))
        requires
            self.wf(),
        ensures
            r.0 == self.num_rows,
            r.1 == if self.num_rows == 0 { 0int } else { self.num_cols as int },
    {
        if self.cells.len() != 0 {
            (self.cells.len(), self.cells[0].len())
        } else {
            (0, 0)
        }
    }
}

} // verus!
