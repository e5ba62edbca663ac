//! The table document schema: columns plus a row-major flat cell grid.
//!
//! A table stores its cells as one flat sequence ordered row by row; the
//! cell at row `r`, column position `i` lives at flat offset
//! `r * width + i`. The grid is rectangular: the number of cells is an exact
//! multiple of the number of columns, with the empty table (zero columns,
//! zero cells) as the only degenerate case.

use vstd::prelude::*;
use vstd::arithmetic::div_mod::lemma_fundamental_div_mod;
use vstd::arithmetic::mul::lemma_mul_inequality;
use crate::column::{Column, ColumnID};

verus! {

/// One cell of a table: its content, or nothing if the cell is empty.
#[derive(Debug, Clone)]
pub struct TableCell {
    pub content: Option<String>,
}

impl DeepView for TableCell {
    type V = Option<Seq<char>>;

    open spec fn deep_view(&self) -> Option<Seq<char>> {
        match self.content {
            Some(ref s) => Some(s@),
            None => None,
        }
    }
}

/// The address of one cell: a column identifier and a row index.
#[derive(Debug, Clone, Copy, PartialEq, Eq, Structural)]
pub struct CellRef {
    pub column: ColumnID,
    pub row: usize,
}

/// A table document: its columns in order and its cells in row-major order.
#[derive(Debug)]
pub struct TableContent {
    pub columns: Vec<Column>,
    pub cells: Vec<TableCell>,
}

/// `i` is the position of the first column of `cols` with identifier `id`.
pub open spec fn is_first_col(cols: Seq<Column>, id: ColumnID, i: int) -> bool {
    &&& 0 <= i < cols.len()
    &&& cols[i].id == id
    &&& forall|j: int| 0 <= j < i ==> cols[j].id != id
}

/// Some column of `cols` has identifier `id`.
pub open spec fn has_col(cols: Seq<Column>, id: ColumnID) -> bool {
    exists|i: int| 0 <= i < cols.len() && cols[i].id == id
}

/// A row of `w` empty cells.
pub open spec fn empty_row(w: int) -> Seq<TableCell> {
    Seq::new(w as nat, |i: int| TableCell { content: None })
}

/// The rows of a row-major cell sequence of width `w`, top to bottom; any
/// cells beyond the last complete row are not part of any row.
pub open spec fn row_seq(cells: Seq<TableCell>, w: int) -> Seq<Seq<TableCell>> {
    if w <= 0 {
        Seq::empty()
    } else {
        Seq::new((cells.len() as int / w) as nat, |r: int| cells.subrange(r * w, r * w + w))
    }
}

/// A flat offset strictly inside a rectangular grid.
proof fn lemma_row_offset(len: int, w: int, row: int, i: int)
    requires
        w >= 1,
        len % w == 0,
        0 <= row < len / w,
        0 <= i < w,
    ensures
        0 <= row * w + i < len,
        0 <= row * w,
        row * w + w <= len,
{
    lemma_fundamental_div_mod(len, w);
    lemma_mul_inequality(row + 1, len / w, w);
    assert((row + 1) * w == row * w + w) by (nonlinear_arith);
    assert((len / w) * w == w * (len / w)) by (nonlinear_arith);
    assert(row * w >= 0) by (nonlinear_arith)
        requires
            row >= 0 && w >= 1,
    ;
}

/// Adding one row's worth of cells to a rectangular grid adds exactly one
/// to the quotient.
proof fn lemma_div_add_row(len: int, w: int)
    requires
        w >= 1,
        len % w == 0,
        len >= 0,
    ensures
        (len + w) % w == 0,
        (len + w) / w == len / w + 1,
{
    lemma_fundamental_div_mod(len, w);
    assert((len + w) % w == 0 && (len + w) / w == len / w + 1) by (nonlinear_arith)
        requires
            w >= 1 && len >= 0 && len % w == 0 && len == w * (len / w),
    ;
}

impl TableContent {
    /// Number of columns.
    pub open spec fn spec_width(self) -> int {
        self.columns@.len() as int
    }

    /// Number of complete rows; a zero-column table has zero rows.
    pub open spec fn spec_height(self) -> int {
        if self.spec_width() == 0 {
            0
        } else {
            self.cells@.len() as int / self.spec_width()
        }
    }

    /// The rectangularity invariant: the cell count is an exact multiple of
    /// the column count, and a table without columns has no cells.
    pub open spec fn wf(self) -> bool {
        if self.columns@.len() == 0 {
            self.cells@.len() == 0
        } else {
            self.cells@.len() as int % self.columns@.len() as int == 0
        }
    }

    /// Look a column up by identifier: the first column with that
    /// identifier, or nothing if no column has it.
    pub fn column(&self, id: ColumnID) -> (r: Option<&Column>)
        ensures
            r matches Some(c) ==> exists|i: int|
                is_first_col(self.columns@, id, i) && *c == self.columns@[i],
            r is None <==> !has_col(self.columns@, id),
    {
        let n = self.columns.len();
        let mut k: usize = 0;
        while k < n
            invariant
                k <= n,
                n == self.columns@.len(),
                forall|j: int| 0 <= j < k ==> self.columns@[j].id != id,
            decreases n - k,
        {
            if self.columns[k].id == id {
                return Some(&self.columns[k]);
            }
            k += 1;
        }
        None
    }

    /// Look a cell up by column identifier and row index: the cell at flat
    /// offset `row * width + i` where `i` is the first position of that
    /// identifier, or nothing if no column has it.
    pub fn cell(&self, column_id: ColumnID, row: usize) -> (r: Option<&TableCell>)
        requires
            self.wf(),
            has_col(self.columns@, column_id) ==> (row as int) < self.spec_height(),
        ensures
            r matches Some(c) ==> exists|i: int|
                is_first_col(self.columns@, column_id, i) && *c == self.cells@[row as int
                    * self.spec_width() + i],
            r is None <==> !has_col(self.columns@, column_id),
    {
        let n = self.columns.len();
        let m = self.cells.len();
        let mut k: usize = 0;
        while k < n
            invariant
                k <= n,
                n == self.columns@.len(),
                m == self.cells@.len(),
                self.wf(),
                has_col(self.columns@, column_id) ==> (row as int) < self.spec_height(),
                forall|j: int| 0 <= j < k ==> self.columns@[j].id != column_id,
            decreases n - k,
        {
            if self.columns[k].id == column_id {
                proof {
                    lemma_row_offset(
                        self.cells@.len() as int,
                        self.spec_width(),
                        row as int,
                        k as int,
                    );
                    assert(is_first_col(self.columns@, column_id, k as int));
                }
                return Some(&self.cells[row * n + k]);
            }
            k += 1;
        }
        None
    }

    /// The number of columns.
    pub fn width(&self) -> (r: usize)
        ensures
            r as int == self.spec_width(),
    {
        self.columns.len()
    }

    /// The number of complete rows; zero for a zero-column table. On a
    /// rectangular table, height times width is exactly the cell count.
    pub fn height(&self) -> (r: usize)
        ensures
            r as int == self.spec_height(),
            self.wf() ==> r as int * self.spec_width() == self.cells@.len(),
    {
        if self.columns.len() == 0 {
            0
        } else {
            let r = self.cells.len() / self.columns.len();
            proof {
                lemma_fundamental_div_mod(self.cells@.len() as int, self.spec_width());
                let q = self.cells@.len() as int / self.spec_width();
                let w = self.spec_width();
                assert(q * w == w * q) by (nonlinear_arith);
            }
            r
        }
    }

    /// The columns, in order.
    pub fn columns(&self) -> (r: &Vec<Column>)
        ensures
            r == &self.columns,
    {
        &self.columns
    }

    /// Whether the table has no cells.
    pub fn is_empty(&self) -> (r: bool)
        ensures
            r == (self.cells@.len() == 0),
    {
        self.cells.is_empty()
    }

    /// Insert one row of empty cells so that it becomes row `before`,
    /// shifting the rows at and after `before` down by one. On a
    /// zero-column table this inserts no cells, whatever `before` is.
    pub fn insert_row(&mut self, before: usize)
        requires
            old(self).wf(),
            before as int * old(self).spec_width() <= old(self).cells@.len(),
            old(self).cells@.len() + old(self).spec_width() <= usize::MAX,
        ensures
            final(self).columns == old(self).columns,
            final(self).cells@ == old(self).cells@.subrange(
                0,
                before as int * old(self).spec_width(),
            ) + empty_row(old(self).spec_width()) + old(self).cells@.subrange(
                before as int * old(self).spec_width(),
                old(self).cells@.len() as int,
            ),
            final(self).wf(),
            old(self).spec_width() > 0 ==> final(self).spec_height() == old(self).spec_height()
                + 1,
            old(self).spec_width() == 0 ==> final(self).spec_height() == 0,
    {
        let columns = self.columns.len();
        proof {
            assert(before as int * columns as int >= 0) by (nonlinear_arith)
                requires
                    before as int >= 0 && columns as int >= 0,
            ;
        }
        let i = before * columns;
        let ghost start = i as int;
        let ghost old_cells = self.cells@;
        let mut k: usize = 0;
        while k < columns
            invariant
                k <= columns,
                columns == self.columns@.len(),
                self.columns == old(self).columns,
                0 <= start <= old_cells.len(),
                start == i as int,
                old_cells.len() + columns <= usize::MAX,
                old_cells == old(self).cells@,
                self.cells@ =~= old_cells.subrange(0, start) + empty_row(k as int)
                    + old_cells.subrange(start, old_cells.len() as int),
            decreases columns - k,
        {
            self.cells.insert(i, TableCell { content: None });
            proof {
                assert(self.cells@ =~= old_cells.subrange(0, start) + empty_row(k + 1)
                    + old_cells.subrange(start, old_cells.len() as int));
            }
            k += 1;
        }
        proof {
            if columns > 0 {
                lemma_div_add_row(old_cells.len() as int, columns as int);
            }
        }
    }
}

/// Law: inserting a row increases the height by exactly one and leaves every
/// other row's contents unchanged and in relative order; the rows before
/// `before` keep their index, and each row at or after it moves down by one.
pub proof fn lemma_insert_row_rows(cells: Seq<TableCell>, w: int, before: int)
    requires
        w >= 1,
        cells.len() as int % w == 0,
        0 <= before <= cells.len() as int / w,
    ensures
        ({
            let nc = cells.subrange(0, before * w) + empty_row(w) + cells.subrange(
                before * w,
                cells.len() as int,
            );
            &&& row_seq(nc, w).len() == row_seq(cells, w).len() + 1
            &&& forall|r: int| 0 <= r < before ==> #[trigger] row_seq(nc, w)[r] == row_seq(cells, w)[r]
            &&& row_seq(nc, w)[before] == empty_row(w)
            &&& forall|r: int|
                before < r < row_seq(nc, w).len() ==> #[trigger] row_seq(nc, w)[r] == row_seq(
                    cells,
                    w,
                )[r - 1]
        }),
{
    let len = cells.len() as int;
    let h = len / w;
    lemma_fundamental_div_mod(len, w);
    assert(w * (len / w) == (len / w) * w) by (nonlinear_arith);
    lemma_mul_inequality(before, h, w);
    assert(before * w >= 0) by (nonlinear_arith)
        requires
            before >= 0 && w >= 1,
    ;
    let nc = cells.subrange(0, before * w) + empty_row(w) + cells.subrange(before * w, len);
    assert(nc.len() == len + w);
    lemma_div_add_row(len, w);
    assert forall|r: int| 0 <= r < before implies #[trigger] row_seq(nc, w)[r] == row_seq(
        cells,
        w,
    )[r] by {
        lemma_row_offset(len, w, r, 0);
        lemma_mul_inequality(r + 1, before, w);
        assert((r + 1) * w == r * w + w) by (nonlinear_arith);
        assert(row_seq(nc, w)[r] =~= row_seq(cells, w)[r]);
    }
    assert(row_seq(nc, w)[before] =~= empty_row(w));
    assert forall|r: int| before < r < h + 1 implies #[trigger] row_seq(nc, w)[r] == row_seq(
        cells,
        w,
    )[r - 1] by {
        lemma_row_offset(len, w, r - 1, 0);
        lemma_mul_inequality(before + 1, r, w);
        assert((r - 1) * w + w == r * w) by (nonlinear_arith);
        assert((before + 1) * w == before * w + w) by (nonlinear_arith);
        assert forall|j: int| 0 <= j < w implies #[trigger] nc[r * w + j] == cells[(r - 1) * w
            + j] by {
            assert(r * w + j == before * w + w + ((r - 1) * w + j - before * w));
        }
        assert(row_seq(nc, w)[r] =~= row_seq(cells, w)[r - 1]);
    }
}

/// Law: on a rectangular grid the rows partition the cells exactly: there
/// are `len / w` rows and row `r` is the `w` cells at flat offset `r * w`.
pub proof fn lemma_row_seq(cells: Seq<TableCell>, w: int)
    requires
        w >= 1,
        cells.len() as int % w == 0,
    ensures
        row_seq(cells, w).len() == cells.len() as int / w,
        forall|r: int|
            0 <= r < cells.len() as int / w ==> #[trigger] row_seq(cells, w)[r] == cells.subrange(
                r * w,
                r * w + w,
            ),
{
}

} // verus!
