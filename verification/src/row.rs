//! Extracting a table's cells as owned rows.
//!
//! Converting a table into a per-row editing representation consumes the
//! table's cell storage: [`TableContent::take_rows`] moves every cell out
//! into a forward-only [`RowIterator`], leaving the table's storage empty,
//! and each [`RowIterator::next_row`] call hands out one complete row, top
//! to bottom. Cells beyond the last complete row (a malformed remainder,
//! not expected in well-formed data) are silently dropped, as is every cell
//! of a zero-column table.

use vstd::prelude::*;
use vstd::arithmetic::div_mod::{lemma_fundamental_div_mod, lemma_fundamental_div_mod_converse};
use crate::column::{Column, ColumnID};
use crate::table::{TableContent, TableCell, empty_row, row_seq, is_first_col, has_col};

verus! {

/// A forward-only, finite source of the rows of one table, in top-to-bottom
/// order; it owns the cells that [`TableContent::take_rows`] moved out.
#[derive(Debug)]
pub struct RowIterator {
    width: usize,
    cells: Vec<TableCell>,
}

/// One table row: a contiguous run of `width` cells.
#[derive(Debug)]
pub struct Row {
    pub cells: Vec<TableCell>,
}

/// Dropping one row's worth of cells drops exactly one complete row, and a
/// shorter-than-row remainder holds no complete row.
proof fn lemma_div_sub_row(len: int, w: int)
    requires
        w >= 1,
        len >= 0,
    ensures
        len >= w ==> (len - w) / w == len / w - 1 && len / w >= 1,
        len < w ==> len / w == 0,
{
    lemma_fundamental_div_mod(len, w);
    if len >= w {
        assert(len / w >= 1 && (len / w - 1) * w == w * (len / w) - w && 0 <= len % w < w)
            by (nonlinear_arith)
            requires
                w >= 1 && len >= w && len == w * (len / w) + len % w && 0 <= len % w < w,
        ;
        assert(w * (len / w - 1) == (len / w - 1) * w) by (nonlinear_arith);
        lemma_fundamental_div_mod_converse(len - w, w, len / w - 1, len % w);
    } else {
        assert(len / w == 0) by (nonlinear_arith)
            requires
                w >= 1 && 0 <= len < w && len == w * (len / w) + len % w && 0 <= len % w < w,
        ;
    }
}

impl RowIterator {
    /// The rows not yet handed out, in order.
    pub closed spec fn spec_remaining(self) -> Seq<Seq<TableCell>> {
        row_seq(self.cells@, self.width as int)
    }

    /// Hand out the next complete row, or nothing once fewer cells than one
    /// row's worth remain.
    pub fn next_row(&mut self) -> (r: Option<Row>)
        ensures
            old(self).spec_remaining().len() == 0 ==> r is None && *final(self) == *old(self),
            old(self).spec_remaining().len() > 0 ==> (r matches Some(row) && row.cells@ == old(
                self,
            ).spec_remaining()[0] && final(self).spec_remaining() == old(
                self,
            ).spec_remaining().drop_first()),
    {
        proof {
            if self.width > 0 {
                lemma_div_sub_row(self.cells@.len() as int, self.width as int);
            }
        }
        if self.width == 0 || self.cells.len() < self.width {
            return None;
        }
        let mut tail = self.cells.split_off(self.width);
        core::mem::swap(&mut self.cells, &mut tail);
        proof {
            let w = old(self).width as int;
            let oc = old(self).cells@;
            assert(tail@ == oc.subrange(0, w));
            assert(old(self).spec_remaining()[0] =~= tail@);
            let rem = oc.subrange(w, oc.len() as int);
            assert(self.cells@ == rem);
            let rl = rem.len() as int;
            lemma_div_sub_row(oc.len() as int, w);
            assert forall|i: int| 0 <= i < self.spec_remaining().len() implies #[trigger] self
                .spec_remaining()[i] == old(self).spec_remaining().drop_first()[i] by {
                lemma_fundamental_div_mod(rl, w);
                vstd::arithmetic::mul::lemma_mul_inequality(i + 1, rl / w, w);
                assert((i + 1) * w == i * w + w && 0 <= i * w && (rl / w) * w == w * (rl / w))
                    by (nonlinear_arith)
                    requires
                        0 <= i && w >= 1,
                ;
                assert(i * w + w <= rl);
                assert(self.spec_remaining()[i] == rem.subrange(i * w, i * w + w));
                assert(old(self).spec_remaining().drop_first()[i] == oc.subrange(
                    (i + 1) * w,
                    (i + 1) * w + w,
                ));
                assert(rem.subrange(i * w, i * w + w) =~= oc.subrange((i + 1) * w, (i + 1) * w + w));
            }
            assert(self.spec_remaining() =~= old(self).spec_remaining().drop_first());
        }
        Some(Row { cells: tail })
    }
}

impl TableContent {
    /// Move every cell out of the table into a row iterator, leaving the
    /// table's cell storage empty. The iterator yields exactly the table's
    /// complete rows, top to bottom.
    pub fn take_rows(&mut self) -> (it: RowIterator)
        ensures
            final(self).columns == old(self).columns,
            final(self).cells@.len() == 0,
            it.spec_remaining() == row_seq(old(self).cells@, old(self).spec_width()),
    {
        let cells = self.cells.split_off(0);
        proof {
            assert(cells@ =~= old(self).cells@);
        }
        RowIterator { width: self.columns.len(), cells }
    }
}

impl Row {
    /// A row of `l` empty cells.
    pub fn create_empty(l: usize) -> (r: Row)
        ensures
            r.cells@ == empty_row(l as int),
    {
        let mut cells: Vec<TableCell> = Vec::new();
        let mut k: usize = 0;
        while k < l
            invariant
                k <= l,
                cells@ =~= empty_row(k as int),
            decreases l - k,
        {
            cells.push(TableCell { content: None });
            assert(cells@ =~= empty_row(k + 1));
            k += 1;
        }
        assert(cells@ =~= empty_row(l as int));
        Row { cells }
    }

    /// The cell of this row under the first column of `columns` with
    /// identifier `id`, or nothing if no column has it.
    pub fn get_cell(&self, columns: &Vec<Column>, id: ColumnID) -> (r: Option<&TableCell>)
        requires
            columns@.len() <= self.cells@.len(),
        ensures
            r matches Some(c) ==> exists|i: int|
                is_first_col(columns@, id, i) && *c == self.cells@[i],
            r is None <==> !has_col(columns@, id),
    {
        let n = columns.len();
        let mut k: usize = 0;
        while k < n
            invariant
                k <= n,
                n == columns@.len(),
                n <= self.cells@.len(),
                forall|j: int| 0 <= j < k ==> columns@[j].id != id,
            decreases n - k,
        {
            if columns[k].id == id {
                proof {
                    assert(is_first_col(columns@, id, k as int));
                }
                return Some(&self.cells[k]);
            }
            k += 1;
        }
        None
    }
}

} // verus!
