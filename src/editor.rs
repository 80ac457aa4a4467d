use vstd::prelude::*;

use crate::csv::{csv_text, to_csv_text};
use crate::error::GridError;
use crate::grid::{Grid, drop_column, drop_row, rows_view, set_field};
use crate::pager::{compute_window, page_end, page_start};
use crate::table::TableRow;

verus! {

/// A request to overwrite the backing store at `path` with `contents`.
pub struct StorageWrite {
    pub path: String,
    pub contents: String,
}

/// The rows `[start, end)` of `cells` as display rows, numbered from
/// `start + 1`.
pub open spec fn shows_rows(
    out: Seq<TableRow>,
    cells: Seq<Seq<Seq<char>>>,
    start: int,
    end: int,
) -> bool {
    &&& out.len() == end - start
    &&& forall|k: int|
        0 <= k < out.len() ==> (#[trigger] out[k]).serial_number == start + k + 1
            && out[k].cells_view() == cells[start + k]
}

/// A grid together with the location of the store it was loaded from; every
/// mutation is followed by a full rewrite of that store.
pub struct BootLegEditor {
    csv_data: Grid,
    file_path: String,
}

/// The request that rewrites the store at `file_path` with the given rows.
pub fn refresh_csv_data(file_path: &String, data: &Vec<Vec<String>>) -> (r: StorageWrite)
    ensures
        r.path@ == file_path@,
        r.contents@ == csv_text(rows_view(data@)),
{
    StorageWrite { path: file_path.clone(), contents: to_csv_text(data) }
}

/// What a mutation reports once its rewrite of the store was attempted: a
/// failed write is reported as such, else the mutation's own outcome.
pub fn finish_mutation(outcome: Result<(), GridError>, written: bool) -> (r: Result<
    (),
    GridError,
>)
    ensures
        !written ==> r == Err::<(), GridError>(GridError::StorageUnwritable),
        written ==> r == outcome,
{
    if written {
        outcome
    } else {
        Err(GridError::StorageUnwritable)
    }
}

impl BootLegEditor {
    /// The grid being edited.
    pub closed spec fn grid(&self) -> Grid {
        self.csv_data
    }

    /// The location of the backing store.
    pub closed spec fn path(&self) -> Seq<char> {
        self.file_path@
    }

    pub fn new(file_path: String, csv_data: Grid) -> (r: Self)
        ensures
            r.grid() == csv_data,
            r.path() == file_path@,
    {
        BootLegEditor { file_path, csv_data }
    }

    /// The grid being edited.
    pub fn csv_data(&self) -> (r: &Grid)
        ensures
            *r == self.grid(),
    {
        &self.csv_data
    }

    /// The request that rewrites the backing store with the current grid.
    pub fn storage_write(&self) -> (r: StorageWrite)
        ensures
            r.path@ == self.path(),
            r.contents@ == csv_text(self.grid()@),
    {
        refresh_csv_data(&self.file_path, self.csv_data.rows())
    }

    /// Rows `[xa, xb)` as display rows, numbered from `xa + 1`.
    fn print_csv_as_table(&self, xa: usize, xb: usize) -> (r: Vec<TableRow<'_>>)
        requires
            xa <= xb <= self.grid()@.len(),
        ensures
            shows_rows(r@, self.grid()@, xa as int, xb as int),
    {
        let mut out: Vec<TableRow<'_>> = Vec::new();
        let mut i: usize = xa;
        while i < xb
            invariant
                xa <= i <= xb <= self.grid()@.len(),
                shows_rows(out@, self.grid()@, xa as int, i as int),
            decreases xb - i,
        {
            let cells = self.csv_data.row(i);
            let ghost prev = out@;
            out.push(TableRow::new(i + 1, cells));
            assert(out@ == prev.push(out@[i - xa]));
            assert forall|k: int| 0 <= k < out@.len() implies (#[trigger] out@[k]).serial_number
                == xa + k + 1 && out@[k].cells_view() == self.grid()@[xa + k] by {
                if k < prev.len() {
                    assert(out@[k] == prev[k]);
                }
            }
            i = i + 1;
        }
        out
    }

    /// Every row, numbered from 1.
    pub fn display_csv(&self) -> (r: Vec<TableRow<'_>>)
        ensures
            shows_rows(r@, self.grid()@, 0, self.grid()@.len() as int),
    {
        self.print_csv_as_table(0, self.csv_data.row_count())
    }

    /// The rows of 1-based page `page` of `limit` rows, numbered by their
    /// place in the grid.
    pub fn display_paginated_csv(&self, limit: usize, page: usize) -> (r: Result<
        Vec<TableRow<'_>>,
        GridError,
    >)
        requires
            limit >= 1,
        ensures
            page == 0 ==> r matches Err(GridError::PageUnderflow),
            page >= 1 && page_start(limit as int, page as int) >= self.grid()@.len() ==> r matches Err(
                GridError::PageOverflow,
            ),
            page >= 1 && page_start(limit as int, page as int) < self.grid()@.len() ==> r is Ok
                && shows_rows(
                r->Ok_0@,
                self.grid()@,
                page_start(limit as int, page as int),
                page_end(
                    self.grid()@.len() as int,
                    limit as int,
                    page_start(limit as int, page as int),
                ),
            ),
    {
        match compute_window(self.csv_data.row_count(), limit, page) {
            Ok((start, end)) => Ok(self.print_csv_as_table(start, end)),
            Err(e) => Err(e),
        }
    }

    /// Replaces the field at 1-based `(x, y)`, then asks for the store to be
    /// rewritten, whether or not the field was replaced.
    pub fn modify_field(&mut self, x: usize, y: usize, value: String) -> (r: (
        Result<(), GridError>,
        StorageWrite,
    ))
        requires
            old(self).grid().wf(),
        ensures
            final(self).grid().wf(),
            final(self).path() == old(self).path(),
            final(self).grid().spec_col_count() == old(self).grid().spec_col_count(),
            1 <= x <= old(self).grid()@.len() && 1 <= y <= old(self).grid().spec_col_count() ==> r.0
                is Ok && final(self).grid()@ == set_field(old(self).grid()@, x - 1, y - 1, value@),
            !(1 <= x <= old(self).grid()@.len() && 1 <= y <= old(self).grid().spec_col_count())
                ==> r.0 == Err::<(), GridError>(GridError::IndexOutOfRange) && final(self).grid()@
                == old(self).grid()@,
            r.1.path@ == old(self).path(),
            r.1.contents@ == csv_text(final(self).grid()@),
    {
        let outcome = self.csv_data.modify_field(x, y, value);
        (outcome, self.storage_write())
    }

    /// Removes the row at 1-based index `x`, then asks for the store to be
    /// rewritten, whether or not the row was removed.
    pub fn delete_row(&mut self, x: usize) -> (r: (Result<(), GridError>, StorageWrite))
        requires
            old(self).grid().wf(),
        ensures
            final(self).grid().wf(),
            final(self).path() == old(self).path(),
            final(self).grid().spec_col_count() == old(self).grid().spec_col_count(),
            1 <= x <= old(self).grid()@.len() ==> r.0 is Ok && final(self).grid()@ == drop_row(
                old(self).grid()@,
                x - 1,
            ),
            !(1 <= x <= old(self).grid()@.len()) ==> r.0 == Err::<(), GridError>(
                GridError::IndexOutOfRange,
            ) && final(self).grid()@ == old(self).grid()@,
            r.1.path@ == old(self).path(),
            r.1.contents@ == csv_text(final(self).grid()@),
    {
        let outcome = self.csv_data.delete_row(x);
        (outcome, self.storage_write())
    }

    /// Removes the field at 1-based column `y` from every row, then asks for
    /// the store to be rewritten, whether or not the column was removed.
    pub fn delete_field(&mut self, y: usize) -> (r: (Result<(), GridError>, StorageWrite))
        requires
            old(self).grid().wf(),
        ensures
            final(self).grid().wf(),
            final(self).path() == old(self).path(),
            1 <= y <= old(self).grid().spec_col_count() ==> r.0 is Ok && final(self).grid()@
                == drop_column(old(self).grid()@, y - 1) && final(self).grid().spec_col_count()
                == old(self).grid().spec_col_count() - 1,
            !(1 <= y <= old(self).grid().spec_col_count()) ==> r.0 == Err::<(), GridError>(
                GridError::IndexOutOfRange,
            ) && final(self).grid()@ == old(self).grid()@ && final(self).grid().spec_col_count()
                == old(self).grid().spec_col_count(),
            r.1.path@ == old(self).path(),
            r.1.contents@ == csv_text(final(self).grid()@),
    {
        let outcome = self.csv_data.delete_column(y);
        (outcome, self.storage_write())
    }
}

} // verus!
