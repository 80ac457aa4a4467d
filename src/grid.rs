use vstd::prelude::*;

use crate::error::GridError;

verus! {

/// The text of each field of a row.
pub open spec fn row_view(row: Vec<String>) -> Seq<Seq<char>> {
    row@.map_values(|f: String| f@)
}

/// The text of each field of each row.
pub open spec fn rows_view(rows: Seq<Vec<String>>) -> Seq<Seq<Seq<char>>> {
    rows.map_values(|r: Vec<String>| row_view(r))
}

/// Every row has exactly `cols` fields.
pub open spec fn is_rectangular(cells: Seq<Seq<Seq<char>>>, cols: nat) -> bool {
    forall|i: int| 0 <= i < cells.len() ==> (#[trigger] cells[i]).len() == cols
}

/// The cells with the field at 0-based `(r, c)` replaced by `v`.
pub open spec fn set_field(cells: Seq<Seq<Seq<char>>>, r: int, c: int, v: Seq<char>) -> Seq<
    Seq<Seq<char>>,
> {
    cells.update(r, cells[r].update(c, v))
}

/// The cells without the row at 0-based index `r`.
pub open spec fn drop_row(cells: Seq<Seq<Seq<char>>>, r: int) -> Seq<Seq<Seq<char>>> {
    cells.remove(r)
}

/// The cells with the field at 0-based column `c` taken out of every row.
pub open spec fn drop_column(cells: Seq<Seq<Seq<char>>>, c: int) -> Seq<Seq<Seq<char>>> {
    cells.map_values(|row: Seq<Seq<char>>| row.remove(c))
}

/// Replacing a field, removing a row and removing a column each leave a
/// rectangular grid rectangular, the last with one field fewer per row.
pub proof fn lemma_edits_keep_rectangular(
    cells: Seq<Seq<Seq<char>>>,
    cols: nat,
    r: int,
    c: int,
    v: Seq<char>,
)
    requires
        is_rectangular(cells, cols),
    ensures
        0 <= r < cells.len() && 0 <= c < cols ==> is_rectangular(set_field(cells, r, c, v), cols),
        0 <= r < cells.len() ==> is_rectangular(drop_row(cells, r), cols),
        0 <= c < cols ==> is_rectangular(drop_column(cells, c), (cols - 1) as nat),
{
    if 0 <= r < cells.len() && 0 <= c < cols {
        let m = set_field(cells, r, c, v);
        assert forall|i: int| 0 <= i < m.len() implies (#[trigger] m[i]).len() == cols by {
            assert(cells[i].len() == cols);
        }
    }
    if 0 <= r < cells.len() {
        let m = drop_row(cells, r);
        assert forall|i: int| 0 <= i < m.len() implies (#[trigger] m[i]).len() == cols by {
            if i < r {
                assert(m[i] == cells[i]);
            } else {
                assert(m[i] == cells[i + 1]);
            }
        }
    }
    if 0 <= c < cols {
        let m = drop_column(cells, c);
        assert forall|i: int| 0 <= i < m.len() implies (#[trigger] m[i]).len() == cols - 1 by {
            assert(cells[i].len() == cols);
            assert(m[i] == cells[i].remove(c));
        }
    }
}

/// A rectangular data set: rows of text fields, each row with the same
/// number of fields.
pub struct Grid {
    rows: Vec<Vec<String>>,
    cols: usize,
}

impl View for Grid {
    type V = Seq<Seq<Seq<char>>>;

    closed spec fn view(&self) -> Seq<Seq<Seq<char>>> {
        rows_view(self.rows@)
    }
}

impl Grid {
    /// The number of fields every row has.
    pub closed spec fn spec_col_count(&self) -> nat {
        self.cols as nat
    }

    /// Well-formedness: the grid is rectangular.
    pub open spec fn wf(&self) -> bool {
        is_rectangular(self@, self.spec_col_count())
    }

    /// Builds a grid from rows; fails on no rows and on rows of unequal length.
    pub fn from_rows(rows: Vec<Vec<String>>) -> (r: Result<Grid, GridError>)
        ensures
            rows@.len() == 0 ==> r == Err::<Grid, GridError>(GridError::EmptyDataset),
            rows@.len() > 0 && !is_rectangular(rows_view(rows@), rows@[0]@.len()) ==> r == Err::<
                Grid,
                GridError,
            >(GridError::MalformedInput),
            rows@.len() > 0 && is_rectangular(rows_view(rows@), rows@[0]@.len()) ==> r is Ok,
            r is Ok ==> r->Ok_0@ == rows_view(rows@) && r->Ok_0.spec_col_count() == rows@[0]@.len()
                && r->Ok_0.wf(),
    {
        if rows.len() == 0 {
            return Err(GridError::EmptyDataset);
        }
        let cols = rows[0].len();
        let mut i: usize = 0;
        while i < rows.len()
            invariant
                0 <= i <= rows@.len(),
                cols == rows@[0]@.len(),
                forall|k: int| 0 <= k < i ==> (#[trigger] rows_view(rows@)[k]).len() == cols,
            decreases rows@.len() - i,
        {
            if rows[i].len() != cols {
                assert(rows_view(rows@)[i as int].len() != cols);
                return Err(GridError::MalformedInput);
            }
            i = i + 1;
        }
        Ok(Grid { rows, cols })
    }

    /// The number of rows.
    pub fn row_count(&self) -> (r: usize)
        ensures
            r == self@.len(),
    {
        self.rows.len()
    }

    /// The number of fields in each row.
    pub fn col_count(&self) -> (r: usize)
        ensures
            r == self.spec_col_count(),
    {
        self.cols
    }

    /// The rows, in order.
    pub fn rows(&self) -> (r: &Vec<Vec<String>>)
        ensures
            rows_view(r@) == self@,
    {
        &self.rows
    }

    /// The fields of the row at 0-based index `i`.
    pub fn row(&self, i: usize) -> (r: &[String])
        requires
            i < self@.len(),
        ensures
            r@.map_values(|f: String| f@) == self@[i as int],
    {
        self.rows[i].as_slice()
    }

    /// Replaces the field at 1-based `(row, col)` with `value`; an index
    /// outside the grid is refused and leaves the grid as it was.
    pub fn modify_field(&mut self, row: usize, col: usize, value: String) -> (r: Result<
        (),
        GridError,
    >)
        requires
            old(self).wf(),
        ensures
            final(self).wf(),
            final(self).spec_col_count() == old(self).spec_col_count(),
            1 <= row <= old(self)@.len() && 1 <= col <= old(self).spec_col_count() ==> r is Ok
                && final(self)@ == set_field(old(self)@, row - 1, col - 1, value@),
            !(1 <= row <= old(self)@.len() && 1 <= col <= old(self).spec_col_count()) ==> r
                == Err::<(), GridError>(GridError::IndexOutOfRange) && final(self)@ == old(
                self,
            )@,
    {
        if row == 0 || row > self.rows.len() || col == 0 || col > self.cols {
            return Err(GridError::IndexOutOfRange);
        }
        let ghost before = self@;
        let r: usize = row - 1;
        let c: usize = col - 1;
        assert(self.rows@[r as int]@.len() == self.cols) by {
            assert(before[r as int].len() == self.cols);
        }
        self.rows[r].set(c, value);
        assert(self@ =~= set_field(before, r as int, c as int, value@)) by {
            assert(self@[r as int] =~= before[r as int].update(c as int, value@));
        }
        Ok(())
    }

    /// Removes the row at 1-based index `row`; an index outside the grid is
    /// refused and leaves the grid as it was.
    pub fn delete_row(&mut self, row: usize) -> (r: Result<(), GridError>)
        requires
            old(self).wf(),
        ensures
            final(self).wf(),
            final(self).spec_col_count() == old(self).spec_col_count(),
            1 <= row <= old(self)@.len() ==> r is Ok && final(self)@ == drop_row(
                old(self)@,
                row - 1,
            ),
            !(1 <= row <= old(self)@.len()) ==> r == Err::<(), GridError>(
                GridError::IndexOutOfRange,
            ) && final(self)@ == old(self)@,
            r is Ok ==> final(self)@.len() == old(self)@.len() - 1,
            final(self)@.len() <= old(self)@.len(),
    {
        if row == 0 || row > self.rows.len() {
            return Err(GridError::IndexOutOfRange);
        }
        let ghost before = self@;
        let ghost old_rows = self.rows@;
        let _removed = self.rows.remove(row - 1);
        assert(self@ =~= drop_row(before, row - 1)) by {
            assert(self.rows@ =~= old_rows.remove(row - 1));
        }
        Ok(())
    }

    /// Removes the field at 1-based column `col` from every row; an index
    /// outside the grid is refused and leaves the grid as it was.
    pub fn delete_column(&mut self, col: usize) -> (r: Result<(), GridError>)
        requires
            old(self).wf(),
        ensures
            final(self).wf(),
            1 <= col <= old(self).spec_col_count() ==> r is Ok && final(self)@ == drop_column(
                old(self)@,
                col - 1,
            ) && final(self).spec_col_count() == old(self).spec_col_count() - 1,
            !(1 <= col <= old(self).spec_col_count()) ==> r == Err::<(), GridError>(
                GridError::IndexOutOfRange,
            ) && final(self)@ == old(self)@ && final(self).spec_col_count() == old(
                self,
            ).spec_col_count(),
            r is Ok ==> final(self)@.len() == old(self)@.len() && forall|i: int|
                0 <= i < final(self)@.len() ==> (#[trigger] final(self)@[i]).len() == old(
                    self,
                )@[i].len() - 1,
    {
        if col == 0 || col > self.cols {
            return Err(GridError::IndexOutOfRange);
        }
        let ghost before = self@;
        let ghost n = self.cols;
        let c: usize = col - 1;
        let mut i: usize = 0;
        while i < self.rows.len()
            invariant
                c < self.cols,
                self.cols == n,
                0 <= i <= self.rows@.len(),
                self.rows@.len() == before.len(),
                is_rectangular(before, n as nat),
                forall|k: int| 0 <= k < i ==> #[trigger] self@[k] == before[k].remove(c as int),
                forall|k: int| i <= k < before.len() ==> #[trigger] self@[k] == before[k],
            decreases before.len() - i,
        {
            let ghost prev = self@;
            let ghost old_row = self.rows@[i as int]@;
            assert(prev[i as int] == before[i as int]);
            assert(prev[i as int] == row_view(self.rows@[i as int]));
            assert(self.rows@[i as int]@.len() == self.cols) by {
                assert(before[i as int].len() == self.cols);
            }
            let _removed = self.rows[i].remove(c);
            assert(self.rows@[i as int]@ == old_row.remove(c as int));
            assert(self@[i as int] =~= before[i as int].remove(c as int));
            assert forall|k: int| 0 <= k < before.len() && k != i implies #[trigger] self@[k]
                == prev[k] by {}
            i = i + 1;
        }
        assert forall|k: int| 0 <= k < self@.len() implies #[trigger] self@[k] == drop_column(
            before,
            c as int,
        )[k] && self@[k].len() == n - 1 by {
            assert(before[k].len() == n);
            assert(drop_column(before, c as int)[k] == before[k].remove(c as int));
        }
        assert(self@ =~= drop_column(before, c as int));
        self.cols = self.cols - 1;
        assert(self@ == drop_column(before, c as int));
        Ok(())
    }
}

} // verus!
