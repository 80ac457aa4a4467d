use vstd::prelude::*;

verus! {

/// The ways an operation on the data set can fail.
#[derive(Debug, Clone, Copy, PartialEq, Eq, Structural)]
pub enum GridError {
    /// The backing store could not be read.
    StorageUnreadable,
    /// The backing store could not be written.
    StorageUnwritable,
    /// The loaded text held no rows.
    EmptyDataset,
    /// A 1-based row or column index lies outside the grid.
    IndexOutOfRange,
    /// A page number of zero was asked for.
    PageUnderflow,
    /// The page asked for starts past the last row.
    PageOverflow,
    /// The rows of the loaded text do not all have the same number of fields.
    MalformedInput,
}

} // verus!
