use vstd::prelude::*;

use crate::error::GridError;

verus! {

/// First row (0-based) of a 1-based page.
pub open spec fn page_start(page_size: int, page: int) -> int {
    (page - 1) * page_size
}

/// One past the last row (0-based) of a page that starts at `start`.
pub open spec fn page_end(row_count: int, page_size: int, start: int) -> int {
    if start + page_size < row_count {
        start + page_size
    } else {
        row_count
    }
}

/// Maps a 1-based page of `page_size` rows onto the half-open window of
/// 0-based row indices `[start, end)` over `row_count` rows.
pub fn compute_window(row_count: usize, page_size: usize, page: usize) -> (r: Result<
    (usize, usize),
    GridError,
>)
    requires
        page_size >= 1,
    ensures
        page == 0 ==> r == Err::<(usize, usize), GridError>(GridError::PageUnderflow),
        page >= 1 && page_start(page_size as int, page as int) >= row_count ==> r == Err::<
            (usize, usize),
            GridError,
        >(GridError::PageOverflow),
        page >= 1 && page_start(page_size as int, page as int) < row_count ==> r == Ok::<
            (usize, usize),
            GridError,
        >(
            (
                page_start(page_size as int, page as int) as usize,
                page_end(
                    row_count as int,
                    page_size as int,
                    page_start(page_size as int, page as int),
                ) as usize,
            ),
        ),
        r is Ok ==> r->Ok_0.0 < r->Ok_0.1 <= row_count,
{
    if page == 0 {
        return Err(GridError::PageUnderflow);
    }
    let before: usize = page - 1;
    let start: usize = match before.checked_mul(page_size) {
        Some(s) => s,
        None => {
            return Err(GridError::PageOverflow);
        },
    };
    if start >= row_count {
        return Err(GridError::PageOverflow);
    }
    let end: usize = if page_size < row_count - start {
        start + page_size
    } else {
        row_count
    };
    Ok((start, end))
}

} // verus!
