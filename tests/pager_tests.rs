use bootleg_editor::error::GridError;
use bootleg_editor::pager::compute_window;

#[test]
fn window_first_page() {
    assert_eq!(compute_window(10, 3, 1), Ok((0, 3)));
}

#[test]
fn window_last_partial_page() {
    assert_eq!(compute_window(10, 3, 4), Ok((9, 10)));
}

#[test]
fn window_past_last_page() {
    assert_eq!(compute_window(10, 3, 5), Err(GridError::PageOverflow));
}

#[test]
fn window_page_zero() {
    assert_eq!(compute_window(10, 3, 0), Err(GridError::PageUnderflow));
}

#[test]
fn window_exact_boundary() {
    assert_eq!(compute_window(9, 3, 3), Ok((6, 9)));
    assert_eq!(compute_window(9, 3, 4), Err(GridError::PageOverflow));
}

#[test]
fn window_empty_grid() {
    assert_eq!(compute_window(0, 3, 1), Err(GridError::PageOverflow));
}

#[test]
fn window_single_row_pages() {
    assert_eq!(compute_window(3, 1, 2), Ok((1, 2)));
    assert_eq!(compute_window(3, 1, 3), Ok((2, 3)));
    assert_eq!(compute_window(3, 1, 4), Err(GridError::PageOverflow));
}

#[test]
fn window_huge_page_number() {
    assert_eq!(compute_window(10, usize::MAX, 3), Err(GridError::PageOverflow));
    assert_eq!(compute_window(usize::MAX, 2, usize::MAX), Err(GridError::PageOverflow));
}

#[test]
fn window_page_larger_than_grid() {
    assert_eq!(compute_window(4, 100, 1), Ok((0, 4)));
}
