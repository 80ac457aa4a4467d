use bootleg_editor::csv::{parse_csv, to_csv_text};
use bootleg_editor::error::GridError;
use bootleg_editor::grid::Grid;

fn rows(v: &[&[&str]]) -> Vec<Vec<String>> {
    v.iter().map(|r| r.iter().map(|f| f.to_string()).collect()).collect()
}

fn sample() -> Grid {
    parse_csv("a,b,c\nd,e,f\ng,h,i").unwrap()
}

#[test]
fn parse_reads_rows_and_fields() {
    let g = sample();
    assert_eq!(g.row_count(), 3);
    assert_eq!(g.col_count(), 3);
    assert_eq!(g.rows(), &rows(&[&["a", "b", "c"], &["d", "e", "f"], &["g", "h", "i"]]));
}

#[test]
fn parse_keeps_field_text() {
    let g = parse_csv("héllo wörld,x\n ,\u{1F600}").unwrap();
    assert_eq!(g.rows(), &rows(&[&["héllo wörld", "x"], &[" ", "\u{1F600}"]]));
}

#[test]
fn parse_empty_text_fails() {
    assert!(matches!(parse_csv(""), Err(GridError::EmptyDataset)));
}

#[test]
fn parse_lone_newline_has_one_empty_row() {
    let g = parse_csv("\n").unwrap();
    assert_eq!(g.rows(), &rows(&[&[""]]));
}

#[test]
fn parse_ragged_rows_fail() {
    assert!(matches!(parse_csv("a,b\nc"), Err(GridError::MalformedInput)));
}

#[test]
fn parse_ignores_trailing_newline() {
    let g = parse_csv("a,b\nc,d\n").unwrap();
    assert_eq!(g.rows(), &rows(&[&["a", "b"], &["c", "d"]]));
}

#[test]
fn parse_strips_carriage_returns() {
    let g = parse_csv("a,b\r\nc,d\r\n").unwrap();
    assert_eq!(g.rows(), &rows(&[&["a", "b"], &["c", "d"]]));
}

#[test]
fn parse_keeps_empty_fields() {
    let g = parse_csv(",x,\n1,,2").unwrap();
    assert_eq!(g.rows(), &rows(&[&["", "x", ""], &["1", "", "2"]]));
}

#[test]
fn serialize_joins_without_trailing_newline() {
    let text = to_csv_text(&rows(&[&["a", "b"], &["c", "d"]]));
    assert_eq!(text, "a,b\nc,d");
    assert_eq!(to_csv_text(&Vec::new()), "");
}

#[test]
fn round_trip_reproduces_text() {
    for text in ["a,b,c\nd,e,f", "x", "1,2\n3,4\n5,6", ",\n,"] {
        let g = parse_csv(text).unwrap();
        assert_eq!(to_csv_text(g.rows()), text);
    }
}

#[test]
fn from_rows_checks_shape() {
    assert!(matches!(Grid::from_rows(Vec::new()), Err(GridError::EmptyDataset)));
    assert!(matches!(
        Grid::from_rows(rows(&[&["a"], &["b", "c"]])),
        Err(GridError::MalformedInput)
    ));
    let g = Grid::from_rows(rows(&[&["a", "b"]])).unwrap();
    assert_eq!(g.col_count(), 2);
}

#[test]
fn modify_field_replaces_one_field() {
    let mut g = sample();
    assert_eq!(g.modify_field(2, 3, "X".to_string()), Ok(()));
    assert_eq!(g.rows(), &rows(&[&["a", "b", "c"], &["d", "e", "X"], &["g", "h", "i"]]));
}

#[test]
fn modify_then_reload() {
    let mut g = sample();
    g.modify_field(2, 3, "X".to_string()).unwrap();
    let back = parse_csv(&to_csv_text(g.rows())).unwrap();
    assert_eq!(back.rows(), &rows(&[&["a", "b", "c"], &["d", "e", "X"], &["g", "h", "i"]]));
}

#[test]
fn modify_out_of_range_is_refused() {
    let mut g = sample();
    assert_eq!(g.modify_field(4, 1, "x".to_string()), Err(GridError::IndexOutOfRange));
    assert_eq!(g.modify_field(1, 4, "x".to_string()), Err(GridError::IndexOutOfRange));
    assert_eq!(g.modify_field(0, 1, "x".to_string()), Err(GridError::IndexOutOfRange));
    assert_eq!(to_csv_text(g.rows()), "a,b,c\nd,e,f\ng,h,i");
}

#[test]
fn delete_row_removes_one_row() {
    let mut g = sample();
    assert_eq!(g.delete_row(1), Ok(()));
    assert_eq!(g.row_count(), 2);
    assert_eq!(g.col_count(), 3);
    assert_eq!(g.rows(), &rows(&[&["d", "e", "f"], &["g", "h", "i"]]));
}

#[test]
fn delete_row_out_of_range_is_refused() {
    let mut g = sample();
    assert_eq!(g.delete_row(4), Err(GridError::IndexOutOfRange));
    assert_eq!(g.delete_row(0), Err(GridError::IndexOutOfRange));
    assert_eq!(g.row_count(), 3);
}

#[test]
fn delete_column_removes_from_every_row() {
    let mut g = sample();
    assert_eq!(g.delete_column(2), Ok(()));
    assert_eq!(g.col_count(), 2);
    assert_eq!(g.rows(), &rows(&[&["a", "c"], &["d", "f"], &["g", "i"]]));
    for r in g.rows() {
        assert_eq!(r.len(), g.col_count());
    }
}

#[test]
fn delete_column_out_of_range_is_refused() {
    let mut g = sample();
    assert_eq!(g.delete_column(4), Err(GridError::IndexOutOfRange));
    assert_eq!(g.delete_column(0), Err(GridError::IndexOutOfRange));
    assert_eq!(to_csv_text(g.rows()), "a,b,c\nd,e,f\ng,h,i");
}

#[test]
fn mixed_edits_stay_rectangular() {
    let mut g = sample();
    g.delete_column(1).unwrap();
    g.modify_field(3, 2, "z".to_string()).unwrap();
    g.delete_row(2).unwrap();
    g.delete_column(2).unwrap();
    assert_eq!(g.row_count(), 2);
    assert_eq!(g.col_count(), 1);
    for r in g.rows() {
        assert_eq!(r.len(), 1);
    }
    assert_eq!(g.rows(), &rows(&[&["b"], &["h"]]));
}

#[test]
fn delete_every_row() {
    let mut g = parse_csv("a").unwrap();
    assert_eq!(g.delete_row(1), Ok(()));
    assert_eq!(g.row_count(), 0);
    assert_eq!(to_csv_text(g.rows()), "");
}
