use bootleg_editor::csv::parse_csv;
use bootleg_editor::editor::{finish_mutation, refresh_csv_data, BootLegEditor};
use bootleg_editor::error::GridError;
use bootleg_editor::table::TableRow;

fn editor() -> BootLegEditor {
    let grid = parse_csv("a,b\nc,d\ne,f\ng,h\ni,j").unwrap();
    BootLegEditor::new("data.csv".to_string(), grid)
}

fn texts(row: &TableRow) -> Vec<String> {
    row.cells.to_vec()
}

#[test]
fn table_row_new_keeps_values() {
    let cells = vec!["x".to_string(), "y".to_string()];
    let row = TableRow::new(7, &cells);
    assert_eq!(row.serial_number, 7);
    assert_eq!(row.cells, &cells[..]);
}

#[test]
fn display_numbers_every_row() {
    let e = editor();
    let shown = e.display_csv();
    assert_eq!(shown.len(), 5);
    assert_eq!(shown[0].serial_number, 1);
    assert_eq!(shown[4].serial_number, 5);
    assert_eq!(texts(&shown[4]), vec!["i", "j"]);
}

#[test]
fn display_page_offsets_serial_numbers() {
    let e = editor();
    let shown = e.display_paginated_csv(2, 2).unwrap();
    assert_eq!(shown.len(), 2);
    assert_eq!(shown[0].serial_number, 3);
    assert_eq!(texts(&shown[0]), vec!["e", "f"]);
    assert_eq!(shown[1].serial_number, 4);
    let last = e.display_paginated_csv(2, 3).unwrap();
    assert_eq!(last.len(), 1);
    assert_eq!(last[0].serial_number, 5);
}

#[test]
fn display_page_errors() {
    let e = editor();
    assert!(matches!(e.display_paginated_csv(2, 0), Err(GridError::PageUnderflow)));
    assert!(matches!(e.display_paginated_csv(2, 4), Err(GridError::PageOverflow)));
}

#[test]
fn modify_asks_for_rewrite() {
    let mut e = editor();
    let (outcome, write) = e.modify_field(2, 1, "Q".to_string());
    assert_eq!(outcome, Ok(()));
    assert_eq!(write.path, "data.csv");
    assert_eq!(write.contents, "a,b\nQ,d\ne,f\ng,h\ni,j");
}

#[test]
fn failed_modify_still_asks_for_rewrite() {
    let mut e = editor();
    let (outcome, write) = e.modify_field(9, 1, "Q".to_string());
    assert_eq!(outcome, Err(GridError::IndexOutOfRange));
    assert_eq!(write.contents, "a,b\nc,d\ne,f\ng,h\ni,j");
}

#[test]
fn delete_row_asks_for_rewrite() {
    let mut e = editor();
    let (outcome, write) = e.delete_row(5);
    assert_eq!(outcome, Ok(()));
    assert_eq!(write.contents, "a,b\nc,d\ne,f\ng,h");
    assert_eq!(e.csv_data().row_count(), 4);
}

#[test]
fn delete_field_asks_for_rewrite() {
    let mut e = editor();
    let (outcome, write) = e.delete_field(1);
    assert_eq!(outcome, Ok(()));
    assert_eq!(write.contents, "b\nd\nf\nh\nj");
    let (outcome, _) = e.delete_field(2);
    assert_eq!(outcome, Err(GridError::IndexOutOfRange));
}

#[test]
fn refresh_builds_request() {
    let data = vec![vec!["1".to_string(), "2".to_string()], vec!["3".to_string(), "4".to_string()]];
    let write = refresh_csv_data(&"out.csv".to_string(), &data);
    assert_eq!(write.path, "out.csv");
    assert_eq!(write.contents, "1,2\n3,4");
}

#[test]
fn finish_reports_write_failure_first() {
    assert_eq!(finish_mutation(Ok(()), true), Ok(()));
    assert_eq!(finish_mutation(Err(GridError::IndexOutOfRange), true), Err(GridError::IndexOutOfRange));
    assert_eq!(finish_mutation(Ok(()), false), Err(GridError::StorageUnwritable));
    assert_eq!(finish_mutation(Err(GridError::IndexOutOfRange), false), Err(GridError::StorageUnwritable));
}
