//! Tests for the table schema: addressing, row insertion, and row
//! extraction.

use notestore::column::{Column, ColumnID};
use notestore::table::{TableCell, TableContent};
use notestore::row::Row;

fn cell(s: &str) -> TableCell {
    TableCell {
        content: Some(s.to_string()),
    }
}

fn two_by_two() -> TableContent {
    TableContent {
        columns: vec![
            Column {
                id: ColumnID(1),
                name: "a".to_string(),
                unique: false,
            },
            Column {
                id: ColumnID(2),
                name: "b".to_string(),
                unique: false,
            },
        ],
        cells: vec![cell("a0"), cell("b0"), cell("a1"), cell("b1")],
    }
}

#[test]
fn width_height_product() {
    let t = two_by_two();
    assert_eq!(t.width(), 2);
    assert_eq!(t.height(), 2);
    assert_eq!(t.height() * t.width(), t.cells.len());
}

#[test]
fn cell_lookup_row_major() {
    let t = two_by_two();
    for r in 0..2 {
        for (i, id) in [ColumnID(1), ColumnID(2)].iter().enumerate() {
            let c = t.cell(*id, r).unwrap();
            let flat = &t.cells[r * 2 + i];
            assert_eq!(c.content, flat.content);
        }
    }
    assert!(t.cell(ColumnID(9), 0).is_none());
}

#[test]
fn column_lookup_first_match() {
    let t = two_by_two();
    assert_eq!(t.column(ColumnID(2)).unwrap().name, "b");
    assert!(t.column(ColumnID(3)).is_none());
}

#[test]
fn insert_row_grows_height_and_keeps_rows() {
    let mut t = two_by_two();
    t.insert_row(1);
    assert_eq!(t.height(), 3);
    assert_eq!(t.width(), 2);
    // row 0 unchanged
    assert_eq!(t.cells[0].content.as_deref(), Some("a0"));
    assert_eq!(t.cells[1].content.as_deref(), Some("b0"));
    // inserted row of empty cells
    assert_eq!(t.cells[2].content, None);
    assert_eq!(t.cells[3].content, None);
    // old row 1 moved down, in order
    assert_eq!(t.cells[4].content.as_deref(), Some("a1"));
    assert_eq!(t.cells[5].content.as_deref(), Some("b1"));
}

#[test]
fn insert_row_on_zero_column_table() {
    // The degenerate case: a zero-column table has zero rows, and
    // inserting a row adds no cells, so the height stays 0.
    let mut t = TableContent {
        columns: vec![],
        cells: vec![],
    };
    t.insert_row(0);
    assert_eq!(t.height(), 0);
    assert_eq!(t.width(), 0);
    assert!(t.is_empty());
    // Any index is fine here: with no columns there is nothing to insert.
    t.insert_row(5);
    assert_eq!(t.height(), 0);
    assert!(t.is_empty());
}

#[test]
fn take_rows_in_order_and_empties_table() {
    let mut t = two_by_two();
    let mut it = t.take_rows();
    assert!(t.is_empty());
    let r0 = it.next_row().unwrap();
    assert_eq!(r0.cells[0].content.as_deref(), Some("a0"));
    assert_eq!(r0.cells[1].content.as_deref(), Some("b0"));
    let r1 = it.next_row().unwrap();
    assert_eq!(r1.cells[0].content.as_deref(), Some("a1"));
    assert_eq!(r1.cells[1].content.as_deref(), Some("b1"));
    assert!(it.next_row().is_none());
    assert!(it.next_row().is_none());
}

#[test]
fn take_rows_drops_malformed_remainder() {
    let mut t = two_by_two();
    t.cells.push(cell("extra"));
    let mut it = t.take_rows();
    assert!(t.is_empty());
    assert!(it.next_row().is_some());
    assert!(it.next_row().is_some());
    // The lone trailing cell is not a complete row and is dropped.
    assert!(it.next_row().is_none());
}

#[test]
fn row_create_empty_and_get_cell() {
    let t = two_by_two();
    let empty = Row::create_empty(2);
    assert_eq!(empty.cells.len(), 2);
    assert!(empty.cells.iter().all(|c| c.content.is_none()));
    let row = Row {
        cells: vec![cell("x"), cell("y")],
    };
    let got = row.get_cell(&t.columns, ColumnID(2)).unwrap();
    assert_eq!(got.content.as_deref(), Some("y"));
    assert!(row.get_cell(&t.columns, ColumnID(7)).is_none());
}
