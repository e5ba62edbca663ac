//! Tests for the persistence layer: exact serialized forms, round-trips,
//! and tolerance for malformed or foreign files.

use notestore::column::{Column, ColumnID};
use notestore::data::{Category, FileDisplay};
use notestore::json::Json;
use notestore::json_read::parse_json_text;
use notestore::store::{
    load_file_display, load_table_content, load_text_content, store_file_display,
    store_note_content, store_table_content,
};
use notestore::table::{TableCell, TableContent};
use notestore::text::{Paragraph, TextContent};

#[test]
fn text_content_exact_form() {
    let t = TextContent {
        paragraphs: vec![
            Paragraph::H2("Head".to_string()),
            Paragraph::Text("a\nb".to_string()),
        ],
    };
    assert_eq!(
        store_note_content(&t),
        "[{\"type\":\"h2\",\"text\":\"Head\"},{\"type\":\"p\",\"text\":\"a\\nb\"}]"
    );
    assert_eq!(store_note_content(&TextContent { paragraphs: vec![] }), "[]");
}

#[test]
fn text_content_round_trip() {
    let t = TextContent {
        paragraphs: vec![
            Paragraph::Text("plain \"quoted\" and back\\slash".to_string()),
            Paragraph::H2("h2 \u{1F600} unicode".to_string()),
            Paragraph::H3("tabs\tand\rreturns".to_string()),
            Paragraph::H4(String::new()),
        ],
    };
    let stored = store_note_content(&t);
    let back = load_text_content(&stored).unwrap();
    assert_eq!(back.paragraphs.len(), 4);
    for (a, b) in t.paragraphs.iter().zip(back.paragraphs.iter()) {
        match (a, b) {
            (Paragraph::Text(x), Paragraph::Text(y)) => assert_eq!(x, y),
            (Paragraph::H2(x), Paragraph::H2(y)) => assert_eq!(x, y),
            (Paragraph::H3(x), Paragraph::H3(y)) => assert_eq!(x, y),
            (Paragraph::H4(x), Paragraph::H4(y)) => assert_eq!(x, y),
            _ => panic!("paragraph variant changed"),
        }
    }
}

#[test]
fn text_content_tolerance() {
    // Not JSON at all: reported as absent.
    assert!(load_text_content("not json").is_none());
    assert!(load_text_content("").is_none());
    // JSON whose root is not an array: also reported as absent, so the
    // caller substitutes and persists the default.
    assert!(load_text_content("{}").is_none());
    assert!(load_text_content("3").is_none());
    assert!(load_text_content("\"x\"").is_none());
    // Unknown paragraph tags are skipped; a missing text reads as the
    // display form of null.
    let body = "[{\"type\":\"h9\",\"text\":\"x\"},{\"type\":\"p\"},3,null]";
    let t = load_text_content(body).unwrap();
    assert_eq!(t.paragraphs.len(), 1);
    match &t.paragraphs[0] {
        Paragraph::Text(s) => assert_eq!(s, "null"),
        _ => panic!("wrong variant"),
    }
}

#[test]
fn table_content_exact_form() {
    let t = TableContent {
        columns: vec![Column {
            id: ColumnID(0),
            name: "col".to_string(),
            unique: true,
        }],
        cells: vec![
            TableCell {
                content: Some("x".to_string()),
            },
            TableCell { content: None },
        ],
    };
    assert_eq!(
        store_table_content(&t),
        "{\"columns\":[{\"id\":\"AAAAAAAAAAA\",\"name\":\"col\",\"unique\":true}],\"cells\":[\"x\",null]}"
    );
}

#[test]
fn table_content_round_trip() {
    let t = TableContent {
        columns: vec![
            Column {
                id: ColumnID(5),
                name: "first".to_string(),
                unique: false,
            },
            Column {
                id: ColumnID(u64::MAX),
                name: String::new(),
                unique: true,
            },
        ],
        cells: vec![
            TableCell {
                content: Some("a\"b".to_string()),
            },
            TableCell { content: None },
            TableCell {
                content: Some(String::new()),
            },
            TableCell {
                content: Some("\u{7}control".to_string()),
            },
        ],
    };
    let stored = store_table_content(&t);
    let back = load_table_content(&stored).unwrap();
    assert_eq!(back.columns.len(), 2);
    assert_eq!(back.columns[0].id, ColumnID(5));
    assert_eq!(back.columns[0].name, "first");
    assert!(!back.columns[0].unique);
    assert_eq!(back.columns[1].id, ColumnID(u64::MAX));
    assert!(back.columns[1].unique);
    assert_eq!(back.cells.len(), 4);
    assert_eq!(back.cells[0].content.as_deref(), Some("a\"b"));
    assert_eq!(back.cells[1].content, None);
    assert_eq!(back.cells[2].content.as_deref(), Some(""));
    assert_eq!(back.cells[3].content.as_deref(), Some("\u{7}control"));
}

#[test]
fn table_content_tolerance() {
    assert!(load_table_content("####").is_none());
    // Missing arrays read as empty.
    let t = load_table_content("{}").unwrap();
    assert!(t.columns.is_empty() && t.cells.is_empty());
    let t = load_table_content("[1,2]").unwrap();
    assert!(t.columns.is_empty() && t.cells.is_empty());
    // Non-string cells read as empty cells.
    let t = load_table_content("{\"cells\":[\"a\",7,null,true]}").unwrap();
    assert_eq!(t.cells.len(), 4);
    assert_eq!(t.cells[0].content.as_deref(), Some("a"));
    assert!(t.cells[1].content.is_none());
    assert!(t.cells[2].content.is_none());
    assert!(t.cells[3].content.is_none());
    // A malformed column identifier fails the whole load.
    assert!(load_table_content("{\"columns\":[{\"id\":\"!bad\"}]}").is_none());
}

#[test]
fn cover_exact_form_and_round_trip() {
    let d = FileDisplay {
        title: "Grocery List".to_string(),
        category: Category::Table,
        keywords: vec!["food".to_string(), "week".to_string()],
    };
    let stored = store_file_display(&d);
    assert_eq!(
        stored,
        "{\"title\":\"Grocery List\",\"category\":\"table\",\"keywords\":[\"food\",\"week\"]}"
    );
    let back = load_file_display(&stored).unwrap();
    assert_eq!(back.title, d.title);
    assert_eq!(back.category, Category::Table);
    assert_eq!(back.keywords, d.keywords);
}

#[test]
fn cover_tolerance() {
    assert!(load_file_display("{title:").is_none());
    assert!(load_file_display("{\"title\":\"x\"}").is_none());
    assert!(load_file_display("{\"title\":\"x\",\"category\":\"video\"}").is_none());
    assert!(load_file_display("{\"title\":7,\"category\":\"text\"}").is_none());
    // Missing keywords read as empty; foreign keyword entries are coerced
    // to their display form.
    let d = load_file_display("{\"title\":\"x\",\"category\":\"text\"}").unwrap();
    assert!(d.keywords.is_empty());
    let d = load_file_display(
        "{\"title\":\"x\",\"category\":\"text\",\"keywords\":[\"a\",1,null,[2]]}",
    )
    .unwrap();
    assert_eq!(d.keywords, vec!["a", "1", "null", "[2]"]);
}

#[test]
fn json_parser_handles_whitespace_and_escapes() {
    let j = parse_json_text(" { \"k\" : [ 1 , \"a\\u0041\\n\" , true ] } ").unwrap();
    match j {
        Json::Obj(ms) => {
            assert_eq!(ms.len(), 1);
            assert_eq!(ms[0].0, "k");
            match &ms[0].1 {
                Json::Arr(items) => {
                    assert_eq!(items.len(), 3);
                    assert!(matches!(&items[0], Json::Num(s) if s == "1"));
                    assert!(matches!(&items[1], Json::Str(s) if s == "aA\n"));
                    assert!(matches!(items[2], Json::Bool(true)));
                }
                _ => panic!("expected array"),
            }
        }
        _ => panic!("expected object"),
    }
}

#[test]
fn json_parser_rejects_trailing_garbage() {
    assert!(parse_json_text("nullx").is_none());
    assert!(parse_json_text("[1,]").is_none());
    assert!(parse_json_text("{\"a\":}").is_none());
    assert!(parse_json_text("\"\\ud800\"").is_none());
    assert!(parse_json_text("01").is_none());
    assert!(parse_json_text("1 2").is_none());
}
