//! Tests for the document registry: bulk loading with per-entry
//! tolerance, creation, rename, keywords, and the load-or-create policy.

use notestore::data::{Category, FileID};
use notestore::db::{CoverEntry, DB};
use notestore::saveable::Saveable;
use notestore::store::{load_file_display, store_file_display};
use notestore::data::FileDisplay;
use notestore::text::{Paragraph, TextContent};

fn entry(id: FileID, title: &str, category: Category) -> CoverEntry {
    CoverEntry {
        name: id.to_string(),
        cover: store_file_display(&FileDisplay {
            title: title.to_string(),
            category,
            keywords: vec![],
        }),
    }
}

#[test]
fn load_keeps_valid_entry_and_skips_invalid_cover() {
    // One valid entry and one whose cover is invalid JSON: the registry
    // holds only the valid one, and no fault is raised.
    let good = FileID(7);
    let covers = vec![
        entry(good, "Good", Category::Text),
        CoverEntry {
            name: FileID(8).to_string(),
            cover: "{not json!".to_string(),
        },
    ];
    let db = DB::load("/tmp/root".to_string(), covers);
    let ids = db.ids();
    assert_eq!(ids.len(), 1);
    assert_eq!(ids[0], good);
    assert_eq!(db.get_file(good).unwrap().title, "Good");
    assert!(db.get_file(FileID(8)).is_none());
}

#[test]
fn load_skips_bad_directory_name() {
    let covers = vec![
        CoverEntry {
            name: "not-an-identifier".to_string(),
            cover: store_file_display(&FileDisplay {
                title: "x".to_string(),
                category: Category::Text,
                keywords: vec![],
            }),
        },
        entry(FileID(1), "Kept", Category::Table),
    ];
    let db = DB::load("r".to_string(), covers);
    assert_eq!(db.ids().len(), 1);
    assert_eq!(db.get_file(FileID(1)).unwrap().title, "Kept");
}

#[test]
fn new_file_registers_and_persists_cover() {
    let mut db = DB::load("/notes".to_string(), vec![]);
    let (id, op) = db.new_file("Grocery List".to_string(), Category::Table);
    assert_eq!(db.ids(), vec![id]);
    let d = db.get_file(id).unwrap();
    assert_eq!(d.title, "Grocery List");
    assert_eq!(d.category, Category::Table);
    assert!(d.keywords.is_empty());
    assert_eq!(op.dir, format!("/notes/files/{}", id.to_string()));
    assert_eq!(op.path, format!("/notes/files/{}/cover.json", id.to_string()));
    let stored = load_file_display(&op.body).unwrap();
    assert_eq!(stored.title, "Grocery List");
    assert_eq!(stored.category, Category::Table);
}

#[test]
fn get_table_content_default_then_stable() {
    // Load-or-create: the first access to a fresh table file returns the
    // empty table and the write that persists it; feeding that write's
    // body back in returns an equal empty table and writes nothing.
    let mut db = DB::load("/notes".to_string(), vec![]);
    let (id, _op) = db.new_file("Grocery List".to_string(), Category::Table);
    let (t1, w1) = db.get_table_content(id, None);
    assert!(t1.columns.is_empty() && t1.cells.is_empty());
    let w1 = w1.expect("first access must persist the default");
    assert_eq!(w1.path, format!("/notes/files/{}/content.json", id.to_string()));
    let (t2, w2) = db.get_table_content(id, Some(w1.body));
    assert!(t2.columns.is_empty() && t2.cells.is_empty());
    assert!(w2.is_none());
    // The degenerate zero-column case: inserting a row leaves height 0.
    let mut t2 = t2;
    t2.insert_row(0);
    assert_eq!(t2.height(), 0);
}

#[test]
fn get_text_content_default_then_stable() {
    let mut db = DB::load("/notes".to_string(), vec![]);
    let (id, _op) = db.new_file("Note".to_string(), Category::Text);
    let (t1, w1) = db.get_text_content(id, None);
    assert!(t1.paragraphs.is_empty());
    let w1 = w1.expect("first access must persist the default");
    assert_eq!(w1.body, "[]");
    let (t2, w2) = db.get_text_content(id, Some(w1.body));
    assert!(t2.paragraphs.is_empty());
    assert!(w2.is_none());
}

#[test]
fn get_text_content_reads_existing_body() {
    let db = DB::load("/notes".to_string(), vec![]);
    let body = "[{\"type\":\"p\",\"text\":\"hi\"}]".to_string();
    let (t, w) = db.get_text_content(FileID(3), Some(body));
    assert!(w.is_none());
    assert_eq!(t.paragraphs.len(), 1);
    assert!(matches!(&t.paragraphs[0], Paragraph::Text(s) if s == "hi"));
}

#[test]
fn get_text_content_non_array_root_gets_default() {
    // A content file that parses as JSON but is not an array counts as
    // "not present": the default is substituted and persisted.
    let db = DB::load("/notes".to_string(), vec![]);
    let (t, w) = db.get_text_content(FileID(2), Some("{}".to_string()));
    assert!(t.paragraphs.is_empty());
    let w = w.expect("non-array content must be replaced by the default");
    assert_eq!(w.body, "[]");
}

#[test]
fn rename_updates_record_and_write() {
    let mut db = DB::load("r".to_string(), vec![entry(FileID(4), "Old", Category::Text)]);
    let op = db.rename_file(FileID(4), "New".to_string());
    assert_eq!(db.get_file(FileID(4)).unwrap().title, "New");
    let stored = load_file_display(&op.body).unwrap();
    assert_eq!(stored.title, "New");
    assert_eq!(stored.category, Category::Text);
}

#[test]
fn set_keywords_updates_record_and_write() {
    let mut db = DB::load("r".to_string(), vec![entry(FileID(4), "T", Category::Table)]);
    let op = db.set_file_keywords(FileID(4), vec!["a".to_string(), "b".to_string()]);
    assert_eq!(db.get_file(FileID(4)).unwrap().keywords, vec!["a", "b"]);
    let stored = load_file_display(&op.body).unwrap();
    assert_eq!(stored.keywords, vec!["a", "b"]);
    assert_eq!(stored.title, "T");
}

#[test]
fn new_file_ids_are_unique() {
    let mut db = DB::load("r".to_string(), vec![]);
    let mut seen: Vec<FileID> = vec![];
    for i in 0..20 {
        let (id, _) = db.new_file(format!("n{}", i), Category::Text);
        assert!(!seen.contains(&id));
        seen.push(id);
    }
    assert_eq!(db.ids().len(), 20);
}

#[test]
fn saveable_names_content_path() {
    let t = TextContent {
        paragraphs: vec![Paragraph::Text("x".to_string())],
    };
    let op = t.save("/root".to_string(), FileID(0));
    assert_eq!(op.dir, "/root/files/AAAAAAAAAAA");
    assert_eq!(op.path, "/root/files/AAAAAAAAAAA/content.json");
    assert_eq!(op.body, "[{\"type\":\"p\",\"text\":\"x\"}]");
}

#[test]
fn later_duplicate_entry_wins() {
    let covers = vec![
        entry(FileID(5), "First", Category::Text),
        entry(FileID(5), "Second", Category::Text),
    ];
    let db = DB::load("r".to_string(), covers);
    assert_eq!(db.ids().len(), 1);
    assert_eq!(db.get_file(FileID(5)).unwrap().title, "Second");
}

#[test]
fn ids_keep_load_order() {
    let covers = vec![
        entry(FileID(30), "c", Category::Text),
        entry(FileID(10), "a", Category::Text),
        entry(FileID(20), "b", Category::Table),
    ];
    let db = DB::load("r".to_string(), covers);
    assert_eq!(db.ids(), vec![FileID(30), FileID(10), FileID(20)]);
}
