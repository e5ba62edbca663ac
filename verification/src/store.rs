//! The persistence layer: the exact JSON text each document serializes to,
//! and the tolerant reading of that text back.
//!
//! Every function here is pure text work; reading and writing the files
//! themselves is the caller's business. Loading mirrors the store's
//! tolerance rules: a document whose JSON does not parse is reported as
//! absent, an element of the wrong shape is skipped or replaced by a
//! default, and a value indexed out of a non-object reads as JSON `null`.

use vstd::prelude::*;
use vstd::string::StringExecFns;
use crate::json::{
    Json, JsonV, json_view, json_views, member_views, ser_json, parse_json,
};
use crate::json_read::parse_json_text;
use crate::json_write::{json_to_string, lemma_json_views, lemma_member_views};
use crate::text::{Paragraph, ParagraphV, TextContent};
use crate::table::{TableContent, TableCell};
use crate::column::{Column, ColumnV, ColumnID};
use crate::data::{Category, FileDisplay, FileDisplayV};
use crate::id::spec_encode;

verus! {

/// The member key `"type"`.
pub open spec fn key_type() -> Seq<char> {
    seq!['t', 'y', 'p', 'e']
}

/// The member key `"text"`.
pub open spec fn key_text() -> Seq<char> {
    seq!['t', 'e', 'x', 't']
}

/// The paragraph tag written in a `"type"` member.
pub open spec fn tag_chars(p: ParagraphV) -> Seq<char> {
    match p {
        ParagraphV::Text(_) => seq!['p'],
        ParagraphV::H2(_) => seq!['h', '2'],
        ParagraphV::H3(_) => seq!['h', '3'],
        ParagraphV::H4(_) => seq!['h', '4'],
    }
}

/// The text a paragraph carries.
pub open spec fn para_text(p: ParagraphV) -> Seq<char> {
    match p {
        ParagraphV::Text(t) => t,
        ParagraphV::H2(t) => t,
        ParagraphV::H3(t) => t,
        ParagraphV::H4(t) => t,
    }
}

/// The JSON image of one paragraph: `{"type": tag, "text": text}`.
pub open spec fn para_json(p: ParagraphV) -> JsonV {
    JsonV::Obj(
        seq![
            (key_type(), JsonV::Str(tag_chars(p))),
            (key_text(), JsonV::Str(para_text(p))),
        ],
    )
}

/// The JSON images of a document's paragraphs, in order.
pub open spec fn paras_json(ps: Seq<ParagraphV>) -> Seq<JsonV> {
    Seq::new(ps.len(), |i: int| para_json(ps[i]))
}

/// The JSON image of a text document: the array of its paragraphs.
pub open spec fn text_json(ps: Seq<ParagraphV>) -> JsonV {
    JsonV::Arr(paras_json(ps))
}

/// The exact text a text document is stored as.
pub open spec fn spec_store_text(ps: Seq<ParagraphV>) -> Seq<char> {
    ser_json(text_json(ps))
}

/// The first member of `ms` under `key`, or JSON `null` if there is none;
/// indexing an object never fails, and duplicate keys resolve to the first
/// occurrence.
pub open spec fn obj_get(ms: Seq<(Seq<char>, JsonV)>, key: Seq<char>) -> JsonV
    decreases ms.len(),
{
    if ms.len() == 0 {
        JsonV::Null
    } else if ms[0].0 == key {
        ms[0].1
    } else {
        obj_get(ms.drop_first(), key)
    }
}

/// Indexing any JSON value by key: members of an object, `null` elsewhere.
pub open spec fn j_index(j: JsonV, key: Seq<char>) -> JsonV {
    match j {
        JsonV::Obj(ms) => obj_get(ms, key),
        _ => JsonV::Null,
    }
}

/// The display form of a JSON value: a string's characters unquoted,
/// anything else its serialization.
pub open spec fn display_of(j: JsonV) -> Seq<char> {
    match j {
        JsonV::Str(s) => s,
        _ => ser_json(j),
    }
}

/// The paragraph a JSON array element stands for, or nothing if its
/// `"type"` tag is missing or unrecognized (such an element is skipped).
/// A missing `"text"` member reads as the display form of `null`.
pub open spec fn para_of_json(j: JsonV) -> Option<ParagraphV> {
    match j_index(j, key_type()) {
        JsonV::Str(tag) => {
            let text = display_of(j_index(j, key_text()));
            if tag == seq!['p'] {
                Some(ParagraphV::Text(text))
            } else if tag == seq!['h', '2'] {
                Some(ParagraphV::H2(text))
            } else if tag == seq!['h', '3'] {
                Some(ParagraphV::H3(text))
            } else if tag == seq!['h', '4'] {
                Some(ParagraphV::H4(text))
            } else {
                None
            }
        },
        _ => None,
    }
}

/// The paragraphs of an array of JSON elements, unrecognized ones skipped.
pub open spec fn paras_of_json(items: Seq<JsonV>) -> Seq<ParagraphV>
    decreases items.len(),
{
    if items.len() == 0 {
        Seq::empty()
    } else {
        let rest = paras_of_json(items.drop_first());
        match para_of_json(items[0]) {
            Some(p) => seq![p] + rest,
            None => rest,
        }
    }
}

/// What loading a text document from the given text yields: the
/// recognized paragraphs if the text is a JSON array, and nothing
/// otherwise — not being JSON at all and a parsed non-array root alike
/// read as "not present", so the caller substitutes the default.
pub open spec fn spec_load_text(s: Seq<char>) -> Option<Seq<ParagraphV>> {
    match parse_json(s) {
        Some(j) => match j {
            JsonV::Arr(items) => Some(paras_of_json(items)),
            _ => None,
        },
        None => None,
    }
}

/// Reading the paragraphs of a concatenation reads each part in turn.
pub proof fn lemma_paras_of_json_append(a: Seq<JsonV>, b: Seq<JsonV>)
    ensures
        paras_of_json(a + b) == paras_of_json(a) + paras_of_json(b),
    decreases a.len(),
{
    if a.len() == 0 {
        assert(a + b =~= b);
        assert(paras_of_json(a) + paras_of_json(b) =~= paras_of_json(b));
    } else {
        assert((a + b).drop_first() =~= a.drop_first() + b);
        lemma_paras_of_json_append(a.drop_first(), b);
        assert((a + b)[0] == a[0]);
        match para_of_json(a[0]) {
            Some(p) => {
                assert(seq![p] + (paras_of_json(a.drop_first()) + paras_of_json(b)) =~= (seq![p]
                    + paras_of_json(a.drop_first())) + paras_of_json(b));
            },
            None => {},
        }
    }
}

/// The member under `key`, found by a first-match scan: the member's
/// value, or nothing if no member has the key.
fn j_get<'a>(ms: &'a Vec<(String, Json)>, key: &String) -> (r: Option<&'a Json>)
    ensures
        (match r {
            Some(j) => obj_get(member_views(ms@), key@) == json_view(*j),
            None => obj_get(member_views(ms@), key@) == JsonV::Null,
        }),
{
    proof {
        lemma_member_views(ms@);
    }
    let n = ms.len();
    let mut i: usize = 0;
    while i < n
        invariant
            i <= n,
            n == ms@.len(),
            forall|k: int| 0 <= k < i ==> (#[trigger] ms@[k]).0@ != key@,
        decreases n - i,
    {
        if ms[i].0 == *key {
            proof {
                lemma_member_views(ms@);
                assert forall|k: int| 0 <= k < i implies (#[trigger] member_views(ms@)[k]).0
                    != key@ by {
                    assert(ms@[k].0@ != key@);
                }
                assert(member_views(ms@)[i as int].0 == key@);
                lemma_obj_get_found(member_views(ms@), key@, i as int);
            }
            return Some(&ms[i].1);
        }
        i += 1;
    }
    proof {
        lemma_member_views(ms@);
        assert forall|k: int| 0 <= k < ms@.len() implies (#[trigger] member_views(ms@)[k]).0
            != key@ by {
            assert(ms@[k].0@ != key@);
        }
        lemma_obj_get_missing(member_views(ms@), key@);
    }
    None
}

/// A first match determines the result of the member scan.
proof fn lemma_obj_get_found(ms: Seq<(Seq<char>, JsonV)>, key: Seq<char>, i: int)
    requires
        0 <= i < ms.len(),
        ms[i].0 == key,
        forall|j: int| 0 <= j < i ==> (#[trigger] ms[j]).0 != key,
    ensures
        obj_get(ms, key) == ms[i].1,
    decreases i,
{
    if i > 0 {
        assert(ms[0].0 != key);
        lemma_obj_get_found(ms.drop_first(), key, i - 1);
        assert(ms.drop_first()[i - 1] == ms[i]);
    }
}

/// Without a match the member scan reads as `null`.
proof fn lemma_obj_get_missing(ms: Seq<(Seq<char>, JsonV)>, key: Seq<char>)
    requires
        forall|j: int| 0 <= j < ms.len() ==> (#[trigger] ms[j]).0 != key,
    ensures
        obj_get(ms, key) == JsonV::Null,
    decreases ms.len(),
{
    if ms.len() > 0 {
        lemma_obj_get_missing(ms.drop_first(), key);
    }
}

/// The display form of a value.
fn display_string(j: &Json) -> (r: String)
    ensures
        r@ == display_of(json_view(*j)),
{
    match j {
        Json::Str(s) => s.clone(),
        _ => json_to_string(j),
    }
}

/// The JSON image of one paragraph, built for writing.
fn para_to_json(p: &Paragraph) -> (r: Json)
    ensures
        json_view(r) == para_json(p.deep_view()),
{
    let tag: String = match p {
        Paragraph::Text(_) => String::from_str("p"),
        Paragraph::H2(_) => String::from_str("h2"),
        Paragraph::H3(_) => String::from_str("h3"),
        Paragraph::H4(_) => String::from_str("h4"),
    };
    let text: String = match p {
        Paragraph::Text(t) => t.clone(),
        Paragraph::H2(t) => t.clone(),
        Paragraph::H3(t) => t.clone(),
        Paragraph::H4(t) => t.clone(),
    };
    let mut ms: Vec<(String, Json)> = Vec::new();
    ms.push((String::from_str("type"), Json::Str(tag)));
    ms.push((String::from_str("text"), Json::Str(text)));
    let r = Json::Obj(ms);
    proof {
        reveal_strlit("p");
        reveal_strlit("h2");
        reveal_strlit("h3");
        reveal_strlit("h4");
        reveal_strlit("type");
        reveal_strlit("text");
        let pv = p.deep_view();
        assert(tag@ =~= tag_chars(pv));
        assert(text@ == para_text(pv));
        assert("type"@ =~= key_type());
        assert("text"@ =~= key_text());
        match &r {
            Json::Obj(m) => {
                lemma_member_views(m@);
                assert(m@.len() == 2);
                assert(m@[0].0@ == key_type() && json_view(m@[0].1) == JsonV::Str(tag_chars(pv)));
                assert(m@[1].0@ == key_text() && json_view(m@[1].1) == JsonV::Str(para_text(pv)));
                assert(member_views(m@) =~= seq![
                    (key_type(), JsonV::Str(tag_chars(pv))),
                    (key_text(), JsonV::Str(para_text(pv))),
                ]);
            },
            _ => {},
        }
    }
    r
}

/// Serialize a text document to the exact text it is stored as.
pub fn store_note_content(note: &TextContent) -> (r: String)
    ensures
        r@ == spec_store_text(note.deep_view()),
{
    let mut items: Vec<Json> = Vec::new();
    let n = note.paragraphs.len();
    let mut i: usize = 0;
    while i < n
        invariant
            i <= n,
            n == note.paragraphs@.len(),
            items@.len() == i,
            forall|k: int|
                0 <= k < i ==> json_view(#[trigger] items@[k]) == para_json(
                    note.paragraphs@[k].deep_view(),
                ),
        decreases n - i,
    {
        items.push(para_to_json(&note.paragraphs[i]));
        i += 1;
    }
    let j = Json::Arr(items);
    proof {
        match &j {
            Json::Arr(v) => {
                lemma_json_views(v@);
                assert forall|k: int| 0 <= k < v@.len() implies json_views(v@)[k] == paras_json(
                    note.deep_view(),
                )[k] by {
                    assert(note.deep_view()[k] == note.paragraphs@[k].deep_view());
                    assert(json_view(v@[k]) == para_json(note.paragraphs@[k].deep_view()));
                }
                assert(json_views(v@) =~= paras_json(note.deep_view()));
            },
            _ => {},
        }
        assert(json_view(j) == text_json(note.deep_view()));
    }
    json_to_string(&j)
}

/// The paragraph a JSON element stands for, or nothing to skip it.
fn para_from_json(j: &Json) -> (r: Option<Paragraph>)
    ensures
        (match r {
            Some(p) => para_of_json(json_view(*j)) == Some(p.deep_view()),
            None => para_of_json(json_view(*j)) is None,
        }),
{
    proof {
        reveal_strlit("p");
        reveal_strlit("h2");
        reveal_strlit("h3");
        reveal_strlit("h4");
        reveal_strlit("type");
        reveal_strlit("text");
        reveal_strlit("null");
    }
    match j {
        Json::Obj(ms) => {
            let tkey = String::from_str("type");
            match j_get(ms, &tkey) {
                Some(Json::Str(tag)) => {
                    let xkey = String::from_str("text");
                    let text: String = match j_get(ms, &xkey) {
                        Some(x) => display_string(x),
                        None => {
                            proof {
                                assert(display_of(JsonV::Null) =~= "null"@);
                            }
                            String::from_str("null")
                        },
                    };
                    let tp = String::from_str("p");
                    let th2 = String::from_str("h2");
                    let th3 = String::from_str("h3");
                    let th4 = String::from_str("h4");
                    proof {
                        assert("p"@ =~= seq!['p']);
                        assert("h2"@ =~= seq!['h', '2']);
                        assert("h3"@ =~= seq!['h', '3']);
                        assert("h4"@ =~= seq!['h', '4']);
                        assert("type"@ =~= key_type());
                        assert("text"@ =~= key_text());
                    }
                    if *tag == tp {
                        Some(Paragraph::Text(text))
                    } else if *tag == th2 {
                        Some(Paragraph::H2(text))
                    } else if *tag == th3 {
                        Some(Paragraph::H3(text))
                    } else if *tag == th4 {
                        Some(Paragraph::H4(text))
                    } else {
                        None
                    }
                },
                _ => {
                    proof {
                        assert("type"@ =~= key_type());
                    }
                    None
                },
            }
        },
        _ => None,
    }
}

/// Parse a text document from the given text, by the store's tolerance
/// rules; nothing exactly when the text is not JSON or its root is not an
/// array.
pub fn load_text_content(body: &str) -> (r: Option<TextContent>)
    ensures
        (match r {
            Some(t) => spec_load_text(body@) == Some(t.deep_view()),
            None => spec_load_text(body@) is None,
        }),
{
    match parse_json_text(body) {
        None => None,
        Some(j) => match j {
            Json::Arr(items) => {
                let ghost views = json_views(items@);
                proof {
                    lemma_json_views(items@);
                }
                let mut ps: Vec<Paragraph> = Vec::new();
                let n = items.len();
                let mut i: usize = 0;
                while i < n
                    invariant
                        i <= n,
                        n == items@.len(),
                        views == json_views(items@),
                        views.len() == n,
                        forall|k: int|
                            0 <= k < n ==> views[k] == json_view(#[trigger] items@[k]),
                        ps.deep_view() =~= paras_of_json(views.take(i as int)),
                    decreases n - i,
                {
                    let ghost before = ps.deep_view();
                    match para_from_json(&items[i]) {
                        Some(p) => {
                            ps.push(p);
                        },
                        None => {},
                    }
                    proof {
                        assert(views.take(i + 1) =~= views.take(i as int) + seq![views[i as int]]);
                        lemma_paras_of_json_append(views.take(i as int), seq![views[i as int]]);
                        let one = seq![views[i as int]];
                        assert(one.drop_first() =~= Seq::<JsonV>::empty());
                        assert(paras_of_json(Seq::<JsonV>::empty()) == Seq::<ParagraphV>::empty());
                        match para_of_json(one[0]) {
                            Some(p) => {
                                assert(paras_of_json(one) =~= seq![p]);
                            },
                            None => {
                                assert(paras_of_json(one) =~= Seq::<ParagraphV>::empty());
                            },
                        }
                        assert(ps.deep_view() =~= paras_of_json(views.take(i + 1)));
                    }
                    i += 1;
                }
                proof {
                    assert(views.take(n as int) =~= views);
                }
                Some(TextContent { paragraphs: ps })
            },
            _ => None,
        },
    }
}

/// The member key `"columns"`.
pub open spec fn key_columns() -> Seq<char> {
    seq!['c', 'o', 'l', 'u', 'm', 'n', 's']
}

/// The member key `"cells"`.
pub open spec fn key_cells() -> Seq<char> {
    seq!['c', 'e', 'l', 'l', 's']
}

/// The member key `"id"`.
pub open spec fn key_id() -> Seq<char> {
    seq!['i', 'd']
}

/// The member key `"name"`.
pub open spec fn key_name() -> Seq<char> {
    seq!['n', 'a', 'm', 'e']
}

/// The member key `"unique"`.
pub open spec fn key_unique() -> Seq<char> {
    seq!['u', 'n', 'i', 'q', 'u', 'e']
}

/// The member key `"title"`.
pub open spec fn key_title() -> Seq<char> {
    seq!['t', 'i', 't', 'l', 'e']
}

/// The member key `"category"`.
pub open spec fn key_category() -> Seq<char> {
    seq!['c', 'a', 't', 'e', 'g', 'o', 'r', 'y']
}

/// The member key `"keywords"`.
pub open spec fn key_keywords() -> Seq<char> {
    seq!['k', 'e', 'y', 'w', 'o', 'r', 'd', 's']
}

/// The category tag written in a cover: `"text"` or `"table"`.
pub open spec fn cat_chars(c: Category) -> Seq<char> {
    match c {
        Category::Text => seq!['t', 'e', 'x', 't'],
        Category::Table => seq!['t', 'a', 'b', 'l', 'e'],
    }
}

/// The JSON image of one column.
pub open spec fn col_json(c: ColumnV) -> JsonV {
    JsonV::Obj(
        seq![
            (key_id(), JsonV::Str(spec_encode(c.id))),
            (key_name(), JsonV::Str(c.name)),
            (key_unique(), JsonV::Bool(c.unique)),
        ],
    )
}

/// The JSON images of a table's columns, in order.
pub open spec fn cols_json(cs: Seq<ColumnV>) -> Seq<JsonV> {
    Seq::new(cs.len(), |i: int| col_json(cs[i]))
}

/// The JSON image of one cell: its content, or `null` for an empty cell.
pub open spec fn cell_json(c: Option<Seq<char>>) -> JsonV {
    match c {
        Some(s) => JsonV::Str(s),
        None => JsonV::Null,
    }
}

/// The JSON images of a table's cells, in row-major order.
pub open spec fn cells_json(cs: Seq<Option<Seq<char>>>) -> Seq<JsonV> {
    Seq::new(cs.len(), |i: int| cell_json(cs[i]))
}

/// The JSON image of a table document.
pub open spec fn table_json(cols: Seq<ColumnV>, cells: Seq<Option<Seq<char>>>) -> JsonV {
    JsonV::Obj(
        seq![
            (key_columns(), JsonV::Arr(cols_json(cols))),
            (key_cells(), JsonV::Arr(cells_json(cells))),
        ],
    )
}

/// The exact text a table document is stored as.
pub open spec fn spec_store_table(cols: Seq<ColumnV>, cells: Seq<Option<Seq<char>>>) -> Seq<char> {
    ser_json(table_json(cols, cells))
}

/// The column a JSON element stands for: its identifier must decode from
/// the display form of the `"id"` member (else the whole load fails); a
/// missing or non-string name reads as empty, a missing or non-boolean
/// uniqueness flag as false.
pub open spec fn col_of_json(j: JsonV) -> Option<ColumnV> {
    match crate::id::spec_decode(display_of(j_index(j, key_id()))) {
        Some(idv) => Some(
            ColumnV {
                id: idv,
                name: match j_index(j, key_name()) {
                    JsonV::Str(s) => s,
                    _ => Seq::empty(),
                },
                unique: match j_index(j, key_unique()) {
                    JsonV::Bool(b) => b,
                    _ => false,
                },
            },
        ),
        None => None,
    }
}

/// The columns of an array of JSON elements; one bad identifier fails the
/// whole array.
pub open spec fn cols_of_json(items: Seq<JsonV>) -> Option<Seq<ColumnV>>
    decreases items.len(),
{
    if items.len() == 0 {
        Some(Seq::<ColumnV>::empty())
    } else {
        match col_of_json(items[0]) {
            Some(c) => match cols_of_json(items.drop_first()) {
                Some(rest) => Some(seq![c] + rest),
                None => None,
            },
            None => None,
        }
    }
}

/// The cell a JSON element stands for: content for a string, empty for
/// anything else.
pub open spec fn cell_of_json(j: JsonV) -> Option<Seq<char>> {
    match j {
        JsonV::Str(s) => Some(s),
        _ => None,
    }
}

/// The cells of an array of JSON elements.
pub open spec fn cells_of_json(items: Seq<JsonV>) -> Seq<Option<Seq<char>>> {
    Seq::new(items.len(), |i: int| cell_of_json(items[i]))
}

/// What loading a table document from the given text yields: nothing if
/// the text is not JSON or a column identifier is malformed; otherwise the
/// columns and cells, a missing or malformed array reading as empty.
/// Rectangularity is not validated here.
pub open spec fn spec_load_table(s: Seq<char>) -> Option<(Seq<ColumnV>, Seq<Option<Seq<char>>>)> {
    match parse_json(s) {
        Some(j) => {
            let cols = match j_index(j, key_columns()) {
                JsonV::Arr(items) => cols_of_json(items),
                _ => Some(Seq::<ColumnV>::empty()),
            };
            let cells = match j_index(j, key_cells()) {
                JsonV::Arr(items) => cells_of_json(items),
                _ => Seq::<Option<Seq<char>>>::empty(),
            };
            match cols {
                Some(cs) => Some((cs, cells)),
                None => None,
            }
        },
        None => None,
    }
}

/// The JSON images of a cover's keywords, in order.
pub open spec fn keywords_json(ks: Seq<Seq<char>>) -> Seq<JsonV> {
    Seq::new(ks.len(), |i: int| JsonV::Str(ks[i]))
}

/// The JSON image of a cover record.
pub open spec fn cover_json(d: FileDisplayV) -> JsonV {
    JsonV::Obj(
        seq![
            (key_title(), JsonV::Str(d.title)),
            (key_category(), JsonV::Str(cat_chars(d.category))),
            (key_keywords(), JsonV::Arr(keywords_json(d.keywords))),
        ],
    )
}

/// The exact text a cover record is stored as.
pub open spec fn spec_store_cover(d: FileDisplayV) -> Seq<char> {
    ser_json(cover_json(d))
}

/// The keywords of an array of JSON elements, each coerced to its display
/// form.
pub open spec fn keywords_of_json(items: Seq<JsonV>) -> Seq<Seq<char>> {
    Seq::new(items.len(), |i: int| display_of(items[i]))
}

/// What loading a cover record from the given text yields: nothing unless
/// the text is JSON with a string title and a recognized category tag; a
/// missing or malformed keywords array reads as empty.
pub open spec fn spec_load_cover(s: Seq<char>) -> Option<FileDisplayV> {
    match parse_json(s) {
        Some(j) => match j_index(j, key_title()) {
            JsonV::Str(title) => match j_index(j, key_category()) {
                JsonV::Str(cat) => {
                    let keywords = match j_index(j, key_keywords()) {
                        JsonV::Arr(items) => keywords_of_json(items),
                        _ => Seq::<Seq<char>>::empty(),
                    };
                    if cat == cat_chars(Category::Text) {
                        Some(FileDisplayV { title, category: Category::Text, keywords })
                    } else if cat == cat_chars(Category::Table) {
                        Some(FileDisplayV { title, category: Category::Table, keywords })
                    } else {
                        None
                    }
                },
                _ => None,
            },
            _ => None,
        },
        None => None,
    }
}

/// Reading the columns of a concatenation reads each part in turn, and
/// fails exactly when either part fails.
pub proof fn lemma_cols_of_json_append(a: Seq<JsonV>, b: Seq<JsonV>)
    ensures
        cols_of_json(a + b) == (match cols_of_json(a) {
            Some(x) => match cols_of_json(b) {
                Some(y) => Some(x + y),
                None => None::<Seq<ColumnV>>,
            },
            None => None::<Seq<ColumnV>>,
        }),
    decreases a.len(),
{
    if a.len() == 0 {
        assert(a + b =~= b);
        match cols_of_json(b) {
            Some(y) => {
                assert(Seq::<ColumnV>::empty() + y =~= y);
            },
            None => {},
        }
    } else {
        assert((a + b).drop_first() =~= a.drop_first() + b);
        lemma_cols_of_json_append(a.drop_first(), b);
        assert((a + b)[0] == a[0]);
        match col_of_json(a[0]) {
            Some(c) => {
                match (cols_of_json(a.drop_first()), cols_of_json(b)) {
                    (Some(x), Some(y)) => {
                        assert(seq![c] + (x + y) =~= (seq![c] + x) + y);
                    },
                    _ => {},
                }
            },
            None => {},
        }
    }
}

/// The member under `key` of any value: a member of an object, nothing
/// (reading as `null`) elsewhere.
fn j_index_exec<'a>(j: &'a Json, key: &String) -> (r: Option<&'a Json>)
    ensures
        (match r {
            Some(x) => j_index(json_view(*j), key@) == json_view(*x),
            None => j_index(json_view(*j), key@) == JsonV::Null,
        }),
{
    match j {
        Json::Obj(ms) => j_get(ms, key),
        _ => None,
    }
}

/// The display form of the member under `key`, a missing member reading as
/// the display form of `null`.
fn j_index_display(j: &Json, key: &String) -> (r: String)
    ensures
        r@ == display_of(j_index(json_view(*j), key@)),
{
    match j_index_exec(j, key) {
        Some(x) => display_string(x),
        None => {
            proof {
                reveal_strlit("null");
                assert(display_of(JsonV::Null) =~= "null"@);
            }
            String::from_str("null")
        },
    }
}

/// The JSON image of one column, built for writing.
fn col_to_json(c: &Column) -> (r: Json)
    ensures
        json_view(r) == col_json(c.deep_view()),
{
    let mut ms: Vec<(String, Json)> = Vec::new();
    ms.push((String::from_str("id"), Json::Str(c.id.to_string())));
    ms.push((String::from_str("name"), Json::Str(c.name.clone())));
    ms.push((String::from_str("unique"), Json::Bool(c.unique)));
    let r = Json::Obj(ms);
    proof {
        reveal_strlit("id");
        reveal_strlit("name");
        reveal_strlit("unique");
        assert("id"@ =~= key_id());
        assert("name"@ =~= key_name());
        assert("unique"@ =~= key_unique());
        let cv = c.deep_view();
        match &r {
            Json::Obj(m) => {
                lemma_member_views(m@);
                assert(m@.len() == 3);
                assert(m@[0].0@ == key_id() && json_view(m@[0].1) == JsonV::Str(spec_encode(cv.id)));
                assert(m@[1].0@ == key_name() && json_view(m@[1].1) == JsonV::Str(cv.name));
                assert(m@[2].0@ == key_unique() && json_view(m@[2].1) == JsonV::Bool(cv.unique));
                assert(member_views(m@) =~= seq![
                    (key_id(), JsonV::Str(spec_encode(cv.id))),
                    (key_name(), JsonV::Str(cv.name)),
                    (key_unique(), JsonV::Bool(cv.unique)),
                ]);
            },
            _ => {},
        }
    }
    r
}

/// Serialize a table document to the exact text it is stored as.
pub fn store_table_content(table: &TableContent) -> (r: String)
    ensures
        r@ == spec_store_table(table.columns.deep_view(), table.cells.deep_view()),
{
    let mut colitems: Vec<Json> = Vec::new();
    let ncols = table.columns.len();
    let mut i: usize = 0;
    while i < ncols
        invariant
            i <= ncols,
            ncols == table.columns@.len(),
            colitems@.len() == i,
            forall|k: int|
                0 <= k < i ==> json_view(#[trigger] colitems@[k]) == col_json(
                    table.columns@[k].deep_view(),
                ),
        decreases ncols - i,
    {
        colitems.push(col_to_json(&table.columns[i]));
        i += 1;
    }
    let mut cellitems: Vec<Json> = Vec::new();
    let ncells = table.cells.len();
    let mut k: usize = 0;
    while k < ncells
        invariant
            k <= ncells,
            ncells == table.cells@.len(),
            cellitems@.len() == k,
            forall|q: int|
                0 <= q < k ==> json_view(#[trigger] cellitems@[q]) == cell_json(
                    table.cells@[q].deep_view(),
                ),
        decreases ncells - k,
    {
        match &table.cells[k].content {
            Some(s) => cellitems.push(Json::Str(s.clone())),
            None => cellitems.push(Json::Null),
        }
        k += 1;
    }
    let mut ms: Vec<(String, Json)> = Vec::new();
    ms.push((String::from_str("columns"), Json::Arr(colitems)));
    ms.push((String::from_str("cells"), Json::Arr(cellitems)));
    let j = Json::Obj(ms);
    proof {
        reveal_strlit("columns");
        reveal_strlit("cells");
        assert("columns"@ =~= key_columns());
        assert("cells"@ =~= key_cells());
        let colsv = table.columns.deep_view();
        let cellsv = table.cells.deep_view();
        match &j {
            Json::Obj(m) => {
                lemma_member_views(m@);
                assert(m@.len() == 2);
                match &m@[0].1 {
                    Json::Arr(v) => {
                        lemma_json_views(v@);
                        assert forall|q: int| 0 <= q < v@.len() implies json_views(v@)[q]
                            == cols_json(colsv)[q] by {
                            assert(colsv[q] == table.columns@[q].deep_view());
                            assert(json_view(v@[q]) == col_json(table.columns@[q].deep_view()));
                        }
                        assert(json_views(v@) =~= cols_json(colsv));
                    },
                    _ => {
                        assert(false);
                    },
                }
                match &m@[1].1 {
                    Json::Arr(v) => {
                        lemma_json_views(v@);
                        assert forall|q: int| 0 <= q < v@.len() implies json_views(v@)[q]
                            == cells_json(cellsv)[q] by {
                            assert(cellsv[q] == table.cells@[q].deep_view());
                            assert(json_view(v@[q]) == cell_json(table.cells@[q].deep_view()));
                        }
                        assert(json_views(v@) =~= cells_json(cellsv));
                    },
                    _ => {
                        assert(false);
                    },
                }
                assert(member_views(m@) =~= seq![
                    (key_columns(), JsonV::Arr(cols_json(colsv))),
                    (key_cells(), JsonV::Arr(cells_json(cellsv))),
                ]);
            },
            _ => {},
        }
        assert(json_view(j) == table_json(colsv, cellsv));
    }
    json_to_string(&j)
}

/// The column a JSON element stands for, or nothing on a malformed
/// identifier.
fn col_from_json(j: &Json) -> (r: Option<Column>)
    ensures
        (match r {
            Some(c) => col_of_json(json_view(*j)) == Some(c.deep_view()),
            None => col_of_json(json_view(*j)) is None,
        }),
{
    proof {
        reveal_strlit("id");
        reveal_strlit("name");
        reveal_strlit("unique");
        assert("id"@ =~= key_id());
        assert("name"@ =~= key_name());
        assert("unique"@ =~= key_unique());
    }
    let idkey = String::from_str("id");
    let id_text = j_index_display(j, &idkey);
    match ColumnID::from_str(id_text.as_str()) {
        Ok(cid) => {
            let namekey = String::from_str("name");
            let name: String = match j_index_exec(j, &namekey) {
                Some(Json::Str(s)) => s.clone(),
                _ => String::new(),
            };
            let ukey = String::from_str("unique");
            let unique: bool = match j_index_exec(j, &ukey) {
                Some(Json::Bool(b)) => *b,
                _ => false,
            };
            Some(Column { id: cid, name, unique })
        },
        Err(_) => None,
    }
}

/// Parse a table document from the given text, by the store's tolerance
/// rules; nothing exactly when the text is not JSON or a column identifier
/// is malformed.
pub fn load_table_content(body: &str) -> (r: Option<TableContent>)
    ensures
        (match r {
            Some(t) => spec_load_table(body@) == Some(
                (t.columns.deep_view(), t.cells.deep_view()),
            ),
            None => spec_load_table(body@) is None,
        }),
{
    proof {
        reveal_strlit("columns");
        reveal_strlit("cells");
        assert("columns"@ =~= key_columns());
        assert("cells"@ =~= key_cells());
    }
    let j = match parse_json_text(body) {
        Some(j) => j,
        None => {
            return None;
        },
    };
    let ckey = String::from_str("columns");
    let mut columns: Vec<Column> = Vec::new();
    let colsj = j_index_exec(&j, &ckey);
    let mut cols_arr: Option<&Vec<Json>> = None;
    match colsj {
        Some(x) => match x {
            Json::Arr(items) => {
                proof {
                    assert(j_index(json_view(j), key_columns()) == JsonV::Arr(json_views(items@)));
                }
                cols_arr = Some(items);
            },
            _ => {
                proof {
                    assert(!(j_index(json_view(j), key_columns()) is Arr));
                }
            },
        },
        None => {
            proof {
                assert(j_index(json_view(j), key_columns()) == JsonV::Null);
            }
        },
    }
    match cols_arr {
        Some(items) => {
            let ghost views = json_views(items@);
            proof {
                lemma_json_views(items@);
            }
            let n = items.len();
            let mut i: usize = 0;
            while i < n
                invariant
                    i <= n,
                    n == items@.len(),
                    views == json_views(items@),
                    views.len() == n,
                    forall|k: int| 0 <= k < n ==> views[k] == json_view(#[trigger] items@[k]),
                    cols_of_json(views.take(i as int)) == Some(columns.deep_view()),
                    parse_json(body@) == Some(json_view(j)),
                    j_index(json_view(j), key_columns()) == JsonV::Arr(views),
                decreases n - i,
            {
                let ghost before = columns.deep_view();
                match col_from_json(&items[i]) {
                    Some(c) => {
                        columns.push(c);
                    },
                    None => {
                        proof {
                            assert(views =~= views.take(i as int) + views.skip(i as int));
                            lemma_cols_of_json_append(views.take(i as int), views.skip(i as int));
                            assert(views.skip(i as int)[0] == views[i as int]);
                            assert(cols_of_json(views.skip(i as int)) is None);
                            assert(cols_of_json(views) is None);
                            assert(j_index(json_view(j), key_columns()) == JsonV::Arr(views));
                            assert(spec_load_table(body@) is None);
                        }
                        return None;
                    },
                }
                proof {
                    assert(views.take(i + 1) =~= views.take(i as int) + seq![views[i as int]]);
                    lemma_cols_of_json_append(views.take(i as int), seq![views[i as int]]);
                    let one = seq![views[i as int]];
                    assert(one.drop_first() =~= Seq::<JsonV>::empty());
                    assert(cols_of_json(Seq::<JsonV>::empty()) == Some(Seq::<ColumnV>::empty()));
                    match col_of_json(one[0]) {
                        Some(c) => {
                            assert(cols_of_json(one) == Some(seq![c] + Seq::<ColumnV>::empty()));
                            assert(seq![c] + Seq::<ColumnV>::empty() =~= seq![c]);
                            assert(before + seq![c] =~= columns.deep_view());
                        },
                        None => {},
                    }
                    assert(cols_of_json(views.take(i + 1)) == Some(columns.deep_view()));
                }
                i += 1;
            }
            proof {
                assert(views.take(n as int) =~= views);
            }
        },
        _ => {
            proof {
                assert(columns.deep_view() =~= Seq::<ColumnV>::empty());
            }
        },
    }
    let cellkey = String::from_str("cells");
    let mut cells: Vec<TableCell> = Vec::new();
    match j_index_exec(&j, &cellkey) {
        Some(Json::Arr(items)) => {
            let ghost views = json_views(items@);
            proof {
                lemma_json_views(items@);
            }
            let n = items.len();
            let mut i: usize = 0;
            while i < n
                invariant
                    i <= n,
                    n == items@.len(),
                    views == json_views(items@),
                    views.len() == n,
                    forall|k: int| 0 <= k < n ==> views[k] == json_view(#[trigger] items@[k]),
                    cells.deep_view().len() == i,
                    forall|k: int|
                        0 <= k < i ==> #[trigger] cells.deep_view()[k] == cell_of_json(views[k]),
                decreases n - i,
            {
                let ghost before = cells.deep_view();
                let c: TableCell = match &items[i] {
                    Json::Str(s) => TableCell { content: Some(s.clone()) },
                    _ => TableCell { content: None },
                };
                proof {
                    assert(c.deep_view() == cell_of_json(views[i as int]));
                }
                cells.push(c);
                proof {
                    assert(cells.deep_view() =~= before.push(c.deep_view()));
                }
                i += 1;
            }
            proof {
                assert(cells.deep_view() =~= cells_of_json(views));
            }
        },
        _ => {
            proof {
                assert(cells.deep_view() =~= Seq::<Option<Seq<char>>>::empty());
            }
        },
    }
    Some(TableContent { columns, cells })
}

/// Serialize a cover record to the exact text it is stored as.
pub fn store_file_display(note: &FileDisplay) -> (r: String)
    ensures
        r@ == spec_store_cover(note.deep_view()),
{
    let mut kwitems: Vec<Json> = Vec::new();
    let nkw = note.keywords.len();
    let mut i: usize = 0;
    while i < nkw
        invariant
            i <= nkw,
            nkw == note.keywords@.len(),
            kwitems@.len() == i,
            forall|k: int|
                0 <= k < i ==> json_view(#[trigger] kwitems@[k]) == JsonV::Str(
                    note.keywords@[k]@,
                ),
        decreases nkw - i,
    {
        kwitems.push(Json::Str(note.keywords[i].clone()));
        i += 1;
    }
    let cat: String = match note.category {
        Category::Text => String::from_str("text"),
        Category::Table => String::from_str("table"),
    };
    let mut ms: Vec<(String, Json)> = Vec::new();
    ms.push((String::from_str("title"), Json::Str(note.title.clone())));
    ms.push((String::from_str("category"), Json::Str(cat)));
    ms.push((String::from_str("keywords"), Json::Arr(kwitems)));
    let j = Json::Obj(ms);
    proof {
        reveal_strlit("title");
        reveal_strlit("category");
        reveal_strlit("keywords");
        reveal_strlit("text");
        reveal_strlit("table");
        assert("title"@ =~= key_title());
        assert("category"@ =~= key_category());
        assert("keywords"@ =~= key_keywords());
        let dv = note.deep_view();
        assert("text"@ =~= cat_chars(Category::Text));
        assert("table"@ =~= cat_chars(Category::Table));
        match &j {
            Json::Obj(m) => {
                lemma_member_views(m@);
                assert(m@.len() == 3);
                match &m@[2].1 {
                    Json::Arr(v) => {
                        lemma_json_views(v@);
                        assert forall|q: int| 0 <= q < v@.len() implies json_views(v@)[q]
                            == keywords_json(dv.keywords)[q] by {
                            assert(dv.keywords[q] == note.keywords@[q]@);
                            assert(json_view(v@[q]) == JsonV::Str(note.keywords@[q]@));
                        }
                        assert(json_views(v@) =~= keywords_json(dv.keywords));
                    },
                    _ => {
                        assert(false);
                    },
                }
                assert(m@[0].0@ == key_title() && json_view(m@[0].1) == JsonV::Str(dv.title));
                assert(m@[1].0@ == key_category() && json_view(m@[1].1) == JsonV::Str(
                    cat_chars(dv.category),
                ));
                assert(m@[2].0@ == key_keywords());
                assert(member_views(m@) =~= seq![
                    (key_title(), JsonV::Str(dv.title)),
                    (key_category(), JsonV::Str(cat_chars(dv.category))),
                    (key_keywords(), JsonV::Arr(keywords_json(dv.keywords))),
                ]);
            },
            _ => {},
        }
        assert(json_view(j) == cover_json(dv));
    }
    json_to_string(&j)
}

/// Parse a cover record from the given text; nothing exactly when the text
/// is not JSON, the title is not a string, or the category tag is not
/// recognized.
pub fn load_file_display(body: &str) -> (r: Option<FileDisplay>)
    ensures
        (match r {
            Some(d) => spec_load_cover(body@) == Some(d.deep_view()),
            None => spec_load_cover(body@) is None,
        }),
{
    proof {
        reveal_strlit("title");
        reveal_strlit("category");
        reveal_strlit("keywords");
        reveal_strlit("text");
        reveal_strlit("table");
        assert("title"@ =~= key_title());
        assert("category"@ =~= key_category());
        assert("keywords"@ =~= key_keywords());
        assert("text"@ =~= cat_chars(Category::Text));
        assert("table"@ =~= cat_chars(Category::Table));
    }
    let j = match parse_json_text(body) {
        Some(j) => j,
        None => {
            return None;
        },
    };
    let tkey = String::from_str("title");
    let title: String = match j_index_exec(&j, &tkey) {
        Some(Json::Str(s)) => s.clone(),
        _ => {
            return None;
        },
    };
    let catkey = String::from_str("category");
    let cat: &String = match j_index_exec(&j, &catkey) {
        Some(Json::Str(s)) => s,
        _ => {
            return None;
        },
    };
    let text_tag = String::from_str("text");
    let table_tag = String::from_str("table");
    let category: Category = if *cat == text_tag {
        Category::Text
    } else if *cat == table_tag {
        Category::Table
    } else {
        return None;
    };
    let kkey = String::from_str("keywords");
    let mut keywords: Vec<String> = Vec::new();
    match j_index_exec(&j, &kkey) {
        Some(Json::Arr(items)) => {
            let ghost views = json_views(items@);
            proof {
                lemma_json_views(items@);
            }
            let n = items.len();
            let mut i: usize = 0;
            while i < n
                invariant
                    i <= n,
                    n == items@.len(),
                    views == json_views(items@),
                    views.len() == n,
                    forall|k: int| 0 <= k < n ==> views[k] == json_view(#[trigger] items@[k]),
                    keywords.deep_view().len() == i,
                    forall|k: int|
                        0 <= k < i ==> #[trigger] keywords.deep_view()[k] == display_of(views[k]),
                decreases n - i,
            {
                let ghost before = keywords.deep_view();
                let kw = display_string(&items[i]);
                proof {
                    assert(kw@ == display_of(views[i as int]));
                }
                keywords.push(kw);
                proof {
                    assert(keywords.deep_view() =~= before.push(kw@));
                }
                i += 1;
            }
            proof {
                assert(keywords.deep_view() =~= keywords_of_json(views));
            }
        },
        _ => {
            proof {
                assert(keywords.deep_view() =~= Seq::<Seq<char>>::empty());
            }
        },
    }
    Some(FileDisplay { title, category, keywords })
}

} // verus!
