//! The content round-trip laws: loading what was stored yields the same
//! document, for text documents, table documents and cover records.

use vstd::prelude::*;
use crate::json::{JsonV, wf_json};
use crate::json_round::lemma_json_round_trip;
use crate::id::lemma_identifier_round_trip;
use crate::text::ParagraphV;
use crate::column::ColumnV;
use crate::data::{Category, FileDisplayV};
use crate::store::{
    key_type, key_text, key_id, key_name, key_unique, key_columns, key_cells, key_title,
    key_category, key_keywords, tag_chars, para_text, para_json, paras_json, text_json,
    spec_store_text, spec_load_text, obj_get, display_of, para_of_json, paras_of_json,
    col_json, cols_json, cell_json, cells_json, table_json, spec_store_table, spec_load_table,
    col_of_json, cols_of_json, cell_of_json, cells_of_json, cat_chars, keywords_json, cover_json,
    spec_store_cover, spec_load_cover, keywords_of_json,
};

verus! {

/// Reading back the JSON image of one paragraph yields the paragraph.
proof fn lemma_para_inverse(p: ParagraphV)
    ensures
        para_of_json(para_json(p)) == Some(p),
{
    let j = para_json(p);
    match j {
        JsonV::Obj(ms) => {
            assert(ms[0].0 == key_type());
            assert(obj_get(ms, key_type()) == JsonV::Str(tag_chars(p)));
            assert(key_type() != key_text()) by {
                assert(key_type()[1] == 'y' && key_text()[1] == 'e');
            }
            assert(ms.drop_first()[0] == ms[1]);
            assert(obj_get(ms, key_text()) == obj_get(ms.drop_first(), key_text()));
            assert(obj_get(ms.drop_first(), key_text()) == ms.drop_first()[0].1);
            assert(obj_get(ms, key_text()) == JsonV::Str(para_text(p)));
            assert(display_of(JsonV::Str(para_text(p))) == para_text(p));
            let tag = tag_chars(p);
            match p {
                ParagraphV::Text(t) => {
                    assert(tag == seq!['p']);
                },
                ParagraphV::H2(t) => {
                    assert(tag != seq!['p']) by {
                        assert(tag.len() == 2);
                    }
                    assert(tag == seq!['h', '2']);
                },
                ParagraphV::H3(t) => {
                    assert(tag != seq!['p']) by {
                        assert(tag.len() == 2);
                    }
                    assert(tag != seq!['h', '2']) by {
                        assert(tag[1] == '3');
                        assert(seq!['h', '2'][1] == '2');
                    }
                    assert(tag == seq!['h', '3']);
                },
                ParagraphV::H4(t) => {
                    assert(tag != seq!['p']) by {
                        assert(tag.len() == 2);
                    }
                    assert(tag != seq!['h', '2']) by {
                        assert(tag[1] == '4');
                        assert(seq!['h', '2'][1] == '2');
                    }
                    assert(tag != seq!['h', '3']) by {
                        assert(tag[1] == '4');
                        assert(seq!['h', '3'][1] == '3');
                    }
                    assert(tag == seq!['h', '4']);
                },
            }
        },
        _ => {},
    }
}

/// The JSON image of one paragraph is well formed.
proof fn lemma_para_json_wf(p: ParagraphV)
    ensures
        wf_json(para_json(p)),
{
    match para_json(p) {
        JsonV::Obj(ms) => {
            assert forall|i: int| 0 <= i < ms.len() implies wf_json(#[trigger] ms[i].1) by {
                assert(ms[0].1 == JsonV::Str(tag_chars(p)));
                assert(ms[1].1 == JsonV::Str(para_text(p)));
                if i == 0 {
                    assert(ms[i].1 == JsonV::Str(tag_chars(p)));
                } else {
                    assert(ms[i].1 == JsonV::Str(para_text(p)));
                }
            }
        },
        _ => {},
    }
}

/// Reading back the JSON images of a paragraph sequence yields the
/// sequence.
proof fn lemma_paras_inverse(ps: Seq<ParagraphV>)
    ensures
        paras_of_json(paras_json(ps)) == ps,
    decreases ps.len(),
{
    let pj = paras_json(ps);
    if ps.len() == 0 {
        assert(pj.len() == 0);
        assert(paras_of_json(pj) =~= ps);
    } else {
        lemma_para_inverse(ps[0]);
        lemma_paras_inverse(ps.drop_first());
        assert(pj[0] == para_json(ps[0]));
        assert(pj.drop_first() =~= paras_json(ps.drop_first()));
        assert(paras_of_json(pj) == seq![ps[0]] + paras_of_json(paras_json(ps.drop_first())));
        assert(seq![ps[0]] + ps.drop_first() =~= ps);
    }
}

/// Law: text content round-trip. Loading the stored form of any text
/// document yields exactly that document, paragraph variants and order
/// preserved.
pub proof fn lemma_text_round_trip(ps: Seq<ParagraphV>)
    ensures
        spec_load_text(spec_store_text(ps)) == Some(ps),
{
    let j = text_json(ps);
    assert(wf_json(j)) by {
        match j {
            JsonV::Arr(items) => {
                assert forall|i: int| 0 <= i < items.len() implies wf_json(
                    #[trigger] items[i],
                ) by {
                    assert(items[i] == para_json(ps[i]));
                    lemma_para_json_wf(ps[i]);
                }
            },
            _ => {},
        }
    }
    lemma_json_round_trip(j);
    lemma_paras_inverse(ps);
}

/// Reading back the JSON image of one column yields the column.
proof fn lemma_col_inverse(c: ColumnV)
    ensures
        col_of_json(col_json(c)) == Some(c),
{
    let j = col_json(c);
    match j {
        JsonV::Obj(ms) => {
            assert(ms[0].0 == key_id());
            assert(obj_get(ms, key_id()) == JsonV::Str(crate::id::spec_encode(c.id)));
            lemma_identifier_round_trip(c.id, Seq::<char>::empty());
            assert(key_id() != key_name()) by {
                assert(key_id().len() == 2 && key_name().len() == 4);
            }
            assert(ms.drop_first()[0] == ms[1]);
            assert(obj_get(ms, key_name()) == obj_get(ms.drop_first(), key_name()));
            assert(obj_get(ms.drop_first(), key_name()) == ms.drop_first()[0].1);
            assert(obj_get(ms, key_name()) == JsonV::Str(c.name));
            assert(key_id() != key_unique()) by {
                assert(key_id().len() == 2 && key_unique().len() == 6);
            }
            assert(key_name() != key_unique()) by {
                assert(key_name().len() == 4 && key_unique().len() == 6);
            }
            assert(ms.drop_first().drop_first()[0] == ms[2]);
            assert(obj_get(ms, key_unique()) == obj_get(ms.drop_first(), key_unique()));
            assert(ms.drop_first()[0].0 == key_name());
            assert(obj_get(ms.drop_first(), key_unique()) == obj_get(
                ms.drop_first().drop_first(),
                key_unique(),
            ));
            assert(obj_get(ms.drop_first().drop_first(), key_unique())
                == ms.drop_first().drop_first()[0].1);
            assert(obj_get(ms, key_unique()) == JsonV::Bool(c.unique));
        },
        _ => {},
    }
}

/// Reading back the JSON images of a column sequence yields the sequence.
proof fn lemma_cols_inverse(cs: Seq<ColumnV>)
    ensures
        cols_of_json(cols_json(cs)) == Some(cs),
    decreases cs.len(),
{
    let cj = cols_json(cs);
    if cs.len() == 0 {
        assert(cj.len() == 0);
        assert(cols_of_json(cj) == Some(Seq::<ColumnV>::empty()));
        assert(Seq::<ColumnV>::empty() =~= cs);
    } else {
        lemma_col_inverse(cs[0]);
        lemma_cols_inverse(cs.drop_first());
        assert(cj[0] == col_json(cs[0]));
        assert(cj.drop_first() =~= cols_json(cs.drop_first()));
        assert(cols_of_json(cj) == Some(seq![cs[0]] + cs.drop_first()));
        assert(seq![cs[0]] + cs.drop_first() =~= cs);
    }
}

/// Law: table content round-trip. Loading the stored form of any table
/// document yields exactly its columns and cells, empty cells included.
#[verifier::rlimit(50)]
pub proof fn lemma_table_round_trip(cols: Seq<ColumnV>, cells: Seq<Option<Seq<char>>>)
    ensures
        spec_load_table(spec_store_table(cols, cells)) == Some((cols, cells)),
{
    let j = table_json(cols, cells);
    assert(wf_json(j)) by {
        match j {
            JsonV::Obj(ms) => {
                assert forall|i: int| 0 <= i < ms.len() implies wf_json(#[trigger] ms[i].1) by {
                    if i == 0 {
                        assert(ms[i].1 == JsonV::Arr(cols_json(cols)));
                        match ms[i].1 {
                            JsonV::Arr(items) => {
                                assert forall|k: int| 0 <= k < items.len() implies wf_json(
                                    #[trigger] items[k],
                                ) by {
                                    assert(items[k] == col_json(cols[k]));
                                    match col_json(cols[k]) {
                                        JsonV::Obj(cms) => {
                                            assert forall|q: int|
                                                0 <= q < cms.len() implies wf_json(
                                                #[trigger] cms[q].1,
                                            ) by {
                                                if q == 0 {
                                                    assert(cms[q].1 == JsonV::Str(
                                                        crate::id::spec_encode(cols[k].id),
                                                    ));
                                                } else if q == 1 {
                                                    assert(cms[q].1 == JsonV::Str(cols[k].name));
                                                } else {
                                                    assert(cms[q].1 == JsonV::Bool(
                                                        cols[k].unique,
                                                    ));
                                                }
                                            }
                                        },
                                        _ => {},
                                    }
                                }
                            },
                            _ => {},
                        }
                    } else {
                        assert(ms[i].1 == JsonV::Arr(cells_json(cells)));
                        match ms[i].1 {
                            JsonV::Arr(items) => {
                                assert forall|k: int| 0 <= k < items.len() implies wf_json(
                                    #[trigger] items[k],
                                ) by {
                                    assert(items[k] == cell_json(cells[k]));
                                }
                            },
                            _ => {},
                        }
                    }
                }
            },
            _ => {},
        }
    }
    lemma_json_round_trip(j);
    match j {
        JsonV::Obj(ms) => {
            assert(ms[0].0 == key_columns());
            assert(obj_get(ms, key_columns()) == JsonV::Arr(cols_json(cols)));
            assert(key_columns() != key_cells()) by {
                assert(key_columns().len() == 7 && key_cells().len() == 5);
            }
            assert(ms.drop_first()[0] == ms[1]);
            assert(obj_get(ms, key_cells()) == obj_get(ms.drop_first(), key_cells()));
            assert(obj_get(ms.drop_first(), key_cells()) == ms.drop_first()[0].1);
            assert(obj_get(ms, key_cells()) == JsonV::Arr(cells_json(cells)));
        },
        _ => {},
    }
    lemma_cols_inverse(cols);
    assert(cells_of_json(cells_json(cells)) =~= cells);
}

/// Law: cover record round-trip. Loading the stored form of any cover
/// record yields exactly that record.
#[verifier::rlimit(50)]
pub proof fn lemma_cover_round_trip(d: FileDisplayV)
    ensures
        spec_load_cover(spec_store_cover(d)) == Some(d),
{
    let j = cover_json(d);
    assert(wf_json(j)) by {
        match j {
            JsonV::Obj(ms) => {
                assert forall|i: int| 0 <= i < ms.len() implies wf_json(#[trigger] ms[i].1) by {
                    if i == 0 {
                        assert(ms[i].1 == JsonV::Str(d.title));
                    } else if i == 1 {
                        assert(ms[i].1 == JsonV::Str(cat_chars(d.category)));
                    } else {
                        assert(ms[i].1 == JsonV::Arr(keywords_json(d.keywords)));
                        match ms[i].1 {
                            JsonV::Arr(items) => {
                                assert forall|k: int| 0 <= k < items.len() implies wf_json(
                                    #[trigger] items[k],
                                ) by {
                                    assert(items[k] == JsonV::Str(d.keywords[k]));
                                }
                            },
                            _ => {},
                        }
                    }
                }
            },
            _ => {},
        }
    }
    lemma_json_round_trip(j);
    match j {
        JsonV::Obj(ms) => {
            assert(ms[0].0 == key_title());
            assert(obj_get(ms, key_title()) == JsonV::Str(d.title));
            assert(key_title() != key_category()) by {
                assert(key_title().len() == 5 && key_category().len() == 8);
            }
            assert(key_title() != key_keywords()) by {
                assert(key_title().len() == 5 && key_keywords().len() == 8);
            }
            assert(key_category() != key_keywords()) by {
                assert(key_category()[0] == 'c' && key_keywords()[0] == 'k');
            }
            assert(ms.drop_first()[0] == ms[1]);
            assert(obj_get(ms, key_category()) == obj_get(ms.drop_first(), key_category()));
            assert(obj_get(ms.drop_first(), key_category()) == ms.drop_first()[0].1);
            assert(obj_get(ms, key_category()) == JsonV::Str(cat_chars(d.category)));
            assert(ms.drop_first().drop_first()[0] == ms[2]);
            assert(obj_get(ms, key_keywords()) == obj_get(ms.drop_first(), key_keywords()));
            assert(ms.drop_first()[0].0 == key_category());
            assert(obj_get(ms.drop_first(), key_keywords()) == obj_get(
                ms.drop_first().drop_first(),
                key_keywords(),
            ));
            assert(obj_get(ms.drop_first().drop_first(), key_keywords())
                == ms.drop_first().drop_first()[0].1);
            assert(obj_get(ms, key_keywords()) == JsonV::Arr(keywords_json(d.keywords)));
        },
        _ => {},
    }
    assert(keywords_of_json(keywords_json(d.keywords)) =~= d.keywords);
    match d.category {
        Category::Text => {
            assert(cat_chars(d.category) == cat_chars(Category::Text));
        },
        Category::Table => {
            assert(cat_chars(d.category) != cat_chars(Category::Text)) by {
                assert(cat_chars(Category::Table).len() == 5 && cat_chars(
                    Category::Text,
                ).len() == 4);
            }
        },
    }
    assert(spec_load_cover(spec_store_cover(d)) matches Some(e) && e == d) by {
        match spec_load_cover(spec_store_cover(d)) {
            Some(e) => {
                assert(e.title == d.title && e.category == d.category && e.keywords == d.keywords);
            },
            None => {
                assert(false);
            },
        }
    }
}

/// Law: default-creation idempotence. The body that the registry persists
/// for a freshly created table file (the empty table) loads back as
/// exactly that empty table, so a second content access returns an equal
/// value and writes nothing further; the same holds for the empty text
/// document.
pub proof fn lemma_default_content_idempotent()
    ensures
        spec_load_table(
            spec_store_table(Seq::<ColumnV>::empty(), Seq::<Option<Seq<char>>>::empty()),
        ) == Some((Seq::<ColumnV>::empty(), Seq::<Option<Seq<char>>>::empty())),
        spec_load_text(spec_store_text(Seq::<ParagraphV>::empty())) == Some(
            Seq::<ParagraphV>::empty(),
        ),
{
    lemma_table_round_trip(Seq::<ColumnV>::empty(), Seq::<Option<Seq<char>>>::empty());
    lemma_text_round_trip(Seq::<ParagraphV>::empty());
}

} // verus!
