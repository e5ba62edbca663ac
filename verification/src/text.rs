//! The text document schema: an ordered sequence of paragraphs.

use vstd::prelude::*;

verus! {

/// One paragraph of a text document: plain text or one of three heading
/// levels, each carrying its text.
#[derive(Debug, Clone)]
pub enum Paragraph {
    Text(String),
    H2(String),
    H3(String),
    H4(String),
}

/// The mathematical value of a [`Paragraph`]: the same tag over the
/// character sequence of its text.
pub enum ParagraphV {
    Text(Seq<char>),
    H2(Seq<char>),
    H3(Seq<char>),
    H4(Seq<char>),
}

impl DeepView for Paragraph {
    type V = ParagraphV;

    open spec fn deep_view(&self) -> ParagraphV {
        match self {
            Paragraph::Text(s) => ParagraphV::Text(s@),
            Paragraph::H2(s) => ParagraphV::H2(s@),
            Paragraph::H3(s) => ParagraphV::H3(s@),
            Paragraph::H4(s) => ParagraphV::H4(s@),
        }
    }
}

/// A text document: its paragraphs in order. Order is significant and is
/// preserved exactly by serialization and parsing.
#[derive(Debug, Clone)]
pub struct TextContent {
    pub paragraphs: Vec<Paragraph>,
}

impl DeepView for TextContent {
    type V = Seq<ParagraphV>;

    open spec fn deep_view(&self) -> Seq<ParagraphV> {
        self.paragraphs.deep_view()
    }
}

impl Default for TextContent {
    /// The default text document has no paragraphs.
    fn default() -> (r: TextContent)
        ensures
            r.deep_view() == Seq::<ParagraphV>::empty(),
    {
        let r = TextContent { paragraphs: Vec::new() };
        assert(r.deep_view() =~= Seq::<ParagraphV>::empty());
        r
    }
}

} // verus!
