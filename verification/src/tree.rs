//! The document tree: blocks that hold lines of inline spans.
//!
//! Every executable type has a mathematical counterpart (`InlineView`,
//! `BlockView`, `DocumentView`) built from `Seq`; the grammar and the renderer
//! are stated over those.

use vstd::prelude::*;

verus! {

/// An inline span as a mathematical value.
pub enum InlineView {
    /// A run of literal characters.
    Text(Seq<char>),
    /// Strong emphasis around nested spans.
    Bold(Seq<InlineView>),
    /// Emphasis around nested spans.
    Italic(Seq<InlineView>),
    /// A hyperlink; neither part is parsed any further.
    Link { text: Seq<char>, href: Seq<char> },
}

/// A block as a mathematical value.
pub enum BlockView {
    Header { level: int, content: Seq<InlineView> },
    ThematicBreak,
    OrderedList(Seq<Seq<InlineView>>),
    UnorderedList(Seq<Seq<InlineView>>),
    CodeBlock(Seq<Seq<char>>),
    Paragraph(Seq<Seq<InlineView>>),
}

/// A document as a mathematical value: its blocks in input order.
pub struct DocumentView {
    pub blocks: Seq<BlockView>,
}

impl BlockView {
    /// What holds of every block that the grammar yields: a header has a
    /// level from 1 to 6, a list has an item, a paragraph has a line, and no
    /// heading, item or line is without a span.
    pub open spec fn well_formed(self) -> bool {
        match self {
            BlockView::Header { level, content } => 1 <= level <= 6 && content.len() > 0,
            BlockView::ThematicBreak => true,
            BlockView::OrderedList(items) => items.len() > 0 && forall|i: int|
                0 <= i < items.len() ==> (#[trigger] items[i]).len() > 0,
            BlockView::UnorderedList(items) => items.len() > 0 && forall|i: int|
                0 <= i < items.len() ==> (#[trigger] items[i]).len() > 0,
            BlockView::CodeBlock(_) => true,
            BlockView::Paragraph(lines) => lines.len() > 0 && forall|i: int|
                0 <= i < lines.len() ==> (#[trigger] lines[i]).len() > 0,
        }
    }
}

impl DocumentView {
    /// Every block is well formed.
    pub open spec fn well_formed(self) -> bool {
        forall|i: int| 0 <= i < self.blocks.len() ==> (#[trigger] self.blocks[i]).well_formed()
    }
}

/// A text-level span inside a line.
#[derive(Debug, PartialEq, Eq)]
pub enum Inline {
    /// Literal text, emitted as it stands.
    Text(String),
    /// `**..**` or `__..__`.
    Bold(Vec<Inline>),
    /// `*..*` or `_.._`.
    Italic(Vec<Inline>),
    /// `[text](href)`.
    Link { text: String, href: String },
}

/// A top-level unit of a document.
#[derive(Debug, PartialEq, Eq)]
pub enum Block {
    /// A heading; `level` is the number of `#` that opened it.
    Header { level: u8, content: Vec<Inline> },
    /// A horizontal rule.
    ThematicBreak,
    /// A numbered list, one inline sequence per item.
    OrderedList(Vec<Vec<Inline>>),
    /// A bulleted list, one inline sequence per item.
    UnorderedList(Vec<Vec<Inline>>),
    /// A fenced code block, one string per raw line.
    CodeBlock(Vec<String>),
    /// A paragraph, one inline sequence per physical line.
    Paragraph(Vec<Vec<Inline>>),
}

/// A parsed document.
#[derive(Debug, PartialEq, Eq)]
pub struct Document {
    pub blocks: Vec<Block>,
}

/// The mathematical value of one span.
pub open spec fn inline_view(x: Inline) -> InlineView
    decreases x,
{
    match x {
        Inline::Text(t) => InlineView::Text(t@),
        Inline::Bold(items) => InlineView::Bold(inline_views(items@)),
        Inline::Italic(items) => InlineView::Italic(inline_views(items@)),
        Inline::Link { text, href } => InlineView::Link { text: text@, href: href@ },
    }
}

/// The mathematical values of a sequence of spans, in order.
pub open spec fn inline_views(s: Seq<Inline>) -> Seq<InlineView>
    decreases s,
{
    Seq::new(
        s.len(),
        |i: int|
            if 0 <= i < s.len() {
                inline_view(s[i])
            } else {
                arbitrary()
            },
    )
}

/// The mathematical values of a sequence of lines.
pub open spec fn line_views(s: Seq<Vec<Inline>>) -> Seq<Seq<InlineView>> {
    Seq::new(s.len(), |i: int| inline_views(s[i]@))
}

/// The characters of each of a sequence of strings.
pub open spec fn string_views(s: Seq<String>) -> Seq<Seq<char>> {
    Seq::new(s.len(), |i: int| s[i]@)
}

/// The mathematical value of one block.
pub open spec fn block_view(b: Block) -> BlockView {
    match b {
        Block::Header { level, content } => BlockView::Header {
            level: level as int,
            content: inline_views(content@),
        },
        Block::ThematicBreak => BlockView::ThematicBreak,
        Block::OrderedList(items) => BlockView::OrderedList(line_views(items@)),
        Block::UnorderedList(items) => BlockView::UnorderedList(line_views(items@)),
        Block::CodeBlock(lines) => BlockView::CodeBlock(string_views(lines@)),
        Block::Paragraph(lines) => BlockView::Paragraph(line_views(lines@)),
    }
}

/// The mathematical values of a sequence of blocks, in order.
pub open spec fn block_views(s: Seq<Block>) -> Seq<BlockView> {
    Seq::new(s.len(), |i: int| block_view(s[i]))
}

impl View for Inline {
    type V = InlineView;

    open spec fn view(&self) -> InlineView {
        inline_view(*self)
    }
}

impl View for Block {
    type V = BlockView;

    open spec fn view(&self) -> BlockView {
        block_view(*self)
    }
}

impl View for Document {
    type V = DocumentView;

    open spec fn view(&self) -> DocumentView {
        DocumentView { blocks: block_views(self.blocks@) }
    }
}

/// Appending a span appends its view.
pub proof fn lemma_inline_views_push(s: Seq<Inline>, x: Inline)
    ensures
        inline_views(s.push(x)) == inline_views(s).push(inline_view(x)),
{
    assert(inline_views(s.push(x)) =~= inline_views(s).push(inline_view(x)));
}

/// Appending a line appends its view.
pub proof fn lemma_line_views_push(s: Seq<Vec<Inline>>, x: Vec<Inline>)
    ensures
        line_views(s.push(x)) == line_views(s).push(inline_views(x@)),
{
    assert(line_views(s.push(x)) =~= line_views(s).push(inline_views(x@)));
}

/// Appending a string appends its characters.
pub proof fn lemma_string_views_push(s: Seq<String>, x: String)
    ensures
        string_views(s.push(x)) == string_views(s).push(x@),
{
    assert(string_views(s.push(x)) =~= string_views(s).push(x@));
}

/// Appending a block appends its view.
pub proof fn lemma_block_views_push(s: Seq<Block>, x: Block)
    ensures
        block_views(s.push(x)) == block_views(s).push(block_view(x)),
{
    assert(block_views(s.push(x)) =~= block_views(s).push(block_view(x)));
}

} // verus!
