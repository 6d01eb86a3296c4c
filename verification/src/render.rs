//! The renderer: one rule per kind of node, applied depth first and in input
//! order. Nothing is escaped; text, code, link texts and hrefs are emitted as
//! they stand.

use vstd::prelude::*;
use crate::digits::{decimal, push_decimal};
use crate::tree::{
    block_view, block_views, inline_view, inline_views, line_views, string_views, Block,
    BlockView, Document, DocumentView, Inline, InlineView,
};

verus! {

broadcast use vstd::seq_lib::lemma_seq_skip_of_skip;

/// The HTML of one span.
pub open spec fn render_inline(v: InlineView) -> Seq<char>
    decreases v,
{
    match v {
        InlineView::Text(t) => t,
        InlineView::Bold(items) => "<strong>"@ + render_inlines(items) + "</strong>"@,
        InlineView::Italic(items) => "<em>"@ + render_inlines(items) + "</em>"@,
        InlineView::Link { text, href } => "<a href=\""@ + href + "\">"@ + text + "</a>"@,
    }
}

/// The HTML of a sequence of spans: that of each, in order.
pub open spec fn render_inlines(items: Seq<InlineView>) -> Seq<char>
    decreases items,
{
    if items.len() == 0 {
        Seq::empty()
    } else {
        render_inline(items[0]) + render_inlines(items.skip(1))
    }
}

/// The HTML of a sequence of lines, each between `open` and `close`.
pub open spec fn render_lines(
    lines: Seq<Seq<InlineView>>,
    open: Seq<char>,
    close: Seq<char>,
) -> Seq<char>
    decreases lines.len(),
{
    if lines.len() == 0 {
        Seq::empty()
    } else {
        open + render_inlines(lines[0]) + close + render_lines(lines.skip(1), open, close)
    }
}

/// Raw lines, each followed by a line feed.
pub open spec fn render_code_lines(lines: Seq<Seq<char>>) -> Seq<char>
    decreases lines.len(),
{
    if lines.len() == 0 {
        Seq::empty()
    } else {
        lines[0] + "\n"@ + render_code_lines(lines.skip(1))
    }
}

/// The HTML of one block, with its trailing line feed.
pub open spec fn render_block(b: BlockView) -> Seq<char> {
    match b {
        BlockView::Header { level, content } => "<h"@ + decimal(level) + ">"@ + render_inlines(
            content,
        ) + "</h"@ + decimal(level) + ">\n"@,
        BlockView::ThematicBreak => "<hr/>\n"@,
        BlockView::OrderedList(items) => "<ol>\n"@ + render_lines(items, "<li>"@, "</li>\n"@)
            + "</ol>\n"@,
        BlockView::UnorderedList(items) => "<ul>\n"@ + render_lines(items, "<li>"@, "</li>\n"@)
            + "</ul>\n"@,
        BlockView::CodeBlock(lines) => "<pre><code>\n"@ + render_code_lines(lines)
            + "</code></pre>\n"@,
        BlockView::Paragraph(lines) => render_lines(lines, "<p>"@, "</p>\n"@),
    }
}

/// The HTML of a sequence of blocks: that of each, in order.
pub open spec fn render_blocks(bs: Seq<BlockView>) -> Seq<char>
    decreases bs.len(),
{
    if bs.len() == 0 {
        Seq::empty()
    } else {
        render_block(bs[0]) + render_blocks(bs.skip(1))
    }
}

/// The HTML of a document.
pub open spec fn render_document(d: DocumentView) -> Seq<char> {
    render_blocks(d.blocks)
}

/// Appends the HTML of one span to `out`.
pub fn push_inline(node: &Inline, out: &mut String)
    ensures
        final(out)@ == old(out)@ + render_inline(inline_view(*node)),
    decreases node,
{
    match node {
        Inline::Text(t) => {
            out.append(t.as_str());
        },
        Inline::Bold(items) => {
            out.append("<strong>");
            push_inlines(items, out);
            out.append("</strong>");
            assert(out@ =~= old(out)@ + render_inline(inline_view(*node)));
        },
        Inline::Italic(items) => {
            out.append("<em>");
            push_inlines(items, out);
            out.append("</em>");
            assert(out@ =~= old(out)@ + render_inline(inline_view(*node)));
        },
        Inline::Link { text, href } => {
            out.append("<a href=\"");
            out.append(href.as_str());
            out.append("\">");
            out.append(text.as_str());
            out.append("</a>");
            assert(out@ =~= old(out)@ + render_inline(inline_view(*node)));
        },
    }
}

/// Appends the HTML of a sequence of spans to `out`.
pub fn push_inlines(items: &Vec<Inline>, out: &mut String)
    ensures
        final(out)@ == old(out)@ + render_inlines(inline_views(items@)),
    decreases items,
{
    let ghost views = inline_views(items@);
    let ghost start = out@;
    let mut i: usize = 0;
    while i < items.len()
        invariant
            i <= items.len(),
            views == inline_views(items@),
            out@ + render_inlines(views.skip(i as int)) == start + render_inlines(views),
        decreases items.len() - i,
    {
        let ghost before = out@;
        push_inline(&items[i], out);
        proof {
            let here = views.skip(i as int);
            assert(here[0] == inline_view(items@[i as int]));
            assert(before + (render_inline(here[0]) + render_inlines(here.skip(1))) =~= (before
                + render_inline(here[0])) + render_inlines(here.skip(1)));
        }
        i += 1;
    }
    assert(out@ + Seq::<char>::empty() =~= out@);
}

/// Appends the HTML of a sequence of lines to `out`, each between `open` and
/// `close`.
pub fn push_lines(lines: &Vec<Vec<Inline>>, open: &str, close: &str, out: &mut String)
    ensures
        final(out)@ == old(out)@ + render_lines(line_views(lines@), open@, close@),
{
    let ghost views = line_views(lines@);
    let ghost start = out@;
    let mut i: usize = 0;
    while i < lines.len()
        invariant
            i <= lines.len(),
            views == line_views(lines@),
            out@ + render_lines(views.skip(i as int), open@, close@) == start + render_lines(
                views,
                open@,
                close@,
            ),
        decreases lines.len() - i,
    {
        let ghost before = out@;
        out.append(open);
        push_inlines(&lines[i], out);
        out.append(close);
        proof {
            let here = views.skip(i as int);
            assert(here[0] == inline_views(lines@[i as int]@));
            assert(before + (open@ + render_inlines(here[0]) + close@ + render_lines(
                here.skip(1),
                open@,
                close@,
            )) =~= (before + open@ + render_inlines(here[0]) + close@) + render_lines(
                here.skip(1),
                open@,
                close@,
            ));
        }
        i += 1;
    }
    assert(out@ + Seq::<char>::empty() =~= out@);
}

/// Appends raw lines to `out`, each followed by a line feed.
pub fn push_code_lines(lines: &Vec<String>, out: &mut String)
    ensures
        final(out)@ == old(out)@ + render_code_lines(string_views(lines@)),
{
    let ghost views = string_views(lines@);
    let ghost start = out@;
    let mut i: usize = 0;
    while i < lines.len()
        invariant
            i <= lines.len(),
            views == string_views(lines@),
            out@ + render_code_lines(views.skip(i as int)) == start + render_code_lines(views),
        decreases lines.len() - i,
    {
        let ghost before = out@;
        out.append(lines[i].as_str());
        out.append("\n");
        proof {
            let here = views.skip(i as int);
            assert(here[0] == lines@[i as int]@);
            assert(before + (here[0] + "\n"@ + render_code_lines(here.skip(1))) =~= (before
                + here[0] + "\n"@) + render_code_lines(here.skip(1)));
        }
        i += 1;
    }
    assert(out@ + Seq::<char>::empty() =~= out@);
}

/// Appends the HTML of one block to `out`.
pub fn push_block(b: &Block, out: &mut String)
    ensures
        final(out)@ == old(out)@ + render_block(block_view(*b)),
{
    match b {
        Block::Header { level, content } => {
            out.append("<h");
            push_decimal(out, *level as usize);
            out.append(">");
            push_inlines(content, out);
            out.append("</h");
            push_decimal(out, *level as usize);
            out.append(">\n");
        },
        Block::ThematicBreak => {
            out.append("<hr/>\n");
        },
        Block::OrderedList(items) => {
            out.append("<ol>\n");
            push_lines(items, "<li>", "</li>\n", out);
            out.append("</ol>\n");
        },
        Block::UnorderedList(items) => {
            out.append("<ul>\n");
            push_lines(items, "<li>", "</li>\n", out);
            out.append("</ul>\n");
        },
        Block::CodeBlock(lines) => {
            out.append("<pre><code>\n");
            push_code_lines(lines, out);
            out.append("</code></pre>\n");
        },
        Block::Paragraph(lines) => {
            push_lines(lines, "<p>", "</p>\n", out);
        },
    }
    assert(out@ =~= old(out)@ + render_block(block_view(*b)));
}

/// Renders a document to HTML. Total: every document has a rendering.
pub fn render(doc: &Document) -> (html: String)
    ensures
        html@ == render_document(doc@),
{
    let mut out = String::new();
    let ghost views = block_views(doc.blocks@);
    let mut i: usize = 0;
    while i < doc.blocks.len()
        invariant
            i <= doc.blocks.len(),
            views == block_views(doc.blocks@),
            out@ + render_blocks(views.skip(i as int)) == render_blocks(views),
        decreases doc.blocks.len() - i,
    {
        let ghost before = out@;
        push_block(&doc.blocks[i], &mut out);
        proof {
            let here = views.skip(i as int);
            assert(here[0] == block_view(doc.blocks@[i as int]));
            assert(before + (render_block(here[0]) + render_blocks(here.skip(1))) =~= (before
                + render_block(here[0])) + render_blocks(here.skip(1)));
        }
        i += 1;
    }
    assert(out@ + Seq::<char>::empty() =~= out@);
    out
}

} // verus!
