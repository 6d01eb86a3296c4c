//! Laws of the converter: statements about whole families of inputs, proved
//! from the grammar and the rendering rules.

use vstd::prelude::*;
use crate::bounds::{lemma_blank_lines_bounds, lemma_list_bounds};
use crate::convert::conversion;
use crate::digits::decimal;
use crate::grammar::{
    blank_line_len, blank_lines_len, block, blocks, bold, closing_fence, code_block, code_lines,
    digits_len, document, fence, header, inline_span, inline_spans, is_bullet, is_digit,
    is_marker, is_rule_char, is_space, italic, item_marker_len, line, line_end, link, list,
    list_item, list_items, newline_len, paragraph_line, paragraph_lines, raw_line_len, run_len,
    special_block, text_len, thematic_break, Rule,
};
use crate::render::{
    render_block, render_blocks, render_document, render_inline, render_inlines, render_lines,
};
use crate::tree::{BlockView, Document, DocumentView, InlineView};

verus! {

broadcast use vstd::seq_lib::lemma_seq_skip_of_skip;

/// Plain text: no line break and nothing that opens a link or an emphasis.
pub open spec fn is_plain(t: Seq<char>) -> bool {
    forall|i: int| 0 <= i < t.len() ==> t[i] != '\n' && t[i] != '\r' && !is_marker(#[trigger] t[i])
}

/// The text of a list item: plain and not empty.
pub open spec fn is_item_text(t: Seq<char>) -> bool {
    t.len() > 0 && is_plain(t)
}

/// `n` times the character `c`.
pub open spec fn repeated(c: char, n: int) -> Seq<char> {
    Seq::new(n as nat, |i: int| c)
}

/// `n` times the character `#`.
pub open spec fn hashes(n: int) -> Seq<char> {
    repeated('#', n)
}

/// A line of `n` hashes, a blank and the text `t`.
pub open spec fn header_line(n: int, t: Seq<char>) -> Seq<char> {
    hashes(n) + seq![' '] + t
}

/// One line per item: a bullet, a blank, the text of the item and a line
/// feed.
pub open spec fn bullet_lines(bullets: Seq<char>, items: Seq<Seq<char>>) -> Seq<char>
    decreases items.len(),
{
    if items.len() == 0 {
        Seq::empty()
    } else {
        seq![bullets[0], ' '] + items[0] + seq!['\n'] + bullet_lines(
            bullets.skip(1),
            items.skip(1),
        )
    }
}

/// Each text as the one span of a line.
pub open spec fn text_lines(items: Seq<Seq<char>>) -> Seq<Seq<InlineView>> {
    Seq::new(items.len(), |i: int| seq![InlineView::Text(items[i])])
}

/// Each text between `open` and `close`, one after the other.
pub open spec fn elements(items: Seq<Seq<char>>, open: Seq<char>, close: Seq<char>) -> Seq<char>
    decreases items.len(),
{
    if items.len() == 0 {
        Seq::empty()
    } else {
        open + items[0] + close + elements(items.skip(1), open, close)
    }
}

/// One line per item: digits, a full stop, a blank, the text of the item
/// and a line feed.
pub open spec fn numbered_lines(numbers: Seq<Seq<char>>, items: Seq<Seq<char>>) -> Seq<char>
    decreases items.len(),
{
    if items.len() == 0 {
        Seq::empty()
    } else {
        numbers[0] + seq!['.', ' '] + items[0] + seq!['\n'] + numbered_lines(
            numbers.skip(1),
            items.skip(1),
        )
    }
}

/// One or more decimal digits.
pub open spec fn is_number(d: Seq<char>) -> bool {
    d.len() > 0 && forall|i: int| 0 <= i < d.len() ==> is_digit(#[trigger] d[i])
}

/// Each text and a line feed, one after the other.
pub open spec fn joined_lines(lines: Seq<Seq<char>>) -> Seq<char>
    decreases lines.len(),
{
    if lines.len() == 0 {
        Seq::empty()
    } else {
        lines[0] + seq!['\n'] + joined_lines(lines.skip(1))
    }
}

/// Plain text that can stand as a line of a paragraph: it is not empty and
/// its first character is no blank and opens no special block.
pub open spec fn is_paragraph_text(t: Seq<char>) -> bool {
    &&& t.len() > 0
    &&& is_plain(t)
    &&& !is_space(t[0])
    &&& !is_digit(t[0])
    &&& t[0] != '#' && t[0] != '-' && t[0] != '+' && t[0] != '`'
}

/// Whether a line begins at `k`: at the start of the text or behind a line
/// feed.
pub open spec fn line_begins(s: Seq<char>, k: int) -> bool {
    k == 0 || (0 < k <= s.len() && s[k - 1] == '\n')
}

// ---------------------------------------------------------------------------
// Building blocks
// ---------------------------------------------------------------------------

/// Nothing matches the empty input, and a document may be empty.
pub proof fn lemma_empty_input()
    ensures
        blank_lines_len(Seq::<char>::empty()) == 0,
        block(Seq::<char>::empty()) is None,
        blocks(Seq::<char>::empty()) == (Seq::<BlockView>::empty(), 0int),
        document(Seq::<char>::empty()) == Ok::<DocumentView, (Rule, int)>(
            DocumentView { blocks: Seq::empty() },
        ),
{
    reveal(block);
    let e = Seq::<char>::empty();
    assert(e.skip(0) =~= e);
}

/// Whether plain text ends where `rest` begins: at the end of the input, at
/// a line break or at a marker.
pub open spec fn ends_text(rest: Seq<char>) -> bool {
    rest.len() == 0 || newline_len(rest) > 0 || is_marker(rest[0])
}

/// Plain text is read as text up to where it ends.
proof fn lemma_plain_text_len(t: Seq<char>, rest: Seq<char>)
    requires
        is_plain(t),
        ends_text(rest),
    ensures
        text_len(t + rest) == t.len(),
    decreases t.len(),
{
    let s = t + rest;
    if t.len() == 0 {
        assert(s =~= rest);
    } else {
        assert(s[0] == t[0]);
        assert(s.skip(1) =~= t.skip(1) + rest);
        lemma_plain_text_len(t.skip(1), rest);
    }
}

/// Plain text is one text span.
pub proof fn lemma_plain_span(t: Seq<char>, rest: Seq<char>)
    requires
        is_plain(t),
        t.len() > 0,
        ends_text(rest),
    ensures
        inline_span(t + rest) == Some((InlineView::Text(t), t.len() as int)),
{
    let s = t + rest;
    lemma_plain_text_len(t, rest);
    assert(s[0] == t[0]);
    assert(s.take(t.len() as int) =~= t);
}

/// A sequence of spans that begins with plain text begins with one text
/// span and goes on behind it.
proof fn lemma_plain_span_first(t: Seq<char>, rest: Seq<char>)
    requires
        is_plain(t),
        t.len() > 0,
        ends_text(rest),
    ensures
        inline_spans(t + rest) == (
            seq![InlineView::Text(t)] + inline_spans(rest).0,
            t.len() + inline_spans(rest).1,
        ),
{
    let s = t + rest;
    lemma_plain_span(t, rest);
    assert(s.skip(t.len() as int) =~= rest);
}

/// A line of plain text is one text span.
pub proof fn lemma_plain_line(t: Seq<char>, rest: Seq<char>)
    requires
        is_plain(t),
        t.len() > 0,
        line_end(rest) is Some,
    ensures
        inline_spans(t + rest) == (seq![InlineView::Text(t)], t.len() as int),
        line(t + rest) == Some((seq![InlineView::Text(t)], t.len() + line_end(rest).unwrap())),
{
    let s = t + rest;
    lemma_plain_span_first(t, rest);
    assert(s.skip(t.len() as int) =~= rest);
    assert(inline_span(rest) is None);
    assert(inline_spans(rest) == (Seq::<InlineView>::empty(), 0int));
    assert(seq![InlineView::Text(t)] + Seq::<InlineView>::empty() =~= seq![InlineView::Text(t)]);
}

/// A run of `n` times `c` before anything else is `n` long.
proof fn lemma_repeated_run(c: char, n: int, tail: Seq<char>)
    requires
        0 <= n,
        tail.len() == 0 || tail[0] != c,
    ensures
        run_len(repeated(c, n) + tail, c) == n,
    decreases n,
{
    let s = repeated(c, n) + tail;
    if n == 0 {
        assert(s =~= tail);
    } else {
        assert(s[0] == c);
        assert(s.skip(1) =~= repeated(c, n - 1) + tail);
        lemma_repeated_run(c, n - 1, tail);
    }
}

/// A text that one block matches from its first to its last character is a
/// document of that block.
pub proof fn lemma_single_block(s: Seq<char>, b: BlockView)
    requires
        s.len() > 0,
        blank_line_len(s) == 0,
        block(s) == Some((b, s.len() as int)),
    ensures
        document(s) == Ok::<DocumentView, (Rule, int)>(DocumentView { blocks: seq![b] }),
{
    lemma_empty_input();
    assert(s.skip(0) =~= s);
    assert(s.skip(s.len() as int) =~= Seq::<char>::empty());
    assert(blocks(s) == (seq![b] + Seq::<BlockView>::empty(), s.len() as int));
    assert(seq![b] + Seq::<BlockView>::empty() =~= seq![b]);
}

/// No special block begins with a character that is no hash, no digit, no
/// bullet, no rule character and no backtick.
proof fn lemma_no_special_block(s: Seq<char>)
    requires
        s.len() > 0,
        s[0] == '#' ==> run_len(s, '#') > 6,
        s[0] != '-' && s[0] != '*' && s[0] != '_' && s[0] != '+' && s[0] != '`',
        !is_digit(s[0]),
    ensures
        special_block(s) is None,
{
    assert(list_item(s, true) is None);
    assert(list_item(s, false) is None);
}

/// A text that is one line of content, and at which no special block, no
/// fence and no blank line begins, is a paragraph of that line.
proof fn lemma_single_line_paragraph(s: Seq<char>, content: Seq<InlineView>)
    requires
        s.len() > 0,
        special_block(s) is None,
        !fence(s),
        blank_line_len(s) == 0,
        line(s) == Some((content, s.len() as int)),
    ensures
        block(s) == Some((BlockView::Paragraph(seq![content]), s.len() as int)),
{
    reveal(block);
    let e = Seq::<char>::empty();
    assert(paragraph_line(s) == Some((content, s.len() as int)));
    assert(s.skip(s.len() as int) =~= e);
    assert(paragraph_line(e) is None);
    assert(paragraph_lines(e) == (Seq::<Seq<InlineView>>::empty(), 0int));
    assert(seq![content] + Seq::<Seq<InlineView>>::empty() =~= seq![content]);
    assert(paragraph_lines(s) == (seq![content], s.len() as int));
}

// ---------------------------------------------------------------------------
// Rendering is a function of the tree
// ---------------------------------------------------------------------------

/// Two trees with the same content have the same rendering: the HTML of a
/// document depends on nothing but the document.
pub proof fn lemma_render_deterministic(a: Document, b: Document)
    requires
        a@ == b@,
    ensures
        render_document(a@) == render_document(b@),
{
}

// ---------------------------------------------------------------------------
// Header levels
// ---------------------------------------------------------------------------

/// One to six hashes, a blank and a line of content are a header of that
/// level with that content, whatever spans the content holds; the header
/// renders as an `<h1>` to `<h6>` element around the content.
pub proof fn lemma_header_of_content(n: int, c: Seq<char>, content: Seq<InlineView>)
    requires
        1 <= n <= 6,
        line(c) == Some((content, c.len() as int)),
    ensures
        document(header_line(n, c)) == Ok::<DocumentView, (Rule, int)>(
            DocumentView { blocks: seq![BlockView::Header { level: n, content }] },
        ),
        conversion(header_line(n, c)) == Ok::<Seq<char>, Seq<char>>(
            "<h"@ + decimal(n) + ">"@ + render_inlines(content) + "</h"@ + decimal(n) + ">\n"@,
        ),
{
    let s = header_line(n, c);
    assert(s =~= hashes(n) + (seq![' '] + c));
    lemma_repeated_run('#', n, seq![' '] + c);
    assert(s[0] == '#');
    assert(blank_line_len(s) == 0);
    assert(s[n] == ' ');
    assert(s.skip(n + 1) =~= c);
    let b = BlockView::Header { level: n, content };
    assert(header(s) == Some((b, s.len() as int)));
    assert(block(s) == Some((b, s.len() as int))) by {
        reveal(block);
    }
    lemma_single_block(s, b);
    lemma_render_single_block(b);
}

/// One to six hashes, a blank and plain text are a header of that level.
/// Seven or more hashes are no header: the whole line is a paragraph of
/// literal text.
pub proof fn lemma_header_level(n: int, t: Seq<char>)
    requires
        1 <= n,
        t.len() > 0,
        is_plain(t),
    ensures
        n <= 6 ==> document(header_line(n, t)) == Ok::<DocumentView, (Rule, int)>(
            DocumentView {
                blocks: seq![BlockView::Header { level: n, content: seq![InlineView::Text(t)] }],
            },
        ),
        n >= 7 ==> document(header_line(n, t)) == Ok::<DocumentView, (Rule, int)>(
            DocumentView {
                blocks: seq![
                    BlockView::Paragraph(seq![seq![InlineView::Text(header_line(n, t))]]),
                ],
            },
        ),
{
    let s = header_line(n, t);
    let e = Seq::<char>::empty();
    assert(s =~= hashes(n) + (seq![' '] + t));
    lemma_repeated_run('#', n, seq![' '] + t);
    assert(s[0] == '#');
    assert(blank_line_len(s) == 0);
    if n <= 6 {
        assert(t =~= t + e);
        lemma_plain_line(t, e);
        lemma_header_of_content(n, t, seq![InlineView::Text(t)]);
    } else {
        assert(is_plain(s));
        assert(s =~= s + e);
        lemma_plain_line(s, e);
        lemma_no_special_block(s);
        let content = seq![InlineView::Text(s)];
        lemma_single_line_paragraph(s, content);
        lemma_single_block(s, BlockView::Paragraph(seq![content]));
    }
}

// ---------------------------------------------------------------------------
// List wrapping
// ---------------------------------------------------------------------------

/// Whether each of `lines` is a list item where it stands in their
/// concatenation: the item rule matches at its start, takes exactly the
/// line, and yields the spans `nodes[i]`.
pub open spec fn are_list_items(
    lines: Seq<Seq<char>>,
    nodes: Seq<Seq<InlineView>>,
    ordered: bool,
) -> bool {
    &&& lines.len() == nodes.len()
    &&& forall|i: int|
        0 <= i < lines.len() ==> list_item(concat(lines.skip(i)), ordered) == Some(
            (#[trigger] nodes[i], lines[i].len() as int),
        )
}

/// The texts one after the other.
pub open spec fn concat(lines: Seq<Seq<char>>) -> Seq<char>
    decreases lines.len(),
{
    if lines.len() == 0 {
        Seq::empty()
    } else {
        lines[0] + concat(lines.skip(1))
    }
}

/// Lines that are list items where they stand are the items of the run,
/// one per line and in order.
proof fn lemma_lines_are_items(lines: Seq<Seq<char>>, nodes: Seq<Seq<InlineView>>, ordered: bool)
    requires
        are_list_items(lines, nodes, ordered),
    ensures
        list_items(concat(lines), ordered) == (nodes, concat(lines).len() as int),
    decreases lines.len(),
{
    let s = concat(lines);
    if lines.len() == 0 {
        assert(nodes =~= Seq::<Seq<InlineView>>::empty());
    } else {
        let rest = lines.skip(1);
        assert(lines.skip(0) =~= lines);
        assert(list_item(s, ordered) == Some((nodes[0], lines[0].len() as int)));
        lemma_list_bounds(s, ordered);
        assert(s.skip(lines[0].len() as int) =~= concat(rest));
        assert forall|i: int| 0 <= i < rest.len() implies list_item(
            concat(rest.skip(i)),
            ordered,
        ) == Some((#[trigger] nodes.skip(1)[i], rest[i].len() as int)) by {
            assert(rest.skip(i) =~= lines.skip(i + 1));
            assert(nodes.skip(1)[i] == nodes[i + 1]);
        }
        lemma_lines_are_items(rest, nodes.skip(1), ordered);
        assert(seq![nodes[0]] + nodes.skip(1) =~= nodes);
    }
}

/// Where a list item begins, no header and no thematic break begins, and
/// the line is not blank.
proof fn lemma_item_opens_list_only(s: Seq<char>, ordered: bool)
    requires
        list_item(s, ordered) is Some,
    ensures
        blank_line_len(s) == 0,
        header(s) is None,
        thematic_break(s) is None,
        !ordered ==> list(s, true) is None,
{
    if ordered {
        assert(is_digit(s[0]));
    } else {
        assert(is_bullet(s[0]) && is_space(s[1]));
        assert(thematic_break(s) is None) by {
            assert(s.skip(1)[0] == s[1]);
            assert(run_len(s.skip(1), s[0]) == 0);
            assert(run_len(s, s[0]) <= 1);
        }
        assert(list_item(s, true) is None);
    }
}

/// A run of lines that each are a list item where they stand is one list
/// with one item per line, in input order. For an unordered list it does not
/// matter which of `-`, `*` and `+` each line begins with, for an ordered
/// one not which digits. The list renders as one `<ul>` or `<ol>` element
/// with one `<li>` element per line.
pub proof fn lemma_list_of_lines(
    lines: Seq<Seq<char>>,
    nodes: Seq<Seq<InlineView>>,
    ordered: bool,
)
    requires
        lines.len() > 0,
        are_list_items(lines, nodes, ordered),
    ensures
        !ordered ==> document(concat(lines)) == Ok::<DocumentView, (Rule, int)>(
            DocumentView { blocks: seq![BlockView::UnorderedList(nodes)] },
        ) && conversion(concat(lines)) == Ok::<Seq<char>, Seq<char>>(
            "<ul>\n"@ + render_lines(nodes, "<li>"@, "</li>\n"@) + "</ul>\n"@,
        ),
        ordered ==> document(concat(lines)) == Ok::<DocumentView, (Rule, int)>(
            DocumentView { blocks: seq![BlockView::OrderedList(nodes)] },
        ) && conversion(concat(lines)) == Ok::<Seq<char>, Seq<char>>(
            "<ol>\n"@ + render_lines(nodes, "<li>"@, "</li>\n"@) + "</ol>\n"@,
        ),
{
    let s = concat(lines);
    assert(lines.skip(0) =~= lines);
    assert(list_item(s, ordered) == Some((nodes[0], lines[0].len() as int)));
    lemma_list_bounds(s, ordered);
    lemma_lines_are_items(lines, nodes, ordered);
    lemma_item_opens_list_only(s, ordered);
    let b = if ordered {
        BlockView::OrderedList(nodes)
    } else {
        BlockView::UnorderedList(nodes)
    };
    assert(list(s, ordered) == Some((b, s.len() as int)));
    assert(block(s) == Some((b, s.len() as int))) by {
        reveal(block);
    }
    lemma_single_block(s, b);
    lemma_render_single_block(b);
}

/// Lines of bullet, blank and plain text are list items, one per line and in
/// order, whatever bullet each line has.
proof fn lemma_bullet_lines_items(bullets: Seq<char>, items: Seq<Seq<char>>)
    requires
        bullets.len() == items.len(),
        forall|i: int| 0 <= i < bullets.len() ==> is_bullet(#[trigger] bullets[i]),
        forall|i: int| 0 <= i < items.len() ==> is_item_text(#[trigger] items[i]),
    ensures
        list_items(bullet_lines(bullets, items), false) == (
            text_lines(items),
            bullet_lines(bullets, items).len() as int,
        ),
    decreases items.len(),
{
    let s = bullet_lines(bullets, items);
    if items.len() == 0 {
        assert(text_lines(items) =~= Seq::<Seq<InlineView>>::empty());
    } else {
        let t = items[0];
        let tail = bullet_lines(bullets.skip(1), items.skip(1));
        let rest = seq!['\n'] + tail;
        assert(s =~= seq![bullets[0], ' '] + (t + rest));
        assert(is_bullet(bullets[0]));
        assert(s.skip(2) =~= t + rest);
        assert(line_end(rest) == Some(1int));
        lemma_plain_line(t, rest);
        let content = seq![InlineView::Text(t)];
        assert(list_item(s, false) == Some((content, 3 + t.len() as int)));
        assert(s.skip(3 + t.len() as int) =~= tail);
        assert forall|i: int| 0 <= i < bullets.skip(1).len() implies is_bullet(
            #[trigger] bullets.skip(1)[i],
        ) by {
            assert(bullets.skip(1)[i] == bullets[i + 1]);
        }
        assert forall|i: int| 0 <= i < items.skip(1).len() implies is_item_text(
            #[trigger] items.skip(1)[i],
        ) by {
            assert(items.skip(1)[i] == items[i + 1]);
        }
        lemma_bullet_lines_items(bullets.skip(1), items.skip(1));
        assert(seq![content] + text_lines(items.skip(1)) =~= text_lines(items));
    }
}

/// A line that holds one text span renders as that text.
proof fn lemma_render_text_line(t: Seq<char>)
    ensures
        render_inlines(seq![InlineView::Text(t)]) == t,
{
    let first = seq![InlineView::Text(t)];
    assert(first[0] == InlineView::Text(t));
    assert(render_inline(first[0]) == t);
    assert(first.skip(1) =~= Seq::<InlineView>::empty());
    assert(render_inlines(first.skip(1)) == Seq::<char>::empty());
    assert(render_inlines(first) == render_inline(first[0]) + render_inlines(first.skip(1)));
    assert(t + Seq::<char>::empty() =~= t);
}

/// Lines that each hold one text span render as one element each.
proof fn lemma_render_text_lines(items: Seq<Seq<char>>, open: Seq<char>, close: Seq<char>)
    ensures
        render_lines(text_lines(items), open, close) == elements(items, open, close),
    decreases items.len(),
{
    let lines = text_lines(items);
    if items.len() > 0 {
        assert(lines[0] == seq![InlineView::Text(items[0])]);
        lemma_render_text_line(items[0]);
        assert(lines.skip(1) =~= text_lines(items.skip(1)));
        lemma_render_text_lines(items.skip(1), open, close);
    }
}

/// A document of one block renders as that block.
proof fn lemma_render_single_block(b: BlockView)
    ensures
        render_document(DocumentView { blocks: seq![b] }) == render_block(b),
{
    assert(seq![b][0] == b);
    assert(seq![b].skip(1) =~= Seq::<BlockView>::empty());
    assert(render_blocks(seq![b].skip(1)) == Seq::<char>::empty());
    assert(render_blocks(seq![b]) == render_block(b) + render_blocks(seq![b].skip(1)));
    assert(render_block(b) + Seq::<char>::empty() =~= render_block(b));
}

/// Where a bullet and a blank open the text, the only block that can begin
/// there is an unordered list.
proof fn lemma_bullet_opens_list_only(s: Seq<char>)
    requires
        s.len() >= 2,
        is_bullet(s[0]),
        s[1] == ' ',
    ensures
        blank_line_len(s) == 0,
        list(s, false) is Some ==> block(s) == list(s, false),
{
    reveal(block);
    assert(header(s) is None);
    assert(thematic_break(s) is None) by {
        assert(s.skip(1)[0] == ' ');
        assert(run_len(s.skip(1), s[0]) == 0);
        assert(run_len(s, s[0]) <= 1);
    }
    assert(list_item(s, true) is None);
    assert(list(s, true) is None);
}

/// A run of lines that each hold a bullet, a blank and plain text is one
/// unordered list with one item per line, in input order, whichever of `-`,
/// `*` and `+` each line begins with; it renders as one `<ul>` element with
/// one `<li>` element per line.
pub proof fn lemma_list_wrapping(bullets: Seq<char>, items: Seq<Seq<char>>)
    requires
        items.len() > 0,
        bullets.len() == items.len(),
        forall|i: int| 0 <= i < bullets.len() ==> is_bullet(#[trigger] bullets[i]),
        forall|i: int| 0 <= i < items.len() ==> is_item_text(#[trigger] items[i]),
    ensures
        document(bullet_lines(bullets, items)) == Ok::<DocumentView, (Rule, int)>(
            DocumentView { blocks: seq![BlockView::UnorderedList(text_lines(items))] },
        ),
        conversion(bullet_lines(bullets, items)) == Ok::<Seq<char>, Seq<char>>(
            "<ul>\n"@ + elements(items, "<li>"@, "</li>\n"@) + "</ul>\n"@,
        ),
{
    let s = bullet_lines(bullets, items);
    let tail = bullet_lines(bullets.skip(1), items.skip(1));
    assert(s =~= seq![bullets[0], ' '] + (items[0] + (seq!['\n'] + tail)));
    assert(is_bullet(bullets[0]));
    assert(s[0] == bullets[0] && s[1] == ' ');
    lemma_bullet_lines_items(bullets, items);
    let b = BlockView::UnorderedList(text_lines(items));
    assert(text_lines(items).len() > 0);
    assert(list(s, false) == Some((b, s.len() as int)));
    lemma_bullet_opens_list_only(s);
    lemma_single_block(s, b);
    lemma_render_single_block(b);
    lemma_render_text_lines(items, "<li>"@, "</li>\n"@);
}

/// A run of digits before anything else is as long as it is.
proof fn lemma_digits_run(d: Seq<char>, tail: Seq<char>)
    requires
        forall|i: int| 0 <= i < d.len() ==> is_digit(#[trigger] d[i]),
        tail.len() == 0 || !is_digit(tail[0]),
    ensures
        digits_len(d + tail) == d.len(),
    decreases d.len(),
{
    let s = d + tail;
    if d.len() == 0 {
        assert(s =~= tail);
    } else {
        assert(s[0] == d[0]);
        assert(s.skip(1) =~= d.skip(1) + tail);
        assert forall|i: int| 0 <= i < d.skip(1).len() implies is_digit(
            #[trigger] d.skip(1)[i],
        ) by {
            assert(d.skip(1)[i] == d[i + 1]);
        }
        lemma_digits_run(d.skip(1), tail);
    }
}

/// Lines of digits, full stop, blank and plain text are list items, one per
/// line and in order, whatever the digits are.
proof fn lemma_numbered_lines_items(numbers: Seq<Seq<char>>, items: Seq<Seq<char>>)
    requires
        numbers.len() == items.len(),
        forall|i: int| 0 <= i < numbers.len() ==> is_number(#[trigger] numbers[i]),
        forall|i: int| 0 <= i < items.len() ==> is_item_text(#[trigger] items[i]),
    ensures
        list_items(numbered_lines(numbers, items), true) == (
            text_lines(items),
            numbered_lines(numbers, items).len() as int,
        ),
    decreases items.len(),
{
    let s = numbered_lines(numbers, items);
    if items.len() == 0 {
        assert(text_lines(items) =~= Seq::<Seq<InlineView>>::empty());
    } else {
        let d = numbers[0];
        let t = items[0];
        let tail = numbered_lines(numbers.skip(1), items.skip(1));
        let rest = seq!['\n'] + tail;
        let behind = seq!['.', ' '] + (t + rest);
        assert(is_number(d));
        assert(s =~= d + behind);
        lemma_digits_run(d, behind);
        let m = (d.len() + 2) as int;
        assert(s[m - 2] == '.' && s[m - 1] == ' ');
        assert(item_marker_len(s, true) == m);
        assert(s.skip(m) =~= t + rest);
        assert(line_end(rest) == Some(1int));
        lemma_plain_line(t, rest);
        let content = seq![InlineView::Text(t)];
        assert(list_item(s, true) == Some((content, m + t.len() + 1)));
        assert(s.skip(m + t.len() + 1) =~= tail);
        assert forall|i: int| 0 <= i < numbers.skip(1).len() implies is_number(
            #[trigger] numbers.skip(1)[i],
        ) by {
            assert(numbers.skip(1)[i] == numbers[i + 1]);
        }
        assert forall|i: int| 0 <= i < items.skip(1).len() implies is_item_text(
            #[trigger] items.skip(1)[i],
        ) by {
            assert(items.skip(1)[i] == items[i + 1]);
        }
        lemma_numbered_lines_items(numbers.skip(1), items.skip(1));
        assert(seq![content] + text_lines(items.skip(1)) =~= text_lines(items));
    }
}

/// A run of lines that each hold digits, a full stop, a blank and plain text
/// is one ordered list with one item per line, in input order. The digits
/// are not read as numbers: the list renders as one `<ol>` element with one
/// `<li>` element per line, whatever they are.
pub proof fn lemma_ordered_list_wrapping(numbers: Seq<Seq<char>>, items: Seq<Seq<char>>)
    requires
        items.len() > 0,
        numbers.len() == items.len(),
        forall|i: int| 0 <= i < numbers.len() ==> is_number(#[trigger] numbers[i]),
        forall|i: int| 0 <= i < items.len() ==> is_item_text(#[trigger] items[i]),
    ensures
        document(numbered_lines(numbers, items)) == Ok::<DocumentView, (Rule, int)>(
            DocumentView { blocks: seq![BlockView::OrderedList(text_lines(items))] },
        ),
        conversion(numbered_lines(numbers, items)) == Ok::<Seq<char>, Seq<char>>(
            "<ol>\n"@ + elements(items, "<li>"@, "</li>\n"@) + "</ol>\n"@,
        ),
{
    let s = numbered_lines(numbers, items);
    let d = numbers[0];
    let tail = numbered_lines(numbers.skip(1), items.skip(1));
    assert(is_number(d));
    assert(s =~= d + (seq!['.', ' '] + (items[0] + (seq!['\n'] + tail))));
    assert(s[0] == d[0]);
    lemma_numbered_lines_items(numbers, items);
    let b = BlockView::OrderedList(text_lines(items));
    assert(text_lines(items).len() > 0);
    assert(list(s, true) == Some((b, s.len() as int)));
    assert(block(s) == Some((b, s.len() as int)) && blank_line_len(s) == 0) by {
        reveal(block);
        assert(header(s) is None);
        assert(thematic_break(s) is None);
    }
    lemma_single_block(s, b);
    lemma_render_single_block(b);
    lemma_render_text_lines(items, "<li>"@, "</li>\n"@);
}

// ---------------------------------------------------------------------------
// Thematic breaks and paragraphs
// ---------------------------------------------------------------------------

/// A line of three or more of one of `-`, `*` and `_` is a thematic break,
/// never text.
pub proof fn lemma_thematic_break(c: char, n: int)
    requires
        is_rule_char(c),
        n >= 3,
    ensures
        document(repeated(c, n)) == Ok::<DocumentView, (Rule, int)>(
            DocumentView { blocks: seq![BlockView::ThematicBreak] },
        ),
        conversion(repeated(c, n)) == Ok::<Seq<char>, Seq<char>>("<hr/>\n"@),
{
    let s = repeated(c, n);
    let e = Seq::<char>::empty();
    assert(s =~= s + e);
    lemma_repeated_run(c, n, e);
    assert(s[0] == c);
    assert(s.skip(n) =~= e);
    let b = BlockView::ThematicBreak;
    assert(thematic_break(s) == Some((b, n)));
    assert(block(s) == Some((b, s.len() as int)) && blank_line_len(s) == 0) by {
        reveal(block);
        assert(header(s) is None);
    }
    lemma_single_block(s, b);
    lemma_render_single_block(b);
}

/// Lines of paragraph text are paragraph lines, one per line and in order.
proof fn lemma_joined_lines_paragraph(lines: Seq<Seq<char>>)
    requires
        forall|i: int| 0 <= i < lines.len() ==> is_paragraph_text(#[trigger] lines[i]),
    ensures
        paragraph_lines(joined_lines(lines)) == (
            text_lines(lines),
            joined_lines(lines).len() as int,
        ),
    decreases lines.len(),
{
    let s = joined_lines(lines);
    if lines.len() == 0 {
        assert(text_lines(lines) =~= Seq::<Seq<InlineView>>::empty());
        assert(paragraph_line(s) is None);
    } else {
        let t = lines[0];
        let tail = joined_lines(lines.skip(1));
        let rest = seq!['\n'] + tail;
        assert(is_paragraph_text(t));
        assert(s =~= t + rest);
        assert(s[0] == t[0]);
        assert(line_end(rest) == Some(1int));
        lemma_plain_line(t, rest);
        lemma_no_special_block(s);
        let content = seq![InlineView::Text(t)];
        assert(paragraph_line(s) == Some((content, (t.len() + 1) as int)));
        assert(s.skip((t.len() + 1) as int) =~= tail);
        assert forall|i: int| 0 <= i < lines.skip(1).len() implies is_paragraph_text(
            #[trigger] lines.skip(1)[i],
        ) by {
            assert(lines.skip(1)[i] == lines[i + 1]);
        }
        lemma_joined_lines_paragraph(lines.skip(1));
        assert(seq![content] + text_lines(lines.skip(1)) =~= text_lines(lines));
    }
}

/// Consecutive lines of paragraph text are one paragraph, and the paragraph
/// renders as one `<p>` element per line, not as one element for all.
pub proof fn lemma_paragraph_per_line(lines: Seq<Seq<char>>)
    requires
        lines.len() > 0,
        forall|i: int| 0 <= i < lines.len() ==> is_paragraph_text(#[trigger] lines[i]),
    ensures
        document(joined_lines(lines)) == Ok::<DocumentView, (Rule, int)>(
            DocumentView { blocks: seq![BlockView::Paragraph(text_lines(lines))] },
        ),
        conversion(joined_lines(lines)) == Ok::<Seq<char>, Seq<char>>(
            elements(lines, "<p>"@, "</p>\n"@),
        ),
{
    let s = joined_lines(lines);
    let t = lines[0];
    assert(is_paragraph_text(t));
    assert(s =~= t + (seq!['\n'] + joined_lines(lines.skip(1))));
    assert(s[0] == t[0]);
    lemma_joined_lines_paragraph(lines);
    lemma_no_special_block(s);
    let b = BlockView::Paragraph(text_lines(lines));
    assert(text_lines(lines).len() > 0);
    assert(block(s) == Some((b, s.len() as int))) by {
        reveal(block);
    }
    assert(blank_line_len(s) == 0);
    lemma_single_block(s, b);
    lemma_render_single_block(b);
    lemma_render_text_lines(lines, "<p>"@, "</p>\n"@);
}

// ---------------------------------------------------------------------------
// Inline nesting
// ---------------------------------------------------------------------------

/// `**`, the text `a`, `_`, the text `b`, `_` and `**`.
pub open spec fn bold_around_italic(a: Seq<char>, b: Seq<char>) -> Seq<char> {
    seq!['*', '*'] + a + seq!['_'] + b + seq!['_', '*', '*']
}

/// `_`, the text `a`, `**`, the text `b`, `**` and `_`.
pub open spec fn italic_around_bold(a: Seq<char>, b: Seq<char>) -> Seq<char> {
    seq!['_'] + a + seq!['*', '*'] + b + seq!['*', '*', '_']
}

/// Delimiters with nothing between them and the end of the input open no
/// span.
proof fn lemma_closers_open_nothing(c: char)
    requires
        c == '*' || c == '_',
    ensures
        inline_spans(Seq::<char>::empty()) == (Seq::<InlineView>::empty(), 0int),
        inline_spans(seq![c]) == (Seq::<InlineView>::empty(), 0int),
        inline_spans(seq![c, c]) == (Seq::<InlineView>::empty(), 0int),
        inline_spans(seq![c, c, c]) == (Seq::<InlineView>::empty(), 0int),
{
    let e = Seq::<char>::empty();
    let s1 = seq![c];
    let s2 = seq![c, c];
    let s3 = seq![c, c, c];
    assert(inline_span(e) is None);
    assert(s1.skip(1) =~= e);
    assert(bold(s1) is None);
    assert(italic(s1) is None);
    assert(inline_span(s1) is None);
    assert(s2.skip(2) =~= e);
    assert(s2.skip(1) =~= s1);
    assert(bold(s2) is None);
    assert(italic(s2) is None);
    assert(inline_span(s2) is None);
    assert(s3.skip(2) =~= s1);
    assert(s3.skip(1) =~= s2);
    assert(bold(s3) is None);
    assert(italic(s3) is None);
    assert(inline_span(s3) is None);
}

/// Two different delimiter characters, the second doubled, open no span
/// before the end of the input: one then two, or two then one.
proof fn lemma_mixed_closers_open_nothing(c: char, d: char)
    requires
        c == '*' || c == '_',
        d == '*' || d == '_',
        c != d,
    ensures
        inline_span(seq![c, d, d]) is None,
        inline_span(seq![d, d, c]) is None,
{
    lemma_closers_open_nothing(c);
    lemma_closers_open_nothing(d);
    let e = Seq::<char>::empty();
    let x = seq![c, d, d];
    assert(x.skip(1) =~= seq![d, d]);
    assert(bold(x) is None);
    assert(italic(x) is None);
    let y = seq![d, d, c];
    assert(y.skip(2) =~= seq![c]);
    assert(bold(y) is None);
    assert(y.skip(1) =~= seq![d, c]);
    let z = seq![d, c];
    assert(z.skip(1) =~= seq![c]);
    assert(z.skip(2) =~= e);
    assert(bold(z) is None);
    assert(italic(z) is None);
    assert(inline_span(z) is None);
    assert(inline_spans(z) == (Seq::<InlineView>::empty(), 0int));
    assert(italic(y) is None);
}

/// `_`, plain text and `_` are an italic span where `**` and the end of the
/// input follow.
proof fn lemma_italic_before_bold_closes(b: Seq<char>)
    requires
        is_plain(b),
        b.len() > 0,
    ensures
        inline_spans(seq!['_'] + b + seq!['_', '*', '*']) == (
            seq![InlineView::Italic(seq![InlineView::Text(b)])],
            (b.len() + 2) as int,
        ),
{
    let tail = seq!['_', '*', '*'];
    let inner = b + tail;
    let y = seq!['_'] + b + tail;
    let stars = seq!['*', '*'];
    lemma_mixed_closers_open_nothing('_', '*');
    lemma_closers_open_nothing('*');
    lemma_plain_span_first(b, tail);
    assert(inline_spans(tail) == (Seq::<InlineView>::empty(), 0int));
    assert(seq![InlineView::Text(b)] + Seq::<InlineView>::empty() =~= seq![InlineView::Text(b)]);
    assert(inline_spans(inner) == (seq![InlineView::Text(b)], b.len() as int));
    assert(y.skip(1) =~= inner);
    assert(y[1] == b[0]);
    assert(y.skip(1 + b.len() as int) =~= tail);
    assert(link(y) is None);
    assert(bold(y) is None);
    let node = InlineView::Italic(seq![InlineView::Text(b)]);
    assert(italic(y) == Some((node, (b.len() + 2) as int)));
    assert(inline_span(y) == Some((node, (b.len() + 2) as int)));
    assert(y.skip((b.len() + 2) as int) =~= stars);
    assert(seq![node] + Seq::<InlineView>::empty() =~= seq![node]);
}

/// `**`, plain text and `**` are a bold span where `_` and the end of the
/// input follow.
proof fn lemma_bold_before_italic_closes(b: Seq<char>)
    requires
        is_plain(b),
        b.len() > 0,
    ensures
        inline_spans(seq!['*', '*'] + b + seq!['*', '*', '_']) == (
            seq![InlineView::Bold(seq![InlineView::Text(b)])],
            (b.len() + 4) as int,
        ),
{
    let tail = seq!['*', '*', '_'];
    let inner = b + tail;
    let y = seq!['*', '*'] + b + tail;
    let under = seq!['_'];
    lemma_mixed_closers_open_nothing('_', '*');
    lemma_closers_open_nothing('_');
    lemma_plain_span_first(b, tail);
    assert(inline_spans(tail) == (Seq::<InlineView>::empty(), 0int));
    assert(seq![InlineView::Text(b)] + Seq::<InlineView>::empty() =~= seq![InlineView::Text(b)]);
    assert(inline_spans(inner) == (seq![InlineView::Text(b)], b.len() as int));
    assert(y.skip(2) =~= inner);
    assert(y.skip(2 + b.len() as int) =~= tail);
    assert(link(y) is None);
    let node = InlineView::Bold(seq![InlineView::Text(b)]);
    assert(bold(y) == Some((node, (b.len() + 4) as int)));
    assert(inline_span(y) == Some((node, (b.len() + 4) as int)));
    assert(y.skip((b.len() + 4) as int) =~= under);
    assert(seq![node] + Seq::<InlineView>::empty() =~= seq![node]);
}

/// The spans of italic inside bold.
proof fn lemma_bold_around_italic_line(a: Seq<char>, b: Seq<char>)
    requires
        is_plain(a),
        a.len() > 0,
        is_plain(b),
        b.len() > 0,
    ensures
        line(bold_around_italic(a, b)) == Some(
            (
                seq![
                    InlineView::Bold(
                        seq![InlineView::Text(a), InlineView::Italic(seq![InlineView::Text(b)])],
                    ),
                ],
                bold_around_italic(a, b).len() as int,
            ),
        ),
{
    let e = Seq::<char>::empty();
    let w = bold_around_italic(a, b);
    let y = seq!['_'] + b + seq!['_', '*', '*'];
    let z = a + y;
    let stars = seq!['*', '*'];
    let italic_node = InlineView::Italic(seq![InlineView::Text(b)]);
    let items = seq![InlineView::Text(a), italic_node];
    lemma_italic_before_bold_closes(b);
    lemma_plain_span_first(a, y);
    lemma_closers_open_nothing('*');
    assert(seq![InlineView::Text(a)] + seq![italic_node] =~= items);
    let n = (a.len() + b.len() + 2) as int;
    assert(inline_spans(z) == (items, n));
    assert(w =~= stars + z);
    assert(w.skip(2) =~= z);
    assert(w.skip(2 + n) =~= stars);
    assert(link(w) is None);
    let node = InlineView::Bold(items);
    assert(bold(w) == Some((node, n + 4)));
    assert(inline_span(w) == Some((node, n + 4)));
    assert(w.skip(n + 4) =~= e);
    assert(seq![node] + Seq::<InlineView>::empty() =~= seq![node]);
    assert(inline_spans(w) == (seq![node], n + 4));
}

/// The spans of bold inside italic.
proof fn lemma_italic_around_bold_line(a: Seq<char>, b: Seq<char>)
    requires
        is_plain(a),
        a.len() > 0,
        is_plain(b),
        b.len() > 0,
    ensures
        line(italic_around_bold(a, b)) == Some(
            (
                seq![
                    InlineView::Italic(
                        seq![InlineView::Text(a), InlineView::Bold(seq![InlineView::Text(b)])],
                    ),
                ],
                italic_around_bold(a, b).len() as int,
            ),
        ),
{
    let e = Seq::<char>::empty();
    let w = italic_around_bold(a, b);
    let y = seq!['*', '*'] + b + seq!['*', '*', '_'];
    let z = a + y;
    let under = seq!['_'];
    let bold_node = InlineView::Bold(seq![InlineView::Text(b)]);
    let items = seq![InlineView::Text(a), bold_node];
    lemma_bold_before_italic_closes(b);
    lemma_plain_span_first(a, y);
    lemma_closers_open_nothing('_');
    assert(seq![InlineView::Text(a)] + seq![bold_node] =~= items);
    let n = (a.len() + b.len() + 4) as int;
    assert(inline_spans(z) == (items, n));
    assert(w =~= under + z);
    assert(w.skip(1) =~= z);
    assert(w[1] == a[0]);
    assert(w.skip(1 + n) =~= under);
    assert(link(w) is None);
    assert(bold(w) is None);
    let node = InlineView::Italic(items);
    assert(italic(w) == Some((node, n + 2)));
    assert(inline_span(w) == Some((node, n + 2)));
    assert(w.skip(n + 2) =~= e);
    assert(seq![node] + Seq::<InlineView>::empty() =~= seq![node]);
    assert(inline_spans(w) == (seq![node], n + 2));
}

/// No special block begins with `**` and plain text, or with `_` and plain
/// text.
proof fn lemma_emphasis_opens_no_special_block(s: Seq<char>)
    requires
        s.len() >= 3,
        (s[0] == '*' && s[1] == '*' && s[2] != '\n' && s[2] != '\r' && s[2] != '*') || (s[0]
            == '_' && s[1] != '\n' && s[1] != '\r' && s[1] != '_'),
    ensures
        special_block(s) is None,
        !fence(s),
        blank_line_len(s) == 0,
{
    assert(header(s) is None);
    assert(list_item(s, true) is None);
    assert(list_item(s, false) is None);
    assert(thematic_break(s) is None) by {
        let r1 = s.skip(1);
        let r2 = s.skip(2);
        assert(r1[0] == s[1]);
        assert(r2[0] == s[2]);
        assert(r1.skip(1) =~= r2);
        assert(run_len(r2, s[0]) == 0 || s[2] == s[0]);
        if s[0] == '_' {
            assert(run_len(r1, s[0]) == 0);
            assert(run_len(s, s[0]) == 1);
            assert(line_end(r1) is None);
        } else {
            assert(run_len(r2, s[0]) == 0);
            assert(run_len(r1, s[0]) == 1);
            assert(run_len(s, s[0]) == 2);
            assert(line_end(r2) is None);
        }
    }
}

/// The HTML of a paragraph of one line that holds one emphasis around a
/// text and a second emphasis.
proof fn lemma_render_nested(outer_bold: bool, a: Seq<char>, b: Seq<char>)
    ensures
        outer_bold ==> render_document(
            DocumentView {
                blocks: seq![
                    BlockView::Paragraph(
                        seq![
                            seq![
                                InlineView::Bold(
                                    seq![
                                        InlineView::Text(a),
                                        InlineView::Italic(seq![InlineView::Text(b)]),
                                    ],
                                ),
                            ],
                        ],
                    ),
                ],
            },
        ) == "<p>"@ + "<strong>"@ + a + "<em>"@ + b + "</em>"@ + "</strong>"@ + "</p>\n"@,
        !outer_bold ==> render_document(
            DocumentView {
                blocks: seq![
                    BlockView::Paragraph(
                        seq![
                            seq![
                                InlineView::Italic(
                                    seq![
                                        InlineView::Text(a),
                                        InlineView::Bold(seq![InlineView::Text(b)]),
                                    ],
                                ),
                            ],
                        ],
                    ),
                ],
            },
        ) == "<p>"@ + "<em>"@ + a + "<strong>"@ + b + "</strong>"@ + "</em>"@ + "</p>\n"@,
{
    let none = Seq::<InlineView>::empty();
    let text_b = seq![InlineView::Text(b)];
    lemma_render_text_line(b);
    let inner = if outer_bold {
        InlineView::Italic(text_b)
    } else {
        InlineView::Bold(text_b)
    };
    let inner_html = render_inline(inner);
    assert(outer_bold ==> inner_html == "<em>"@ + b + "</em>"@);
    assert(!outer_bold ==> inner_html == "<strong>"@ + b + "</strong>"@);
    let pair = seq![InlineView::Text(a), inner];
    assert(pair.skip(1) =~= seq![inner]);
    assert(seq![inner].skip(1) =~= none);
    assert(render_inlines(none) == Seq::<char>::empty());
    assert(render_inlines(seq![inner]) == render_inline(seq![inner][0]) + render_inlines(
        seq![inner].skip(1),
    ));
    assert(inner_html + Seq::<char>::empty() =~= inner_html);
    assert(render_inlines(seq![inner]) == inner_html);
    assert(render_inlines(pair) == render_inline(pair[0]) + render_inlines(pair.skip(1)));
    assert(render_inlines(pair) == a + inner_html);
    let outer = if outer_bold {
        InlineView::Bold(pair)
    } else {
        InlineView::Italic(pair)
    };
    let outer_html = render_inline(outer);
    assert(outer_bold ==> outer_html == "<strong>"@ + (a + inner_html) + "</strong>"@);
    assert(!outer_bold ==> outer_html == "<em>"@ + (a + inner_html) + "</em>"@);
    let content = seq![outer];
    assert(content.skip(1) =~= none);
    assert(render_inlines(content) == render_inline(content[0]) + render_inlines(
        content.skip(1),
    ));
    assert(outer_html + Seq::<char>::empty() =~= outer_html);
    assert(render_inlines(content) == outer_html);
    let lines = seq![content];
    assert(lines.skip(1) =~= Seq::<Seq<InlineView>>::empty());
    assert(render_lines(lines.skip(1), "<p>"@, "</p>\n"@) == Seq::<char>::empty());
    assert(render_lines(lines, "<p>"@, "</p>\n"@) == "<p>"@ + render_inlines(lines[0])
        + "</p>\n"@ + render_lines(lines.skip(1), "<p>"@, "</p>\n"@));
    let block = BlockView::Paragraph(lines);
    let html = "<p>"@ + outer_html + "</p>\n"@;
    assert(html + Seq::<char>::empty() =~= html);
    assert(render_block(block) == html);
    assert(seq![block].skip(1) =~= Seq::<BlockView>::empty());
    assert(render_blocks(seq![block].skip(1)) == Seq::<char>::empty());
    assert(render_blocks(seq![block]) == render_block(seq![block][0]) + render_blocks(
        seq![block].skip(1),
    ));
    assert(render_blocks(seq![block]) == html);
    if outer_bold {
        assert(html =~= "<p>"@ + "<strong>"@ + a + "<em>"@ + b + "</em>"@ + "</strong>"@
            + "</p>\n"@);
    } else {
        assert(html =~= "<p>"@ + "<em>"@ + a + "<strong>"@ + b + "</strong>"@ + "</em>"@
            + "</p>\n"@);
    }
}

/// Bold and italic recurse into each other's content: an italic span inside
/// a bold one, and a bold span inside an italic one, each with plain text
/// before it, become a node inside a node and render as an element inside an
/// element.
pub proof fn lemma_inline_nesting(a: Seq<char>, b: Seq<char>)
    requires
        is_plain(a),
        a.len() > 0,
        is_plain(b),
        b.len() > 0,
    ensures
        conversion(bold_around_italic(a, b)) == Ok::<Seq<char>, Seq<char>>(
            "<p>"@ + "<strong>"@ + a + "<em>"@ + b + "</em>"@ + "</strong>"@ + "</p>\n"@,
        ),
        conversion(italic_around_bold(a, b)) == Ok::<Seq<char>, Seq<char>>(
            "<p>"@ + "<em>"@ + a + "<strong>"@ + b + "</strong>"@ + "</em>"@ + "</p>\n"@,
        ),
{
    let w = bold_around_italic(a, b);
    let bold_node = InlineView::Bold(
        seq![InlineView::Text(a), InlineView::Italic(seq![InlineView::Text(b)])],
    );
    lemma_bold_around_italic_line(a, b);
    assert(w[0] == '*' && w[1] == '*' && w[2] == a[0]);
    lemma_emphasis_opens_no_special_block(w);
    lemma_single_line_paragraph(w, seq![bold_node]);
    lemma_single_block(w, BlockView::Paragraph(seq![seq![bold_node]]));
    lemma_render_nested(true, a, b);

    let v = italic_around_bold(a, b);
    let italic_node = InlineView::Italic(
        seq![InlineView::Text(a), InlineView::Bold(seq![InlineView::Text(b)])],
    );
    lemma_italic_around_bold_line(a, b);
    assert(v[0] == '_' && v[1] == a[0]);
    lemma_emphasis_opens_no_special_block(v);
    lemma_single_line_paragraph(v, seq![italic_node]);
    lemma_single_block(v, BlockView::Paragraph(seq![seq![italic_node]]));
    lemma_render_nested(false, a, b);
}

// ---------------------------------------------------------------------------
// Fence closure
// ---------------------------------------------------------------------------

/// At a fence only a code block can begin.
pub proof fn lemma_fence_opens_code_block_only(s: Seq<char>)
    requires
        fence(s),
    ensures
        block(s) == code_block(s),
{
    reveal(block);
    assert(header(s) is None);
    assert(thematic_break(s) is None);
    assert(list_item(s, true) is None);
    assert(list_item(s, false) is None);
    assert(paragraph_line(s) is None);
}

/// Where no later line is a closing fence, the lines of a code block never
/// end.
proof fn lemma_code_lines_need_closing_fence(s: Seq<char>)
    requires
        forall|k: int| 0 <= k <= s.len() && line_begins(s, k) ==> closing_fence(s.skip(k)) is None,
    ensures
        code_lines(s) is None,
    decreases s.len(),
{
    assert(line_begins(s, 0));
    assert(s.skip(0) =~= s);
    let k = raw_line_len(s);
    let e = newline_len(s.skip(k));
    if e > 0 && 0 <= k && k + e <= s.len() {
        let next = s.skip(k + e);
        assert(s[k + e - 1] == '\n') by {
            assert(s.skip(k)[0] == s[k]);
            if e == 2 {
                assert(s.skip(k)[1] == s[k + 1]);
            }
        }
        assert forall|j: int| 0 <= j <= next.len() && line_begins(next, j) implies closing_fence(
            next.skip(j),
        ) is None by {
            assert(line_begins(s, k + e + j)) by {
                if j > 0 {
                    assert(next[j - 1] == s[k + e + j - 1]);
                }
            }
            assert(next.skip(j) =~= s.skip(k + e + j));
        }
        lemma_code_lines_need_closing_fence(next);
    }
}

/// A text that begins with a fence that no code block closes is in error at
/// its first character, and the error names the code block.
pub proof fn lemma_unclosed_fence_fails(s: Seq<char>)
    requires
        fence(s),
        code_block(s) is None,
    ensures
        document(s) == Err::<DocumentView, (Rule, int)>((Rule::CodeBlock, 0int)),
        conversion(s) is Err,
{
    lemma_fence_opens_code_block_only(s);
    assert(s.skip(0) =~= s);
    assert(blank_line_len(s) == 0);
    assert(blocks(s) == (Seq::<BlockView>::empty(), 0int));
}

/// Whether a block can begin at position `p` of `s`: the sequence of the
/// blocks of `s` starts there, or one of its blocks, with the blank lines
/// behind it, ends there.
pub open spec fn is_block_start(s: Seq<char>, p: int) -> bool
    decreases s.len(),
{
    p == 0 || (match block(s) {
        Some((_, n)) => {
            let k = n + blank_lines_len(s.skip(n));
            0 < n <= s.len() && n <= k <= s.len() && k <= p && is_block_start(s.skip(k), p - k)
        },
        None => false,
    })
}

/// The blocks of a text end at the first place where a block could begin
/// and none matches.
proof fn lemma_blocks_stop(s: Seq<char>, p: int)
    requires
        0 <= p <= s.len(),
        is_block_start(s, p),
        block(s.skip(p)) is None,
    ensures
        blocks(s).1 == p,
    decreases s.len(),
{
    if p == 0 {
        assert(s.skip(0) =~= s);
    } else {
        match block(s) {
            Some((_, n)) => {
                let k = n + blank_lines_len(s.skip(n));
                lemma_blocks_stop(s.skip(k), p - k);
            },
            None => {},
        }
    }
}

/// Wherever a block can begin: a fence there that no code block closes puts
/// the whole text in error at that place, whatever stands before it.
pub proof fn lemma_unclosed_fence_fails_anywhere(s: Seq<char>, p: int)
    requires
        blank_lines_len(s) <= p <= s.len(),
        is_block_start(s.skip(blank_lines_len(s)), p - blank_lines_len(s)),
        fence(s.skip(p)),
        code_block(s.skip(p)) is None,
    ensures
        document(s) == Err::<DocumentView, (Rule, int)>((Rule::CodeBlock, p)),
        conversion(s) is Err,
{
    let lead = blank_lines_len(s);
    lemma_blank_lines_bounds(s);
    lemma_fence_opens_code_block_only(s.skip(p));
    lemma_blocks_stop(s.skip(lead), p - lead);
}

/// A code block needs a line that closes it: where no line behind the
/// opening fence is a closing fence, no code block matches.
pub proof fn lemma_code_block_needs_closing_fence(s: Seq<char>)
    requires
        fence(s),
        forall|k: int| 3 < k <= s.len() && line_begins(s, k) ==> closing_fence(s.skip(k)) is None,
    ensures
        code_block(s) is None,
{
    let e = newline_len(s.skip(3));
    if e > 0 {
        let body = s.skip(3 + e);
        assert(s.skip(3)[0] == s[3]);
        assert forall|j: int| 0 <= j <= body.len() && line_begins(body, j) implies closing_fence(
            body.skip(j),
        ) is None by {
            assert(line_begins(s, 3 + e + j)) by {
                if j > 0 {
                    assert(body[j - 1] == s[3 + e + j - 1]);
                } else {
                    if e == 2 {
                        assert(s.skip(3)[1] == s[4]);
                    }
                }
            }
            assert(body.skip(j) =~= s.skip(3 + e + j));
        }
        lemma_code_lines_need_closing_fence(body);
    }
}

/// A text that begins with an opening fence and has no line behind it that
/// is a closing fence fails to convert as a whole: there is an error and no
/// HTML.
pub proof fn lemma_fence_closure(s: Seq<char>)
    requires
        fence(s),
        forall|k: int| 3 < k <= s.len() && line_begins(s, k) ==> closing_fence(s.skip(k)) is None,
    ensures
        document(s) == Err::<DocumentView, (Rule, int)>((Rule::CodeBlock, 0int)),
        conversion(s) is Err,
{
    lemma_code_block_needs_closing_fence(s);
    lemma_unclosed_fence_fails(s);
}

} // verus!
