//! The grammar of the Markdown dialect, as mathematical functions.
//!
//! Every rule is a function of the input that is still unread. A rule that
//! builds a node answers with the node and the number of characters it
//! consumed; a rule that only recognises answers with the number alone.
//! Choices are ordered: the first alternative that matches wins. Repetitions
//! are greedy and never give back what they took.
//!
//! A repetition tests that what it has just matched is not empty and lies
//! within the input before it goes on. These tests only serve termination:
//! module `bounds` shows that they never fail.

use vstd::prelude::*;
use crate::tree::{BlockView, DocumentView, InlineView};

verus! {

/// The rules of the grammar by name.
#[derive(Debug, Clone, Copy, PartialEq, Eq, Structural)]
pub enum Rule {
    Space,
    Newline,
    Blankline,
    Markdown,
    Block,
    SpecialBlock,
    Header,
    HeaderHashtags,
    ThematicBreak,
    List,
    UnorderedList,
    OrderedList,
    CodeBlock,
    Paragraph,
    Line,
    LinePars,
    Inline,
    Link,
    LinkText,
    LinkHref,
    Bold,
    Italic,
    Text,
}

// ---------------------------------------------------------------------------
// Characters and line ends
// ---------------------------------------------------------------------------

/// Horizontal whitespace: a blank or a tab, never a line break.
pub open spec fn is_space(c: char) -> bool {
    c == ' ' || c == '\t'
}

/// An ASCII decimal digit.
pub open spec fn is_digit(c: char) -> bool {
    '0' <= c && c <= '9'
}

/// A character that opens a link, a bold span or an italic span.
pub open spec fn is_marker(c: char) -> bool {
    c == '[' || c == '*' || c == '_'
}

/// A character that may introduce an unordered list item.
pub open spec fn is_bullet(c: char) -> bool {
    c == '-' || c == '*' || c == '+'
}

/// A character that a thematic break may be drawn with.
pub open spec fn is_rule_char(c: char) -> bool {
    c == '-' || c == '*' || c == '_'
}

/// Length of the line break at the head of `s`: 1 for `\n`, 2 for `\r\n`,
/// 0 where there is none.
pub open spec fn newline_len(s: Seq<char>) -> int {
    if s.len() >= 1 && s[0] == '\n' {
        1
    } else if s.len() >= 2 && s[0] == '\r' && s[1] == '\n' {
        2
    } else {
        0
    }
}

/// A line ends at a line break or at the end of the input; the answer is
/// the number of characters the end takes.
pub open spec fn line_end(s: Seq<char>) -> Option<int> {
    if s.len() == 0 {
        Some(0)
    } else if newline_len(s) > 0 {
        Some(newline_len(s))
    } else {
        None
    }
}

/// Number of leading characters of `s` that equal `c`.
pub open spec fn run_len(s: Seq<char>, c: char) -> int
    decreases s.len(),
{
    if s.len() > 0 && s[0] == c {
        1 + run_len(s.skip(1), c)
    } else {
        0
    }
}

/// Number of leading characters of `s` that differ from `c`.
pub open spec fn span_until(s: Seq<char>, c: char) -> int
    decreases s.len(),
{
    if s.len() > 0 && s[0] != c {
        1 + span_until(s.skip(1), c)
    } else {
        0
    }
}

/// Number of leading blanks and tabs.
pub open spec fn spaces_len(s: Seq<char>) -> int
    decreases s.len(),
{
    if s.len() > 0 && is_space(s[0]) {
        1 + spaces_len(s.skip(1))
    } else {
        0
    }
}

/// Number of leading decimal digits.
pub open spec fn digits_len(s: Seq<char>) -> int
    decreases s.len(),
{
    if s.len() > 0 && is_digit(s[0]) {
        1 + digits_len(s.skip(1))
    } else {
        0
    }
}

/// Number of characters before the first line break, or to the end of input.
pub open spec fn raw_line_len(s: Seq<char>) -> int
    decreases s.len(),
{
    if s.len() > 0 && newline_len(s) == 0 {
        1 + raw_line_len(s.skip(1))
    } else {
        0
    }
}

/// Length of one blank line at the head of `s`: optional horizontal
/// whitespace and then a line break. 0 where the line is not blank.
pub open spec fn blank_line_len(s: Seq<char>) -> int {
    let k = spaces_len(s);
    let n = newline_len(s.skip(k));
    if n > 0 {
        k + n
    } else {
        0
    }
}

/// Length of the longest run of blank lines at the head of `s`.
pub open spec fn blank_lines_len(s: Seq<char>) -> int
    decreases s.len(),
{
    let k = blank_line_len(s);
    if 0 < k <= s.len() {
        k + blank_lines_len(s.skip(k))
    } else {
        0
    }
}

// ---------------------------------------------------------------------------
// Inline level
// ---------------------------------------------------------------------------

/// Length of the plain text at the head of `s`: characters up to the next
/// line break or marker.
pub open spec fn text_len(s: Seq<char>) -> int
    decreases s.len(),
{
    if s.len() > 0 && newline_len(s) == 0 && !is_marker(s[0]) {
        1 + text_len(s.skip(1))
    } else {
        0
    }
}

/// `[` text `](` href `)`; the text runs to the first `]`, the href to the
/// first `)`, and either may be empty.
pub open spec fn link(s: Seq<char>) -> Option<(InlineView, int)> {
    if s.len() > 0 && s[0] == '[' {
        let t = span_until(s.skip(1), ']');
        let tail = s.skip(1 + t);
        if tail.len() >= 2 && tail[0] == ']' && tail[1] == '(' {
            let h = span_until(tail.skip(2), ')');
            let close = tail.skip(2 + h);
            if close.len() >= 1 && close[0] == ')' {
                Some(
                    (
                        InlineView::Link {
                            text: s.subrange(1, 1 + t),
                            href: s.subrange(3 + t, 3 + t + h),
                        },
                        t + h + 4,
                    ),
                )
            } else {
                None
            }
        } else {
            None
        }
    } else {
        None
    }
}

/// One span: a link, else a bold span, else an italic span, else plain text.
pub open spec fn inline_span(s: Seq<char>) -> Option<(InlineView, int)>
    decreases s.len(), 2int,
{
    if link(s) is Some {
        link(s)
    } else if bold(s) is Some {
        bold(s)
    } else if italic(s) is Some {
        italic(s)
    } else if text_len(s) > 0 {
        Some((InlineView::Text(s.take(text_len(s))), text_len(s)))
    } else {
        None
    }
}

/// `**` spans `**` or `__` spans `__`, with at least one span between the
/// delimiters and the same delimiter on both sides.
pub open spec fn bold(s: Seq<char>) -> Option<(InlineView, int)>
    decreases s.len(), 1int,
{
    if s.len() >= 2 && (s[0] == '*' || s[0] == '_') && s[1] == s[0] {
        let (items, n) = inline_spans(s.skip(2));
        let close = s.skip(2 + n);
        if items.len() > 0 && close.len() >= 2 && close[0] == s[0] && close[1] == s[0] {
            Some((InlineView::Bold(items), n + 4))
        } else {
            None
        }
    } else {
        None
    }
}

/// `*` spans `*` or `_` spans `_`, with at least one span between the
/// delimiters and the same delimiter on both sides.
pub open spec fn italic(s: Seq<char>) -> Option<(InlineView, int)>
    decreases s.len(), 1int,
{
    if s.len() >= 1 && (s[0] == '*' || s[0] == '_') {
        let (items, n) = inline_spans(s.skip(1));
        let close = s.skip(1 + n);
        if items.len() > 0 && close.len() >= 1 && close[0] == s[0] {
            Some((InlineView::Italic(items), n + 2))
        } else {
            None
        }
    } else {
        None
    }
}

/// The longest sequence of spans at the head of `s`, with its length in
/// characters.
pub open spec fn inline_spans(s: Seq<char>) -> (Seq<InlineView>, int)
    decreases s.len(), 3int,
{
    match inline_span(s) {
        Some((item, n)) => if 0 < n <= s.len() {
            let (rest, m) = inline_spans(s.skip(n));
            (seq![item] + rest, n + m)
        } else {
            (Seq::empty(), 0)
        },
        None => (Seq::empty(), 0),
    }
}

/// One line of content: at least one span, then the end of the line.
pub open spec fn line(s: Seq<char>) -> Option<(Seq<InlineView>, int)> {
    let (items, n) = inline_spans(s);
    if items.len() > 0 {
        match line_end(s.skip(n)) {
            Some(e) => Some((items, n + e)),
            None => None,
        }
    } else {
        None
    }
}

// ---------------------------------------------------------------------------
// Block level
// ---------------------------------------------------------------------------

/// One to six `#`, a blank or tab, and a line of content.
pub open spec fn header(s: Seq<char>) -> Option<(BlockView, int)> {
    let h = run_len(s, '#');
    if 1 <= h <= 6 && h < s.len() && is_space(s[h]) {
        match line(s.skip(h + 1)) {
            Some((content, n)) => Some((BlockView::Header { level: h, content }, h + 1 + n)),
            None => None,
        }
    } else {
        None
    }
}

/// Three or more of one of `-`, `*`, `_`, and nothing else on the line.
pub open spec fn thematic_break(s: Seq<char>) -> Option<(BlockView, int)> {
    if s.len() > 0 && is_rule_char(s[0]) {
        let k = run_len(s, s[0]);
        match line_end(s.skip(k)) {
            Some(e) => if k >= 3 {
                Some((BlockView::ThematicBreak, k + e))
            } else {
                None
            },
            None => None,
        }
    } else {
        None
    }
}

/// Length of the marker of a list item: a bullet and a blank, or digits, a
/// full stop and a blank. 0 where `s` does not begin with such a marker.
pub open spec fn item_marker_len(s: Seq<char>, ordered: bool) -> int {
    if ordered {
        let d = digits_len(s);
        if d > 0 && d + 1 < s.len() && s[d] == '.' && is_space(s[d + 1]) {
            d + 2
        } else {
            0
        }
    } else {
        if s.len() >= 2 && is_bullet(s[0]) && is_space(s[1]) {
            2
        } else {
            0
        }
    }
}

/// One list item: its marker and a line of content.
pub open spec fn list_item(s: Seq<char>, ordered: bool) -> Option<(Seq<InlineView>, int)> {
    let m = item_marker_len(s, ordered);
    if m > 0 {
        match line(s.skip(m)) {
            Some((content, n)) => Some((content, m + n)),
            None => None,
        }
    } else {
        None
    }
}

/// The longest run of consecutive items of one kind.
pub open spec fn list_items(s: Seq<char>, ordered: bool) -> (Seq<Seq<InlineView>>, int)
    decreases s.len(),
{
    match list_item(s, ordered) {
        Some((item, n)) => if 0 < n <= s.len() {
            let (rest, m) = list_items(s.skip(n), ordered);
            (seq![item] + rest, n + m)
        } else {
            (Seq::empty(), 0)
        },
        None => (Seq::empty(), 0),
    }
}

/// A list: one or more consecutive items of one kind. The marker of an
/// unordered item may change from line to line, and the digits of an ordered
/// item are not read as a number.
pub open spec fn list(s: Seq<char>, ordered: bool) -> Option<(BlockView, int)> {
    let (items, n) = list_items(s, ordered);
    if items.len() > 0 {
        if ordered {
            Some((BlockView::OrderedList(items), n))
        } else {
            Some((BlockView::UnorderedList(items), n))
        }
    } else {
        None
    }
}

/// Three backticks.
pub open spec fn fence(s: Seq<char>) -> bool {
    s.len() >= 3 && s[0] == '`' && s[1] == '`' && s[2] == '`'
}

/// A line that holds three backticks and nothing else.
pub open spec fn closing_fence(s: Seq<char>) -> Option<int> {
    if fence(s) {
        match line_end(s.skip(3)) {
            Some(e) => Some(3 + e),
            None => None,
        }
    } else {
        None
    }
}

/// The raw lines of a code block and its closing fence. There is no match
/// where the input ends before a closing fence was seen.
pub open spec fn code_lines(s: Seq<char>) -> Option<(Seq<Seq<char>>, int)>
    decreases s.len(),
{
    if closing_fence(s) is Some {
        Some((Seq::empty(), closing_fence(s).unwrap()))
    } else {
        let k = raw_line_len(s);
        let e = newline_len(s.skip(k));
        if e > 0 && 0 <= k && k + e <= s.len() {
            match code_lines(s.skip(k + e)) {
                Some((rest, n)) => Some((seq![s.take(k)] + rest, k + e + n)),
                None => None,
            }
        } else {
            None
        }
    }
}

/// An opening fence alone on its line, raw lines, and a closing fence.
pub open spec fn code_block(s: Seq<char>) -> Option<(BlockView, int)> {
    let e = newline_len(s.skip(3));
    if fence(s) && e > 0 {
        match code_lines(s.skip(3 + e)) {
            Some((lines, n)) => Some((BlockView::CodeBlock(lines), 3 + e + n)),
            None => None,
        }
    } else {
        None
    }
}

/// A header, else a thematic break, else an ordered list, else an unordered
/// list, else a code block.
pub open spec fn special_block(s: Seq<char>) -> Option<(BlockView, int)> {
    if header(s) is Some {
        header(s)
    } else if thematic_break(s) is Some {
        thematic_break(s)
    } else if list(s, true) is Some {
        list(s, true)
    } else if list(s, false) is Some {
        list(s, false)
    } else {
        code_block(s)
    }
}

/// One line of a paragraph: a line of content that is not blank, does not
/// begin a special block and does not begin with a fence. The last
/// condition makes a fence that is never closed an error instead of text.
pub open spec fn paragraph_line(s: Seq<char>) -> Option<(Seq<InlineView>, int)> {
    if special_block(s) is Some || fence(s) || blank_line_len(s) > 0 {
        None
    } else {
        line(s)
    }
}

/// The longest run of consecutive paragraph lines.
pub open spec fn paragraph_lines(s: Seq<char>) -> (Seq<Seq<InlineView>>, int)
    decreases s.len(),
{
    match paragraph_line(s) {
        Some((content, n)) => if 0 < n <= s.len() {
            let (rest, m) = paragraph_lines(s.skip(n));
            (seq![content] + rest, n + m)
        } else {
            (Seq::empty(), 0)
        },
        None => (Seq::empty(), 0),
    }
}

/// A paragraph: one or more consecutive paragraph lines.
pub open spec fn paragraph(s: Seq<char>) -> Option<(BlockView, int)> {
    let (lines, n) = paragraph_lines(s);
    if lines.len() > 0 {
        Some((BlockView::Paragraph(lines), n))
    } else {
        None
    }
}

/// A special block where one matches, else a paragraph.
#[verifier::opaque]
pub open spec fn block(s: Seq<char>) -> Option<(BlockView, int)> {
    if special_block(s) is Some {
        special_block(s)
    } else {
        paragraph(s)
    }
}

/// The longest sequence of blocks at the head of `s`, each followed by any
/// number of blank lines.
pub open spec fn blocks(s: Seq<char>) -> (Seq<BlockView>, int)
    decreases s.len(),
{
    match block(s) {
        Some((b, n)) => if 0 < n <= s.len() {
            let k = n + blank_lines_len(s.skip(n));
            if n <= k <= s.len() {
                let (rest, m) = blocks(s.skip(k));
                (seq![b] + rest, k + m)
            } else {
                (Seq::empty(), 0)
            }
        } else {
            (Seq::empty(), 0)
        },
        None => (Seq::empty(), 0),
    }
}

/// Where the blocks stop short of the end of the input, the rule that is to
/// blame and how far behind the stop it gave up. A fence at the stop was
/// never closed. Otherwise the line there holds a marker that opens nothing:
/// the spans before it are sound, and the fault lies behind them.
pub open spec fn failure(s: Seq<char>) -> (Rule, int) {
    if fence(s) {
        (Rule::CodeBlock, 0)
    } else {
        (Rule::Inline, inline_spans(s).1)
    }
}

/// A whole document: optional blank lines, then blocks to the end of the
/// input. The error names the rule that failed and the offset of the
/// failure, counted in characters from the start of the input.
pub open spec fn document(s: Seq<char>) -> Result<DocumentView, (Rule, int)> {
    let lead = blank_lines_len(s);
    let (bs, n) = blocks(s.skip(lead));
    if lead + n == s.len() {
        Ok(DocumentView { blocks: bs })
    } else {
        let stop = lead + n;
        let (rule, behind) = failure(s.skip(stop));
        Err((rule, stop + behind))
    }
}

/// How much of the head of `s` a rule matches, if it matches at all.
pub open spec fn rule_len(rule: Rule, s: Seq<char>) -> Option<int> {
    match rule {
        Rule::Space => if s.len() > 0 && is_space(s[0]) {
            Some(1)
        } else {
            None
        },
        Rule::Newline => if newline_len(s) > 0 {
            Some(newline_len(s))
        } else {
            None
        },
        Rule::Blankline => if blank_lines_len(s) > 0 {
            Some(blank_lines_len(s))
        } else {
            None
        },
        Rule::Markdown => if document(s) is Ok {
            Some(s.len() as int)
        } else {
            None
        },
        Rule::Block => consumed(block(s)),
        Rule::SpecialBlock => consumed(special_block(s)),
        Rule::Header => consumed(header(s)),
        Rule::HeaderHashtags => if run_len(s, '#') > 6 {
            Some(6)
        } else if run_len(s, '#') > 0 {
            Some(run_len(s, '#'))
        } else {
            None
        },
        Rule::ThematicBreak => consumed(thematic_break(s)),
        Rule::List => if list(s, true) is Some {
            consumed(list(s, true))
        } else {
            consumed(list(s, false))
        },
        Rule::UnorderedList => consumed(list(s, false)),
        Rule::OrderedList => consumed(list(s, true)),
        Rule::CodeBlock => consumed(code_block(s)),
        Rule::Paragraph => consumed(paragraph(s)),
        Rule::Line => consumed(line(s)),
        Rule::LinePars => if inline_spans(s).0.len() > 0 {
            Some(inline_spans(s).1)
        } else {
            None
        },
        Rule::Inline => consumed(inline_span(s)),
        Rule::Link => consumed(link(s)),
        Rule::LinkText => Some(span_until(s, ']')),
        Rule::LinkHref => Some(span_until(s, ')')),
        Rule::Bold => consumed(bold(s)),
        Rule::Italic => consumed(italic(s)),
        Rule::Text => if text_len(s) > 0 {
            Some(text_len(s))
        } else {
            None
        },
    }
}

/// The length of a match, without its node.
pub open spec fn consumed<T>(m: Option<(T, int)>) -> Option<int> {
    match m {
        Some((_, n)) => Some(n),
        None => None,
    }
}

/// Line number of the character at `offset`, counted from 1.
pub open spec fn line_of(s: Seq<char>, offset: int) -> int
    decreases offset,
{
    if offset <= 0 {
        1
    } else if s[offset - 1] == '\n' {
        line_of(s, offset - 1) + 1
    } else {
        line_of(s, offset - 1)
    }
}

/// Column of the character at `offset` within its line, counted from 1.
pub open spec fn column_of(s: Seq<char>, offset: int) -> int
    decreases offset,
{
    if offset <= 0 || s[offset - 1] == '\n' {
        1
    } else {
        column_of(s, offset - 1) + 1
    }
}

} // verus!
