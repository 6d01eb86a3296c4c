//! Bounds on what the rules of the grammar consume: no rule reaches behind
//! the end of the input, and a rule that yields a node consumes at least one
//! character. The recursive rules of the grammar test these bounds before
//! they go on; here it is shown that the tests never fail. It is also shown
//! that what the grammar yields is well formed.

use vstd::prelude::*;
use crate::grammar::{
    blank_line_len, blank_lines_len, block, blocks, bold, code_block, code_lines, digits_len,
    document, failure, fence, header, inline_span, inline_spans, italic, item_marker_len, line,
    link, list, list_item, list_items, newline_len, paragraph, paragraph_line, paragraph_lines,
    raw_line_len, run_len, span_until, spaces_len, special_block, text_len, thematic_break,
};

verus! {

broadcast use vstd::seq_lib::lemma_seq_skip_of_skip;

/// The counting functions stay within the input.
pub proof fn lemma_count_bounds(s: Seq<char>, c: char)
    ensures
        0 <= run_len(s, c) <= s.len(),
        0 <= span_until(s, c) <= s.len(),
        0 <= spaces_len(s) <= s.len(),
        0 <= digits_len(s) <= s.len(),
        0 <= raw_line_len(s) <= s.len(),
        0 <= text_len(s) <= s.len(),
    decreases s.len(),
{
    if s.len() > 0 {
        lemma_count_bounds(s.skip(1), c);
    }
}

/// A blank line, and a run of blank lines, stay within the input.
pub proof fn lemma_blank_lines_bounds(s: Seq<char>)
    ensures
        0 <= blank_line_len(s) <= s.len(),
        0 <= blank_lines_len(s) <= s.len(),
    decreases s.len(),
{
    lemma_count_bounds(s, ' ');
    let k = blank_line_len(s);
    if 0 < k <= s.len() {
        lemma_blank_lines_bounds(s.skip(k));
    }
}

/// A link is at least four characters long and stays within the input.
pub proof fn lemma_link_bounds(s: Seq<char>)
    ensures
        link(s) matches Some((_, n)) ==> 4 <= n <= s.len(),
{
    if s.len() > 0 {
        lemma_count_bounds(s.skip(1), ']');
        let t = span_until(s.skip(1), ']');
        let tail = s.skip(1 + t);
        if tail.len() >= 2 {
            lemma_count_bounds(tail.skip(2), ')');
        }
    }
}

/// A span is never empty and stays within the input; a sequence of spans
/// stays within the input and is empty exactly where it consumed nothing.
pub proof fn lemma_inline_span_bounds(s: Seq<char>)
    ensures
        bold(s) matches Some((_, n)) ==> 0 < n <= s.len(),
        italic(s) matches Some((_, n)) ==> 0 < n <= s.len(),
        inline_span(s) matches Some((_, n)) ==> 0 < n <= s.len(),
        0 <= inline_spans(s).1 <= s.len(),
        inline_spans(s).0.len() == 0 <==> inline_spans(s).1 == 0,
        inline_spans(s).0.len() == 0 <==> inline_span(s) is None,
    decreases s.len(),
{
    lemma_link_bounds(s);
    lemma_count_bounds(s, ' ');
    if s.len() >= 2 {
        lemma_inline_span_bounds(s.skip(2));
    }
    if s.len() >= 1 {
        lemma_inline_span_bounds(s.skip(1));
    }
    match inline_span(s) {
        Some((_, n)) => {
            lemma_inline_span_bounds(s.skip(n));
        },
        None => {},
    }
}

/// A line of content is never empty and stays within the input.
pub proof fn lemma_line_bounds(s: Seq<char>)
    ensures
        line(s) matches Some((items, n)) ==> 0 < n <= s.len() && items.len() > 0,
{
    lemma_inline_span_bounds(s);
}

/// A list item is never empty and stays within the input; so does a run of
/// them, which is empty exactly where it consumed nothing.
pub proof fn lemma_list_bounds(s: Seq<char>, ordered: bool)
    ensures
        list_item(s, ordered) matches Some((_, n)) ==> 0 < n <= s.len(),
        0 <= list_items(s, ordered).1 <= s.len(),
        list_items(s, ordered).0.len() == 0 <==> list_items(s, ordered).1 == 0,
        list_items(s, ordered).0.len() == 0 <==> list_item(s, ordered) is None,
        list(s, ordered) matches Some((_, n)) ==> 0 < n <= s.len(),
    decreases s.len(),
{
    lemma_count_bounds(s, ' ');
    let m = item_marker_len(s, ordered);
    if 0 < m <= s.len() {
        lemma_line_bounds(s.skip(m));
    }
    match list_item(s, ordered) {
        Some((_, n)) => {
            lemma_list_bounds(s.skip(n), ordered);
        },
        None => {},
    }
}

/// The lines of a code block and its closing fence stay within the input.
pub proof fn lemma_code_lines_bounds(s: Seq<char>)
    ensures
        code_lines(s) matches Some((_, n)) ==> 3 <= n <= s.len(),
    decreases s.len(),
{
    lemma_count_bounds(s, ' ');
    let k = raw_line_len(s);
    let e = newline_len(s.skip(k));
    if e > 0 && 0 <= k && k + e <= s.len() {
        lemma_code_lines_bounds(s.skip(k + e));
    }
}

/// A special block is never empty and stays within the input.
pub proof fn lemma_special_block_bounds(s: Seq<char>)
    ensures
        header(s) matches Some((_, n)) ==> 0 < n <= s.len(),
        thematic_break(s) matches Some((_, n)) ==> 0 < n <= s.len(),
        code_block(s) matches Some((_, n)) ==> 0 < n <= s.len(),
        special_block(s) matches Some((_, n)) ==> 0 < n <= s.len(),
{
    lemma_count_bounds(s, '#');
    if s.len() > 0 {
        lemma_count_bounds(s, s[0]);
    }
    let h = run_len(s, '#');
    if h < s.len() {
        lemma_line_bounds(s.skip(h + 1));
    }
    lemma_list_bounds(s, true);
    lemma_list_bounds(s, false);
    if fence(s) {
        let e = newline_len(s.skip(3));
        if e > 0 {
            lemma_code_lines_bounds(s.skip(3 + e));
        }
    }
}

/// A paragraph line is never empty and stays within the input; so does a run
/// of them, which is empty exactly where it consumed nothing.
pub proof fn lemma_paragraph_bounds(s: Seq<char>)
    ensures
        paragraph_line(s) matches Some((_, n)) ==> 0 < n <= s.len(),
        0 <= paragraph_lines(s).1 <= s.len(),
        paragraph_lines(s).0.len() == 0 <==> paragraph_lines(s).1 == 0,
        paragraph_lines(s).0.len() == 0 <==> paragraph_line(s) is None,
        paragraph(s) matches Some((_, n)) ==> 0 < n <= s.len(),
    decreases s.len(),
{
    lemma_line_bounds(s);
    match paragraph_line(s) {
        Some((_, n)) => {
            lemma_paragraph_bounds(s.skip(n));
        },
        None => {},
    }
}

/// A block is never empty and stays within the input.
pub proof fn lemma_block_bounds(s: Seq<char>)
    ensures
        block(s) matches Some((_, n)) ==> 0 < n <= s.len(),
{
    reveal(block);
    lemma_special_block_bounds(s);
    lemma_paragraph_bounds(s);
}

/// Where no block matches a non-empty input that begins with neither a fence
/// nor a blank line, the spans at its head stop before its end: there is a
/// character that no span accounts for.
pub proof fn lemma_failure_inside(s: Seq<char>)
    requires
        s.len() > 0,
        block(s) is None,
        blank_line_len(s) == 0,
    ensures
        0 <= failure(s).1 < s.len(),
{
    reveal(block);
    lemma_inline_span_bounds(s);
    lemma_paragraph_bounds(s);
}

/// Every item of a run of list items holds a span.
pub proof fn lemma_list_items_hold_spans(s: Seq<char>, ordered: bool)
    ensures
        forall|i: int|
            0 <= i < list_items(s, ordered).0.len() ==> (#[trigger] list_items(
                s,
                ordered,
            ).0[i]).len() > 0,
    decreases s.len(),
{
    let all = list_items(s, ordered).0;
    match list_item(s, ordered) {
        Some((item, n)) => {
            if 0 < n <= s.len() {
                let rest = list_items(s.skip(n), ordered).0;
                lemma_list_items_hold_spans(s.skip(n), ordered);
                assert(all == seq![item] + rest);
                assert forall|i: int| 0 <= i < all.len() implies (#[trigger] all[i]).len()
                    > 0 by {
                    if i > 0 {
                        assert(all[i] == rest[i - 1]);
                    }
                }
            }
        },
        None => {},
    }
}

/// Every line of a run of paragraph lines holds a span.
pub proof fn lemma_paragraph_lines_hold_spans(s: Seq<char>)
    ensures
        forall|i: int|
            0 <= i < paragraph_lines(s).0.len() ==> (#[trigger] paragraph_lines(s).0[i]).len()
                > 0,
    decreases s.len(),
{
    let all = paragraph_lines(s).0;
    match paragraph_line(s) {
        Some((content, n)) => {
            if 0 < n <= s.len() {
                let rest = paragraph_lines(s.skip(n)).0;
                lemma_paragraph_lines_hold_spans(s.skip(n));
                assert(all == seq![content] + rest);
                assert forall|i: int| 0 <= i < all.len() implies (#[trigger] all[i]).len()
                    > 0 by {
                    if i > 0 {
                        assert(all[i] == rest[i - 1]);
                    }
                }
            }
        },
        None => {},
    }
}

/// A block that the grammar yields is well formed.
pub proof fn lemma_block_well_formed(s: Seq<char>)
    ensures
        block(s) matches Some((b, _)) ==> b.well_formed(),
{
    reveal(block);
    lemma_list_items_hold_spans(s, true);
    lemma_list_items_hold_spans(s, false);
    lemma_paragraph_lines_hold_spans(s);
}

/// Every block of a sequence that the grammar yields is well formed.
pub proof fn lemma_blocks_well_formed(s: Seq<char>)
    ensures
        forall|i: int| 0 <= i < blocks(s).0.len() ==> (#[trigger] blocks(s).0[i]).well_formed(),
    decreases s.len(),
{
    lemma_block_well_formed(s);
    let all = blocks(s).0;
    match block(s) {
        Some((b, n)) => {
            let k = n + blank_lines_len(s.skip(n));
            if 0 < n <= s.len() && n <= k <= s.len() {
                let rest = blocks(s.skip(k)).0;
                lemma_blocks_well_formed(s.skip(k));
                assert(all == seq![b] + rest);
                assert forall|i: int| 0 <= i < all.len() implies (#[trigger] all[i]).well_formed(
                ) by {
                    if i > 0 {
                        assert(all[i] == rest[i - 1]);
                    }
                }
            }
        },
        None => {},
    }
}

/// A document that the grammar yields is well formed: in particular, the
/// level of each of its headers lies between 1 and 6.
pub proof fn lemma_document_well_formed(s: Seq<char>)
    ensures
        document(s) matches Ok(d) ==> d.well_formed(),
{
    lemma_blocks_well_formed(s.skip(blank_lines_len(s)));
}

} // verus!
