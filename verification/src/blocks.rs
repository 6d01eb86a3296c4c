//! Matching the block level: headers, thematic breaks, lists, code blocks,
//! paragraphs, and sequences of blocks.

use vstd::prelude::*;
use crate::grammar::{
    blank_line_len, block, blocks, closing_fence, code_block, code_lines, fence, header,
    item_marker_len, list, list_item, list_items, paragraph, paragraph_line, paragraph_lines,
    special_block, thematic_break,
};
use crate::scan::{
    bullet_char, line_end_at, newline_at, rule_char, skip_blank_line, skip_blank_lines,
    skip_digits, skip_raw_line, skip_run, space_char, substring,
};
use crate::spans::{line_agrees, match_line, Input};
use crate::tree::{
    block_view, block_views, inline_views, lemma_block_views_push, lemma_line_views_push,
    lemma_string_views_push, line_views, string_views, Block, BlockView, Inline, InlineView,
};

verus! {

broadcast use vstd::seq_lib::lemma_seq_skip_of_skip;

/// What an executable matcher of one block owes to the grammar: it matches
/// where the rule `m` matches, yields the same block, and stops `n`
/// characters behind `p`, inside the text.
pub open spec fn block_agrees(
    r: Option<(Block, usize)>,
    m: Option<(BlockView, int)>,
    p: usize,
    len: nat,
) -> bool {
    match m {
        Some((v, n)) => r matches Some((b, q)) && block_view(b) == v && q == p + n && p < q <= len,
        None => r is None,
    }
}

/// What a matcher of a run of lines owes to the grammar: the same lines and
/// the same length; it has not moved where it found no line.
pub open spec fn lines_agree(
    r: (Vec<Vec<Inline>>, usize),
    m: (Seq<Seq<InlineView>>, int),
    p: usize,
    len: nat,
) -> bool {
    &&& line_views(r.0@) == m.0
    &&& r.1 == p + m.1
    &&& p <= r.1 <= len
    &&& r.0.len() == 0 ==> r.1 == p
    &&& r.0.len() > 0 ==> r.1 > p
}

/// Matches a header at `p`.
pub(crate) fn match_header(input: &Input, p: usize) -> (r: Option<(Block, usize)>)
    requires
        input.well_formed(),
        p <= input@.len(),
    ensures
        block_agrees(r, header(input@.skip(p as int)), p, input@.len()),
{
    let hashes_end = skip_run(&input.chars, p, '#');
    let level = hashes_end - p;
    if 1 <= level && level <= 6 && hashes_end < input.chars.len() && space_char(
        input.chars[hashes_end],
    ) {
        match match_line(input, hashes_end + 1) {
            Some((content, end)) => Some((Block::Header { level: level as u8, content }, end)),
            None => None,
        }
    } else {
        None
    }
}

/// Matches a thematic break at `p`.
pub(crate) fn match_thematic_break(s: &Vec<char>, p: usize) -> (r: Option<(Block, usize)>)
    requires
        p <= s.len(),
    ensures
        block_agrees(r, thematic_break(s@.skip(p as int)), p, s@.len()),
{
    if p < s.len() && rule_char(s[p]) {
        let run_end = skip_run(s, p, s[p]);
        match line_end_at(s, run_end) {
            Some(end) => if run_end - p >= 3 {
                Some((Block::ThematicBreak, end))
            } else {
                None
            },
            None => None,
        }
    } else {
        None
    }
}

/// The position behind the list marker at `p`, or `p` where there is none.
pub(crate) fn skip_item_marker(s: &Vec<char>, p: usize, ordered: bool) -> (q: usize)
    requires
        p <= s.len(),
    ensures
        p <= q <= s.len(),
        q - p == item_marker_len(s@.skip(p as int), ordered),
{
    if ordered {
        let digits_end = skip_digits(s, p);
        if digits_end > p && s.len() - digits_end >= 2 && s[digits_end] == '.' && space_char(
            s[digits_end + 1],
        ) {
            digits_end + 2
        } else {
            p
        }
    } else {
        if s.len() - p >= 2 && bullet_char(s[p]) && space_char(s[p + 1]) {
            p + 2
        } else {
            p
        }
    }
}

/// Matches one list item at `p`.
pub(crate) fn match_list_item(input: &Input, p: usize, ordered: bool) -> (r: Option<
    (Vec<Inline>, usize),
>)
    requires
        input.well_formed(),
        p <= input@.len(),
    ensures
        line_agrees(r, list_item(input@.skip(p as int), ordered), p, input@.len()),
{
    let content_start = skip_item_marker(&input.chars, p, ordered);
    if content_start > p {
        match_line(input, content_start)
    } else {
        None
    }
}

/// Matches as many list items of one kind as follow one another from `p` on.
pub(crate) fn match_list_items(input: &Input, p: usize, ordered: bool) -> (r: (
    Vec<Vec<Inline>>,
    usize,
))
    requires
        input.well_formed(),
        p <= input@.len(),
    ensures
        lines_agree(r, list_items(input@.skip(p as int), ordered), p, input@.len()),
{
    let mut items: Vec<Vec<Inline>> = Vec::new();
    let mut q: usize = p;
    loop
        invariant
            input.well_formed(),
            p <= q <= input.chars.len(),
            items.len() == 0 ==> q == p,
            items.len() > 0 ==> q > p,
            list_items(input@.skip(p as int), ordered).0 == line_views(items@) + list_items(
                input@.skip(q as int),
                ordered,
            ).0,
            list_items(input@.skip(p as int), ordered).1 == (q - p) + list_items(
                input@.skip(q as int),
                ordered,
            ).1,
        ensures
            lines_agree((items, q), list_items(input@.skip(p as int), ordered), p, input@.len()),
        decreases input.chars.len() - q,
    {
        match match_list_item(input, q, ordered) {
            Some((item, next)) => {
                proof {
                    let rest = list_items(input@.skip(next as int), ordered).0;
                    lemma_line_views_push(items@, item);
                    assert(line_views(items@) + (seq![inline_views(item@)] + rest) =~= line_views(
                        items@,
                    ).push(inline_views(item@)) + rest);
                }
                items.push(item);
                q = next;
            },
            None => {
                assert(line_views(items@) + Seq::<Seq<InlineView>>::empty() =~= line_views(
                    items@,
                ));
                break ;
            },
        }
    }
    (items, q)
}

/// Matches a list of one kind at `p`.
pub(crate) fn match_list(input: &Input, p: usize, ordered: bool) -> (r: Option<(Block, usize)>)
    requires
        input.well_formed(),
        p <= input@.len(),
    ensures
        block_agrees(r, list(input@.skip(p as int), ordered), p, input@.len()),
{
    let (items, end) = match_list_items(input, p, ordered);
    if items.len() > 0 {
        if ordered {
            Some((Block::OrderedList(items), end))
        } else {
            Some((Block::UnorderedList(items), end))
        }
    } else {
        None
    }
}

/// Whether three backticks stand at `p`.
pub(crate) fn fence_at(s: &Vec<char>, p: usize) -> (b: bool)
    requires
        p <= s.len(),
    ensures
        b == fence(s@.skip(p as int)),
{
    s.len() - p >= 3 && s[p] == '`' && s[p + 1] == '`' && s[p + 2] == '`'
}

/// The position behind the closing fence at `p`, where the line there is one.
pub(crate) fn match_closing_fence(s: &Vec<char>, p: usize) -> (r: Option<usize>)
    requires
        p <= s.len(),
    ensures
        match closing_fence(s@.skip(p as int)) {
            Some(n) => r == Some((p + n) as usize) && p < p + n <= s.len(),
            None => r is None,
        },
{
    if fence_at(s, p) {
        line_end_at(s, p + 3)
    } else {
        None
    }
}

/// Collects raw lines from `p` up to the closing fence and stops behind it.
pub(crate) fn match_code_lines(s: &Vec<char>, p: usize) -> (r: Option<(Vec<String>, usize)>)
    requires
        p <= s.len(),
    ensures
        match code_lines(s@.skip(p as int)) {
            Some((v, n)) => r matches Some((lines, q)) && string_views(lines@) == v && q == p + n
                && p < q <= s.len(),
            None => r is None,
        },
{
    let mut lines: Vec<String> = Vec::new();
    let mut q: usize = p;
    loop
        invariant
            p <= q <= s.len(),
            match code_lines(s@.skip(q as int)) {
                Some((v, n)) => code_lines(s@.skip(p as int)) == Some(
                    (string_views(lines@) + v, (q - p) + n),
                ),
                None => code_lines(s@.skip(p as int)) is None,
            },
        decreases s.len() - q,
    {
        match match_closing_fence(s, q) {
            Some(end) => {
                assert(string_views(lines@) + Seq::<Seq<char>>::empty() =~= string_views(lines@));
                return Some((lines, end));
            },
            None => {},
        }
        let line_stop = skip_raw_line(s, q);
        let e = newline_at(s, line_stop);
        if e == 0 {
            return None;
        }
        let raw = substring(s, q, line_stop);
        proof {
            let here = s@.skip(q as int);
            let k = line_stop - q;
            assert(here.take(k) =~= s@.subrange(q as int, line_stop as int));
            lemma_string_views_push(lines@, raw);
            match code_lines(s@.skip(line_stop + e)) {
                Some((v, n)) => {
                    assert(string_views(lines@) + (seq![here.take(k)] + v) =~= string_views(
                        lines@,
                    ).push(raw@) + v);
                },
                None => {},
            }
        }
        lines.push(raw);
        q = line_stop + e;
    }
}

/// Matches a fenced code block at `p`.
pub(crate) fn match_code_block(s: &Vec<char>, p: usize) -> (r: Option<(Block, usize)>)
    requires
        p <= s.len(),
    ensures
        block_agrees(r, code_block(s@.skip(p as int)), p, s@.len()),
{
    if fence_at(s, p) {
        let e = newline_at(s, p + 3);
        if e > 0 {
            return match match_code_lines(s, p + 3 + e) {
                Some((lines, end)) => Some((Block::CodeBlock(lines), end)),
                None => None,
            };
        }
    }
    None
}

/// Matches a special block at `p`: a header, else a thematic break, else an
/// ordered list, else an unordered list, else a code block.
pub(crate) fn match_special_block(input: &Input, p: usize) -> (r: Option<(Block, usize)>)
    requires
        input.well_formed(),
        p <= input@.len(),
    ensures
        block_agrees(r, special_block(input@.skip(p as int)), p, input@.len()),
{
    let found = match_header(input, p);
    if found.is_some() {
        return found;
    }
    let found = match_thematic_break(&input.chars, p);
    if found.is_some() {
        return found;
    }
    let found = match_list(input, p, true);
    if found.is_some() {
        return found;
    }
    let found = match_list(input, p, false);
    if found.is_some() {
        return found;
    }
    match_code_block(&input.chars, p)
}

/// Matches one line of a paragraph at `p`.
pub(crate) fn match_paragraph_line(input: &Input, p: usize) -> (r: Option<(Vec<Inline>, usize)>)
    requires
        input.well_formed(),
        p <= input@.len(),
    ensures
        line_agrees(r, paragraph_line(input@.skip(p as int)), p, input@.len()),
{
    let s = &input.chars;
    if match_special_block(input, p).is_some() || fence_at(s, p) || skip_blank_line(s, p) > p {
        None
    } else {
        match_line(input, p)
    }
}

/// Matches as many paragraph lines as follow one another from `p` on.
pub(crate) fn match_paragraph_lines(input: &Input, p: usize) -> (r: (Vec<Vec<Inline>>, usize))
    requires
        input.well_formed(),
        p <= input@.len(),
    ensures
        lines_agree(r, paragraph_lines(input@.skip(p as int)), p, input@.len()),
{
    let mut lines: Vec<Vec<Inline>> = Vec::new();
    let mut q: usize = p;
    loop
        invariant
            input.well_formed(),
            p <= q <= input.chars.len(),
            lines.len() == 0 ==> q == p,
            lines.len() > 0 ==> q > p,
            paragraph_lines(input@.skip(p as int)).0 == line_views(lines@) + paragraph_lines(
                input@.skip(q as int),
            ).0,
            paragraph_lines(input@.skip(p as int)).1 == (q - p) + paragraph_lines(
                input@.skip(q as int),
            ).1,
        ensures
            lines_agree((lines, q), paragraph_lines(input@.skip(p as int)), p, input@.len()),
        decreases input.chars.len() - q,
    {
        match match_paragraph_line(input, q) {
            Some((content, next)) => {
                proof {
                    let rest = paragraph_lines(input@.skip(next as int)).0;
                    lemma_line_views_push(lines@, content);
                    assert(line_views(lines@) + (seq![inline_views(content@)] + rest)
                        =~= line_views(lines@).push(inline_views(content@)) + rest);
                }
                lines.push(content);
                q = next;
            },
            None => {
                assert(line_views(lines@) + Seq::<Seq<InlineView>>::empty() =~= line_views(
                    lines@,
                ));
                break ;
            },
        }
    }
    (lines, q)
}

/// Matches a paragraph at `p`.
pub(crate) fn match_paragraph(input: &Input, p: usize) -> (r: Option<(Block, usize)>)
    requires
        input.well_formed(),
        p <= input@.len(),
    ensures
        block_agrees(r, paragraph(input@.skip(p as int)), p, input@.len()),
{
    let (lines, end) = match_paragraph_lines(input, p);
    if lines.len() > 0 {
        Some((Block::Paragraph(lines), end))
    } else {
        None
    }
}

/// Matches one block at `p`: a special block where one matches, else a
/// paragraph.
pub(crate) fn match_block(input: &Input, p: usize) -> (r: Option<(Block, usize)>)
    requires
        input.well_formed(),
        p <= input@.len(),
    ensures
        block_agrees(r, block(input@.skip(p as int)), p, input@.len()),
{
    reveal(block);
    let found = match_special_block(input, p);
    if found.is_some() {
        return found;
    }
    match_paragraph(input, p)
}

/// Matches as many blocks as follow one another from `p` on, and the blank
/// lines behind each.
pub(crate) fn match_blocks(input: &Input, p: usize) -> (r: (Vec<Block>, usize))
    requires
        input.well_formed(),
        p <= input@.len(),
    ensures
        block_views(r.0@) == blocks(input@.skip(p as int)).0,
        r.1 == p + blocks(input@.skip(p as int)).1,
        p <= r.1 <= input.chars.len(),
        block(input@.skip(r.1 as int)) is None,
        r.1 > p ==> blank_line_len(input@.skip(r.1 as int)) == 0,
{
    let mut found: Vec<Block> = Vec::new();
    let mut q: usize = p;
    loop
        invariant
            input.well_formed(),
            p <= q <= input.chars.len(),
            q > p ==> blank_line_len(input@.skip(q as int)) == 0,
            blocks(input@.skip(p as int)).0 == block_views(found@) + blocks(
                input@.skip(q as int),
            ).0,
            blocks(input@.skip(p as int)).1 == (q - p) + blocks(input@.skip(q as int)).1,
        ensures
            p <= q <= input.chars.len(),
            block_views(found@) == blocks(input@.skip(p as int)).0,
            q == p + blocks(input@.skip(p as int)).1,
            block(input@.skip(q as int)) is None,
            q > p ==> blank_line_len(input@.skip(q as int)) == 0,
        decreases input.chars.len() - q,
    {
        match match_block(input, q) {
            Some((b, end)) => {
                let next = skip_blank_lines(&input.chars, end);
                proof {
                    let rest = blocks(input@.skip(next as int)).0;
                    lemma_block_views_push(found@, b);
                    assert(block_views(found@) + (seq![block_view(b)] + rest) =~= block_views(
                        found@,
                    ).push(block_view(b)) + rest);
                }
                found.push(b);
                q = next;
            },
            None => {
                assert(block_views(found@) + Seq::<BlockView>::empty() =~= block_views(found@));
                break ;
            },
        }
    }
    (found, q)
}

} // verus!
