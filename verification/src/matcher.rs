//! The grammar matcher: from text to a document tree, or to the place where
//! the text leaves the grammar.

use vstd::prelude::*;
use vstd::utf8::encode_utf8;
use crate::blocks::{
    fence_at, match_block, match_blocks, match_code_block, match_header, match_list,
    match_paragraph, match_special_block, match_thematic_break,
};
use crate::bounds::{lemma_document_well_formed, lemma_failure_inside};
use crate::bytes::{byte_offset_of, lemma_byte_offset_step, utf8_width};
use crate::error::GrammarError;
use crate::grammar::{column_of, document, line_of, rule_len, Rule};
use crate::scan::{newline_at, skip_blank_lines, skip_run, skip_text, skip_until, space_char};
use crate::spans::{
    match_bold, match_italic, match_line, match_link, match_span, match_spans, Input,
};
use crate::tree::Document;

verus! {

broadcast use vstd::seq_lib::lemma_seq_skip_of_skip;

/// Where the character at position `at` stands: its offset in bytes, and
/// its line and column, both counted from 1.
pub(crate) fn locate(input: &Input, at: usize) -> (r: (usize, usize, usize))
    requires
        input.well_formed(),
        at < input@.len(),
    ensures
        r.0 == byte_offset_of(input@, at as int),
        r.1 == line_of(input@, at as int),
        r.2 == column_of(input@, at as int),
{
    let s = &input.chars;
    let mut bytes: usize = 0;
    let mut line: usize = 1;
    let mut column: usize = 1;
    let mut i: usize = 0;
    assert(s@.take(0) =~= Seq::<char>::empty());
    while i < at
        invariant
            i <= at < s.len(),
            encode_utf8(s@).len() <= usize::MAX,
            bytes == byte_offset_of(s@, i as int),
            line == line_of(s@, i as int),
            column == column_of(s@, i as int),
            line <= i + 1,
            column <= i + 1,
        decreases at - i,
    {
        proof {
            lemma_byte_offset_step(s@, i as int);
        }
        bytes += utf8_width(s[i]);
        if s[i] == '\n' {
            line += 1;
            column = 1;
        } else {
            column += 1;
        }
        i += 1;
    }
    (bytes, line, column)
}

/// Whether an outcome of the matcher is the one that the grammar gives for
/// the text `s`.
pub open spec fn outcome_agrees(r: Result<Document, GrammarError>, s: Seq<char>) -> bool {
    match document(s) {
        Ok(d) => r matches Ok(doc) && doc@ == d && doc@.well_formed(),
        Err((rule, at)) => r matches Err(e) && e.rule == rule && e.offset == byte_offset_of(s, at)
            && e.line == line_of(s, at) && e.column == column_of(s, at),
    }
}

/// Matches a whole document against the grammar.
pub(crate) fn parse_input(input: &Input) -> (r: Result<Document, GrammarError>)
    requires
        input.well_formed(),
    ensures
        outcome_agrees(r, input@),
{
    let s = &input.chars;
    assert(s@.skip(0) =~= s@);
    let lead = skip_blank_lines(s, 0);
    let (found, stop) = match_blocks(input, lead);
    if stop == s.len() {
        proof {
            lemma_document_well_formed(s@);
        }
        Ok(Document { blocks: found })
    } else {
        let rule: Rule;
        let at: usize;
        if fence_at(s, stop) {
            rule = Rule::CodeBlock;
            at = stop;
        } else {
            rule = Rule::Inline;
            at = input.span_ends[stop];
        }
        proof {
            lemma_failure_inside(s@.skip(stop as int));
        }
        let (offset, line, column) = locate(input, at);
        Err(GrammarError { rule, offset, line, column })
    }
}

/// Matches a whole document against the grammar: the tree where the text is
/// in the grammar, else the rule that failed and the place of the failure.
pub fn parse_document(text: &str) -> (r: Result<Document, GrammarError>)
    ensures
        outcome_agrees(r, text@),
{
    let input = Input::new(text);
    parse_input(&input)
}

/// The end of a match, without its node.
fn end_of<T>(found: Option<(T, usize)>) -> (r: Option<usize>)
    ensures
        match found {
            Some((_, q)) => r == Some(q),
            None => r is None,
        },
{
    match found {
        Some((_, q)) => Some(q),
        None => None,
    }
}

/// Matches one rule against the head of `text`: the number of characters
/// that the rule takes, or `None` where it does not match there. What
/// follows the match is not looked at.
pub fn match_rule(rule: Rule, text: &str) -> (r: Option<usize>)
    ensures
        match rule_len(rule, text@) {
            Some(n) => r == Some(n as usize) && n <= text@.len(),
            None => r is None,
        },
{
    let input = Input::new(text);
    let s = &input.chars;
    assert(s@.skip(0) =~= s@);
    match rule {
        Rule::Space => if s.len() > 0 && space_char(s[0]) {
            Some(1)
        } else {
            None
        },
        Rule::Newline => {
            let n = newline_at(s, 0);
            if n > 0 {
                Some(n)
            } else {
                None
            }
        },
        Rule::Blankline => {
            let n = skip_blank_lines(s, 0);
            if n > 0 {
                Some(n)
            } else {
                None
            }
        },
        Rule::Markdown => if parse_input(&input).is_ok() {
            Some(s.len())
        } else {
            None
        },
        Rule::Block => end_of(match_block(&input, 0)),
        Rule::SpecialBlock => end_of(match_special_block(&input, 0)),
        Rule::Header => end_of(match_header(&input, 0)),
        Rule::HeaderHashtags => {
            let n = skip_run(s, 0, '#');
            if n > 6 {
                Some(6)
            } else if n > 0 {
                Some(n)
            } else {
                None
            }
        },
        Rule::ThematicBreak => end_of(match_thematic_break(s, 0)),
        Rule::List => {
            let ordered = match_list(&input, 0, true);
            if ordered.is_some() {
                end_of(ordered)
            } else {
                end_of(match_list(&input, 0, false))
            }
        },
        Rule::UnorderedList => end_of(match_list(&input, 0, false)),
        Rule::OrderedList => end_of(match_list(&input, 0, true)),
        Rule::CodeBlock => end_of(match_code_block(s, 0)),
        Rule::Paragraph => end_of(match_paragraph(&input, 0)),
        Rule::Line => end_of(match_line(&input, 0)),
        Rule::LinePars => {
            let (items, end) = match_spans(&input, 0);
            if items.len() > 0 {
                Some(end)
            } else {
                None
            }
        },
        Rule::Inline => end_of(match_span(&input, 0)),
        Rule::Link => end_of(match_link(&input, 0)),
        Rule::LinkText => Some(skip_until(s, 0, ']')),
        Rule::LinkHref => Some(skip_until(s, 0, ')')),
        Rule::Bold => end_of(match_bold(&input, 0)),
        Rule::Italic => end_of(match_italic(&input, 0)),
        Rule::Text => {
            let n = skip_text(s, 0);
            if n > 0 {
                Some(n)
            } else {
                None
            }
        },
    }
}

} // verus!
