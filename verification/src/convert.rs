//! The conversion from Markdown text to HTML text: match, then render.

use vstd::prelude::*;
use crate::error::{failure_text, ParserError};
use crate::grammar::{column_of, document, line_of};
use crate::matcher::parse_document;
use crate::render::{render, render_document};

verus! {

/// What the conversion of the text `s` gives: the rendering of its document,
/// or the message of the failure.
pub open spec fn conversion(s: Seq<char>) -> Result<Seq<char>, Seq<char>> {
    match document(s) {
        Ok(d) => Ok(render_document(d)),
        Err((rule, offset)) => Err(failure_text(rule, line_of(s, offset), column_of(s, offset))),
    }
}

/// Converts Markdown to HTML. A text that is not in the grammar gives
/// `MarkdownParseError` and no HTML at all.
pub fn markdown_to_html(markdown: String) -> (r: Result<String, ParserError>)
    ensures
        match conversion(markdown@) {
            Ok(html) => r matches Ok(out) && out@ == html,
            Err(detail) => r matches Err(ParserError::MarkdownParseError(m)) && m@ == detail,
        },
{
    match parse_document(markdown.as_str()) {
        Ok(doc) => Ok(render(&doc)),
        Err(e) => Err(ParserError::MarkdownParseError(e.message())),
    }
}

} // verus!
