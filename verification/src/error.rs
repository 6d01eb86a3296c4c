//! Errors: where the grammar gave up, and the error that a conversion
//! reports.

use vstd::prelude::*;
use crate::digits::{decimal, push_decimal};
use crate::grammar::Rule;

verus! {

/// The name of a rule as it is written in messages.
pub open spec fn rule_name_text(rule: Rule) -> Seq<char> {
    match rule {
        Rule::Space => "space"@,
        Rule::Newline => "newline"@,
        Rule::Blankline => "blankline"@,
        Rule::Markdown => "markdown"@,
        Rule::Block => "block"@,
        Rule::SpecialBlock => "special_block"@,
        Rule::Header => "header"@,
        Rule::HeaderHashtags => "header_hashtags"@,
        Rule::ThematicBreak => "thematic_break"@,
        Rule::List => "list"@,
        Rule::UnorderedList => "unordered_list"@,
        Rule::OrderedList => "ordered_list"@,
        Rule::CodeBlock => "code_block"@,
        Rule::Paragraph => "paragraph"@,
        Rule::Line => "line"@,
        Rule::LinePars => "line_pars"@,
        Rule::Inline => "inline"@,
        Rule::Link => "link"@,
        Rule::LinkText => "link_text"@,
        Rule::LinkHref => "link_href"@,
        Rule::Bold => "bold"@,
        Rule::Italic => "italic"@,
        Rule::Text => "text"@,
    }
}

/// The name of a rule as it is written in messages.
pub fn rule_name(rule: Rule) -> (name: String)
    ensures
        name@ == rule_name_text(rule),
{
    match rule {
        Rule::Space => "space".to_owned(),
        Rule::Newline => "newline".to_owned(),
        Rule::Blankline => "blankline".to_owned(),
        Rule::Markdown => "markdown".to_owned(),
        Rule::Block => "block".to_owned(),
        Rule::SpecialBlock => "special_block".to_owned(),
        Rule::Header => "header".to_owned(),
        Rule::HeaderHashtags => "header_hashtags".to_owned(),
        Rule::ThematicBreak => "thematic_break".to_owned(),
        Rule::List => "list".to_owned(),
        Rule::UnorderedList => "unordered_list".to_owned(),
        Rule::OrderedList => "ordered_list".to_owned(),
        Rule::CodeBlock => "code_block".to_owned(),
        Rule::Paragraph => "paragraph".to_owned(),
        Rule::Line => "line".to_owned(),
        Rule::LinePars => "line_pars".to_owned(),
        Rule::Inline => "inline".to_owned(),
        Rule::Link => "link".to_owned(),
        Rule::LinkText => "link_text".to_owned(),
        Rule::LinkHref => "link_href".to_owned(),
        Rule::Bold => "bold".to_owned(),
        Rule::Italic => "italic".to_owned(),
        Rule::Text => "text".to_owned(),
    }
}

/// What a failure reads like: line, column and the rule that was expected.
pub open spec fn failure_text(rule: Rule, line: int, column: int) -> Seq<char> {
    decimal(line) + ":"@ + decimal(column) + ": expected "@ + rule_name_text(rule)
}

/// The input does not conform to the grammar.
#[derive(Debug, Clone, Copy, PartialEq, Eq)]
pub struct GrammarError {
    /// The rule that failed to match.
    pub rule: Rule,
    /// Where it failed, in bytes from the start of the text.
    pub offset: usize,
    /// The line of that place, counted from 1.
    pub line: usize,
    /// The column of that place within its line, counted in characters
    /// from 1.
    pub column: usize,
}

impl GrammarError {
    /// The message of this error, as a mathematical value.
    pub open spec fn message_text(self) -> Seq<char> {
        failure_text(self.rule, self.line as int, self.column as int)
    }

    /// Line, column and the rule that was expected, as in `3:1: expected
    /// code_block`.
    pub fn message(&self) -> (m: String)
        ensures
            m@ == self.message_text(),
    {
        let mut m = String::new();
        push_decimal(&mut m, self.line);
        m.append(":");
        push_decimal(&mut m, self.column);
        m.append(": expected ");
        let name = rule_name(self.rule);
        m.append(name.as_str());
        assert(m@ =~= self.message_text());
        m
    }
}

/// What a conversion may fail with. The two file variants are for callers
/// that read the text from a file; the conversion itself never makes them.
#[derive(Debug, PartialEq, Eq)]
pub enum ParserError {
    /// The text is not in the grammar; the payload says where and why.
    MarkdownParseError(String),
    /// The file at this path could not be opened.
    FileOpenError(String),
    /// The file at this path could not be read.
    FileReadError(String),
}

impl ParserError {
    /// The message of this error, as a mathematical value.
    pub open spec fn message_text(self) -> Seq<char> {
        match self {
            ParserError::MarkdownParseError(detail) => "Markdown parse error: "@ + detail@,
            ParserError::FileOpenError(path) => "Error while trying to open "@ + path@,
            ParserError::FileReadError(path) => "Error while trying to read "@ + path@,
        }
    }

    /// The message of this error.
    pub fn message(&self) -> (m: String)
        ensures
            m@ == self.message_text(),
    {
        let mut m = String::new();
        match self {
            ParserError::MarkdownParseError(detail) => {
                m.append("Markdown parse error: ");
                m.append(detail.as_str());
            },
            ParserError::FileOpenError(path) => {
                m.append("Error while trying to open ");
                m.append(path.as_str());
            },
            ParserError::FileReadError(path) => {
                m.append("Error while trying to read ");
                m.append(path.as_str());
            },
        }
        assert(m@ =~= self.message_text());
        m
    }
}

} // verus!
