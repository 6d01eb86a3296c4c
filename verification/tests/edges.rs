use rust_markdown_parser::{
    markdown_to_html, match_rule, parse_document, render, Block, Document, GrammarError, Inline,
    ParserError, Rule,
};

fn html(markdown: &str) -> String {
    match markdown_to_html(String::from(markdown)) {
        Ok(out) => out,
        Err(e) => panic!("conversion failed: {}", e.message()),
    }
}

fn failure(markdown: &str) -> GrammarError {
    match parse_document(markdown) {
        Ok(_) => panic!("should not parse: {}", markdown),
        Err(e) => e,
    }
}

fn text(s: &str) -> Inline {
    Inline::Text(String::from(s))
}

#[test]
fn empty_text_is_an_empty_document() {
    assert_eq!(parse_document(""), Ok(Document { blocks: vec![] }));
    assert_eq!(html(""), "");
}

#[test]
fn blank_lines_alone_are_an_empty_document() {
    assert_eq!(html("\n\n  \t\n\r\n"), "");
}

#[test]
fn leading_blank_lines_are_skipped() {
    assert_eq!(html("\n\n# T\n"), "<h1>T</h1>\n");
}

#[test]
fn carriage_return_line_feed_ends_a_line() {
    assert_eq!(html("# T\r\nabc\r\ndef\r\n"), "<h1>T</h1>\n<p>abc</p>\n<p>def</p>\n");
    assert_eq!(html("```\r\nx\r\n```\r\n"), "<pre><code>\nx\n</code></pre>\n");
}

#[test]
fn lone_carriage_return_is_text() {
    assert_eq!(html("a\rb"), "<p>a\rb</p>\n");
}

#[test]
fn empty_link() {
    assert_eq!(html("[]()"), "<p><a href=\"\"></a></p>\n");
}

#[test]
fn link_parts_are_not_parsed() {
    assert_eq!(html("[a*b](c_d)"), "<p><a href=\"c_d\">a*b</a></p>\n");
    let doc = parse_document("[a*b](c_d)").unwrap();
    let expected = Document {
        blocks: vec![Block::Paragraph(vec![vec![Inline::Link {
            text: String::from("a*b"),
            href: String::from("c_d"),
        }]])],
    };
    assert_eq!(doc, expected);
}

#[test]
fn thematic_breaks() {
    assert_eq!(html("---"), "<hr/>\n");
    assert_eq!(html("*******\n___\n"), "<hr/>\n<hr/>\n");
    assert_eq!(html("--"), "<p>--</p>\n");
    assert_eq!(html("++++"), "<p>++++</p>\n");
    assert_eq!(html("--- "), "<p>--- </p>\n");
}

#[test]
fn paragraph_lines_render_one_element_each() {
    assert_eq!(html("Hello, \nworld"), "<p>Hello, </p>\n<p>world</p>\n");
    let doc = parse_document("Hello, \nworld").unwrap();
    let expected = Document {
        blocks: vec![Block::Paragraph(vec![vec![text("Hello, ")], vec![text("world")]])],
    };
    assert_eq!(doc, expected);
}

#[test]
fn blank_line_splits_paragraphs() {
    let doc = parse_document("a\n   \nb").unwrap();
    let expected = Document {
        blocks: vec![
            Block::Paragraph(vec![vec![text("a")]]),
            Block::Paragraph(vec![vec![text("b")]]),
        ],
    };
    assert_eq!(doc, expected);
}

#[test]
fn special_block_ends_a_paragraph() {
    assert_eq!(
        html("para\n- item\n# head\nmore"),
        "<p>para</p>\n<ul>\n<li>item</li>\n</ul>\n<h1>head</h1>\n<p>more</p>\n"
    );
}

#[test]
fn list_kinds_do_not_mix() {
    assert_eq!(
        html("- a\n1. b\n- c"),
        "<ul>\n<li>a</li>\n</ul>\n<ol>\n<li>b</li>\n</ol>\n<ul>\n<li>c</li>\n</ul>\n"
    );
}

#[test]
fn code_block_keeps_lines_verbatim() {
    assert_eq!(html("```\n```"), "<pre><code>\n</code></pre>\n");
    assert_eq!(html("```\n```x\n\n  **b**\n```\n"), "<pre><code>\n```x\n\n  **b**\n</code></pre>\n");
    let doc = parse_document("```\n# a\n\n```").unwrap();
    let expected = Document {
        blocks: vec![Block::CodeBlock(vec![String::from("# a"), String::from("")])],
    };
    assert_eq!(doc, expected);
}

#[test]
fn text_beyond_ascii() {
    assert_eq!(
        html("# Привіт\n\nсвіт **жирний** ✓"),
        "<h1>Привіт</h1>\n<p>світ <strong>жирний</strong> ✓</p>\n"
    );
}

#[test]
fn unmatched_bold_fails() {
    let e = failure("Some **bold");
    assert_eq!(e, GrammarError { rule: Rule::Inline, offset: 5, line: 1, column: 6 });
    assert_eq!(e.message(), "1:6: expected inline");
    assert_eq!(
        markdown_to_html(String::from("Some **bold")),
        Err(ParserError::MarkdownParseError(String::from("1:6: expected inline")))
    );
}

#[test]
fn unmatched_marker_on_a_later_line() {
    let e = failure("ok\nbad *x");
    assert_eq!(e, GrammarError { rule: Rule::Inline, offset: 7, line: 2, column: 5 });
    assert_eq!(e.message(), "2:5: expected inline");
}

#[test]
fn failure_offsets_count_bytes_and_columns_count_characters() {
    let input = "світ\n\nя [x";
    let e = failure(input);
    assert_eq!(e, GrammarError { rule: Rule::Inline, offset: 13, line: 3, column: 3 });
    assert_eq!(&input[e.offset..], "[x");
}

#[test]
fn failure_far_down_the_text() {
    let mut input = String::new();
    let mut i = 0;
    while i < 11 {
        input.push_str("line\n\n");
        i += 1;
    }
    input.push_str("0123456789_");
    let e = failure(&input);
    assert_eq!(e, GrammarError { rule: Rule::Inline, offset: 76, line: 23, column: 11 });
    assert_eq!(e.message(), "23:11: expected inline");
}

#[test]
fn mismatched_delimiters_fail() {
    assert!(parse_document("**a__").is_err());
    assert!(parse_document("*a_").is_err());
    assert!(parse_document("a * b").is_err());
    assert!(parse_document("[link]https://example.com").is_err());
}

#[test]
fn error_messages() {
    assert_eq!(
        ParserError::MarkdownParseError(String::from("1:1: expected code_block")).message(),
        "Markdown parse error: 1:1: expected code_block"
    );
    assert_eq!(
        ParserError::FileOpenError(String::from("a.md")).message(),
        "Error while trying to open a.md"
    );
    assert_eq!(
        ParserError::FileReadError(String::from("a.md")).message(),
        "Error while trying to read a.md"
    );
}

#[test]
fn rule_matches_have_lengths() {
    assert_eq!(match_rule(Rule::Space, " x"), Some(1));
    assert_eq!(match_rule(Rule::Newline, "\r\nx"), Some(2));
    assert_eq!(match_rule(Rule::Blankline, "\n\r\n\nabc"), Some(4));
    assert_eq!(match_rule(Rule::Blankline, "   \t  \n\t   \t\r\n   \t\n"), Some(19));
    assert_eq!(match_rule(Rule::HeaderHashtags, "###"), Some(3));
    assert_eq!(match_rule(Rule::HeaderHashtags, "#######"), Some(6));
    assert_eq!(match_rule(Rule::Header, "## Two\nrest"), Some(7));
    assert_eq!(match_rule(Rule::ThematicBreak, "-----\nrest"), Some(6));
    assert_eq!(match_rule(Rule::LinkText, "asd]"), Some(3));
    assert_eq!(match_rule(Rule::LinkText, ""), Some(0));
    assert_eq!(match_rule(Rule::LinkHref, "asd)"), Some(3));
    assert_eq!(match_rule(Rule::Link, "[a](b) c"), Some(6));
    assert_eq!(match_rule(Rule::Bold, "**b** c"), Some(5));
    assert_eq!(match_rule(Rule::Italic, "_i_ c"), Some(3));
    assert_eq!(match_rule(Rule::Text, "hello\nx"), Some(5));
    assert_eq!(match_rule(Rule::Text, "hello*x"), Some(5));
    assert_eq!(match_rule(Rule::Inline, "hello*x"), Some(5));
    assert_eq!(match_rule(Rule::LinePars, "a *b* c\nd"), Some(7));
    assert_eq!(match_rule(Rule::Line, "a *b* c\nd"), Some(8));
    assert_eq!(match_rule(Rule::Paragraph, "a\nb\n\nc"), Some(4));
    assert_eq!(match_rule(Rule::OrderedList, "1. a\n2. b\n- c"), Some(10));
    assert_eq!(match_rule(Rule::UnorderedList, "- a\n1. b"), Some(4));
    assert_eq!(match_rule(Rule::List, "- a\n1. b"), Some(4));
    assert_eq!(match_rule(Rule::CodeBlock, "```\nx\n```\nrest"), Some(10));
    assert_eq!(match_rule(Rule::SpecialBlock, "---\nrest"), Some(4));
    assert_eq!(match_rule(Rule::Block, "abc\n\nrest"), Some(4));
    assert_eq!(match_rule(Rule::Markdown, "# a\n\nb\n"), Some(7));
    assert_eq!(match_rule(Rule::Markdown, "a *"), None);
    assert_eq!(match_rule(Rule::Markdown, ""), Some(0));
}

#[test]
fn renderer_takes_any_tree() {
    let doc = Document {
        blocks: vec![
            Block::Header { level: 12, content: vec![] },
            Block::Header { level: 0, content: vec![text("z")] },
            Block::ThematicBreak,
            Block::OrderedList(vec![]),
            Block::UnorderedList(vec![vec![
                Inline::Bold(vec![]),
                Inline::Italic(vec![text("i"), Inline::Bold(vec![text("b")])]),
            ]]),
            Block::CodeBlock(vec![String::from("<x>")]),
            Block::Paragraph(vec![vec![Inline::Link {
                text: String::from("t"),
                href: String::from("h\"q"),
            }]]),
            Block::Header { level: 255, content: vec![text("w")] },
        ],
    };
    assert_eq!(
        render(&doc),
        "<h12></h12>\n<h0>z</h0>\n<hr/>\n<ol>\n</ol>\n<ul>\n<li><strong></strong><em>i<strong>b</strong></em></li>\n</ul>\n<pre><code>\n<x>\n</code></pre>\n<p><a href=\"h\"q\">t</a></p>\n<h255>w</h255>\n"
    );
}
