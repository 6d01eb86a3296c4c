use rust_markdown_parser::{
    markdown_to_html, parse_document, render, Block, Document, Inline, ParserError, Rule,
};

fn html(markdown: &str) -> String {
    match markdown_to_html(String::from(markdown)) {
        Ok(out) => out,
        Err(e) => panic!("conversion failed: {}", e.message()),
    }
}

fn text(s: &str) -> Inline {
    Inline::Text(String::from(s))
}

#[test]
fn nested_italic_inside_bold() {
    assert_eq!(
        html("**bold with _nested italic_**"),
        "<p><strong>bold with <em>nested italic</em></strong></p>\n"
    );
}

#[test]
fn nested_bold_inside_italic() {
    assert_eq!(html("_a **b** c_"), "<p><em>a <strong>b</strong> c</em></p>\n");
}

#[test]
fn triple_delimiters_nest_italic_in_bold() {
    assert_eq!(html("***x***"), "<p><strong><em>x</em></strong></p>\n");
}

#[test]
fn heading_then_paragraph() {
    assert_eq!(
        html("# Heading 1\n\nText with **bold** and _italic_.\n"),
        "<h1>Heading 1</h1>\n<p>Text with <strong>bold</strong> and <em>italic</em>.</p>\n"
    );
}

#[test]
fn single_link() {
    assert_eq!(
        html("[Link](https://example.com)"),
        "<p><a href=\"https://example.com\">Link</a></p>\n"
    );
}

#[test]
fn ordered_list_of_two() {
    assert_eq!(html("1. a\n2. b"), "<ol>\n<li>a</li>\n<li>b</li>\n</ol>\n");
}

#[test]
fn code_passes_through_unescaped() {
    assert_eq!(
        html("```\nraw <b>text</b>\n```"),
        "<pre><code>\nraw <b>text</b>\n</code></pre>\n"
    );
}

#[test]
fn rendering_twice_gives_the_same_html() {
    let doc = parse_document("# T\n\n- a\n- b\n\n```\nx\n```\n").unwrap();
    let first = render(&doc);
    let second = render(&doc);
    assert_eq!(first, second);
    assert_eq!(
        first,
        "<h1>T</h1>\n<ul>\n<li>a</li>\n<li>b</li>\n</ul>\n<pre><code>\nx\n</code></pre>\n"
    );
}

#[test]
fn equal_trees_render_equally() {
    let parsed = parse_document("## Two\n").unwrap();
    let built = Document {
        blocks: vec![Block::Header { level: 2, content: vec![text("Two")] }],
    };
    assert_eq!(parsed, built);
    assert_eq!(render(&parsed), render(&built));
}

#[test]
fn header_levels_one_to_six() {
    let mut n = 1;
    while n <= 6 {
        let line = format!("{} Title", "#".repeat(n));
        let doc = parse_document(&line).unwrap();
        let expected = Document {
            blocks: vec![Block::Header { level: n as u8, content: vec![text("Title")] }],
        };
        assert_eq!(doc, expected);
        assert_eq!(render(&doc), format!("<h{}>Title</h{}>\n", n, n));
        n += 1;
    }
}

#[test]
fn seven_hashes_are_a_paragraph() {
    let doc = parse_document("####### Title").unwrap();
    let expected = Document {
        blocks: vec![Block::Paragraph(vec![vec![text("####### Title")]])],
    };
    assert_eq!(doc, expected);
    assert_eq!(html("####### Title"), "<p>####### Title</p>\n");
}

#[test]
fn hash_without_blank_is_a_paragraph() {
    assert_eq!(html("#NoSpace"), "<p>#NoSpace</p>\n");
}

#[test]
fn tab_after_hashes_makes_a_header() {
    assert_eq!(html("#\tTitle"), "<h1>Title</h1>\n");
}

#[test]
fn mixed_bullets_make_one_list() {
    let doc = parse_document("- a\n* b\n+ c\n").unwrap();
    let expected = Document {
        blocks: vec![Block::UnorderedList(vec![
            vec![text("a")],
            vec![text("b")],
            vec![text("c")],
        ])],
    };
    assert_eq!(doc, expected);
    assert_eq!(
        html("- a\n* b\n+ c\n"),
        "<ul>\n<li>a</li>\n<li>b</li>\n<li>c</li>\n</ul>\n"
    );
}

#[test]
fn ordered_numbers_are_not_read() {
    assert_eq!(
        html("10. Item A\n11. Item B"),
        "<ol>\n<li>Item A</li>\n<li>Item B</li>\n</ol>\n"
    );
    assert_eq!(html("7. x\n7. y\n3. z\n"), "<ol>\n<li>x</li>\n<li>y</li>\n<li>z</li>\n</ol>\n");
}

#[test]
fn unclosed_fence_fails_the_conversion() {
    let r = markdown_to_html(String::from("```\nUnclosed code block"));
    assert_eq!(
        r,
        Err(ParserError::MarkdownParseError(String::from("1:1: expected code_block")))
    );
    let e = parse_document("```\nUnclosed code block").unwrap_err();
    assert_eq!(e.rule, Rule::CodeBlock);
    assert_eq!(e.offset, 0);
    assert_eq!(e.line, 1);
    assert_eq!(e.column, 1);
}

#[test]
fn unclosed_fence_behind_other_blocks_fails_too() {
    let e = parse_document("# T\n\n```\ncode\n").unwrap_err();
    assert_eq!(e.rule, Rule::CodeBlock);
    assert_eq!(e.offset, 5);
    assert_eq!(e.line, 3);
    assert_eq!(e.column, 1);
    assert!(markdown_to_html(String::from("# T\n\n```\ncode\n")).is_err());
}

#[test]
fn fence_with_text_behind_it_opens_nothing() {
    let e = parse_document("``` Code without newline").unwrap_err();
    assert_eq!(e.rule, Rule::CodeBlock);
    assert_eq!(e.offset, 0);
}

#[test]
fn fence_closed_only_inside_a_line_is_unclosed() {
    assert!(markdown_to_html(String::from("```\nabc```")).is_err());
}
