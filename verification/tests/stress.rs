use rust_markdown_parser::{markdown_to_html, match_rule, parse_document, Rule};

#[test]
fn many_unclosed_stars_fail_fast() {
    let input = format!("{}x", "*".repeat(3000));
    let e = parse_document(&input).unwrap_err();
    assert_eq!(e.rule, Rule::Inline);
    assert_eq!(e.offset, 0);
}

#[test]
fn many_underscores_between_words() {
    let mut input = String::from("w");
    let mut i = 0;
    while i < 4001 {
        input.push_str("_w");
        i += 1;
    }
    let parsed = parse_document(&input);
    assert_eq!(parsed.is_ok(), match_rule(Rule::Markdown, &input).is_some());
    assert_eq!(parsed.is_ok(), markdown_to_html(input).is_ok());
}

#[test]
fn many_open_brackets() {
    let input = "[".repeat(20000);
    let e = parse_document(&input).unwrap_err();
    assert_eq!(e.rule, Rule::Inline);
    assert_eq!(e.offset, 0);
}

#[test]
fn long_line_of_plain_text() {
    let input = "lorem ipsum ".repeat(30000);
    let html = markdown_to_html(input.clone()).unwrap();
    assert_eq!(html, format!("<p>{}</p>\n", input));
}

#[test]
fn many_lines() {
    let input = "# head\n\ntext with **bold** and _italic_\n- item\n\n".repeat(5000);
    let html = markdown_to_html(input).unwrap();
    let expected = "<h1>head</h1>\n<p>text with <strong>bold</strong> and <em>italic</em></p>\n<ul>\n<li>item</li>\n</ul>\n"
        .repeat(5000);
    assert_eq!(html, expected);
}

#[test]
fn emphasis_nested_many_levels_deep() {
    let levels = 100;
    let input = format!("{}x{}", "*_".repeat(levels), "_*".repeat(levels));
    let html = markdown_to_html(input).unwrap();
    let expected = format!(
        "<p>{}x{}</p>\n",
        "<em><em>".repeat(levels),
        "</em></em>".repeat(levels)
    );
    assert_eq!(html, expected);
}
