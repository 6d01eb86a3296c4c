use anyhow::Result;
use rust_markdown_parser::{match_rule, Rule};

fn parse_success(input: &str, rule: Rule) {
    match match_rule(rule, input) {
        Some(_) => assert!(true),
        None => panic!("Failed to parse input:\n{}", input),
    }
}

fn parse_fail(input: &str, rule: Rule) {
    match match_rule(rule, input) {
        Some(_) => panic!("Input should not parse successfully:\n{}", input),
        None => assert!(true),
    }
}

#[test]
fn test_space_parsing() -> Result<()> {
    let inputs = [" ", "\t"];
    for input in inputs {
        parse_success(input, Rule::Space);
    }

    parse_fail("\n", Rule::Space);
    Ok(())
}

#[test]
fn test_newline_parsing() -> Result<()> {
    let inputs = ["\n", "\r\n"];
    for input in inputs {
        parse_success(input, Rule::Newline);
    }

    parse_fail("  ", Rule::Newline);
    Ok(())
}

#[test]
fn test_blankline_parsing() -> Result<()> {
    let inputs = ["\n", "\n\r\n\n", "   \t  \n\t   \t\r\n   \t\n"];
    for input in inputs {
        parse_success(input, Rule::Blankline);
    }

    parse_fail("abc\n", Rule::Newline);
    Ok(())
}

#[test]
fn test_block_parsing() -> Result<()> {
    let inputs = ["abc\ndef", "# Hello world", "1. Hello\n2. World"];
    for input in inputs {
        parse_success(input, Rule::Block);
    }
    Ok(())
}

#[test]
fn test_special_block_parsing() -> Result<()> {
    let inputs = ["# Hello world", "1. Hello\n2. World"];
    for input in inputs {
        parse_success(input, Rule::SpecialBlock);
    }

    parse_fail("abc\ndef", Rule::SpecialBlock);
    Ok(())
}

#[test]
fn test_header_parsing() -> Result<()> {
    let inputs = [
        "# Header 1",
        "## Header 2",
        "### Header 3",
        "###### Header 6",
    ];
    for input in inputs {
        parse_success(input, Rule::Header);
    }

    parse_fail("#InvalidHeader", Rule::Header);
    parse_fail("####### Too many hashtags", Rule::Header);
    Ok(())
}

#[test]
fn test_header_hashtags_parsing() -> Result<()> {
    let inputs = ["#", "##", "###", "######"];
    for input in inputs {
        parse_success(input, Rule::HeaderHashtags);
    }

    parse_fail("abc", Rule::HeaderHashtags);
    Ok(())
}

#[test]
fn test_thematic_break_parsing() -> Result<()> {
    let inputs = ["---", "*******", "___"];
    for input in inputs {
        parse_success(input, Rule::ThematicBreak);
    }

    parse_fail("--", Rule::ThematicBreak);
    parse_fail("++++", Rule::ThematicBreak);
    Ok(())
}

#[test]
fn test_list_parsing() -> Result<()> {
    let inputs = [
        "- Item 1\n- Item 2",
        "1. Item A\n2. Item B",
        "+ Item X\n+ Item Y",
    ];
    for input in inputs {
        parse_success(input, Rule::List);
    }

    parse_fail("1 ItemNoSpace", Rule::List);
    parse_fail("+Item", Rule::List);
    Ok(())
}

#[test]
fn test_unordered_list_parsing() -> Result<()> {
    let inputs = [
        "- Item 1\n- Item 2",
        "* Item A\n* Item B",
        "+ Item X\n+ Item Y",
    ];
    for input in inputs {
        parse_success(input, Rule::UnorderedList);
    }

    parse_fail("-ItemNoSpace", Rule::UnorderedList);
    parse_fail("+Item", Rule::UnorderedList);
    Ok(())
}

#[test]
fn test_ordered_list_parsing() -> Result<()> {
    let inputs = ["1. Item 1\n2. Item 2", "10. Item A\n11. Item B"];
    for input in inputs {
        parse_success(input, Rule::OrderedList);
    }

    parse_fail("1 ItemMissingPeriod", Rule::OrderedList);
    Ok(())
}

#[test]
fn test_code_block_parsing() -> Result<()> {
    let inputs = [
        "```\nCode block content\n```",
        "```\nMultiline\nCode block\n```",
    ];
    for input in inputs {
        parse_success(input, Rule::CodeBlock);
    }

    parse_fail("```\nUnclosed code block", Rule::CodeBlock);
    parse_fail("``` Code without newline", Rule::CodeBlock);
    Ok(())
}

#[test]
fn test_paragraph_parsing() -> Result<()> {
    let inputs = [
        "This is a simple paragraph.",
        "A paragraph with multiple lines\nspanning two or more lines.",
    ];
    for input in inputs {
        parse_success(input, Rule::Paragraph);
    }
    Ok(())
}

#[test]
fn test_line_parsing() -> Result<()> {
    let inputs = [
        "This is a [link](https://example.com).",
        "Some **bold text** here.",
        "An _italic word_.",
        "Combined **bold and _italic_** formatting.",
    ];
    for input in inputs {
        parse_success(input, Rule::Line);
    }
    Ok(())
}

#[test]
fn test_line_pars_parsing() -> Result<()> {
    let inputs = [
        "This is a [link](https://example.com).",
        "Some **bold text** here.",
        "An _italic word_.",
        "Combined **bold and _italic_** formatting.",
    ];
    for input in inputs {
        parse_success(input, Rule::LinePars);
    }
    parse_fail("\nHello World", Rule::LinePars);
    Ok(())
}

#[test]
fn test_inline_parsing() -> Result<()> {
    let inputs = [
        "This is a [link](https://example.com).",
        "Some **bold text** here.",
        "An _italic word_.",
        "Combined **bold and _italic_** formatting.",
    ];
    for input in inputs {
        parse_success(input, Rule::LinePars);
    }
    parse_fail("\nHello World", Rule::Inline);
    Ok(())
}

#[test]
fn test_link_parsing() -> Result<()> {
    let inputs = ["[link](https://example.com)", "[]()"];
    for input in inputs {
        parse_success(input, Rule::Link);
    }
    parse_fail("[link]https://example.com", Rule::Link);
    parse_fail("link(https://example.com)", Rule::Link);
    Ok(())
}

#[test]
fn test_link_text_parsing() -> Result<()> {
    let inputs = ["asd]", "asd"];
    for input in inputs {
        parse_success(input, Rule::LinkText);
    }
    Ok(())
}

#[test]
fn test_link_href_parsing() -> Result<()> {
    let inputs = ["asd)", "asd"];
    for input in inputs {
        parse_success(input, Rule::LinkHref);
    }
    Ok(())
}

#[test]
fn test_bold_parsing() -> Result<()> {
    let inputs = ["**bold**", "__bold__"];
    for input in inputs {
        parse_success(input, Rule::Bold);
    }
    parse_fail("**bold", Rule::Bold);
    parse_fail("bold__", Rule::Bold);
    Ok(())
}

#[test]
fn test_italic_parsing() -> Result<()> {
    let inputs = ["*italic*", "_italic_"];
    for input in inputs {
        parse_success(input, Rule::Italic);
    }
    parse_fail("*italic", Rule::Italic);
    parse_fail("italic_", Rule::Italic);
    Ok(())
}

#[test]
fn test_text_parsing() -> Result<()> {
    let inputs = ["hello", "even multi word"];
    for input in inputs {
        parse_success(input, Rule::Text);
    }
    parse_fail("\nabc", Rule::Text);
    Ok(())
}
