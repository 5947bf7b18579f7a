use md_ast::ast::Markdown;
use md_ast::parse::line_element_parser;
use md_ast::Mode;

fn text(s: &str) -> Markdown {
    Markdown::Text(String::from(s))
}

#[test]
fn test_escape_in_scan() {
    let md = line_element_parser(Mode::Lenient, "\\*");
    assert_eq!(md, vec![text("*")]);

    let md = line_element_parser(Mode::Lenient, "a\\*b");
    assert_eq!(md, vec![text("a"), text("*"), text("b")]);

    let md = line_element_parser(Mode::Lenient, "a\\xb");
    assert_eq!(md, vec![text("a\\xb")]);
}

#[test]
fn test_heading_in_scan() {
    let md = line_element_parser(Mode::Lenient, "# Title {#custom}");
    assert_eq!(
        md,
        vec![Markdown::Head {
            level: 1,
            title: String::from("Title "),
            id: String::from("custom"),
        }]
    );

    let md = line_element_parser(Mode::Lenient, "## A\nB");
    assert_eq!(
        md,
        vec![
            Markdown::Head { level: 2, title: String::from("A"), id: String::from("A") },
            Markdown::NewLine,
            text("B"),
        ]
    );
}

#[test]
fn test_raw_link_in_scan() {
    let md = line_element_parser(Mode::Lenient, "see https://example.com/ here");
    assert_eq!(
        md,
        vec![
            text("see "),
            Markdown::RawLink(String::from("https://example.com/")),
            text(" here"),
        ]
    );
}

#[test]
fn test_explicit_link_in_scan() {
    let md = line_element_parser(Mode::Lenient, "x [a](b) y");
    assert_eq!(
        md,
        vec![
            text("x "),
            Markdown::Link { title: String::from("a"), url: String::from("b") },
            text(" y"),
        ]
    );
}

#[test]
fn test_image_in_scan() {
    let md = line_element_parser(Mode::Lenient, "x ![a](b)");
    assert_eq!(
        md,
        vec![text("x "), Markdown::Image { alt: String::from("a"), url: String::from("b") }]
    );
}

#[test]
fn test_horizontal_rule_in_scan() {
    let md = line_element_parser(Mode::Lenient, "a---b");
    assert_eq!(md, vec![text("a"), Markdown::HorizontalRule, text("b")]);

    let md = line_element_parser(Mode::Lenient, "---");
    assert_eq!(md, vec![Markdown::HorizontalRule]);

    let md = line_element_parser(Mode::Lenient, "a--b");
    assert_eq!(md, vec![text("a--b")]);
}

#[test]
fn test_command_in_scan() {
    let md = line_element_parser(Mode::Lenient, "x{{cmd}}y");
    assert_eq!(md, vec![text("x"), Markdown::Command(String::from("cmd")), text("y")]);
}

#[test]
fn test_code_block_in_scan() {
    let md = line_element_parser(Mode::Lenient, "```rs\nlet x;``` t");
    assert_eq!(
        md,
        vec![
            Markdown::CodeBlock { lang: String::from("rs"), code: String::from("\nlet x;") },
            text(" t"),
        ]
    );
}

#[test]
fn test_newline_in_scan() {
    let md = line_element_parser(Mode::Lenient, "a\nb");
    assert_eq!(md, vec![text("a"), Markdown::NewLine, text("b")]);

    let md = line_element_parser(Mode::Lenient, "a\n\nb");
    assert_eq!(md, vec![text("a"), Markdown::NewLine, Markdown::NewLine, text("b")]);
}

#[test]
fn test_delimiters_before_raw_link() {
    let md = line_element_parser(Mode::Lenient, "**b** https://example.org/p");
    assert_eq!(
        md,
        vec![
            Markdown::Bold(vec![text("b")]),
            text(" "),
            Markdown::RawLink(String::from("https://example.org/p")),
        ]
    );
}
