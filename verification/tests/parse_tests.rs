use md_ast::ast::Markdown;
use md_ast::parse::line_element_parser;
use md_ast::Mode;

fn text(s: &str) -> Markdown {
    Markdown::Text(String::from(s))
}

#[test]
fn test_parse() {
    let input = "文字***加粗斜体***文字**粗体**文字*斜体*文字~~删除线~~文字==高亮==文字";
    let md = line_element_parser(Mode::Lenient, input);
    println!("{:?}", md);
}

#[test]
fn test_parse_mixed_sequence() {
    let input = "文字***加粗斜体***文字**粗体**文字*斜体*文字~~删除线~~文字==高亮==文字";
    let md = line_element_parser(Mode::Lenient, input);
    assert_eq!(
        md,
        vec![
            text("文字"),
            Markdown::BoldItalic(vec![text("加粗斜体")]),
            text("文字"),
            Markdown::Bold(vec![text("粗体")]),
            text("文字"),
            Markdown::Italic(vec![text("斜体")]),
            text("文字"),
            Markdown::Strike(vec![text("删除线")]),
            text("文字"),
            Markdown::Highlight(vec![text("高亮")]),
            text("文字"),
        ]
    );
}

#[test]
fn test_alternation_precedence() {
    let md = line_element_parser(Mode::Lenient, "***x***");
    assert_eq!(md, vec![Markdown::BoldItalic(vec![text("x")])]);
}

#[test]
fn test_nesting() {
    let md = line_element_parser(Mode::Lenient, "***bold *nested* tail***");
    assert_eq!(
        md,
        vec![Markdown::BoldItalic(vec![
            text("bold "),
            Markdown::Italic(vec![text("nested")]),
            text(" tail")
        ])]
    );
}

#[test]
fn test_whitespace_demotion() {
    let md = line_element_parser(Mode::Strict, "** not bold **");
    assert_eq!(md, vec![text("**"), text(" not bold "), text("**")]);
}

#[test]
fn test_literal_fallback() {
    let md = line_element_parser(Mode::Lenient, "hello world");
    assert_eq!(md, vec![text("hello world")]);

    let md = line_element_parser(Mode::Strict, "[no syntax here");
    assert_eq!(md, vec![text("[no syntax here")]);
}

#[test]
fn test_empty_input() {
    let md = line_element_parser(Mode::Lenient, "");
    assert_eq!(md, Vec::<Markdown>::new());
}

#[test]
fn test_pathological_delimiter_repeats() {
    let stars: String = "*".repeat(97);
    let lenient = line_element_parser(Mode::Lenient, &stars);
    assert!(!lenient.is_empty());
    let strict = line_element_parser(Mode::Strict, &stars);
    assert!(!strict.is_empty());

    let tildes: String = "~".repeat(80);
    let md = line_element_parser(Mode::Lenient, &tildes);
    assert!(!md.is_empty());
}

#[test]
fn test_inline_code_in_scan() {
    let md = line_element_parser(Mode::Lenient, "see `x` now");
    assert_eq!(
        md,
        vec![text("see "), Markdown::Code(String::from("x")), text(" now")]
    );
}

#[test]
fn test_inline_math_in_scan() {
    let md = line_element_parser(Mode::Lenient, "a $b$ c");
    assert_eq!(
        md,
        vec![text("a "), Markdown::Math(String::from("b")), text(" c")]
    );
}
