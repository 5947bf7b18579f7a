use md_ast::ast::Markdown;
use md_ast::text::{take_until_boundary, text_parser};
use md_ast::Mode;

fn text(s: &str) -> Markdown {
    Markdown::Text(String::from(s))
}

#[test]
fn test_take_until_boundary() {
    let input = "粗斜体***其他内容";
    let (remaining, parsed) = take_until_boundary(Mode::Lenient, "***", input).unwrap();
    assert_eq!(remaining, "其他内容");
    assert_eq!(parsed, "粗斜体");

    let input = "粗体**其他内容";
    let (remaining, parsed) = take_until_boundary(Mode::Lenient, "**", input).unwrap();
    assert_eq!(remaining, "其他内容");
    assert_eq!(parsed, "粗体");

    let input = "斜体*其他内容";
    let (remaining, parsed) = take_until_boundary(Mode::Lenient, "*", input).unwrap();
    assert_eq!(remaining, "其他内容");
    assert_eq!(parsed, "斜体");

    let input = "删除线~~其他内容";
    let (remaining, parsed) = take_until_boundary(Mode::Lenient, "~~", input).unwrap();
    assert_eq!(remaining, "其他内容");
    assert_eq!(parsed, "删除线");

    let input = "高亮==其他内容";
    let (remaining, parsed) = take_until_boundary(Mode::Lenient, "==", input).unwrap();
    assert_eq!(remaining, "其他内容");
    assert_eq!(parsed, "高亮");
}

#[test]
fn test_take_until_boundary_nested() {
    let input = "粗体*嵌套的斜体***其他内容";
    let (remaining, parsed) = take_until_boundary(Mode::Strict, "**", input).unwrap();
    assert_eq!(remaining, "其他内容");
    assert_eq!(parsed, "粗体*嵌套的斜体*");

    let input = "粗体*嵌套的斜体***";
    let (remaining, parsed) = take_until_boundary(Mode::Strict, "**", input).unwrap();
    assert_eq!(remaining, "");
    assert_eq!(parsed, "粗体*嵌套的斜体*");

    let input = "斜体**内嵌的粗体1****内嵌的粗体2***其他内容";
    let (remaining, parsed) = take_until_boundary(Mode::Strict, "*", input).unwrap();
    assert_eq!(remaining, "其他内容");
    assert_eq!(parsed, "斜体**内嵌的粗体1****内嵌的粗体2**");

    let input = "斜体**内嵌的粗体1****内嵌的粗体2***";
    let (remaining, parsed) = take_until_boundary(Mode::Strict, "*", input).unwrap();
    assert_eq!(remaining, "");
    assert_eq!(parsed, "斜体**内嵌的粗体1****内嵌的粗体2**");
}

#[test]
#[should_panic]
fn test_take_until_boundary_invalid_bold() {
    let _ = take_until_boundary(Mode::Strict, "**", "粗体*嵌套的斜体*").unwrap();
}

#[test]
#[should_panic]
fn test_take_until_boundary_invalid_italic() {
    let _ = take_until_boundary(Mode::Strict, "*", "斜体**内嵌的粗体****内嵌的粗体2**").unwrap();
}

#[test]
fn test_text_parser() {
    let (_, md) = text_parser(Mode::Lenient, "***加粗斜体***").unwrap();
    assert_eq!(md, vec![Markdown::BoldItalic(vec![text("加粗斜体")])]);

    let (_, md) = text_parser(Mode::Lenient, "***加粗斜体 *嵌套斜体* 剩余加粗斜体***").unwrap();
    assert_eq!(
        md,
        vec![Markdown::BoldItalic(vec![
            text("加粗斜体 "),
            Markdown::Italic(vec![text("嵌套斜体")]),
            text(" 剩余加粗斜体")
        ])]
    );
}

#[test]
fn test_text_parser_strict() {
    let (_, md) = text_parser(Mode::Strict, "*** 不合法加粗斜体 ~~合法删除线~~  ***").unwrap();
    assert_eq!(
        md,
        vec![
            text("***"),
            text(" 不合法加粗斜体 "),
            Markdown::Strike(vec![text("合法删除线")]),
            text("  "),
            text("***")
        ]
    );
}

#[test]
fn test_bold_run_bleed() {
    let (remaining, parsed) = take_until_boundary(Mode::Strict, "**", "a***").unwrap();
    assert_eq!(parsed, "a*");
    assert_eq!(remaining, "");

    let (rem, md) = text_parser(Mode::Strict, "**a***").unwrap();
    assert_eq!(md, vec![Markdown::Bold(vec![text("a*")])]);
    assert_eq!(rem, "");
}

#[test]
fn test_strike_and_highlight() {
    let (rem, md) = text_parser(Mode::Lenient, "~~gone~~ tail").unwrap();
    assert_eq!(md, vec![Markdown::Strike(vec![text("gone")])]);
    assert_eq!(rem, " tail");

    let (rem, md) = text_parser(Mode::Lenient, "==mark==").unwrap();
    assert_eq!(md, vec![Markdown::Highlight(vec![text("mark")])]);
    assert_eq!(rem, "");
}

#[test]
fn test_text_parser_no_match() {
    assert!(text_parser(Mode::Lenient, "plain words").is_none());
    assert!(text_parser(Mode::Strict, "*unclosed").is_none());
}
