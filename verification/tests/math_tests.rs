use md_ast::ast::Markdown;
use md_ast::math::math;
use md_ast::Mode;

#[test]
fn test_math() {
    let (_, md) = math(Mode::Lenient, "$x^2$").unwrap();
    assert_eq!(md, Markdown::Math(String::from("x^2")));
    let (_, md) = math(Mode::Lenient, "$ x^2 $").unwrap();
    assert_eq!(md, Markdown::Math(String::from(" x^2 ")));
}

#[test]
fn test_math_strict() {
    let (_, md) = math(Mode::Strict, "$x^2$").unwrap();
    assert_eq!(md, Markdown::Math(String::from("x^2")));
    let (_, md) = math(Mode::Strict, "$ x^2 $").unwrap();
    assert_eq!(md, Markdown::Text(String::from("$ x^2 $")));
}

#[test]
fn test_math_unclosed() {
    assert!(math(Mode::Lenient, "$x^2").is_none());
    assert!(math(Mode::Strict, "x^2$").is_none());
}

#[test]
fn test_math_consumes_remainder() {
    let (rem, md) = math(Mode::Lenient, "$a$ tail").unwrap();
    assert_eq!(md, Markdown::Math(String::from("a")));
    assert_eq!(rem, " tail");
}
