use md_ast::ast::Markdown;
use md_ast::code::code;
use md_ast::escape::escape;
use md_ast::head::head;
use md_ast::utils::fenced;
use md_ast::Mode;

#[test]
fn test_escape() {
    let (rem, md) = escape("\\*").unwrap();
    assert_eq!(md, Markdown::Text(String::from("*")));
    assert_eq!(rem, "");
    assert_eq!("\\*".len() - rem.len(), 2);
}

#[test]
fn test_escape_set() {
    for c in ['\\', '`', '*', '<', '>', '#', '+', '-', '.', '|'] {
        let input = format!("\\{}rest", c);
        let (rem, md) = escape(&input).unwrap();
        assert_eq!(md, Markdown::Text(c.to_string()));
        assert_eq!(rem, "rest");
    }
}

#[test]
fn test_escape_no_match() {
    assert!(escape("\\x").is_none());
    assert!(escape("a\\*").is_none());
    assert!(escape("\\").is_none());
}

#[test]
fn test_head_with_id() {
    let (rem, (level, title, id)) = head("# Title {#custom}").unwrap();
    assert_eq!(level, 1);
    assert_eq!(title, "Title ");
    assert_eq!(id, "custom");
    assert_eq!(rem, "");
}

#[test]
fn test_head_plain() {
    let (rem, (level, title, id)) = head("## Section\nrest").unwrap();
    assert_eq!(level, 2);
    assert_eq!(title, "Section");
    assert_eq!(id, "Section");
    assert_eq!(rem, "\nrest");
}

#[test]
fn test_head_deep_level() {
    let (rem, (level, title, _id)) = head("####### deep").unwrap();
    assert_eq!(level, 7);
    assert_eq!(title, "deep");
    assert_eq!(rem, "");
}

#[test]
fn test_head_no_match() {
    assert!(head("plain line").is_none());
    assert!(head("#").is_none());
    assert!(head("# \n").is_none());
}

#[test]
fn test_fenced_basic() {
    let (rem, cap) = fenced("`", "`", "`code` rest").unwrap();
    assert_eq!(cap, "code");
    assert_eq!(rem, " rest");

    let (rem, cap) = fenced("{#", "}", "{#id}tail").unwrap();
    assert_eq!(cap, "id");
    assert_eq!(rem, "tail");
}

#[test]
fn test_fenced_no_match() {
    assert!(fenced("`", "`", "code`").is_none());
    assert!(fenced("`", "`", "`code").is_none());
    assert!(fenced("$", "$", "").is_none());
}

#[test]
fn test_fenced_non_greedy() {
    let (rem, cap) = fenced("`", "`", "`a`b`").unwrap();
    assert_eq!(cap, "a");
    assert_eq!(rem, "b`");
}

#[test]
fn test_code_lenient() {
    let (rem, md) = code(Mode::Lenient, "` x `y").unwrap();
    assert_eq!(md, Markdown::Code(String::from(" x ")));
    assert_eq!(rem, "y");
}

#[test]
fn test_code_strict_demotion() {
    let (rem, md) = code(Mode::Strict, "` x `").unwrap();
    assert_eq!(md, Markdown::Text(String::from("` x `")));
    assert_eq!(rem, "");

    let (_, md) = code(Mode::Strict, "`x`").unwrap();
    assert_eq!(md, Markdown::Code(String::from("x")));
}
