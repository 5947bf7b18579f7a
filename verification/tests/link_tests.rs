use md_ast::ast::Markdown;
use md_ast::link::{image, parse_link, url_link};

#[test]
fn test_raw_link_boundary() {
    let (rem, md) = parse_link("see https://example.com/ here").unwrap();
    assert_eq!(
        md,
        vec![
            Markdown::Text(String::from("see ")),
            Markdown::RawLink(String::from("https://example.com/")),
        ]
    );
    assert_eq!(rem, " here");
}

#[test]
fn test_raw_link_at_start() {
    let (rem, md) = parse_link("https://example.org/x rest").unwrap();
    assert_eq!(md, vec![Markdown::RawLink(String::from("https://example.org/x"))]);
    assert_eq!(rem, " rest");
}

#[test]
fn test_url_link() {
    let (rem, (title, url)) = url_link("[title](url) tail").unwrap();
    assert_eq!(title, "title");
    assert_eq!(url, "url");
    assert_eq!(rem, " tail");

    let (rem, md) = parse_link("[a](b)c").unwrap();
    assert_eq!(
        md,
        vec![Markdown::Link { title: String::from("a"), url: String::from("b") }]
    );
    assert_eq!(rem, "c");
}

#[test]
fn test_url_link_no_match() {
    assert!(url_link("[title] (url)").is_none());
    assert!(url_link("[title]()").is_none());
    assert!(url_link("(url)").is_none());
}

#[test]
fn test_image_link() {
    let (rem, (alt, url)) = image("![alt](img.png)").unwrap();
    assert_eq!(alt, "alt");
    assert_eq!(url, "img.png");
    assert_eq!(rem, "");

    let (rem, md) = parse_link("![a](b)").unwrap();
    assert_eq!(
        md,
        vec![Markdown::Image { alt: String::from("a"), url: String::from("b") }]
    );
    assert_eq!(rem, "");
}

#[test]
fn test_link_no_match() {
    assert!(parse_link("hello there").is_none());
    assert!(parse_link("").is_none());
}
