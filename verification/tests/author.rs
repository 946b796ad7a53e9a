use projkit::author::{Author, Error};
use projkit::Span;

#[test]
fn parse_with_email() {
    let a: Author = "Max <max@example.com>".parse().unwrap();
    assert_eq!(a.name, "Max");
    assert_eq!(a.email.as_deref(), Some("max@example.com"));
}

#[test]
fn parse_without_email() {
    let a: Author = "Jane Doe".parse().unwrap();
    assert_eq!(a.name, "Jane Doe");
    assert_eq!(a.email, None);
}

#[test]
fn display_roundtrip() {
    let original = "Max Mustermann <max@example.com>";
    let parsed: Author = original.parse().unwrap();
    assert_eq!(parsed.to_string(), original);
}

#[test]
fn parse_trims_name_and_email() {
    let a = Author::parse("  Jane   Doe  <  jane@example.com  >  ").unwrap();
    assert_eq!(a.name, "Jane   Doe");
    assert_eq!(a.email.as_deref(), Some("jane@example.com"));
}

#[test]
fn parse_uses_last_bracket() {
    let a = Author::parse("a<b <c>").unwrap();
    assert_eq!(a.name, "a<b");
    assert_eq!(a.email.as_deref(), Some("c"));
    let b = Author::parse("x <a>b>").unwrap();
    assert_eq!(b.name, "x");
    assert_eq!(b.email.as_deref(), Some("a>b"));
}

#[test]
fn parse_empty_input() {
    let e = Author::parse(" \t ").unwrap_err();
    assert_eq!(
        e,
        Error::Empty { src: " \t ".to_string(), span: Span { offset: 0, len: 3 } }
    );
    let e = Author::parse("").unwrap_err();
    assert_eq!(e, Error::Empty { src: String::new(), span: Span { offset: 0, len: 0 } });
}

#[test]
fn parse_missing_name() {
    let e = Author::parse("<jane@example.com>").unwrap_err();
    assert_eq!(
        e,
        Error::MissingName {
            src: "<jane@example.com>".to_string(),
            span: Span { offset: 0, len: 1 }
        }
    );
    let e = Author::parse("   <jane@example.com>").unwrap_err();
    assert_eq!(
        e,
        Error::MissingName {
            src: "   <jane@example.com>".to_string(),
            span: Span { offset: 0, len: 3 }
        }
    );
}

#[test]
fn parse_unclosed_email() {
    let e = Author::parse("Max <max").unwrap_err();
    assert_eq!(
        e,
        Error::MalformedEmail { src: "Max <max".to_string(), span: Span { offset: 4, len: 4 } }
    );
}

#[test]
fn parse_empty_email() {
    let e = Author::parse("Max < >").unwrap_err();
    assert_eq!(
        e,
        Error::MalformedEmail { src: "Max < >".to_string(), span: Span { offset: 4, len: 3 } }
    );
}

#[test]
fn parse_spans_count_bytes() {
    // 'Ü' takes two bytes, so the '<' starts at byte 3.
    let e = Author::parse("Ü <x").unwrap_err();
    assert_eq!(
        e,
        Error::MalformedEmail { src: "Ü <x".to_string(), span: Span { offset: 3, len: 2 } }
    );
    let a = Author::parse("Jürgen <j@example.com>").unwrap();
    assert_eq!(a.name, "Jürgen");
}

#[test]
fn parse_unicode_whitespace() {
    let a = Author::parse("\u{3000}Jane\u{a0}").unwrap();
    assert_eq!(a.name, "Jane");
}

#[test]
fn to_string_without_email() {
    let a = Author { name: "Jane Doe".to_string(), email: None };
    assert_eq!(a.to_string(), "Jane Doe");
}

#[test]
fn display_parse_roundtrip_of_parsed_authors() {
    for input in ["  Max  <  max@example.com >", "a<b <c>", "Jane", " x <a>b>"] {
        let a = Author::parse(input).unwrap();
        assert_eq!(Author::parse(&a.to_string()).unwrap(), a);
    }
}
