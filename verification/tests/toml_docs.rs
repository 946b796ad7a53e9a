use std::collections::BTreeMap;

use projkit::toml::{from_deserialized, from_serialized, syntax_error, DeError, Error};
use projkit::Span;

fn read<T: serde::de::DeserializeOwned>(content: &str, name: &str) -> Result<T, Error> {
    let result = toml::from_str(content).map_err(|e: toml::de::Error| DeError {
        message: e.message().to_string(),
        span: e.span().map(|s| (s.start, s.end)),
    });
    from_deserialized(content, name, result)
}

fn write<T: serde::Serialize>(value: &T) -> Result<String, Error> {
    from_serialized(toml::to_string(value).map_err(|e| e.to_string()))
}

#[test]
fn reads_a_document() {
    let m: BTreeMap<String, String> = read("a = \"b\"\n", "cfg").unwrap();
    assert_eq!(m.get("a").map(String::as_str), Some("b"));
}

#[test]
fn syntax_errors_point_into_the_document() {
    let r: Result<BTreeMap<String, String>, Error> = read("a = \n", "cfg.toml");
    match r.unwrap_err() {
        Error::Syntax { name, src, span, message } => {
            assert_eq!(name, "cfg.toml");
            assert_eq!(src, "a = \n");
            assert!(span.offset + span.len <= src.len());
            assert!(!message.is_empty());
        }
        e => panic!("unexpected {e:?}"),
    }
}

#[test]
fn syntax_error_builds_spans() {
    assert_eq!(
        syntax_error("abc", "n", "m".to_string(), Some((1, 3))),
        Error::Syntax {
            message: "m".to_string(),
            name: "n".to_string(),
            src: "abc".to_string(),
            span: Span { offset: 1, len: 2 }
        }
    );
    assert_eq!(
        syntax_error("abc", "n", "m".to_string(), None),
        Error::SyntaxNoSpan { message: "m".to_string() }
    );
}

#[test]
fn writes_a_document() {
    let mut m = BTreeMap::new();
    m.insert("name".to_string(), "demo".to_string());
    assert_eq!(write(&m).unwrap(), "name = \"demo\"\n");
    assert!(matches!(write(&5u32), Err(Error::Serialize { .. })));
}

#[test]
fn from_deserialized_maps_each_outcome() {
    let ok: Result<u8, DeError> = Ok(7);
    assert_eq!(from_deserialized("x", "n", ok).unwrap(), 7);
    let err: Result<u8, DeError> =
        Err(DeError { message: "bad".to_string(), span: Some((4, 2)) });
    assert_eq!(
        from_deserialized("abcdef", "n", err).unwrap_err(),
        Error::Syntax {
            message: "bad".to_string(),
            name: "n".to_string(),
            src: "abcdef".to_string(),
            span: Span { offset: 4, len: 0 }
        }
    );
    assert_eq!(from_serialized(Ok("t".to_string())).unwrap(), "t");
    assert_eq!(
        from_serialized(Err("m".to_string())).unwrap_err(),
        Error::Serialize { message: "m".to_string() }
    );
}
