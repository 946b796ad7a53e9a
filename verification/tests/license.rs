use projkit::license::{Error, License, LicenseItem};
use projkit::Span;

#[test]
fn resolves_a_single_license() {
    let v = License::parse_and_resolve("MIT", false).unwrap();
    assert_eq!(v.len(), 1);
    assert_eq!(v[0].id, "MIT");
    assert_eq!(v[0].name, "MIT License");
    assert_eq!(v[0].url, "https://spdx.org/licenses/MIT.html");
    assert!(v[0].text.contains("Permission is hereby granted"));
}

#[test]
fn resolves_every_requirement_in_order() {
    let v = License::parse_and_resolve("MIT OR Apache-2.0", false).unwrap();
    let ids: Vec<&str> = v.iter().map(|l| l.id.as_str()).collect();
    assert_eq!(ids, ["MIT", "Apache-2.0"]);
    assert_eq!(v[1].name, "Apache License 2.0");
}

#[test]
fn license_refs_need_permission() {
    assert_eq!(
        License::parse_and_resolve("LicenseRef-Custom", false).unwrap_err(),
        Error::UnknownLicense { id: "Custom".to_string() }
    );
    let v = License::parse_and_resolve("MIT AND LicenseRef-Custom", true).unwrap();
    assert_eq!(v.len(), 2);
    assert_eq!(
        v[1],
        License {
            id: "Custom".to_string(),
            name: "Custom".to_string(),
            url: String::new(),
            text: String::new()
        }
    );
}

#[test]
fn invalid_expression_is_a_parse_error() {
    match License::parse_and_resolve("MIT OR", false).unwrap_err() {
        Error::SpdxParse { src, span, reason } => {
            assert_eq!(src, "MIT OR");
            assert!(span.offset + span.len <= src.len());
            assert!(!reason.is_empty());
        }
        e => panic!("unexpected {e:?}"),
    }
    assert!(matches!(
        License::parse_and_resolve("not a license", true),
        Err(Error::SpdxParse { .. })
    ));
}

#[test]
fn from_spdx_id_without_list_entry() {
    assert_eq!(
        License::from_spdx_id("Foo-1.0", None, false).unwrap_err(),
        Error::UnknownLicense { id: "Foo-1.0".to_string() }
    );
    assert_eq!(
        License::from_spdx_id("Foo-1.0", None, true).unwrap(),
        License {
            id: "Foo-1.0".to_string(),
            name: "Foo-1.0".to_string(),
            url: "https://spdx.org/licenses/Foo-1.0.html".to_string(),
            text: String::new()
        }
    );
    assert_eq!(
        License::from_spdx_id("X", Some(("Name".to_string(), "Text".to_string())), false).unwrap(),
        License {
            id: "X".to_string(),
            name: "Name".to_string(),
            url: "https://spdx.org/licenses/X.html".to_string(),
            text: "Text".to_string()
        }
    );
}

#[test]
fn resolve_requirements_stops_at_first_refusal() {
    let items = vec![
        LicenseItem::Other { lic_ref: "A".to_string() },
        LicenseItem::Other { lic_ref: "B".to_string() },
    ];
    assert_eq!(
        License::resolve_requirements(&items, false).unwrap_err(),
        Error::UnknownLicense { id: "A".to_string() }
    );
    assert_eq!(License::resolve_requirements(&items, true).unwrap().len(), 2);
    let _ = Span { offset: 0, len: 0 };
}

#[test]
fn permitting_unknown_licenses_only_widens() {
    for input in ["MIT", "MIT OR Apache-2.0", "Apache-2.0 WITH LLVM-exception"] {
        assert_eq!(
            License::parse_and_resolve(input, false),
            License::parse_and_resolve(input, true)
        );
    }
    assert!(License::parse_and_resolve("LicenseRef-A OR LicenseRef-B", true).is_ok());
}
