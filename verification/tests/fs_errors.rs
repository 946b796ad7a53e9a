use std::sync::Arc;

use projkit::{ensure_dir, Error, IoError, IoErrorKind, IoResultExt};

fn io(kind: IoErrorKind) -> IoError {
    IoError { kind, message: "boom".to_string() }
}

#[test]
fn io_errors_get_a_variant_per_kind() {
    let e = Error::io("a".to_string(), io(IoErrorKind::NotFound));
    assert!(matches!(e, Error::NotFound { ref path, .. } if path == "a"));
    let e = Error::io("a".to_string(), io(IoErrorKind::NotADirectory));
    assert!(matches!(e, Error::NotADirectorySource { .. }));
    let e = Error::io("a".to_string(), io(IoErrorKind::QuotaExceeded));
    assert!(matches!(e, Error::QuotaExceeded { .. }));
    let e = Error::io("a".to_string(), io(IoErrorKind::Other("timed out".to_string())));
    match e {
        Error::Io { path, kind, source } => {
            assert_eq!(path, "a");
            assert_eq!(kind, IoErrorKind::Other("timed out".to_string()));
            assert_eq!(source.message, "boom");
        }
        e => panic!("unexpected {e:?}"),
    }
}

#[test]
fn path_ctx_keeps_values_and_wraps_errors() {
    let ok: Result<u8, IoError> = Ok(3);
    assert!(matches!(ok.path_ctx("p".to_string()), Ok(3)));
    let err: Result<u8, IoError> = Err(io(IoErrorKind::PermissionDenied));
    assert!(matches!(
        err.path_ctx("p".to_string()),
        Err(Error::PermissionDenied { ref path, .. }) if path == "p"
    ));
}

#[test]
fn ensure_dir_reports_non_directories() {
    assert!(ensure_dir("src", true).is_ok());
    assert!(matches!(ensure_dir("Cargo.toml", false), Err(Error::NotADirectory { ref path }) if path == "Cargo.toml"));
}

#[test]
fn every_dedicated_kind_has_its_variant() {
    let cases: Vec<(IoErrorKind, fn(&Error) -> bool)> = vec![
        (IoErrorKind::NotFound, |e| matches!(e, Error::NotFound { .. })),
        (IoErrorKind::PermissionDenied, |e| matches!(e, Error::PermissionDenied { .. })),
        (IoErrorKind::AlreadyExists, |e| matches!(e, Error::AlreadyExists { .. })),
        (IoErrorKind::NotADirectory, |e| matches!(e, Error::NotADirectorySource { .. })),
        (IoErrorKind::IsADirectory, |e| matches!(e, Error::IsADirectory { .. })),
        (IoErrorKind::DirectoryNotEmpty, |e| matches!(e, Error::DirectoryNotEmpty { .. })),
        (IoErrorKind::ReadOnlyFilesystem, |e| matches!(e, Error::ReadOnlyFilesystem { .. })),
        (IoErrorKind::StorageFull, |e| matches!(e, Error::StorageFull { .. })),
        (IoErrorKind::QuotaExceeded, |e| matches!(e, Error::QuotaExceeded { .. })),
        (IoErrorKind::InvalidFilename, |e| matches!(e, Error::InvalidFilename { .. })),
    ];
    for (kind, is_variant) in cases {
        let e = Error::io("x".to_string(), io(kind.clone()));
        assert!(is_variant(&e), "{kind:?} gave {e:?}");
    }
}

#[test]
fn library_errors_convert_into_the_crate_error() {
    let a = projkit::author::Author::parse("").unwrap_err();
    assert!(matches!(Error::from(a), Error::Author(_)));
    let l = projkit::license::Error::UnknownLicense { id: "X".to_string() };
    assert!(matches!(Error::from(l), Error::License(_)));
    let t = projkit::toml::Error::SyntaxNoSpan { message: "m".to_string() };
    assert!(matches!(Error::from(t), Error::Toml(_)));
}

#[test]
fn duplicate_copies_kinds() {
    let k = IoErrorKind::Other("x".to_string());
    assert_eq!(k.duplicate(), k);
    assert_eq!(IoErrorKind::StorageFull.duplicate(), IoErrorKind::StorageFull);
}

#[test]
fn coarse_error_wraps_components() {
    let e = projkit::error::Error::from(io(IoErrorKind::NotFound));
    assert!(matches!(e, projkit::error::Error::Io(ref x) if x.kind == IoErrorKind::NotFound));
    let e = projkit::error::Error::from(Arc::new(io(IoErrorKind::NotFound)));
    assert!(matches!(e, projkit::error::Error::IoArc(_)));
    let l = projkit::license::Error::Empty;
    assert!(matches!(projkit::error::Error::from(l), projkit::error::Error::License(_)));
}

#[test]
fn which_failures_convert_into_both_error_types() {
    let w = projkit::WhichError::CannotFindBinaryPath;
    assert!(matches!(Error::from(w), Error::Which(projkit::WhichError::CannotFindBinaryPath)));
    assert!(matches!(
        projkit::error::Error::from(w),
        projkit::error::Error::Which(projkit::WhichError::CannotFindBinaryPath)
    ));
}
