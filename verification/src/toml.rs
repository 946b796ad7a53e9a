//! Errors of reading and writing TOML documents, pointing into the text.
use vstd::prelude::*;

use crate::Span;

verus! {

/// Why a TOML document could not be read or written.
#[derive(Debug, Clone, PartialEq, Eq)]
pub enum Error {
    /// The document is not valid for the requested type; `span` (bytes)
    /// locates the problem in `src`, which a diagnostic shows under `name`.
    Syntax { message: String, name: String, src: String, span: Span },
    /// The document is not valid and the reader could not tell where.
    SyntaxNoSpan { message: String },
    /// The value could not be written as TOML.
    Serialize { message: String },
}

/// What the TOML reader (`toml::from_str`) reports when it fails: its
/// message and the byte range `start..end` of the document it concerns, when
/// it knows one.
#[derive(Debug, Clone, PartialEq, Eq)]
pub struct DeError {
    pub message: String,
    pub span: Option<(usize, usize)>,
}

/// The error for a document `content`, shown under `name`, that the reader
/// rejected with `message` at the byte range `span`.
pub open spec fn syntax_error_spec(
    content: Seq<char>,
    name: Seq<char>,
    message: Seq<char>,
    span: Option<(usize, usize)>,
    e: Error,
) -> bool {
    match span {
        Some((start, end)) => e matches Error::Syntax { message: m, name: n, src, span: sp } && m@
            == message && n@ == name && src@ == content && sp.offset == start && sp.len == (
        if end >= start {
            end - start
        } else {
            0
        }),
        None => e matches Error::SyntaxNoSpan { message: m } && m@ == message,
    }
}

/// The error for a document `content`, shown under `name`, that the reader
/// rejected with `message` at the byte range `span` (`None`: no range known).
pub fn syntax_error(content: &str, name: &str, message: String, span: Option<(usize, usize)>) -> (r:
    Error)
    ensures
        syntax_error_spec(content@, name@, message@, span, r),
{
    match span {
        Some((start, end)) => {
            let len = if end >= start {
                end - start
            } else {
                0
            };
            Error::Syntax {
                message,
                name: name.to_owned(),
                src: content.to_owned(),
                span: Span { offset: start, len },
            }
        },
        None => Error::SyntaxNoSpan { message },
    }
}

/// What reading `content` (shown under `name`) gives when the reader
/// returned `result`: its value, or the error pointing into `content`.
pub fn from_deserialized<T>(
    content: &str,
    name: &str,
    result: core::result::Result<T, DeError>,
) -> (r: core::result::Result<T, Error>)
    ensures
        match result {
            Ok(v) => r == Ok::<T, Error>(v),
            Err(e) => r matches Err(err) && syntax_error_spec(
                content@,
                name@,
                e.message@,
                e.span,
                err,
            ),
        },
{
    match result {
        Ok(v) => Ok(v),
        Err(e) => Err(syntax_error(content, name, e.message, e.span)),
    }
}

/// What writing a value gives when the writer returned `result`: the text, or
/// the `Serialize` error with the writer's message.
pub fn from_serialized(result: core::result::Result<String, String>) -> (r: core::result::Result<
    String,
    Error,
>)
    ensures
        match result {
            Ok(s) => r == Ok::<String, Error>(s),
            Err(m) => r == Err::<String, Error>(Error::Serialize { message: m }),
        },
{
    match result {
        Ok(s) => Ok(s),
        Err(message) => Err(Error::Serialize { message }),
    }
}

} // verus!
