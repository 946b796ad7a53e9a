//! Authors written as `Name` or `Name <email>`.
use vstd::prelude::*;

use crate::Span;
use crate::text::{
    byte_len, chars_of, find, find_in, lemma_byte_len_prefix, lemma_rfind, lemma_rfind_some,
    lemma_trail_count, lemma_lead_count, lemma_trim_bounds, lemma_trim_chars, lemma_trim_fixed,
    lemma_trim_idempotent, Strip, trim_hi, trim_lo, ascii_ws, is_ws, law_whitespace_chars,
    lemma_trim_pad, lemma_trim_unique, rfind, rfind_in, trim,
    trim_range,
};

verus! {

/// A package author: a name and an optional e-mail address.
#[derive(Debug, Clone, PartialEq, Eq, PartialOrd, Ord)]
pub struct Author {
    pub name: String,
    pub email: Option<String>,
}

/// Why an author string was rejected. `src` is the whole input, which a
/// diagnostic shows under the name `author`.
#[derive(Debug, Clone, PartialEq, Eq)]
pub enum Error {
    /// The input is empty or only whitespace.
    Empty { src: String, span: Span },
    /// The input has an `<...>` part but no name before it.
    MissingName { src: String, span: Span },
    /// The input has a `<` but is not `Name <email>` with a non-empty email.
    MalformedEmail { src: String, span: Span },
}

/// The mathematical value of an [`Author`].
#[verifier::ext_equal]
pub struct AuthorView {
    pub name: Seq<char>,
    pub email: Option<Seq<char>>,
}

/// The mathematical value of an author [`Error`]: its variant, the source text
/// and the span, as offset and length in bytes.
pub enum ErrorView {
    Empty { src: Seq<char>, offset: nat, len: nat },
    MissingName { src: Seq<char>, offset: nat, len: nat },
    MalformedEmail { src: Seq<char>, offset: nat, len: nat },
}

impl View for Author {
    type V = AuthorView;

    open spec fn view(&self) -> AuthorView {
        AuthorView {
            name: self.name@,
            email: match self.email {
                Some(e) => Some(e@),
                None => None,
            },
        }
    }
}

impl View for Error {
    type V = ErrorView;

    open spec fn view(&self) -> ErrorView {
        match self {
            Error::Empty { src, span } => ErrorView::Empty {
                src: src@,
                offset: span.offset as nat,
                len: span.len as nat,
            },
            Error::MissingName { src, span } => ErrorView::MissingName {
                src: src@,
                offset: span.offset as nat,
                len: span.len as nat,
            },
            Error::MalformedEmail { src, span } => ErrorView::MalformedEmail {
                src: src@,
                offset: span.offset as nat,
                len: span.len as nat,
            },
        }
    }
}

/// Byte offset of the first `<` of `input`, or 0 when there is none.
pub open spec fn bracket_offset(input: Seq<char>) -> nat {
    match find(input, '<') {
        Some(i) => byte_len(input.take(i)),
        None => 0,
    }
}

/// The error for an `<...>` part that is not closed or is empty: it spans from
/// the first `<` to the end of the input.
pub open spec fn malformed_email(input: Seq<char>) -> ErrorView {
    ErrorView::MalformedEmail {
        src: input,
        offset: bracket_offset(input),
        len: (byte_len(input) - bracket_offset(input)) as nat,
    }
}

/// What parsing `input` as an author gives.
///
/// The input is trimmed. Without a `<` the whole trimmed text is the name.
/// Otherwise the last `<` starts the email, the text must end with `>`, and
/// the trimmed parts before the `<` and between `<` and `>` are the name and
/// the email, neither of which may be empty.
pub open spec fn parse_spec(input: Seq<char>) -> Result<AuthorView, ErrorView> {
    let t = trim(input);
    if t.len() == 0 {
        Err(ErrorView::Empty { src: input, offset: 0, len: byte_len(input) })
    } else {
        match rfind(t, '<') {
            None => Ok(AuthorView { name: t, email: None }),
            Some(open) => {
                if t.last() != '>' {
                    Err(malformed_email(input))
                } else {
                    let name = trim(t.take(open));
                    let email = trim(t.subrange(open + 1, t.len() - 1));
                    if name.len() == 0 {
                        let off = bracket_offset(input);
                        Err(
                            ErrorView::MissingName {
                                src: input,
                                offset: 0,
                                len: if off >= 1 {
                                    off
                                } else {
                                    1
                                },
                            },
                        )
                    } else if email.len() == 0 {
                        Err(malformed_email(input))
                    } else {
                        Ok(AuthorView { name, email: Some(email) })
                    }
                }
            },
        }
    }
}

/// How an author is written back: `Name <email>`, or `Name` alone.
pub open spec fn display(a: AuthorView) -> Seq<char> {
    match a.email {
        Some(e) => a.name + seq![' ', '<'] + e + seq!['>'],
        None => a.name,
    }
}

/// An author that parsing can produce: the name and email are non-empty and
/// trimmed, the email has no `<`, and without an email the name has none.
pub open spec fn well_formed(a: AuthorView) -> bool {
    &&& a.name.len() > 0
    &&& trim(a.name) == a.name
    &&& match a.email {
        Some(e) => e.len() > 0 && trim(e) == e && rfind(e, '<') is None,
        None => rfind(a.name, '<') is None,
    }
}

pub open spec fn result_view(r: Result<Author, Error>) -> Result<AuthorView, ErrorView> {
    match r {
        Ok(a) => Ok(a@),
        Err(e) => Err(e@),
    }
}

impl Author {
    /// Parses `Name` or `Name <email>`.
    pub fn parse(input: &str) -> (r: Result<Author, Error>)
        ensures
            result_view(r) == parse_spec(input@),
    {
        let v = chars_of(input);
        let n = v.len();
        let full = input.as_bytes().len();
        proof {
            assert(v@.subrange(0, n as int) =~= input@);
        }
        let (a, b) = trim_range(&v, 0, n);
        let ghost t = trim(input@);
        if a == b {
            return Err(Error::Empty { src: input.to_owned(), span: Span { offset: 0, len: full } });
        }
        let open = match rfind_in(&v, a, b, '<') {
            None => {
                let name = input.substring_char(a, b).to_owned();
                return Ok(Author { name, email: None });
            },
            Some(open) => open,
        };
        let off = bracket_offset_exec(input, &v);
        proof {
            assert(t.last() == v@[b - 1]);
            lemma_rfind_some(t, '<');
            assert(t[open - a] == v@[open as int]);
        }
        if v[b - 1] != '>' {
            return Err(
                Error::MalformedEmail { src: input.to_owned(), span: Span { offset: off, len: full - off } },
            );
        }
        let (na, nb) = trim_range(&v, a, open);
        let (ea, eb) = trim_range(&v, open + 1, b - 1);
        proof {
            assert(t.take(open - a) =~= v@.subrange(a as int, open as int));
            assert(t.subrange(open - a + 1, t.len() - 1) =~= v@.subrange(
                open + 1,
                b - 1,
            ));
        }
        if na == nb {
            let len = if off >= 1 {
                off
            } else {
                1
            };
            return Err(Error::MissingName { src: input.to_owned(), span: Span { offset: 0, len } });
        }
        if ea == eb {
            return Err(
                Error::MalformedEmail { src: input.to_owned(), span: Span { offset: off, len: full - off } },
            );
        }
        let name = input.substring_char(na, nb).to_owned();
        let email = input.substring_char(ea, eb).to_owned();
        Ok(Author { name, email: Some(email) })
    }

    /// The author as `Name <email>`, or `Name` when there is no email.
    pub fn to_string(&self) -> (s: String)
        ensures
            s@ == display(self@),
    {
        match &self.email {
            Some(e) => {
                let mut s = self.name.clone();
                s.append(" <");
                s.append(e.as_str());
                s.append(">");
                proof {
                    reveal_strlit(" <");
                    reveal_strlit(">");
                }
                s
            },
            None => self.name.clone(),
        }
    }
}

/// Byte offset of the first `<` of `input`, or 0; `v` holds the characters of `input`.
fn bracket_offset_exec(input: &str, v: &Vec<char>) -> (r: usize)
    requires
        v@ == input@,
    ensures
        r == bracket_offset(input@),
        r <= byte_len(input@),
{
    let full = input.as_bytes().len();
    proof {
        assert(v@.subrange(0, v@.len() as int) =~= input@);
    }
    match find_in(v, 0, v.len(), '<') {
        Some(i) => {
            let prefix = input.substring_char(0, i);
            proof {
                lemma_byte_len_prefix(input@, i as int);
                assert(prefix@ =~= input@.take(i as int));
            }
            prefix.as_bytes().len()
        },
        None => 0,
    }
}

/// `trim(name + " ") == name` for a non-empty name that is its own trim.
proof fn lemma_trim_name_space(name: Seq<char>)
    requires
        name.len() > 0,
        trim(name) == name,
    ensures
        trim(name + seq![' ']) == name,
{
    let ws = Strip::Whitespace;
    lemma_trim_bounds(name);
    assert(name.subrange(trim_lo(name), trim_hi(name)).len() == name.len());
    let x = name + seq![' '];
    assert(x[0] == name[0]);
    assert(x[x.len() - 2] == name[name.len() - 1]);
    lemma_lead_count(x, ws, 0);
    assert(x.skip(0) =~= x);
    lemma_trail_count(x, ws, 1);
    assert(x.take(x.len() - 1) =~= name);
}

/// Writing a well-formed author and parsing the text gives the same author back.
pub proof fn law_display_parse_roundtrip(a: AuthorView)
    requires
        well_formed(a),
    ensures
        parse_spec(display(a)) == Ok::<AuthorView, ErrorView>(a),
{
    let name = a.name;
    lemma_trim_bounds(name);
    assert(name.subrange(trim_lo(name), trim_hi(name)).len() == name.len());
    match a.email {
        None => {},
        Some(e) => {
            let s = display(a);
            let l = name.len() as int;
            assert(s[0] == name[0]);
            assert(s.last() == '>');
            lemma_trim_fixed(s);
            lemma_rfind_some(e, '<');
            assert forall|j: int| l + 2 <= j < s.len() implies #[trigger] s[j] != '<' by {
                if j < s.len() - 1 {
                    assert(s[j] == e[j - l - 2]);
                }
            }
            assert(s[l + 1] == '<');
            lemma_rfind(s, '<', l + 2);
            assert(s.take(l + 1) =~= name + seq![' ']);
            lemma_trim_name_space(name);
            assert(s.subrange(l + 2, s.len() - 1) =~= e);
            assert(parse_spec(s) == Ok::<AuthorView, ErrorView>(
                AuthorView { name, email: Some(e) },
            ));
        },
    }
}

/// Every author that parsing produces is well-formed.
pub proof fn law_parse_well_formed(input: Seq<char>)
    ensures
        parse_spec(input) matches Ok(a) ==> well_formed(a),
{
    let t = trim(input);
    lemma_trim_idempotent(input);
    if t.len() > 0 {
        lemma_rfind_some(t, '<');
        match rfind(t, '<') {
            None => {},
            Some(open) => {
                if t.last() == '>' {
                    lemma_trim_idempotent(t.take(open));
                    let inner = t.subrange(open + 1, t.len() - 1);
                    lemma_trim_idempotent(inner);
                    assert forall|j: int| 0 <= j < inner.len() implies #[trigger] inner[j]
                        != '<' by {
                        assert(inner[j] == t[open + 1 + j]);
                    }
                    lemma_trim_chars(inner, '<');
                    lemma_rfind(trim(inner), '<', 0);
                }
            },
        }
    }
}

/// Parsing what a parsed author writes gives that author again.
pub proof fn law_parse_display_parse(input: Seq<char>)
    ensures
        parse_spec(input) matches Ok(a) ==> parse_spec(display(a)) == Ok::<
            AuthorView,
            ErrorView,
        >(a),
{
    law_parse_well_formed(input);
    if let Ok(a) = parse_spec(input) {
        law_display_parse_roundtrip(a);
    }
}

/// The whitespace between a name and its `<email>` does not matter, and none
/// is needed: for a well-formed author with name `n` and email `e`, and any
/// run `w` of whitespace (empty too), `n + w + "<" + e + ">"` parses to that
/// author.
pub proof fn law_parse_any_space_before_email(n: Seq<char>, w: Seq<char>, e: Seq<char>)
    requires
        well_formed(AuthorView { name: n, email: Some(e) }),
        forall|j: int| 0 <= j < w.len() ==> is_ws(#[trigger] w[j]),
    ensures
        parse_spec(n + w + seq!['<'] + e + seq!['>']) == Ok::<AuthorView, ErrorView>(
            AuthorView { name: n, email: Some(e) },
        ),
{
    let s = n + w + seq!['<'] + e + seq!['>'];
    let open = (n.len() + w.len()) as int;
    lemma_trim_bounds(n);
    assert(n.subrange(trim_lo(n), trim_hi(n)).len() == n.len());
    assert(s[0] == n[0]);
    assert(s.last() == '>');
    lemma_trim_fixed(s);
    lemma_rfind_some(e, '<');
    assert forall|j: int| open + 1 <= j < s.len() implies #[trigger] s[j] != '<' by {
        if j < s.len() - 1 {
            assert(s[j] == e[j - open - 1]);
        }
    }
    assert(s[open] == '<');
    lemma_rfind(s, '<', open + 1);
    assert(s.take(open) =~= n + w + Seq::<char>::empty());
    assert(n[n.len() - 1] == n.last());
    lemma_trim_unique(Seq::<char>::empty(), n, w);
    assert(Seq::<char>::empty() + n + w =~= n + w + Seq::<char>::empty());
    assert(s.subrange(open + 1, s.len() - 1) =~= e);
}

/// Whitespace around an author string does not change the author it parses
/// to, nor whether it parses: for any text `s` and runs `u`, `w` of ASCII
/// whitespace (spaces, tabs, line breaks, form feeds), `u + s + w` parses
/// to an author exactly when `s` does, and to the same one.
pub proof fn law_parse_ignores_surrounding_whitespace(u: Seq<char>, s: Seq<char>, w: Seq<char>)
    requires
        forall|j: int| 0 <= j < u.len() ==> ascii_ws(#[trigger] u[j]),
        forall|j: int| 0 <= j < w.len() ==> ascii_ws(#[trigger] w[j]),
    ensures
        parse_spec(u + s + w) is Ok <==> parse_spec(s) is Ok,
        parse_spec(s) matches Ok(a) ==> parse_spec(u + s + w) == Ok::<AuthorView, ErrorView>(a),
{
    assert forall|j: int| 0 <= j < u.len() implies is_ws(#[trigger] u[j]) by {
        law_whitespace_chars(u[j]);
    }
    assert forall|j: int| 0 <= j < w.len() implies is_ws(#[trigger] w[j]) by {
        law_whitespace_chars(w[j]);
    }
    lemma_trim_pad(u, s, w);
}

impl std::str::FromStr for Author {
    type Err = Error;

    fn from_str(s: &str) -> (r: Result<Self, Self::Err>)
        ensures
            result_view(r) == parse_spec(s@),
    {
        Self::parse(s)
    }
}

} // verus!
