//! Keeping entries in a `.gitignore` file.
//!
//! Reading and writing the file is the caller's part; this module decides
//! what the file must hold.
use vstd::prelude::*;

use crate::text::{
    chars_of, find, find_in, is_ws, lemma_find, lemma_find_some, lemma_lead_count,
    lemma_trail_count, lemma_trim_fixed, range_eq, strip_range, trim, trim_end_by, trim_range,
    trim_start_by, strips, Strip,
};

verus! {

/// Where the first line of `s` ends: at the first `\n`, or at the end.
pub open spec fn line_end(s: Seq<char>) -> int {
    match find(s, '\n') {
        Some(i) => i,
        None => s.len() as int,
    }
}

/// `l` without one trailing carriage return.
pub open spec fn strip_cr(l: Seq<char>) -> Seq<char> {
    if l.len() > 0 && l.last() == '\r' {
        l.drop_last()
    } else {
        l
    }
}

/// The first line of `s` without its line break and one trailing carriage
/// return. (`str::lines` keeps a carriage return that ends the text without a
/// line break; a line is only ever read trimmed, which removes it either way.)
pub open spec fn first_line(s: Seq<char>) -> Seq<char> {
    strip_cr(s.take(line_end(s)))
}

/// What follows the first line of `s` and its line break.
pub open spec fn rest_lines(s: Seq<char>) -> Seq<char> {
    if line_end(s) < s.len() {
        s.skip(line_end(s) + 1)
    } else {
        Seq::empty()
    }
}

/// A line with surrounding whitespace and then surrounding slashes removed, so
/// that `target`, `/target`, `target/` and `/target/` all name `target`.
pub open spec fn normalized(line: Seq<char>) -> Seq<char> {
    trim_end_by(trim_start_by(trim(line), Strip::Only('/')), Strip::Only('/'))
}

/// Whether `line` lists `entry`: it is neither blank nor a comment, and its
/// normalized form is `entry`.
pub open spec fn line_lists(line: Seq<char>, entry: Seq<char>) -> bool {
    let t = trim(line);
    &&& t.len() > 0
    &&& t[0] != '#'
    &&& normalized(line) == entry
}

/// Whether some line of `content` lists `entry`.
pub open spec fn lists_entry(content: Seq<char>, entry: Seq<char>) -> bool
    decreases content.len(),
{
    if content.len() == 0 {
        false
    } else {
        proof {
            lemma_find_some(content, '\n');
        }
        line_lists(first_line(content), entry) || lists_entry(rest_lines(content), entry)
    }
}

/// `content` with a line break added unless it is empty or ends with one.
pub open spec fn terminated(content: Seq<char>) -> Seq<char> {
    if content.len() > 0 && content.last() != '\n' {
        content.push('\n')
    } else {
        content
    }
}

/// `content` with `entry` appended as a line of its own unless already listed.
pub open spec fn with_entry(content: Seq<char>, entry: Seq<char>) -> Seq<char> {
    if lists_entry(content, entry) {
        content
    } else {
        terminated(content) + entry + seq!['\n']
    }
}

/// `content` with each of `entries`, in order, added by `with_entry`.
pub open spec fn with_entries(content: Seq<char>, entries: Seq<Seq<char>>) -> Seq<char>
    decreases entries.len(),
{
    if entries.len() == 0 {
        content
    } else {
        with_entry(with_entries(content, entries.drop_last()), entries.last())
    }
}

/// A new file that lists `entries`, one per line.
pub open spec fn fresh_file(entries: Seq<Seq<char>>) -> Seq<char>
    decreases entries.len(),
{
    if entries.len() == 0 {
        Seq::empty()
    } else {
        fresh_file(entries.drop_last()) + entries.last() + seq!['\n']
    }
}

/// What must be written to a `.gitignore` that holds `existing` (`None` when
/// there is no such file) so that it lists `entries`: `None` when nothing is
/// to be written.
pub open spec fn gitignore_update(existing: Option<Seq<char>>, entries: Seq<Seq<char>>) -> Option<
    Seq<char>,
> {
    match existing {
        None => Some(fresh_file(entries)),
        Some(c) => {
            let u = with_entries(c, entries);
            if u == c {
                None
            } else {
                Some(u)
            }
        },
    }
}

/// The views of a slice of string slices.
pub open spec fn views(entries: Seq<&str>) -> Seq<Seq<char>> {
    entries.map_values(|e: &str| e@)
}

/// Whether some line of `content` lists `entry`.
pub fn has_entry(content: &str, entry: &str) -> (r: bool)
    ensures
        r == lists_entry(content@, entry@),
{
    let v = chars_of(content);
    let w = chars_of(entry);
    let n = v.len();
    let mut pos: usize = 0;
    assert(v@.skip(0) =~= v@);
    while pos < n
        invariant
            pos <= n == v@.len(),
            w@ == entry@,
            v@ == content@,
            lists_entry(content@, entry@) == lists_entry(v@.skip(pos as int), entry@),
        decreases n - pos,
    {
        let ghost s = v@.skip(pos as int);
        proof {
            assert(v@.subrange(pos as int, n as int) =~= s);
            lemma_find_some(s, '\n');
        }
        let (le, next) = match find_in(&v, pos, n, '\n') {
            Some(i) => (i, i + 1),
            None => (n, n),
        };
        let mut line_hi = le;
        if line_hi > pos && v[line_hi - 1] == '\r' {
            line_hi = line_hi - 1;
        }
        proof {
            assert(s.take(line_end(s)) =~= v@.subrange(pos as int, le as int));
            assert(first_line(s) =~= v@.subrange(pos as int, line_hi as int));
            assert(rest_lines(s) =~= v@.skip(next as int));
        }
        let (ta, tb) = trim_range(&v, pos, line_hi);
        if ta < tb && v[ta] != '#' {
            let (na, nb) = strip_range(&v, ta, tb, Strip::Only('/'), Strip::Only('/'));
            if range_eq(&v, na, nb, &w) {
                return true;
            }
        }
        pos = next;
    }
    false
}

/// The text to write to a `.gitignore` holding `existing` (`None` when the
/// file does not exist) so that it lists every one of `entries`, or `None`
/// when the file already lists them all and nothing needs writing.
///
/// A missing file gets one line per entry. An existing file keeps its text;
/// each entry that no line lists yet is appended on a line of its own.
pub fn ensure_entries_in_gitignore(existing: Option<&str>, entries: &[&str]) -> (r: Option<
    String,
>)
    ensures
        match r {
            Some(s) => gitignore_update(
                match existing {
                    Some(c) => Some(c@),
                    None => None,
                },
                views(entries@),
            ) == Some(s@),
            None => gitignore_update(
                match existing {
                    Some(c) => Some(c@),
                    None => None,
                },
                views(entries@),
            ) is None,
        },
{
    let ghost es = views(entries@);
    match existing {
        None => {
            let mut content = String::new();
            let mut i: usize = 0;
            while i < entries.len()
                invariant
                    i <= entries@.len(),
                    es == views(entries@),
                    content@ == fresh_file(es.take(i as int)),
                decreases entries@.len() - i,
            {
                content.append(entries[i]);
                content.append("\n");
                proof {
                    reveal_strlit("\n");
                    assert(es.take(i + 1).drop_last() =~= es.take(i as int));
                }
                i = i + 1;
            }
            proof {
                assert(es.take(entries@.len() as int) =~= es);
            }
            Some(content)
        },
        Some(existing) => {
            let mut updated = existing.to_owned();
            let mut added = false;
            let mut i: usize = 0;
            while i < entries.len()
                invariant
                    i <= entries@.len(),
                    es == views(entries@),
                    updated@ == with_entries(existing@, es.take(i as int)),
                    added ==> updated@.len() > existing@.len(),
                    !added ==> updated@ == existing@,
                decreases entries@.len() - i,
            {
                let entry = entries[i];
                proof {
                    assert(es.take(i + 1).drop_last() =~= es.take(i as int));
                    assert(es.take(i + 1).last() == entry@);
                }
                if !has_entry(updated.as_str(), entry) {
                    let u = chars_of(updated.as_str());
                    if u.len() > 0 && u[u.len() - 1] != '\n' {
                        updated.append("\n");
                        proof {
                            reveal_strlit("\n");
                        }
                    }
                    updated.append(entry);
                    updated.append("\n");
                    proof {
                        reveal_strlit("\n");
                    }
                    added = true;
                }
                i = i + 1;
            }
            proof {
                assert(es.take(entries@.len() as int) =~= es);
            }
            if added {
                Some(updated)
            } else {
                None
            }
        },
    }
}

/// An entry that a line of its own lists: non-empty, a single line, with no
/// surrounding whitespace, not a comment and without leading or trailing `/`.
pub open spec fn plain_entry(e: Seq<char>) -> bool {
    &&& e.len() > 0
    &&& forall|j: int| 0 <= j < e.len() ==> #[trigger] e[j] != '\n'
    &&& !is_ws(e[0])
    &&& !is_ws(e.last())
    &&& e[0] != '#'
    &&& e[0] != '/'
    &&& e.last() != '/'
}

/// The file's text after an update: what was written, or what it already held.
pub open spec fn after_update(existing: Option<Seq<char>>, entries: Seq<Seq<char>>) -> Seq<char> {
    match gitignore_update(existing, entries) {
        Some(u) => u,
        None => existing.unwrap(),
    }
}

proof fn lemma_line_lists_self(e: Seq<char>)
    requires
        plain_entry(e),
    ensures
        line_lists(e, e),
{
    lemma_trim_fixed(e);
    let slash = Strip::Only('/');
    lemma_lead_count(e, slash, 0);
    assert(e.skip(0) =~= e);
    lemma_trail_count(e, slash, 0);
    assert(e.take(e.len() as int) =~= e);
}

proof fn lemma_own_line(e: Seq<char>)
    requires
        plain_entry(e),
    ensures
        lists_entry(e + seq!['\n'], e),
{
    let x = e + seq!['\n'];
    assert forall|j: int| 0 <= j < e.len() implies #[trigger] x[j] != '\n' by {
        assert(x[j] == e[j]);
    }
    assert(x[e.len() as int] == '\n');
    lemma_find(x, '\n', e.len() as int);
    assert(x.take(e.len() as int) =~= e);
    lemma_line_lists_self(e);
    lemma_find_some(x, '\n');
}

/// Lines are read independently on both sides of a line break.
proof fn lemma_lists_concat(x: Seq<char>, y: Seq<char>, f: Seq<char>)
    requires
        x.len() == 0 || x.last() == '\n',
    ensures
        lists_entry(x + y, f) == (lists_entry(x, f) || lists_entry(y, f)),
    decreases x.len(),
{
    if x.len() == 0 {
        assert(x + y =~= y);
    } else {
        lemma_find_some(x, '\n');
        assert(x[x.len() - 1] == '\n');
        let i = find(x, '\n')->0;
        let xy = x + y;
        assert forall|j: int| 0 <= j < i implies #[trigger] xy[j] != '\n' by {
            assert(xy[j] == x[j]);
        }
        assert(xy[i] == x[i]);
        lemma_find(xy, '\n', i);
        lemma_find_some(xy, '\n');
        assert(xy.take(i) =~= x.take(i));
        let rest = x.skip(i + 1);
        assert(xy.skip(i + 1) =~= rest + y);
        if rest.len() > 0 {
            assert(rest.last() == x.last());
        }
        lemma_lists_concat(rest, y, f);
    }
}

/// Adding a missing final line break changes no line.
proof fn lemma_lists_newline(c: Seq<char>, f: Seq<char>)
    requires
        c.len() > 0,
        c.last() != '\n',
    ensures
        lists_entry(c.push('\n'), f) == lists_entry(c, f),
    decreases c.len(),
{
    let d = c.push('\n');
    lemma_find_some(c, '\n');
    lemma_find_some(d, '\n');
    assert forall|j: int| 0 <= j < c.len() implies #[trigger] d[j] == c[j] by {}
    match find(c, '\n') {
        None => {
            lemma_find(d, '\n', c.len() as int);
            assert(d.take(c.len() as int) =~= c);
            assert(c.take(c.len() as int) =~= c);
            assert(first_line(d) == first_line(c));
            assert(rest_lines(d).len() == 0);
            assert(rest_lines(c).len() == 0);
            assert(!lists_entry(rest_lines(d), f));
            assert(!lists_entry(rest_lines(c), f));
        },
        Some(i) => {
            assert(c[c.len() - 1] == c.last());
            lemma_find(d, '\n', i);
            assert(d.take(i) =~= c.take(i));
            let rest = c.skip(i + 1);
            assert(d.skip(i + 1) =~= rest.push('\n'));
            assert(rest.last() == c.last());
            lemma_lists_newline(rest, f);
            assert(first_line(d) == first_line(c));
            assert(rest_lines(d) == rest.push('\n'));
            assert(rest_lines(c) == rest);
        },
    }
}

proof fn lemma_terminated(c: Seq<char>, f: Seq<char>)
    ensures
        lists_entry(terminated(c), f) == lists_entry(c, f),
        terminated(c).len() == 0 || terminated(c).last() == '\n',
        terminated(c).len() >= c.len(),
        terminated(c).take(c.len() as int) == c,
{
    if c.len() > 0 && c.last() != '\n' {
        lemma_lists_newline(c, f);
        assert(c.push('\n').take(c.len() as int) =~= c);
    } else {
        assert(c.take(c.len() as int) =~= c);
    }
}

proof fn lemma_with_entry(c: Seq<char>, e: Seq<char>, f: Seq<char>)
    ensures
        plain_entry(e) ==> lists_entry(with_entry(c, e), e),
        lists_entry(c, f) ==> lists_entry(with_entry(c, e), f),
        with_entry(c, e).len() >= c.len(),
        with_entry(c, e).take(c.len() as int) == c,
{
    lemma_terminated(c, f);
    lemma_terminated(c, e);
    if !lists_entry(c, e) {
        let t = terminated(c);
        let line = e + seq!['\n'];
        assert(t + e + seq!['\n'] =~= t + line);
        lemma_lists_concat(t, line, f);
        lemma_lists_concat(t, line, e);
        if plain_entry(e) {
            lemma_own_line(e);
        }
        assert((t + line).take(c.len() as int) =~= t.take(c.len() as int));
    } else {
        assert(c.take(c.len() as int) =~= c);
    }
}

proof fn lemma_with_entries(c: Seq<char>, es: Seq<Seq<char>>, f: Seq<char>)
    ensures
        forall|k: int|
            0 <= k < es.len() && plain_entry(es[k]) ==> lists_entry(
                with_entries(c, es),
                #[trigger] es[k],
            ),
        lists_entry(c, f) ==> lists_entry(with_entries(c, es), f),
        with_entries(c, es).len() >= c.len(),
        with_entries(c, es).take(c.len() as int) == c,
    decreases es.len(),
{
    if es.len() == 0 {
        assert(c.take(c.len() as int) =~= c);
    } else {
        let init = es.drop_last();
        let w = with_entries(c, init);
        lemma_with_entries(c, init, f);
        lemma_with_entry(w, es.last(), f);
        assert forall|k: int|
            0 <= k < es.len() && plain_entry(es[k]) implies lists_entry(
            with_entries(c, es),
            #[trigger] es[k],
        ) by {
            lemma_with_entries(c, init, es[k]);
            lemma_with_entry(w, es.last(), es[k]);
            if k < es.len() - 1 {
                assert(init[k] == es[k]);
            }
        }
        assert(with_entries(c, es).take(c.len() as int) =~= with_entry(w, es.last()).take(
            w.len() as int,
        ).take(c.len() as int));
    }
}

proof fn lemma_with_entries_listed(u: Seq<char>, es: Seq<Seq<char>>)
    requires
        forall|k: int| 0 <= k < es.len() ==> lists_entry(u, #[trigger] es[k]),
    ensures
        with_entries(u, es) == u,
    decreases es.len(),
{
    if es.len() > 0 {
        let init = es.drop_last();
        assert forall|k: int| 0 <= k < init.len() implies lists_entry(u, #[trigger] init[k]) by {
            assert(init[k] == es[k]);
        }
        lemma_with_entries_listed(u, init);
        assert(lists_entry(u, es[es.len() - 1]));
    }
}

proof fn lemma_fresh_file(es: Seq<Seq<char>>)
    ensures
        forall|k: int|
            0 <= k < es.len() && plain_entry(es[k]) ==> lists_entry(
                fresh_file(es),
                #[trigger] es[k],
            ),
        fresh_file(es).len() == 0 || fresh_file(es).last() == '\n',
    decreases es.len(),
{
    if es.len() > 0 {
        let init = es.drop_last();
        let head = fresh_file(init);
        lemma_fresh_file(init);
        let line = es.last() + seq!['\n'];
        assert(head + es.last() + seq!['\n'] =~= head + line);
        assert forall|k: int|
            0 <= k < es.len() && plain_entry(es[k]) implies lists_entry(
            fresh_file(es),
            #[trigger] es[k],
        ) by {
            lemma_lists_concat(head, line, es[k]);
            if k < es.len() - 1 {
                assert(init[k] == es[k]);
            } else {
                lemma_own_line(es.last());
            }
        }
    }
}

/// An update never changes what the file already holds: it only appends.
pub proof fn law_update_keeps_existing(c: Seq<char>, es: Seq<Seq<char>>)
    ensures
        gitignore_update(Some(c), es) matches Some(u) ==> u.len() >= c.len() && u.take(
            c.len() as int,
        ) == c,
{
    lemma_with_entries(c, es, seq![]);
}

/// After an update the file lists each plain entry that was asked for, and
/// still lists everything that it listed before.
pub proof fn law_update_lists_entries(
    existing: Option<Seq<char>>,
    es: Seq<Seq<char>>,
    f: Seq<char>,
)
    ensures
        forall|k: int|
            0 <= k < es.len() && plain_entry(es[k]) ==> lists_entry(
                after_update(existing, es),
                #[trigger] es[k],
            ),
        existing matches Some(c) && lists_entry(c, f) ==> lists_entry(after_update(existing, es), f),
{
    match existing {
        None => {
            lemma_fresh_file(es);
        },
        Some(c) => {
            lemma_with_entries(c, es, f);
        },
    }
}

/// A file that already lists every entry is left as it is.
pub proof fn law_listed_entries_not_written(c: Seq<char>, es: Seq<Seq<char>>)
    requires
        forall|k: int| 0 <= k < es.len() ==> lists_entry(c, #[trigger] es[k]),
    ensures
        gitignore_update(Some(c), es) is None,
{
    lemma_with_entries_listed(c, es);
}

/// Updating twice with plain entries writes at most once: the second update
/// finds nothing to add.
pub proof fn law_update_idempotent(existing: Option<Seq<char>>, es: Seq<Seq<char>>)
    requires
        forall|k: int| 0 <= k < es.len() ==> plain_entry(#[trigger] es[k]),
    ensures
        gitignore_update(existing, es) matches Some(u) ==> gitignore_update(Some(u), es) is None,
{
    law_update_lists_entries(existing, es, seq![]);
    if let Some(u) = gitignore_update(existing, es) {
        assert(after_update(existing, es) == u);
        law_listed_entries_not_written(u, es);
    }
}

/// A text that is one line `l` and its line break lists exactly what `l` lists.
proof fn lemma_single_line(l: Seq<char>, e: Seq<char>)
    requires
        forall|j: int| 0 <= j < l.len() ==> #[trigger] l[j] != '\n',
        l.len() == 0 || l.last() != '\r',
    ensures
        lists_entry(l + seq!['\n'], e) == line_lists(l, e),
{
    let x = l + seq!['\n'];
    assert forall|j: int| 0 <= j < l.len() implies #[trigger] x[j] != '\n' by {
        assert(x[j] == l[j]);
    }
    assert(x[l.len() as int] == '\n');
    lemma_find(x, '\n', l.len() as int);
    lemma_find_some(x, '\n');
    assert(x.take(l.len() as int) =~= l);
    assert(rest_lines(x).len() == 0);
    assert(!lists_entry(rest_lines(x), e));
}

/// A line lists an entry only when the line, trimmed and stripped of leading
/// and trailing `/`, is the entry itself.
pub proof fn law_line_lists_only_its_normal_form(l: Seq<char>, e: Seq<char>)
    requires
        forall|j: int| 0 <= j < l.len() ==> #[trigger] l[j] != '\n',
        l.len() == 0 || l.last() != '\r',
    ensures
        lists_entry(l + seq!['\n'], e) ==> normalized(l) == e,
{
    lemma_single_line(l, e);
}

/// A path below an entry does not list the entry: the line `e/x` (with `x`
/// a non-empty path that ends in neither `/` nor whitespace) does not list `e`.
pub proof fn law_subpath_does_not_list_entry(e: Seq<char>, x: Seq<char>)
    requires
        plain_entry(e),
        x.len() > 0,
        forall|j: int| 0 <= j < x.len() ==> #[trigger] x[j] != '\n',
        !is_ws(x.last()),
        x.last() != '/',
    ensures
        !lists_entry(e + seq!['/'] + x + seq!['\n'], e),
{
    let l = e + seq!['/'] + x;
    assert forall|j: int| 0 <= j < l.len() implies #[trigger] l[j] != '\n' by {
        if j < e.len() {
            assert(l[j] == e[j]);
        } else if j > e.len() {
            assert(l[j] == x[j - e.len() - 1]);
        }
    }
    assert(l.last() == x.last());
    assert(is_ws('\r'));
    assert(l + seq!['\n'] =~= e + seq!['/'] + x + seq!['\n']);
    lemma_single_line(l, e);
    assert(l[0] == e[0]);
    lemma_trim_fixed(l);
    let slash = Strip::Only('/');
    lemma_lead_count(l, slash, 0);
    assert(l.skip(0) =~= l);
    lemma_trail_count(l, slash, 0);
    assert(l.take(l.len() as int) =~= l);
    assert(normalized(l) == l);
    assert(l.len() != e.len());
}

/// Slashes around an entry do not matter: for a plain entry `e` and runs `p`,
/// `q` of `/`, the line `p + e + q` lists `e`.
pub proof fn law_slashes_around_entry(p: Seq<char>, e: Seq<char>, q: Seq<char>)
    requires
        plain_entry(e),
        forall|j: int| 0 <= j < p.len() ==> #[trigger] p[j] == '/',
        forall|j: int| 0 <= j < q.len() ==> #[trigger] q[j] == '/',
    ensures
        lists_entry(p + e + q + seq!['\n'], e),
{
    let l = p + e + q;
    assert forall|j: int| 0 <= j < l.len() implies #[trigger] l[j] != '\n' by {
        if j < p.len() {
            assert(l[j] == p[j]);
        } else if j < p.len() + e.len() {
            assert(l[j] == e[j - p.len()]);
        } else {
            assert(l[j] == q[j - p.len() - e.len()]);
        }
    }
    if q.len() > 0 {
        assert(l.last() == q[q.len() - 1]);
    } else {
        assert(l.last() == e.last());
    }
    if p.len() > 0 {
        assert(l[0] == p[0]);
    } else {
        assert(l[0] == e[0]);
    }
    assert(is_ws('\r'));
    lemma_single_line(l, e);
    lemma_trim_fixed(l);
    let slash = Strip::Only('/');
    assert forall|j: int| 0 <= j < p.len() implies strips(slash, #[trigger] l[j]) by {
        assert(l[j] == p[j]);
    }
    assert(l[p.len() as int] == e[0]);
    lemma_lead_count(l, slash, p.len() as int);
    let r = l.skip(p.len() as int);
    assert(r =~= e + q);
    assert forall|j: int| r.len() - q.len() <= j < r.len() implies strips(
        slash,
        #[trigger] r[j],
    ) by {
        assert(r[j] == q[j - e.len()]);
    }
    assert(r[r.len() - q.len() - 1] == e.last());
    lemma_trail_count(r, slash, q.len() as int);
    assert(r.take(r.len() - q.len()) =~= e);
    assert(l[0] != '#');
    assert(l + seq!['\n'] =~= p + e + q + seq!['\n']);
}

} // verus!
