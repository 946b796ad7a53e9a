//! Character-level string model: whitespace, trimming, searching and the
//! UTF-8 byte length of character sequences.
use vstd::prelude::*;
use vstd::utf8::encode_utf8;

verus! {

/// The Unicode `White_Space` property, which is what `char::is_whitespace` tests.
pub open spec fn is_ws(c: char) -> bool {
    ||| ('\u{9}' <= c && c <= '\u{d}')
    ||| c == ' '
    ||| c == '\u{85}'
    ||| c == '\u{a0}'
    ||| c == '\u{1680}'
    ||| ('\u{2000}' <= c && c <= '\u{200a}')
    ||| c == '\u{2028}'
    ||| c == '\u{2029}'
    ||| c == '\u{202f}'
    ||| c == '\u{205f}'
    ||| c == '\u{3000}'
}

/// Whether `c` is a Unicode whitespace character.
pub fn is_whitespace(c: char) -> (r: bool)
    ensures
        r == is_ws(c),
{
    ('\u{9}' <= c && c <= '\u{d}') || c == ' ' || c == '\u{85}' || c == '\u{a0}' || c
        == '\u{1680}' || ('\u{2000}' <= c && c <= '\u{200a}') || c == '\u{2028}' || c
        == '\u{2029}' || c == '\u{202f}' || c == '\u{205f}' || c == '\u{3000}'
}

/// Which characters a trimming operation strips.
#[derive(Clone, Copy, Debug, PartialEq, Eq)]
pub enum Strip {
    /// Unicode whitespace, as `str::trim` strips it.
    Whitespace,
    /// One given character, as `str::trim_start_matches(c)` strips it.
    Only(char),
}

pub open spec fn strips(cls: Strip, c: char) -> bool {
    match cls {
        Strip::Whitespace => is_ws(c),
        Strip::Only(x) => c == x,
    }
}

fn strips_exec(cls: Strip, c: char) -> (r: bool)
    ensures
        r == strips(cls, c),
{
    match cls {
        Strip::Whitespace => is_whitespace(c),
        Strip::Only(x) => c == x,
    }
}

/// Number of leading characters of `s` that `cls` strips.
pub open spec fn lead_count(s: Seq<char>, cls: Strip) -> nat
    decreases s.len(),
{
    if s.len() > 0 && strips(cls, s[0]) {
        1 + lead_count(s.drop_first(), cls)
    } else {
        0
    }
}

/// Number of trailing characters of `s` that `cls` strips.
pub open spec fn trail_count(s: Seq<char>, cls: Strip) -> nat
    decreases s.len(),
{
    if s.len() > 0 && strips(cls, s.last()) {
        1 + trail_count(s.drop_last(), cls)
    } else {
        0
    }
}

/// `s` without its leading characters that `cls` strips.
pub open spec fn trim_start_by(s: Seq<char>, cls: Strip) -> Seq<char> {
    s.skip(lead_count(s, cls) as int)
}

/// `s` without its trailing characters that `cls` strips.
pub open spec fn trim_end_by(s: Seq<char>, cls: Strip) -> Seq<char> {
    s.take(s.len() - trail_count(s, cls))
}

/// `s` without leading and trailing whitespace (`str::trim`).
pub open spec fn trim(s: Seq<char>) -> Seq<char> {
    trim_end_by(trim_start_by(s, Strip::Whitespace), Strip::Whitespace)
}

/// Index of the first occurrence of `c` in `s` (`str::find` on characters).
pub open spec fn find(s: Seq<char>, c: char) -> Option<int>
    decreases s.len(),
{
    if s.len() == 0 {
        None
    } else if s[0] == c {
        Some(0)
    } else {
        match find(s.drop_first(), c) {
            Some(i) => Some(i + 1),
            None => None,
        }
    }
}

/// Index of the last occurrence of `c` in `s` (`str::rfind` on characters).
pub open spec fn rfind(s: Seq<char>, c: char) -> Option<int>
    decreases s.len(),
{
    if s.len() == 0 {
        None
    } else if s.last() == c {
        Some(s.len() - 1)
    } else {
        rfind(s.drop_last(), c)
    }
}

/// Length in bytes of the UTF-8 encoding of `s` (`str::len`).
pub open spec fn byte_len(s: Seq<char>) -> nat {
    encode_utf8(s).len()
}

pub proof fn lemma_lead_count(s: Seq<char>, cls: Strip, k: int)
    requires
        0 <= k <= s.len(),
        forall|j: int| 0 <= j < k ==> strips(cls, #[trigger] s[j]),
        k == s.len() || !strips(cls, s[k]),
    ensures
        lead_count(s, cls) == k,
    decreases k,
{
    if k > 0 {
        let t = s.drop_first();
        assert forall|j: int| 0 <= j < k - 1 implies strips(cls, #[trigger] t[j]) by {
            assert(t[j] == s[j + 1]);
        }
        if k - 1 < t.len() {
            assert(t[k - 1] == s[k]);
        }
        lemma_lead_count(t, cls, k - 1);
    }
}

pub proof fn lemma_trail_count(s: Seq<char>, cls: Strip, k: int)
    requires
        0 <= k <= s.len(),
        forall|j: int| s.len() - k <= j < s.len() ==> strips(cls, #[trigger] s[j]),
        k == s.len() || !strips(cls, s[s.len() - k - 1]),
    ensures
        trail_count(s, cls) == k,
    decreases k,
{
    if k > 0 {
        let t = s.drop_last();
        assert forall|j: int| t.len() - (k - 1) <= j < t.len() implies strips(
            cls,
            #[trigger] t[j],
        ) by {
            assert(t[j] == s[j]);
        }
        assert(s.last() == s[s.len() - 1]);
        lemma_trail_count(t, cls, k - 1);
    }
}

pub proof fn lemma_lead_count_bound(s: Seq<char>, cls: Strip)
    ensures
        lead_count(s, cls) <= s.len(),
        forall|j: int| 0 <= j < lead_count(s, cls) ==> strips(cls, #[trigger] s[j]),
        lead_count(s, cls) < s.len() ==> !strips(cls, s[lead_count(s, cls) as int]),
    decreases s.len(),
{
    if s.len() > 0 && strips(cls, s[0]) {
        let t = s.drop_first();
        lemma_lead_count_bound(t, cls);
        assert forall|j: int| 0 <= j < lead_count(s, cls) implies strips(cls, #[trigger] s[j]) by {
            if j > 0 {
                assert(s[j] == t[j - 1]);
            }
        }
        if lead_count(s, cls) < s.len() {
            assert(s[lead_count(s, cls) as int] == t[lead_count(t, cls) as int]);
        }
    }
}

pub proof fn lemma_trail_count_bound(s: Seq<char>, cls: Strip)
    ensures
        trail_count(s, cls) <= s.len(),
        forall|j: int|
            s.len() - trail_count(s, cls) <= j < s.len() ==> strips(cls, #[trigger] s[j]),
        trail_count(s, cls) < s.len() ==> !strips(cls, s[s.len() - trail_count(s, cls) - 1]),
    decreases s.len(),
{
    if s.len() > 0 && strips(cls, s.last()) {
        let t = s.drop_last();
        lemma_trail_count_bound(t, cls);
        assert forall|j: int|
            s.len() - trail_count(s, cls) <= j < s.len() implies strips(
            cls,
            #[trigger] s[j],
        ) by {
            if j < s.len() - 1 {
                assert(s[j] == t[j]);
            }
        }
        if trail_count(s, cls) < s.len() {
            assert(s[s.len() - trail_count(s, cls) - 1] == t[t.len() - trail_count(t, cls) - 1]);
        }
    }
}

pub proof fn lemma_find(s: Seq<char>, c: char, k: int)
    requires
        0 <= k <= s.len(),
        forall|j: int| 0 <= j < k ==> #[trigger] s[j] != c,
    ensures
        k < s.len() && s[k] == c ==> find(s, c) == Some(k),
        k == s.len() ==> find(s, c) is None,
    decreases k,
{
    if k > 0 {
        let t = s.drop_first();
        assert forall|j: int| 0 <= j < k - 1 implies #[trigger] t[j] != c by {
            assert(t[j] == s[j + 1]);
        }
        if k < s.len() {
            assert(t[k - 1] == s[k]);
        }
        lemma_find(t, c, k - 1);
    }
}

pub proof fn lemma_rfind(s: Seq<char>, c: char, k: int)
    requires
        0 <= k <= s.len(),
        forall|j: int| k <= j < s.len() ==> #[trigger] s[j] != c,
    ensures
        k > 0 && s[k - 1] == c ==> rfind(s, c) == Some(k - 1),
        k == 0 ==> rfind(s, c) is None,
    decreases s.len() - k,
{
    if k < s.len() {
        let t = s.drop_last();
        assert forall|j: int| k <= j < t.len() implies #[trigger] t[j] != c by {
            assert(t[j] == s[j]);
        }
        assert(s.last() == s[s.len() - 1]);
        if k > 0 {
            assert(t[k - 1] == s[k - 1]);
        }
        lemma_rfind(t, c, k);
    } else if s.len() > 0 {
        assert(s.last() == s[s.len() - 1]);
    }
}

/// What `find` and `rfind` return is an index of the character searched for.
pub proof fn lemma_find_some(s: Seq<char>, c: char)
    ensures
        find(s, c) matches Some(i) ==> 0 <= i < s.len() && s[i] == c && forall|j: int|
            0 <= j < i ==> #[trigger] s[j] != c,
        find(s, c) is None ==> forall|j: int| 0 <= j < s.len() ==> #[trigger] s[j] != c,
    decreases s.len(),
{
    if s.len() > 0 && s[0] != c {
        let t = s.drop_first();
        lemma_find_some(t, c);
        assert forall|j: int| 0 < j < s.len() implies #[trigger] s[j] == t[j - 1] by {}
    }
}

pub proof fn lemma_rfind_some(s: Seq<char>, c: char)
    ensures
        rfind(s, c) matches Some(i) ==> 0 <= i < s.len() && s[i] == c && forall|j: int|
            i < j < s.len() ==> #[trigger] s[j] != c,
        rfind(s, c) is None ==> forall|j: int| 0 <= j < s.len() ==> #[trigger] s[j] != c,
    decreases s.len(),
{
    if s.len() > 0 && s.last() != c {
        let t = s.drop_last();
        lemma_rfind_some(t, c);
        assert forall|j: int| 0 <= j < s.len() - 1 implies #[trigger] s[j] == t[j] by {}
    }
}

pub proof fn lemma_byte_len_concat(a: Seq<char>, b: Seq<char>)
    ensures
        byte_len(a + b) == byte_len(a) + byte_len(b),
    decreases a.len(),
{
    if a.len() > 0 {
        assert((a + b).drop_first() =~= a.drop_first() + b);
        assert((a + b)[0] == a[0]);
        lemma_byte_len_concat(a.drop_first(), b);
    } else {
        assert(a + b =~= b);
    }
}

pub proof fn lemma_byte_len_prefix(s: Seq<char>, i: int)
    requires
        0 <= i <= s.len(),
    ensures
        byte_len(s.take(i)) <= byte_len(s),
{
    assert(s =~= s.take(i) + s.skip(i));
    lemma_byte_len_concat(s.take(i), s.skip(i));
}

/// The characters of `s`, in order.
pub fn chars_of(s: &str) -> (v: Vec<char>)
    ensures
        v@ == s@,
{
    let mut v: Vec<char> = Vec::new();
    for c in it: s.chars()
        invariant
            it.seq() == s@,
            v@ == it.seq().take(it.index() as int),
    {
        v.push(c);
        assert(it.seq().take(it.index() + 1) =~= it.seq().take(it.index() as int).push(c));
    }
    assert(s@.take(s@.len() as int) =~= s@);
    v
}

/// End of the run of characters that `cls` strips starting at `lo`.
pub fn lead_end(v: &Vec<char>, lo: usize, hi: usize, cls: Strip) -> (r: usize)
    requires
        lo <= hi <= v.len(),
    ensures
        lo <= r <= hi,
        r - lo == lead_count(v@.subrange(lo as int, hi as int), cls),
{
    let mut i = lo;
    while i < hi && strips_exec(cls, v[i])
        invariant
            lo <= i <= hi <= v.len(),
            forall|j: int| lo <= j < i ==> strips(cls, #[trigger] v@[j]),
        decreases hi - i,
    {
        i = i + 1;
    }
    proof {
        let s = v@.subrange(lo as int, hi as int);
        assert forall|j: int| 0 <= j < i - lo implies strips(cls, #[trigger] s[j]) by {
            assert(s[j] == v@[lo + j]);
        }
        if i < hi {
            assert(s[i - lo] == v@[i as int]);
        }
        lemma_lead_count(s, cls, i - lo);
    }
    i
}

/// Start of the run of characters that `cls` strips ending at `hi`.
pub fn trail_start(v: &Vec<char>, lo: usize, hi: usize, cls: Strip) -> (r: usize)
    requires
        lo <= hi <= v.len(),
    ensures
        lo <= r <= hi,
        hi - r == trail_count(v@.subrange(lo as int, hi as int), cls),
{
    let mut i = hi;
    while i > lo && strips_exec(cls, v[i - 1])
        invariant
            lo <= i <= hi <= v.len(),
            forall|j: int| i <= j < hi ==> strips(cls, #[trigger] v@[j]),
        decreases i - lo,
    {
        i = i - 1;
    }
    proof {
        let s = v@.subrange(lo as int, hi as int);
        assert forall|j: int| s.len() - (hi - i) <= j < s.len() implies strips(
            cls,
            #[trigger] s[j],
        ) by {
            assert(s[j] == v@[lo + j]);
        }
        if i > lo {
            assert(s[s.len() - (hi - i) - 1] == v@[i - 1]);
        }
        lemma_trail_count(s, cls, (hi - i) as int);
    }
    i
}

/// Bounds of `trim_end_by(trim_start_by(v[lo..hi], first), last)` within `v`.
pub fn strip_range(v: &Vec<char>, lo: usize, hi: usize, first: Strip, last: Strip) -> (r: (
    usize,
    usize,
))
    requires
        lo <= hi <= v.len(),
    ensures
        lo <= r.0 <= r.1 <= hi,
        v@.subrange(r.0 as int, r.1 as int) == trim_end_by(
            trim_start_by(v@.subrange(lo as int, hi as int), first),
            last,
        ),
{
    let a = lead_end(v, lo, hi, first);
    let b = trail_start(v, a, hi, last);
    proof {
        let s = v@.subrange(lo as int, hi as int);
        assert(trim_start_by(s, first) =~= v@.subrange(a as int, hi as int));
        assert(v@.subrange(a as int, hi as int).take(hi - a - (hi - b)) =~= v@.subrange(
            a as int,
            b as int,
        ));
    }
    (a, b)
}

/// Bounds of `trim(v[lo..hi])` within `v`.
pub fn trim_range(v: &Vec<char>, lo: usize, hi: usize) -> (r: (usize, usize))
    requires
        lo <= hi <= v.len(),
    ensures
        lo <= r.0 <= r.1 <= hi,
        v@.subrange(r.0 as int, r.1 as int) == trim(v@.subrange(lo as int, hi as int)),
{
    strip_range(v, lo, hi, Strip::Whitespace, Strip::Whitespace)
}

/// Whether `v[lo..hi]` holds exactly the characters `w`.
pub fn range_eq(v: &Vec<char>, lo: usize, hi: usize, w: &Vec<char>) -> (r: bool)
    requires
        lo <= hi <= v.len(),
    ensures
        r == (v@.subrange(lo as int, hi as int) == w@),
{
    if hi - lo != w.len() {
        return false;
    }
    let mut i: usize = 0;
    while i < w.len()
        invariant
            lo <= hi <= v.len(),
            hi - lo == w.len(),
            i <= w.len(),
            forall|j: int| 0 <= j < i ==> v@[lo + j] == #[trigger] w@[j],
        decreases w.len() - i,
    {
        if v[lo + i] != w[i] {
            assert(v@.subrange(lo as int, hi as int)[i as int] != w@[i as int]);
            return false;
        }
        i = i + 1;
    }
    assert(v@.subrange(lo as int, hi as int) =~= w@);
    true
}

/// Where `trim(s)` starts within `s`.
pub open spec fn trim_lo(s: Seq<char>) -> int {
    lead_count(s, Strip::Whitespace) as int
}

/// Where `trim(s)` ends within `s`.
pub open spec fn trim_hi(s: Seq<char>) -> int {
    s.len() - trail_count(s.skip(trim_lo(s)), Strip::Whitespace)
}

/// `trim(s)` is the range `trim_lo(s)..trim_hi(s)` of `s`, and it neither starts
/// nor ends with whitespace.
pub proof fn lemma_trim_bounds(s: Seq<char>)
    ensures
        0 <= trim_lo(s) <= trim_hi(s) <= s.len(),
        trim(s) == s.subrange(trim_lo(s), trim_hi(s)),
        trim_lo(s) < trim_hi(s) ==> !is_ws(s[trim_lo(s)]) && !is_ws(s[trim_hi(s) - 1]),
        forall|j: int| 0 <= j < trim_lo(s) ==> is_ws(#[trigger] s[j]),
        forall|j: int| trim_hi(s) <= j < s.len() ==> is_ws(#[trigger] s[j]),
{
    let ws = Strip::Whitespace;
    lemma_lead_count_bound(s, ws);
    let lo = trim_lo(s);
    let u = s.skip(lo);
    lemma_trail_count_bound(u, ws);
    assert(trim(s) =~= s.subrange(lo, trim_hi(s)));
    if lo < trim_hi(s) {
        assert(u[u.len() - trail_count(u, ws) - 1] == s[trim_hi(s) - 1]);
    }
    assert forall|j: int| trim_hi(s) <= j < s.len() implies is_ws(#[trigger] s[j]) by {
        assert(s[j] == u[j - lo]);
    }
}

/// A sequence that neither starts nor ends with whitespace is its own trim.
pub proof fn lemma_trim_fixed(s: Seq<char>)
    requires
        s.len() > 0 ==> !is_ws(s[0]) && !is_ws(s.last()),
    ensures
        trim(s) == s,
{
    let ws = Strip::Whitespace;
    lemma_lead_count(s, ws, 0);
    assert(s.skip(0) =~= s);
    lemma_trail_count(s, ws, 0);
    assert(s.take(s.len() as int) =~= s);
}

/// Trimming twice trims no more than trimming once.
pub proof fn lemma_trim_idempotent(s: Seq<char>)
    ensures
        trim(trim(s)) == trim(s),
{
    lemma_trim_bounds(s);
    let t = trim(s);
    if t.len() > 0 {
        assert(t[0] == s[trim_lo(s)]);
        assert(t.last() == s[trim_hi(s) - 1]);
    }
    lemma_trim_fixed(t);
}

/// Every character of `trim(s)` is a character of `s`.
pub proof fn lemma_trim_chars(s: Seq<char>, c: char)
    requires
        forall|j: int| 0 <= j < s.len() ==> #[trigger] s[j] != c,
    ensures
        forall|j: int| 0 <= j < trim(s).len() ==> #[trigger] trim(s)[j] != c,
{
    lemma_trim_bounds(s);
    assert forall|j: int| 0 <= j < trim(s).len() implies #[trigger] trim(s)[j] != c by {
        assert(trim(s)[j] == s[trim_lo(s) + j]);
    }
}

/// Position of the first `c` in `v[lo..hi]`, as an index into `v`.
pub fn find_in(v: &Vec<char>, lo: usize, hi: usize, c: char) -> (r: Option<usize>)
    requires
        lo <= hi <= v.len(),
    ensures
        match r {
            Some(i) => lo <= i < hi && find(v@.subrange(lo as int, hi as int), c) == Some(i - lo),
            None => find(v@.subrange(lo as int, hi as int), c) is None,
        },
{
    let ghost s = v@.subrange(lo as int, hi as int);
    let mut i = lo;
    while i < hi
        invariant
            lo <= i <= hi <= v.len(),
            s == v@.subrange(lo as int, hi as int),
            forall|j: int| lo <= j < i ==> #[trigger] v@[j] != c,
        decreases hi - i,
    {
        if v[i] == c {
            proof {
                assert forall|j: int| 0 <= j < i - lo implies #[trigger] s[j] != c by {
                    assert(s[j] == v@[lo + j]);
                }
                assert(s[i - lo] == v@[i as int]);
                lemma_find(s, c, i - lo);
            }
            return Some(i);
        }
        i = i + 1;
    }
    proof {
        assert forall|j: int| 0 <= j < s.len() implies #[trigger] s[j] != c by {
            assert(s[j] == v@[lo + j]);
        }
        lemma_find(s, c, s.len() as int);
    }
    None
}

/// Position of the last `c` in `v[lo..hi]`, as an index into `v`.
pub fn rfind_in(v: &Vec<char>, lo: usize, hi: usize, c: char) -> (r: Option<usize>)
    requires
        lo <= hi <= v.len(),
    ensures
        match r {
            Some(i) => lo <= i < hi && rfind(v@.subrange(lo as int, hi as int), c) == Some(i - lo),
            None => rfind(v@.subrange(lo as int, hi as int), c) is None,
        },
{
    let ghost s = v@.subrange(lo as int, hi as int);
    let mut i = hi;
    while i > lo
        invariant
            lo <= i <= hi <= v.len(),
            s == v@.subrange(lo as int, hi as int),
            forall|j: int| i <= j < hi ==> #[trigger] v@[j] != c,
        decreases i - lo,
    {
        if v[i - 1] == c {
            proof {
                assert forall|j: int| i - lo <= j < s.len() implies #[trigger] s[j] != c by {
                    assert(s[j] == v@[lo + j]);
                }
                assert(s[i - lo - 1] == v@[i - 1]);
                lemma_rfind(s, c, i - lo);
            }
            return Some(i - 1);
        }
        i = i - 1;
    }
    proof {
        assert forall|j: int| 0 <= j < s.len() implies #[trigger] s[j] != c by {
            assert(s[j] == v@[lo + j]);
        }
        lemma_rfind(s, c, 0);
    }
    None
}

/// The ASCII whitespace characters: tab, line feed, vertical tab, form feed,
/// carriage return and space.
pub open spec fn ascii_ws(c: char) -> bool {
    c == '\t' || c == '\n' || c == '\u{b}' || c == '\u{c}' || c == '\r' || c == ' '
}

/// Every ASCII whitespace character is whitespace, and so are the Unicode
/// spaces that `char::is_whitespace` accepts beyond ASCII, such as the
/// no-break space, the line and paragraph separators and the ideographic
/// space; the zero-width space and ASCII control characters other than
/// tab, line feed, vertical tab, form feed and carriage return are not.
pub proof fn law_whitespace_chars(c: char)
    ensures
        ascii_ws(c) ==> is_ws(c),
        c == '\u{85}' || c == '\u{a0}' || c == '\u{1680}' || c == '\u{2003}' || c == '\u{2028}'
            || c == '\u{2029}' || c == '\u{202f}' || c == '\u{205f}' || c == '\u{3000}' ==> is_ws(c),
        c == '\u{200b}' || c == '\u{feff}' || c == '\0' || c == '\u{8}' || c == '\u{e}' || c
            == '\u{1f}' || c == '\u{7f}' ==> !is_ws(c),
        c < '\u{9}' || ('\u{d}' < c && c < ' ') || ('!' <= c && c <= '~') ==> !is_ws(c),
{
}

/// `p + m + q` trims to `m` when `p` and `q` are whitespace and `m` neither
/// starts nor ends with whitespace.
pub proof fn lemma_trim_unique(p: Seq<char>, m: Seq<char>, q: Seq<char>)
    requires
        forall|j: int| 0 <= j < p.len() ==> is_ws(#[trigger] p[j]),
        forall|j: int| 0 <= j < q.len() ==> is_ws(#[trigger] q[j]),
        m.len() > 0 ==> !is_ws(m[0]) && !is_ws(m.last()),
    ensures
        trim(p + m + q) == m,
{
    let ws = Strip::Whitespace;
    let s = p + m + q;
    if m.len() > 0 {
        assert forall|j: int| 0 <= j < p.len() implies strips(ws, #[trigger] s[j]) by {
            assert(s[j] == p[j]);
        }
        assert(s[p.len() as int] == m[0]);
        lemma_lead_count(s, ws, p.len() as int);
        let r = s.skip(p.len() as int);
        assert(r =~= m + q);
        assert forall|j: int| r.len() - q.len() <= j < r.len() implies strips(
            ws,
            #[trigger] r[j],
        ) by {
            assert(r[j] == q[j - m.len()]);
        }
        assert(r[r.len() - q.len() - 1] == m.last());
        lemma_trail_count(r, ws, q.len() as int);
        assert(r.take(r.len() - q.len()) =~= m);
    } else {
        assert forall|j: int| 0 <= j < s.len() implies strips(ws, #[trigger] s[j]) by {
            if j < p.len() {
                assert(s[j] == p[j]);
            } else {
                assert(s[j] == q[j - p.len()]);
            }
        }
        lemma_lead_count(s, ws, s.len() as int);
        let r = s.skip(s.len() as int);
        assert(r.len() == 0);
        lemma_trail_count(r, ws, 0);
        assert(r.take(0) =~= m);
    }
}

/// Whitespace added around `s` does not change `trim(s)`.
pub proof fn lemma_trim_pad(u: Seq<char>, s: Seq<char>, w: Seq<char>)
    requires
        forall|j: int| 0 <= j < u.len() ==> is_ws(#[trigger] u[j]),
        forall|j: int| 0 <= j < w.len() ==> is_ws(#[trigger] w[j]),
    ensures
        trim(u + s + w) == trim(s),
{
    lemma_trim_bounds(s);
    let lo = trim_lo(s);
    let hi = trim_hi(s);
    let p = u + s.take(lo);
    let m = s.subrange(lo, hi);
    let q = s.skip(hi) + w;
    assert(u + s + w =~= p + m + q);
    assert forall|j: int| 0 <= j < p.len() implies is_ws(#[trigger] p[j]) by {
        if j >= u.len() {
            assert(p[j] == s[j - u.len()]);
        }
    }
    assert forall|j: int| 0 <= j < q.len() implies is_ws(#[trigger] q[j]) by {
        if j < s.len() - hi {
            assert(q[j] == s[hi + j]);
        } else {
            assert(q[j] == w[j - (s.len() - hi)]);
        }
    }
    if m.len() > 0 {
        assert(m[0] == s[lo]);
        assert(m.last() == s[hi - 1]);
    }
    lemma_trim_unique(p, m, q);
}

} // verus!
