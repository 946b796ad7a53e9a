//! Licenses named by SPDX license expressions.
use vstd::prelude::*;

use crate::Span;

verus! {

/// A license: its SPDX id, full name, the URL of its SPDX page and its text.
#[derive(Debug, Clone, PartialEq, Eq, PartialOrd, Ord)]
pub struct License {
    pub id: String,
    pub name: String,
    pub url: String,
    pub text: String,
}

/// Why a license expression was rejected.
#[derive(Debug, Clone, PartialEq, Eq)]
pub enum Error {
    /// The expression is not valid SPDX; `span` (bytes) locates the problem
    /// in `src`, which a diagnostic shows under the name `license`.
    SpdxParse { src: String, span: Span, reason: String },
    /// The expression names a license that is not known, and unknown
    /// licenses were not permitted.
    UnknownLicense { id: String },
    Empty,
}

/// The license of one requirement of an SPDX expression.
#[derive(Debug, Clone, PartialEq, Eq)]
pub enum LicenseItem {
    /// A license of the SPDX list, by its short identifier.
    Spdx { id: String },
    /// A `LicenseRef-...` reference to a license outside the SPDX list.
    Other { lic_ref: String },
}

/// Why the SPDX parser rejected an expression: the byte range `start..end`
/// of the offending text and the reason.
#[derive(Debug, Clone, PartialEq, Eq)]
pub struct SpdxError {
    pub start: usize,
    pub end: usize,
    pub reason: String,
}

#[verifier::ext_equal]
pub struct LicenseView {
    pub id: Seq<char>,
    pub name: Seq<char>,
    pub url: Seq<char>,
    pub text: Seq<char>,
}

pub enum ErrorView {
    SpdxParse { src: Seq<char>, offset: nat, len: nat, reason: Seq<char> },
    UnknownLicense { id: Seq<char> },
    Empty,
}

pub enum LicenseItemView {
    Spdx { id: Seq<char> },
    Other { lic_ref: Seq<char> },
}

pub struct SpdxErrorView {
    pub start: nat,
    pub end: nat,
    pub reason: Seq<char>,
}

impl View for License {
    type V = LicenseView;

    open spec fn view(&self) -> LicenseView {
        LicenseView { id: self.id@, name: self.name@, url: self.url@, text: self.text@ }
    }
}

impl View for Error {
    type V = ErrorView;

    open spec fn view(&self) -> ErrorView {
        match self {
            Error::SpdxParse { src, span, reason } => ErrorView::SpdxParse {
                src: src@,
                offset: span.offset as nat,
                len: span.len as nat,
                reason: reason@,
            },
            Error::UnknownLicense { id } => ErrorView::UnknownLicense { id: id@ },
            Error::Empty => ErrorView::Empty,
        }
    }
}

impl View for LicenseItem {
    type V = LicenseItemView;

    open spec fn view(&self) -> LicenseItemView {
        match self {
            LicenseItem::Spdx { id } => LicenseItemView::Spdx { id: id@ },
            LicenseItem::Other { lic_ref } => LicenseItemView::Other { lic_ref: lic_ref@ },
        }
    }
}

impl View for SpdxError {
    type V = SpdxErrorView;

    open spec fn view(&self) -> SpdxErrorView {
        SpdxErrorView { start: self.start as nat, end: self.end as nat, reason: self.reason@ }
    }
}

/// What `spdx::Expression::parse` makes of an expression: the license of each
/// of its requirements, in the order `Expression::requirements` yields them,
/// or the error.
pub uninterp spec fn spdx_requirements(input: Seq<char>) -> core::result::Result<
    Seq<LicenseItemView>,
    SpdxErrorView,
>;

/// The full name and text of the license with SPDX id `id`, as the `license`
/// crate's list holds it, or `None` for an id that is not on the list.
pub uninterp spec fn known_license(id: Seq<char>) -> Option<(Seq<char>, Seq<char>)>;

pub open spec fn item_views(v: Seq<LicenseItem>) -> Seq<LicenseItemView> {
    v.map_values(|i: LicenseItem| i@)
}

pub open spec fn license_views(v: Seq<License>) -> Seq<LicenseView> {
    v.map_values(|l: License| l@)
}

/// Parses an SPDX expression with `spdx::Expression::parse` and lists the
/// license of each requirement. The contract names the outcome
/// `spdx_requirements`; the grammar and the license list are the `spdx`
/// crate's and are not restated here.
#[verifier::external_body]
fn spdx_parse(input: &str) -> (r: core::result::Result<Vec<LicenseItem>, SpdxError>)
    ensures
        spdx_requirements(input@) == match r {
            Ok(v) => Ok(item_views(v@)),
            Err(e) => Err(e@),
        },
{
    match spdx::Expression::parse(input) {
        Ok(expr) => {
            let mut out = Vec::new();
            for req in expr.requirements() {
                out.push(match &req.req.license {
                    spdx::LicenseItem::Spdx { id, .. } => LicenseItem::Spdx { id: id.name.to_string() },
                    spdx::LicenseItem::Other(r) => LicenseItem::Other { lic_ref: r.lic_ref.clone() },
                });
            }
            Ok(out)
        },
        Err(e) => Err(SpdxError { start: e.span.start, end: e.span.end, reason: e.reason.to_string() }),
    }
}

/// Looks `id` up in the `license` crate (`id.parse::<&dyn license::License>()`)
/// and gives the license's full name and text. The contract names the
/// outcome `known_license`; the list itself is not restated here.
#[verifier::external_body]
fn license_lookup(id: &str) -> (r: Option<(String, String)>)
    ensures
        known_license(id@) == match r {
            Some((name, text)) => Some((name@, text@)),
            None => None,
        },
{
    match id.parse::<&dyn license::License>() {
        Ok(lic) => Some((lic.name().to_string(), lic.text().to_string())),
        Err(_) => None,
    }
}

/// The address of the SPDX page of license `id`.
pub open spec fn license_url(id: Seq<char>) -> Seq<char> {
    "https://spdx.org/licenses/"@ + id + ".html"@
}

/// The license for SPDX id `id`, given what the license list holds for it.
/// An id that is not on the list is an error unless `permit_unknown`.
pub open spec fn resolve_spdx(
    id: Seq<char>,
    found: Option<(Seq<char>, Seq<char>)>,
    permit_unknown: bool,
) -> core::result::Result<LicenseView, ErrorView> {
    match found {
        Some((name, text)) => Ok(LicenseView { id, name, url: license_url(id), text }),
        None => if permit_unknown {
            Ok(LicenseView { id, name: id, url: license_url(id), text: Seq::empty() })
        } else {
            Err(ErrorView::UnknownLicense { id })
        },
    }
}

/// The license of one requirement. A `LicenseRef` is an error unless
/// `permit_unknown`, and then has its reference as id and name.
pub open spec fn resolve_item(item: LicenseItemView, permit_unknown: bool) -> core::result::Result<
    LicenseView,
    ErrorView,
> {
    match item {
        LicenseItemView::Spdx { id } => resolve_spdx(id, known_license(id), permit_unknown),
        LicenseItemView::Other { lic_ref } => if permit_unknown {
            Ok(
                LicenseView {
                    id: lic_ref,
                    name: lic_ref,
                    url: Seq::empty(),
                    text: Seq::empty(),
                },
            )
        } else {
            Err(ErrorView::UnknownLicense { id: lic_ref })
        },
    }
}

/// The licenses of all requirements in order, or the error of the first one
/// that fails.
pub open spec fn resolve_items(items: Seq<LicenseItemView>, permit_unknown: bool) -> core::result::Result<
    Seq<LicenseView>,
    ErrorView,
>
    decreases items.len(),
{
    if items.len() == 0 {
        Ok(Seq::empty())
    } else {
        match resolve_items(items.drop_last(), permit_unknown) {
            Err(e) => Err(e),
            Ok(ls) => match resolve_item(items.last(), permit_unknown) {
                Ok(l) => Ok(ls.push(l)),
                Err(e) => Err(e),
            },
        }
    }
}

/// Length of the byte range `start..end` (0 when it is reversed).
pub open spec fn range_len(start: nat, end: nat) -> nat {
    if end >= start {
        (end - start) as nat
    } else {
        0
    }
}

/// What `License::parse_and_resolve` gives for `input`.
pub open spec fn parse_and_resolve_spec(input: Seq<char>, permit_unknown: bool) -> core::result::Result<
    Seq<LicenseView>,
    ErrorView,
> {
    match spdx_requirements(input) {
        Err(e) => Err(
            ErrorView::SpdxParse {
                src: input,
                offset: e.start,
                len: range_len(e.start, e.end),
                reason: e.reason,
            },
        ),
        Ok(items) => resolve_items(items, permit_unknown),
    }
}

pub open spec fn licenses_view(r: core::result::Result<Vec<License>, Error>) -> core::result::Result<
    Seq<LicenseView>,
    ErrorView,
> {
    match r {
        Ok(v) => Ok(license_views(v@)),
        Err(e) => Err(e@),
    }
}

pub open spec fn license_view(r: core::result::Result<License, Error>) -> core::result::Result<
    LicenseView,
    ErrorView,
> {
    match r {
        Ok(l) => Ok(l@),
        Err(e) => Err(e@),
    }
}

/// Once a prefix of the requirements fails, all of them fail with that error.
proof fn lemma_resolve_prefix_err(items: Seq<LicenseItemView>, k: int, permit_unknown: bool)
    requires
        0 <= k <= items.len(),
        resolve_items(items.take(k), permit_unknown) is Err,
    ensures
        resolve_items(items, permit_unknown) == resolve_items(items.take(k), permit_unknown),
    decreases items.len(),
{
    if k == items.len() {
        assert(items.take(k) =~= items);
    } else {
        assert(items.drop_last().take(k) =~= items.take(k));
        lemma_resolve_prefix_err(items.drop_last(), k, permit_unknown);
    }
}

fn spdx_url(id: &str) -> (r: String)
    ensures
        r@ == license_url(id@),
{
    let mut url = "https://spdx.org/licenses/".to_owned();
    url.append(id);
    url.append(".html");
    url
}

impl License {
    /// Parses an SPDX license expression and resolves the license of each of
    /// its requirements, in order.
    pub fn parse_and_resolve(spdx_expr_input: &str, permit_unknown: bool) -> (r:
        core::result::Result<Vec<License>, Error>)
        ensures
            licenses_view(r) == parse_and_resolve_spec(spdx_expr_input@, permit_unknown),
    {
        match spdx_parse(spdx_expr_input) {
            Err(e) => {
                let len = if e.end >= e.start {
                    e.end - e.start
                } else {
                    0
                };
                Err(
                    Error::SpdxParse {
                        src: spdx_expr_input.to_owned(),
                        span: Span { offset: e.start, len },
                        reason: e.reason,
                    },
                )
            },
            Ok(items) => License::resolve_requirements(&items, permit_unknown),
        }
    }

    /// Resolves the license of each requirement, in order; the first one that
    /// cannot be resolved is the error.
    pub fn resolve_requirements(items: &Vec<LicenseItem>, permit_unknown: bool) -> (r:
        core::result::Result<Vec<License>, Error>)
        ensures
            licenses_view(r) == resolve_items(item_views(items@), permit_unknown),
    {
        let ghost iv = item_views(items@);
        let mut out: Vec<License> = Vec::new();
        let mut i: usize = 0;
        proof {
            assert(iv.take(0) =~= Seq::<LicenseItemView>::empty());
            assert(license_views(out@) =~= Seq::<LicenseView>::empty());
        }
        while i < items.len()
            invariant
                i <= items@.len(),
                iv == item_views(items@),
                resolve_items(iv.take(i as int), permit_unknown) == Ok::<
                    Seq<LicenseView>,
                    ErrorView,
                >(license_views(out@)),
            decreases items@.len() - i,
        {
            proof {
                assert(iv.take(i + 1).drop_last() =~= iv.take(i as int));
                assert(iv.take(i + 1).last() == items@[i as int]@);
            }
            let next = match &items[i] {
                LicenseItem::Other { lic_ref } => {
                    if !permit_unknown {
                        let e = Error::UnknownLicense { id: lic_ref.clone() };
                        proof {
                            lemma_resolve_prefix_err(iv, i + 1, permit_unknown);
                        }
                        return Err(e);
                    }
                    License {
                        id: lic_ref.clone(),
                        name: lic_ref.clone(),
                        url: String::new(),
                        text: String::new(),
                    }
                },
                LicenseItem::Spdx { id } => {
                    let found = license_lookup(id.as_str());
                    match License::from_spdx_id(id.as_str(), found, permit_unknown) {
                        Ok(l) => l,
                        Err(e) => {
                            proof {
                                lemma_resolve_prefix_err(iv, i + 1, permit_unknown);
                            }
                            return Err(e);
                        },
                    }
                },
            };
            let ghost prev = out@;
            out.push(next);
            proof {
                assert(license_views(out@) =~= license_views(prev).push(out@.last()@));
            }
            i = i + 1;
        }
        proof {
            assert(iv.take(items@.len() as int) =~= iv);
        }
        Ok(out)
    }

    /// The license for SPDX id `id`, given what the license list holds for it
    /// (`found`: full name and text, or `None`).
    pub fn from_spdx_id(id: &str, found: Option<(String, String)>, permit_unknown: bool) -> (r:
        core::result::Result<License, Error>)
        ensures
            license_view(r) == resolve_spdx(
                id@,
                match found {
                    Some((n, t)) => Some((n@, t@)),
                    None => None,
                },
                permit_unknown,
            ),
    {
        match found {
            Some((name, text)) => Ok(License { id: id.to_owned(), name, url: spdx_url(id), text }),
            None => {
                if permit_unknown {
                    Ok(
                        License {
                            id: id.to_owned(),
                            name: id.to_owned(),
                            url: spdx_url(id),
                            text: String::new(),
                        },
                    )
                } else {
                    Err(Error::UnknownLicense { id: id.to_owned() })
                }
            },
        }
    }
}

/// The id a requirement's license gets: its SPDX id or its reference.
pub open spec fn item_id(item: LicenseItemView) -> Seq<char> {
    match item {
        LicenseItemView::Spdx { id } => id,
        LicenseItemView::Other { lic_ref } => lic_ref,
    }
}

/// Whether `r`, when it succeeds, has one license per item of `items`, in
/// order, each with the item's id.
pub open spec fn one_per_item(
    items: Seq<LicenseItemView>,
    r: core::result::Result<Seq<LicenseView>, ErrorView>,
) -> bool {
    r matches Ok(v) ==> v.len() == items.len() && forall|k: int|
        0 <= k < items.len() ==> #[trigger] v[k].id == item_id(items[k])
}

proof fn lemma_resolve_items(items: Seq<LicenseItemView>, p: bool)
    ensures
        resolve_items(items, true) is Ok,
        resolve_items(items, false) matches Ok(v) ==> resolve_items(items, true) == Ok::<
            Seq<LicenseView>,
            ErrorView,
        >(v),
        one_per_item(items, resolve_items(items, p)),
    decreases items.len(),
{
    if items.len() > 0 {
        let init = items.drop_last();
        lemma_resolve_items(init, p);
        if let Ok(v) = resolve_items(items, p) {
            let ls = resolve_items(init, p)->Ok_0;
            assert(v == ls.push(v.last()));
            assert forall|k: int| 0 <= k < items.len() implies #[trigger] v[k].id == item_id(
                items[k],
            ) by {
                if k < items.len() - 1 {
                    assert(v[k] == ls[k]);
                    assert(init[k] == items[k]);
                }
            }
        }
    }
}

/// With unknown licenses permitted, every expression that the SPDX parser
/// accepts resolves: no license is refused.
pub proof fn law_permit_unknown_resolves_all(input: Seq<char>)
    ensures
        parse_and_resolve_spec(input, true) is Ok <==> spdx_requirements(input) is Ok,
{
    if let Ok(items) = spdx_requirements(input) {
        lemma_resolve_items(items, true);
    }
}

/// Permitting unknown licenses only widens what is accepted: an expression
/// that resolves without it resolves to the same licenses with it.
pub proof fn law_permit_unknown_widens(input: Seq<char>)
    ensures
        parse_and_resolve_spec(input, false) matches Ok(v) ==> parse_and_resolve_spec(input, true)
            == Ok::<Seq<LicenseView>, ErrorView>(v),
{
    if let Ok(items) = spdx_requirements(input) {
        lemma_resolve_items(items, false);
    }
}

/// A resolved expression gives one license per requirement, in order, each
/// with the requirement's id.
pub proof fn law_one_license_per_requirement(input: Seq<char>, permit_unknown: bool)
    ensures
        parse_and_resolve_spec(input, permit_unknown) is Ok ==> spdx_requirements(input) is Ok,
        spdx_requirements(input) matches Ok(items) ==> one_per_item(
            items,
            parse_and_resolve_spec(input, permit_unknown),
        ),
{
    if let Ok(items) = spdx_requirements(input) {
        lemma_resolve_items(items, permit_unknown);
        assert(resolve_items(items, permit_unknown) == parse_and_resolve_spec(input, permit_unknown));
    }
}

proof fn lemma_resolve_items_each(items: Seq<LicenseItemView>, p: bool)
    ensures
        resolve_items(items, p) matches Ok(v) ==> v.len() == items.len() && forall|k: int|
            0 <= k < items.len() ==> resolve_item(#[trigger] items[k], p) == Ok::<
                LicenseView,
                ErrorView,
            >(v[k]),
    decreases items.len(),
{
    if items.len() > 0 {
        let init = items.drop_last();
        lemma_resolve_items_each(init, p);
        if let Ok(v) = resolve_items(items, p) {
            let ls = resolve_items(init, p)->Ok_0;
            assert(v == ls.push(v.last()));
            assert forall|k: int| 0 <= k < items.len() implies resolve_item(
                #[trigger] items[k],
                p,
            ) == Ok::<LicenseView, ErrorView>(v[k]) by {
                if k < items.len() - 1 {
                    assert(v[k] == ls[k]);
                    assert(init[k] == items[k]);
                } else {
                    assert(items[k] == items.last());
                }
            }
        }
    }
}

/// Each requirement is resolved on its own, whatever its position: when the
/// requirements resolve to `v`, each `v[k]` is what the `k`-th requirement
/// resolves to alone. A license on the list gets the list's full name and
/// text and its SPDX page; a `LicenseRef` gets its reference as id and name.
pub proof fn law_each_requirement_resolved_alone(items: Seq<LicenseItemView>, p: bool)
    ensures
        resolve_items(items, p) matches Ok(v) ==> v.len() == items.len() && forall|k: int|
            0 <= k < items.len() ==> resolve_items(seq![#[trigger] items[k]], p) == Ok::<
                Seq<LicenseView>,
                ErrorView,
            >(seq![v[k]]),
        resolve_items(items, p) matches Ok(v) ==> forall|k: int|
            0 <= k < items.len() ==> (#[trigger] items[k] matches LicenseItemView::Spdx { id }
                ==> (known_license(id) matches Some((n, t)) ==> v[k] == LicenseView {
                id,
                name: n,
                url: license_url(id),
                text: t,
            })),
        resolve_items(items, p) matches Ok(v) ==> forall|k: int|
            0 <= k < items.len() ==> (#[trigger] items[k] matches LicenseItemView::Other {
                lic_ref,
            } ==> v[k] == LicenseView {
                id: lic_ref,
                name: lic_ref,
                url: Seq::empty(),
                text: Seq::empty(),
            }),
{
    lemma_resolve_items_each(items, p);
    if let Ok(v) = resolve_items(items, p) {
        assert forall|k: int| 0 <= k < items.len() implies resolve_items(
            seq![#[trigger] items[k]],
            p,
        ) == Ok::<Seq<LicenseView>, ErrorView>(seq![v[k]]) by {
            let one = seq![items[k]];
            assert(one.drop_last() =~= Seq::<LicenseItemView>::empty());
            assert(resolve_items(one.drop_last(), p) == Ok::<Seq<LicenseView>, ErrorView>(
                Seq::empty(),
            ));
            assert(one.last() == items[k]);
            assert(Seq::<LicenseView>::empty().push(v[k]) =~= seq![v[k]]);
        }
        assert forall|k: int| 0 <= k < items.len() implies (#[trigger] items[k]
            matches LicenseItemView::Spdx { id } ==> (known_license(id) matches Some((n, t)) ==> v[k]
            == LicenseView { id, name: n, url: license_url(id), text: t })) by {
            assert(resolve_item(items[k], p) == Ok::<LicenseView, ErrorView>(v[k]));
            if let LicenseItemView::Spdx { id } = items[k] {
                if let Some((n, t)) = known_license(id) {
                    assert(resolve_item(items[k], p) == resolve_spdx(id, Some((n, t)), p));
                    assert(v[k] == LicenseView { id, name: n, url: license_url(id), text: t });
                }
            }
        }
        assert forall|k: int| 0 <= k < items.len() implies (#[trigger] items[k]
            matches LicenseItemView::Other { lic_ref } ==> v[k] == LicenseView {
            id: lic_ref,
            name: lic_ref,
            url: Seq::empty(),
            text: Seq::empty(),
        }) by {
            assert(resolve_item(items[k], p) == Ok::<LicenseView, ErrorView>(v[k]));
        }
    }
}

/// Permitting unknown licenses matters only for ids that the list does not
/// hold: an id on the list resolves to the list's full name and text, and its
/// SPDX page, either way. An id not on the list is refused without the
/// permission, and with it keeps its id as name and has no text.
pub proof fn law_permit_only_for_unlisted(id: Seq<char>, n: Seq<char>, t: Seq<char>, p: bool)
    ensures
        resolve_spdx(id, Some((n, t)), p) == Ok::<LicenseView, ErrorView>(
            LicenseView { id, name: n, url: license_url(id), text: t },
        ),
        resolve_spdx(id, Some((n, t)), true) == resolve_spdx(id, Some((n, t)), false),
        resolve_spdx(id, None, false) == Err::<LicenseView, ErrorView>(
            ErrorView::UnknownLicense { id },
        ),
        resolve_spdx(id, None, true) == Ok::<LicenseView, ErrorView>(
            LicenseView { id, name: id, url: license_url(id), text: Seq::empty() },
        ),
{
}

} // verus!
