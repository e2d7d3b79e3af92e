//! Asset templates: the pages that an `asset.<name>.hbs` template yields
//! for an output bundle, as its description (`asset.<name>.hbs.json` or
//! `.yaml`) asks: one page, one page per tag or author, or such pages split
//! into slices of a given size.
use vstd::prelude::*;
use crate::bundle::{paths_of, paths_of_pages};
use crate::errors::PagesError;
use crate::json::{decimal, json_array, json_bool, write_bool, json_member, json_opt_nat, json_opt_string, json_strings, comma_joined, lemma_comma_joined_push, write_decimal, write_key, write_opt_nat, write_opt_string, write_strings};
use crate::metadata::contains_string;
use crate::pages::{AssetSelection, AssetSelectionView, Author, AuthorView, Body, BodyView, Metadata, MetadataView, Page, PageView, Value, ValueView, copy_opt_string};
use crate::queries::{BundlePagination, BundleQuery, all_match, by_date, count_pages, paginate, query_all, query_matches, query_pages, has_author};
use crate::strings::{copy_string, copy_strings, lemma_push_deep_view, push_char, split_on, split_string};
use crate::paths::{uri_friendly, uri_friendly_string};

verus! {

/// Texts of `xs` that are not yet in `acc`, appended to it in order, each once.
pub open spec fn add_new(acc: Seq<Seq<char>>, xs: Seq<Seq<char>>) -> Seq<Seq<char>>
    decreases xs.len(),
{
    if xs.len() == 0 {
        acc
    } else {
        let a = add_new(acc, xs.drop_last());
        if a.contains(xs.last()) {
            a
        } else {
            a.push(xs.last())
        }
    }
}

/// The names of a list of authors.
pub open spec fn author_names(authors: Seq<AuthorView>) -> Seq<Seq<char>> {
    authors.map_values(|a: AuthorView| a.name)
}

/// The tags of the pages of a bundle, each once, in order of first use.
pub open spec fn all_tags(b: Seq<PageView>) -> Seq<Seq<char>>
    decreases b.len(),
{
    if b.len() == 0 {
        Seq::empty()
    } else {
        match b.last().metadata {
            Some(m) => add_new(all_tags(b.drop_last()), m.tags),
            None => all_tags(b.drop_last()),
        }
    }
}

/// The author names of the pages of a bundle, each once, in order of first use.
pub open spec fn all_authors(b: Seq<PageView>) -> Seq<Seq<char>>
    decreases b.len(),
{
    if b.len() == 0 {
        Seq::empty()
    } else {
        match b.last().metadata {
            Some(m) => add_new(all_authors(b.drop_last()), author_names(m.authors)),
            None => all_authors(b.drop_last()),
        }
    }
}

/// Appends to `acc` the texts of `xs` it does not hold yet.
pub(crate) fn add_new_strings(acc: &mut Vec<String>, xs: &Vec<String>)
    ensures
        final(acc).deep_view() == add_new(old(acc).deep_view(), xs.deep_view()),
{
    let mut i: usize = 0;
    while i < xs.len()
        invariant
            i <= xs.len(),
            acc.deep_view() == add_new(old(acc).deep_view(), xs.deep_view().take(i as int)),
        decreases xs.len() - i,
    {
        proof {
            assert(xs.deep_view().take(i + 1).drop_last() =~= xs.deep_view().take(i as int));
        }
        if !contains_string(acc, &xs[i]) {
            let ghost before = *acc;
            let s = copy_string(&xs[i]);
            acc.push(s);
            proof {
                lemma_push_deep_view(before, *acc, s);
            }
        }
        i = i + 1;
    }
    proof {
        assert(xs.deep_view().take(xs.len() as int) =~= xs.deep_view());
    }
}

/// Appends to `acc` the author names it does not hold yet.
fn add_new_author_names(acc: &mut Vec<String>, authors: &Vec<Author>)
    ensures
        final(acc).deep_view() == add_new(old(acc).deep_view(), author_names(authors.deep_view())),
{
    let ghost names = author_names(authors.deep_view());
    let mut i: usize = 0;
    while i < authors.len()
        invariant
            i <= authors.len(),
            names == author_names(authors.deep_view()),
            acc.deep_view() == add_new(old(acc).deep_view(), names.take(i as int)),
        decreases authors.len() - i,
    {
        proof {
            assert(names.take(i + 1).drop_last() =~= names.take(i as int));
            assert(names.take(i + 1).last() == authors[i as int].name@);
        }
        if !contains_string(acc, &authors[i].name) {
            let ghost before = *acc;
            let s = copy_string(&authors[i].name);
            acc.push(s);
            proof {
                lemma_push_deep_view(before, *acc, s);
            }
        }
        i = i + 1;
    }
    proof {
        assert(names.take(authors.len() as int) =~= names);
    }
}

/// Returns the tags of the pages of a bundle, each once, in order of first use.
pub fn collect_tags(bundle: &Vec<Page>) -> (r: Vec<String>)
    ensures
        r.deep_view() == all_tags(bundle.deep_view()),
{
    let mut r: Vec<String> = Vec::new();
    let mut i: usize = 0;
    proof {
        assert(r.deep_view() =~= all_tags(bundle.deep_view().take(0)));
    }
    while i < bundle.len()
        invariant
            i <= bundle.len(),
            r.deep_view() == all_tags(bundle.deep_view().take(i as int)),
        decreases bundle.len() - i,
    {
        proof {
            assert(bundle.deep_view().take(i + 1).drop_last() =~= bundle.deep_view().take(i as int));
        }
        match &bundle[i].metadata {
            Some(m) => add_new_strings(&mut r, &m.tags),
            None => {},
        }
        i = i + 1;
    }
    proof {
        assert(bundle.deep_view().take(bundle.len() as int) =~= bundle.deep_view());
    }
    r
}

/// Returns the author names of the pages of a bundle, each once, in order
/// of first use.
pub fn collect_authors(bundle: &Vec<Page>) -> (r: Vec<String>)
    ensures
        r.deep_view() == all_authors(bundle.deep_view()),
{
    let mut r: Vec<String> = Vec::new();
    let mut i: usize = 0;
    proof {
        assert(r.deep_view() =~= all_authors(bundle.deep_view().take(0)));
    }
    while i < bundle.len()
        invariant
            i <= bundle.len(),
            r.deep_view() == all_authors(bundle.deep_view().take(i as int)),
        decreases bundle.len() - i,
    {
        proof {
            assert(bundle.deep_view().take(i + 1).drop_last() =~= bundle.deep_view().take(i as int));
        }
        match &bundle[i].metadata {
            Some(m) => add_new_author_names(&mut r, &m.authors),
            None => {},
        }
        i = i + 1;
    }
    proof {
        assert(bundle.deep_view().take(bundle.len() as int) =~= bundle.deep_view());
    }
    r
}

/// How the pages of an asset are grouped: one group per tag or per author.
#[derive(Debug, Clone, Copy, PartialEq, Eq, Structural)]
pub enum TplAssetGroupBy {
    Tag,
    Author,
}

/// The description of an asset template: which pages it lists (a query),
/// how they are grouped, how many go on one generated page, and the path
/// patterns of the generated pages (handlebars templates rendered with the
/// selection; the first page may have its own).
#[derive(Debug)]
pub struct TplAssetMetadata {
    pub base_query: Option<BundleQuery>,
    pub group_by: Option<TplAssetGroupBy>,
    pub limit: Option<usize>,
    pub path_pattern: Option<String>,
    pub first_page_path_pattern: Option<String>,
}

/// The query of an asset description, every page where it has none.
pub open spec fn base_query_of(m: TplAssetMetadata) -> BundleQuery {
    match m.base_query {
        Some(q) => q,
        None => BundleQuery::Always,
    }
}

/// A group of pages: all of them, or those of a tag, or those of an author
/// (the tag and the author that a selection carries).
pub type Group = (Option<Seq<char>>, Option<Seq<char>>);

/// The groups an asset description asks for; one group of all pages where
/// it asks for none or where the bundle has no tag (or author).
pub open spec fn groups(m: TplAssetMetadata, b: Seq<PageView>) -> Seq<Group> {
    let gs: Seq<Group> = match m.group_by {
        Some(TplAssetGroupBy::Tag) => all_tags(b).map_values(|t: Seq<char>| (Some(t), None::<Seq<char>>)),
        Some(TplAssetGroupBy::Author) => all_authors(b).map_values(|a: Seq<char>| (None::<Seq<char>>, Some(a))),
        None => Seq::empty(),
    };
    if gs.len() == 0 {
        seq![(None, None)]
    } else {
        gs
    }
}

/// Whether a page has the tag of a group, where the group has one.
pub open spec fn tag_ok(t: Option<Seq<char>>, p: PageView) -> bool {
    t matches Some(t) ==> p.metadata is Some && p.metadata.unwrap().tags.contains(t)
}

/// Whether a page has the author of a group, where the group has one.
pub open spec fn author_ok(a: Option<Seq<char>>, p: PageView) -> bool {
    a matches Some(a) ==> p.metadata is Some && has_author(p.metadata.unwrap(), a)
}

/// Whether a page belongs to a group.
pub open spec fn in_group(g: Group, p: PageView) -> bool {
    tag_ok(g.0, p) && author_ok(g.1, p)
}

/// The pages of a bundle that the asset lists for a group, in listing order
/// (see [`by_date`]).
pub open spec fn group_pages(m: TplAssetMetadata, g: Group, b: Seq<PageView>) -> Seq<PageView> {
    by_date(b.filter(|p: PageView| query_matches(base_query_of(m), p) && in_group(g, p)))
}

/// The number of slices of at most `l` items that `n` items make.
pub open spec fn slice_count(n: nat, l: nat) -> nat {
    if n % l == 0 {
        n / l
    } else {
        n / l + 1
    }
}

/// A text as it stands in a URI, where there is one.
pub open spec fn uri_friendly_opt(o: Option<Seq<char>>) -> Option<Seq<char>> {
    match o {
        Some(s) => Some(uri_friendly(s)),
        None => None,
    }
}

/// The slice numbers `0..n`, each with whether it is `k`.
pub open spec fn slice_indexes(n: nat, k: int) -> Seq<(usize, bool)> {
    Seq::new(n, |i: int| (i as usize, i == k))
}

/// The selection of the slice `k` of the matched pages of a group.
pub open spec fn slice_selection(matched: Seq<PageView>, l: usize, k: int, g: Group) -> AssetSelectionView {
    let n = slice_count(matched.len(), l as nat);
    AssetSelectionView {
        pages: paths_of(paginate(matched, BundlePagination { skip: Some((k * l) as usize), limit: Some(l) })),
        index: k as usize,
        last: (n - 1) as usize,
        limit: l,
        indexes: slice_indexes(n, k),
        size: Some(matched.len() as usize),
        multi_pages: n > 1,
        tag: uri_friendly_opt(g.0),
        author: uri_friendly_opt(g.1),
        original_tag: g.0,
        original_author: g.1,
    }
}

/// The selections of a group: one slice after the other where a size
/// is given, else one selection of all matched pages. A size of zero gives
/// no selection; it is only used where the group matches no page (see
/// [`limit_ok`]).
pub open spec fn group_selections(matched: Seq<PageView>, limit: Option<usize>, g: Group) -> Seq<AssetSelectionView> {
    match limit {
        Some(l) => if l == 0 {
            Seq::empty()
        } else {
            Seq::new(slice_count(matched.len(), l as nat), |k: int| slice_selection(matched, l, k, g))
        },
        None => seq![AssetSelectionView {
            pages: paths_of(matched),
            index: 0,
            last: 0,
            limit: matched.len() as usize,
            indexes: slice_indexes(1, 0),
            size: None,
            multi_pages: false,
            tag: uri_friendly_opt(g.0),
            author: uri_friendly_opt(g.1),
            original_tag: g.0,
            original_author: g.1,
        }],
    }
}

/// The selections of the groups `gs`, group after group.
pub open spec fn selections_over(m: TplAssetMetadata, b: Seq<PageView>, gs: Seq<Group>) -> Seq<AssetSelectionView>
    decreases gs.len(),
{
    if gs.len() == 0 {
        Seq::empty()
    } else {
        selections_over(m, b, gs.drop_last()) + group_selections(group_pages(m, gs.last(), b), m.limit, gs.last())
    }
}

/// The selections an asset description makes of an output bundle.
pub open spec fn asset_selections(m: TplAssetMetadata, b: Seq<PageView>) -> Seq<AssetSelectionView> {
    selections_over(m, b, groups(m, b))
}

/// Whether an asset description can be used on an output bundle: its size
/// is not zero, or none of its groups matches a page (with a size of zero
/// and pages to list, the slices would never end).
pub open spec fn limit_ok(m: TplAssetMetadata, b: Seq<PageView>) -> bool {
    m.limit == Some(0usize) ==> forall|i: int| 0 <= i < groups(m, b).len() ==> (#[trigger] group_pages(m, groups(m, b)[i], b)).len() == 0
}

/// Returns the groups an asset description asks for (see [`groups`]).
fn make_groups(m: &TplAssetMetadata, bundle: &Vec<Page>) -> (r: Vec<(Option<String>, Option<String>)>)
    ensures
        r.deep_view() == groups(*m, bundle.deep_view()),
{
    let mut r: Vec<(Option<String>, Option<String>)> = Vec::new();
    let ghost gs: Seq<Group> = match m.group_by {
        Some(TplAssetGroupBy::Tag) => all_tags(bundle.deep_view()).map_values(|t: Seq<char>| (Some(t), None::<Seq<char>>)),
        Some(TplAssetGroupBy::Author) => all_authors(bundle.deep_view()).map_values(|a: Seq<char>| (None::<Seq<char>>, Some(a))),
        None => Seq::empty(),
    };
    match m.group_by {
        Some(TplAssetGroupBy::Tag) => {
            let tags = collect_tags(bundle);
            let mut i: usize = 0;
            while i < tags.len()
                invariant
                    i <= tags.len(),
                    gs == tags.deep_view().map_values(|t: Seq<char>| (Some(t), None::<Seq<char>>)),
                    r.deep_view() == gs.take(i as int),
                decreases tags.len() - i,
            {
                let ghost before = r;
                let e = (Some(copy_string(&tags[i])), None);
                r.push(e);
                proof {
                    lemma_push_deep_view(before, r, e);
                    assert(r.deep_view() =~= gs.take(i + 1));
                }
                i = i + 1;
            }
            proof {
                assert(gs.take(tags.len() as int) =~= gs);
            }
        },
        Some(TplAssetGroupBy::Author) => {
            let authors = collect_authors(bundle);
            let mut i: usize = 0;
            while i < authors.len()
                invariant
                    i <= authors.len(),
                    gs == authors.deep_view().map_values(|a: Seq<char>| (None::<Seq<char>>, Some(a))),
                    r.deep_view() == gs.take(i as int),
                decreases authors.len() - i,
            {
                let ghost before = r;
                let e = (None, Some(copy_string(&authors[i])));
                r.push(e);
                proof {
                    lemma_push_deep_view(before, r, e);
                    assert(r.deep_view() =~= gs.take(i + 1));
                }
                i = i + 1;
            }
            proof {
                assert(gs.take(authors.len() as int) =~= gs);
            }
        },
        None => {
            proof {
                assert(r.deep_view() =~= gs);
            }
        },
    }
    if r.len() == 0 {
        let ghost before = r;
        let e: (Option<String>, Option<String>) = (None, None);
        r.push(e);
        proof {
            lemma_push_deep_view(before, r, e);
            assert(r.deep_view() =~= seq![(None::<Seq<char>>, None::<Seq<char>>)]);
        }
    }
    r
}

/// Returns the query of a group: the description's query, and the tag or
/// the author of the group.
fn group_query(m: &TplAssetMetadata, g: &(Option<String>, Option<String>)) -> (r: BundleQuery)
    ensures
        forall|p: PageView| #[trigger] query_matches(r, p) == (query_matches(base_query_of(*m), p) && in_group(g.deep_view(), p)),
{
    let base = match &m.base_query {
        Some(q) => q.duplicate(),
        None => BundleQuery::Always,
    };
    let ghost bq = base;
    assert(forall|p: PageView| #[trigger] query_matches(bq, p) == query_matches(base_query_of(*m), p));
    let mut and: Vec<BundleQuery> = Vec::new();
    and.push(base);
    let ghost s1 = and@;
    proof {
        assert(s1 =~= seq![bq]);
        assert(s1.drop_last() =~= Seq::<BundleQuery>::empty());
        assert forall|p: PageView| all_match(s1, p) == query_matches(bq, p) by {
            reveal_with_fuel(all_match, 2);
        }
    }
    match &g.0 {
        Some(t) => {
            let c = copy_string(t);
            let tq = BundleQuery::Tag { tag: c };
            let ghost gq = tq;
            proof {
                assert(g.0.deep_view() == Some(c@));
            }
            and.push(tq);
            proof {
                assert(and@.last() == gq);
                assert forall|p: PageView| all_match(and@, p) == (all_match(s1, p) && tag_ok(g.0.deep_view(), p)) by {
                    assert(and@.drop_last() =~= s1);
                    assert(query_matches(gq, p) == tag_ok(g.0.deep_view(), p));
                }
            }
        },
        None => {},
    }
    let ghost s2 = and@;
    proof {
        assert forall|p: PageView| all_match(s2, p) == (all_match(s1, p) && tag_ok(g.0.deep_view(), p)) by {
        }
    }
    match &g.1 {
        Some(a) => {
            let c = copy_string(a);
            let aq = BundleQuery::Author { author: c };
            let ghost gq = aq;
            proof {
                assert(g.1.deep_view() == Some(c@));
            }
            and.push(aq);
            proof {
                assert(and@.last() == gq);
                assert forall|p: PageView| all_match(and@, p) == (all_match(s2, p) && author_ok(g.1.deep_view(), p)) by {
                    assert(and@.drop_last() =~= s2);
                    assert(query_matches(gq, p) == author_ok(g.1.deep_view(), p));
                }
            }
        },
        None => {},
    }
    let ghost s3 = and@;
    proof {
        assert forall|p: PageView| all_match(s3, p) == (all_match(s2, p) && author_ok(g.1.deep_view(), p)) by {
            if g.1 is None {
                assert(s3 =~= s2);
                assert(author_ok(g.1.deep_view(), p));
            }
        }
    }
    let r = BundleQuery::And { and };
    proof {
        assert forall|p: PageView| #[trigger] query_matches(r, p) == (query_matches(base_query_of(*m), p) && in_group(g.deep_view(), p)) by {
            assert(query_matches(r, p) == all_match(s3, p));
            assert(g.deep_view().0 == g.0.deep_view());
            assert(g.deep_view().1 == g.1.deep_view());
        }
    }
    r
}

/// Where the slice `k` starts lies within the matched pages.
pub proof fn lemma_slice_start(k: int, l: int, size: int, q: int, rem: int)
    by (nonlinear_arith)
    requires
        l > 0,
        0 <= k,
        size == l * q + rem,
        0 <= rem < l,
        0 <= q,
        k < (if rem == 0 { q } else { q + 1 }),
    ensures
        k * l <= size,
{
}

/// Returns a text as it stands in a URI, where there is one.
fn make_uri_friendly_opt(o: &Option<String>) -> (r: Option<String>)
    ensures
        r.deep_view() == uri_friendly_opt(o.deep_view()),
{
    match o {
        Some(s) => Some(uri_friendly_string(s.as_str())),
        None => None,
    }
}

/// Returns the slice numbers `0..n`, each with whether it is `k` (see
/// [`slice_indexes`]).
fn make_slice_indexes(n: usize, k: usize) -> (r: Vec<(usize, bool)>)
    ensures
        r@ == slice_indexes(n as nat, k as int),
{
    let mut r: Vec<(usize, bool)> = Vec::new();
    let mut i: usize = 0;
    while i < n
        invariant
            i <= n,
            r@ == slice_indexes(i as nat, k as int),
        decreases n - i,
    {
        r.push((i, i == k));
        proof {
            assert(r@ =~= slice_indexes((i + 1) as nat, k as int));
        }
        i = i + 1;
    }
    r
}

/// Appends the selections of a group (see [`group_selections`]) whose pages
/// are those that `q` matches.
fn push_group_selections(
    bundle: &Vec<Page>,
    q: &BundleQuery,
    limit: Option<usize>,
    g: &(Option<String>, Option<String>),
    out: &mut Vec<AssetSelection>,
)
    ensures
        final(out).deep_view() == old(out).deep_view() + group_selections(
            query_all(bundle.deep_view(), *q),
            limit,
            g.deep_view(),
        ),
{
    let ghost matched = query_all(bundle.deep_view(), *q);
    let ghost gv = g.deep_view();
    match limit {
        Some(l) => {
            if l == 0 {
                proof {
                    assert(out.deep_view() =~= old(out).deep_view() + group_selections(matched, limit, gv));
                }
                return;
            }
            let size = count_pages(bundle, q);
            let n = if size % l == 0 {
                size / l
            } else {
                assert(size / l < size) by (nonlinear_arith)
                    requires
                        l > 0,
                        size % l != 0,
                ;
                size / l + 1
            };
            proof {
                assert(n == slice_count(matched.len(), l as nat));
            }
            let ghost sels = group_selections(matched, limit, gv);
            let mut k: usize = 0;
            while k < n
                invariant
                    k <= n,
                    l > 0,
                    size == matched.len(),
                    n == slice_count(matched.len(), l as nat),
                    matched == query_all(bundle.deep_view(), *q),
                    gv == g.deep_view(),
                    sels == group_selections(matched, limit, gv),
                    limit == Some(l),
                    out.deep_view() == old(out).deep_view() + sels.take(k as int),
                decreases n - k,
            {
                proof {
                    vstd::arithmetic::div_mod::lemma_fundamental_div_mod(size as int, l as int);
                    lemma_slice_start(k as int, l as int, size as int, (size / l) as int, (size % l) as int);
                }
                let start = k * l;
                let pages = query_pages(bundle, q, BundlePagination { skip: Some(start), limit: Some(l) });
                let sel = AssetSelection {
                    pages: paths_of_pages(&pages),
                    index: k,
                    last: n - 1,
                    limit: l,
                    indexes: make_slice_indexes(n, k),
                    size: Some(size),
                    multi_pages: n > 1,
                    tag: make_uri_friendly_opt(&g.0),
                    author: make_uri_friendly_opt(&g.1),
                    original_tag: copy_opt_string(&g.0),
                    original_author: copy_opt_string(&g.1),
                };
                let ghost before = *out;
                proof {
                    assert(sel.deep_view() == slice_selection(matched, l, k as int, gv));
                }
                out.push(sel);
                proof {
                    lemma_push_deep_view(before, *out, sel);
                    assert(sels.take(k + 1) =~= sels.take(k as int).push(sels[k as int]));
                    assert(out.deep_view() =~= old(out).deep_view() + sels.take(k + 1));
                }
                k = k + 1;
            }
            proof {
                assert(sels.take(n as int) =~= sels);
            }
        },
        None => {
            let pages = query_pages(bundle, q, BundlePagination { skip: None, limit: None });
            let n = pages.len();
            let sel = AssetSelection {
                pages: paths_of_pages(&pages),
                index: 0,
                last: 0,
                limit: n,
                indexes: make_slice_indexes(1, 0),
                size: None,
                multi_pages: false,
                tag: make_uri_friendly_opt(&g.0),
                author: make_uri_friendly_opt(&g.1),
                original_tag: copy_opt_string(&g.0),
                original_author: copy_opt_string(&g.1),
            };
            let ghost before = *out;
            out.push(sel);
            proof {
                lemma_push_deep_view(before, *out, sel);
                assert(out.deep_view() =~= old(out).deep_view() + group_selections(matched, limit, gv));
            }
        },
    }
}

/// Returns the selections an asset description makes of an output bundle
/// (see [`asset_selections`]).
pub fn make_asset_selections(m: &TplAssetMetadata, bundle: &Vec<Page>) -> (r: Vec<AssetSelection>)
    requires
        limit_ok(*m, bundle.deep_view()),
    ensures
        r.deep_view() == asset_selections(*m, bundle.deep_view()),
{
    let gs = make_groups(m, bundle);
    let ghost gsv = gs.deep_view();
    let mut r: Vec<AssetSelection> = Vec::new();
    let mut i: usize = 0;
    proof {
        assert(r.deep_view() =~= selections_over(*m, bundle.deep_view(), gsv.take(0)));
    }
    while i < gs.len()
        invariant
            i <= gs.len(),
            gsv == gs.deep_view(),
            gsv == groups(*m, bundle.deep_view()),
            r.deep_view() == selections_over(*m, bundle.deep_view(), gsv.take(i as int)),
        decreases gs.len() - i,
    {
        let q = group_query(m, &gs[i]);
        proof {
            let f1 = |p: PageView| query_matches(q, p);
            let f2 = |p: PageView| query_matches(base_query_of(*m), p) && in_group(gsv[i as int], p);
            assert(gs[i as int].deep_view() == gsv[i as int]);
            assert(f1 =~= f2);
            assert(query_all(bundle.deep_view(), q) == group_pages(*m, gsv[i as int], bundle.deep_view()));
            assert(gsv.take(i + 1).drop_last() =~= gsv.take(i as int));
        }
        push_group_selections(bundle, &q, m.limit, &gs[i], &mut r);
        i = i + 1;
    }
    proof {
        assert(gsv.take(gs.len() as int) =~= gsv);
    }
    r
}

/// The JSON of a page listed in a selection: an object with its path.
pub open spec fn page_ref_json(p: Seq<Seq<char>>) -> Seq<char> {
    seq!['{'] + json_member("path"@, json_strings(p)) + seq!['}']
}

/// The JSON of a slice number with whether it is the selection's own: a
/// two-item array.
pub open spec fn slice_index_json(e: (usize, bool)) -> Seq<char> {
    seq!['['] + decimal(e.0 as nat) + seq![','] + json_bool(e.1) + seq![']']
}

/// The first members of a selection's JSON: its pages, slice number, last
/// slice number, slice size and slice numbers.
pub open spec fn selection_head_json(s: AssetSelectionView) -> Seq<char> {
    json_member("pages"@, json_array(s.pages.map_values(|p: Seq<Seq<char>>| page_ref_json(p))))
        + seq![','] + json_member("index"@, decimal(s.index as nat))
        + seq![','] + json_member("last"@, decimal(s.last as nat))
        + seq![','] + json_member("limit"@, decimal(s.limit as nat))
        + seq![','] + json_member("indexes"@, json_array(s.indexes.map_values(|e: (usize, bool)| slice_index_json(e))))
}

/// The last members of a selection's JSON: the number of matched pages,
/// whether there are several slices, and the tag and the author as in a URI
/// and as they were.
pub open spec fn selection_tail_json(s: AssetSelectionView) -> Seq<char> {
    json_member("size"@, json_opt_nat(s.size))
        + seq![','] + json_member("multiPages"@, json_bool(s.multi_pages))
        + seq![','] + json_member("tag"@, json_opt_string(s.tag))
        + seq![','] + json_member("author"@, json_opt_string(s.author))
        + seq![','] + json_member("originalTag"@, json_opt_string(s.original_tag))
        + seq![','] + json_member("originalAuthor"@, json_opt_string(s.original_author))
}

/// The JSON that a path pattern is rendered with: an object of the members
/// of [`selection_head_json`] and [`selection_tail_json`].
pub open spec fn selection_json(s: AssetSelectionView) -> Seq<char> {
    seq!['{'] + selection_head_json(s) + seq![','] + selection_tail_json(s) + seq!['}']
}

/// Appends the JSON of slice numbers.
fn write_slice_indexes(out: &mut String, v: &Vec<(usize, bool)>)
    ensures
        final(out)@ == old(out)@ + json_array(v@.map_values(|e: (usize, bool)| slice_index_json(e))),
{
    let ghost items = v@.map_values(|e: (usize, bool)| slice_index_json(e));
    push_char(out, '[');
    let ghost start = out@;
    let mut i: usize = 0;
    while i < v.len()
        invariant
            i <= v.len(),
            items == v@.map_values(|e: (usize, bool)| slice_index_json(e)),
            out@ == start + comma_joined(items.take(i as int)),
        decreases v.len() - i,
    {
        let ghost o = out@;
        if i > 0 {
            push_char(out, ',');
        }
        let ghost o2 = out@;
        let (n, own) = v[i];
        push_char(out, '[');
        write_decimal(out, n as u64);
        push_char(out, ',');
        write_bool(out, own);
        push_char(out, ']');
        proof {
            assert(out@ =~= o2 + slice_index_json(v@[i as int]));
            assert(items.take(i + 1) =~= items.take(i as int).push(items[i as int]));
            lemma_comma_joined_push(items.take(i as int), items[i as int]);
            assert(out@ =~= start + comma_joined(items.take(i + 1)));
        }
        i = i + 1;
    }
    push_char(out, ']');
    proof {
        assert(items.take(v.len() as int) =~= items);
    }
}

/// Appends the JSON of the pages of a selection.
fn write_page_refs(out: &mut String, pages: &Vec<Vec<String>>)
    ensures
        final(out)@ == old(out)@ + json_array(pages.deep_view().map_values(|p: Seq<Seq<char>>| page_ref_json(p))),
{
    let ghost items = pages.deep_view().map_values(|p: Seq<Seq<char>>| page_ref_json(p));
    push_char(out, '[');
    let ghost start = out@;
    let mut i: usize = 0;
    while i < pages.len()
        invariant
            i <= pages.len(),
            items == pages.deep_view().map_values(|p: Seq<Seq<char>>| page_ref_json(p)),
            out@ == start + comma_joined(items.take(i as int)),
        decreases pages.len() - i,
    {
        let ghost o = out@;
        if i > 0 {
            push_char(out, ',');
        }
        let ghost o2 = out@;
        push_char(out, '{');
        write_key(out, "path");
        write_strings(out, &pages[i]);
        push_char(out, '}');
        proof {
            assert(out@ =~= o2 + page_ref_json(pages.deep_view()[i as int]));
            assert(items.take(i + 1) =~= items.take(i as int).push(items[i as int]));
            lemma_comma_joined_push(items.take(i as int), items[i as int]);
            assert(out@ =~= start + comma_joined(items.take(i + 1)));
        }
        i = i + 1;
    }
    push_char(out, ']');
    proof {
        assert(items.take(pages.len() as int) =~= items);
        assert(out@ =~= old(out)@ + json_array(items));
    }
}

/// Appends the first members of a selection's JSON (see
/// [`selection_head_json`]).
#[verifier::rlimit(40)]
fn write_selection_head(out: &mut String, s: &AssetSelection)
    ensures
        final(out)@ == old(out)@ + selection_head_json(s.deep_view()),
{
    let ghost v = s.deep_view();
    write_key(out, "pages");
    write_page_refs(out, &s.pages);
    let ghost p1 = old(out)@ + json_member("pages"@, json_array(v.pages.map_values(|p: Seq<Seq<char>>| page_ref_json(p))));
    assert(out@ =~= p1);
    push_char(out, ',');
    write_key(out, "index");
    write_decimal(out, s.index as u64);
    let ghost p2 = p1 + seq![','] + json_member("index"@, decimal(v.index as nat));
    assert(out@ =~= p2);
    push_char(out, ',');
    write_key(out, "last");
    write_decimal(out, s.last as u64);
    let ghost p3 = p2 + seq![','] + json_member("last"@, decimal(v.last as nat));
    assert(out@ =~= p3);
    push_char(out, ',');
    write_key(out, "limit");
    write_decimal(out, s.limit as u64);
    let ghost p4 = p3 + seq![','] + json_member("limit"@, decimal(v.limit as nat));
    assert(out@ =~= p4);
    push_char(out, ',');
    write_key(out, "indexes");
    write_slice_indexes(out, &s.indexes);
    assert(out@ =~= old(out)@ + selection_head_json(v));
}

/// Appends the last members of a selection's JSON (see
/// [`selection_tail_json`]).
/// Appends a comma and a member whose value is an optional string.
fn write_opt_string_member(out: &mut String, key: &str, o: &Option<String>)
    ensures
        final(out)@ == old(out)@ + seq![','] + json_member(key@, json_opt_string(o.deep_view())),
{
    push_char(out, ',');
    write_key(out, key);
    write_opt_string(out, o);
    assert(out@ =~= old(out)@ + seq![','] + json_member(key@, json_opt_string(o.deep_view())));
}

/// Appends the last members of a selection's JSON (see
/// [`selection_tail_json`]).
fn write_selection_tail(out: &mut String, s: &AssetSelection)
    ensures
        final(out)@ == old(out)@ + selection_tail_json(s.deep_view()),
{
    let ghost v = s.deep_view();
    let ghost o0 = out@;
    write_key(out, "size");
    write_opt_nat(out, s.size);
    let ghost p1 = out@;
    assert(p1 =~= o0 + json_member("size"@, json_opt_nat(v.size)));
    push_char(out, ',');
    write_key(out, "multiPages");
    write_bool(out, s.multi_pages);
    let ghost p2 = out@;
    assert(p2 =~= p1 + seq![','] + json_member("multiPages"@, json_bool(v.multi_pages)));
    write_opt_string_member(out, "tag", &s.tag);
    let ghost p3 = out@;
    write_opt_string_member(out, "author", &s.author);
    let ghost p4 = out@;
    write_opt_string_member(out, "originalTag", &s.original_tag);
    let ghost p5 = out@;
    write_opt_string_member(out, "originalAuthor", &s.original_author);
    assert(out@ =~= o0 + selection_tail_json(v));
}

/// Returns the JSON of a selection (see [`selection_json`]).
pub fn write_selection_json(s: &AssetSelection) -> (r: String)
    ensures
        r@ == selection_json(s.deep_view()),
{
    let mut out = String::new();
    push_char(&mut out, '{');
    write_selection_head(&mut out, s);
    push_char(&mut out, ',');
    write_selection_tail(&mut out, s);
    push_char(&mut out, '}');
    assert(out@ =~= selection_json(s.deep_view()));
    out
}

/// The text that handlebars renders for a template and the data that a JSON
/// text holds, or `None` where the data is no JSON or the rendering fails.
pub uninterp spec fn rendered_template(template: Seq<char>, data: Seq<char>) -> Option<Seq<char>>;

/// Renders a template with handlebars: `serde_json::from_str` reads the
/// JSON data and `Handlebars::new().render_template` renders the template
/// with it, with handlebars' default settings. Claimed: the outcome is
/// [`rendered_template`] of the template and the data, a function of the two
/// texts alone; the message of an error is not stated.
#[verifier::external_body]
fn render_template(template: &str, data: &str) -> (r: Result<String, PagesError>)
    ensures
        r.is_ok() == rendered_template(template@, data@).is_some(),
        r.is_ok() ==> r.unwrap()@ == rendered_template(template@, data@).unwrap(),
{
    let value: serde_json::Value = serde_json::from_str(data).map_err(|e| PagesError::Render(e.to_string()))?;
    handlebars::Handlebars::new().render_template(template, &value).map_err(|e| PagesError::Render(e.to_string()))
}

/// The path pattern of a generated page: the first page's own pattern
/// where it has one, else the common pattern, if any.
pub open spec fn pattern_for(m: TplAssetMetadata, index: usize) -> Option<Seq<char>> {
    if index == 0 && m.first_page_path_pattern is Some {
        m.first_page_path_pattern.deep_view()
    } else {
        m.path_pattern.deep_view()
    }
}

/// The path of the page generated for a selection: its pattern rendered
/// with the selection and split on `/`, or the asset's own path where there
/// is no pattern; `None` where the rendering fails.
pub open spec fn asset_page_path(m: TplAssetMetadata, asset_path: Seq<Seq<char>>, s: AssetSelectionView) -> Option<Seq<Seq<char>>> {
    match pattern_for(m, s.index) {
        Some(pat) => match rendered_template(pat, selection_json(s)) {
            Some(t) => Some(split_on(t, '/')),
            None => None,
        },
        None => Some(asset_path),
    }
}

/// Returns the path that a rendered path pattern stands for: its parts
/// between `/`.
pub fn path_from_rendered(rendered: &str) -> (r: Vec<String>)
    ensures
        r.deep_view() == split_on(rendered@, '/'),
{
    split_string(rendered, '/')
}

impl TplAssetMetadata {
    /// Returns the path of the page generated for a selection (see
    /// [`asset_page_path`]), or the error of the rendering.
    pub fn make_path(&self, asset_path: &Vec<String>, selection: &AssetSelection) -> (r: Result<Vec<String>, PagesError>)
        ensures
            r.is_ok() == asset_page_path(*self, asset_path.deep_view(), selection.deep_view()).is_some(),
            r.is_ok() ==> r.unwrap().deep_view() == asset_page_path(*self, asset_path.deep_view(), selection.deep_view()).unwrap(),
    {
        let pattern = if selection.index == 0 && self.first_page_path_pattern.is_some() {
            &self.first_page_path_pattern
        } else {
            &self.path_pattern
        };
        match pattern {
            Some(pat) => {
                let data = write_selection_json(selection);
                match render_template(pat.as_str(), data.as_str()) {
                    Ok(t) => Ok(path_from_rendered(t.as_str())),
                    Err(e) => Err(e),
                }
            },
            None => Ok(copy_strings(asset_path)),
        }
    }
}

/// The metadata of generated pages and template files: no field set but
/// the data `isRaw` and `isHidden`, both true, so that later template
/// stages leave them as they are.
pub open spec fn raw_hidden_metadata() -> MetadataView {
    MetadataView {
        title: None,
        summary: None,
        authors: Seq::empty(),
        tags: Seq::empty(),
        publishing_date: None,
        last_edit_date: None,
        data: seq![("isRaw"@, ValueView::Bool(true)), ("isHidden"@, ValueView::Bool(true))],
    }
}

/// Returns the metadata of generated pages (see [`raw_hidden_metadata`]).
pub fn make_raw_hidden_metadata() -> (r: Metadata)
    ensures
        r.deep_view() == raw_hidden_metadata(),
{
    let mut data: Vec<(String, Value)> = Vec::new();
    let e1 = (String::from_str("isRaw"), Value::Bool(true));
    let e2 = (String::from_str("isHidden"), Value::Bool(true));
    let ghost d0 = data;
    data.push(e1);
    let ghost d1 = data;
    data.push(e2);
    proof {
        lemma_push_deep_view(d0, d1, e1);
        lemma_push_deep_view(d1, data, e2);
    }
    let r = Metadata {
        title: None,
        summary: None,
        authors: Vec::new(),
        tags: Vec::new(),
        publishing_date: None,
        last_edit_date: None,
        data,
    };
    proof {
        assert(r.authors.deep_view() =~= Seq::<AuthorView>::empty());
        assert(r.tags.deep_view() =~= Seq::<Seq<char>>::empty());
        assert(r.deep_view().data =~= raw_hidden_metadata().data);
    }
    r
}

/// The page an asset template yields at a path, rendered with an optional
/// selection.
pub open spec fn asset_page(path: Seq<Seq<char>>, tpl_name: Seq<char>, selection: Option<AssetSelectionView>) -> PageView {
    PageView {
        path,
        metadata: Some(raw_hidden_metadata()),
        body: BodyView::Asset { tpl_name, selection },
    }
}

/// The pages generated for selections, in order, or `None` where the path
/// of one cannot be rendered.
pub open spec fn asset_pages(m: TplAssetMetadata, asset_path: Seq<Seq<char>>, tpl_name: Seq<char>, sels: Seq<AssetSelectionView>) -> Option<Seq<PageView>>
    decreases sels.len(),
{
    if sels.len() == 0 {
        Some(Seq::empty())
    } else {
        match asset_pages(m, asset_path, tpl_name, sels.drop_last()) {
            Some(ps) => match asset_page_path(m, asset_path, sels.last()) {
                Some(path) => Some(ps.push(asset_page(path, tpl_name, Some(sels.last())))),
                None => None,
            },
            None => None,
        }
    }
}

/// If the pages of some first selections cannot be made, neither can those
/// of all of them.
proof fn lemma_asset_pages_fail(m: TplAssetMetadata, asset_path: Seq<Seq<char>>, tpl_name: Seq<char>, sels: Seq<AssetSelectionView>, k: int)
    requires
        0 <= k <= sels.len(),
        asset_pages(m, asset_path, tpl_name, sels.take(k)).is_none(),
    ensures
        asset_pages(m, asset_path, tpl_name, sels).is_none(),
    decreases sels.len() - k,
{
    if k < sels.len() {
        assert(sels.take(k + 1).drop_last() =~= sels.take(k));
        lemma_asset_pages_fail(m, asset_path, tpl_name, sels, k + 1);
    } else {
        assert(sels.take(k) =~= sels);
    }
}

impl TplAssetMetadata {
    /// Returns the page generated for a selection, or the error of the
    /// rendering of its path.
    fn asset_page_for(&self, asset_path: &Vec<String>, tpl_name: &String, selection: &AssetSelection) -> (r: Result<Page, PagesError>)
        ensures
            r.is_ok() == asset_page_path(*self, asset_path.deep_view(), selection.deep_view()).is_some(),
            r.is_ok() ==> r.unwrap().deep_view() == asset_page(
                asset_page_path(*self, asset_path.deep_view(), selection.deep_view()).unwrap(),
                tpl_name@,
                Some(selection.deep_view()),
            ),
    {
        match self.make_path(asset_path, selection) {
            Ok(path) => Ok(Page {
                path,
                metadata: Some(make_raw_hidden_metadata()),
                body: Body::Asset { tpl_name: copy_string(tpl_name), selection: Some(selection.duplicate()) },
            }),
            Err(e) => Err(e),
        }
    }

    /// Whether the description can be used on an output bundle (see
    /// [`limit_ok`]).
    pub fn limit_usable(&self, bundle: &Vec<Page>) -> (r: bool)
        ensures
            r == limit_ok(*self, bundle.deep_view()),
    {
        match self.limit {
            Some(l) => if l != 0 {
                return true;
            },
            None => {
                return true;
            },
        }
        let gs = make_groups(self, bundle);
        let ghost gsv = gs.deep_view();
        let ghost b = bundle.deep_view();
        let mut i: usize = 0;
        while i < gs.len()
            invariant
                i <= gs.len(),
                gsv == gs.deep_view(),
                gsv == groups(*self, b),
                b == bundle.deep_view(),
                self.limit == Some(0usize),
                forall|j: int| 0 <= j < i ==> (#[trigger] group_pages(*self, gsv[j], b)).len() == 0,
            decreases gs.len() - i,
        {
            let q = group_query(self, &gs[i]);
            proof {
                let f1 = |p: PageView| query_matches(q, p);
                let f2 = |p: PageView| query_matches(base_query_of(*self), p) && in_group(gsv[i as int], p);
                assert(gs[i as int].deep_view() == gsv[i as int]);
                assert(f1 =~= f2);
                assert(query_all(b, q) == group_pages(*self, gsv[i as int], b));
            }
            if count_pages(bundle, &q) > 0 {
                proof {
                    assert(group_pages(*self, groups(*self, b)[i as int], b).len() > 0);
                }
                return false;
            }
            i = i + 1;
        }
        true
    }

    /// Returns the pages that the asset template `tpl_name` at `asset_path`
    /// yields for an output bundle (see [`asset_selections`] and
    /// [`asset_pages`]), or the error of the first path that cannot be
    /// rendered. A size of zero with pages to list is refused by the caller.
    #[verifier::rlimit(30)]
    pub fn yield_pages(&self, asset_path: &Vec<String>, tpl_name: &String, output_bundle: &Vec<Page>) -> (r: Result<Vec<Page>, PagesError>)
        requires
            limit_ok(*self, output_bundle.deep_view()),
        ensures
            r.is_ok() == asset_pages(*self, asset_path.deep_view(), tpl_name@, asset_selections(*self, output_bundle.deep_view())).is_some(),
            r.is_ok() ==> r.unwrap().deep_view() == asset_pages(*self, asset_path.deep_view(), tpl_name@, asset_selections(*self, output_bundle.deep_view())).unwrap(),
    {
        let sels = make_asset_selections(self, output_bundle);
        let ghost sv = sels.deep_view();
        let ghost ap = asset_path.deep_view();
        let mut r: Vec<Page> = Vec::new();
        let mut i: usize = 0;
        proof {
            assert(sv.take(0) =~= Seq::<AssetSelectionView>::empty());
            assert(r.deep_view() =~= Seq::<PageView>::empty());
        }
        while i < sels.len()
            invariant
                i <= sels.len(),
                sv == sels.deep_view(),
                sv == asset_selections(*self, output_bundle.deep_view()),
                ap == asset_path.deep_view(),
                asset_pages(*self, ap, tpl_name@, sv.take(i as int)) == Some(r.deep_view()),
            decreases sels.len() - i,
        {
            proof {
                assert(sv.take(i + 1).drop_last() =~= sv.take(i as int));
            }
            match self.asset_page_for(asset_path, tpl_name, &sels[i]) {
                Ok(page) => {
                    let ghost before = r;
                    r.push(page);
                    proof {
                        lemma_push_deep_view(before, r, page);
                    }
                },
                Err(e) => {
                    proof {
                        assert(sv.take(i + 1).last() == sv[i as int]);
                        assert(asset_pages(*self, ap, tpl_name@, sv.take(i + 1)).is_none());
                        lemma_asset_pages_fail(*self, ap, tpl_name@, sv, i + 1);
                    }
                    return Err(e);
                },
            }
            i = i + 1;
        }
        proof {
            assert(sv.take(sels.len() as int) =~= sv);
        }
        Ok(r)
    }
}

} // verus!
