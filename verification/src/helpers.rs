//! The values behind the template helpers: the query that `bundle_query`
//! reads, the pages it lists, the dates that `date_format` writes, and the
//! data a page or an asset template is rendered with.
use vstd::prelude::*;
use crate::errors::PagesError;
use crate::pages::{Metadata, Page, PageView, copy_opt_metadata};
use crate::queries::{
    BundlePagination, BundleQuery, all_match, any_match, has_author, paginate, query_all,
    query_matches, query_pages,
};
use crate::bundle::{paths_of, paths_of_pages};
use crate::strings::{copy_string, copy_strings, split_on};
use crate::selectors::path_matches;
use crate::paths::{format_timestamp, formatted_timestamp, uri_friendly, uri_friendly_string};

verus! {

/// A query as templates write it, where a list of tags (or authors) means
/// pages with all of them.
#[derive(Debug)]
pub enum BundleQueryValue {
    Tag { tag: String },
    Tags { tags: Vec<String> },
    Author { author: String },
    Authors { authors: Vec<String> },
    Path { path: String },
    And { and: Vec<BundleQueryValue> },
    Or { or: Vec<BundleQueryValue> },
    Not { not: Box<BundleQueryValue> },
}

/// Whether a page has a tag.
pub open spec fn tagged(p: PageView, t: Seq<char>) -> bool {
    p.metadata is Some && p.metadata.unwrap().tags.contains(t)
}

/// Whether a page has an author of a name.
pub open spec fn authored(p: PageView, a: Seq<char>) -> bool {
    p.metadata is Some && has_author(p.metadata.unwrap(), a)
}

/// Whether a page has every tag of a list.
pub open spec fn all_tagged(p: PageView, ts: Seq<Seq<char>>) -> bool
    decreases ts.len(),
{
    ts.len() == 0 || (all_tagged(p, ts.drop_last()) && tagged(p, ts.last()))
}

/// Whether a page has an author of every name of a list.
pub open spec fn all_authored(p: PageView, names: Seq<Seq<char>>) -> bool
    decreases names.len(),
{
    names.len() == 0 || (all_authored(p, names.drop_last()) && authored(p, names.last()))
}

/// Whether a query value matches a page.
pub open spec fn value_matches(v: BundleQueryValue, p: PageView) -> bool
    decreases v,
{
    match v {
        BundleQueryValue::Tag { tag } => tagged(p, tag@),
        BundleQueryValue::Tags { tags } => all_tagged(p, tags.deep_view()),
        BundleQueryValue::Author { author } => authored(p, author@),
        BundleQueryValue::Authors { authors } => all_authored(p, authors.deep_view()),
        BundleQueryValue::Path { path } => path_matches(split_on(path@, '/'), p.path),
        BundleQueryValue::And { and } => all_values_match(and@, p),
        BundleQueryValue::Or { or } => any_value_matches(or@, p),
        BundleQueryValue::Not { not } => !value_matches(*not, p),
    }
}

/// Whether every query value of a list matches a page.
pub open spec fn all_values_match(vs: Seq<BundleQueryValue>, p: PageView) -> bool
    decreases vs,
{
    vs.len() == 0 || (all_values_match(vs.drop_last(), p) && value_matches(vs.last(), p))
}

/// Whether some query value of a list matches a page.
pub open spec fn any_value_matches(vs: Seq<BundleQueryValue>, p: PageView) -> bool
    decreases vs,
{
    vs.len() > 0 && (any_value_matches(vs.drop_last(), p) || value_matches(vs.last(), p))
}

/// Queries that match as query values do one by one match as they do all
/// together and any of them.
proof fn lemma_values_equiv(a: Seq<BundleQuery>, b: Seq<BundleQueryValue>, p: PageView)
    requires
        a.len() == b.len(),
        forall|k: int| 0 <= k < a.len() ==> #[trigger] query_matches(a[k], p) == value_matches(b[k], p),
    ensures
        all_match(a, p) == all_values_match(b, p),
        any_match(a, p) == any_value_matches(b, p),
    decreases a.len(),
{
    if a.len() > 0 {
        assert(query_matches(a[a.len() - 1], p) == value_matches(b[b.len() - 1], p));
        lemma_values_equiv(a.drop_last(), b.drop_last(), p);
    }
}

/// Returns the queries of the pages with each tag of a list.
fn tag_queries(names: &Vec<String>) -> (r: Vec<BundleQuery>)
    ensures
        forall|p: PageView| #[trigger] all_match(r@, p) == all_tagged(p, names.deep_view()),
{
    let mut r: Vec<BundleQuery> = Vec::new();
    let mut i: usize = 0;
    proof {
        assert(names.deep_view().take(0) =~= Seq::<Seq<char>>::empty());
    }
    while i < names.len()
        invariant
            i <= names.len(),
            forall|p: PageView| #[trigger] all_match(r@, p) == all_tagged(p, names.deep_view().take(i as int)),
        decreases names.len() - i,
    {
        let q = BundleQuery::Tag { tag: copy_string(&names[i]) };
        let ghost before = r@;
        let ghost gq = q;
        r.push(q);
        proof {
            assert(names.deep_view().take(i + 1).drop_last() =~= names.deep_view().take(i as int));
            assert forall|p: PageView| #[trigger] all_match(r@, p) == all_tagged(p, names.deep_view().take(i + 1)) by {
                assert(r@.drop_last() =~= before);
                assert(r@.last() == gq);
                assert(query_matches(gq, p) == tagged(p, names@[i as int]@));
                assert(all_match(r@, p) == (all_match(before, p) && query_matches(gq, p)));
                assert(names.deep_view().take(i + 1).last() == names@[i as int]@);
                assert(all_tagged(p, names.deep_view().take(i + 1)) == (all_tagged(p, names.deep_view().take(i as int)) && tagged(p, names@[i as int]@)));
            }
        }
        i = i + 1;
    }
    proof {
        assert(names.deep_view().take(names.len() as int) =~= names.deep_view());
    }
    r
}

/// Returns the queries of the pages with each author of a list.
fn author_queries(names: &Vec<String>) -> (r: Vec<BundleQuery>)
    ensures
        forall|p: PageView| #[trigger] all_match(r@, p) == all_authored(p, names.deep_view()),
{
    let mut r: Vec<BundleQuery> = Vec::new();
    let mut i: usize = 0;
    proof {
        assert(names.deep_view().take(0) =~= Seq::<Seq<char>>::empty());
    }
    while i < names.len()
        invariant
            i <= names.len(),
            forall|p: PageView| #[trigger] all_match(r@, p) == all_authored(p, names.deep_view().take(i as int)),
        decreases names.len() - i,
    {
        let q = BundleQuery::Author { author: copy_string(&names[i]) };
        let ghost before = r@;
        let ghost gq = q;
        r.push(q);
        proof {
            assert(names.deep_view().take(i + 1).drop_last() =~= names.deep_view().take(i as int));
            assert forall|p: PageView| #[trigger] all_match(r@, p) == all_authored(p, names.deep_view().take(i + 1)) by {
                assert(r@.drop_last() =~= before);
                assert(r@.last() == gq);
                assert(query_matches(gq, p) == authored(p, names@[i as int]@));
                assert(all_match(r@, p) == (all_match(before, p) && query_matches(gq, p)));
                assert(names.deep_view().take(i + 1).last() == names@[i as int]@);
                assert(all_authored(p, names.deep_view().take(i + 1)) == (all_authored(p, names.deep_view().take(i as int)) && authored(p, names@[i as int]@)));
            }
        }
        i = i + 1;
    }
    proof {
        assert(names.deep_view().take(names.len() as int) =~= names.deep_view());
    }
    r
}

impl BundleQueryValue {
    /// Returns the query that the value stands for: it matches the pages the
    /// value matches.
    pub fn to_query(&self) -> (r: BundleQuery)
        ensures
            forall|p: PageView| #[trigger] query_matches(r, p) == value_matches(*self, p),
        decreases self,
    {
        match self {
            BundleQueryValue::Tag { tag } => {
                let r = BundleQuery::Tag { tag: copy_string(tag) };
                proof {
                    assert forall|p: PageView| #[trigger] query_matches(r, p) == value_matches(*self, p) by {}
                }
                r
            },
            BundleQueryValue::Tags { tags } => {
                let v = tag_queries(tags);
                let r = BundleQuery::And { and: v };
                proof {
                    assert forall|p: PageView| #[trigger] query_matches(r, p) == value_matches(*self, p) by {
                        assert(query_matches(r, p) == all_match(v@, p));
                    }
                }
                r
            },
            BundleQueryValue::Author { author } => {
                let r = BundleQuery::Author { author: copy_string(author) };
                proof {
                    assert forall|p: PageView| #[trigger] query_matches(r, p) == value_matches(*self, p) by {}
                }
                r
            },
            BundleQueryValue::Authors { authors } => {
                let v = author_queries(authors);
                let r = BundleQuery::And { and: v };
                proof {
                    assert forall|p: PageView| #[trigger] query_matches(r, p) == value_matches(*self, p) by {
                        assert(query_matches(r, p) == all_match(v@, p));
                    }
                }
                r
            },
            BundleQueryValue::Path { path } => {
                let r = BundleQuery::Path { path: copy_string(path) };
                proof {
                    assert forall|p: PageView| #[trigger] query_matches(r, p) == value_matches(*self, p) by {}
                }
                r
            },
            BundleQueryValue::And { and } => {
                let v = BundleQueryValue::to_queries(and);
                let r = BundleQuery::And { and: v };
                proof {
                    assert forall|p: PageView| #[trigger] query_matches(r, p) == value_matches(*self, p) by {
                        lemma_values_equiv(v@, and@, p);
                    }
                }
                r
            },
            BundleQueryValue::Or { or } => {
                let v = BundleQueryValue::to_queries(or);
                let r = BundleQuery::Or { or: v };
                proof {
                    assert forall|p: PageView| #[trigger] query_matches(r, p) == value_matches(*self, p) by {
                        lemma_values_equiv(v@, or@, p);
                    }
                }
                r
            },
            BundleQueryValue::Not { not } => {
                let q = not.to_query();
                let r = BundleQuery::Not { not: Box::new(q) };
                proof {
                    assert forall|p: PageView| #[trigger] query_matches(r, p) == value_matches(*self, p) by {
                        assert(query_matches(q, p) == value_matches(**not, p));
                    }
                }
                r
            },
        }
    }

    /// Returns the queries of a list of values, one by one.
    fn to_queries(vs: &Vec<BundleQueryValue>) -> (r: Vec<BundleQuery>)
        ensures
            r.len() == vs.len(),
            forall|k: int, p: PageView| 0 <= k < vs.len() ==> #[trigger] query_matches(r@[k], p) == value_matches(vs@[k], p),
        decreases vs,
    {
        let mut r: Vec<BundleQuery> = Vec::new();
        let mut i: usize = 0;
        while i < vs.len()
            invariant
                i <= vs.len(),
                r.len() == i,
                forall|k: int, p: PageView| 0 <= k < i ==> #[trigger] query_matches(r@[k], p) == value_matches(vs@[k], p),
            decreases vs.len() - i,
        {
            proof {
                assert(decreases_to!(vs => vs@[i as int]));
            }
            r.push(vs[i].to_query());
            i = i + 1;
        }
        r
    }
}

/// The pages that the `bundle_query` helper lists: those of the output
/// bundle that the query matches (every page where there is none), with the
/// pagination applied.
pub struct BundleQueryHelper<'a> {
    pub output_index: &'a Vec<Page>,
}

impl<'a> BundleQueryHelper<'a> {
    /// Returns the pages listed for a query, with a pagination.
    pub fn query(&self, query: &Option<BundleQuery>, pagination: BundlePagination) -> (r: Vec<Page>)
        ensures
            r.deep_view() == paginate(
                query_all(self.output_index.deep_view(), match *query {
                    Some(q) => q,
                    None => BundleQuery::Always,
                }),
                pagination,
            ),
    {
        match query {
            Some(q) => query_pages(self.output_index, q, pagination),
            None => query_pages(self.output_index, &BundleQuery::Always, pagination),
        }
    }
}

/// The data a template asset page is rendered with: the page and the output
/// bundle, by their paths.
#[derive(Debug)]
pub struct TemplateData {
    pub page: Vec<String>,
    pub index: Vec<Vec<String>>,
}

/// The data a page is rendered with: its metadata, the page and the output
/// bundle, by their paths.
#[derive(Debug)]
pub struct PageData {
    pub current_metadata: Option<Metadata>,
    pub page: Vec<String>,
    pub index: Vec<Vec<String>>,
}

impl TemplateData {
    /// The data of a page of an output bundle.
    pub fn new(page: &Page, output: &Vec<Page>) -> (r: TemplateData)
        ensures
            r.page.deep_view() == page.deep_view().path,
            r.index.deep_view() == paths_of(output.deep_view()),
    {
        TemplateData { page: copy_strings(&page.path), index: paths_of_pages(output) }
    }
}

impl PageData {
    /// The data of a page of an output bundle.
    pub fn new(page: &Page, output: &Vec<Page>) -> (r: PageData)
        ensures
            r.current_metadata.deep_view() == page.deep_view().metadata,
            r.page.deep_view() == page.deep_view().path,
            r.index.deep_view() == paths_of(output.deep_view()),
    {
        PageData {
            current_metadata: copy_opt_metadata(&page.metadata),
            page: copy_strings(&page.path),
            index: paths_of_pages(output),
        }
    }
}


/// The `date_format` helper: a timestamp (seconds since the Unix epoch, in
/// UTC) written with a strftime format, `%Y-%m-%d` where none is given.
pub struct DateFormatHelper;

/// The format of the `date_format` helper where a template gives none.
pub open spec fn default_date_format() -> Seq<char> {
    "%Y-%m-%d"@
}

impl DateFormatHelper {
    /// Returns what the helper writes: nothing without a timestamp, else the
    /// date as chrono writes it with the format; an error where chrono
    /// cannot write it (a timestamp out of its range, an invalid format).
    pub fn format_date(&self, timestamp: Option<i64>, format: Option<&str>) -> (r: Result<String, PagesError>)
        ensures
            timestamp is None ==> (r matches Ok(s) && s@ == Seq::<char>::empty()),
            timestamp matches Some(ts) ==> {
                let f = match format {
                    Some(f) => f@,
                    None => default_date_format(),
                };
                &&& r.is_ok() == formatted_timestamp(ts, f).is_some()
                &&& r.is_ok() ==> r.unwrap()@ == formatted_timestamp(ts, f).unwrap()
            },
    {
        match timestamp {
            None => Ok(String::new()),
            Some(ts) => {
                let f = match format {
                    Some(f) => f,
                    None => "%Y-%m-%d",
                };
                match format_timestamp(ts, f) {
                    Some(s) => Ok(s),
                    None => Err(PagesError::Render(String::from_str("date cannot be written"))),
                }
            },
        }
    }
}

/// The `uri_string` helper: a text as it stands in a URI (see
/// [`uri_friendly`]), the empty text where none is given.
pub struct ForURIHelper;

impl ForURIHelper {
    /// Returns what the helper writes.
    pub fn convert(&self, text: Option<&str>) -> (r: String)
        ensures
            r@ == uri_friendly(match text {
                Some(t) => t@,
                None => Seq::<char>::empty(),
            }),
    {
        match text {
            Some(t) => uri_friendly_string(t),
            None => {
                let r = String::new();
                proof {
                    assert(uri_friendly(Seq::<char>::empty()) =~= Seq::<char>::empty());
                }
                r
            },
        }
    }
}

} // verus!
