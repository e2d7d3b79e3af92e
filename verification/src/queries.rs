//! Queries over an output bundle: which pages a template asset or a
//! template helper lists, and how they are paginated.
use vstd::prelude::*;
use crate::pages::{MetadataView, Page, PageView};
use crate::selectors::{path_match, path_matches};
use crate::strings::{copy_string, lemma_insert_deep_view, lemma_push_deep_view, split_on, split_string};
use crate::metadata::contains_string;

verus! {

/// A query over the pages of a bundle.
#[derive(Debug)]
pub enum BundleQuery {
    /// Every page.
    Always,
    /// The pages tagged with a tag.
    Tag { tag: String },
    /// The pages with an author of a name.
    Author { author: String },
    /// The pages whose path matches a `/`-separated glob (see [`path_matches`]).
    Path { path: String },
    /// The pages that every query matches.
    And { and: Vec<BundleQuery> },
    /// The pages that some query matches.
    Or { or: Vec<BundleQuery> },
    /// The pages that a query does not match.
    Not { not: Box<BundleQuery> },
}

/// Whether a page has an author of a given name.
pub open spec fn has_author(m: MetadataView, name: Seq<char>) -> bool {
    exists|i: int| 0 <= i < m.authors.len() && (#[trigger] m.authors[i]).name == name
}

/// Whether a query matches a page.
pub open spec fn query_matches(q: BundleQuery, p: PageView) -> bool
    decreases q,
{
    match q {
        BundleQuery::Always => true,
        BundleQuery::Tag { tag } => p.metadata is Some && p.metadata.unwrap().tags.contains(tag@),
        BundleQuery::Author { author } => p.metadata is Some && has_author(p.metadata.unwrap(), author@),
        BundleQuery::Path { path } => path_matches(split_on(path@, '/'), p.path),
        BundleQuery::And { and } => all_match(and@, p),
        BundleQuery::Or { or } => any_match(or@, p),
        BundleQuery::Not { not } => !query_matches(*not, p),
    }
}

/// Whether every query of a list matches a page.
pub open spec fn all_match(qs: Seq<BundleQuery>, p: PageView) -> bool
    decreases qs,
{
    qs.len() == 0 || (all_match(qs.drop_last(), p) && query_matches(qs.last(), p))
}

/// Whether some query of a list matches a page.
pub open spec fn any_match(qs: Seq<BundleQuery>, p: PageView) -> bool
    decreases qs,
{
    qs.len() > 0 && (any_match(qs.drop_last(), p) || query_matches(qs.last(), p))
}

/// Which part of a query's result to take: skip some pages, then keep at
/// most some pages.
#[derive(Debug, Clone, Copy)]
pub struct BundlePagination {
    pub skip: Option<usize>,
    pub limit: Option<usize>,
}

/// A sequence with the pagination applied.
pub open spec fn paginate<T>(s: Seq<T>, pg: BundlePagination) -> Seq<T> {
    let a = match pg.skip {
        Some(k) => if k <= s.len() { s.skip(k as int) } else { Seq::empty() },
        None => s,
    };
    match pg.limit {
        Some(l) => if l <= a.len() { a.take(l as int) } else { a },
        None => a,
    }
}

/// The publishing date of a page, if it has one.
pub open spec fn date_of(p: PageView) -> Option<i64> {
    match p.metadata {
        Some(m) => m.publishing_date,
        None => None,
    }
}

/// Whether pages of date `a` are listed before pages of date `b`: the newer
/// first, undated pages last.
pub open spec fn listed_before(a: Option<i64>, b: Option<i64>) -> bool {
    match a {
        Some(x) => match b {
            Some(y) => x > y,
            None => true,
        },
        None => false,
    }
}

/// A listing with a page inserted after every page listed before it or with
/// it.
pub open spec fn insert_by_date(s: Seq<PageView>, p: PageView) -> Seq<PageView>
    decreases s.len(),
{
    if s.len() == 0 {
        seq![p]
    } else if listed_before(date_of(p), date_of(s[0])) {
        seq![p] + s
    } else {
        seq![s[0]] + insert_by_date(s.drop_first(), p)
    }
}

/// Pages in listing order: newest first, undated pages last, and pages of
/// one date in the order they had.
pub open spec fn by_date(s: Seq<PageView>) -> Seq<PageView>
    decreases s.len(),
{
    if s.len() == 0 {
        s
    } else {
        insert_by_date(by_date(s.drop_last()), s.last())
    }
}

/// Whether no page of a listing comes after a page it is listed before.
pub open spec fn date_ordered(s: Seq<PageView>) -> bool {
    forall|i: int, j: int| 0 <= i < j < s.len() ==> !listed_before(date_of(#[trigger] s[j]), date_of(#[trigger] s[i]))
}

/// The pages of a bundle that a query matches, in listing order.
pub open spec fn query_all(b: Seq<PageView>, q: BundleQuery) -> Seq<PageView> {
    by_date(b.filter(|p: PageView| query_matches(q, p)))
}

/// Inserting a page where the pages before it are listed with or before it
/// and the next one after it is inserting it in listing order.
proof fn lemma_insert_at(s: Seq<PageView>, p: PageView, k: int)
    requires
        0 <= k <= s.len(),
        forall|j: int| 0 <= j < k ==> !listed_before(date_of(p), date_of(#[trigger] s[j])),
        k < s.len() ==> listed_before(date_of(p), date_of(s[k])),
    ensures
        insert_by_date(s, p) == s.insert(k, p),
    decreases k,
{
    if k == 0 {
        if s.len() == 0 {
            assert(s.insert(0, p) =~= seq![p]);
        } else {
            assert(s.insert(0, p) =~= seq![p] + s);
        }
    } else {
        let t = s.drop_first();
        assert(!listed_before(date_of(p), date_of(s[0])));
        assert forall|j: int| 0 <= j < k - 1 implies !listed_before(date_of(p), date_of(#[trigger] t[j])) by {
            assert(t[j] == s[j + 1]);
        }
        if k < s.len() {
            assert(t[k - 1] == s[k]);
        }
        lemma_insert_at(t, p, k - 1);
        assert(s.insert(k, p) =~= seq![s[0]] + t.insert(k - 1, p));
    }
}

/// Whether no page of a listing is listed before a date.
pub open spec fn none_before(s: Seq<PageView>, d: Option<i64>) -> bool {
    forall|j: int| 0 <= j < s.len() ==> !listed_before(date_of(#[trigger] s[j]), d)
}

/// Inserting a page that is not listed before a date keeps a listing of
/// such pages.
proof fn lemma_insert_none_before(s: Seq<PageView>, p: PageView, d: Option<i64>)
    requires
        none_before(s, d),
        !listed_before(date_of(p), d),
    ensures
        none_before(insert_by_date(s, p), d),
    decreases s.len(),
{
    if s.len() > 0 && !listed_before(date_of(p), date_of(s[0])) {
        let t = s.drop_first();
        assert forall|j: int| 0 <= j < t.len() implies !listed_before(date_of(#[trigger] t[j]), d) by {
            assert(t[j] == s[j + 1]);
        }
        lemma_insert_none_before(t, p, d);
        let r = insert_by_date(t, p);
        assert forall|j: int| 0 <= j < r.len() + 1 implies !listed_before(date_of(#[trigger] (seq![s[0]] + r)[j]), d) by {
            if j > 0 {
                assert((seq![s[0]] + r)[j] == r[j - 1]);
            }
        }
    }
}

/// Inserting in listing order keeps a listing in order and adds the page.
proof fn lemma_insert_by_date(s: Seq<PageView>, p: PageView)
    requires
        date_ordered(s),
    ensures
        date_ordered(insert_by_date(s, p)),
        insert_by_date(s, p).to_multiset() == s.to_multiset().insert(p),
    decreases s.len(),
{
    broadcast use vstd::seq_lib::group_to_multiset_ensures;
    if s.len() == 0 {
        assert(seq![p] =~= Seq::<PageView>::empty().push(p));
    } else if listed_before(date_of(p), date_of(s[0])) {
        let r = seq![p] + s;
        assert forall|i: int, j: int| 0 <= i < j < r.len() implies !listed_before(date_of(#[trigger] r[j]), date_of(#[trigger] r[i])) by {
            assert(r[j] == s[j - 1]);
            if i > 0 {
                assert(r[i] == s[i - 1]);
            } else if j > 1 {
                assert(!listed_before(date_of(s[j - 1]), date_of(s[0])));
            }
        }
        vstd::seq_lib::lemma_multiset_commutative(seq![p], s);
        assert(seq![p] =~= Seq::<PageView>::empty().push(p));
    } else {
        let t = s.drop_first();
        assert forall|i: int, j: int| 0 <= i < j < t.len() implies !listed_before(date_of(#[trigger] t[j]), date_of(#[trigger] t[i])) by {
            assert(t[j] == s[j + 1]);
            assert(t[i] == s[i + 1]);
        }
        assert forall|j: int| 0 <= j < t.len() implies !listed_before(date_of(#[trigger] t[j]), date_of(s[0])) by {
            assert(t[j] == s[j + 1]);
        }
        lemma_insert_by_date(t, p);
        lemma_insert_none_before(t, p, date_of(s[0]));
        let r0 = insert_by_date(t, p);
        let r = seq![s[0]] + r0;
        assert forall|i: int, j: int| 0 <= i < j < r.len() implies !listed_before(date_of(#[trigger] r[j]), date_of(#[trigger] r[i])) by {
            assert(r[j] == r0[j - 1]);
            if i > 0 {
                assert(r[i] == r0[i - 1]);
            }
        }
        vstd::seq_lib::lemma_multiset_commutative(seq![s[0]], r0);
        vstd::seq_lib::lemma_multiset_commutative(seq![s[0]], t);
        assert(s =~= seq![s[0]] + t);
        assert(seq![s[0]] =~= Seq::<PageView>::empty().push(s[0]));
    }
}

/// The listing order of pages lists them all, in order.
pub proof fn lemma_by_date(s: Seq<PageView>)
    ensures
        date_ordered(by_date(s)),
        by_date(s).to_multiset() == s.to_multiset(),
        by_date(s).len() == s.len(),
    decreases s.len(),
{
    broadcast use vstd::seq_lib::group_to_multiset_ensures;
    if s.len() > 0 {
        lemma_by_date(s.drop_last());
        lemma_insert_by_date(by_date(s.drop_last()), s.last());
        assert(s =~= s.drop_last().push(s.last()));
    }
    assert(by_date(s).to_multiset().len() == s.to_multiset().len());
}

/// Lists of queries that match the same pages one by one match the same
/// pages all together and any of them.
pub proof fn lemma_match_equiv(a: Seq<BundleQuery>, b: Seq<BundleQuery>, p: PageView)
    requires
        a.len() == b.len(),
        forall|k: int| 0 <= k < a.len() ==> #[trigger] query_matches(a[k], p) == query_matches(b[k], p),
    ensures
        all_match(a, p) == all_match(b, p),
        any_match(a, p) == any_match(b, p),
    decreases a.len(),
{
    if a.len() > 0 {
        assert(query_matches(a[a.len() - 1], p) == query_matches(b[b.len() - 1], p));
        lemma_match_equiv(a.drop_last(), b.drop_last(), p);
    }
}

/// Returns copies of queries.
fn duplicate_all(qs: &Vec<BundleQuery>) -> (r: Vec<BundleQuery>)
    ensures
        r.len() == qs.len(),
        forall|k: int, p: PageView| 0 <= k < qs.len() ==> #[trigger] query_matches(r@[k], p) == query_matches(qs@[k], p),
    decreases qs, 0int,
{
    let mut v: Vec<BundleQuery> = Vec::new();
    let mut i: usize = 0;
    while i < qs.len()
        invariant
            i <= qs.len(),
            v.len() == i,
            forall|k: int, p: PageView| 0 <= k < i ==> #[trigger] query_matches(v@[k], p) == query_matches(qs@[k], p),
        decreases qs.len() - i,
    {
        v.push(qs[i].duplicate());
        i = i + 1;
    }
    v
}

impl BundleQuery {
    /// Whether the query matches the page.
    #[verifier::loop_isolation(false)]
    pub fn matches(&self, p: &Page) -> (r: bool)
        ensures
            r == query_matches(*self, p.deep_view()),
        decreases self,
    {
        match self {
            BundleQuery::Always => true,
            BundleQuery::Tag { tag } => match &p.metadata {
                Some(m) => contains_string(&m.tags, tag),
                None => false,
            },
            BundleQuery::Author { author } => match &p.metadata {
                Some(m) => {
                    let mut i: usize = 0;
                    while i < m.authors.len()
                        invariant
                            i <= m.authors.len(),
                            forall|k: int| 0 <= k < i ==> m.authors.deep_view()[k].name != author@,
                        decreases m.authors.len() - i,
                    {
                        if m.authors[i].name == *author {
                            proof {
                                assert(p.deep_view().metadata == Some(m.deep_view()));
                                assert(p.deep_view().metadata.unwrap().authors[i as int].name == author@);
                            }
                            return true;
                        }
                        i = i + 1;
                    }
                    false
                },
                None => false,
            },
            BundleQuery::Path { path } => {
                let query = split_string(path.as_str(), '/');
                path_match(&query, &p.path)
            },
            BundleQuery::And { and } => {
                let mut i: usize = 0;
                let mut ok = true;
                proof {
                    assert(and@.take(0) =~= Seq::<BundleQuery>::empty());
                }
                while i < and.len()
                    invariant
                        i <= and.len(),
                        ok == all_match(and@.take(i as int), p.deep_view()),
                    decreases and.len() - i,
                {
                    proof {
                        assert(and@.take(i + 1).drop_last() =~= and@.take(i as int));
                        assert(and@.take(i + 1).last() == and@[i as int]);
                    }
                    let m = and[i].matches(p);
                    ok = ok && m;
                    i = i + 1;
                }
                proof {
                    assert(and@.take(and.len() as int) =~= and@);
                }
                ok
            },
            BundleQuery::Or { or } => {
                let mut i: usize = 0;
                let mut any = false;
                proof {
                    assert(or@.take(0) =~= Seq::<BundleQuery>::empty());
                }
                while i < or.len()
                    invariant
                        i <= or.len(),
                        any == any_match(or@.take(i as int), p.deep_view()),
                    decreases or.len() - i,
                {
                    proof {
                        assert(or@.take(i + 1).drop_last() =~= or@.take(i as int));
                        assert(or@.take(i + 1).last() == or@[i as int]);
                    }
                    let m = or[i].matches(p);
                    any = any || m;
                    i = i + 1;
                }
                proof {
                    assert(or@.take(or.len() as int) =~= or@);
                }
                any
            },
            BundleQuery::Not { not } => !not.matches(p),
        }
    }

    /// Returns a copy of the query.
    #[verifier::loop_isolation(false)]
    pub fn duplicate(&self) -> (r: BundleQuery)
        ensures
            forall|p: PageView| query_matches(r, p) == query_matches(*self, p),
        decreases self, 1int,
    {
        match self {
            BundleQuery::Always => BundleQuery::Always,
            BundleQuery::Tag { tag } => BundleQuery::Tag { tag: copy_string(tag) },
            BundleQuery::Author { author } => BundleQuery::Author { author: copy_string(author) },
            BundleQuery::Path { path } => BundleQuery::Path { path: copy_string(path) },
            BundleQuery::And { and } => {
                let v = duplicate_all(and);
                proof {
                    assert forall|p: PageView| query_matches(BundleQuery::And { and: v }, p) == query_matches(*self, p) by {
                        lemma_match_equiv(v@, and@, p);
                    }
                }
                BundleQuery::And { and: v }
            },
            BundleQuery::Or { or } => {
                let v = duplicate_all(or);
                proof {
                    assert forall|p: PageView| query_matches(BundleQuery::Or { or: v }, p) == query_matches(*self, p) by {
                        lemma_match_equiv(v@, or@, p);
                    }
                }
                BundleQuery::Or { or: v }
            },
            BundleQuery::Not { not } => {
                let d = not.duplicate();
                let r = BundleQuery::Not { not: Box::new(d) };
                proof {
                    assert forall|p: PageView| query_matches(r, p) == query_matches(*self, p) by {
                        assert(query_matches(d, p) == query_matches(**not, p));
                    }
                }
                r
            },
        }
    }
}

/// The publishing date of a page.
fn page_date(p: &Page) -> (r: Option<i64>)
    ensures
        r == date_of(p.deep_view()),
{
    match &p.metadata {
        Some(m) => m.publishing_date,
        None => None,
    }
}

/// Whether pages of date `a` are listed before pages of date `b`.
fn is_listed_before(a: Option<i64>, b: Option<i64>) -> (r: bool)
    ensures
        r == listed_before(a, b),
{
    match a {
        Some(x) => match b {
            Some(y) => x > y,
            None => true,
        },
        None => false,
    }
}

/// Returns where a page of date `d` goes in a listing: after the pages
/// listed with it or before it.
fn insert_position(r: &Vec<Page>, d: Option<i64>) -> (k: usize)
    ensures
        k <= r.len(),
        forall|j: int| 0 <= j < k ==> !listed_before(d, date_of(#[trigger] r.deep_view()[j])),
        k < r.len() ==> listed_before(d, date_of(r.deep_view()[k as int])),
{
    let mut k: usize = 0;
    while k < r.len()
        invariant
            k <= r.len(),
            forall|j: int| 0 <= j < k ==> !listed_before(d, date_of(#[trigger] r.deep_view()[j])),
        decreases r.len() - k,
    {
        if is_listed_before(d, page_date(&r[k])) {
            return k;
        }
        k = k + 1;
    }
    k
}

/// Returns copies of pages in listing order (see [`by_date`]).
pub fn sort_by_date(pages: &Vec<Page>) -> (r: Vec<Page>)
    ensures
        r.deep_view() == by_date(pages.deep_view()),
{
    let mut r: Vec<Page> = Vec::new();
    let mut i: usize = 0;
    proof {
        assert(pages.deep_view().take(0) =~= Seq::<PageView>::empty());
    }
    while i < pages.len()
        invariant
            i <= pages.len(),
            r.deep_view() == by_date(pages.deep_view().take(i as int)),
        decreases pages.len() - i,
    {
        let p = pages[i].duplicate();
        let k = insert_position(&r, page_date(&p));
        let ghost before = r;
        let ghost gp = p;
        proof {
            lemma_insert_at(r.deep_view(), p.deep_view(), k as int);
        }
        r.insert(k, p);
        proof {
            lemma_insert_deep_view(before, r, k as int, gp);
            let s = pages.deep_view().take(i + 1);
            assert(s.drop_last() =~= pages.deep_view().take(i as int));
            assert(s.last() == gp.deep_view());
        }
        i = i + 1;
    }
    proof {
        assert(pages.deep_view().take(pages.len() as int) =~= pages.deep_view());
    }
    r
}

/// Returns copies of the pages of a bundle that a query matches, in bundle
/// order.
pub fn matching_pages(bundle: &Vec<Page>, q: &BundleQuery) -> (r: Vec<Page>)
    ensures
        r.deep_view() == bundle.deep_view().filter(|p: PageView| query_matches(*q, p)),
{
    let ghost f = |p: PageView| query_matches(*q, p);
    let mut matched: Vec<Page> = Vec::new();
    let mut i: usize = 0;
    while i < bundle.len()
        invariant
            i <= bundle.len(),
            f == (|p: PageView| query_matches(*q, p)),
            matched.deep_view() == bundle.deep_view().take(i as int).filter(f),
        decreases bundle.len() - i,
    {
        proof {
            reveal_with_fuel(Seq::filter, 1);
            assert(bundle.deep_view().take(i + 1).drop_last() =~= bundle.deep_view().take(i as int));
        }
        if q.matches(&bundle[i]) {
            let ghost before = matched;
            let p = bundle[i].duplicate();
            matched.push(p);
            proof {
                lemma_push_deep_view(before, matched, p);
            }
        }
        i = i + 1;
    }
    proof {
        assert(bundle.deep_view().take(bundle.len() as int) =~= bundle.deep_view());
    }
    matched
}

/// Returns copies of the pages of a bundle that a query matches, in listing
/// order, with the pagination applied.
pub fn query_pages(bundle: &Vec<Page>, q: &BundleQuery, pg: BundlePagination) -> (r: Vec<Page>)
    ensures
        r.deep_view() == paginate(query_all(bundle.deep_view(), *q), pg),
{
    let ghost all = query_all(bundle.deep_view(), *q);
    let matched = sort_by_date(&matching_pages(bundle, q));
    let n = matched.len();
    let from: usize = match pg.skip {
        Some(k) => if k <= n { k } else { n },
        None => 0,
    };
    let ghost a = paginate(all, BundlePagination { skip: pg.skip, limit: None });
    let to: usize = match pg.limit {
        Some(l) => if l <= n - from { from + l } else { n },
        None => n,
    };
    let mut r: Vec<Page> = Vec::new();
    let mut j: usize = from;
    while j < to
        invariant
            from <= j <= to <= n,
            n == matched.len(),
            r.deep_view() == matched.deep_view().subrange(from as int, j as int),
        decreases to - j,
    {
        let ghost before = r;
        let p = matched[j].duplicate();
        r.push(p);
        proof {
            lemma_push_deep_view(before, r, p);
            assert(r.deep_view() =~= matched.deep_view().subrange(from as int, j + 1));
        }
        j = j + 1;
    }
    proof {
        let m = matched.deep_view();
        assert(m == all);
        let a2 = match pg.skip {
            Some(k) => if k <= m.len() { m.skip(k as int) } else { Seq::empty() },
            None => m,
        };
        assert(a2 =~= m.subrange(from as int, n as int));
        match pg.limit {
            Some(l) => {
                if l <= a2.len() {
                    assert(a2.take(l as int) =~= m.subrange(from as int, to as int));
                } else {
                    assert(a2 =~= m.subrange(from as int, to as int));
                }
            },
            None => {},
        }
        assert(r.deep_view() =~= paginate(all, pg));
    }
    r
}

/// Returns the number of pages of a bundle that a query matches.
pub fn count_pages(bundle: &Vec<Page>, q: &BundleQuery) -> (r: usize)
    ensures
        r == query_all(bundle.deep_view(), *q).len(),
{
    let v = query_pages(bundle, q, BundlePagination { skip: None, limit: None });
    v.len()
}

} // verus!
