//! Page selectors: glob patterns over path segments, and extension filters.
use vstd::prelude::*;
use crate::pages::{Page, PageView};
use crate::strings::{chars_of, ends_with, ends_with_spec, lemma_push_deep_view};

verus! {

/// Whether a segment pattern matches a segment: `*` matches any run of
/// characters (possibly empty), every other character matches itself.
pub open spec fn segment_matches(pat: Seq<char>, seg: Seq<char>) -> bool
    decreases pat.len() + seg.len(),
{
    if pat.len() == 0 {
        seg.len() == 0
    } else if pat[0] == '*' {
        segment_matches(pat.drop_first(), seg) || (seg.len() > 0 && segment_matches(
            pat,
            seg.drop_first(),
        ))
    } else {
        seg.len() > 0 && seg[0] == pat[0] && segment_matches(pat.drop_first(), seg.drop_first())
    }
}

/// The segment `**`, which matches any number of path segments.
pub open spec fn any_segments() -> Seq<char> {
    seq!['*', '*']
}

/// Whether a path query matches a path: the segment `**` matches any number
/// (possibly zero) of segments; any other query segment matches exactly one
/// path segment by [`segment_matches`].
pub open spec fn path_matches(query: Seq<Seq<char>>, path: Seq<Seq<char>>) -> bool
    decreases query.len() + path.len(),
{
    if query.len() == 0 {
        path.len() == 0
    } else if query[0] == any_segments() {
        path_matches(query.drop_first(), path) || (path.len() > 0 && path_matches(
            query,
            path.drop_first(),
        ))
    } else {
        path.len() > 0 && segment_matches(query[0], path[0]) && path_matches(
            query.drop_first(),
            path.drop_first(),
        )
    }
}

fn segment_matches_from(pat: &Vec<char>, i: usize, seg: &Vec<char>, j: usize) -> (r: bool)
    requires
        i <= pat.len(),
        j <= seg.len(),
    ensures
        r == segment_matches(pat@.skip(i as int), seg@.skip(j as int)),
    decreases pat.len() - i + seg.len() - j,
{
    let ghost p = pat@.skip(i as int);
    let ghost s = seg@.skip(j as int);
    proof {
        assert(p.len() > 0 ==> p.drop_first() =~= pat@.skip(i + 1));
        assert(s.len() > 0 ==> s.drop_first() =~= seg@.skip(j + 1));
    }
    if i == pat.len() {
        j == seg.len()
    } else if pat[i] == '*' {
        if segment_matches_from(pat, i + 1, seg, j) {
            true
        } else if j < seg.len() {
            segment_matches_from(pat, i, seg, j + 1)
        } else {
            false
        }
    } else {
        j < seg.len() && seg[j] == pat[i] && segment_matches_from(pat, i + 1, seg, j + 1)
    }
}

fn is_any_segments(s: &Vec<char>) -> (r: bool)
    ensures
        r == (s@ == any_segments()),
{
    if s.len() == 2 && s[0] == '*' && s[1] == '*' {
        proof {
            assert(s@ =~= any_segments());
        }
        true
    } else {
        false
    }
}

fn path_matches_from(
    query: &Vec<Vec<char>>,
    i: usize,
    path: &Vec<Vec<char>>,
    j: usize,
    Ghost(q): Ghost<Seq<Seq<char>>>,
    Ghost(p): Ghost<Seq<Seq<char>>>,
) -> (r: bool)
    requires
        i <= query.len(),
        j <= path.len(),
        query.len() == q.len(),
        path.len() == p.len(),
        forall|k: int| 0 <= k < q.len() ==> #[trigger] query@[k]@ == q[k],
        forall|k: int| 0 <= k < p.len() ==> #[trigger] path@[k]@ == p[k],
    ensures
        r == path_matches(q.skip(i as int), p.skip(j as int)),
    decreases query.len() - i + path.len() - j,
{
    let ghost qs = q.skip(i as int);
    let ghost ps = p.skip(j as int);
    proof {
        assert(qs.len() > 0 ==> qs.drop_first() =~= q.skip(i + 1));
        assert(ps.len() > 0 ==> ps.drop_first() =~= p.skip(j + 1));
        assert(qs.len() > 0 ==> qs[0] == q[i as int]);
        assert(ps.len() > 0 ==> ps[0] == p[j as int]);
    }
    if i == query.len() {
        j == path.len()
    } else if is_any_segments(&query[i]) {
        if path_matches_from(query, i + 1, path, j, Ghost(q), Ghost(p)) {
            true
        } else if j < path.len() {
            path_matches_from(query, i, path, j + 1, Ghost(q), Ghost(p))
        } else {
            false
        }
    } else if j < path.len() {
        let pq = &query[i];
        let pp = &path[j];
        proof {
            assert(pq@.skip(0) =~= pq@);
            assert(pp@.skip(0) =~= pp@);
        }
        segment_matches_from(pq, 0, pp, 0) && path_matches_from(
            query,
            i + 1,
            path,
            j + 1,
            Ghost(q),
            Ghost(p),
        )
    } else {
        false
    }
}

fn chars_of_all(v: &Vec<String>) -> (r: Vec<Vec<char>>)
    ensures
        r.len() == v.len(),
        forall|k: int| 0 <= k < v.len() ==> #[trigger] r@[k]@ == v.deep_view()[k],
{
    let mut r: Vec<Vec<char>> = Vec::new();
    let mut i: usize = 0;
    while i < v.len()
        invariant
            i <= v.len(),
            r.len() == i,
            forall|k: int| 0 <= k < i ==> #[trigger] r@[k]@ == v.deep_view()[k],
        decreases v.len() - i,
    {
        let c = chars_of(v[i].as_str());
        r.push(c);
        i = i + 1;
    }
    r
}

/// Whether the path query `query` matches the path `path`.
pub fn path_match(query: &Vec<String>, path: &Vec<String>) -> (r: bool)
    ensures
        r == path_matches(query.deep_view(), path.deep_view()),
{
    let q = chars_of_all(query);
    let p = chars_of_all(path);
    proof {
        assert(query.deep_view().skip(0) =~= query.deep_view());
        assert(path.deep_view().skip(0) =~= path.deep_view());
    }
    path_matches_from(&q, 0, &p, 0, Ghost(query.deep_view()), Ghost(path.deep_view()))
}

/// Chooses pages of a bundle.
#[derive(Debug)]
pub enum Selector {
    /// Pages whose path matches a glob query.
    Path { query: Vec<String> },
    /// Pages whose last path segment ends with an extension.
    Ext { ext: String },
}

impl Selector {
    /// Whether the selector chooses a page.
    pub open spec fn selects(&self, page: PageView) -> bool {
        match self {
            Selector::Path { query } => path_matches(query.deep_view(), page.path),
            Selector::Ext { ext } => page.path.len() > 0 && ends_with_spec(page.path.last(), ext@),
        }
    }

    /// Whether the selector chooses the page.
    pub fn select(&self, page: &Page) -> (r: bool)
        ensures
            r == self.selects(page.deep_view()),
    {
        match self {
            Selector::Path { query } => path_match(query, &page.path),
            Selector::Ext { ext } => {
                let n = page.path.len();
                if n == 0 {
                    false
                } else {
                    ends_with(page.path[n - 1].as_str(), ext.as_str())
                }
            },
        }
    }

    /// The pages of a bundle that the selector chooses, in bundle order.
    pub open spec fn filter(&self, bundle: Seq<PageView>) -> Seq<PageView> {
        bundle.filter(|p: PageView| self.selects(p))
    }

    /// Returns copies of the pages of a bundle that the selector chooses, in
    /// bundle order.
    pub fn select_pages(&self, bundle: &Vec<Page>) -> (r: Vec<Page>)
        ensures
            r.deep_view() == self.filter(bundle.deep_view()),
    {
        let ghost f = |p: PageView| self.selects(p);
        let mut r: Vec<Page> = Vec::new();
        let mut i: usize = 0;
        while i < bundle.len()
            invariant
                i <= bundle.len(),
                f == (|p: PageView| self.selects(p)),
                r.deep_view() == bundle.deep_view().take(i as int).filter(f),
            decreases bundle.len() - i,
        {
            proof {
                reveal_with_fuel(Seq::filter, 1);
                assert(bundle.deep_view().take(i + 1).drop_last() =~= bundle.deep_view().take(
                    i as int,
                ));
            }
            if self.select(&bundle[i]) {
                let ghost before = r;
                let p = bundle[i].duplicate();
                r.push(p);
                proof {
                    lemma_push_deep_view(before, r, p);
                }
            }
            i = i + 1;
        }
        proof {
            assert(bundle.deep_view().take(bundle.len() as int) =~= bundle.deep_view());
        }
        r
    }
}

} // verus!
