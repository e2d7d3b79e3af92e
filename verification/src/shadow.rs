//! Shadow pages: metadata files (`x.json`, `x.yaml`, ...) that sit beside
//! the pages and directories they describe. The stage loads them, removes
//! them from the bundle and gives every other page the metadata of its own
//! shadow file completed by that of the directories above it and of the
//! root `pages` file.
use vstd::prelude::*;
use rayon::iter::{IntoParallelRefIterator, ParallelIterator};
use crate::errors::PagesError;
use crate::metadata::merge_view;
use crate::metadata_tree::{MetadataTree, lemma_lookup_after_push, lemma_lookup_empty_root, lemma_walk_by_lookup, lookup, lookup_after, nodes_after, wf};
use crate::pages::{Metadata, MetadataView, Page, PageView, empty_metadata_view};
use crate::strings::{copy_string, copy_strings, ends_with, ends_with_spec, is_prefix_of, lemma_push_deep_view, path_is_prefix, chars_of, string_of_range, contains_path};

use crate::stages::{ProcessingResult, leaf_result, now_millis};

verus! {

/// Loads the metadata that a shadow page holds.
pub trait ShadowLoader: Send + Sync {
    /// Returns the metadata that the page holds, or why it cannot be read.
    fn load(&self, page: &Page) -> Result<Metadata, PagesError>;
}

/// The stage that applies shadow metadata files.
pub struct ShadowPages<L: ShadowLoader> {
    pub name: String,
    /// The loaders, each with the file extension (such as `.json`) it reads.
    pub loaders: Vec<(String, L)>,
}

/// A shadow page: the page, the loader that reads it, and the path of the
/// page or directory it describes (its own path without the extension).
#[derive(Debug)]
pub struct MetadataCandidate {
    pub page: usize,
    pub loader: usize,
    pub path: Vec<String>,
}

impl DeepView for MetadataCandidate {
    type V = (usize, usize, Seq<Seq<char>>);

    open spec fn deep_view(&self) -> (usize, usize, Seq<Seq<char>>) {
        (self.page, self.loader, self.path.deep_view())
    }
}

/// A path whose last segment loses a suffix of `n` characters.
pub open spec fn strip_last(path: Seq<Seq<char>>, n: int) -> Seq<Seq<char>> {
    path.drop_last().push(path.last().take(path.last().len() - n))
}

/// The shadow candidates of the page at position `i` with path `path`, one
/// per loader (from position `j` on) whose extension ends the last segment.
pub open spec fn page_candidates(i: int, path: Seq<Seq<char>>, exts: Seq<Seq<char>>, j: int) -> Seq<(usize, usize, Seq<Seq<char>>)>
    decreases exts.len() - j,
{
    if j < 0 || j >= exts.len() || path.len() == 0 {
        Seq::empty()
    } else if ends_with_spec(path.last(), exts[j]) {
        seq![(i as usize, j as usize, strip_last(path, exts[j].len() as int))] + page_candidates(i, path, exts, j + 1)
    } else {
        page_candidates(i, path, exts, j + 1)
    }
}

/// The shadow candidates of the first `n` pages of a bundle, in page order.
pub open spec fn all_candidates(b: Seq<PageView>, exts: Seq<Seq<char>>, n: int) -> Seq<(usize, usize, Seq<Seq<char>>)>
    decreases n,
{
    if n <= 0 || n > b.len() {
        Seq::empty()
    } else {
        all_candidates(b, exts, n - 1) + page_candidates(n - 1, b[n - 1].path, exts, 0)
    }
}

/// Whether a path is a prefix of the path of some page of a bundle.
pub open spec fn covered(b: Seq<PageView>, q: Seq<Seq<char>>) -> bool {
    exists|k: int| 0 <= k < b.len() && is_prefix_of(q, #[trigger] b[k].path)
}

/// The path of the root metadata file, `pages`.
pub open spec fn root_metadata_path() -> Seq<Seq<char>> {
    seq!["pages"@]
}

/// The shadow candidates that describe a page or directory of the bundle
/// (or the root), in page order.
pub open spec fn retained_candidates(b: Seq<PageView>, exts: Seq<Seq<char>>) -> Seq<(usize, usize, Seq<Seq<char>>)> {
    all_candidates(b, exts, b.len() as int).filter(
        |c: (usize, usize, Seq<Seq<char>>)| c.2 == root_metadata_path() || covered(b, c.2),
    )
}

/// Metadata completed by the optional metadata of the nodes, deepest first.
pub open spec fn merge_nodes(cur: MetadataView, nodes: Seq<(Seq<char>, Option<MetadataView>)>) -> MetadataView
    decreases nodes.len(),
{
    if nodes.len() == 0 {
        cur
    } else {
        merge_nodes(
            match nodes.last().1 {
                Some(m) => merge_view(cur, m),
                None => cur,
            },
            nodes.drop_last(),
        )
    }
}

/// The root metadata of the tree built from the entries.
pub open spec fn root_metadata(es: Seq<(Seq<Seq<char>>, MetadataView)>) -> Option<MetadataView> {
    match lookup_after(es, root_metadata_path()) {
        Some(x) => x,
        None => None,
    }
}

/// The metadata a page carries, or the empty metadata.
pub open spec fn own_metadata(p: PageView) -> MetadataView {
    match p.metadata {
        Some(m) => m,
        None => empty_metadata_view(),
    }
}

/// What the stage makes of a page that is not a shadow page, given the tree
/// built from the loaded entries.
pub open spec fn shadowed_page(p: PageView, es: Seq<(Seq<Seq<char>>, MetadataView)>) -> PageView {
    let nodes = nodes_after(es, p.path, 0);
    let root = root_metadata(es);
    if nodes.len() == 0 {
        match root {
            None => p,
            Some(r) => p.with_metadata(merge_view(own_metadata(p), r)),
        }
    } else {
        let merged = if p.metadata is Some {
            merge_nodes(p.metadata.unwrap(), nodes)
        } else if nodes.len() == p.path.len() {
            merge_nodes(
                match nodes.last().1 {
                    Some(m) => m,
                    None => empty_metadata_view(),
                },
                nodes.drop_last(),
            )
        } else {
            merge_nodes(empty_metadata_view(), nodes)
        };
        p.with_metadata(
            match root {
                Some(r) => merge_view(merged, r),
                None => merged,
            },
        )
    }
}

/// The entries (described path and loaded metadata) of candidates.
pub open spec fn entries(cands: Seq<(usize, usize, Seq<Seq<char>>)>, ms: Seq<MetadataView>) -> Seq<(Seq<Seq<char>>, MetadataView)> {
    Seq::new(cands.len(), |k: int| (cands[k].2, ms[k]))
}

/// The output of the stage, given its retained candidates and the metadata
/// loaded from them: every page that is not a shadow page, in bundle order,
/// with its metadata completed.
pub open spec fn shadow_output(b: Seq<PageView>, cands: Seq<(usize, usize, Seq<Seq<char>>)>, ms: Seq<MetadataView>) -> Seq<PageView> {
    let shadow_paths = cands.map_values(|c: (usize, usize, Seq<Seq<char>>)| b[c.0 as int].path);
    b.filter(|p: PageView| !shadow_paths.contains(p.path)).map_values(
        |p: PageView| shadowed_page(p, entries(cands, ms)),
    )
}

/// Whether candidates name pages of the bundle and loaders that exist, and
/// describe non-empty paths.
pub open spec fn valid_candidates(b: Seq<PageView>, exts: Seq<Seq<char>>, cands: Seq<(usize, usize, Seq<Seq<char>>)>) -> bool {
    forall|k: int|
        0 <= k < cands.len() ==> (#[trigger] cands[k]).0 < b.len() && cands[k].1 < exts.len() && cands[k].2.len() > 0
}

proof fn lemma_page_candidates(i: int, path: Seq<Seq<char>>, exts: Seq<Seq<char>>, j: int)
    requires
        0 <= i,
        i < usize::MAX,
        exts.len() <= usize::MAX,
    ensures
        forall|k: int|
            0 <= k < page_candidates(i, path, exts, j).len() ==> (#[trigger] page_candidates(i, path, exts, j)[k]).0 == i
                && page_candidates(i, path, exts, j)[k].1 < exts.len() && page_candidates(i, path, exts, j)[k].2.len() == path.len()
                && path.len() > 0,
    decreases exts.len() - j,
{
    if !(j < 0 || j >= exts.len() || path.len() == 0) {
        lemma_page_candidates(i, path, exts, j + 1);
        let rest = page_candidates(i, path, exts, j + 1);
        if ends_with_spec(path.last(), exts[j]) {
            let c = (i as usize, j as usize, strip_last(path, exts[j].len() as int));
            assert(page_candidates(i, path, exts, j) == seq![c] + rest);
            assert forall|k: int| 0 <= k < rest.len() + 1 implies #[trigger] (seq![c] + rest)[k] == if k == 0 { c } else { rest[k - 1] } by {}
        }
    }
}

proof fn lemma_all_candidates(b: Seq<PageView>, exts: Seq<Seq<char>>, n: int)
    requires
        b.len() <= usize::MAX,
        exts.len() <= usize::MAX,
    ensures
        valid_candidates(b, exts, all_candidates(b, exts, n)),
        forall|k: int|
            0 <= k < all_candidates(b, exts, n).len() ==> (#[trigger] all_candidates(b, exts, n)[k]).2.len()
                == b[all_candidates(b, exts, n)[k].0 as int].path.len(),
    decreases n,
{
    if !(n <= 0 || n > b.len()) {
        lemma_all_candidates(b, exts, n - 1);
        lemma_page_candidates(n - 1, b[n - 1].path, exts, 0);
        let a = all_candidates(b, exts, n - 1);
        let pc = page_candidates(n - 1, b[n - 1].path, exts, 0);
        assert forall|k: int| 0 <= k < a.len() + pc.len() implies #[trigger] (a + pc)[k] == if k < a.len() { a[k] } else { pc[k - a.len()] } by {}
    }
}

/// The retained candidates are valid.
pub proof fn lemma_retained_valid(b: Seq<PageView>, exts: Seq<Seq<char>>)
    requires
        b.len() <= usize::MAX,
        exts.len() <= usize::MAX,
    ensures
        valid_candidates(b, exts, retained_candidates(b, exts)),
{
    let all = all_candidates(b, exts, b.len() as int);
    let f = |c: (usize, usize, Seq<Seq<char>>)| c.2 == root_metadata_path() || covered(b, c.2);
    lemma_all_candidates(b, exts, b.len() as int);
    assert forall|k: int| 0 <= k < all.filter(f).len() implies #[trigger] all.filter(f)[k].0 < b.len()
        && all.filter(f)[k].1 < exts.len() && all.filter(f)[k].2.len() > 0 by {
        let c = all.filter(f)[k];
        assert(all.filter(f).contains(c));
        all.lemma_filter_contains_rev(f, c);
        let j = choose|j: int| 0 <= j < all.len() && all[j] == c;
        assert(all[j] == c);
    }
}

/// Returns `path` whose last segment loses its last `n` characters.
fn strip_last_segment(path: &Vec<String>, n: usize) -> (r: Vec<String>)
    requires
        path.len() > 0,
        n <= path.deep_view().last().len(),
    ensures
        r.deep_view() == strip_last(path.deep_view(), n as int),
{
    let mut r = copy_strings(path);
    let last = path.len() - 1;
    let cs = chars_of(path[last].as_str());
    let seg = string_of_range(&cs, 0, cs.len() - n);
    r.set(last, seg);
    proof {
        assert(r.deep_view() =~= strip_last(path.deep_view(), n as int));
    }
    r
}

/// Whether a path is a prefix of the path of some page of a bundle.
fn is_covered(bundle: &Vec<Page>, q: &Vec<String>) -> (r: bool)
    ensures
        r == covered(bundle.deep_view(), q.deep_view()),
{
    let mut k: usize = 0;
    while k < bundle.len()
        invariant
            k <= bundle.len(),
            forall|j: int| 0 <= j < k ==> !is_prefix_of(q.deep_view(), #[trigger] bundle.deep_view()[j].path),
        decreases bundle.len() - k,
    {
        if path_is_prefix(q, &bundle[k].path) {
            proof {
                assert(is_prefix_of(q.deep_view(), bundle.deep_view()[k as int].path));
            }
            return true;
        }
        k = k + 1;
    }
    false
}

/// Returns the path of the root metadata file, `pages`.
fn make_root_metadata_path() -> (r: Vec<String>)
    ensures
        r.deep_view() == root_metadata_path(),
{
    let mut r: Vec<String> = Vec::new();
    r.push(String::from_str("pages"));
    proof {
        assert(r.deep_view() =~= root_metadata_path());
    }
    r
}

/// Returns the optional metadata of the last node popped, and leaves the others.
fn pop_node(nodes: &mut Vec<crate::metadata_tree::MetadataNode>) -> (r: Option<Metadata>)
    requires
        old(nodes).len() > 0,
    ensures
        r.deep_view() == old(nodes).deep_view().last().1,
        final(nodes).deep_view() == old(nodes).deep_view().drop_last(),
{
    let ghost before = *nodes;
    let n = nodes.pop().unwrap();
    proof {
        assert(before@ == nodes@.push(n));
        lemma_push_deep_view(*nodes, before, n);
        assert(nodes.deep_view() =~= before.deep_view().drop_last());
    }
    n.metadata
}

/// Returns what the stage makes of a page that is not a shadow page, given
/// a tree that answers lookups as the entries `es` do, and its root metadata.
fn shadow_one(page: &Page, tree: &MetadataTree, root: &Option<Metadata>, Ghost(es): Ghost<Seq<(Seq<Seq<char>>, MetadataView)>>) -> (r: Page)
    requires
        tree is Root,
        forall|q: Seq<Seq<char>>| #[trigger] lookup(*tree, q) == lookup_after(es, q),
        root.deep_view() == root_metadata(es),
    ensures
        r.deep_view() == shadowed_page(page.deep_view(), es),
{
    let ghost p = page.deep_view();
    let mut nodes = tree.get_metadata_from_path(&page.path);
    proof {
        assert forall|r: Seq<Seq<char>>| #[trigger] lookup(*tree, r) == lookup_after(es, p.path.take(0) + r) by {
            assert(p.path.take(0) + r =~= r);
        }
        lemma_walk_by_lookup(*tree, p.path, 0, es);
        assert(p.path.skip(0) =~= p.path);
    }
    let ghost all = nodes.deep_view();
    if nodes.len() == 0 {
        match root {
            None => page.duplicate(),
            Some(r) => {
                let own = match &page.metadata {
                    Some(m) => m.duplicate(),
                    None => Metadata::empty(),
                };
                page.change_meta(own.merge(r))
            },
        }
    } else {
        let mut cur = if page.metadata.is_some() {
            match &page.metadata {
                Some(m) => m.duplicate(),
                None => Metadata::empty(),
            }
        } else if nodes.len() == page.path.len() {
            match pop_node(&mut nodes) {
                Some(m) => m,
                None => Metadata::empty(),
            }
        } else {
            Metadata::empty()
        };
        let ghost start = cur.deep_view();
        proof {
            assert(shadowed_page(p, es).metadata == Some(match root_metadata(es) {
                Some(r) => merge_view(merge_nodes(start, nodes.deep_view()), r),
                None => merge_nodes(start, nodes.deep_view()),
            }));
        }
        let ghost target = merge_nodes(start, nodes.deep_view());
        while nodes.len() > 0
            invariant
                merge_nodes(cur.deep_view(), nodes.deep_view()) == target,
            decreases nodes.len(),
        {
            let ghost nv = nodes.deep_view();
            match pop_node(&mut nodes) {
                Some(m) => {
                    cur = cur.merge(&m);
                },
                None => {},
            }
        }
        let fin = match root {
            Some(r) => cur.merge(r),
            None => cur,
        };
        page.change_meta(fin)
    }
}

/// Returns the bundle with the shadow metadata applied: every page that is
/// not one of the candidates' pages, in bundle order, with its metadata
/// completed from the entries (described path, loaded metadata) of the
/// candidates.
pub fn apply_shadow_metadata(bundle: &Vec<Page>, cands: &Vec<MetadataCandidate>, ms: &Vec<Metadata>) -> (r: Vec<Page>)
    requires
        cands.len() == ms.len(),
        forall|k: int| 0 <= k < cands.len() ==> (#[trigger] cands@[k]).page < bundle.len() && cands@[k].path.len() > 0,
    ensures
        r.deep_view() == shadow_output(bundle.deep_view(), cands.deep_view(), ms.deep_view()),
{
    let ghost b = bundle.deep_view();
    let ghost cv = cands.deep_view();
    let ghost es = entries(cv, ms.deep_view());
    let mut tree = MetadataTree::new_root();
    proof {
        lemma_lookup_empty_root(tree);
        assert(es.take(0) =~= Seq::<(Seq<Seq<char>>, MetadataView)>::empty());
    }
    let mut k: usize = 0;
    while k < cands.len()
        invariant
            k <= cands.len(),
            cands.len() == ms.len(),
            cv == cands.deep_view(),
            es == entries(cv, ms.deep_view()),
            forall|j: int| 0 <= j < cands.len() ==> (#[trigger] cands@[j]).page < bundle.len() && cands@[j].path.len() > 0,
            tree is Root,
            wf(tree),
            forall|q: Seq<Seq<char>>| #[trigger] lookup(tree, q) == lookup_after(es.take(k as int), q),
        decreases cands.len() - k,
    {
        let ghost t1 = tree;
        let m = ms[k].duplicate();
        let res = tree.push(&cands[k].path, m);
        proof {
            assert(cands@[k as int].path.len() > 0);
            assert(res.is_ok());
            assert(es[k as int] == (cands@[k as int].path.deep_view(), ms@[k as int].deep_view()));
            lemma_lookup_after_push(t1, tree, es.take(k as int), cands@[k as int].path.deep_view(), m.deep_view());
            assert(es.take(k as int).push(es[k as int]) =~= es.take(k + 1));
        }
        k = k + 1;
    }
    proof {
        assert(es.take(cands.len() as int) =~= es);
    }
    let root_path = make_root_metadata_path();
    let root_nodes = tree.get_metadata_from_path(&root_path);
    proof {
        assert forall|r: Seq<Seq<char>>| #[trigger] lookup(tree, r) == lookup_after(es, root_metadata_path().take(0) + r) by {
            assert(root_metadata_path().take(0) + r =~= r);
        }
        lemma_walk_by_lookup(tree, root_metadata_path(), 0, es);
        assert(root_metadata_path().skip(0) =~= root_metadata_path());
        assert(root_metadata_path().take(1) =~= root_metadata_path());
    }
    let root: Option<Metadata> = if root_nodes.len() == 1 {
        crate::pages::copy_opt_metadata(&root_nodes[0].metadata)
    } else {
        None
    };
    proof {
        let rp = root_metadata_path();
        assert(root_nodes.deep_view() == nodes_after(es, rp, 0));
        assert(nodes_after(es, rp, 1) =~= Seq::<(Seq<char>, Option<MetadataView>)>::empty());
        match lookup_after(es, rp) {
            Some(x) => {
                assert(nodes_after(es, rp, 0) =~= seq![(rp[0], x)]);
                assert(root_nodes.deep_view()[0] == (rp[0], x));
            },
            None => {
                assert(nodes_after(es, rp, 0).len() == 0);
            },
        }
    }
    let ghost sp = cv.map_values(|c: (usize, usize, Seq<Seq<char>>)| b[c.0 as int].path);
    let mut shadow_paths: Vec<Vec<String>> = Vec::new();
    let mut k: usize = 0;
    while k < cands.len()
        invariant
            k <= cands.len(),
            cv == cands.deep_view(),
            b == bundle.deep_view(),
            sp == cv.map_values(|c: (usize, usize, Seq<Seq<char>>)| b[c.0 as int].path),
            forall|j: int| 0 <= j < cands.len() ==> (#[trigger] cands@[j]).page < bundle.len() && cands@[j].path.len() > 0,
            shadow_paths.deep_view() == sp.take(k as int),
        decreases cands.len() - k,
    {
        let ghost before = shadow_paths;
        let path = copy_strings(&bundle[cands[k].page].path);
        shadow_paths.push(path);
        proof {
            lemma_push_deep_view(before, shadow_paths, path);
            assert(shadow_paths.deep_view() =~= sp.take(k + 1));
        }
        k = k + 1;
    }
    proof {
        assert(sp.take(cands.len() as int) =~= sp);
    }
    let ghost f = |p: PageView| !sp.contains(p.path);
    let ghost g = |p: PageView| shadowed_page(p, es);
    let mut out: Vec<Page> = Vec::new();
    let mut i: usize = 0;
    while i < bundle.len()
        invariant
            i <= bundle.len(),
            b == bundle.deep_view(),
            shadow_paths.deep_view() == sp,
            f == (|p: PageView| !sp.contains(p.path)),
            g == (|p: PageView| shadowed_page(p, es)),
            tree is Root,
            forall|q: Seq<Seq<char>>| #[trigger] lookup(tree, q) == lookup_after(es, q),
            root.deep_view() == root_metadata(es),
            out.deep_view() == b.take(i as int).filter(f).map_values(g),
        decreases bundle.len() - i,
    {
        proof {
            reveal_with_fuel(Seq::filter, 1);
            assert(b.take(i + 1).drop_last() =~= b.take(i as int));
        }
        if !contains_path(&shadow_paths, &bundle[i].path) {
            let ghost before = out;
            let p = shadow_one(&bundle[i], &tree, &root, Ghost(es));
            out.push(p);
            proof {
                lemma_push_deep_view(before, out, p);
                assert(b.take(i + 1).filter(f) == b.take(i as int).filter(f).push(b[i as int]));
                assert(out.deep_view() =~= b.take(i + 1).filter(f).map_values(g));
            }
        }
        i = i + 1;
    }
    proof {
        assert(b.take(bundle.len() as int) =~= b);
    }
    out
}

/// Whether `r` is an outcome of the loader of candidate `c` run on the page
/// of `c`.
pub open spec fn loads<L: ShadowLoader>(
    shadow: &ShadowPages<L>,
    bundle: &Vec<Page>,
    c: (usize, usize, Seq<Seq<char>>),
    r: Result<Metadata, PagesError>,
) -> bool {
    call_ensures(L::load, (&shadow.loaders@[c.1 as int].1, &bundle@[c.0 as int]), r)
}

/// The views of loaded metadata.
pub open spec fn metadata_views(ms: Seq<Metadata>) -> Seq<MetadataView> {
    Seq::new(ms.len(), |i: int| ms[i].deep_view())
}

/// Loads the metadata of each candidate on rayon's thread pool (`par_iter`,
/// `map`, `collect` into a `Result`), each with its loader. Claimed of rayon:
/// on success there is one metadata per candidate, in candidate order, each
/// an outcome of that candidate's load; on failure the error is the error of
/// one of the loads. What the loaders return is not stated: they read page
/// content.
#[verifier::external_body]
fn load_all<L: ShadowLoader>(shadow: &ShadowPages<L>, bundle: &Vec<Page>, cands: &Vec<MetadataCandidate>) -> (r: Result<Vec<Metadata>, PagesError>)
    requires
        forall|k: int| 0 <= k < cands.len() ==> (#[trigger] cands@[k]).page < bundle.len() && cands@[k].loader < shadow.loaders.len(),
    ensures
        r.is_ok() ==> r.unwrap().len() == cands.len(),
        r.is_ok() ==> forall|k: int| 0 <= k < cands.len() ==> loads(shadow, bundle, #[trigger] cands.deep_view()[k], Ok(r.unwrap()@[k])),
        r.is_err() ==> exists|k: int| 0 <= k < cands.len() && loads(shadow, bundle, #[trigger] cands.deep_view()[k], Err(r->Err_0)),
{
    cands.par_iter().map(|c| shadow.load_candidate(bundle, c)).collect()
}

impl<L: ShadowLoader> ShadowPages<L> {
    /// Loads the metadata of a candidate with its loader, run on the
    /// candidate's page.
    pub fn load_candidate(&self, bundle: &Vec<Page>, c: &MetadataCandidate) -> (r: Result<Metadata, PagesError>)
        requires
            c.page < bundle.len(),
            c.loader < self.loaders.len(),
        ensures
            call_ensures(L::load, (&self.loaders@[c.loader as int].1, &bundle@[c.page as int]), r),
    {
        self.loaders[c.loader].1.load(&bundle[c.page])
    }

    /// Runs the stage: finds the shadow candidates, loads their metadata
    /// (failing where a loader fails) and applies it. Whatever the loaders
    /// return, the output is [`shadow_output`] of the bundle, the candidates
    /// and the loaded metadata.
    pub fn process(&self, bundle: &Vec<Page>) -> (r: Result<(Vec<Page>, ProcessingResult), PagesError>)
        ensures
            r.is_ok() ==> exists|ms: Seq<Metadata>|
                ms.len() == retained_candidates(bundle.deep_view(), self.exts()).len()
                && (forall|k: int| 0 <= k < ms.len() ==> loads(self, bundle, retained_candidates(bundle.deep_view(), self.exts())[k], Ok(#[trigger] ms[k])))
                && #[trigger] shadow_output(bundle.deep_view(), retained_candidates(bundle.deep_view(), self.exts()), metadata_views(ms))
                    == r.unwrap().0.deep_view(),
            r.is_err() ==> exists|k: int| 0 <= k < retained_candidates(bundle.deep_view(), self.exts()).len()
                && loads(self, bundle, #[trigger] retained_candidates(bundle.deep_view(), self.exts())[k], Err(r->Err_0)),
            r.is_ok() ==> r.unwrap().1.stage_name@ == self.name@ && r.unwrap().1.sub_results@.len() == 0,
            retained_candidates(bundle.deep_view(), self.exts()).len() == 0 ==> r.is_ok(),
    {
        let start = now_millis();
        let cands = self.candidates(bundle);
        proof {
            lemma_retained_valid(bundle.deep_view(), self.exts());
            assert forall|k: int| 0 <= k < cands.len() implies (#[trigger] cands@[k]).page < bundle.len() && cands@[k].loader < self.loaders.len()
                && cands@[k].path.len() > 0 by {
                assert(cands.deep_view()[k] == (cands@[k].page, cands@[k].loader, cands@[k].path.deep_view()));
            }
        }
        let ms = if cands.len() == 0 {
            Vec::new()
        } else {
            match load_all(self, bundle, &cands) {
                Ok(ms) => ms,
                Err(e) => return Err(e),
            }
        };
        let out = apply_shadow_metadata(bundle, &cands, &ms);
        proof {
            assert(metadata_views(ms@) =~= ms.deep_view());
            assert(forall|k: int| 0 <= k < ms@.len() ==> loads(self, bundle, cands.deep_view()[k], Ok(#[trigger] ms@[k])));
        }
        Ok((out, leaf_result(self.name(), start)))
    }

    /// The extensions of the loaders, in order.
    pub open spec fn exts(&self) -> Seq<Seq<char>> {
        self.loaders@.map_values(|e: (String, L)| e.0@)
    }

    /// Builds the stage.
    pub fn new(name: String, loaders: Vec<(String, L)>) -> (r: ShadowPages<L>)
        ensures
            r.name == name,
            r.loaders == loaders,
    {
        ShadowPages { name, loaders }
    }

    /// The name of the stage.
    pub fn name(&self) -> (r: String)
        ensures
            r@ == self.name@,
    {
        copy_string(&self.name)
    }

    /// Returns the shadow candidates of a bundle: for each page (in order)
    /// and each loader (in order) whose extension ends the page's last
    /// segment, the page, the loader and the described path; kept only where
    /// the described path is `pages` or a prefix of the path of a page.
    pub fn candidates(&self, bundle: &Vec<Page>) -> (r: Vec<MetadataCandidate>)
        ensures
            r.deep_view() == retained_candidates(bundle.deep_view(), self.exts()),
    {
        let ghost b = bundle.deep_view();
        let ghost exts = self.exts();
        let mut all: Vec<MetadataCandidate> = Vec::new();
        let mut i: usize = 0;
        proof {
            assert(all.deep_view() =~= all_candidates(b, exts, 0));
        }
        while i < bundle.len()
            invariant
                i <= bundle.len(),
                b == bundle.deep_view(),
                exts == self.exts(),
                all.deep_view() == all_candidates(b, exts, i as int),
            decreases bundle.len() - i,
        {
            let path = &bundle[i].path;
            let mut j: usize = 0;
            proof {
                assert(all_candidates(b, exts, i + 1) == all.deep_view() + page_candidates(i as int, b[i as int].path, exts, 0));
            }
            if path.len() > 0 {
                while j < self.loaders.len()
                    invariant
                        i < bundle.len(),
                        j <= self.loaders.len(),
                        b == bundle.deep_view(),
                        exts == self.exts(),
                        path.deep_view() == b[i as int].path,
                        path.len() > 0,
                        all_candidates(b, exts, i + 1) == all.deep_view() + page_candidates(i as int, b[i as int].path, exts, j as int),
                    decreases self.loaders.len() - j,
                {
                    let ext = &self.loaders[j].0;
                    proof {
                        assert(exts[j as int] == ext@);
                    }
                    let last = path.len() - 1;
                    if ends_with(path[last].as_str(), ext.as_str()) {
                        let n = chars_of(ext.as_str()).len();
                        let c = MetadataCandidate { page: i, loader: j, path: strip_last_segment(path, n) };
                        let ghost before = all;
                        all.push(c);
                        proof {
                            lemma_push_deep_view(before, all, c);
                            assert(all.deep_view() + page_candidates(i as int, b[i as int].path, exts, j + 1)
                                =~= before.deep_view() + page_candidates(i as int, b[i as int].path, exts, j as int));
                        }
                    }
                    j = j + 1;
                }
            }
            proof {
                assert(page_candidates(i as int, b[i as int].path, exts, j as int) =~= Seq::<(usize, usize, Seq<Seq<char>>)>::empty());
                assert(all.deep_view() =~= all_candidates(b, exts, i + 1));
            }
            i = i + 1;
        }
        let root = make_root_metadata_path();
        let ghost f = |c: (usize, usize, Seq<Seq<char>>)| c.2 == root_metadata_path() || covered(b, c.2);
        let ghost allv = all.deep_view();
        let mut r: Vec<MetadataCandidate> = Vec::new();
        let mut k: usize = 0;
        while k < all.len()
            invariant
                k <= all.len(),
                allv == all.deep_view(),
                b == bundle.deep_view(),
                root.deep_view() == root_metadata_path(),
                f == (|c: (usize, usize, Seq<Seq<char>>)| c.2 == root_metadata_path() || covered(b, c.2)),
                r.deep_view() == allv.take(k as int).filter(f),
            decreases all.len() - k,
        {
            proof {
                reveal_with_fuel(Seq::filter, 1);
                assert(allv.take(k + 1).drop_last() =~= allv.take(k as int));
            }
            let keep = crate::strings::paths_equal(&all[k].path, &root) || is_covered(bundle, &all[k].path);
            if keep {
                let c = MetadataCandidate { page: all[k].page, loader: all[k].loader, path: copy_strings(&all[k].path) };
                let ghost before = r;
                r.push(c);
                proof {
                    lemma_push_deep_view(before, r, c);
                }
            }
            k = k + 1;
        }
        proof {
            assert(allv.take(all.len() as int) =~= allv);
        }
        r
    }
}

} // verus!
