//! Operations on bundles: ordered sequences of pages.
use vstd::prelude::*;
use crate::pages::{Page, PageView};
use crate::strings::{contains_path, copy_strings, join_paths, lemma_append_deep_view, lemma_push_deep_view};

verus! {

/// The paths of the pages of a bundle, in bundle order.
pub open spec fn paths_of(b: Seq<PageView>) -> Seq<Seq<Seq<char>>> {
    b.map_values(|p: PageView| p.path)
}

/// The pages of a bundle whose path is not among `paths`, in bundle order.
pub open spec fn remaining(b: Seq<PageView>, paths: Seq<Seq<Seq<char>>>) -> Seq<PageView> {
    b.filter(|p: PageView| !paths.contains(p.path))
}

/// The pages of a bundle, each moved under `prefix`.
pub open spec fn prefixed(b: Seq<PageView>, prefix: Seq<Seq<char>>) -> Seq<PageView> {
    b.map_values(|p: PageView| p.with_path(prefix + p.path))
}

/// Returns the paths of the pages of a bundle.
pub fn paths_of_pages(b: &Vec<Page>) -> (r: Vec<Vec<String>>)
    ensures
        r.deep_view() == paths_of(b.deep_view()),
{
    let mut r: Vec<Vec<String>> = Vec::new();
    let mut i: usize = 0;
    while i < b.len()
        invariant
            i <= b.len(),
            r.deep_view() == paths_of(b.deep_view().take(i as int)),
        decreases b.len() - i,
    {
        let ghost before = r;
        let p = copy_strings(&b[i].path);
        r.push(p);
        proof {
            lemma_push_deep_view(before, r, p);
            assert(r.deep_view() =~= paths_of(b.deep_view().take(i + 1)));
        }
        i = i + 1;
    }
    proof {
        assert(b.deep_view().take(b.len() as int) =~= b.deep_view());
    }
    r
}

/// Returns copies of the pages of a bundle whose path is not among `paths`.
pub fn remaining_pages(b: &Vec<Page>, paths: &Vec<Vec<String>>) -> (r: Vec<Page>)
    ensures
        r.deep_view() == remaining(b.deep_view(), paths.deep_view()),
{
    let ghost f = |p: PageView| !paths.deep_view().contains(p.path);
    let mut r: Vec<Page> = Vec::new();
    let mut i: usize = 0;
    while i < b.len()
        invariant
            i <= b.len(),
            f == (|p: PageView| !paths.deep_view().contains(p.path)),
            r.deep_view() == b.deep_view().take(i as int).filter(f),
        decreases b.len() - i,
    {
        proof {
            reveal_with_fuel(Seq::filter, 1);
            assert(b.deep_view().take(i + 1).drop_last() =~= b.deep_view().take(i as int));
        }
        if !contains_path(paths, &b[i].path) {
            let ghost before = r;
            let p = b[i].duplicate();
            r.push(p);
            proof {
                lemma_push_deep_view(before, r, p);
            }
        }
        i = i + 1;
    }
    proof {
        assert(b.deep_view().take(b.len() as int) =~= b.deep_view());
    }
    r
}

/// Returns copies of the pages of a bundle, each moved under `prefix`.
pub fn prefix_pages(b: &Vec<Page>, prefix: &Vec<String>) -> (r: Vec<Page>)
    ensures
        r.deep_view() == prefixed(b.deep_view(), prefix.deep_view()),
{
    let mut r: Vec<Page> = Vec::new();
    let mut i: usize = 0;
    while i < b.len()
        invariant
            i <= b.len(),
            r.deep_view() == prefixed(b.deep_view().take(i as int), prefix.deep_view()),
        decreases b.len() - i,
    {
        let ghost before = r;
        let p = b[i].change_path(join_paths(prefix, &b[i].path));
        r.push(p);
        proof {
            lemma_push_deep_view(before, r, p);
            assert(r.deep_view() =~= prefixed(b.deep_view().take(i + 1), prefix.deep_view()));
        }
        i = i + 1;
    }
    proof {
        assert(b.deep_view().take(b.len() as int) =~= b.deep_view());
    }
    r
}

/// Appends the pages of `other` to `b`.
pub fn append_pages(b: &mut Vec<Page>, other: Vec<Page>)
    ensures
        final(b).deep_view() == old(b).deep_view() + other.deep_view(),
{
    let ghost before = *b;
    let mut o = other;
    let ghost og = o;
    b.append(&mut o);
    proof {
        lemma_append_deep_view(before, og, *b);
    }
}

} // verus!
