//! What holds of the stages and their parts whatever the bundle: how stages
//! compose, what a stage keeps or removes, what a metadata tree reads back,
//! and how asset pages split the pages they list.
use vstd::prelude::*;
use crate::errors::PagesError;
use crate::assets::{Group, group_selections, lemma_slice_start, slice_count, slice_selection};
use crate::bundle::{paths_of, prefixed, remaining};
use crate::hbs::{
    HandlebarsDirResult, HandlebarsLookupResult, TemplateAsset, fetched_pages, found_output, handlebars_output, hbs_output, hbs_page, is_raw,
    lookup_answers, lookup_runs, template_asset_page,
};
use crate::pages::Page;
use crate::npm::{lemma_add_new_no_duplicates, new_dirs};
use crate::paths::{lemma_moved_len, path_candidates, path_keepers, path_output, pattern_of};
use crate::templates::{page_template, tpl_candidates};
use crate::pages::AssetSelectionView;
use crate::queries::{BundlePagination, BundleQuery, date_ordered, lemma_by_date, paginate, query_all, query_matches};
use crate::metadata::{merge_view, merge_author, union_seq, data_union};
use crate::metadata_tree::{MetadataTree, lemma_lookup_after_push, lookup, lookup_after, walk, nodes_on_path, pushed, child_of, subs_of, metadata_of};
use crate::md::md_page;
use crate::pages::{AuthorView, MetadataView, PageView, empty_metadata_view};
use crate::selectors::Selector;
use crate::shadow::{all_candidates, page_candidates, retained_candidates, shadow_output};
use crate::strings::ends_with_spec;
use crate::stages::{
    ComposeStage, ComposeUnit, CopyCut, CustomStage, Stage, UnionStage, compose_errs, compose_runs, stage_errs, union_errs, unit_errs, compose_stage_runs, compose_replaced,
    copy_cut_output, lemma_compose_stage_fold, lemma_compose_stage_unfold, lemma_sequence_step, lemma_sequence_unfold, output_of, sequence_runs, stage_runs, unit_replaced,
};

verus! {

broadcast use vstd::seq_lib::group_filter_ensures;

/// A union can give the same outcomes whether its stages run on a thread
/// pool or one after the other.
pub proof fn union_output_ignores_parallelism<U: CustomStage>(u1: UnionStage<U>, u2: UnionStage<U>, b: Seq<PageView>, out: Option<Seq<PageView>>)
    requires
        u1.stages@ == u2.stages@,
    ensures
        stage_runs(Stage::Union(u1), b, out) == stage_runs(Stage::Union(u2), b, out),
{
}

/// A composition can give the same outcomes whether its units run on a
/// thread pool or one after the other.
pub proof fn compose_output_ignores_parallelism<U: CustomStage>(c1: ComposeStage<U>, c2: ComposeStage<U>, b: Seq<PageView>, out: Option<Seq<PageView>>)
    requires
        c1.units@ == c2.units@,
    ensures
        stage_runs(Stage::Compose(c1), b, out) == stage_runs(Stage::Compose(c2), b, out),
{
}

/// What running the stages `c` can give after an outcome `m` of earlier
/// stages: a failure stays a failure.
pub open spec fn then_runs<U: CustomStage>(m: Option<Seq<PageView>>, c: Seq<Stage<U>>, out: Option<Seq<PageView>>) -> bool {
    match m {
        Some(x) => sequence_runs(c, x, out),
        None => out is None,
    }
}

/// Running the stages `a` then the stages `c` in one sequence can give
/// exactly what running the sequence `a`, then the sequence `c` on its
/// output, can give.
pub proof fn sequence_of_concatenated_stages<U: CustomStage>(a: Seq<Stage<U>>, c: Seq<Stage<U>>, b: Seq<PageView>, out: Option<Seq<PageView>>)
    ensures
        sequence_runs(a + c, b, out) == exists|m: Option<Seq<PageView>>| #[trigger] sequence_runs(a, b, m) && then_runs(m, c, out),
    decreases a.len(),
{
    if a.len() == 0 {
        assert(a + c =~= c);
        if sequence_runs(a + c, b, out) {
            assert(sequence_runs(a, b, Some(b)) && then_runs(Some(b), c, out));
        }
    } else {
        let ac = a + c;
        let a1 = a.subrange(1, a.len() as int);
        assert(ac[0] == a[0]);
        assert(ac.subrange(1, ac.len() as int) =~= a1 + c);
        if sequence_runs(ac, b, out) {
            lemma_sequence_unfold(ac, b, out);
            if out is None && stage_runs(ac[0], b, None) {
                assert(sequence_runs(a, b, None) && then_runs(None::<Seq<PageView>>, c, out));
            } else {
                let x = choose|x: Seq<PageView>| #![trigger output_of(x)]
                    stage_runs(ac[0], b, output_of(x)) && sequence_runs(ac.subrange(1, ac.len() as int), x, out);
                sequence_of_concatenated_stages(a1, c, x, out);
                let m = choose|m: Option<Seq<PageView>>| #[trigger] sequence_runs(a1, x, m) && then_runs(m, c, out);
                lemma_sequence_step(a, b, x, m);
                assert(sequence_runs(a, b, m) && then_runs(m, c, out));
            }
        }
        if exists|m: Option<Seq<PageView>>| #[trigger] sequence_runs(a, b, m) && then_runs(m, c, out) {
            let m = choose|m: Option<Seq<PageView>>| #[trigger] sequence_runs(a, b, m) && then_runs(m, c, out);
            lemma_sequence_unfold(a, b, m);
            if m is None && stage_runs(a[0], b, None) {
                assert(out is None);
                assert(sequence_runs(ac, b, out));
            } else {
                let x = choose|x: Seq<PageView>| #![trigger output_of(x)]
                    stage_runs(a[0], b, output_of(x)) && sequence_runs(a1, x, m);
                sequence_of_concatenated_stages(a1, c, x, out);
                assert(sequence_runs(a1, x, m) && then_runs(m, c, out));
                assert(sequence_runs(a1 + c, x, out));
                lemma_sequence_step(ac, b, x, out);
            }
        }
    }
}

/// After an ignore stage no page is one its selector chooses, and every page
/// comes from the input.
pub proof fn ignored_pages_are_gone(name: String, selector: Selector, b: Seq<PageView>)
    ensures
        forall|i: int| 0 <= i < copy_cut_output(CopyCut::Ignore { name, selector }, b).len() ==> {
            let q = #[trigger] copy_cut_output(CopyCut::Ignore { name, selector }, b)[i];
            !selector.selects(q) && b.contains(q)
        },
{
    let out = copy_cut_output(CopyCut::Ignore { name, selector }, b);
    let sel = selector.filter(b);
    let paths = paths_of(sel);
    assert forall|i: int| 0 <= i < out.len() implies {
        let q = #[trigger] out[i];
        !selector.selects(q) && b.contains(q)
    } by {
        let q = out[i];
        assert(!paths.contains(q.path));
        assert(out.contains(q));
        b.lemma_filter_contains_rev(|p: PageView| !paths.contains(p.path), q);
        assert(b.contains(q));
        if selector.selects(q) {
            let k = choose|k: int| 0 <= k < b.len() && b[k] == q;
            b.lemma_filter_contains(|p: PageView| selector.selects(p), k);
            let j = choose|j: int| 0 <= j < sel.len() && sel[j] == q;
            assert(paths[j] == q.path);
        }
    }
}

/// A copy stage moves every page under its prefix and keeps everything else
/// of it.
pub proof fn copy_stage_prefixes_every_page(prefix: Seq<Seq<char>>, b: Seq<PageView>)
    ensures
        prefixed(b, prefix).len() == b.len(),
        forall|i: int| 0 <= i < b.len() ==> #[trigger] prefixed(b, prefix)[i] == b[i].with_path(prefix + b[i].path),
{
}

/// A copy/cut stage that copies keeps the input bundle as it is, before the
/// copies.
pub proof fn copy_keeps_the_input(name: String, selector: Selector, dest: Vec<String>, b: Seq<PageView>)
    ensures
        copy_cut_output(CopyCut::Copy { name, selector, dest }, b).take(b.len() as int) == b,
{
    assert(copy_cut_output(CopyCut::Copy { name, selector, dest }, b).take(b.len() as int) =~= b);
}

/// A filter that keeps everything keeps the sequence as it is.
proof fn lemma_filter_all<A>(s: Seq<A>, f: spec_fn(A) -> bool)
    requires
        forall|x: A| #[trigger] f(x),
    ensures
        s.filter(f) == s,
    decreases s.len(),
{
    reveal_with_fuel(Seq::filter, 1);
    if s.len() > 0 {
        lemma_filter_all(s.drop_last(), f);
        assert(s.drop_last().push(s.last()) =~= s);
    }
}

/// Units that only create new sets replace no path.
proof fn lemma_new_sets_replace_nothing<U: CustomStage>(us: Seq<ComposeUnit<U>>, b: Seq<PageView>)
    requires
        forall|i: int| 0 <= i < us.len() ==> #[trigger] us[i] is CreateNewSet,
    ensures
        compose_replaced(us, b) == Seq::<Seq<Seq<char>>>::empty(),
    decreases us.len(),
{
    if us.len() > 0 {
        lemma_new_sets_replace_nothing(us.drop_last(), b);
        assert(us.last() is CreateNewSet);
        assert(unit_replaced(us.last(), b) == Seq::<Seq<Seq<char>>>::empty());
        assert(compose_replaced(us, b) =~= Seq::<Seq<Seq<char>>>::empty());
    }
}

/// A composition of units that only create new sets keeps the whole input
/// bundle, after the new pages.
pub proof fn new_sets_keep_the_input<U: CustomStage>(c: ComposeStage<U>, b: Seq<PageView>, out: Option<Seq<PageView>>)
    requires
        forall|i: int| 0 <= i < c.units@.len() ==> #[trigger] c.units@[i] is CreateNewSet,
    ensures
        stage_runs(Stage::Compose(c), b, out) == match out {
            Some(o) => exists|x: Seq<PageView>| compose_runs(c.units@, b, Some(x)) && o == x + b,
            None => compose_runs(c.units@, b, None),
        },
{
    lemma_new_sets_replace_nothing(c.units@, b);
    let f = |p: PageView| !Seq::<Seq<Seq<char>>>::empty().contains(p.path);
    lemma_filter_all(b, f);
    assert(remaining(b, Seq::<Seq<Seq<char>>>::empty()) == b);
    assert(remaining(b, compose_replaced(c.units@, b)) == b);
    assert(stage_runs(Stage::Compose(c), b, out) == compose_stage_runs(c.units@, b, out));
    if out is None {
        assert(compose_stage_runs(c.units@, b, None) == compose_runs(c.units@, b, None));
    }
    if out is Some {
        let o = out->0;
        if stage_runs(Stage::Compose(c), b, out) {
            lemma_compose_stage_unfold(c.units@, b, o);
            let x = choose|x: Seq<PageView>| #![trigger x + remaining(b, compose_replaced(c.units@, b))]
                compose_runs(c.units@, b, Some(x)) && o == x + remaining(b, compose_replaced(c.units@, b));
            assert(compose_runs(c.units@, b, Some(x)) && o == x + b);
        }
        if exists|x: Seq<PageView>| compose_runs(c.units@, b, Some(x)) && o == x + b {
            let x = choose|x: Seq<PageView>| compose_runs(c.units@, b, Some(x)) && o == x + b;
            lemma_compose_stage_fold(c.units@, b, x);
            assert(stage_runs(Stage::Compose(c), b, out));
        }
    }
}

/// The bundle that the markdown stage makes.
pub open spec fn md_bundle(b: Seq<PageView>) -> Seq<PageView> {
    b.map_values(|p: PageView| md_page(p))
}

/// The markdown stage keeps the number of pages, their metadata and the
/// depth of their paths.
pub proof fn markdown_keeps_pages_and_metadata(b: Seq<PageView>)
    ensures
        md_bundle(b).len() == b.len(),
        forall|i: int| 0 <= i < b.len() ==> (#[trigger] md_bundle(b)[i]).metadata == b[i].metadata
            && md_bundle(b)[i].path.len() == b[i].path.len(),
{
}

/// Completing metadata with empty metadata changes nothing.
pub proof fn merging_with_empty_metadata_is_identity(m: MetadataView)
    ensures
        merge_view(m, empty_metadata_view()) == m,
{
    let e = empty_metadata_view();
    assert(m.authors.map_values(|a: AuthorView| merge_author(a, e.authors)) =~= m.authors);
    assert(union_seq(m.tags, e.tags) =~= m.tags);
    assert(data_union(m.data, e.data) =~= m.data);
}

/// A walk down a path whose lookup succeeds meets one node per segment, the
/// last one holding what the lookup finds.
proof fn lemma_walk_of_found_path(t: MetadataTree, p: Seq<Seq<char>>)
    requires
        p.len() > 0,
        lookup(t, p) is Some,
    ensures
        walk(t, p).len() == p.len(),
        walk(t, p).last() == (p.last(), lookup(t, p).unwrap()),
    decreases p.len(),
{
    let c = child_of(subs_of(t), p[0]).unwrap();
    assert(lookup(t, p) == lookup(c, p.drop_first()));
    assert(walk(t, p) == seq![(p[0], metadata_of(c))] + walk(c, p.drop_first()));
    if p.len() == 1 {
        assert(p.drop_first().len() == 0);
        assert(walk(c, p.drop_first()) == Seq::<(Seq<char>, Option<MetadataView>)>::empty());
        assert(lookup(c, p.drop_first()) == Some(metadata_of(c)));
        assert(walk(t, p) =~= seq![(p[0], metadata_of(c))]);
    } else {
        lemma_walk_of_found_path(c, p.drop_first());
        assert(p.drop_first().last() == p.last());
    }
}

/// What is pushed at a path of a tree is read back there: the nodes met on
/// the way down the path end with the pushed metadata, one node per segment
/// below the root.
pub proof fn metadata_tree_reads_back_what_was_pushed(before: MetadataTree, after: MetadataTree, p: Seq<Seq<char>>, m: MetadataView)
    requires
        after is Root,
        p.len() > 0,
        pushed(before, after, p, m),
    ensures
        nodes_on_path(after, p).len() == p.len(),
        nodes_on_path(after, p).last() == (p.last(), Some(m)),
{
    lemma_walk_of_found_path(after, p);
}

/// A walk down a path whose lookup succeeds names each node it meets by the
/// segment of the path that leads to it.
proof fn lemma_walk_names(t: MetadataTree, p: Seq<Seq<char>>)
    requires
        lookup(t, p) is Some,
    ensures
        walk(t, p).len() == p.len(),
        forall|i: int| 0 <= i < p.len() ==> (#[trigger] walk(t, p)[i]).0 == p[i],
    decreases p.len(),
{
    if p.len() > 0 {
        let c = child_of(subs_of(t), p[0]).unwrap();
        assert(lookup(t, p) == lookup(c, p.drop_first()));
        lemma_walk_names(c, p.drop_first());
        let w = walk(t, p);
        assert(w == seq![(p[0], metadata_of(c))] + walk(c, p.drop_first()));
        assert forall|i: int| 0 <= i < p.len() implies (#[trigger] w[i]).0 == p[i] by {
            if i > 0 {
                assert(w[i] == walk(c, p.drop_first())[i - 1]);
                assert(p.drop_first()[i - 1] == p[i]);
            }
        }
    }
}

/// In a tree built by pushing entries into an empty root, a path pushed
/// and not pushed again later holds what was pushed there.
proof fn lemma_lookup_after_found(es: Seq<(Seq<Seq<char>>, MetadataView)>, k: int)
    requires
        0 <= k < es.len(),
        forall|j: int| k < j < es.len() ==> (#[trigger] es[j]).0 != es[k].0,
    ensures
        lookup_after(es, es[k].0) == Some(Some(es[k].1)),
    decreases es.len(),
{
    if k < es.len() - 1 {
        let d = es.drop_last();
        assert(d[k] == es[k]);
        assert forall|j: int| k < j < d.len() implies (#[trigger] d[j]).0 != d[k].0 by {
            assert(d[j] == es[j]);
        }
        lemma_lookup_after_found(d, k);
        assert(es.last() == es[es.len() - 1]);
    }
}

/// After a tree is built by pushes into an empty root, a path that was
/// pushed, and not pushed again later, reads back what was pushed there:
/// the nodes met on the way down are named by the path's segments, one per
/// segment, and the last holds the pushed metadata.
pub proof fn metadata_tree_reads_back_after_later_pushes(t: MetadataTree, es: Seq<(Seq<Seq<char>>, MetadataView)>, k: int)
    requires
        t is Root,
        forall|q: Seq<Seq<char>>| #[trigger] lookup(t, q) == lookup_after(es, q),
        0 <= k < es.len(),
        es[k].0.len() > 0,
        forall|j: int| k < j < es.len() ==> (#[trigger] es[j]).0 != es[k].0,
    ensures
        nodes_on_path(t, es[k].0).len() == es[k].0.len(),
        forall|i: int| 0 <= i < es[k].0.len() ==> (#[trigger] nodes_on_path(t, es[k].0)[i]).0 == es[k].0[i],
        nodes_on_path(t, es[k].0).last() == (es[k].0.last(), Some(es[k].1)),
{
    let p = es[k].0;
    lemma_lookup_after_found(es, k);
    assert(lookup(t, p) == Some(Some(es[k].1)));
    lemma_walk_names(t, p);
    lemma_walk_of_found_path(t, p);
}


/// A tree built by pushes into an empty root (each `ts[i + 1]` being what a
/// successful push of the entry `es[i]` made of `ts[i]`) answers every
/// lookup as [`lookup_after`] of the pushed entries says.
pub proof fn pushes_into_an_empty_root_answer_as_lookup_after(ts: Seq<MetadataTree>, es: Seq<(Seq<Seq<char>>, MetadataView)>)
    requires
        ts.len() == es.len() + 1,
        ts[0] is Root,
        subs_of(ts[0]).len() == 0,
        forall|i: int| #![trigger es[i]] 0 <= i < es.len() ==> pushed(ts[i], ts[i + 1], es[i].0, es[i].1),
    ensures
        forall|q: Seq<Seq<char>>| #[trigger] lookup(ts.last(), q) == lookup_after(es, q),
    decreases es.len(),
{
    if es.len() == 0 {
        assert forall|q: Seq<Seq<char>>| #[trigger] lookup(ts.last(), q) == lookup_after(es, q) by {
            assert(ts.last() == ts[0]);
            if q.len() > 0 {
                assert(child_of(subs_of(ts[0]), q[0]) is None);
            }
        }
    } else {
        let n = es.len() - 1;
        assert forall|i: int| #![trigger es.drop_last()[i]] 0 <= i < es.drop_last().len() implies pushed(
            ts.drop_last()[i],
            ts.drop_last()[i + 1],
            es.drop_last()[i].0,
            es.drop_last()[i].1,
        ) by {
            assert(es[i] == es.drop_last()[i]);
        }
        pushes_into_an_empty_root_answer_as_lookup_after(ts.drop_last(), es.drop_last());
        assert(es[n] == es.last());
        assert(ts.drop_last().last() == ts[n]);
        lemma_lookup_after_push(ts[n], ts.last(), es.drop_last(), es.last().0, es.last().1);
        assert(es.drop_last().push(es.last()) =~= es);
    }
}

/// After pushes into an empty root, a path that was pushed, and not pushed
/// again later, reads back what was pushed there: the nodes met on the way
/// down are named by the path's segments, one per segment, and the last
/// holds the pushed metadata.
pub proof fn metadata_tree_reads_back_after_pushes(ts: Seq<MetadataTree>, es: Seq<(Seq<Seq<char>>, MetadataView)>, k: int)
    requires
        ts.len() == es.len() + 1,
        ts[0] is Root,
        subs_of(ts[0]).len() == 0,
        forall|i: int| #![trigger es[i]] 0 <= i < es.len() ==> pushed(ts[i], ts[i + 1], es[i].0, es[i].1),
        0 <= k < es.len(),
        es[k].0.len() > 0,
        forall|j: int| k < j < es.len() ==> (#[trigger] es[j]).0 != es[k].0,
    ensures
        nodes_on_path(ts.last(), es[k].0).len() == es[k].0.len(),
        forall|i: int| 0 <= i < es[k].0.len() ==> (#[trigger] nodes_on_path(ts.last(), es[k].0)[i]).0 == es[k].0[i],
        nodes_on_path(ts.last(), es[k].0).last() == (es[k].0.last(), Some(es[k].1)),
{
    pushes_into_an_empty_root_answer_as_lookup_after(ts, es);
    lemma_roots_stay_roots(ts, es, es.len() as int);
    metadata_tree_reads_back_after_later_pushes(ts.last(), es, k);
}

proof fn lemma_roots_stay_roots(ts: Seq<MetadataTree>, es: Seq<(Seq<Seq<char>>, MetadataView)>, n: int)
    requires
        ts.len() == es.len() + 1,
        ts[0] is Root,
        forall|i: int| #![trigger es[i]] 0 <= i < es.len() ==> pushed(ts[i], ts[i + 1], es[i].0, es[i].1),
        0 <= n <= es.len(),
    ensures
        ts[n] is Root,
    decreases n,
{
    if n > 0 {
        lemma_roots_stay_roots(ts, es, n - 1);
        assert(pushed(ts[n - 1], ts[n], es[n - 1].0, es[n - 1].1));
    }
}

/// The paths listed by selections, one selection after the other.
pub open spec fn listed_pages(sels: Seq<AssetSelectionView>) -> Seq<Seq<Seq<char>>>
    decreases sels.len(),
{
    if sels.len() == 0 {
        Seq::empty()
    } else {
        listed_pages(sels.drop_last()) + sels.last().pages
    }
}

/// The slices up to `k` list the matched pages up to where slice `k` starts.
proof fn lemma_slices_prefix(matched: Seq<PageView>, l: usize, g: Group, k: int)
    requires
        l > 0,
        matched.len() <= usize::MAX,
        0 <= k <= slice_count(matched.len(), l as nat),
    ensures
        k * l <= matched.len() ==> listed_pages(group_selections(matched, Some(l), g).take(k)) == paths_of(matched).take(k * l),
        k * l > matched.len() ==> listed_pages(group_selections(matched, Some(l), g).take(k)) == paths_of(matched),
    decreases k,
{
    let sels = group_selections(matched, Some(l), g);
    let len = matched.len() as int;
    let paths = paths_of(matched);
    if k == 0 {
        assert(k * l == 0) by (nonlinear_arith)
            requires
                k == 0,
        ;
        assert(sels.take(0) =~= Seq::<AssetSelectionView>::empty());
        assert(paths.take(0) =~= Seq::<Seq<Seq<char>>>::empty());
    } else {
        lemma_slices_prefix(matched, l, g, k - 1);
        assert(sels.take(k).drop_last() =~= sels.take(k - 1));
        vstd::arithmetic::div_mod::lemma_fundamental_div_mod(len, l as int);
        lemma_slice_start(k - 1, l as int, len, len / (l as int), len % (l as int));
        let s = (k - 1) * l;
        assert(s + l == k * l) by (nonlinear_arith)
            requires
                s == (k - 1) * l,
        ;
        assert(0 <= s <= len);
        let sel = sels[k - 1];
        assert(sel == slice_selection(matched, l, k - 1, g));
        let a = matched.skip(s);
        let e = if s + l <= len {
            s + l
        } else {
            len
        };
        if (l as int) <= a.len() {
            assert(paginate(matched, BundlePagination { skip: Some(s as usize), limit: Some(l) }) =~= matched.subrange(s, e));
        } else {
            assert(paginate(matched, BundlePagination { skip: Some(s as usize), limit: Some(l) }) =~= matched.subrange(s, e));
        }
        assert(sel.pages =~= paths.subrange(s, e));
        assert(sels.take(k).last() == sel);
        assert(listed_pages(sels.take(k)) == listed_pages(sels.take(k - 1)) + sel.pages);
        assert(listed_pages(sels.take(k - 1)) == paths.take(s));
        assert(paths.take(s) + paths.subrange(s, e) =~= paths.take(e));
        if e == len {
            assert(paths.take(e) =~= paths);
        }
        if k * l <= len {
            assert(e == k * l);
            assert(listed_pages(sels.take(k)) == paths.take(k * l));
        } else {
            assert(e == len);
            assert(listed_pages(sels.take(k)) == paths);
        }
    }
}

/// Splitting the matched pages of a group into slices of `l` pages lists
/// each matched page once, in order: the slices' pages put together are the
/// matched pages; each slice holds at most `l` pages and knows its number
/// and the number of the last slice.
pub proof fn slices_list_every_page_once(matched: Seq<PageView>, l: usize, g: Group)
    requires
        l > 0,
        matched.len() <= usize::MAX,
    ensures
        listed_pages(group_selections(matched, Some(l), g)) == paths_of(matched),
        forall|k: int| 0 <= k < group_selections(matched, Some(l), g).len() ==> {
            let s = #[trigger] group_selections(matched, Some(l), g)[k];
            &&& s.pages.len() <= l
            &&& s.index == k
            &&& s.last == group_selections(matched, Some(l), g).len() - 1
        },
{
    let sels = group_selections(matched, Some(l), g);
    let n = slice_count(matched.len(), l as nat);
    let len = matched.len() as int;
    lemma_slices_prefix(matched, l, g, n as int);
    assert(sels.take(n as int) =~= sels);
    vstd::arithmetic::div_mod::lemma_fundamental_div_mod(len, l as int);
    let q = len / (l as int);
    let rem = len % (l as int);
    assert(n * l >= len) by (nonlinear_arith)
        requires
            len == (l as int) * q + rem,
            0 <= rem < l,
            n == (if rem == 0 { q } else { q + 1 }),
            l > 0,
    ;
    if n * l == len {
        assert(paths_of(matched).take(len) =~= paths_of(matched));
    }
    assert forall|k: int| 0 <= k < sels.len() implies {
        let s = #[trigger] sels[k];
        &&& s.pages.len() <= l
        &&& s.index == k
        &&& s.last == sels.len() - 1
    } by {
        lemma_slice_start(k, l as int, len, q, rem);
        assert(k * l <= usize::MAX);
    }
}

/// A query lists the pages of a bundle that it matches, each as often as
/// the bundle holds it, newest first and undated pages last.
pub proof fn queries_list_matching_pages_newest_first(b: Seq<PageView>, q: BundleQuery)
    ensures
        date_ordered(query_all(b, q)),
        query_all(b, q).to_multiset() == b.filter(|p: PageView| query_matches(q, p)).to_multiset(),
{
    lemma_by_date(b.filter(|p: PageView| query_matches(q, p)));
}


/// A template stage keeps every raw page as it is, and keeps or renders no
/// more pages than it is given.
pub proof fn template_stage_keeps_raw_pages(names: Seq<Seq<char>>, b: Seq<PageView>)
    ensures
        hbs_output(names, b).len() <= b.len(),
        forall|i: int| 0 <= i < b.len() && is_raw(#[trigger] b[i]) ==> hbs_output(names, b).contains(b[i]),
    decreases b.len(),
{
    if b.len() > 0 {
        let rest = b.drop_last();
        template_stage_keeps_raw_pages(names, rest);
        let prev = hbs_output(names, rest);
        assert forall|i: int| 0 <= i < b.len() && is_raw(#[trigger] b[i]) implies hbs_output(names, b).contains(b[i]) by {
            if i < b.len() - 1 {
                assert(rest[i] == b[i]);
                assert(prev.contains(b[i]));
                let j = choose|j: int| 0 <= j < prev.len() && prev[j] == b[i];
                if hbs_page(names, b.last()) is Some {
                    assert(hbs_output(names, b)[j] == b[i]);
                }
            } else {
                assert(hbs_output(names, b) == prev.push(b.last()));
                assert(hbs_output(names, b)[prev.len() as int] == b[i]);
            }
        }
    }
}

/// The pages with and without a path pattern make up the bundle.
proof fn lemma_partition_len(b: Seq<PageView>)
    ensures
        path_candidates(b).len() + path_keepers(b).len() == b.len(),
    decreases b.len(),
{
    reveal_with_fuel(Seq::filter, 1);
    if b.len() > 0 {
        lemma_partition_len(b.drop_last());
        assert(path_candidates(b.drop_last()) == b.drop_last().filter(|p: PageView| pattern_of(p) is Some));
        assert(path_keepers(b.drop_last()) == b.drop_last().filter(|p: PageView| pattern_of(p) is None));
    }
}

/// The path generator neither adds nor drops pages, and the pages without
/// a pattern come first, unchanged.
pub proof fn path_generator_keeps_every_page(b: Seq<PageView>, rendered: Seq<Seq<char>>)
    ensures
        path_output(b, rendered).len() == b.len(),
        path_output(b, rendered).take(path_keepers(b).len() as int) == path_keepers(b),
{
    lemma_moved_len(b, rendered);
    lemma_partition_len(b);
    assert(path_output(b, rendered).take(path_keepers(b).len() as int) =~= path_keepers(b));
}

/// The directories a build created are those listed after it and not
/// before, each once.
pub proof fn new_dirs_are_the_created_ones(pre: Seq<Seq<char>>, post: Seq<Seq<char>>)
    ensures
        new_dirs(pre, post).no_duplicates(),
        forall|x: Seq<char>| #[trigger] new_dirs(pre, post).contains(x) <==> (post.contains(x) && !pre.contains(x)),
{
    let f = |d: Seq<char>| !pre.contains(d);
    let fresh = post.filter(f);
    assert(Seq::<Seq<char>>::empty().no_duplicates());
    lemma_add_new_no_duplicates(Seq::empty(), fresh);
    assert forall|x: Seq<char>| #[trigger] new_dirs(pre, post).contains(x) <==> (post.contains(x) && !pre.contains(x)) by {
        if fresh.contains(x) {
            post.lemma_filter_contains_rev(f, x);
            let k = choose|k: int| 0 <= k < fresh.len() && fresh[k] == x;
            assert(f(fresh[k]));
        }
        if post.contains(x) && !pre.contains(x) {
            let k = choose|k: int| 0 <= k < post.len() && post[k] == x;
            post.lemma_filter_contains(f, k);
        }
    }
}

/// A page's own template wins: where the names hold
/// `<dir>/page.<page name>`, that is the template of the page.
pub proof fn own_page_template_wins(path: Seq<Seq<char>>, names: Seq<Seq<char>>)
    requires
        path.len() > 0,
        names.contains(tpl_candidates(path)[0]),
    ensures
        page_template(path, names) == Some(tpl_candidates(path)[0]),
{
}

proof fn lemma_fetched_by_names(names: Seq<Seq<char>>, b: Seq<PageView>, fv: Seq<Option<Seq<char>>>)
    requires
        forall|k: int| 0 <= k < b.len() && !is_raw(#[trigger] b[k]) ==> fv[k] == page_template(b[k].path, names),
    ensures
        fetched_pages(b, fv) == hbs_output(names, b),
    decreases b.len(),
{
    if b.len() > 0 {
        lemma_fetched_by_names(names, b.drop_last(), fv);
    }
}

/// The older template stage run with what a template directory's lookup
/// found gives what [`handlebars_output`] says: the kept and rendered pages,
/// then the static files, then the pages of the asset templates.
pub proof fn directory_lookups_run_as_handlebars_output(dir: HandlebarsDirResult, bundle: Seq<Page>, out: Seq<PageView>)
    requires
        lookup_runs(dir, bundle, out),
    ensures
        out == handlebars_output(dir, bundle.map_values(|p: Page| p.deep_view())),
{
    let b = bundle.map_values(|p: Page| p.deep_view());
    let (fs, a, t) = choose|fs: Seq<Option<String>>, a: Vec<Page>, t: Vec<TemplateAsset>|
        #[trigger] lookup_answers(dir, bundle, fs, a, t) && out == found_output(b, fs, a.deep_view(), t@);
    let fv = fs.map_values(|f: Option<String>| f.deep_view());
    assert forall|k: int| 0 <= k < b.len() && !is_raw(#[trigger] b[k]) implies fv[k] == page_template(b[k].path, dir.pages.deep_view()) by {
        assert(b[k] == bundle[k].deep_view());
        assert(call_ensures(HandlebarsDirResult::fetch, (&dir, &bundle[k]), fs[k]));
    }
    lemma_fetched_by_names(dir.pages.deep_view(), b, fv);
}

/// A union of stages fails only with the error of one of its stages,
/// whether they run in parallel or one after the other.
pub proof fn union_errors_come_from_its_stages<U: CustomStage>(ss: Seq<Stage<U>>, b: Seq<PageView>, e: PagesError, parallel: bool)
    requires
        union_errs(ss, b, e, parallel),
    ensures
        exists|i: int| 0 <= i < ss.len() && #[trigger] stage_errs(ss[i], b, e),
    decreases ss.len(),
{
    if union_errs(ss.drop_last(), b, e, parallel) {
        union_errors_come_from_its_stages(ss.drop_last(), b, e, parallel);
        let i = choose|i: int| 0 <= i < ss.drop_last().len() && #[trigger] stage_errs(ss.drop_last()[i], b, e);
        assert(ss.drop_last()[i] == ss[i]);
    } else {
        assert(stage_errs(ss[ss.len() - 1], b, e));
    }
}

/// A composition fails only with the error of one of its units, whether
/// they run in parallel or one after the other.
pub proof fn compose_errors_come_from_its_units<U: CustomStage>(us: Seq<ComposeUnit<U>>, b: Seq<PageView>, e: PagesError, parallel: bool)
    requires
        compose_errs(us, b, e, parallel),
    ensures
        exists|i: int| 0 <= i < us.len() && #[trigger] unit_errs(us[i], b, e),
    decreases us.len(),
{
    if compose_errs(us.drop_last(), b, e, parallel) {
        compose_errors_come_from_its_units(us.drop_last(), b, e, parallel);
        let i = choose|i: int| 0 <= i < us.drop_last().len() && #[trigger] unit_errs(us.drop_last()[i], b, e);
        assert(us.drop_last()[i] == us[i]);
    } else {
        assert(unit_errs(us[us.len() - 1], b, e));
    }
}

proof fn lemma_no_page_candidates(i: int, path: Seq<Seq<char>>, exts: Seq<Seq<char>>, j: int)
    requires
        path.len() > 0 ==> forall|l: int| 0 <= l < exts.len() ==> !ends_with_spec(path.last(), #[trigger] exts[l]),
    ensures
        page_candidates(i, path, exts, j).len() == 0,
    decreases exts.len() - j,
{
    if !(j < 0 || j >= exts.len() || path.len() == 0) {
        lemma_no_page_candidates(i, path, exts, j + 1);
    }
}

proof fn lemma_no_candidates(b: Seq<PageView>, exts: Seq<Seq<char>>, n: int)
    requires
        forall|k: int, l: int|
            0 <= k < b.len() && 0 <= l < exts.len() && b[k].path.len() > 0 ==> !#[trigger] ends_with_spec(b[k].path.last(), exts[l]),
    ensures
        all_candidates(b, exts, n).len() == 0,
    decreases n,
{
    if !(n <= 0 || n > b.len()) {
        lemma_no_candidates(b, exts, n - 1);
        lemma_no_page_candidates(n - 1, b[n - 1].path, exts, 0);
    }
}

/// A bundle in which no page's name ends with the extension of a loader has
/// no shadow files: the shadow stage keeps it as it is, each page in its
/// place with its path, metadata and content.
pub proof fn bundles_without_shadow_files_are_kept(b: Seq<PageView>, exts: Seq<Seq<char>>)
    requires
        forall|k: int, l: int|
            0 <= k < b.len() && 0 <= l < exts.len() && b[k].path.len() > 0 ==> !#[trigger] ends_with_spec(b[k].path.last(), exts[l]),
    ensures
        retained_candidates(b, exts).len() == 0,
        shadow_output(b, retained_candidates(b, exts), Seq::empty()) == b,
{
    lemma_no_candidates(b, exts, b.len() as int);
    let all = all_candidates(b, exts, b.len() as int);
    assert(all =~= Seq::empty());
    let cands = retained_candidates(b, exts);
    assert(cands.len() == 0) by {
        assert(cands.len() <= all.len());
    }
    let shadow_paths = cands.map_values(|c: (usize, usize, Seq<Seq<char>>)| b[c.0 as int].path);
    assert(shadow_paths =~= Seq::empty());
    let kept = b.filter(|p: PageView| !shadow_paths.contains(p.path));
    assert(kept =~= b) by {
        lemma_filter_all(b, |p: PageView| !shadow_paths.contains(p.path));
    }
    assert forall|k: int| 0 <= k < b.len() implies crate::shadow::shadowed_page(#[trigger] b[k], crate::shadow::entries(cands, Seq::empty())) == b[k] by {
        let es = crate::shadow::entries(cands, Seq::<MetadataView>::empty());
        assert(es =~= Seq::empty());
        assert(crate::metadata_tree::nodes_after(es, b[k].path, 0) =~= Seq::empty());
        assert(lookup_after(es, crate::shadow::root_metadata_path()) is None);
    }
    assert(shadow_output(b, cands, Seq::empty()) =~= b);
}

} // verus!
