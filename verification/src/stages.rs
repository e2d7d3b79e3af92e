//! Stages: the steps of a page pipeline, and the way they compose.
use vstd::prelude::*;
use rayon::iter::{IntoParallelRefIterator, ParallelIterator};
use crate::bundle::{
    append_pages, paths_of, paths_of_pages, prefix_pages, prefixed, remaining, remaining_pages,
};
use crate::errors::PagesError;
use crate::md::{convert_page, md_page};
use crate::pages::{Body, BodyView, Page, PageView, copy_pages};
use crate::indexes::{
    all_authors_json, all_authors_text, all_pages_json, all_pages_text, all_tags_json, all_tags_text,
    pages_by_author_json, pages_by_author_text, pages_by_tag_json, pages_by_tag_text,
};
use crate::selectors::Selector;
use crate::strings::{copy_string, lemma_push_deep_view};

verus! {

/// The current time, in milliseconds since the Unix epoch, as chrono's
/// `Utc::now().timestamp_millis()` gives it. Nothing is claimed of it.
#[verifier::external_body]
pub(crate) fn now_millis() -> i64 {
    chrono::Utc::now().timestamp_millis()
}

/// What a stage reports of a run: its name, when it started and ended, and
/// the reports of the stages it ran.
#[derive(Debug)]
pub struct ProcessingResult {
    pub stage_name: String,
    pub start: i64,
    pub end: i64,
    pub sub_results: Vec<ProcessingResult>,
}

/// Moves every page of a bundle under a prefix.
#[derive(Debug)]
pub struct CopyStage {
    pub name: String,
    pub prefix: Vec<String>,
}

/// Copies, moves or drops the pages that a selector chooses.
#[derive(Debug)]
pub enum CopyCut {
    /// Keeps every page and adds a copy of each selected page under `dest`.
    Copy { name: String, selector: Selector, dest: Vec<String> },
    /// Moves each selected page under `dest`; pages at a selected path are removed.
    Move { name: String, selector: Selector, dest: Vec<String> },
    /// Removes the pages at a selected path.
    Ignore { name: String, selector: Selector },
}

/// A stage that users of the library write themselves, such as one that
/// reads a repository or a template directory. Nothing is claimed of what
/// it makes of a bundle: a run gives whatever its `process` returns (see
/// [`custom_runs`]).
pub trait CustomStage: Send + Sync {
    /// The name of the stage.
    fn name(&self) -> String;

    /// Runs the stage on a bundle.
    fn process(&self, bundle: &Vec<Page>) -> Result<(Vec<Page>, ProcessingResult), PagesError>;
}

/// Keeps a bundle and appends what an inner stage makes of it.
#[derive(Debug)]
pub struct AppendStage<U> {
    pub name: String,
    pub inner: Box<Stage<U>>,
}

/// Runs several stages on the same bundle and gathers their outputs.
#[derive(Debug)]
pub struct UnionStage<U> {
    pub name: String,
    pub stages: Vec<Stage<U>>,
    pub parallel: bool,
}

/// Runs an inner stage on the selected pages and puts its output in their place.
#[derive(Debug)]
pub struct ReplaceStage<U> {
    pub name: String,
    pub inner: Box<Stage<U>>,
    pub selector: Selector,
}

/// A part of a composition.
#[derive(Debug)]
pub enum ComposeUnit<U> {
    /// Adds the output of a stage run on the whole bundle.
    CreateNewSet(Stage<U>),
    /// Replaces the selected pages by the output of a stage run on them.
    ReplaceSubSet(Selector, Stage<U>),
}

/// Gathers the outputs of its units and the pages that no unit replaced.
#[derive(Debug)]
pub struct ComposeStage<U> {
    pub name: String,
    pub units: Vec<ComposeUnit<U>>,
    pub parallel: bool,
}

/// Runs stages one after the other, each on the output of the previous one.
#[derive(Debug)]
pub struct SequenceStage<U> {
    pub name: String,
    pub stages: Vec<Stage<U>>,
}

/// Converts markdown pages to HTML.
#[derive(Debug)]
pub struct MdStage {
    pub name: String,
}

/// Produces the index pages of the output bundle.
#[derive(Debug)]
pub struct IndexStage {
    pub name: String,
}

/// A stage of a pipeline: one of the library's, or a stage `U` that the
/// user wrote.
#[derive(Debug)]
pub enum Stage<U> {
    Copy(CopyStage),
    CopyCut(CopyCut),
    Append(AppendStage<U>),
    Union(UnionStage<U>),
    Replace(ReplaceStage<U>),
    Compose(ComposeStage<U>),
    Sequence(SequenceStage<U>),
    Md(MdStage),
    Index(IndexStage),
    Custom(U),
}

/// The name of a copy/cut stage.
pub open spec fn copy_cut_name(c: CopyCut) -> Seq<char> {
    match c {
        CopyCut::Copy { name, .. } => name@,
        CopyCut::Move { name, .. } => name@,
        CopyCut::Ignore { name, .. } => name@,
    }
}

/// The name of a stage of the library (a user's stage names itself).
pub open spec fn stage_name<U>(s: Stage<U>) -> Seq<char> {
    match s {
        Stage::Copy(c) => c.name@,
        Stage::CopyCut(c) => copy_cut_name(c),
        Stage::Append(a) => a.name@,
        Stage::Union(u) => u.name@,
        Stage::Replace(r) => r.name@,
        Stage::Compose(c) => c.name@,
        Stage::Sequence(q) => q.name@,
        Stage::Md(m) => m.name@,
        Stage::Index(i) => i.name@,
        Stage::Custom(_) => Seq::empty(),
    }
}

/// The pages that a selector chooses in a bundle, each moved under `dest`.
pub open spec fn moved_selection(sel: Selector, dest: Seq<Seq<char>>, b: Seq<PageView>) -> Seq<
    PageView,
> {
    prefixed(sel.filter(b), dest)
}

/// What a copy/cut stage makes of a bundle.
pub open spec fn copy_cut_output(c: CopyCut, b: Seq<PageView>) -> Seq<PageView> {
    match c {
        CopyCut::Copy { selector, dest, .. } => b + moved_selection(selector, dest.deep_view(), b),
        CopyCut::Move { selector, dest, .. } => moved_selection(selector, dest.deep_view(), b)
            + remaining(b, paths_of(selector.filter(b))),
        CopyCut::Ignore { selector, .. } => remaining(b, paths_of(selector.filter(b))),
    }
}

/// A page of the index stage: a JSON text at a one-segment path.
pub open spec fn index_page(name: Seq<char>, content: Seq<char>) -> PageView {
    PageView { path: seq![name], metadata: None, body: BodyView::Text(content) }
}

/// The pages the index stage makes of a bundle: the lists of its pages,
/// authors and tags, and the pages of each tag and of each author.
pub open spec fn index_pages(b: Seq<PageView>) -> Seq<PageView> {
    seq![
        index_page("all_pages.json"@, all_pages_json(b)),
        index_page("all_authors.json"@, all_authors_json(b)),
        index_page("all_tags.json"@, all_tags_json(b)),
        index_page("pages_by_tag.json"@, pages_by_tag_json(b)),
        index_page("pages_by_author.json"@, pages_by_author_json(b)),
    ]
}

/// The bundle a run gives, or `None` where it fails.
pub open spec fn run_view(r: Result<(Vec<Page>, ProcessingResult), PagesError>) -> Option<Seq<PageView>> {
    match r {
        Ok(x) => Some(x.0.deep_view()),
        Err(_) => None,
    }
}

/// Whether a user's stage, run on a bundle, can give `out` (`None` for a
/// failure): some call of its `process` on a bundle of that view returned
/// it.
pub open spec fn custom_runs<U: CustomStage>(u: U, b: Seq<PageView>, out: Option<Seq<PageView>>) -> bool {
    exists|bundle: Vec<Page>, r: Result<(Vec<Page>, ProcessingResult), PagesError>|
        bundle.deep_view() == b && #[trigger] call_ensures(U::process, (&u, &bundle), r) && run_view(r) == out
}

/// Whether a run of a stage on a bundle can give `out` (`None` where it
/// fails). The library's own stages give one outcome; composite stages
/// give what their parts give, put together.
pub open spec fn stage_runs<U: CustomStage>(s: Stage<U>, b: Seq<PageView>, out: Option<Seq<PageView>>) -> bool
    decreases s, 0int,
{
    match s {
        Stage::Copy(c) => out == Some(prefixed(b, c.prefix.deep_view())),
        Stage::CopyCut(c) => out == Some(copy_cut_output(c, b)),
        Stage::Append(a) => match out {
            Some(o) => exists|x: Seq<PageView>| stage_runs(*a.inner, b, Some(x)) && o == b + x,
            None => stage_runs(*a.inner, b, None),
        },
        Stage::Union(u) => union_runs(u.stages@, b, out),
        Stage::Replace(r) => match out {
            Some(o) => exists|x: Seq<PageView>|
                stage_runs(*r.inner, r.selector.filter(b), Some(x)) && o == x + remaining(b, paths_of(r.selector.filter(b))),
            None => stage_runs(*r.inner, r.selector.filter(b), None),
        },
        Stage::Compose(c) => compose_stage_runs(c.units@, b, out),
        Stage::Sequence(q) => sequence_runs(q.stages@, b, out),
        Stage::Md(_) => out == Some(b.map_values(|p: PageView| md_page(p))),
        Stage::Index(_) => out == Some(index_pages(b)),
        Stage::Custom(u) => custom_runs(u, b, out),
    }
}

/// Whether stages run on the same bundle can give `out`: their outputs
/// concatenated in stage order, or `None` where one of them fails.
pub open spec fn union_runs<U: CustomStage>(ss: Seq<Stage<U>>, b: Seq<PageView>, out: Option<Seq<PageView>>) -> bool
    decreases ss, 0int,
{
    if ss.len() == 0 {
        out == Some(Seq::<PageView>::empty())
    } else {
        match out {
            Some(o) => exists|x: Seq<PageView>, y: Seq<PageView>|
                #![trigger x + y]
                union_runs(ss.drop_last(), b, Some(x)) && stage_runs(ss.last(), b, Some(y)) && o == x + y,
            None => union_runs(ss.drop_last(), b, None) || stage_runs(ss.last(), b, None),
        }
    }
}

/// The outcome of a run that gives the bundle `x`.
pub open spec fn output_of(x: Seq<PageView>) -> Option<Seq<PageView>> {
    Some(x)
}

/// Whether stages run one after the other from the bundle `b` can give
/// `out`, or `None` where one of them fails.
pub open spec fn sequence_runs<U: CustomStage>(ss: Seq<Stage<U>>, b: Seq<PageView>, out: Option<Seq<PageView>>) -> bool
    decreases ss, 0int,
{
    if ss.len() == 0 {
        out == Some(b)
    } else {
        ||| (out is None && stage_runs(ss[0], b, None))
        ||| exists|x: Seq<PageView>|
            #![trigger output_of(x)]
            stage_runs(ss[0], b, output_of(x)) && sequence_runs(ss.subrange(1, ss.len() as int), x, out)
    }
}

/// Whether a composition of units run on a bundle can give `out`: the
/// units' outputs followed by the pages that no unit replaced, or `None`
/// where a unit fails.
pub open spec fn compose_stage_runs<U: CustomStage>(us: Seq<ComposeUnit<U>>, b: Seq<PageView>, out: Option<Seq<PageView>>) -> bool
    decreases us, 1int,
{
    match out {
        Some(o) => exists|x: Seq<PageView>|
            #![trigger x + remaining(b, compose_replaced(us, b))]
            compose_runs(us, b, Some(x)) && o == x + remaining(b, compose_replaced(us, b)),
        None => compose_runs(us, b, None),
    }
}

/// Whether a composition unit run on a bundle can give `out`.
pub open spec fn unit_runs<U: CustomStage>(u: ComposeUnit<U>, b: Seq<PageView>, out: Option<Seq<PageView>>) -> bool
    decreases u, 0int,
{
    match u {
        ComposeUnit::CreateNewSet(s) => stage_runs(s, b, out),
        ComposeUnit::ReplaceSubSet(sel, s) => stage_runs(s, sel.filter(b), out),
    }
}

/// Whether composition units run on the same bundle can give `out`: their
/// outputs concatenated in unit order, or `None` where one of them fails.
pub open spec fn compose_runs<U: CustomStage>(us: Seq<ComposeUnit<U>>, b: Seq<PageView>, out: Option<Seq<PageView>>) -> bool
    decreases us, 0int,
{
    if us.len() == 0 {
        out == Some(Seq::<PageView>::empty())
    } else {
        match out {
            Some(o) => exists|x: Seq<PageView>, y: Seq<PageView>|
                #![trigger x + y]
                compose_runs(us.drop_last(), b, Some(x)) && unit_runs(us.last(), b, Some(y)) && o == x + y,
            None => compose_runs(us.drop_last(), b, None) || unit_runs(us.last(), b, None),
        }
    }
}

/// The paths a composition unit replaces.
pub open spec fn unit_replaced<U>(u: ComposeUnit<U>, b: Seq<PageView>) -> Seq<Seq<Seq<char>>> {
    match u {
        ComposeUnit::CreateNewSet(_) => Seq::empty(),
        ComposeUnit::ReplaceSubSet(sel, _) => paths_of(sel.filter(b)),
    }
}

/// The paths that composition units replace, in unit order.
pub open spec fn compose_replaced<U>(us: Seq<ComposeUnit<U>>, b: Seq<PageView>) -> Seq<Seq<Seq<char>>>
    decreases us.len(),
{
    if us.len() == 0 {
        Seq::empty()
    } else {
        compose_replaced(us.drop_last(), b) + unit_replaced(us.last(), b)
    }
}

/// Whether a user's stage, run on a bundle, can fail with `e`: some call
/// of its `process` on a bundle of that view returned that error.
pub open spec fn custom_errs<U: CustomStage>(u: U, b: Seq<PageView>, e: PagesError) -> bool {
    exists|bundle: Vec<Page>|
        bundle.deep_view() == b && #[trigger] call_ensures(
            U::process,
            (&u, &bundle),
            Err::<(Vec<Page>, ProcessingResult), PagesError>(e),
        )
}

/// Whether a run of a stage on a bundle can fail with the error `e`. The
/// library's own leaf stages never fail; a composite stage fails with the
/// error of one of its parts (see [`union_errs`], [`compose_errs`] and
/// [`sequence_errs`]).
pub open spec fn stage_errs<U: CustomStage>(s: Stage<U>, b: Seq<PageView>, e: PagesError) -> bool
    decreases s, 0int,
{
    match s {
        Stage::Append(a) => stage_errs(*a.inner, b, e),
        Stage::Union(u) => union_errs(u.stages@, b, e, u.parallel),
        Stage::Replace(r) => stage_errs(*r.inner, r.selector.filter(b), e),
        Stage::Compose(c) => compose_errs(c.units@, b, e, c.parallel),
        Stage::Sequence(q) => sequence_errs(q.stages@, b, e),
        Stage::Custom(u) => custom_errs(u, b, e),
        _ => false,
    }
}

/// Whether stages run on the same bundle can fail with `e`: run in
/// parallel, `e` is the error of one of them; run one after the other, the
/// error of the first that fails, the stages before it having succeeded.
pub open spec fn union_errs<U: CustomStage>(ss: Seq<Stage<U>>, b: Seq<PageView>, e: PagesError, parallel: bool) -> bool
    decreases ss, 0int,
{
    if ss.len() == 0 {
        false
    } else {
        ||| union_errs(ss.drop_last(), b, e, parallel)
        ||| (parallel || exists|x: Seq<PageView>| #![trigger output_of(x)] union_runs(ss.drop_last(), b, output_of(x)))
            && stage_errs(ss.last(), b, e)
    }
}

/// Whether a composition unit run on a bundle can fail with `e`.
pub open spec fn unit_errs<U: CustomStage>(u: ComposeUnit<U>, b: Seq<PageView>, e: PagesError) -> bool
    decreases u, 0int,
{
    match u {
        ComposeUnit::CreateNewSet(s) => stage_errs(s, b, e),
        ComposeUnit::ReplaceSubSet(sel, s) => stage_errs(s, sel.filter(b), e),
    }
}

/// Whether composition units run on the same bundle can fail with `e`: run
/// in parallel, `e` is the error of one of them; run one after the other,
/// the error of the first that fails, the units before it having succeeded.
pub open spec fn compose_errs<U: CustomStage>(us: Seq<ComposeUnit<U>>, b: Seq<PageView>, e: PagesError, parallel: bool) -> bool
    decreases us, 0int,
{
    if us.len() == 0 {
        false
    } else {
        ||| compose_errs(us.drop_last(), b, e, parallel)
        ||| (parallel || exists|x: Seq<PageView>| #![trigger output_of(x)] compose_runs(us.drop_last(), b, output_of(x)))
            && unit_errs(us.last(), b, e)
    }
}

/// Whether stages run one after the other from the bundle `b` can fail with
/// `e`: the first fails with it, or gives a bundle from which the others
/// fail with it.
pub open spec fn sequence_errs<U: CustomStage>(ss: Seq<Stage<U>>, b: Seq<PageView>, e: PagesError) -> bool
    decreases ss, 0int,
{
    if ss.len() == 0 {
        false
    } else {
        ||| stage_errs(ss[0], b, e)
        ||| exists|x: Seq<PageView>|
            #![trigger output_of(x)]
            stage_runs(ss[0], b, output_of(x)) && sequence_errs(ss.subrange(1, ss.len() as int), x, e)
    }
}

/// If stages fail with `e` up to some point, they fail with it all
/// together, in either mode.
proof fn lemma_union_errs_extend<U: CustomStage>(ss: Seq<Stage<U>>, b: Seq<PageView>, e: PagesError, parallel: bool, k: int)
    requires
        0 <= k <= ss.len(),
        union_errs(ss.take(k), b, e, parallel),
    ensures
        union_errs(ss, b, e, parallel),
    decreases ss.len() - k,
{
    if k < ss.len() {
        assert(ss.take(k + 1).drop_last() =~= ss.take(k));
        lemma_union_errs_extend(ss, b, e, parallel, k + 1);
    } else {
        assert(ss.take(k) =~= ss);
    }
}

/// In parallel, stages fail with the error of any one of them.
proof fn lemma_union_member_errs<U: CustomStage>(ss: Seq<Stage<U>>, b: Seq<PageView>, e: PagesError, i: int)
    requires
        0 <= i < ss.len(),
        stage_errs(ss[i], b, e),
    ensures
        union_errs(ss, b, e, true),
{
    assert(ss.take(i + 1).drop_last() =~= ss.take(i));
    assert(ss.take(i + 1).last() == ss[i]);
    lemma_union_errs_extend(ss, b, e, true, i + 1);
}

/// If composition units fail with `e` up to some point, they fail with it
/// all together, in either mode.
proof fn lemma_compose_errs_extend<U: CustomStage>(us: Seq<ComposeUnit<U>>, b: Seq<PageView>, e: PagesError, parallel: bool, k: int)
    requires
        0 <= k <= us.len(),
        compose_errs(us.take(k), b, e, parallel),
    ensures
        compose_errs(us, b, e, parallel),
    decreases us.len() - k,
{
    if k < us.len() {
        assert(us.take(k + 1).drop_last() =~= us.take(k));
        lemma_compose_errs_extend(us, b, e, parallel, k + 1);
    } else {
        assert(us.take(k) =~= us);
    }
}

/// In parallel, composition units fail with the error of any one of them.
proof fn lemma_compose_member_errs<U: CustomStage>(us: Seq<ComposeUnit<U>>, b: Seq<PageView>, e: PagesError, i: int)
    requires
        0 <= i < us.len(),
        unit_errs(us[i], b, e),
    ensures
        compose_errs(us, b, e, true),
{
    assert(us.take(i + 1).drop_last() =~= us.take(i));
    assert(us.take(i + 1).last() == us[i]);
    lemma_compose_errs_extend(us, b, e, true, i + 1);
}

/// Whether a report has the name of its stage and, in order, one report for
/// each stage that the stage ran (a user's stage reports as it likes).
pub open spec fn reports<U>(r: ProcessingResult, s: Stage<U>) -> bool
    decreases s,
{
    match s {
        Stage::Custom(_) => true,
        _ => {
            &&& r.stage_name@ == stage_name(s)
            &&& match s {
                Stage::Append(a) => r.sub_results@.len() == 1 && reports(r.sub_results@[0], *a.inner),
                Stage::Union(u) => reports_all(r.sub_results@, u.stages@),
                Stage::Replace(x) => r.sub_results@.len() == 1 && reports(r.sub_results@[0], *x.inner),
                Stage::Compose(c) => reports_units(r.sub_results@, c.units@),
                Stage::Sequence(q) => reports_all(r.sub_results@, q.stages@),
                _ => r.sub_results@.len() == 0,
            }
        },
    }
}

/// Whether each report is one of the stage at the same position.
pub open spec fn reports_all<U>(rs: Seq<ProcessingResult>, ss: Seq<Stage<U>>) -> bool
    decreases ss,
{
    &&& rs.len() == ss.len()
    &&& (ss.len() > 0 ==> reports(rs.last(), ss.last()) && reports_all(rs.drop_last(), ss.drop_last()))
}

/// Whether each report is one of the stage of the unit at the same position.
pub open spec fn reports_units<U>(rs: Seq<ProcessingResult>, us: Seq<ComposeUnit<U>>) -> bool
    decreases us,
{
    &&& rs.len() == us.len()
    &&& (us.len() > 0 ==> reports_unit(rs.last(), us.last()) && reports_units(rs.drop_last(), us.drop_last()))
}

/// Whether a report is one of the stage of a unit.
pub open spec fn reports_unit<U>(r: ProcessingResult, u: ComposeUnit<U>) -> bool
    decreases u,
{
    match u {
        ComposeUnit::CreateNewSet(s) => reports(r, s),
        ComposeUnit::ReplaceSubSet(_, s) => reports(r, s),
    }
}

/// If stages fail on a bundle from some point on, so do all of them together.
pub proof fn lemma_union_fails<U: CustomStage>(ss: Seq<Stage<U>>, b: Seq<PageView>, k: int)
    requires
        0 <= k <= ss.len(),
        union_runs(ss.take(k), b, None),
    ensures
        union_runs(ss, b, None),
    decreases ss.len() - k,
{
    if k < ss.len() {
        assert(ss.take(k + 1).drop_last() =~= ss.take(k));
        lemma_union_fails(ss, b, k + 1);
    } else {
        assert(ss.take(k) =~= ss);
    }
}

/// If one of several stages fails on a bundle, so do all of them together.
pub proof fn lemma_union_member_fails<U: CustomStage>(ss: Seq<Stage<U>>, b: Seq<PageView>, i: int)
    requires
        0 <= i < ss.len(),
        stage_runs(ss[i], b, None),
    ensures
        union_runs(ss, b, None),
{
    assert(ss.take(i + 1).drop_last() =~= ss.take(i));
    assert(ss.take(i + 1).last() == ss[i]);
    lemma_union_fails(ss, b, i + 1);
}

/// If composition units fail on a bundle from some point on, so do all of them together.
pub proof fn lemma_compose_fails<U: CustomStage>(us: Seq<ComposeUnit<U>>, b: Seq<PageView>, k: int)
    requires
        0 <= k <= us.len(),
        compose_runs(us.take(k), b, None),
    ensures
        compose_runs(us, b, None),
    decreases us.len() - k,
{
    if k < us.len() {
        assert(us.take(k + 1).drop_last() =~= us.take(k));
        lemma_compose_fails(us, b, k + 1);
    } else {
        assert(us.take(k) =~= us);
    }
}

/// If one of several composition units fails on a bundle, so do all of them together.
pub proof fn lemma_compose_member_fails<U: CustomStage>(us: Seq<ComposeUnit<U>>, b: Seq<PageView>, i: int)
    requires
        0 <= i < us.len(),
        unit_runs(us[i], b, None),
    ensures
        compose_runs(us, b, None),
{
    assert(us.take(i + 1).drop_last() =~= us.take(i));
    assert(us.take(i + 1).last() == us[i]);
    lemma_compose_fails(us, b, i + 1);
}

/// Stages that give `x`, then a stage that gives `y`, can give `x + y`.
proof fn lemma_union_push<U: CustomStage>(ss: Seq<Stage<U>>, b: Seq<PageView>, x: Seq<PageView>, y: Seq<PageView>)
    requires
        ss.len() > 0,
        union_runs(ss.drop_last(), b, Some(x)),
        stage_runs(ss.last(), b, Some(y)),
    ensures
        union_runs(ss, b, Some(x + y)),
{
}

/// Units that give `x`, then a unit that gives `y`, can give `x + y`.
proof fn lemma_compose_push<U: CustomStage>(us: Seq<ComposeUnit<U>>, b: Seq<PageView>, x: Seq<PageView>, y: Seq<PageView>)
    requires
        us.len() > 0,
        compose_runs(us.drop_last(), b, Some(x)),
        unit_runs(us.last(), b, Some(y)),
    ensures
        compose_runs(us, b, Some(x + y)),
{
}

/// A first stage that gives `x`, and the other stages that give `out` from
/// `x`, give `out` together.
pub proof fn lemma_sequence_step<U: CustomStage>(ss: Seq<Stage<U>>, b: Seq<PageView>, x: Seq<PageView>, out: Option<Seq<PageView>>)
    requires
        ss.len() > 0,
        stage_runs(ss[0], b, Some(x)),
        sequence_runs(ss.subrange(1, ss.len() as int), x, out),
    ensures
        sequence_runs(ss, b, out),
{
    assert(output_of(x) == Some(x));
}

/// What a sequence of stages that can give `out` is made of: a first stage
/// that fails, or a first stage that gives a bundle from which the other
/// stages can give `out`.
pub proof fn lemma_sequence_unfold<U: CustomStage>(ss: Seq<Stage<U>>, b: Seq<PageView>, out: Option<Seq<PageView>>)
    requires
        ss.len() > 0,
        sequence_runs(ss, b, out),
    ensures
        (out is None && stage_runs(ss[0], b, None)) || exists|x: Seq<PageView>|
            #![trigger output_of(x)]
            stage_runs(ss[0], b, output_of(x)) && sequence_runs(ss.subrange(1, ss.len() as int), x, out),
{
}

/// What a composition that can give a bundle is made of: the units' outputs,
/// then the pages that no unit replaced.
pub proof fn lemma_compose_stage_unfold<U: CustomStage>(us: Seq<ComposeUnit<U>>, b: Seq<PageView>, o: Seq<PageView>)
    requires
        compose_stage_runs(us, b, Some(o)),
    ensures
        exists|x: Seq<PageView>|
            #![trigger x + remaining(b, compose_replaced(us, b))]
            compose_runs(us, b, Some(x)) && o == x + remaining(b, compose_replaced(us, b)),
{
}

/// Units that can give `x`, followed by the pages that no unit replaced,
/// make a composition that can give that bundle.
pub proof fn lemma_compose_stage_fold<U: CustomStage>(us: Seq<ComposeUnit<U>>, b: Seq<PageView>, x: Seq<PageView>)
    requires
        compose_runs(us, b, Some(x)),
    ensures
        compose_stage_runs(us, b, Some(x + remaining(b, compose_replaced(us, b)))),
{
}

pub(crate) fn leaf_result(name: String, start: i64) -> (r: ProcessingResult)
    ensures
        r.stage_name@ == name@,
        r.sub_results@.len() == 0,
{
    ProcessingResult { stage_name: name, start, end: now_millis(), sub_results: Vec::new() }
}

fn make_index_page(name: &str, content: String) -> (r: Page)
    ensures
        r.deep_view() == index_page(name@, content@),
{
    let mut path: Vec<String> = Vec::new();
    path.push(String::from_str(name));
    proof {
        assert(path.deep_view() =~= seq![name@]);
    }
    Page { path, metadata: None, body: Body::Text(content) }
}

/// Returns the pages the index stage makes of a bundle.
pub fn make_index_pages(bundle: &Vec<Page>) -> (r: Vec<Page>)
    ensures
        r.deep_view() == index_pages(bundle.deep_view()),
{
    let mut r: Vec<Page> = Vec::new();
    let p1 = make_index_page("all_pages.json", all_pages_text(bundle));
    let p2 = make_index_page("all_authors.json", all_authors_text(bundle));
    let p3 = make_index_page("all_tags.json", all_tags_text(bundle));
    let p4 = make_index_page("pages_by_tag.json", pages_by_tag_text(bundle));
    let p5 = make_index_page("pages_by_author.json", pages_by_author_text(bundle));
    let ghost b0 = r;
    r.push(p1);
    let ghost b1 = r;
    r.push(p2);
    let ghost b2 = r;
    r.push(p3);
    let ghost b3 = r;
    r.push(p4);
    let ghost b4 = r;
    r.push(p5);
    proof {
        lemma_push_deep_view(b0, b1, p1);
        lemma_push_deep_view(b1, b2, p2);
        lemma_push_deep_view(b2, b3, p3);
        lemma_push_deep_view(b3, b4, p4);
        lemma_push_deep_view(b4, r, p5);
        assert(r.deep_view() =~= index_pages(bundle.deep_view()));
    }
    r
}

/// Returns the pages of a bundle converted by the markdown stage.
pub fn md_pages(bundle: &Vec<Page>) -> (r: Vec<Page>)
    ensures
        r.deep_view() == bundle.deep_view().map_values(|p: PageView| md_page(p)),
{
    let mut r: Vec<Page> = Vec::new();
    let mut i: usize = 0;
    while i < bundle.len()
        invariant
            i <= bundle.len(),
            r.deep_view() == bundle.deep_view().take(i as int).map_values(|p: PageView| md_page(p)),
        decreases bundle.len() - i,
    {
        let ghost before = r;
        let p = convert_page(&bundle[i]);
        r.push(p);
        proof {
            lemma_push_deep_view(before, r, p);
            assert(r.deep_view() =~= bundle.deep_view().take(i + 1).map_values(
                |p: PageView| md_page(p),
            ));
        }
        i = i + 1;
    }
    proof {
        assert(bundle.deep_view().take(bundle.len() as int) =~= bundle.deep_view());
    }
    r
}

impl CopyStage {
    /// Runs the stage: every page of the bundle is moved under the prefix.
    pub fn process(&self, bundle: &Vec<Page>) -> (r: Result<(Vec<Page>, ProcessingResult), PagesError>)
        ensures
            r.is_ok(),
            r.unwrap().0.deep_view() == prefixed(bundle.deep_view(), self.prefix.deep_view()),
            r.unwrap().1.stage_name@ == self.name@,
            r.unwrap().1.sub_results@.len() == 0,
    {
        let start = now_millis();
        let out = prefix_pages(bundle, &self.prefix);
        Ok((out, leaf_result(copy_string(&self.name), start)))
    }
}

impl MdStage {
    /// Runs the stage: every page of the bundle is converted from markdown.
    pub fn process(&self, bundle: &Vec<Page>) -> (r: Result<(Vec<Page>, ProcessingResult), PagesError>)
        ensures
            r.is_ok(),
            r.unwrap().0.deep_view() == bundle.deep_view().map_values(|p: PageView| md_page(p)),
            r.unwrap().1.stage_name@ == self.name@,
            r.unwrap().1.sub_results@.len() == 0,
    {
        let start = now_millis();
        let out = md_pages(bundle);
        Ok((out, leaf_result(copy_string(&self.name), start)))
    }
}

impl IndexStage {
    /// Runs the stage: the bundle is replaced by its index pages.
    pub fn process(&self, bundle: &Vec<Page>) -> (r: Result<(Vec<Page>, ProcessingResult), PagesError>)
        ensures
            r.is_ok(),
            r.unwrap().0.deep_view() == index_pages(bundle.deep_view()),
            r.unwrap().1.stage_name@ == self.name@,
            r.unwrap().1.sub_results@.len() == 0,
    {
        let start = now_millis();
        let out = make_index_pages(bundle);
        Ok((out, leaf_result(copy_string(&self.name), start)))
    }
}

impl CopyCut {
    /// The name of the stage.
    pub open spec fn name_view(&self) -> Seq<char> {
        copy_cut_name(*self)
    }

    /// Runs the stage on a bundle (see [`copy_cut_output`]).
    pub fn process(&self, bundle: &Vec<Page>) -> (r: Result<(Vec<Page>, ProcessingResult), PagesError>)
        ensures
            r.is_ok(),
            r.unwrap().0.deep_view() == copy_cut_output(*self, bundle.deep_view()),
            r.unwrap().1.stage_name@ == self.name_view(),
            r.unwrap().1.sub_results@.len() == 0,
    {
        let start = now_millis();
        let out = self.output(bundle);
        Ok((out, leaf_result(self.name(), start)))
    }

    /// The name of the stage.
    pub fn name(&self) -> (r: String)
        ensures
            r@ == self.name_view(),
    {
        match self {
            CopyCut::Copy { name, .. } => copy_string(name),
            CopyCut::Move { name, .. } => copy_string(name),
            CopyCut::Ignore { name, .. } => copy_string(name),
        }
    }

    /// Returns copies of the pages of a bundle that a selector chooses.
    pub fn select(&self, selector: &Selector, bundle: &Vec<Page>) -> (r: Vec<Page>)
        ensures
            r.deep_view() == selector.filter(bundle.deep_view()),
    {
        selector.select_pages(bundle)
    }

    /// Returns what the stage makes of a bundle.
    pub fn output(&self, bundle: &Vec<Page>) -> (r: Vec<Page>)
        ensures
            r.deep_view() == copy_cut_output(*self, bundle.deep_view()),
    {
        match self {
            CopyCut::Copy { selector, dest, .. } => {
                let mut result = copy_pages(bundle);
                let selected = self.select(selector, bundle);
                let copied = prefix_pages(&selected, dest);
                append_pages(&mut result, copied);
                result
            },
            CopyCut::Move { selector, dest, .. } => {
                let selected = self.select(selector, bundle);
                let selected_paths = paths_of_pages(&selected);
                let mut result = prefix_pages(&selected, dest);
                let rest = remaining_pages(bundle, &selected_paths);
                append_pages(&mut result, rest);
                result
            },
            CopyCut::Ignore { selector, .. } => {
                let selected = self.select(selector, bundle);
                let selected_paths = paths_of_pages(&selected);
                remaining_pages(bundle, &selected_paths)
            },
        }
    }
}

impl<U: CustomStage> Stage<U> {
    /// The name of the stage.
    pub fn name(&self) -> (r: String)
        ensures
            !(*self is Custom) ==> r@ == stage_name(*self),
    {
        match self {
            Stage::Copy(c) => copy_string(&c.name),
            Stage::CopyCut(c) => c.name(),
            Stage::Append(a) => copy_string(&a.name),
            Stage::Union(u) => copy_string(&u.name),
            Stage::Replace(r) => copy_string(&r.name),
            Stage::Compose(c) => copy_string(&c.name),
            Stage::Sequence(q) => copy_string(&q.name),
            Stage::Md(m) => copy_string(&m.name),
            Stage::Index(i) => copy_string(&i.name),
            Stage::Custom(u) => u.name(),
        }
    }

    /// Runs the stage on a bundle: returns the output bundle and the report
    /// of the run, or the error of a stage that failed (see [`stage_runs`]).
    pub fn process(&self, bundle: &Vec<Page>) -> (r: Result<(Vec<Page>, ProcessingResult), PagesError>)
        ensures
            stage_runs(*self, bundle.deep_view(), run_view(r)),
            r.is_ok() ==> reports(r.unwrap().1, *self),
            r.is_err() ==> stage_errs(*self, bundle.deep_view(), r->Err_0),
        decreases self, 0int,
    {
        let ghost b = bundle.deep_view();
        let start = now_millis();
        match self {
            Stage::Copy(c) => c.process(bundle),
            Stage::CopyCut(c) => c.process(bundle),
            Stage::Append(a) => {
                let ri = a.inner.process(bundle);
                match ri {
                    Ok((inner_out, inner_result)) => {
                        let ghost x = inner_out.deep_view();
                        let mut out = copy_pages(bundle);
                        append_pages(&mut out, inner_out);
                        let mut subs: Vec<ProcessingResult> = Vec::new();
                        subs.push(inner_result);
                        proof {
                            assert(stage_runs(*a.inner, b, Some(x)));
                        }
                        Ok((out, ProcessingResult { stage_name: copy_string(&a.name), start, end: now_millis(), sub_results: subs }))
                    },
                    Err(e) => Err(e),
                }
            },
            Stage::Union(u) => {
                match u.run(bundle) {
                    Ok((out, subs)) => Ok((out, ProcessingResult { stage_name: copy_string(&u.name), start, end: now_millis(), sub_results: subs })),
                    Err(e) => Err(e),
                }
            },
            Stage::Replace(x) => {
                let selected = x.selector.select_pages(bundle);
                let ri = x.inner.process(&selected);
                match ri {
                    Ok((inner_out, inner_result)) => {
                        let ghost y = inner_out.deep_view();
                        let mut out = inner_out;
                        let selected_paths = paths_of_pages(&selected);
                        let rest = remaining_pages(bundle, &selected_paths);
                        append_pages(&mut out, rest);
                        let mut subs: Vec<ProcessingResult> = Vec::new();
                        subs.push(inner_result);
                        proof {
                            assert(stage_runs(*x.inner, x.selector.filter(b), Some(y)));
                        }
                        Ok((out, ProcessingResult { stage_name: copy_string(&x.name), start, end: now_millis(), sub_results: subs }))
                    },
                    Err(e) => Err(e),
                }
            },
            Stage::Compose(c) => {
                match c.run(bundle) {
                    Ok((out, subs)) => Ok((out, ProcessingResult { stage_name: copy_string(&c.name), start, end: now_millis(), sub_results: subs })),
                    Err(e) => Err(e),
                }
            },
            Stage::Sequence(q) => {
                match q.run(bundle) {
                    Ok((out, subs)) => Ok((out, ProcessingResult { stage_name: copy_string(&q.name), start, end: now_millis(), sub_results: subs })),
                    Err(e) => Err(e),
                }
            },
            Stage::Md(m) => m.process(bundle),
            Stage::Index(i) => i.process(bundle),
            Stage::Custom(u) => {
                let r = u.process(bundle);
                proof {
                    assert(call_ensures(U::process, (u, bundle), r));
                    if r.is_err() {
                        assert(r == Err::<(Vec<Page>, ProcessingResult), PagesError>(r->Err_0));
                    }
                }
                r
            },
        }
    }
}

/// Runs each stage on the bundle on rayon's thread pool (`par_iter`, `map`,
/// `collect` into a `Result`). Claimed of rayon: the results come back in the
/// order of the stages, each the outcome of its stage's run, and the
/// collection fails, with the error of some stage that failed, exactly when
/// one of them fails; which of several errors comes back is left open, as
/// rayon leaves it.
#[verifier::external_body]
fn run_stages_in_parallel<U: CustomStage>(stages: &Vec<Stage<U>>, bundle: &Vec<Page>) -> (r: Result<
    Vec<(Vec<Page>, ProcessingResult)>,
    PagesError,
>)
    ensures
        r.is_ok() ==> r.unwrap().len() == stages.len(),
        r.is_ok() ==> forall|i: int|
            0 <= i < stages.len() ==> #[trigger] stage_runs(stages@[i], bundle.deep_view(), Some(r.unwrap()@[i].0.deep_view()))
                && reports(r.unwrap()@[i].1, stages@[i]),
        r.is_err() ==> exists|i: int|
            0 <= i < stages.len() && #[trigger] stage_runs(stages@[i], bundle.deep_view(), None)
                && stage_errs(stages@[i], bundle.deep_view(), r->Err_0),
{
    stages.par_iter().map(|s| s.process(bundle)).collect()
}

/// Runs each composition unit on the bundle on rayon's thread pool
/// (`par_iter`, `map`, `collect` into a `Result`). Claimed of rayon: the
/// results come back in the order of the units, each the outcome of its
/// unit's run, and the collection fails, with the error of some unit that
/// failed, exactly when one of them fails; which of several errors comes
/// back is left open, as rayon leaves it.
#[verifier::external_body]
fn run_units_in_parallel<U: CustomStage>(units: &Vec<ComposeUnit<U>>, bundle: &Vec<Page>) -> (r: Result<
    Vec<(Vec<Page>, ProcessingResult, Vec<Vec<String>>)>,
    PagesError,
>)
    ensures
        r.is_ok() ==> r.unwrap().len() == units.len(),
        r.is_ok() ==> forall|i: int|
            0 <= i < units.len() ==> #[trigger] unit_runs(units@[i], bundle.deep_view(), Some(r.unwrap()@[i].0.deep_view()))
                && reports_unit(r.unwrap()@[i].1, units@[i])
                && r.unwrap()@[i].2.deep_view() == unit_replaced(units@[i], bundle.deep_view()),
        r.is_err() ==> exists|i: int|
            0 <= i < units.len() && #[trigger] unit_runs(units@[i], bundle.deep_view(), None)
                && unit_errs(units@[i], bundle.deep_view(), r->Err_0),
{
    units.par_iter().map(|u| u.run(bundle)).collect()
}

/// The outcome of a union or a composition run, with its reports.
pub open spec fn runs_view(r: Result<(Vec<Page>, Vec<ProcessingResult>), PagesError>) -> Option<Seq<PageView>> {
    match r {
        Ok(x) => Some(x.0.deep_view()),
        Err(_) => None,
    }
}

impl<U: CustomStage> UnionStage<U> {
    /// Runs the stages on the bundle: returns their outputs concatenated in
    /// stage order and their reports, or the error of a stage that fails.
    /// With `parallel`, the stages run on rayon's thread pool.
    pub fn run(&self, bundle: &Vec<Page>) -> (r: Result<(Vec<Page>, Vec<ProcessingResult>), PagesError>)
        ensures
            union_runs(self.stages@, bundle.deep_view(), runs_view(r)),
            r.is_ok() ==> reports_all(r.unwrap().1@, self.stages@),
            r.is_err() ==> union_errs(self.stages@, bundle.deep_view(), r->Err_0, self.parallel),
        decreases self, 1int,
    {
        if self.parallel {
            self.run_parallel(bundle)
        } else {
            self.run_sequential(bundle)
        }
    }

    /// Runs all the stages on rayon's thread pool, then gathers their outputs.
    fn run_parallel(&self, bundle: &Vec<Page>) -> (r: Result<(Vec<Page>, Vec<ProcessingResult>), PagesError>)
        ensures
            union_runs(self.stages@, bundle.deep_view(), runs_view(r)),
            r.is_ok() ==> reports_all(r.unwrap().1@, self.stages@),
            r.is_err() ==> union_errs(self.stages@, bundle.deep_view(), r->Err_0, true),
    {
        let ghost b = bundle.deep_view();
        let results = match run_stages_in_parallel(&self.stages, bundle) {
            Ok(v) => v,
            Err(e) => {
                proof {
                    let i = choose|i: int| 0 <= i < self.stages.len() && #[trigger] stage_runs(self.stages@[i], b, None)
                        && stage_errs(self.stages@[i], b, e);
                    lemma_union_member_fails(self.stages@, b, i);
                    lemma_union_member_errs(self.stages@, b, e, i);
                }
                return Err(e);
            },
        };
        let mut out: Vec<Page> = Vec::new();
        let mut subs: Vec<ProcessingResult> = Vec::new();
        let mut results = results;
        let ghost all = results@;
        proof {
            assert(self.stages@.take(0) =~= Seq::<Stage<U>>::empty());
            assert(out.deep_view() =~= Seq::<PageView>::empty());
        }
        let n = results.len();
        let mut i: usize = 0;
        while i < n
            invariant
                i <= n,
                n == self.stages.len(),
                b == bundle.deep_view(),
                all.len() == n,
                results@ == all.subrange(i as int, n as int),
                forall|k: int|
                    0 <= k < n ==> #[trigger] stage_runs(self.stages@[k], b, Some(all[k].0.deep_view()))
                        && reports(all[k].1, self.stages@[k]),
                union_runs(self.stages@.take(i as int), b, Some(out.deep_view())),
                reports_all(subs@, self.stages@.take(i as int)),
            decreases n - i,
        {
            let ghost x = out.deep_view();
            proof {
                assert(self.stages@.take(i + 1).drop_last() =~= self.stages@.take(i as int));
                assert(self.stages@.take(i + 1).last() == self.stages@[i as int]);
                assert(results@[0] == all[i as int]);
                assert(stage_runs(self.stages@[i as int], b, Some(all[i as int].0.deep_view())));
            }
            let (o, res) = results.remove(0);
            let ghost y = o.deep_view();
            proof {
                assert(results@ =~= all.subrange(i + 1, n as int));
            }
            append_pages(&mut out, o);
            let ghost before = subs@;
            subs.push(res);
            proof {
                assert(subs@.drop_last() =~= before);
                lemma_union_push(self.stages@.take(i + 1), b, x, y);
            }
            i = i + 1;
        }
        proof {
            assert(self.stages@.take(n as int) =~= self.stages@);
        }
        Ok((out, subs))
    }

    /// Runs the stages one after the other, in stage order: returns their outputs
    /// concatenated and their reports, or the error of the first one that fails.
    fn run_sequential(&self, bundle: &Vec<Page>) -> (r: Result<(Vec<Page>, Vec<ProcessingResult>), PagesError>)
        ensures
            union_runs(self.stages@, bundle.deep_view(), runs_view(r)),
            r.is_ok() ==> reports_all(r.unwrap().1@, self.stages@),
            r.is_err() ==> union_errs(self.stages@, bundle.deep_view(), r->Err_0, false),
        decreases self, 0int,
    {
        let ghost b = bundle.deep_view();
        let mut out: Vec<Page> = Vec::new();
        let mut subs: Vec<ProcessingResult> = Vec::new();
        let mut i: usize = 0;
        proof {
            assert(self.stages@.take(0) =~= Seq::<Stage<U>>::empty());
            assert(out.deep_view() =~= Seq::<PageView>::empty());
        }
        while i < self.stages.len()
            invariant
                i <= self.stages.len(),
                b == bundle.deep_view(),
                union_runs(self.stages@.take(i as int), b, Some(out.deep_view())),
                reports_all(subs@, self.stages@.take(i as int)),
            decreases self.stages.len() - i,
        {
            let ghost x = out.deep_view();
            proof {
                assert(self.stages@.take(i + 1).drop_last() =~= self.stages@.take(i as int));
                assert(self.stages@.take(i + 1).last() == self.stages@[i as int]);
            }
            let ri = self.stages[i].process(bundle);
            match ri {
                Ok((o, res)) => {
                    let ghost y = o.deep_view();
                    append_pages(&mut out, o);
                    let ghost before = subs@;
                    subs.push(res);
                    proof {
                        assert(subs@.drop_last() =~= before);
                        lemma_union_push(self.stages@.take(i + 1), b, x, y);
                    }
                },
                Err(e) => {
                    proof {
                        assert(union_runs(self.stages@.take(i + 1), b, None));
                        lemma_union_fails(self.stages@, b, i + 1);
                        assert(union_runs(self.stages@.take(i as int), b, output_of(x)));
                        assert(union_errs(self.stages@.take(i + 1), b, e, false));
                        lemma_union_errs_extend(self.stages@, b, e, false, i + 1);
                    }
                    return Err(e);
                },
            }
            i = i + 1;
        }
        proof {
            assert(self.stages@.take(self.stages.len() as int) =~= self.stages@);
        }
        Ok((out, subs))
    }
}

impl<U: CustomStage> ComposeStage<U> {
    /// Runs the composition units on the bundle: returns their outputs
    /// concatenated in unit order, followed by the pages that no unit
    /// replaced, and their reports, or the error of a unit that fails.
    /// With `parallel`, the units run on rayon's thread pool.
    pub fn run(&self, bundle: &Vec<Page>) -> (r: Result<(Vec<Page>, Vec<ProcessingResult>), PagesError>)
        ensures
            compose_stage_runs(self.units@, bundle.deep_view(), runs_view(r)),
            r.is_ok() ==> reports_units(r.unwrap().1@, self.units@),
            r.is_err() ==> compose_errs(self.units@, bundle.deep_view(), r->Err_0, self.parallel),
        decreases self, 1int,
    {
        if self.parallel {
            self.run_parallel(bundle)
        } else {
            self.run_sequential(bundle)
        }
    }

    /// Runs all the units on rayon's thread pool, then gathers their outputs.
    fn run_parallel(&self, bundle: &Vec<Page>) -> (r: Result<(Vec<Page>, Vec<ProcessingResult>), PagesError>)
        ensures
            compose_stage_runs(self.units@, bundle.deep_view(), runs_view(r)),
            r.is_ok() ==> reports_units(r.unwrap().1@, self.units@),
            r.is_err() ==> compose_errs(self.units@, bundle.deep_view(), r->Err_0, true),
    {
        let ghost b = bundle.deep_view();
        let results = match run_units_in_parallel(&self.units, bundle) {
            Ok(v) => v,
            Err(e) => {
                proof {
                    let i = choose|i: int| 0 <= i < self.units.len() && #[trigger] unit_runs(self.units@[i], b, None)
                        && unit_errs(self.units@[i], b, e);
                    lemma_compose_member_fails(self.units@, b, i);
                    lemma_compose_member_errs(self.units@, b, e, i);
                }
                return Err(e);
            },
        };
        let mut out: Vec<Page> = Vec::new();
        let mut replaced: Vec<Vec<String>> = Vec::new();
        let mut subs: Vec<ProcessingResult> = Vec::new();
        let mut results = results;
        let ghost all = results@;
        proof {
            assert(self.units@.take(0) =~= Seq::<ComposeUnit<U>>::empty());
            assert(out.deep_view() =~= Seq::<PageView>::empty());
            assert(replaced.deep_view() =~= Seq::<Seq<Seq<char>>>::empty());
        }
        let n = results.len();
        let mut i: usize = 0;
        while i < n
            invariant
                i <= n,
                n == self.units.len(),
                b == bundle.deep_view(),
                all.len() == n,
                results@ == all.subrange(i as int, n as int),
                forall|k: int|
                    0 <= k < n ==> #[trigger] unit_runs(self.units@[k], b, Some(all[k].0.deep_view()))
                        && reports_unit(all[k].1, self.units@[k])
                        && all[k].2.deep_view() == unit_replaced(self.units@[k], b),
                compose_runs(self.units@.take(i as int), b, Some(out.deep_view())),
                compose_replaced(self.units@.take(i as int), b) == replaced.deep_view(),
                reports_units(subs@, self.units@.take(i as int)),
            decreases n - i,
        {
            let ghost x = out.deep_view();
            proof {
                assert(self.units@.take(i + 1).drop_last() =~= self.units@.take(i as int));
                assert(self.units@.take(i + 1).last() == self.units@[i as int]);
                assert(results@[0] == all[i as int]);
                assert(unit_runs(self.units@[i as int], b, Some(all[i as int].0.deep_view())));
            }
            let (o, res, paths) = results.remove(0);
            let ghost y = o.deep_view();
            proof {
                assert(results@ =~= all.subrange(i + 1, n as int));
            }
            append_pages(&mut out, o);
            let ghost rb = replaced;
            let ghost pg = paths;
            let mut paths = paths;
            replaced.append(&mut paths);
            proof {
                crate::strings::lemma_append_deep_view(rb, pg, replaced);
            }
            let ghost before = subs@;
            subs.push(res);
            proof {
                assert(subs@.drop_last() =~= before);
                lemma_compose_push(self.units@.take(i + 1), b, x, y);
            }
            i = i + 1;
        }
        proof {
            assert(self.units@.take(n as int) =~= self.units@);
        }
        let ghost x = out.deep_view();
        let rest = remaining_pages(bundle, &replaced);
        append_pages(&mut out, rest);
        proof {
            assert(compose_runs(self.units@, b, Some(x)));
            assert(out.deep_view() == x + remaining(b, compose_replaced(self.units@, b)));
        }
        Ok((out, subs))
    }

    /// Runs the composition units one after the other, in unit order: returns their
    /// outputs concatenated followed by the pages that no unit replaced, and
    /// their reports, or the error of the first unit that fails.
    fn run_sequential(&self, bundle: &Vec<Page>) -> (r: Result<(Vec<Page>, Vec<ProcessingResult>), PagesError>)
        ensures
            compose_stage_runs(self.units@, bundle.deep_view(), runs_view(r)),
            r.is_ok() ==> reports_units(r.unwrap().1@, self.units@),
            r.is_err() ==> compose_errs(self.units@, bundle.deep_view(), r->Err_0, false),
        decreases self, 0int,
    {
        let ghost b = bundle.deep_view();
        let mut out: Vec<Page> = Vec::new();
        let mut replaced: Vec<Vec<String>> = Vec::new();
        let mut subs: Vec<ProcessingResult> = Vec::new();
        let mut i: usize = 0;
        proof {
            assert(self.units@.take(0) =~= Seq::<ComposeUnit<U>>::empty());
            assert(out.deep_view() =~= Seq::<PageView>::empty());
            assert(replaced.deep_view() =~= Seq::<Seq<Seq<char>>>::empty());
        }
        while i < self.units.len()
            invariant
                i <= self.units.len(),
                b == bundle.deep_view(),
                compose_runs(self.units@.take(i as int), b, Some(out.deep_view())),
                compose_replaced(self.units@.take(i as int), b) == replaced.deep_view(),
                reports_units(subs@, self.units@.take(i as int)),
            decreases self.units.len() - i,
        {
            let ghost x = out.deep_view();
            proof {
                assert(self.units@.take(i + 1).drop_last() =~= self.units@.take(i as int));
                assert(self.units@.take(i + 1).last() == self.units@[i as int]);
            }
            let ri = self.units[i].run(bundle);
            match ri {
                Ok((o, res, paths)) => {
                    let ghost y = o.deep_view();
                    append_pages(&mut out, o);
                    let ghost rb = replaced;
                    let ghost pg = paths;
                    let mut paths = paths;
                    replaced.append(&mut paths);
                    proof {
                        crate::strings::lemma_append_deep_view(rb, pg, replaced);
                    }
                    let ghost before = subs@;
                    subs.push(res);
                    proof {
                        assert(subs@.drop_last() =~= before);
                        lemma_compose_push(self.units@.take(i + 1), b, x, y);
                    }
                },
                Err(e) => {
                    proof {
                        assert(compose_runs(self.units@.take(i + 1), b, None));
                        lemma_compose_fails(self.units@, b, i + 1);
                        assert(compose_runs(self.units@.take(i as int), b, output_of(x)));
                        assert(compose_errs(self.units@.take(i + 1), b, e, false));
                        lemma_compose_errs_extend(self.units@, b, e, false, i + 1);
                    }
                    return Err(e);
                },
            }
            i = i + 1;
        }
        proof {
            assert(self.units@.take(self.units.len() as int) =~= self.units@);
        }
        let ghost x = out.deep_view();
        let rest = remaining_pages(bundle, &replaced);
        append_pages(&mut out, rest);
        proof {
            assert(compose_runs(self.units@, b, Some(x)));
            assert(out.deep_view() == x + remaining(b, compose_replaced(self.units@, b)));
        }
        Ok((out, subs))
    }
}

/// The outcome of a composition unit's run.
pub open spec fn unit_view(r: Result<(Vec<Page>, ProcessingResult, Vec<Vec<String>>), PagesError>) -> Option<Seq<PageView>> {
    match r {
        Ok(x) => Some(x.0.deep_view()),
        Err(_) => None,
    }
}

impl<U: CustomStage> ComposeUnit<U> {
    /// Runs the unit on a bundle: returns its output, its report and the
    /// paths it replaces, or the error of its stage.
    pub fn run(&self, bundle: &Vec<Page>) -> (r: Result<(Vec<Page>, ProcessingResult, Vec<Vec<String>>), PagesError>)
        ensures
            unit_runs(*self, bundle.deep_view(), unit_view(r)),
            r.is_ok() ==> reports_unit(r.unwrap().1, *self),
            r.is_ok() ==> r.unwrap().2.deep_view() == unit_replaced(*self, bundle.deep_view()),
            r.is_err() ==> unit_errs(*self, bundle.deep_view(), r->Err_0),
        decreases self, 0int,
    {
        match self {
            ComposeUnit::CreateNewSet(s) => {
                match s.process(bundle) {
                    Ok((o, res)) => {
                        let paths: Vec<Vec<String>> = Vec::new();
                        proof {
                            assert(paths.deep_view() =~= Seq::<Seq<Seq<char>>>::empty());
                        }
                        Ok((o, res, paths))
                    },
                    Err(e) => Err(e),
                }
            },
            ComposeUnit::ReplaceSubSet(sel, s) => {
                let selected = sel.select_pages(bundle);
                let paths = paths_of_pages(&selected);
                match s.process(&selected) {
                    Ok((o, res)) => Ok((o, res, paths)),
                    Err(e) => Err(e),
                }
            },
        }
    }
}

impl<U: CustomStage> SequenceStage<U> {
    /// Runs the stages one after the other, each on the output of the
    /// previous one: returns the last output and their reports, or the error
    /// of the first one that fails.
    pub fn run(&self, bundle: &Vec<Page>) -> (r: Result<(Vec<Page>, Vec<ProcessingResult>), PagesError>)
        ensures
            sequence_runs(self.stages@, bundle.deep_view(), runs_view(r)),
            r.is_ok() ==> reports_all(r.unwrap().1@, self.stages@),
            r.is_err() ==> sequence_errs(self.stages@, bundle.deep_view(), r->Err_0),
        decreases self, 0int,
    {
        let ghost ss = self.stages@;
        let ghost b = bundle.deep_view();
        let mut cur = copy_pages(bundle);
        let mut subs: Vec<ProcessingResult> = Vec::new();
        let mut i: usize = 0;
        proof {
            assert(ss.subrange(0, ss.len() as int) =~= ss);
            assert(ss.take(0) =~= Seq::<Stage<U>>::empty());
        }
        while i < self.stages.len()
            invariant
                i <= self.stages.len(),
                ss == self.stages@,
                b == bundle.deep_view(),
                forall|o: Option<Seq<PageView>>| #[trigger] sequence_runs(ss.subrange(i as int, ss.len() as int), cur.deep_view(), o)
                    ==> sequence_runs(ss, b, o),
                forall|e: PagesError| #[trigger] sequence_errs(ss.subrange(i as int, ss.len() as int), cur.deep_view(), e)
                    ==> sequence_errs(ss, b, e),
                reports_all(subs@, ss.take(i as int)),
            decreases self.stages.len() - i,
        {
            let ghost c = cur.deep_view();
            let ghost rest = ss.subrange(i as int, ss.len() as int);
            proof {
                assert(rest[0] == ss[i as int]);
                assert(rest.subrange(1, rest.len() as int) =~= ss.subrange(i + 1, ss.len() as int));
                assert(ss.take(i + 1).drop_last() =~= ss.take(i as int));
                assert(ss.take(i + 1).last() == ss[i as int]);
            }
            let ri = self.stages[i].process(&cur);
            match ri {
                Ok((o, res)) => {
                    let ghost y = o.deep_view();
                    cur = o;
                    let ghost before = subs@;
                    subs.push(res);
                    proof {
                        assert(subs@.drop_last() =~= before);
                        assert(stage_runs(rest[0], c, Some(y)));
                        assert forall|q: Option<Seq<PageView>>| #[trigger] sequence_runs(ss.subrange(i + 1, ss.len() as int), cur.deep_view(), q)
                            implies sequence_runs(ss, b, q) by {
                            assert(sequence_runs(rest.subrange(1, rest.len() as int), y, q));
                            lemma_sequence_step(rest, c, y, q);
                        }
                        assert forall|e: PagesError| #[trigger] sequence_errs(ss.subrange(i + 1, ss.len() as int), cur.deep_view(), e)
                            implies sequence_errs(ss, b, e) by {
                            assert(sequence_errs(rest.subrange(1, rest.len() as int), y, e));
                            assert(stage_runs(rest[0], c, output_of(y)));
                            assert(sequence_errs(rest, c, e));
                        }
                    }
                },
                Err(e) => {
                    proof {
                        assert(stage_runs(rest[0], c, None));
                        assert(sequence_runs(rest, c, None));
                        assert(sequence_errs(rest, c, e));
                    }
                    return Err(e);
                },
            }
            i = i + 1;
        }
        proof {
            assert(ss.take(ss.len() as int) =~= ss);
            assert(ss.subrange(ss.len() as int, ss.len() as int) =~= Seq::<Stage<U>>::empty());
            assert(sequence_runs(ss.subrange(ss.len() as int, ss.len() as int), cur.deep_view(), Some(cur.deep_view())));
        }
        Ok((cur, subs))
    }
}

} // verus!
