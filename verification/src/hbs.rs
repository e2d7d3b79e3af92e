//! The template stage: pages are matched with the page templates of a
//! template directory, asset templates and static files of the directory
//! become pages of their own. Reading the directory, running `npm` and
//! rendering are done by the caller; the decisions are made here.
use vstd::prelude::*;
use crate::assets::{TplAssetMetadata, asset_page, asset_pages, asset_selections, limit_ok, make_raw_hidden_metadata, raw_hidden_metadata};
use crate::errors::PagesError;
use crate::stages::ProcessingResult;
use crate::pages::{Body, BodyView, Metadata, Page, PageView, Value, ValueView, copy_opt_metadata};
use crate::strings::{copy_string, copy_strings, lemma_push_deep_view};
use crate::templates::{fetch_page_tpl_name, page_template};

verus! {

/// The `npm` program that builds a template directory with a `package.json`.
#[derive(Debug)]
pub struct DefaultNpmRunner {
    pub program: String,
}

impl DefaultNpmRunner {
    /// The runner of the `npm` found on the search path.
    pub fn new_npm_runner() -> (r: DefaultNpmRunner)
        ensures
            r.program@ == "npm"@,
    {
        DefaultNpmRunner { program: String::from_str("npm") }
    }
}

/// The template stage of the page pipeline: it renders pages with the
/// handlebars templates of a directory, building the directory with `npm`
/// first where it asks for it.
pub struct HbsStage<R> {
    pub name: String,
    pub tpl_path: String,
    pub npm_runner: R,
}

impl HbsStage<DefaultNpmRunner> {
    /// A template stage that builds with the `npm` of the search path.
    pub fn new(name: String, tpl_path: String) -> (r: Result<HbsStage<DefaultNpmRunner>, PagesError>)
        ensures
            r.is_ok(),
            r.unwrap().name@ == name@,
            r.unwrap().tpl_path@ == tpl_path@,
            r.unwrap().npm_runner.program@ == "npm"@,
    {
        Ok(HbsStage::new_with_npm_runner(name, tpl_path, DefaultNpmRunner::new_npm_runner()))
    }
}

impl<R> HbsStage<R> {
    /// A template stage that builds with a given runner.
    pub fn new_with_npm_runner(name: String, tpl_path: String, npm_runner: R) -> (r: HbsStage<R>)
        ensures
            r.name == name,
            r.tpl_path == tpl_path,
            r.npm_runner == npm_runner,
    {
        HbsStage { name, tpl_path, npm_runner }
    }

    /// The runner the stage builds with.
    pub fn npm_runner(&self) -> (r: &R)
        ensures
            *r == self.npm_runner,
    {
        &self.npm_runner
    }
}

/// The template lookup of the older template stage: a directory whose
/// templates and files are looked up, built with `npm` first where it asks
/// for it.
pub struct HandlebarsDir<R> {
    pub base_path: String,
    pub npm_runner: R,
}

impl HandlebarsDir<DefaultNpmRunner> {
    /// A lookup that builds with the `npm` of the search path.
    pub fn new(base_path: String) -> (r: Result<HandlebarsDir<DefaultNpmRunner>, PagesError>)
        ensures
            r.is_ok(),
            r.unwrap().base_path@ == base_path@,
            r.unwrap().npm_runner.program@ == "npm"@,
    {
        Ok(HandlebarsDir::new_with_npm_runner(base_path, DefaultNpmRunner::new_npm_runner()))
    }
}

impl<R> HandlebarsDir<R> {
    /// A lookup that builds with a given runner.
    pub fn new_with_npm_runner(base_path: String, npm_runner: R) -> (r: HandlebarsDir<R>)
        ensures
            r.base_path == base_path,
            r.npm_runner == npm_runner,
    {
        HandlebarsDir { base_path, npm_runner }
    }

    /// The runner the lookup builds with.
    pub fn npm_runner(&self) -> (r: &R)
        ensures
            *r == self.npm_runner,
    {
        &self.npm_runner
    }
}

/// The value stored under a key in the data of metadata: that of the first
/// entry with the key.
pub open spec fn data_get(d: Seq<(Seq<char>, ValueView)>, key: Seq<char>) -> Option<ValueView>
    decreases d.len(),
{
    if d.len() == 0 {
        None
    } else if d[0].0 == key {
        Some(d[0].1)
    } else {
        data_get(d.drop_first(), key)
    }
}

/// Returns whether the data holds the value `true` under a key.
pub fn data_flag(d: &Vec<(String, Value)>, key: &str) -> (r: bool)
    ensures
        r == (data_get(d.deep_view(), key@) == Some(ValueView::Bool(true))),
{
    let k = String::from_str(key);
    let mut i: usize = 0;
    proof {
        assert(d.deep_view().skip(0) =~= d.deep_view());
    }
    while i < d.len()
        invariant
            i <= d.len(),
            k@ == key@,
            data_get(d.deep_view(), key@) == data_get(d.deep_view().skip(i as int), key@),
        decreases d.len() - i,
    {
        let ghost rest = d.deep_view().skip(i as int);
        proof {
            assert(rest[0] == d.deep_view()[i as int]);
            assert(rest.drop_first() =~= d.deep_view().skip(i + 1));
        }
        if d[i].0 == k {
            return match &d[i].1 {
                Value::Bool(b) => *b,
                _ => false,
            };
        }
        i = i + 1;
    }
    proof {
        assert(d.deep_view().skip(d.len() as int) =~= Seq::<(Seq<char>, ValueView)>::empty());
    }
    false
}

/// Whether a page is raw: its metadata holds `isRaw` set to `true`, so that
/// template stages leave it as it is.
pub open spec fn is_raw(p: PageView) -> bool {
    p.metadata matches Some(m) && data_get(m.data, "isRaw"@) == Some(ValueView::Bool(true))
}

/// Returns whether a page is raw (see [`is_raw`]).
pub fn page_is_raw(p: &Page) -> (r: bool)
    ensures
        r == is_raw(p.deep_view()),
{
    match &p.metadata {
        Some(m) => data_flag(&m.data, "isRaw"),
        None => false,
    }
}

/// A page rendered with a page template around its body.
pub open spec fn templated(p: PageView, tpl_name: Seq<char>) -> PageView {
    PageView { body: BodyView::Template { tpl_name, source: Box::new(p.body) }, ..p }
}

/// What a template stage makes of a page, among the known page template
/// names: a raw page stays, another is rendered with its template (see
/// [`page_template`]), a page without a template is dropped.
pub open spec fn hbs_page(names: Seq<Seq<char>>, p: PageView) -> Option<PageView> {
    if is_raw(p) {
        Some(p)
    } else {
        match page_template(p.path, names) {
            Some(t) => Some(templated(p, t)),
            None => None,
        }
    }
}

/// What a template stage makes of a bundle: the page of each page that is
/// kept, in bundle order.
pub open spec fn hbs_output(names: Seq<Seq<char>>, b: Seq<PageView>) -> Seq<PageView>
    decreases b.len(),
{
    if b.len() == 0 {
        Seq::empty()
    } else {
        match hbs_page(names, b.last()) {
            Some(q) => hbs_output(names, b.drop_last()).push(q),
            None => hbs_output(names, b.drop_last()),
        }
    }
}

/// Whether each page that is not raw has a path, as finding its template
/// asks.
pub open spec fn templated_pages_have_paths(b: Seq<PageView>) -> bool {
    forall|i: int| 0 <= i < b.len() && !is_raw(#[trigger] b[i]) ==> b[i].path.len() > 0
}

/// Returns what a template stage makes of a bundle (see [`hbs_output`]),
/// among the known page template names.
pub fn render_pages(names: &Vec<String>, bundle: &Vec<Page>) -> (r: Vec<Page>)
    requires
        templated_pages_have_paths(bundle.deep_view()),
    ensures
        r.deep_view() == hbs_output(names.deep_view(), bundle.deep_view()),
{
    let mut r: Vec<Page> = Vec::new();
    let mut i: usize = 0;
    while i < bundle.len()
        invariant
            i <= bundle.len(),
            templated_pages_have_paths(bundle.deep_view()),
            r.deep_view() == hbs_output(names.deep_view(), bundle.deep_view().take(i as int)),
        decreases bundle.len() - i,
    {
        proof {
            assert(bundle.deep_view().take(i + 1).drop_last() =~= bundle.deep_view().take(i as int));
            assert(bundle.deep_view().take(i + 1).last() == bundle.deep_view()[i as int]);
        }
        let p = &bundle[i];
        if page_is_raw(p) {
            let ghost before = r;
            let q = p.duplicate();
            r.push(q);
            proof {
                lemma_push_deep_view(before, r, q);
            }
        } else {
            proof {
                assert(!is_raw(bundle.deep_view()[i as int]));
            }
            match fetch_page_tpl_name(names, &p.path) {
                Some(t) => {
                    let q = Page {
                        path: copy_strings(&p.path),
                        metadata: copy_opt_metadata(&p.metadata),
                        body: Body::Template { tpl_name: t, source: Box::new(p.body.duplicate()) },
                    };
                    let ghost before = r;
                    r.push(q);
                    proof {
                        lemma_push_deep_view(before, r, q);
                        assert(q.deep_view() == templated(p.deep_view(), t@));
                    }
                },
                None => {},
            }
        }
        i = i + 1;
    }
    proof {
        assert(bundle.deep_view().take(bundle.len() as int) =~= bundle.deep_view());
    }
    r
}

/// Whether each page that is not raw has a path (see
/// [`templated_pages_have_paths`]).
pub fn templated_paths_ok(bundle: &Vec<Page>) -> (r: bool)
    ensures
        r == templated_pages_have_paths(bundle.deep_view()),
{
    let mut i: usize = 0;
    while i < bundle.len()
        invariant
            i <= bundle.len(),
            forall|j: int| 0 <= j < i && !is_raw(#[trigger] bundle.deep_view()[j]) ==> bundle.deep_view()[j].path.len() > 0,
        decreases bundle.len() - i,
    {
        if !page_is_raw(&bundle[i]) && bundle[i].path.len() == 0 {
            proof {
                assert(!is_raw(bundle.deep_view()[i as int]) && bundle.deep_view()[i as int].path.len() == 0);
            }
            return false;
        }
        i = i + 1;
    }
    true
}

impl<R> HbsStage<R> {
    /// Runs the stage on a bundle, given what its template directory holds:
    /// the page template names and the generator `g` of its assets. `g` is
    /// registered after the generators of the stages run before, and the
    /// pages are rendered (see [`hbs_output`]); where a page that is not raw
    /// has no path, nothing is registered and the run fails.
    pub fn process_with<G>(&self, names: &Vec<String>, g: G, bundle: &Vec<Page>, bag: &mut PageGeneratorBagImpl<G>) -> (r: Result<(Vec<Page>, ProcessingResult), PagesError>)
        ensures
            r.is_ok() == templated_pages_have_paths(bundle.deep_view()),
            r.is_ok() ==> r.unwrap().0.deep_view() == hbs_output(names.deep_view(), bundle.deep_view()),
            r.is_ok() ==> r.unwrap().1.stage_name@ == self.name@ && r.unwrap().1.sub_results@.len() == 0,
            r.is_ok() ==> final(bag).bag@ == old(bag).bag@.push(g),
            r.is_err() ==> final(bag).bag@ == old(bag).bag@,
    {
        let start = crate::stages::now_millis();
        if !templated_paths_ok(bundle) {
            return Err(PagesError::Exec(String::from_str("a page without path cannot be rendered")));
        }
        let _ = bag.push(g);
        let out = render_pages(names, bundle);
        Ok((out, crate::stages::leaf_result(copy_string(&self.name), start)))
    }
}

/// What a template directory holds besides page templates: asset templates
/// (with their description, where they have one) and static files.
#[derive(Debug)]
pub enum TplAsset {
    /// The template `tpl_name`, which yields pages at `asset_path`.
    Tpl { asset_path: Vec<String>, tpl_name: String, metadata: Option<TplAssetMetadata> },
    /// A file at `file_path`, under `base_path`, copied as is to `rel_path`.
    Static { base_path: String, file_path: String, rel_path: Vec<String> },
}

/// The templates of a directory: the names of its page templates and its
/// assets, in the order the directory was read.
#[derive(Debug)]
pub struct TplModel {
    pub pages_tpl_names: Vec<String>,
    pub assets: Vec<TplAsset>,
}

/// Whether every asset description can be used on an output bundle (see
/// [`limit_ok`]).
pub open spec fn limits_ok(assets: Seq<TplAsset>, b: Seq<PageView>) -> bool {
    forall|i: int| 0 <= i < assets.len() ==> match #[trigger] assets[i] {
        TplAsset::Tpl { metadata: Some(m), .. } => limit_ok(m, b),
        _ => true,
    }
}

/// The page of a static file of the template directory.
pub open spec fn static_page(base_path: Seq<char>, file_path: Seq<char>, rel_path: Seq<Seq<char>>) -> PageView {
    PageView {
        path: rel_path,
        metadata: Some(raw_hidden_metadata()),
        body: BodyView::File { base_path, file_path },
    }
}

/// The pages an asset yields for an output bundle, or `None` where the path
/// of one cannot be rendered.
pub open spec fn asset_output(a: TplAsset, b: Seq<PageView>) -> Option<Seq<PageView>> {
    match a {
        TplAsset::Tpl { asset_path, tpl_name, metadata } => match metadata {
            Some(m) => asset_pages(m, asset_path.deep_view(), tpl_name@, asset_selections(m, b)),
            None => Some(seq![asset_page(asset_path.deep_view(), tpl_name@, None)]),
        },
        TplAsset::Static { base_path, file_path, rel_path } => Some(seq![static_page(base_path@, file_path@, rel_path.deep_view())]),
    }
}

/// The pages the assets yield, asset after asset, or `None` where one fails.
pub open spec fn model_output(assets: Seq<TplAsset>, b: Seq<PageView>) -> Option<Seq<PageView>>
    decreases assets.len(),
{
    if assets.len() == 0 {
        Some(Seq::empty())
    } else {
        match model_output(assets.drop_last(), b) {
            Some(o) => match asset_output(assets.last(), b) {
                Some(l) => Some(o + l),
                None => None,
            },
            None => None,
        }
    }
}

/// If the assets fail from some point on, so do all of them.
proof fn lemma_model_output_fails(assets: Seq<TplAsset>, b: Seq<PageView>, k: int)
    requires
        0 <= k <= assets.len(),
        model_output(assets.take(k), b).is_none(),
    ensures
        model_output(assets, b).is_none(),
    decreases assets.len() - k,
{
    if k < assets.len() {
        assert(assets.take(k + 1).drop_last() =~= assets.take(k));
        lemma_model_output_fails(assets, b, k + 1);
    } else {
        assert(assets.take(k) =~= assets);
    }
}

/// Something that yields pages for the output bundle once every stage has
/// run.
pub trait PageGenerator {
    /// Returns the pages yielded for an output bundle.
    fn yield_pages(&self, output_bundle: &Vec<Page>) -> Result<Vec<Page>, PagesError>;
}

impl TplModel {
    /// Returns the pages one asset yields (see [`asset_output`]).
    fn asset_yield(a: &TplAsset, output_bundle: &Vec<Page>) -> (r: Result<Vec<Page>, PagesError>)
        requires
            match *a {
                TplAsset::Tpl { metadata: Some(m), .. } => limit_ok(m, output_bundle.deep_view()),
                _ => true,
            },
        ensures
            r.is_ok() == asset_output(*a, output_bundle.deep_view()).is_some(),
            r.is_ok() ==> r.unwrap().deep_view() == asset_output(*a, output_bundle.deep_view()).unwrap(),
    {
        match a {
            TplAsset::Tpl { asset_path, tpl_name, metadata } => match metadata {
                Some(m) => m.yield_pages(asset_path, tpl_name, output_bundle),
                None => {
                    let p = Page {
                        path: copy_strings(asset_path),
                        metadata: Some(make_raw_hidden_metadata()),
                        body: Body::Asset { tpl_name: copy_string(tpl_name), selection: None },
                    };
                    let mut v: Vec<Page> = Vec::new();
                    let ghost v0 = v;
                    v.push(p);
                    proof {
                        lemma_push_deep_view(v0, v, p);
                        assert(v.deep_view() =~= seq![p.deep_view()]);
                    }
                    Ok(v)
                },
            },
            TplAsset::Static { base_path, file_path, rel_path } => {
                let p = Page {
                    path: copy_strings(rel_path),
                    metadata: Some(make_raw_hidden_metadata()),
                    body: Body::File { base_path: copy_string(base_path), file_path: copy_string(file_path) },
                };
                let mut v: Vec<Page> = Vec::new();
                let ghost v0 = v;
                v.push(p);
                proof {
                    lemma_push_deep_view(v0, v, p);
                    assert(v.deep_view() =~= seq![p.deep_view()]);
                }
                Ok(v)
            },
        }
    }

    /// Returns the pages the assets of the model yield for an output bundle
    /// (see [`model_output`]), or the first error.
    pub fn generate(&self, output_bundle: &Vec<Page>) -> (r: Result<Vec<Page>, PagesError>)
        requires
            limits_ok(self.assets@, output_bundle.deep_view()),
        ensures
            r.is_ok() == model_output(self.assets@, output_bundle.deep_view()).is_some(),
            r.is_ok() ==> r.unwrap().deep_view() == model_output(self.assets@, output_bundle.deep_view()).unwrap(),
    {
        let ghost av = self.assets@;
        let ghost b = output_bundle.deep_view();
        let mut r: Vec<Page> = Vec::new();
        let mut i: usize = 0;
        proof {
            assert(av.take(0) =~= Seq::<TplAsset>::empty());
            assert(r.deep_view() =~= Seq::<PageView>::empty());
        }
        while i < self.assets.len()
            invariant
                i <= self.assets.len(),
                av == self.assets@,
                b == output_bundle.deep_view(),
                limits_ok(av, b),
                model_output(av.take(i as int), b) == Some(r.deep_view()),
            decreases self.assets.len() - i,
        {
            proof {
                assert(av.take(i + 1).drop_last() =~= av.take(i as int));
                assert(av.take(i + 1).last() == av[i as int]);
                assert(match av[i as int] {
                    TplAsset::Tpl { metadata: Some(m), .. } => limit_ok(m, b),
                    _ => true,
                });
            }
            match TplModel::asset_yield(&self.assets[i], output_bundle) {
                Ok(pages) => {
                    crate::bundle::append_pages(&mut r, pages);
                },
                Err(e) => {
                    proof {
                        lemma_model_output_fails(av, b, i + 1);
                    }
                    return Err(e);
                },
            }
            i = i + 1;
        }
        proof {
            assert(av.take(self.assets.len() as int) =~= av);
        }
        Ok(r)
    }

    /// Returns the page that renders a page of the bundle: the page itself
    /// with its page template around its body (see [`page_template`]), or
    /// `None` where no template fits.
    pub fn fetch(&self, page: &Page) -> (r: Option<Page>)
        requires
            page.path.len() > 0,
        ensures
            r.is_some() == page_template(page.deep_view().path, self.pages_tpl_names.deep_view()).is_some(),
            r.is_some() ==> r.unwrap().deep_view() == templated(
                page.deep_view(),
                page_template(page.deep_view().path, self.pages_tpl_names.deep_view()).unwrap(),
            ),
    {
        match fetch_page_tpl_name(&self.pages_tpl_names, &page.path) {
            Some(t) => Some(Page {
                path: copy_strings(&page.path),
                metadata: copy_opt_metadata(&page.metadata),
                body: Body::Template { tpl_name: t, source: Box::new(page.body.duplicate()) },
            }),
            None => None,
        }
    }
}

impl PageGenerator for TplModel {
    /// Returns the pages the assets of the model yield; an asset whose
    /// description asks for slices of size zero while its groups match
    /// pages is refused (the slices would never end).
    fn yield_pages(&self, output_bundle: &Vec<Page>) -> (r: Result<Vec<Page>, PagesError>)
        ensures
            limits_ok(self.assets@, output_bundle.deep_view()) ==> r.is_ok() == model_output(self.assets@, output_bundle.deep_view()).is_some(),
            limits_ok(self.assets@, output_bundle.deep_view()) && r.is_ok() ==> r.unwrap().deep_view() == model_output(self.assets@, output_bundle.deep_view()).unwrap(),
            !limits_ok(self.assets@, output_bundle.deep_view()) ==> r.is_err(),
    {
        let ghost b = output_bundle.deep_view();
        let mut i: usize = 0;
        while i < self.assets.len()
            invariant
                i <= self.assets.len(),
                b == output_bundle.deep_view(),
                forall|j: int| 0 <= j < i ==> match #[trigger] self.assets@[j] {
                    TplAsset::Tpl { metadata: Some(m), .. } => limit_ok(m, b),
                    _ => true,
                },
            decreases self.assets.len() - i,
        {
            let usable = match &self.assets[i] {
                TplAsset::Tpl { metadata: Some(m), .. } => m.limit_usable(output_bundle),
                _ => true,
            };
            if !usable {
                return Err(PagesError::Exec(String::from_str("asset pages of size 0")));
            }
            i = i + 1;
        }
        self.generate(output_bundle)
    }
}

/// The position of the first description recorded for an asset name.
pub open spec fn meta_index(es: Seq<(String, TplAssetMetadata)>, key: Seq<char>) -> Option<int>
    decreases es.len(),
{
    if es.len() == 0 {
        None
    } else if es[0].0@ == key {
        Some(0)
    } else {
        match meta_index(es.drop_first(), key) {
            Some(j) => Some(j + 1),
            None => None,
        }
    }
}

/// A position found by [`meta_index`] lies inside the list and holds the key.
proof fn lemma_meta_index(es: Seq<(String, TplAssetMetadata)>, key: Seq<char>)
    ensures
        meta_index(es, key) matches Some(j) ==> 0 <= j < es.len() && es[j].0@ == key,
        meta_index(es, key) is None ==> forall|j: int| 0 <= j < es.len() ==> es[j].0@ != key,
    decreases es.len(),
{
    if es.len() > 0 && es[0].0@ != key {
        lemma_meta_index(es.drop_first(), key);
        assert forall|j: int| 0 < j < es.len() implies es[j] == es.drop_first()[j - 1] by {}
    }
}

/// The descriptions with one recorded for an asset name: it replaces the
/// one recorded before for the name, if any, else it is appended.
pub open spec fn insert_meta(es: Seq<(String, TplAssetMetadata)>, key: String, m: TplAssetMetadata) -> Seq<(String, TplAssetMetadata)> {
    match meta_index(es, key@) {
        Some(j) => es.update(j, (key, m)),
        None => es.push((key, m)),
    }
}

/// The assets with the recorded descriptions attached: going through the
/// assets in order, an asset template takes, and removes, the description
/// recorded for its name.
pub open spec fn attach(assets: Seq<TplAsset>, es: Seq<(String, TplAssetMetadata)>) -> Seq<TplAsset>
    decreases assets.len(),
{
    if assets.len() == 0 {
        Seq::empty()
    } else {
        match assets[0] {
            TplAsset::Tpl { asset_path, tpl_name, metadata } => match meta_index(es, tpl_name@) {
                Some(j) => seq![TplAsset::Tpl { asset_path, tpl_name, metadata: Some(es[j].1) }] + attach(assets.drop_first(), es.remove(j)),
                None => seq![assets[0]] + attach(assets.drop_first(), es),
            },
            _ => seq![assets[0]] + attach(assets.drop_first(), es),
        }
    }
}

/// A template model being built from the files of a template directory,
/// with the asset descriptions read so far.
pub struct TplModelBuilder {
    pub model: TplModel,
    pub metadata: Vec<(String, TplAssetMetadata)>,
}

impl TplModelBuilder {
    /// A builder with nothing recorded.
    pub fn new() -> (r: TplModelBuilder)
        ensures
            r.model.pages_tpl_names@.len() == 0,
            r.model.assets@.len() == 0,
            r.metadata@.len() == 0,
    {
        TplModelBuilder {
            model: TplModel { pages_tpl_names: Vec::new(), assets: Vec::new() },
            metadata: Vec::new(),
        }
    }

    /// Records a page template name; a name is recorded once.
    pub fn add_page_template(&mut self, tpl_name: String)
        ensures
            final(self).model.pages_tpl_names.deep_view() == if old(self).model.pages_tpl_names.deep_view().contains(tpl_name@) {
                old(self).model.pages_tpl_names.deep_view()
            } else {
                old(self).model.pages_tpl_names.deep_view().push(tpl_name@)
            },
            final(self).model.assets == old(self).model.assets,
            final(self).metadata == old(self).metadata,
    {
        if !crate::metadata::contains_string(&self.model.pages_tpl_names, &tpl_name) {
            let ghost before = self.model.pages_tpl_names;
            self.model.pages_tpl_names.push(tpl_name);
            proof {
                lemma_push_deep_view(before, self.model.pages_tpl_names, tpl_name);
            }
        }
    }

    /// Records an asset template, without description yet.
    pub fn add_asset(&mut self, asset_path: Vec<String>, tpl_name: String)
        ensures
            final(self).model.assets@ == old(self).model.assets@.push(
                TplAsset::Tpl { asset_path, tpl_name, metadata: None },
            ),
            final(self).model.pages_tpl_names == old(self).model.pages_tpl_names,
            final(self).metadata == old(self).metadata,
    {
        self.model.assets.push(TplAsset::Tpl { asset_path, tpl_name, metadata: None });
    }

    /// Records a static file.
    pub fn add_static(&mut self, base_path: String, file_path: String, rel_path: Vec<String>)
        ensures
            final(self).model.assets@ == old(self).model.assets@.push(
                TplAsset::Static { base_path, file_path, rel_path },
            ),
            final(self).model.pages_tpl_names == old(self).model.pages_tpl_names,
            final(self).metadata == old(self).metadata,
    {
        self.model.assets.push(TplAsset::Static { base_path, file_path, rel_path });
    }

    /// Records the description of an asset (see [`insert_meta`]).
    pub fn add_asset_metadata(&mut self, tpl_name: String, m: TplAssetMetadata)
        ensures
            final(self).metadata@ == insert_meta(old(self).metadata@, tpl_name, m),
            final(self).model == old(self).model,
    {
        let mut i: usize = 0;
        proof {
            assert(self.metadata@.skip(0) =~= self.metadata@);
        }
        while i < self.metadata.len()
            invariant
                i <= self.metadata.len(),
                self.metadata@ == old(self).metadata@,
                self.model == old(self).model,
                meta_index(self.metadata@, tpl_name@) == match meta_index(self.metadata@.skip(i as int), tpl_name@) {
                    Some(j) => Some(j + i),
                    None => None,
                },
                forall|j: int| 0 <= j < i ==> self.metadata@[j].0@ != tpl_name@,
            decreases self.metadata.len() - i,
        {
            let ghost rest = self.metadata@.skip(i as int);
            proof {
                assert(rest[0] == self.metadata@[i as int]);
                assert(rest.drop_first() =~= self.metadata@.skip(i + 1));
            }
            if self.metadata[i].0 == tpl_name {
                self.metadata.set(i, (tpl_name, m));
                return;
            }
            i = i + 1;
        }
        proof {
            assert(self.metadata@.skip(i as int) =~= Seq::<(String, TplAssetMetadata)>::empty());
        }
        self.metadata.push((tpl_name, m));
    }

    /// Returns the model, each asset template with the description recorded
    /// for its name (see [`attach`]).
    pub fn finish(self) -> (r: TplModel)
        ensures
            r.pages_tpl_names == self.model.pages_tpl_names,
            r.assets@ == attach(self.model.assets@, self.metadata@),
    {
        let TplModelBuilder { model, metadata } = self;
        let TplModel { pages_tpl_names, assets } = model;
        let ghost whole = attach(assets@, metadata@);
        let mut rest = assets;
        let mut es = metadata;
        let mut out: Vec<TplAsset> = Vec::new();
        proof {
            assert(out@ + attach(rest@, es@) =~= whole);
        }
        while rest.len() > 0
            invariant
                out@ + attach(rest@, es@) == whole,
            decreases rest.len(),
        {
            let ghost r0 = rest@;
            let ghost e0 = es@;
            let a = rest.remove(0);
            proof {
                assert(rest@ =~= r0.drop_first());
            }
            match a {
                TplAsset::Tpl { asset_path, tpl_name, metadata } => {
                    let mut found: Option<usize> = None;
                    let mut j: usize = 0;
                    while j < es.len()
                        invariant
                            j <= es.len(),
                            es@ == e0,
                            found is None ==> forall|k: int| 0 <= k < j ==> es@[k].0@ != tpl_name@,
                            found matches Some(f) ==> f < es.len() && meta_index(e0, tpl_name@) == Some(f as int),
                        decreases es.len() - j,
                    {
                        if found.is_none() && es[j].0 == tpl_name {
                            proof {
                                lemma_meta_index(e0, tpl_name@);
                                lemma_first_key(e0, tpl_name@, j as int);
                            }
                            found = Some(j);
                        }
                        j = j + 1;
                    }
                    proof {
                        lemma_meta_index(e0, tpl_name@);
                    }
                    match found {
                        Some(f) => {
                            let (_, m) = es.remove(f);
                            let t = TplAsset::Tpl { asset_path, tpl_name, metadata: Some(m) };
                            let ghost o0 = out@;
                            out.push(t);
                            proof {
                                assert(es@ =~= e0.remove(f as int));
                                assert(out@ + attach(rest@, es@) =~= o0 + attach(r0, e0));
                            }
                        },
                        None => {
                            proof {
                                if meta_index(e0, tpl_name@) is Some {
                                    let k = meta_index(e0, tpl_name@).unwrap();
                                    assert(e0[k].0@ == tpl_name@);
                                }
                            }
                            let t = TplAsset::Tpl { asset_path, tpl_name, metadata };
                            let ghost o0 = out@;
                            out.push(t);
                            proof {
                                assert(out@ + attach(rest@, es@) =~= o0 + attach(r0, e0));
                            }
                        },
                    }
                },
                TplAsset::Static { base_path, file_path, rel_path } => {
                    let t = TplAsset::Static { base_path, file_path, rel_path };
                    let ghost o0 = out@;
                    out.push(t);
                    proof {
                        assert(out@ + attach(rest@, es@) =~= o0 + attach(r0, e0));
                    }
                },
            }
        }
        proof {
            assert(attach(rest@, es@) =~= Seq::<TplAsset>::empty());
            assert(out@ =~= whole);
        }
        TplModel { pages_tpl_names, assets: out }
    }
}

/// The first position holding a key, where no earlier one holds it, is the
/// one [`meta_index`] finds.
proof fn lemma_first_key(es: Seq<(String, TplAssetMetadata)>, key: Seq<char>, j: int)
    requires
        0 <= j < es.len(),
        es[j].0@ == key,
        forall|k: int| 0 <= k < j ==> es[k].0@ != key,
    ensures
        meta_index(es, key) == Some(j),
    decreases j,
{
    if j > 0 {
        assert forall|k: int| 0 <= k < j - 1 implies es.drop_first()[k].0@ != key by {
            assert(es.drop_first()[k] == es[k + 1]);
        }
        lemma_first_key(es.drop_first(), key, j - 1);
    }
}

/// The generators registered by the stages of a run.
pub trait PageGeneratorBag<G> {
    /// Registers a generator.
    fn push(&mut self, g: G) -> Result<(), PagesError>;

    /// The generators registered so far, in order.
    fn all(&self) -> Result<&Vec<G>, PagesError>;
}

/// A list of registered generators.
pub struct PageGeneratorBagImpl<G> {
    pub bag: Vec<G>,
}

impl<G> PageGeneratorBagImpl<G> {
    /// A bag with no generator.
    pub fn new() -> (r: PageGeneratorBagImpl<G>)
        ensures
            r.bag@.len() == 0,
    {
        PageGeneratorBagImpl { bag: Vec::new() }
    }
}

impl<G> PageGeneratorBag<G> for PageGeneratorBagImpl<G> {
    /// Registers a generator after the others.
    fn push(&mut self, g: G) -> (r: Result<(), PagesError>)
        ensures
            r.is_ok(),
            final(self).bag@ == old(self).bag@.push(g),
    {
        self.bag.push(g);
        Ok(())
    }

    /// The generators registered so far, in order.
    fn all(&self) -> (r: Result<&Vec<G>, PagesError>)
        ensures
            r.is_ok(),
            r.unwrap()@ == self.bag@,
    {
        Ok(&self.bag)
    }
}

/// An asset template found by the template lookup: the page it renders at
/// `path`, with its metadata.
#[derive(Debug)]
pub struct TemplateAsset {
    pub path: Vec<String>,
    pub template_name: String,
    pub metadata: Option<Metadata>,
}

/// What the template lookup finds in a directory: the names of its page
/// templates, its asset templates and its static files.
#[derive(Debug)]
pub struct HandlebarsDirResult {
    pub pages: Vec<String>,
    pub template_assets: Vec<TemplateAsset>,
    pub static_assets: Vec<Page>,
}

/// The page of an asset template of the template lookup.
pub open spec fn template_asset_page(t: TemplateAsset) -> PageView {
    PageView {
        path: t.path.deep_view(),
        metadata: t.metadata.deep_view(),
        body: BodyView::Asset { tpl_name: t.template_name@, selection: None },
    }
}

/// What the older template stage makes of a bundle with what the lookup
/// found: the pages of the bundle kept or rendered (see [`hbs_output`]),
/// then the static files, then the pages of the asset templates.
pub open spec fn handlebars_output(r: HandlebarsDirResult, b: Seq<PageView>) -> Seq<PageView> {
    hbs_output(r.pages.deep_view(), b) + r.static_assets.deep_view() + r.template_assets@.map_values(
        |t: TemplateAsset| template_asset_page(t),
    )
}

impl HandlebarsDirResult {
    /// A lookup result with nothing found.
    pub fn new() -> (r: HandlebarsDirResult)
        ensures
            r.pages@.len() == 0,
            r.template_assets@.len() == 0,
            r.static_assets@.len() == 0,
    {
        HandlebarsDirResult { pages: Vec::new(), template_assets: Vec::new(), static_assets: Vec::new() }
    }

    /// Records a page template name.
    pub fn add_page_template(&mut self, name: String)
        ensures
            final(self).pages.deep_view() == old(self).pages.deep_view().push(name@),
            final(self).template_assets == old(self).template_assets,
            final(self).static_assets == old(self).static_assets,
    {
        let ghost before = self.pages;
        self.pages.push(name);
        proof {
            lemma_push_deep_view(before, self.pages, name);
        }
    }

    /// Records an asset template, whose page is raw and hidden.
    pub fn add_template_asset(&mut self, path: Vec<String>, template_name: String)
        ensures
            final(self).template_assets@.len() == old(self).template_assets@.len() + 1,
            final(self).template_assets@.drop_last() == old(self).template_assets@,
            template_asset_page(final(self).template_assets@.last()) == (PageView {
                path: path.deep_view(),
                metadata: Some(raw_hidden_metadata()),
                body: BodyView::Asset { tpl_name: template_name@, selection: None },
            }),
            final(self).pages == old(self).pages,
            final(self).static_assets == old(self).static_assets,
    {
        self.template_assets.push(TemplateAsset { path, template_name, metadata: Some(make_raw_hidden_metadata()) });
        proof {
            assert(self.template_assets@.drop_last() =~= old(self).template_assets@);
        }
    }

    /// Records a static file, whose page is raw and hidden.
    pub fn add_static(&mut self, base_path: String, file_path: String, rel_path: Vec<String>)
        ensures
            final(self).static_assets.deep_view() == old(self).static_assets.deep_view().push(
                static_page(base_path@, file_path@, rel_path.deep_view()),
            ),
            final(self).pages == old(self).pages,
            final(self).template_assets == old(self).template_assets,
    {
        let p = Page {
            path: rel_path,
            metadata: Some(make_raw_hidden_metadata()),
            body: Body::File { base_path, file_path },
        };
        let ghost before = self.static_assets;
        self.static_assets.push(p);
        proof {
            lemma_push_deep_view(before, self.static_assets, p);
        }
    }

    /// Returns what the older template stage makes of a bundle (see
    /// [`handlebars_output`]).
    pub fn process_pages(&self, bundle: &Vec<Page>) -> (r: Vec<Page>)
        requires
            templated_pages_have_paths(bundle.deep_view()),
        ensures
            r.deep_view() == handlebars_output(*self, bundle.deep_view()),
    {
        let mut out = render_pages(&self.pages, bundle);
        let statics = crate::pages::copy_pages(&self.static_assets);
        crate::bundle::append_pages(&mut out, statics);
        push_template_asset_pages(&mut out, &self.template_assets);
        out
    }
}

/// Appends the page of each asset template, in order.
fn push_template_asset_pages(out: &mut Vec<Page>, ts: &Vec<TemplateAsset>)
    ensures
        final(out).deep_view() == old(out).deep_view() + ts@.map_values(|t: TemplateAsset| template_asset_page(t)),
{
    let ghost prefix = out.deep_view();
    let mut i: usize = 0;
    while i < ts.len()
        invariant
            i <= ts.len(),
            out.deep_view() == prefix + ts@.take(i as int).map_values(|t: TemplateAsset| template_asset_page(t)),
        decreases ts.len() - i,
    {
        let t = &ts[i];
        let p = Page {
            path: copy_strings(&t.path),
            metadata: copy_opt_metadata(&t.metadata),
            body: Body::Asset { tpl_name: copy_string(&t.template_name), selection: None },
        };
        let ghost before = *out;
        out.push(p);
        proof {
            lemma_push_deep_view(before, *out, p);
            assert(ts@.take(i + 1).map_values(|t: TemplateAsset| template_asset_page(t))
                =~= ts@.take(i as int).map_values(|t: TemplateAsset| template_asset_page(t)).push(template_asset_page(*t)));
            assert(out.deep_view() =~= prefix + ts@.take(i + 1).map_values(|t: TemplateAsset| template_asset_page(t)));
        }
        i = i + 1;
    }
    proof {
        assert(ts@.take(ts.len() as int) =~= ts@);
    }
}

/// What a template lookup found, as the older template stage reads it:
/// [`HandlebarsDirResult`] for a template directory, or a result of the
/// user's own.
pub trait HandlebarsLookupResult {
    /// The name of the page template that renders `page`, if one does.
    fn fetch(&self, page: &Page) -> (r: Option<String>)
        requires
            page.path@.len() > 0,
    ;

    /// The pages of the static files found.
    fn assets(&self) -> (r: Vec<Page>);

    /// The asset templates found.
    fn template_assets(&self) -> (r: Vec<TemplateAsset>);
}

/// A template lookup of the older template stage: it finds page templates,
/// asset templates and static files.
pub trait HandlebarsLookup {
    type Found: HandlebarsLookupResult;

    /// Looks the templates up.
    fn lookup(&self) -> (r: Result<Self::Found, PagesError>);
}

fn copy_template_asset(t: &TemplateAsset) -> (r: TemplateAsset)
    ensures
        template_asset_page(r) == template_asset_page(*t),
{
    TemplateAsset { path: copy_strings(&t.path), template_name: copy_string(&t.template_name), metadata: copy_opt_metadata(&t.metadata) }
}

impl HandlebarsLookupResult for HandlebarsDirResult {
    /// The page template of the page's path among those of the directory
    /// (see [`page_template`]).
    fn fetch(&self, page: &Page) -> (r: Option<String>)
        ensures
            r.deep_view() == page_template(page.path.deep_view(), self.pages.deep_view()),
    {
        let r = fetch_page_tpl_name(&self.pages, &page.path);
        proof {
            if r.is_some() {
                assert(r.deep_view() == Some(r.unwrap()@));
            }
        }
        r
    }

    /// The pages of the static files of the directory.
    fn assets(&self) -> (r: Vec<Page>)
        ensures
            r.deep_view() == self.static_assets.deep_view(),
    {
        crate::pages::copy_pages(&self.static_assets)
    }

    /// The asset templates of the directory.
    fn template_assets(&self) -> (r: Vec<TemplateAsset>)
        ensures
            r@.map_values(|t: TemplateAsset| template_asset_page(t)) == self.template_assets@.map_values(
                |t: TemplateAsset| template_asset_page(t),
            ),
    {
        let mut r: Vec<TemplateAsset> = Vec::new();
        let mut i: usize = 0;
        while i < self.template_assets.len()
            invariant
                i <= self.template_assets.len(),
                r@.len() == i,
                forall|k: int| 0 <= k < i ==> template_asset_page(#[trigger] r@[k]) == template_asset_page(self.template_assets@[k]),
            decreases self.template_assets.len() - i,
        {
            let t = copy_template_asset(&self.template_assets[i]);
            r.push(t);
            i = i + 1;
        }
        proof {
            assert(r@.map_values(|t: TemplateAsset| template_asset_page(t)) =~= self.template_assets@.map_values(
                |t: TemplateAsset| template_asset_page(t),
            ));
        }
        r
    }
}

/// What the older template stage makes of a page, given what the lookup
/// fetched for it: a raw page stays, another is rendered with the fetched
/// page template, a page with none is dropped.
pub open spec fn fetched_page(p: PageView, f: Option<Seq<char>>) -> Option<PageView> {
    if is_raw(p) {
        Some(p)
    } else {
        match f {
            Some(t) => Some(templated(p, t)),
            None => None,
        }
    }
}

/// The pages the older template stage keeps of a bundle, in order, where
/// `fs[k]` is what the lookup fetched for page `k`.
pub open spec fn fetched_pages(b: Seq<PageView>, fs: Seq<Option<Seq<char>>>) -> Seq<PageView>
    decreases b.len(),
{
    if b.len() == 0 {
        Seq::empty()
    } else {
        match fetched_page(b.last(), fs[b.len() - 1]) {
            Some(q) => fetched_pages(b.drop_last(), fs).push(q),
            None => fetched_pages(b.drop_last(), fs),
        }
    }
}

/// What the older template stage makes of a bundle, given the answers of
/// the lookup: the pages kept (see [`fetched_pages`]), then the static
/// files, then the pages of the asset templates.
pub open spec fn found_output(b: Seq<PageView>, fs: Seq<Option<String>>, assets: Seq<PageView>, tpls: Seq<TemplateAsset>) -> Seq<PageView> {
    fetched_pages(b, fs.map_values(|f: Option<String>| f.deep_view())) + assets + tpls.map_values(
        |t: TemplateAsset| template_asset_page(t),
    )
}

/// Whether these are answers that a lookup result may give the older
/// template stage on a bundle: `fs[k]` from its `fetch` on page `k` where
/// that page is not raw (`None` for a raw page), `assets` from its `assets`
/// and `tpls` from its `template_assets`.
pub open spec fn lookup_answers<F: HandlebarsLookupResult>(found: F, bundle: Seq<Page>, fs: Seq<Option<String>>, assets: Vec<Page>, tpls: Vec<TemplateAsset>) -> bool {
    &&& fs.len() == bundle.len()
    &&& forall|k: int| 0 <= k < bundle.len() ==> (if is_raw(#[trigger] bundle[k].deep_view()) {
        fs[k] is None
    } else {
        call_ensures(F::fetch, (&found, &bundle[k]), fs[k])
    })
    &&& call_ensures(F::assets, (&found,), assets)
    &&& call_ensures(F::template_assets, (&found,), tpls)
}

/// Whether `out` is what the older template stage makes of `bundle` with
/// what `found` answers (see [`lookup_answers`] and [`found_output`]).
pub open spec fn lookup_runs<F: HandlebarsLookupResult>(found: F, bundle: Seq<Page>, out: Seq<PageView>) -> bool {
    exists|fs: Seq<Option<String>>, assets: Vec<Page>, tpls: Vec<TemplateAsset>|
        #[trigger] lookup_answers(found, bundle, fs, assets, tpls) && out == found_output(
            bundle.map_values(|p: Page| p.deep_view()),
            fs,
            assets.deep_view(),
            tpls@,
        )
}

proof fn lemma_fetched_pages_agree(b: Seq<PageView>, fs1: Seq<Option<Seq<char>>>, fs2: Seq<Option<Seq<char>>>)
    requires
        forall|k: int| 0 <= k < b.len() ==> fs1[k] == fs2[k],
    ensures
        fetched_pages(b, fs1) == fetched_pages(b, fs2),
    decreases b.len(),
{
    if b.len() > 0 {
        lemma_fetched_pages_agree(b.drop_last(), fs1, fs2);
    }
}

/// The older template stage: it renders pages with what a template lookup
/// finds.
pub struct HandlebarsStage<L> {
    pub name: String,
    pub lookup: L,
}

impl<L: HandlebarsLookup> HandlebarsStage<L> {
    /// Runs the stage on a bundle with what a lookup found: each page that
    /// is not raw is fetched its page template, then the static files and
    /// the asset templates found are added (see [`lookup_runs`]). Where a
    /// page that is not raw has no path, nothing is fetched and the run
    /// fails.
    pub fn process_found<F: HandlebarsLookupResult>(&self, found: &F, bundle: &Vec<Page>) -> (r: Result<(Vec<Page>, ProcessingResult), PagesError>)
        ensures
            r.is_ok() == templated_pages_have_paths(bundle.deep_view()),
            r.is_ok() ==> lookup_runs(*found, bundle@, r.unwrap().0.deep_view()),
            r.is_ok() ==> r.unwrap().1.stage_name@ == self.name@ && r.unwrap().1.sub_results@.len() == 0,
    {
        let start = crate::stages::now_millis();
        if !templated_paths_ok(bundle) {
            return Err(PagesError::Exec(String::from_str("a page without path cannot be rendered")));
        }
        let ghost bv = bundle.deep_view();
        let mut out: Vec<Page> = Vec::new();
        let ghost mut fs: Seq<Option<String>> = Seq::empty();
        let mut i: usize = 0;
        while i < bundle.len()
            invariant
                i <= bundle.len(),
                bv == bundle.deep_view(),
                templated_pages_have_paths(bv),
                fs.len() == i,
                forall|k: int| 0 <= k < i ==> (if is_raw(#[trigger] bundle@[k].deep_view()) {
                    fs[k] is None
                } else {
                    call_ensures(F::fetch, (found, &bundle@[k]), fs[k])
                }),
                out.deep_view() == fetched_pages(bv.take(i as int), fs.map_values(|f: Option<String>| f.deep_view())),
            decreases bundle.len() - i,
        {
            let ghost fs0 = fs;
            let p = &bundle[i];
            proof {
                assert(bv[i as int] == bundle@[i as int].deep_view());
            }
            if page_is_raw(p) {
                let q = p.duplicate();
                let ghost before = out;
                out.push(q);
                proof {
                    lemma_push_deep_view(before, out, q);
                    fs = fs.push(None);
                }
            } else {
                proof {
                    assert(!is_raw(bv[i as int]));
                }
                let f = found.fetch(p);
                proof {
                    fs = fs.push(f);
                }
                match f {
                    Some(t) => {
                        let q = Page {
                            path: copy_strings(&p.path),
                            metadata: copy_opt_metadata(&p.metadata),
                            body: Body::Template { tpl_name: t, source: Box::new(p.body.duplicate()) },
                        };
                        let ghost before = out;
                        out.push(q);
                        proof {
                            lemma_push_deep_view(before, out, q);
                            assert(q.deep_view() == templated(p.deep_view(), t@));
                        }
                    },
                    None => {},
                }
            }
            let ghost fv = fs.map_values(|f: Option<String>| f.deep_view());
            let ghost fv0 = fs0.map_values(|f: Option<String>| f.deep_view());
            proof {
                assert(bv.take(i + 1).drop_last() =~= bv.take(i as int));
                assert(bv.take(i + 1).last() == bv[i as int]);
                assert(fv[i as int] == fs[i as int].deep_view());
                lemma_fetched_pages_agree(bv.take(i as int), fv, fv0);
                assert forall|k: int| 0 <= k < i + 1 implies (if is_raw(#[trigger] bundle@[k].deep_view()) {
                    fs[k] is None
                } else {
                    call_ensures(F::fetch, (found, &bundle@[k]), fs[k])
                }) by {
                    if k < i {
                        assert(fs[k] == fs0[k]);
                    }
                }
            }
            i = i + 1;
        }
        let assets = found.assets();
        let tpls = found.template_assets();
        let ghost kept = out.deep_view();
        crate::bundle::append_pages(&mut out, crate::pages::copy_pages(&assets));
        push_template_asset_pages(&mut out, &tpls);
        proof {
            assert(bv.take(bundle.len() as int) =~= bv);
            assert(bundle@.map_values(|p: Page| p.deep_view()) =~= bv);
            assert(lookup_answers(*found, bundle@, fs, assets, tpls));
            assert(out.deep_view() == found_output(bundle@.map_values(|p: Page| p.deep_view()), fs, assets.deep_view(), tpls@));
        }
        Ok((out, crate::stages::leaf_result(copy_string(&self.name), start)))
    }

    /// Runs the stage on a bundle: its lookup is run, and the stage fails
    /// with the lookup's error where it fails; else the stage runs with
    /// what was found (see [`HandlebarsStage::process_found`]).
    pub fn process(&self, bundle: &Vec<Page>) -> (r: Result<(Vec<Page>, ProcessingResult), PagesError>)
        ensures
            r.is_ok() ==> templated_pages_have_paths(bundle.deep_view()),
            r.is_ok() ==> exists|found: L::Found|
                call_ensures(L::lookup, (&self.lookup,), Ok::<L::Found, PagesError>(found))
                && #[trigger] lookup_runs(found, bundle@, r.unwrap().0.deep_view()),
            r.is_ok() ==> r.unwrap().1.stage_name@ == self.name@ && r.unwrap().1.sub_results@.len() == 0,
            r.is_err() ==> (exists|e: PagesError|
                call_ensures(L::lookup, (&self.lookup,), Err::<L::Found, PagesError>(e)) && r == Err::<(Vec<Page>, ProcessingResult), PagesError>(e))
                || ((exists|found: L::Found| call_ensures(L::lookup, (&self.lookup,), Ok::<L::Found, PagesError>(found)))
                    && !templated_pages_have_paths(bundle.deep_view())),
    {
        match self.lookup.lookup() {
            Ok(found) => self.process_found(&found, bundle),
            Err(e) => Err(e),
        }
    }
}

} // verus!
