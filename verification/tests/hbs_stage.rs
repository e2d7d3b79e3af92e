use pages::errors::PagesError;
use pages::hbs::{
    HandlebarsDirResult, HandlebarsLookup, HandlebarsLookupResult, HandlebarsStage, HbsStage, PageGenerator, PageGeneratorBag,
    PageGeneratorBagImpl, TemplateAsset, TplModelBuilder,
};
use pages::pages::{Body, Metadata, Page, Value};

fn strings(v: &[&str]) -> Vec<String> {
    v.iter().map(|s| s.to_string()).collect()
}

fn titled(title: &str) -> Metadata {
    let mut m = Metadata::empty();
    m.title = Some(title.to_string());
    m
}

fn raw(flag: bool, title: &str) -> Metadata {
    let mut m = titled(title);
    m.data.push(("isRaw".to_string(), Value::Bool(flag)));
    m
}

fn bundle(f1: Option<Metadata>, f2: Option<Metadata>) -> Vec<Page> {
    vec![
        Page::new_text(strings(&["f1.html"]), f1, "content 1".to_string()),
        Page::new_text(strings(&["f2.htm"]), f2, "content 2".to_string()),
        Page::new_text(strings(&["dir", "f3.html"]), None, "content 3".to_string()),
    ]
}

/// Each output page as its path, the template it is rendered with (none
/// for a page left as it is) and the text it renders around.
fn rendered(out: &[Page]) -> Vec<(String, Option<String>, String)> {
    let mut v: Vec<(String, Option<String>, String)> = out
        .iter()
        .map(|p| match &p.body {
            Body::Template { tpl_name, source } => match &**source {
                Body::Text(t) => (p.path.join("/"), Some(tpl_name.clone()), t.clone()),
                other => panic!("{:?}", other),
            },
            Body::Text(t) => (p.path.join("/"), None, t.clone()),
            other => panic!("{:?}", other),
        })
        .collect();
    v.sort();
    v
}

fn expected(entries: &[(&str, Option<&str>, &str)]) -> Vec<(String, Option<String>, String)> {
    entries.iter().map(|(p, t, c)| (p.to_string(), t.map(|s| s.to_string()), c.to_string())).collect()
}

/// Runs the template stage with the page templates of a directory; the
/// generator registered is the name of the stage.
fn run_hbs(names: &[&str], input: &Vec<Page>) -> Vec<Page> {
    let stage = HbsStage::new("hb stage".to_string(), "templates".to_string()).unwrap();
    let mut bag: PageGeneratorBagImpl<String> = PageGeneratorBagImpl::new();
    let (out, r) = stage.process_with(&strings(names), "generator".to_string(), input, &mut bag).unwrap();
    assert_eq!(r.stage_name, "hb stage");
    assert!(r.sub_results.is_empty());
    assert_eq!(bag.all().unwrap(), &strings(&["generator"]));
    out
}

fn run_handlebars(names: &[&str], input: &Vec<Page>) -> Vec<Page> {
    let mut dir = HandlebarsDirResult::new();
    for n in names {
        dir.add_page_template(n.to_string());
    }
    dir.process_pages(input)
}

fn all_templated(tpl_f3: &str) -> Vec<(String, Option<String>, String)> {
    expected(&[
        ("dir/f3.html", Some(tpl_f3), "content 3"),
        ("f1.html", Some("page"), "content 1"),
        ("f2.htm", Some("page"), "content 2"),
    ])
}

#[test]
fn hbs_stage_test_apply_handle_bar_template_to_bundle() {
    assert_eq!(rendered(&run_hbs(&["page"], &bundle(Some(titled("f1 title")), None))), all_templated("page"));
}

#[test]
fn handlebars_stage_test_apply_handle_bar_template_to_bundle() {
    assert_eq!(rendered(&run_handlebars(&["page"], &bundle(Some(titled("f1 title")), None))), all_templated("page"));
}

fn raw_expected() -> Vec<(String, Option<String>, String)> {
    expected(&[("dir/f3.html", Some("page"), "content 3"), ("f1.html", None, "content 1"), ("f2.htm", Some("page"), "content 2")])
}

#[test]
fn hbs_stage_test_ignore_raw_content() {
    let input = bundle(Some(raw(true, "f1 title")), Some(raw(false, "f2 title")));
    assert_eq!(rendered(&run_hbs(&["page"], &input)), raw_expected());
}

#[test]
fn handlebars_stage_test_ignore_raw_content() {
    let input = bundle(Some(raw(true, "f1 title")), Some(raw(false, "f2 title")));
    assert_eq!(rendered(&run_handlebars(&["page"], &input)), raw_expected());
}

#[test]
fn hbs_stage_test_use_handlebars_dir_sub_page_template_lookup_loader() {
    let out = run_hbs(&["page", "dir/page"], &bundle(Some(titled("f1 title")), None));
    assert_eq!(rendered(&out), all_templated("dir/page"));
}

#[test]
fn handlebars_stage_test_use_handlebars_dir_sub_page_template_lookup_loader() {
    let out = run_handlebars(&["page", "dir/page"], &bundle(Some(titled("f1 title")), None));
    assert_eq!(rendered(&out), all_templated("dir/page"));
}

fn with_f4() -> Vec<Page> {
    let mut b = bundle(Some(titled("f1 title")), None);
    b.push(Page::new_text(strings(&["dir", "f4.html"]), None, "content 4".to_string()));
    b
}

fn page_name_expected() -> Vec<(String, Option<String>, String)> {
    expected(&[
        ("dir/f3.html", Some("dir/page"), "content 3"),
        ("dir/f4.html", Some("dir/page.f4.html"), "content 4"),
        ("f1.html", Some("page"), "content 1"),
        ("f2.htm", Some("page"), "content 2"),
    ])
}

#[test]
fn hbs_stage_test_use_handlebars_page_name_template_lookup_loader() {
    let out = run_hbs(&["page", "dir/page", "dir/page.f4.html"], &with_f4());
    assert_eq!(rendered(&out), page_name_expected());
}

#[test]
fn handlebars_stage_test_use_handlebars_page_name_template_lookup_loader() {
    let out = run_handlebars(&["page", "dir/page", "dir/page.f4.html"], &with_f4());
    assert_eq!(rendered(&out), page_name_expected());
}

#[test]
fn hbs_stage_test_apply_handle_bar_template_to_bundle_and_insert_static_asset_pages() {
    let mut b = TplModelBuilder::new();
    b.add_page_template("page".to_string());
    b.add_static("templates".to_string(), "templates/a".to_string(), strings(&["a"]));
    b.add_static("templates".to_string(), "templates/b".to_string(), strings(&["b"]));
    let model = b.finish();
    let input = bundle(Some(titled("f1 title")), None);
    assert_eq!(rendered(&run_hbs(&["page"], &input)), all_templated("page"));
    let generated = model.yield_pages(&input).unwrap();
    let files: Vec<(String, String)> = generated
        .iter()
        .map(|p| match &p.body {
            Body::File { file_path, .. } => (p.path.join("/"), file_path.clone()),
            other => panic!("{:?}", other),
        })
        .collect();
    assert_eq!(files, vec![("a".to_string(), "templates/a".to_string()), ("b".to_string(), "templates/b".to_string())]);
    for p in &generated {
        let m = p.metadata.as_ref().unwrap();
        assert!(matches!(&m.data[..], [(k1, Value::Bool(true)), (k2, Value::Bool(true))] if k1 == "isRaw" && k2 == "isHidden"));
    }
}

#[test]
fn hbs_stage_test_apply_handle_bar_template_to_bundle_and_insert_template_asset_pages() {
    let mut b = TplModelBuilder::new();
    b.add_page_template("page".to_string());
    b.add_asset(strings(&["tpl_2"]), "tpl_2".to_string());
    b.add_asset(strings(&["tpl_3"]), "tpl_3".to_string());
    let model = b.finish();
    let input = bundle(Some(titled("f1 title")), None);
    assert_eq!(rendered(&run_hbs(&["page"], &input)), all_templated("page"));
    let generated = model.yield_pages(&input).unwrap();
    let assets: Vec<(String, String)> = generated
        .iter()
        .map(|p| match &p.body {
            Body::Asset { tpl_name, selection: None } => (p.path.join("/"), tpl_name.clone()),
            other => panic!("{:?}", other),
        })
        .collect();
    assert_eq!(assets, vec![("tpl_2".to_string(), "tpl_2".to_string()), ("tpl_3".to_string(), "tpl_3".to_string())]);
}

#[test]
fn a_page_without_path_is_refused_and_nothing_is_registered() {
    let stage = HbsStage::new("hb stage".to_string(), "templates".to_string()).unwrap();
    let mut bag: PageGeneratorBagImpl<String> = PageGeneratorBagImpl::new();
    let input = vec![Page::new_text(vec![], None, "x".to_string())];
    assert!(stage.process_with(&strings(&["page"]), "g".to_string(), &input, &mut bag).is_err());
    assert!(bag.all().unwrap().is_empty());
}

fn copy_template_asset(t: &TemplateAsset) -> TemplateAsset {
    TemplateAsset { path: t.path.clone(), template_name: t.template_name.clone(), metadata: t.metadata.as_ref().map(|m| m.duplicate()) }
}

/// A lookup result of the user's own: the same template for every page,
/// and given static files and asset templates.
struct LookupResultTest {
    fetch: Option<String>,
    assets: Vec<Page>,
    template_assets: Vec<TemplateAsset>,
}

impl HandlebarsLookupResult for LookupResultTest {
    fn fetch(&self, _: &Page) -> Option<String> {
        self.fetch.clone()
    }

    fn assets(&self) -> Vec<Page> {
        self.assets.iter().map(|p| p.duplicate()).collect()
    }

    fn template_assets(&self) -> Vec<TemplateAsset> {
        self.template_assets.iter().map(copy_template_asset).collect()
    }
}

struct LookupTest {
    fetch: Option<String>,
    assets: Vec<Page>,
    template_assets: Vec<TemplateAsset>,
    fail: bool,
}

impl HandlebarsLookup for LookupTest {
    type Found = LookupResultTest;

    fn lookup(&self) -> Result<LookupResultTest, PagesError> {
        if self.fail {
            Err(PagesError::Exec("no templates".to_string()))
        } else {
            Ok(LookupResultTest {
                fetch: self.fetch.clone(),
                assets: self.assets.iter().map(|p| p.duplicate()).collect(),
                template_assets: self.template_assets.iter().map(copy_template_asset).collect(),
            })
        }
    }
}

fn fixed_lookup(fetch: Option<&str>, fail: bool) -> LookupTest {
    LookupTest {
        fetch: fetch.map(|s| s.to_string()),
        assets: vec![Page::new_text(strings(&["style.css"]), None, "body {}".to_string())],
        template_assets: vec![TemplateAsset { path: strings(&["feed.xml"]), template_name: "feed".to_string(), metadata: None }],
        fail,
    }
}

fn describe(out: &[Page]) -> Vec<(String, String)> {
    out.iter()
        .map(|p| {
            let b = match &p.body {
                Body::Template { tpl_name, source } => match &**source {
                    Body::Text(t) => format!("{} around {}", tpl_name, t),
                    other => panic!("{:?}", other),
                },
                Body::Text(t) => t.clone(),
                Body::Asset { tpl_name, selection: None } => format!("asset {}", tpl_name),
                other => panic!("{:?}", other),
            };
            (p.path.join("/"), b)
        })
        .collect()
}

#[test]
fn user_lookups_drive_the_older_template_stage() {
    let stage = HandlebarsStage { name: "handlebars".to_string(), lookup: fixed_lookup(Some("tpl"), false) };
    let (out, r) = stage.process(&bundle(Some(raw(true, "f1 title")), None)).unwrap();
    assert_eq!(r.stage_name, "handlebars");
    assert!(r.sub_results.is_empty());
    let expected: Vec<(String, String)> = vec![
        ("f1.html".to_string(), "content 1".to_string()),
        ("f2.htm".to_string(), "tpl around content 2".to_string()),
        ("dir/f3.html".to_string(), "tpl around content 3".to_string()),
        ("style.css".to_string(), "body {}".to_string()),
        ("feed.xml".to_string(), "asset feed".to_string()),
    ];
    assert_eq!(describe(&out), expected);
}

#[test]
fn pages_a_user_lookup_has_no_template_for_are_dropped() {
    let stage = HandlebarsStage { name: "handlebars".to_string(), lookup: fixed_lookup(None, false) };
    let (out, _) = stage.process(&bundle(Some(raw(true, "f1 title")), Some(raw(false, "f2 title")))).unwrap();
    let expected: Vec<(String, String)> = vec![
        ("f1.html".to_string(), "content 1".to_string()),
        ("style.css".to_string(), "body {}".to_string()),
        ("feed.xml".to_string(), "asset feed".to_string()),
    ];
    assert_eq!(describe(&out), expected);
}

#[test]
fn a_failing_user_lookup_fails_the_older_template_stage() {
    let stage = HandlebarsStage { name: "handlebars".to_string(), lookup: fixed_lookup(None, true) };
    match stage.process(&bundle(None, None)) {
        Err(PagesError::Exec(m)) => assert_eq!(m, "no templates"),
        other => panic!("{:?}", other.map(|(p, _)| p.len())),
    }
}

fn titles(out: &[Page]) -> Vec<(String, Option<String>)> {
    let mut v: Vec<(String, Option<String>)> =
        out.iter().map(|p| (p.path.join("/"), p.metadata.as_ref().and_then(|m| m.title.clone()))).collect();
    v.sort();
    v
}

fn sorted(mut v: Vec<(String, String)>) -> Vec<(String, String)> {
    v.sort();
    v
}

fn pairs(v: &[(&str, &str)]) -> Vec<(String, String)> {
    v.iter().map(|(a, b)| (a.to_string(), b.to_string())).collect()
}

// The pages come out unrendered: the templated ones name `tpl_1` around
// their content, which the caller renders with its registry.
#[test]
fn handlebars_stage_test_apply_handle_bar_template_to_bundle_and_insert_static_asset_pages() {
    let stage = HandlebarsStage {
        name: "hb stage".to_string(),
        lookup: LookupTest {
            fetch: Some("tpl_1".to_string()),
            assets: vec![
                Page::new_text(strings(&["a"]), None, "a content".to_string()),
                Page::new_text(strings(&["b"]), Some(titled("b title")), "b content".to_string()),
            ],
            template_assets: vec![],
            fail: false,
        },
    };
    let (out, r) = stage.process(&bundle(Some(titled("f1 title")), None)).unwrap();
    assert_eq!(r.stage_name, "hb stage");
    assert!(r.sub_results.is_empty());
    assert_eq!(
        sorted(describe(&out)),
        pairs(&[
            ("a", "a content"),
            ("b", "b content"),
            ("dir/f3.html", "tpl_1 around content 3"),
            ("f1.html", "tpl_1 around content 1"),
            ("f2.htm", "tpl_1 around content 2"),
        ])
    );
    assert_eq!(
        titles(&out),
        vec![
            ("a".to_string(), None),
            ("b".to_string(), Some("b title".to_string())),
            ("dir/f3.html".to_string(), None),
            ("f1.html".to_string(), Some("f1 title".to_string())),
            ("f2.htm".to_string(), None),
        ]
    );
}

#[test]
fn handlebars_stage_test_apply_handle_bar_template_to_bundle_and_insert_template_asset_pages() {
    let stage = HandlebarsStage {
        name: "hb stage".to_string(),
        lookup: LookupTest {
            fetch: Some("tpl_1".to_string()),
            assets: vec![],
            template_assets: vec![
                TemplateAsset { path: strings(&["a"]), template_name: "tpl_2".to_string(), metadata: None },
                TemplateAsset { path: strings(&["b"]), template_name: "tpl_3".to_string(), metadata: Some(titled("b title")) },
            ],
            fail: false,
        },
    };
    let (out, r) = stage.process(&bundle(Some(titled("f1 title")), None)).unwrap();
    assert_eq!(r.stage_name, "hb stage");
    assert!(r.sub_results.is_empty());
    assert_eq!(
        sorted(describe(&out)),
        pairs(&[
            ("a", "asset tpl_2"),
            ("b", "asset tpl_3"),
            ("dir/f3.html", "tpl_1 around content 3"),
            ("f1.html", "tpl_1 around content 1"),
            ("f2.htm", "tpl_1 around content 2"),
        ])
    );
    assert_eq!(
        titles(&out),
        vec![
            ("a".to_string(), None),
            ("b".to_string(), Some("b title".to_string())),
            ("dir/f3.html".to_string(), None),
            ("f1.html".to_string(), Some("f1 title".to_string())),
            ("f2.htm".to_string(), None),
        ]
    );
}
