use pages::assets::{TplAssetGroupBy, TplAssetMetadata, collect_authors, collect_tags, path_from_rendered};
use pages::hbs::{HandlebarsDir, HbsStage, PageGenerator, PageGeneratorBag, PageGeneratorBagImpl, TplAsset, TplModel, TplModelBuilder, render_pages};
use pages::helpers::{BundleQueryHelper, BundleQueryValue, PageData, TemplateData};
use pages::npm::{DirBuild, NodePackageJson, build_output_dir, check_build_output, discovered_build_dir, plan_dir_build, sort_strings};
use pages::pages::{Author, Body, Metadata, Page, Value};
use pages::queries::{BundlePagination, BundleQuery};
use pages::templates::{TemplateFile, classify_template_file, fetch_page_tpl_name};
use pages::errors::PagesError;

fn strings(v: &[&str]) -> Vec<String> {
    v.iter().map(|s| s.to_string()).collect()
}

fn page(p: &[&str], m: Option<Metadata>) -> Page {
    Page::new_text(strings(p), m, "content".to_string())
}

fn tagged(title: &str, tags: &[&str], authors: &[&str]) -> Metadata {
    let mut m = Metadata::empty();
    m.title = Some(title.to_string());
    m.tags = strings(tags);
    m.authors = authors.iter().map(|a| Author { name: a.to_string(), contacts: vec![] }).collect();
    m
}

fn raw() -> Metadata {
    let mut m = Metadata::empty();
    m.data.push(("isRaw".to_string(), Value::Bool(true)));
    m
}

#[test]
fn page_template_lookup_prefers_the_most_specific_name() {
    let names = strings(&["page", "dir/page", "page.f4.html"]);
    assert_eq!(fetch_page_tpl_name(&names, &strings(&["f1.html"])), Some("page".to_string()));
    assert_eq!(fetch_page_tpl_name(&names, &strings(&["dir", "f3.html"])), Some("dir/page".to_string()));
    assert_eq!(fetch_page_tpl_name(&names, &strings(&["f4.html"])), Some("page.f4.html".to_string()));
    assert_eq!(fetch_page_tpl_name(&names, &strings(&["dir", "sub", "f5.html"])), Some("dir/page".to_string()));
    assert_eq!(fetch_page_tpl_name(&strings(&["other"]), &strings(&["f1.html"])), None);
}

#[test]
fn template_files_are_classified_by_name() {
    match classify_template_file(&strings(&["dir", "page.hbs"]), true) {
        TemplateFile::PageTemplate { tpl_name } => assert_eq!(tpl_name, "dir/page"),
        other => panic!("{:?}", other),
    }
    match classify_template_file(&strings(&["dir", "asset.index.html.hbs"]), true) {
        TemplateFile::AssetTemplate { asset_path, tpl_name } => {
            assert_eq!(asset_path, strings(&["dir", "index.html"]));
            assert_eq!(tpl_name, "dir/index.html");
        },
        other => panic!("{:?}", other),
    }
    match classify_template_file(&strings(&["asset.index.html.hbs.yaml"]), true) {
        TemplateFile::AssetMetaYaml { tpl_name } => assert_eq!(tpl_name, "index.html"),
        other => panic!("{:?}", other),
    }
    assert!(matches!(classify_template_file(&strings(&["asset.index.html.hbs.yaml"]), false), TemplateFile::Static));
    match classify_template_file(&strings(&["base.hbs"]), true) {
        TemplateFile::Partial { tpl_name } => assert_eq!(tpl_name, "base"),
        other => panic!("{:?}", other),
    }
    assert!(matches!(classify_template_file(&strings(&["style.css"]), true), TemplateFile::Static));
}

#[test]
fn template_stage_keeps_raw_pages_and_drops_pages_without_template() {
    let names = strings(&["dir/page"]);
    let bundle = vec![page(&["dir", "a.html"], None), page(&["b.html"], Some(raw())), page(&["c.html"], None)];
    let out = render_pages(&names, &bundle);
    assert_eq!(out.len(), 2);
    assert_eq!(out[0].path, strings(&["dir", "a.html"]));
    assert!(matches!(&out[0].body, Body::Template { tpl_name, source } if tpl_name == "dir/page" && matches!(**source, Body::Text(_))));
    assert_eq!(out[1].path, strings(&["b.html"]));
    assert!(matches!(&out[1].body, Body::Text(t) if t == "content"));
}

#[test]
fn tags_and_authors_are_listed_once_in_order_of_first_use() {
    let bundle = vec![
        page(&["a"], Some(tagged("a", &["t2", "t1"], &["x"]))),
        page(&["b"], None),
        page(&["c"], Some(tagged("c", &["t1", "t3", "t3"], &["y", "x"]))),
    ];
    assert_eq!(collect_tags(&bundle), strings(&["t2", "t1", "t3"]));
    assert_eq!(collect_authors(&bundle), strings(&["x", "y"]));
}

fn six_pages() -> Vec<Page> {
    vec![
        page(&["f1.html"], Some(tagged("f1", &["t1"], &["a1"]))),
        page(&["f2.html"], Some(tagged("f2", &["t1", "t2"], &[]))),
        page(&["f3.html"], Some(tagged("f3", &["t2"], &["a1"]))),
        page(&["f4.txt"], Some(tagged("f4", &["t1"], &[]))),
        page(&["f5.html"], None),
    ]
}

fn selection_of(p: &Page) -> &pages::pages::AssetSelection {
    match &p.body {
        Body::Asset { selection: Some(s), .. } => s,
        other => panic!("{:?}", other),
    }
}

#[test]
fn asset_without_grouping_lists_all_matched_pages() {
    let m = TplAssetMetadata {
        base_query: Some(BundleQuery::Path { path: "*.html".to_string() }),
        group_by: None,
        limit: None,
        path_pattern: None,
        first_page_path_pattern: None,
    };
    let out = m.yield_pages(&strings(&["index.html"]), &"index.html".to_string(), &six_pages()).unwrap();
    assert_eq!(out.len(), 1);
    assert_eq!(out[0].path, strings(&["index.html"]));
    let s = selection_of(&out[0]);
    assert_eq!(s.pages.len(), 4);
    assert_eq!((s.index, s.last, s.limit, s.size), (0, 0, 4, None));
    let meta = out[0].metadata.as_ref().unwrap();
    assert_eq!(meta.data.len(), 2);
}

#[test]
fn asset_grouped_by_tag_and_paginated() {
    let m = TplAssetMetadata {
        base_query: None,
        group_by: Some(TplAssetGroupBy::Tag),
        limit: Some(2),
        path_pattern: Some("tags/{{tag}}/{{index}}.html".to_string()),
        first_page_path_pattern: Some("tags/{{tag}}.html".to_string()),
    };
    let out = m.yield_pages(&strings(&["index.html"]), &"index.html".to_string(), &six_pages()).unwrap();
    let paths: Vec<String> = out.iter().map(|p| p.path.join("/")).collect();
    assert_eq!(paths, vec!["tags/t1.html", "tags/t1/1.html", "tags/t2.html"]);
    let s = selection_of(&out[1]);
    assert_eq!(s.pages, vec![strings(&["f4.txt"])]);
    assert_eq!((s.index, s.last, s.limit, s.size), (1, 1, 2, Some(3)));
    assert_eq!(s.tag.as_deref(), Some("t1"));
}

#[test]
fn asset_grouped_by_author() {
    let m = TplAssetMetadata { base_query: None, group_by: Some(TplAssetGroupBy::Author), limit: None, path_pattern: Some("by/{{author}}".to_string()), first_page_path_pattern: None };
    let out = m.yield_pages(&strings(&["x"]), &"x".to_string(), &six_pages()).unwrap();
    assert_eq!(out.len(), 1);
    assert_eq!(out[0].path, strings(&["by", "a1"]));
    assert_eq!(selection_of(&out[0]).pages.len(), 2);
}

#[test]
fn asset_path_pattern_that_does_not_render_is_an_error() {
    let m = TplAssetMetadata { base_query: None, group_by: None, limit: None, path_pattern: Some("{{#if}}".to_string()), first_page_path_pattern: None };
    assert!(m.yield_pages(&strings(&["x"]), &"x".to_string(), &six_pages()).is_err());
}

#[test]
fn rendered_paths_are_split_on_slashes() {
    assert_eq!(path_from_rendered("a/b//c"), strings(&["a", "b", "", "c"]));
}

#[test]
fn template_model_attaches_descriptions_and_yields_assets() {
    let mut b = TplModelBuilder::new();
    b.add_page_template("page".to_string());
    b.add_page_template("page".to_string());
    b.add_asset(strings(&["index.html"]), "index.html".to_string());
    b.add_static("base".to_string(), "base/style.css".to_string(), strings(&["style.css"]));
    b.add_asset(strings(&["feed.xml"]), "feed.xml".to_string());
    b.add_asset_metadata(
        "index.html".to_string(),
        TplAssetMetadata { base_query: None, group_by: None, limit: Some(5), path_pattern: None, first_page_path_pattern: None },
    );
    b.add_asset_metadata(
        "index.html".to_string(),
        TplAssetMetadata { base_query: None, group_by: None, limit: Some(3), path_pattern: None, first_page_path_pattern: None },
    );
    let model: TplModel = b.finish();
    assert_eq!(model.pages_tpl_names, strings(&["page"]));
    assert!(matches!(&model.assets[0], TplAsset::Tpl { metadata: Some(m), .. } if m.limit == Some(3)));
    assert!(matches!(&model.assets[2], TplAsset::Tpl { metadata: None, .. }));
    let out = model.yield_pages(&six_pages()).unwrap();
    let paths: Vec<String> = out.iter().map(|p| p.path.join("/")).collect();
    assert_eq!(paths, vec!["index.html", "index.html", "style.css", "feed.xml"]);
    assert!(matches!(&out[2].body, Body::File { file_path, .. } if file_path == "base/style.css"));
    let fetched = model.fetch(&page(&["x.html"], None)).unwrap();
    assert!(matches!(&fetched.body, Body::Template { tpl_name, .. } if tpl_name == "page"));
}

#[test]
fn asset_pages_of_size_zero_are_refused() {
    let mut b = TplModelBuilder::new();
    b.add_asset(strings(&["i"]), "i".to_string());
    b.add_asset_metadata("i".to_string(), TplAssetMetadata { base_query: None, group_by: None, limit: Some(0), path_pattern: None, first_page_path_pattern: None });
    assert!(b.finish().yield_pages(&six_pages()).is_err());
}

#[test]
fn generator_bag_keeps_generators_in_order() {
    let mut bag: PageGeneratorBagImpl<u32> = PageGeneratorBagImpl::new();
    bag.push(3).unwrap();
    bag.push(1).unwrap();
    assert_eq!(bag.all().unwrap(), &vec![3, 1]);
}

#[test]
fn stages_remember_their_settings() {
    let s = HbsStage::new("hb stage".to_string(), "templates".to_string()).unwrap();
    assert_eq!(s.name, "hb stage");
    assert_eq!(s.npm_runner().program, "npm");
    let d = HandlebarsDir::new_with_npm_runner("templates".to_string(), 7u8);
    assert_eq!(*d.npm_runner(), 7u8);
    assert_eq!(HandlebarsDir::new("t".to_string()).unwrap().base_path, "t");
}

#[test]
fn npm_build_decisions() {
    let pkg = |scripts: &[&str], out: Option<&str>| NodePackageJson { scripts: strings(scripts), build_output_dir: out.map(|o| o.to_string()) };
    assert_eq!(build_output_dir(&pkg(&["test"], Some("out"))), None);
    assert_eq!(build_output_dir(&pkg(&["build"], None)), None);
    assert_eq!(build_output_dir(&pkg(&["build"], Some("out"))), Some("out".to_string()));
    assert!(matches!(plan_dir_build(&pkg(&["x"], Some("out"))), DirBuild::Skip));
    assert!(matches!(plan_dir_build(&pkg(&["build"], Some("out"))), DirBuild::Known(d) if d == "out"));
    assert!(matches!(plan_dir_build(&pkg(&["build"], None)), DirBuild::Discover));
}

#[test]
fn build_output_checks_name_the_path() {
    let p = "templates/output".to_string();
    assert!(matches!(check_build_output(&p, false, false), Err(PagesError::Exec(m)) if m == "build folder templates/output not found"));
    assert!(matches!(check_build_output(&p, true, false), Err(PagesError::Exec(m)) if m == "build result templates/output is not a dir"));
    assert_eq!(check_build_output(&p, true, true).unwrap(), p);
}

#[test]
fn discovered_build_directory() {
    let pre = strings(&["src", "node_modules"]);
    assert!(matches!(discovered_build_dir(&pre, &pre), Err(PagesError::Exec(m)) if m == "no new folder created"));
    assert_eq!(discovered_build_dir(&pre, &strings(&["src", "dist", "node_modules"])).unwrap(), "dist");
    assert!(matches!(
        discovered_build_dir(&pre, &strings(&["zeta", "src", "alpha", "beta"])),
        Err(PagesError::Exec(m)) if m == "multiple new folders created after build : alpha, beta, zeta"
    ));
}

#[test]
fn strings_are_sorted_like_std_sorts_them() {
    let v = strings(&["b", "ab", "a", "B", "ä", "aa"]);
    let mut expected = v.clone();
    expected.sort();
    assert_eq!(sort_strings(&v), expected);
}

#[test]
fn query_values_stand_for_queries() {
    let bundle = six_pages();
    let v = BundleQueryValue::And {
        and: vec![
            BundleQueryValue::Tags { tags: strings(&["t1"]) },
            BundleQueryValue::Not { not: Box::new(BundleQueryValue::Author { author: "a1".to_string() }) },
        ],
    };
    let helper = BundleQueryHelper { output_index: &bundle };
    let out = helper.query(&Some(v.to_query()), BundlePagination { skip: None, limit: None });
    let paths: Vec<String> = out.iter().map(|p| p.path.join("/")).collect();
    assert_eq!(paths, vec!["f2.html", "f4.txt"]);
    let or = BundleQueryValue::Or { or: vec![BundleQueryValue::Tag { tag: "t2".to_string() }, BundleQueryValue::Authors { authors: strings(&["a1"]) }] };
    let out = helper.query(&Some(or.to_query()), BundlePagination { skip: Some(1), limit: Some(1) });
    assert_eq!(out[0].path, strings(&["f2.html"]));
    assert_eq!(helper.query(&None, BundlePagination { skip: Some(4), limit: None }).len(), 1);
}

#[test]
fn render_data_hold_paths_of_the_output() {
    let bundle = six_pages();
    let d = PageData::new(&bundle[0], &bundle);
    assert_eq!(d.page, strings(&["f1.html"]));
    assert_eq!(d.index.len(), 5);
    assert_eq!(d.current_metadata.unwrap().title.as_deref(), Some("f1"));
    let t = TemplateData::new(&bundle[4], &bundle);
    assert_eq!(t.index[4], strings(&["f5.html"]));
}

#[test]
fn date_format_helper_writes_dates_with_chrono() {
    let h = pages::helpers::DateFormatHelper;
    assert_eq!(h.format_date(None, None).unwrap(), "");
    assert_eq!(h.format_date(Some(1637671914), None).unwrap(), "2021-11-23");
    assert_eq!(h.format_date(Some(1637671914), Some("%d/%m/%y %H:%M")).unwrap(), "23/11/21 12:51");
    assert!(h.format_date(Some(i64::MAX), None).is_err());
    assert!(h.format_date(Some(0), Some("%Q")).is_err());
}

#[test]
fn uri_helper_writes_uri_friendly_text() {
    let h = pages::helpers::ForURIHelper;
    assert_eq!(h.convert(Some("Hello World!")), "hello_world_");
    assert_eq!(h.convert(None), "");
}
