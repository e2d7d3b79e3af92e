use pages::assets::{TplAssetGroupBy, TplAssetMetadata};
use pages::hbs::{PageGenerator, TplModelBuilder};
use pages::helpers::{BundleQueryHelper, BundleQueryValue};
use pages::pages::{AssetSelection, Author, Body, Metadata, Page, Value};
use pages::queries::{BundlePagination, BundleQuery};

fn strings(v: &[&str]) -> Vec<String> {
    v.iter().map(|s| s.to_string()).collect()
}

fn meta(title: &str, authors: &[&str], tags: &[&str], date: i64) -> Metadata {
    let mut m = Metadata::empty();
    m.title = Some(title.to_string());
    m.authors = authors.iter().map(|a| Author { name: a.to_string(), contacts: vec![] }).collect();
    m.tags = strings(tags);
    m.publishing_date = Some(date);
    m
}

fn page(path: &[&str], m: Option<Metadata>) -> Page {
    Page::new_text(strings(path), m, String::new())
}

/// The bundle of the template asset scenarios, with the tags and authors
/// of its third, fourth and fifth pages.
fn bundle_with(f3: (&[&str], &[&str]), f4: (&[&str], &[&str]), f5_tags: &[&str]) -> Vec<Page> {
    vec![
        page(&["f1.html"], Some(meta("f1 title", &[], &[], 100))),
        page(&["f2.html"], None),
        page(&["f3.html"], Some(meta("f3 title", f3.0, f3.1, 200))),
        page(&["f4.html"], Some(meta("f4 title", f4.0, f4.1, 300))),
        page(&["f5.html"], Some(meta("f5 title", &[], f5_tags, 400))),
        page(&["dir1", "dir2", "f6"], Some(meta("f6 title", &[], &[], 400))),
    ]
}

fn bundle() -> Vec<Page> {
    bundle_with((&["a1"], &["t1", "t2", "t3"]), (&["a1", "a2"], &["t1", "t2"]), &["t1", "t4"])
}

fn html_pages() -> Option<BundleQuery> {
    Some(BundleQuery::Path { path: "**/*.html".to_string() })
}

/// The pages that the asset `index.html` of a template directory yields
/// for a bundle, sorted by path.
fn generate(m: TplAssetMetadata, output: &Vec<Page>) -> Vec<Page> {
    let mut b = TplModelBuilder::new();
    b.add_page_template("page".to_string());
    b.add_asset(strings(&["index.html"]), "index.html".to_string());
    b.add_asset_metadata("index.html".to_string(), m);
    let mut pages = b.finish().yield_pages(output).unwrap();
    pages.sort_by_key(|p| p.path.join("/"));
    pages
}

fn selection_of(p: &Page) -> &AssetSelection {
    match &p.body {
        Body::Asset { selection: Some(s), .. } => s,
        other => panic!("{:?}", other),
    }
}

/// The titles of the selected pages, as the output bundle holds them
/// (empty for a page without title).
fn titles(s: &AssetSelection, output: &Vec<Page>) -> Vec<String> {
    s.pages
        .iter()
        .map(|path| {
            let p = output.iter().find(|p| &p.path == path).unwrap();
            p.metadata.as_ref().and_then(|m| m.title.clone()).unwrap_or_default()
        })
        .collect()
}

fn assert_raw_hidden(p: &Page) {
    let m = p.metadata.as_ref().unwrap();
    assert_eq!(m.title, None);
    assert_eq!(m.publishing_date, None);
    assert!(m.authors.is_empty() && m.tags.is_empty());
    assert!(matches!(&m.data[..], [(k1, Value::Bool(true)), (k2, Value::Bool(true))] if k1 == "isRaw" && k2 == "isHidden"));
}

#[test]
fn apply_template_asset_metadata_query_selection() {
    let output = bundle();
    let m = TplAssetMetadata { base_query: html_pages(), group_by: None, limit: None, path_pattern: None, first_page_path_pattern: None };
    let out = generate(m, &output);
    assert_eq!(out.len(), 1);
    assert_eq!(out[0].path, strings(&["index.html"]));
    assert_raw_hidden(&out[0]);
    assert_eq!(titles(selection_of(&out[0]), &output), strings(&["f5 title", "f4 title", "f3 title", "f1 title", ""]));
}

#[test]
fn apply_template_asset_metadata_query_selection_with_tag_grouping() {
    let output = bundle_with((&["a1"], &["T 1", "t 2", "t 3"]), (&["a1", "a2"], &["T 1", "t 2"]), &["T 1", "t 4"]);
    let m = TplAssetMetadata {
        base_query: html_pages(),
        group_by: Some(TplAssetGroupBy::Tag),
        limit: None,
        path_pattern: Some("{{tag}}/index.html".to_string()),
        first_page_path_pattern: None,
    };
    let out = generate(m, &output);
    let paths: Vec<String> = out.iter().map(|p| p.path.join("/")).collect();
    assert_eq!(paths, vec!["t_1/index.html", "t_2/index.html", "t_3/index.html", "t_4/index.html"]);
    let expected: [(&str, &[&str]); 4] = [
        ("T 1", &["f5 title", "f4 title", "f3 title"]),
        ("t 2", &["f4 title", "f3 title"]),
        ("t 3", &["f3 title"]),
        ("t 4", &["f5 title"]),
    ];
    for (p, (tag, ts)) in out.iter().zip(expected.iter()) {
        assert_raw_hidden(p);
        let s = selection_of(p);
        assert_eq!(s.original_tag.as_deref(), Some(*tag));
        assert_eq!(titles(s, &output), strings(ts));
    }
}

#[test]
fn apply_template_asset_metadata_query_selection_with_author_grouping() {
    let output = bundle_with((&["A 1"], &["t1", "t2", "t3"]), (&["A 1", "a 2"], &["t1", "t2"]), &["t1", "t4"]);
    let m = TplAssetMetadata {
        base_query: html_pages(),
        group_by: Some(TplAssetGroupBy::Author),
        limit: None,
        path_pattern: Some("{{author}}/index.html".to_string()),
        first_page_path_pattern: None,
    };
    let out = generate(m, &output);
    let paths: Vec<String> = out.iter().map(|p| p.path.join("/")).collect();
    assert_eq!(paths, vec!["a_1/index.html", "a_2/index.html"]);
    assert_eq!(selection_of(&out[0]).original_author.as_deref(), Some("A 1"));
    assert_eq!(titles(selection_of(&out[0]), &output), strings(&["f4 title", "f3 title"]));
    assert_eq!(selection_of(&out[1]).original_author.as_deref(), Some("a 2"));
    assert_eq!(titles(selection_of(&out[1]), &output), strings(&["f4 title"]));
}

#[test]
fn apply_template_asset_metadata_query_selection_with_pagination() {
    let output = bundle();
    let m = TplAssetMetadata {
        base_query: html_pages(),
        group_by: None,
        limit: Some(2),
        path_pattern: Some("{{index}}/index.html".to_string()),
        first_page_path_pattern: None,
    };
    let out = generate(m, &output);
    let paths: Vec<String> = out.iter().map(|p| p.path.join("/")).collect();
    assert_eq!(paths, vec!["0/index.html", "1/index.html", "2/index.html"]);
    let expected: [&[&str]; 3] = [&["f5 title", "f4 title"], &["f3 title", "f1 title"], &[""]];
    for (k, (p, ts)) in out.iter().zip(expected.iter()).enumerate() {
        assert_raw_hidden(p);
        let s = selection_of(p);
        assert_eq!((s.index, s.last, s.limit, s.size, s.multi_pages), (k, 2, 2, Some(5), true));
        assert_eq!(s.indexes, vec![(0, k == 0), (1, k == 1), (2, k == 2)]);
        assert_eq!(titles(s, &output), strings(ts));
    }
}

#[test]
fn apply_template_asset_metadata_query_selection_with_first_page_path_pattern() {
    let output = bundle();
    let m = TplAssetMetadata {
        base_query: html_pages(),
        group_by: None,
        limit: Some(2),
        path_pattern: Some("{{index}}/index.html".to_string()),
        first_page_path_pattern: Some("index.html".to_string()),
    };
    let out = generate(m, &output);
    let paths: Vec<String> = out.iter().map(|p| p.path.join("/")).collect();
    assert_eq!(paths, vec!["1/index.html", "2/index.html", "index.html"]);
    assert_eq!((selection_of(&out[0]).index, titles(selection_of(&out[0]), &output)), (1, strings(&["f3 title", "f1 title"])));
    assert_eq!((selection_of(&out[1]).index, titles(selection_of(&out[1]), &output)), (2, strings(&[""])));
    assert_eq!((selection_of(&out[2]).index, titles(selection_of(&out[2]), &output)), (0, strings(&["f5 title", "f4 title"])));
}

#[test]
fn apply_template_asset_metadata_query_selection_with_tag_grouping_and_pagination() {
    let output = bundle();
    let m = TplAssetMetadata {
        base_query: html_pages(),
        group_by: Some(TplAssetGroupBy::Tag),
        limit: Some(2),
        path_pattern: Some("{{tag}}/{{index}}/index.html".to_string()),
        first_page_path_pattern: Some("{{tag}}/index.html".to_string()),
    };
    let out = generate(m, &output);
    let paths: Vec<String> = out.iter().map(|p| p.path.join("/")).collect();
    assert_eq!(paths, vec!["t1/1/index.html", "t1/index.html", "t2/index.html", "t3/index.html", "t4/index.html"]);
    let expected: [(&str, &[&str]); 5] = [
        ("t1", &["f3 title"]),
        ("t1", &["f5 title", "f4 title"]),
        ("t2", &["f4 title", "f3 title"]),
        ("t3", &["f3 title"]),
        ("t4", &["f5 title"]),
    ];
    for (p, (tag, ts)) in out.iter().zip(expected.iter()) {
        let s = selection_of(p);
        assert_eq!(s.tag.as_deref(), Some(*tag));
        assert_eq!(titles(s, &output), strings(ts));
    }
}

#[test]
fn apply_template_asset_metadata_query_selection_with_author_grouping_and_pagination() {
    let output = bundle();
    let m = TplAssetMetadata {
        base_query: html_pages(),
        group_by: Some(TplAssetGroupBy::Author),
        limit: Some(1),
        path_pattern: Some("{{author}}/{{index}}/index.html".to_string()),
        first_page_path_pattern: Some("{{author}}/index.html".to_string()),
    };
    let out = generate(m, &output);
    let paths: Vec<String> = out.iter().map(|p| p.path.join("/")).collect();
    assert_eq!(paths, vec!["a1/1/index.html", "a1/index.html", "a2/index.html"]);
    let expected: [(&str, &[&str]); 3] = [("a1", &["f3 title"]), ("a1", &["f4 title"]), ("a2", &["f4 title"])];
    for (p, (author, ts)) in out.iter().zip(expected.iter()) {
        let s = selection_of(p);
        assert_eq!(s.author.as_deref(), Some(*author));
        assert_eq!(titles(s, &output), strings(ts));
    }
}

fn helper_titles(output: &Vec<Page>, q: Option<BundleQueryValue>, pg: BundlePagination) -> Vec<String> {
    let helper = BundleQueryHelper { output_index: output };
    let query = q.map(|v| v.to_query());
    helper
        .query(&query, pg)
        .iter()
        .map(|p| p.metadata.as_ref().and_then(|m| m.title.clone()).unwrap_or_default())
        .collect()
}

fn no_pagination() -> BundlePagination {
    BundlePagination { skip: None, limit: None }
}

fn bundle_query_helper_scenario() {
    let output = vec![
        page(&["f1"], Some(meta("f1 title", &[], &[], 100))),
        page(&["f2"], None),
        page(&["f3"], Some(meta("f3 title", &["a1"], &["t1", "t2", "t3"], 200))),
        page(&["f4"], Some(meta("f4 title", &["a1", "a2"], &["t1", "t2"], 300))),
        page(&["f5"], Some(meta("f5 title", &[], &["t1", "t4"], 400))),
        page(&["dir1", "dir2", "f6"], Some(meta("f6 title", &[], &[], 400))),
    ];
    let tag = |t: &str| BundleQueryValue::Tag { tag: t.to_string() };
    let author = |a: &str| BundleQueryValue::Author { author: a.to_string() };
    assert_eq!(helper_titles(&output, Some(tag("t1")), no_pagination()), strings(&["f5 title", "f4 title", "f3 title"]));
    assert_eq!(
        helper_titles(&output, Some(BundleQueryValue::Tags { tags: strings(&["t1", "t2"]) }), no_pagination()),
        strings(&["f4 title", "f3 title"])
    );
    assert_eq!(helper_titles(&output, Some(author("a1")), no_pagination()), strings(&["f4 title", "f3 title"]));
    assert_eq!(
        helper_titles(&output, Some(BundleQueryValue::And { and: vec![author("a1"), tag("t3")] }), no_pagination()),
        strings(&["f3 title"])
    );
    assert!(helper_titles(&output, Some(BundleQueryValue::And { and: vec![author("a1"), tag("t4")] }), no_pagination()).is_empty());
    assert_eq!(
        helper_titles(&output, Some(BundleQueryValue::Path { path: "dir1/**".to_string() }), no_pagination()),
        strings(&["f6 title"])
    );
}

fn bundle_query_helper_pagination_scenario() {
    let output = vec![
        page(&["f1"], Some(meta("f1 title", &[], &[], 100))),
        page(&["f2"], None),
        page(&["f3"], Some(meta("f3 title", &[], &["t1", "t2", "t3"], 200))),
        page(&["f4"], Some(meta("f4 title", &[], &["t1", "t2"], 300))),
        page(&["f5"], Some(meta("f5 title", &[], &["t1", "t4"], 400))),
        page(&["f6"], Some(meta("f6 title", &[], &["t6"], 500))),
    ];
    let t1 = || Some(BundleQueryValue::Tag { tag: "t1".to_string() });
    let pg = |skip: Option<usize>, limit: Option<usize>| BundlePagination { skip, limit };
    assert_eq!(helper_titles(&output, t1(), pg(None, Some(2))), strings(&["f5 title", "f4 title"]));
    assert_eq!(helper_titles(&output, t1(), pg(None, Some(10))), strings(&["f5 title", "f4 title", "f3 title"]));
    assert_eq!(helper_titles(&output, t1(), pg(Some(2), Some(1))), strings(&["f3 title"]));
    assert_eq!(helper_titles(&output, None, pg(Some(4), None)), strings(&["f1 title", ""]));
}

#[test]
fn pages_of_one_date_keep_their_order() {
    let output = vec![
        page(&["a"], Some(meta("a", &[], &[], 1))),
        page(&["b"], None),
        page(&["c"], Some(meta("c", &[], &[], 1))),
        page(&["d"], Some(meta("d", &[], &[], -5))),
        page(&["e"], None),
    ];
    assert_eq!(helper_titles(&output, None, no_pagination()), strings(&["a", "c", "d", "", ""]));
    let helper = BundleQueryHelper { output_index: &output };
    let paths: Vec<String> = helper.query(&None, no_pagination()).iter().map(|p| p.path.join("/")).collect();
    assert_eq!(paths, vec!["a", "c", "d", "b", "e"]);
}

#[test]
fn hbs_stage_test_apply_bundle_query_helper() {
    bundle_query_helper_scenario();
}

#[test]
fn handlebars_stage_test_apply_bundle_query_helper() {
    bundle_query_helper_scenario();
}

#[test]
fn hbs_stage_test_apply_bundle_query_helper_pagination() {
    bundle_query_helper_pagination_scenario();
}

#[test]
fn asset_pages_of_size_zero_matching_nothing_are_none() {
    let output = bundle();
    let m = TplAssetMetadata {
        base_query: Some(BundleQuery::Tag { tag: "no such tag".to_string() }),
        group_by: None,
        limit: Some(0),
        path_pattern: None,
        first_page_path_pattern: None,
    };
    assert!(generate(m, &output).is_empty());
}
