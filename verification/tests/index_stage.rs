use std::collections::{BTreeMap, BTreeSet};

use pages::pages::{Author, Body, Metadata, Page};
use pages::stages::IndexStage;

fn meta(title: &str, summary: &str, authors: &[&str], tags: &[&str]) -> Metadata {
    let mut m = Metadata::empty();
    m.title = Some(title.to_string());
    m.summary = Some(summary.to_string());
    m.authors = authors.iter().map(|a| Author { name: a.to_string(), contacts: vec![] }).collect();
    m.tags = tags.iter().map(|t| t.to_string()).collect();
    m
}

fn page(path: &[&str], m: Option<Metadata>) -> Page {
    Page::new_text(path.iter().map(|s| s.to_string()).collect(), m, String::new())
}

type Paths = BTreeSet<Vec<String>>;

/// What the index pages hold, with lists read as sets.
#[derive(Debug, PartialEq)]
struct IndexPages {
    pages_by_tag: BTreeMap<String, Paths>,
    pages_by_author: BTreeMap<String, Paths>,
    all_tags: BTreeSet<String>,
    all_pages: BTreeSet<String>,
    all_authors: BTreeSet<(String, Vec<String>)>,
}

fn strings(v: &serde_json::Value) -> Vec<String> {
    v.as_array().unwrap().iter().map(|s| s.as_str().unwrap().to_string()).collect()
}

fn by_key(v: &serde_json::Value) -> BTreeMap<String, Paths> {
    v.as_object().unwrap().iter().map(|(k, ps)| (k.clone(), ps.as_array().unwrap().iter().map(strings).collect())).collect()
}

/// A page of the list of pages as a line: path, then the metadata with its
/// sets sorted.
fn page_line(v: &serde_json::Value) -> String {
    let path = strings(&v["path"]).join("/");
    let m = &v["metadata"];
    if m.is_null() {
        return format!("{} none", path);
    }
    let sorted = |x: &serde_json::Value| {
        let mut s = strings(x);
        s.sort();
        s.join(",")
    };
    format!(
        "{} title={} summary={} authors={} tags={} published={} edited={}",
        path, m["title"], m["summary"], sorted(&m["authors"]), sorted(&m["tags"]), m["publishing_date"], m["last_edit_date"]
    )
}

fn from_bundle(pages: &[Page]) -> IndexPages {
    let mut r = IndexPages {
        pages_by_tag: BTreeMap::new(),
        pages_by_author: BTreeMap::new(),
        all_tags: BTreeSet::new(),
        all_pages: BTreeSet::new(),
        all_authors: BTreeSet::new(),
    };
    for p in pages {
        let text = match &p.body {
            Body::Text(t) => t.clone(),
            other => panic!("unexpected body {:?}", other),
        };
        let v: serde_json::Value = serde_json::from_str(&text).unwrap();
        match p.path.join("/").as_str() {
            "pages_by_tag.json" => r.pages_by_tag = by_key(&v),
            "pages_by_author.json" => r.pages_by_author = by_key(&v),
            "all_tags.json" => r.all_tags = strings(&v).into_iter().collect(),
            "all_pages.json" => r.all_pages = v.as_array().unwrap().iter().map(page_line).collect(),
            "all_authors.json" => {
                r.all_authors = v.as_array().unwrap().iter().map(|a| (a["name"].as_str().unwrap().to_string(), strings(&a["contacts"]))).collect()
            },
            _ => panic!("should not have other file"),
        }
    }
    r
}

fn paths(v: &[&[&str]]) -> Paths {
    v.iter().map(|p| p.iter().map(|s| s.to_string()).collect()).collect()
}

fn set(v: &[&str]) -> BTreeSet<String> {
    v.iter().map(|s| s.to_string()).collect()
}

#[test]
fn generate_index_pages_from_single_page_bundle() {
    let bundle = vec![page(&["dir", "f1"], Some(meta("f1 title", "f1 summary", &["f1 author"], &["t1", "t2", "t3"])))];
    let index_stage = IndexStage { name: "index stage".to_string() };
    let (out, r) = index_stage.process(&bundle).unwrap();
    assert_eq!(r.stage_name, "index stage");
    assert!(r.sub_results.is_empty());
    let f1 = paths(&[&["dir", "f1"]]);
    assert_eq!(
        from_bundle(&out),
        IndexPages {
            pages_by_tag: [("t1", f1.clone()), ("t2", f1.clone()), ("t3", f1.clone())].into_iter().map(|(k, v)| (k.to_string(), v)).collect(),
            pages_by_author: [("f1 author".to_string(), f1.clone())].into_iter().collect(),
            all_tags: set(&["t1", "t2", "t3"]),
            all_pages: set(&["dir/f1 title=\"f1 title\" summary=\"f1 summary\" authors=f1 author tags=t1,t2,t3 published=null edited=null"]),
            all_authors: [("f1 author".to_string(), vec![])].into_iter().collect(),
        }
    );
}

#[test]
fn generate_index_pages_from_multi_page_bundle() {
    let bundle = vec![
        page(&["dir", "f1"], Some(meta("f1 title", "f1 summary", &["f1 author"], &["t1", "t2", "t3"]))),
        page(&["f2"], None),
        page(&["f3"], Some(meta("f3 title", "f3 summary", &["f3 author 1", "f3 author 2"], &["t3", "t4"]))),
        page(&["f4"], Some(meta("f4 title", "f4 summary", &["f3 author 1"], &[]))),
    ];
    let index_stage = IndexStage { name: "index stage".to_string() };
    let (out, r) = index_stage.process(&bundle).unwrap();
    assert_eq!(r.stage_name, "index stage");
    assert!(r.sub_results.is_empty());
    let f1 = paths(&[&["dir", "f1"]]);
    assert_eq!(
        from_bundle(&out),
        IndexPages {
            pages_by_tag: [
                ("t1", f1.clone()),
                ("t2", f1.clone()),
                ("t3", paths(&[&["dir", "f1"], &["f3"]])),
                ("t4", paths(&[&["f3"]])),
            ]
            .into_iter()
            .map(|(k, v)| (k.to_string(), v))
            .collect(),
            pages_by_author: [
                ("f1 author", f1.clone()),
                ("f3 author 1", paths(&[&["f3"], &["f4"]])),
                ("f3 author 2", paths(&[&["f3"]])),
            ]
            .into_iter()
            .map(|(k, v)| (k.to_string(), v))
            .collect(),
            all_tags: set(&["t1", "t2", "t3", "t4"]),
            all_pages: set(&[
                "dir/f1 title=\"f1 title\" summary=\"f1 summary\" authors=f1 author tags=t1,t2,t3 published=null edited=null",
                "f2 none",
                "f3 title=\"f3 title\" summary=\"f3 summary\" authors=f3 author 1,f3 author 2 tags=t3,t4 published=null edited=null",
                "f4 title=\"f4 title\" summary=\"f4 summary\" authors=f3 author 1 tags= published=null edited=null",
            ]),
            all_authors: [("f1 author", vec![]), ("f3 author 1", vec![]), ("f3 author 2", vec![])]
                .into_iter()
                .map(|(k, v): (&str, Vec<String>)| (k.to_string(), v))
                .collect(),
        }
    );
}

#[test]
fn index_pages_come_in_a_fixed_order() {
    let (out, _) = IndexStage { name: "i".to_string() }.process(&vec![]).unwrap();
    let names: Vec<String> = out.iter().map(|p| p.path.join("/")).collect();
    assert_eq!(names, vec!["all_pages.json", "all_authors.json", "all_tags.json", "pages_by_tag.json", "pages_by_author.json"]);
    assert!(matches!(&out[3].body, Body::Text(t) if t == "{}"));
}
