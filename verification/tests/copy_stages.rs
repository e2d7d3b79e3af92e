use pages::pages::{Body, Page};
use pages::selectors::Selector;
use pages::stages::{CopyCut, CopyStage, ProcessingResult};

fn path(segments: &[&str]) -> Vec<String> {
    segments.iter().map(|s| s.to_string()).collect()
}

fn text_page(segments: &[&str], content: &str) -> Page {
    Page::new_text(path(segments), None, content.to_string())
}

/// The path, whether metadata is present, and the text of each page, sorted
/// by the path joined with `/`.
fn sorted_summary(pages: &[Page]) -> Vec<(Vec<String>, bool, String)> {
    let mut actual: Vec<(Vec<String>, bool, String)> = pages
        .iter()
        .map(|p| {
            let content = match &p.body {
                Body::Text(t) => t.clone(),
                other => panic!("unexpected body {:?}", other),
            };
            (p.path.clone(), p.metadata.is_some(), content)
        })
        .collect();
    actual.sort_by_key(|f| f.0.join("/"));
    actual
}

fn expected(segments: &[&str], content: &str) -> (Vec<String>, bool, String) {
    (path(segments), false, content.to_string())
}

fn input_bundle() -> Vec<Page> {
    vec![
        text_page(&["d1", "f1"], "test content"),
        text_page(&["d1", "f2"], ""),
        text_page(&["d1", "d2", "f3"], ""),
        text_page(&["d3", "f4"], ""),
    ]
}

fn assert_leaf_report(r: &ProcessingResult, name: &str) {
    assert_eq!(r.stage_name, name);
    assert!(r.sub_results.is_empty());
}

#[test]
fn copy_selected_pages() {
    let bundle = input_bundle();
    let stage = CopyCut::Copy {
        name: "copy cut stage".to_string(),
        selector: Selector::Path { query: path(&["d1", "**"]) },
        dest: path(&["copied"]),
    };
    let result_bundle = stage.process(&bundle).unwrap();
    assert_leaf_report(&result_bundle.1, "copy cut stage");
    assert_eq!(
        sorted_summary(&result_bundle.0),
        vec![
            expected(&["copied", "d1", "d2", "f3"], ""),
            expected(&["copied", "d1", "f1"], "test content"),
            expected(&["copied", "d1", "f2"], ""),
            expected(&["d1", "d2", "f3"], ""),
            expected(&["d1", "f1"], "test content"),
            expected(&["d1", "f2"], ""),
            expected(&["d3", "f4"], ""),
        ]
    );
}

#[test]
fn move_selected_pages() {
    let bundle = input_bundle();
    let stage = CopyCut::Move {
        name: "copy cut stage".to_string(),
        selector: Selector::Path { query: path(&["d1", "**"]) },
        dest: path(&["moved"]),
    };
    let result_bundle = stage.process(&bundle).unwrap();
    assert_leaf_report(&result_bundle.1, "copy cut stage");
    assert_eq!(
        sorted_summary(&result_bundle.0),
        vec![
            expected(&["d3", "f4"], ""),
            expected(&["moved", "d1", "d2", "f3"], ""),
            expected(&["moved", "d1", "f1"], "test content"),
            expected(&["moved", "d1", "f2"], ""),
        ]
    );
}

#[test]
fn ignore_selected_pages() {
    let bundle = input_bundle();
    let stage = CopyCut::Ignore {
        name: "copy cut stage".to_string(),
        selector: Selector::Path { query: path(&["d1", "**"]) },
    };
    let result_bundle = stage.process(&bundle).unwrap();
    assert_leaf_report(&result_bundle.1, "copy cut stage");
    assert_eq!(sorted_summary(&result_bundle.0), vec![expected(&["d3", "f4"], "")]);
}

#[test]
fn copy_stage_should_copy_all_bundle_paths_to_another_root_path() {
    let bundle = vec![text_page(&["d1", "f1"], "test content"), text_page(&["d1", "f2"], "")];
    let copy_stage = CopyStage {
        name: "copy stage".to_string(),
        prefix: path(&["root", "sub_root"]),
    };
    let result_bundle = copy_stage.process(&bundle).unwrap();
    assert_leaf_report(&result_bundle.1, "copy stage");
    assert_eq!(
        sorted_summary(&result_bundle.0),
        vec![
            expected(&["root", "sub_root", "d1", "f1"], "test content"),
            expected(&["root", "sub_root", "d1", "f2"], ""),
        ]
    );
}

#[test]
fn ignore_with_extension_selector_keeps_other_pages_in_order() {
    let bundle = vec![text_page(&["a.md"], "x"), text_page(&["b.txt"], "y"), text_page(&["c.md"], "z")];
    let stage = CopyCut::Ignore { name: "ignore md".to_string(), selector: Selector::Ext { ext: ".md".to_string() } };
    let (out, _) = stage.process(&bundle).unwrap();
    assert_eq!(out.len(), 1);
    assert_eq!(out[0].path, path(&["b.txt"]));
}
