use pages::pages::{Body, Page};
use pages::stages::MdStage;

fn page(segments: &[&str], content: &str) -> Page {
    Page::new_text(segments.iter().map(|s| s.to_string()).collect(), None, content.to_string())
}

#[test]
fn transform_md_pages_to_html_ones() {
    let bundle = vec![
        page(&["f1.md"], "paragraph 1\nparagraph 1\n\nparagraph 2\n"),
        page(&["f2.md"], "An H1 Header\n============\n\nAn H2 Header\n------------\n"),
        page(
            &["dir", "f3"],
            "Indented code\n\n    // Some comments\n    line 1 of code\n    line 2 of code\n    line 3 of code\n",
        ),
    ];
    let md_stage = MdStage { name: "md stage".to_string() };
    let (out, r) = md_stage.process(&bundle).unwrap();
    assert_eq!(r.stage_name, "md stage");
    assert!(r.sub_results.is_empty());
    let mut actual: Vec<(String, String)> = out
        .iter()
        .map(|p| {
            assert!(p.metadata.is_none());
            match &p.body {
                Body::Text(t) => (p.path.join("/"), t.clone()),
                other => panic!("unexpected body {:?}", other),
            }
        })
        .collect();
    actual.sort();
    assert_eq!(
        actual,
        vec![
            (
                "dir/f3".to_string(),
                "<p>Indented code</p>\n<pre><code>// Some comments\nline 1 of code\nline 2 of code\nline 3 of code\n</code></pre>\n".to_string()
            ),
            ("f1.html".to_string(), "<p>paragraph 1\nparagraph 1</p>\n<p>paragraph 2</p>\n".to_string()),
            ("f2.html".to_string(), "<h1>An H1 Header</h1>\n<h2>An H2 Header</h2>\n".to_string()),
        ]
    );
}

#[test]
fn markdown_stage_keeps_a_name_without_extension_and_replaces_the_last_one() {
    let bundle = vec![page(&["a.b.md"], "x"), page(&["noext"], "y")];
    let (out, _) = MdStage { name: "md".to_string() }.process(&bundle).unwrap();
    assert_eq!(out[0].path, vec!["a.b.html".to_string()]);
    assert_eq!(out[1].path, vec!["noext".to_string()]);
}
