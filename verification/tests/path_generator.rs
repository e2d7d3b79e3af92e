use pages::pages::{Body, Metadata, Page, Value};
use pages::paths::{PathGenerator, PathParams, path_join_args, path_join_range, uri_friendly_string};

fn with_path_pattern(mut m: Metadata, pattern: &str) -> Metadata {
    m.data.push(("path".to_string(), Value::Str(pattern.to_string())));
    m
}

fn page(segments: &[&str], m: Metadata) -> Page {
    Page::new_text(segments.iter().map(|s| s.to_string()).collect(), Some(m), "test content".to_string())
}

#[test]
fn generate_page_paths() {
    let mut f2 = Metadata::empty();
    f2.publishing_date = Some(1637671914);
    let mut f3 = Metadata::empty();
    f3.title = Some("F3 Title".to_string());
    let bundle = vec![
        page(&["d1", "f1"], with_path_pattern(Metadata::empty(), "a/b/c")),
        page(
            &["d1", "f2"],
            with_path_pattern(f2, "page/{{publishing_date.short_year}}/{{publishing_date.short_month}}/{{publishing_date.day}}"),
        ),
        page(&["d1", "f3"], with_path_pattern(f3, "{{url_title}}")),
        page(&["d1", "f4"], Metadata::empty()),
    ];
    let path_generator = PathGenerator::new("path generator".to_string());
    let (out, r) = path_generator.process(&bundle).unwrap();
    assert_eq!(r.stage_name, "path generator");
    assert!(r.sub_results.is_empty());
    let mut actual: Vec<(String, Option<String>, Option<i64>)> = out
        .iter()
        .map(|p| {
            assert!(matches!(&p.body, Body::Text(t) if t == "test content"));
            let m = p.metadata.as_ref().unwrap();
            (p.path.join("/"), m.title.clone(), m.publishing_date)
        })
        .collect();
    actual.sort();
    assert_eq!(
        actual,
        vec![
            ("a/b/c".to_string(), None, None),
            ("d1/f4".to_string(), None, None),
            ("f3_title".to_string(), Some("F3 Title".to_string()), None),
            ("page/21/Nov/23".to_string(), None, Some(1637671914)),
        ]
    );
}

#[test]
fn pages_without_pattern_come_first_then_moved_ones_in_bundle_order() {
    let bundle = vec![
        page(&["x"], with_path_pattern(Metadata::empty(), "one")),
        page(&["y"], Metadata::empty()),
        page(&["z"], with_path_pattern(Metadata::empty(), "two/three")),
    ];
    let g = PathGenerator::new("g".to_string());
    let requests = g.render_requests(&bundle).unwrap();
    assert_eq!(requests.len(), 2);
    assert_eq!(requests[0].0, "one");
    let (out, _) = g.apply_paths(&bundle, &vec!["first".to_string(), "second/part".to_string()]);
    let paths: Vec<String> = out.iter().map(|p| p.path.join("/")).collect();
    assert_eq!(paths, vec!["y", "first", "second/part"]);
}

#[test]
fn path_params_of_a_page_without_metadata() {
    let p = Page::new_text(vec!["dir".to_string(), "name.tar.gz".to_string()], None, String::new());
    let params = PathParams::of_page(&p).unwrap();
    assert_eq!(params.file_name, "name.tar");
    assert_eq!(params.rev_path, vec!["name.tar.gz".to_string(), "dir".to_string()]);
    assert!(params.publishing_date.is_none());
    let json = params.to_json();
    let v: serde_json::Value = serde_json::from_str(&json).unwrap();
    assert_eq!(v["file_name"], "name.tar");
    assert_eq!(v["path"][1], "name.tar.gz");
    assert!(v["authors"].is_null());
}

#[test]
fn date_parts_are_written_by_chrono() {
    let mut m = Metadata::empty();
    m.publishing_date = Some(1637671914);
    m.title = Some("T \"quoted\"".to_string());
    let p = Page::new_text(vec!["f".to_string()], Some(m), String::new());
    let params = PathParams::of_page(&p).unwrap();
    let d = params.publishing_date.as_ref().unwrap();
    assert_eq!(d.i_year, "2021");
    assert_eq!(d.short_month, "Nov");
    assert_eq!(d.long_day, "Tuesday");
    assert_eq!(d.i_hour, "12");
    let v: serde_json::Value = serde_json::from_str(&params.to_json()).unwrap();
    assert_eq!(v["publishing_date"]["i_month"], 11);
    assert_eq!(v["title"], "T \"quoted\"");
    assert_eq!(v["url_title"], "t__quoted_");
}

#[test]
fn a_date_out_of_range_is_an_error() {
    let mut m = Metadata::empty();
    m.publishing_date = Some(i64::MAX);
    let bundle = vec![page(&["f"], with_path_pattern(m, "x"))];
    assert!(PathGenerator::new("g".to_string()).render_requests(&bundle).is_err());
}

#[test]
fn path_patterns_use_path_join_and_strict_mode() {
    let bundle = vec![
        page(&["d1", "d2", "f1.html"], with_path_pattern(Metadata::empty(), "x/{{path_join path 1}}")),
        page(&["d3", "f2"], with_path_pattern(Metadata::empty(), "{{path_join path 0 -2}}/index")),
    ];
    let (out, _) = PathGenerator::new("g".to_string()).process(&bundle).unwrap();
    let paths: Vec<String> = out.iter().map(|p| p.path.join("/")).collect();
    assert_eq!(paths, vec!["x/d2/f1.html", "d3/index"]);
    let unknown = vec![page(&["f"], with_path_pattern(Metadata::empty(), "{{no_such_param}}"))];
    assert!(PathGenerator::new("g".to_string()).process(&unknown).is_err());
}

#[test]
fn path_join_helper_ranges() {
    let source: Vec<String> = vec!["a".to_string(), "b".to_string(), "c".to_string()];
    assert_eq!(path_join_range(&source, 0, None), Some("a/b/c".to_string()));
    assert_eq!(path_join_range(&source, 1, Some(2)), Some("b".to_string()));
    assert_eq!(path_join_range(&source, 0, Some(-2)), Some("a/b".to_string()));
    assert_eq!(path_join_range(&source, -2, None), Some("c".to_string()));
    assert_eq!(path_join_range(&source, 2, Some(1)), None);
    assert_eq!(path_join_range(&source, 0, Some(4)), None);
}

#[test]
fn uri_friendly_text() {
    assert_eq!(uri_friendly_string("F3 Title"), "f3_title");
    assert_eq!(uri_friendly_string("Ab-9é"), "ab_9_");
}

#[test]
fn publishing_date_parts_also_stand_at_the_top_level() {
    let mut m = Metadata::empty();
    m.publishing_date = Some(1637671914);
    let bundle = vec![page(&["d1", "f2"], with_path_pattern(m, "{{short_year}}/{{month}}/{{i_day}}/{{short_month}}"))];
    let (out, _) = PathGenerator::new("g".to_string()).process(&bundle).unwrap();
    assert_eq!(out[0].path, vec!["21", "11", "23", "Nov"]);

    let mut m = Metadata::empty();
    m.publishing_date = Some(1637671914);
    let params = PathParams::of_page(&Page::new_text(vec!["f".to_string()], Some(m), String::new())).unwrap();
    assert_eq!(params.timestamp, Some(1637671914));
    assert_eq!(params.i_year.as_deref(), Some("2021"));
    assert_eq!(params.long_day, "Tuesday");
    let v: serde_json::Value = serde_json::from_str(&params.to_json()).unwrap();
    assert_eq!(v["timestamp"], 1637671914);
    assert_eq!(v["i_year"], 2021);
    assert_eq!(v["i_month"], 11);
    assert_eq!(v["short_month"], "Nov");
    assert_eq!(v["publishing_date"]["short_year"], "21");
}

#[test]
fn top_level_date_parts_are_empty_without_a_publishing_date() {
    let params = PathParams::of_page(&Page::new_text(vec!["f".to_string()], Some(Metadata::empty()), String::new())).unwrap();
    assert_eq!(params.timestamp, None);
    assert_eq!(params.i_year, None);
    assert_eq!(params.short_year, "");
    let v: serde_json::Value = serde_json::from_str(&params.to_json()).unwrap();
    assert!(v["timestamp"].is_null());
    assert!(v["i_second"].is_null());
    assert_eq!(v["long_month"], "");
    let bundle = vec![page(&["f"], with_path_pattern(Metadata::empty(), "x{{short_year}}y"))];
    let (out, _) = PathGenerator::new("g".to_string()).process(&bundle).unwrap();
    assert_eq!(out[0].path, vec!["xy"]);
}

#[test]
fn path_join_helper_defaults() {
    let items = Some(vec![Some("a".to_string()), None, Some("c".to_string())]);
    assert_eq!(path_join_args(items, None, None), Some("a//c".to_string()));
    let items = Some(vec![Some("a".to_string()), Some("b".to_string()), Some("c".to_string())]);
    assert_eq!(path_join_args(items, None, Some(-2)), Some("a/b".to_string()));
    assert_eq!(path_join_args(None, Some(0), None), None);
    let bundle = vec![page(&["d1", "f1"], with_path_pattern(Metadata::empty(), "{{path_join path \"x\"}}"))];
    let (out, _) = PathGenerator::new("g".to_string()).process(&bundle).unwrap();
    assert_eq!(out[0].path, vec!["d1", "f1"]);
}
