use pages::errors::PagesError;
use pages::pages::{Author, Body, Metadata, Page, Value};
use pages::shadow::{ShadowLoader, ShadowPages};

/// Reads the metadata that a JSON or YAML page holds (JSON being read as
/// YAML); a root file holds it under `page`.
struct TextLoader;

fn date(v: &serde_yaml::Value) -> Option<i64> {
    let s = v.as_str()?;
    if let Ok(d) = chrono::DateTime::parse_from_rfc3339(s) {
        return Some(d.timestamp());
    }
    if let Ok(d) = chrono::NaiveDateTime::parse_from_str(s, "%Y-%m-%dT%H:%M:%S") {
        return Some(d.and_utc().timestamp());
    }
    let d = chrono::NaiveDate::parse_from_str(s, "%Y-%m-%d").ok()?;
    Some(d.and_hms_opt(0, 0, 0)?.and_utc().timestamp())
}

fn strings(v: &serde_yaml::Value) -> Vec<String> {
    v.as_sequence().map(|s| s.iter().filter_map(|x| x.as_str().map(|t| t.to_string())).collect()).unwrap_or_default()
}

fn metadata_of(v: &serde_yaml::Value) -> Metadata {
    let mut m = Metadata::empty();
    m.title = v.get("title").and_then(|t| t.as_str()).map(|t| t.to_string());
    m.summary = v.get("summary").and_then(|t| t.as_str()).map(|t| t.to_string());
    if let Some(authors) = v.get("authors").and_then(|a| a.as_sequence()) {
        for a in authors {
            m.authors.push(Author {
                name: a.get("name").and_then(|n| n.as_str()).unwrap_or("").to_string(),
                contacts: a.get("contacts").map(strings).unwrap_or_default(),
            });
        }
    }
    m.tags = v.get("tags").map(strings).unwrap_or_default();
    m.publishing_date = v.get("publishingDate").and_then(date);
    m.last_edit_date = v.get("lastEditDate").and_then(date);
    if let Some(data) = v.get("data").and_then(|d| d.as_mapping()) {
        for (k, val) in data {
            let value = if let Some(i) = val.as_i64() {
                if i >= i32::MIN as i64 && i <= i32::MAX as i64 { Value::I32(i as i32) } else { Value::I64(i) }
            } else if let Some(b) = val.as_bool() {
                Value::Bool(b)
            } else if let Some(s) = val.as_str() {
                Value::Str(s.to_string())
            } else {
                Value::Null
            };
            m.data.push((k.as_str().unwrap_or("").to_string(), value));
        }
    }
    m
}

impl ShadowLoader for TextLoader {
    fn load(&self, page: &Page) -> Result<Metadata, PagesError> {
        let text = match &page.body {
            Body::Text(t) => t.clone(),
            _ => return Err(PagesError::Exec("not a text page".to_string())),
        };
        let v: serde_yaml::Value = serde_yaml::from_str(&text).map_err(|e| PagesError::Exec(e.to_string()))?;
        Ok(match v.get("page") {
            Some(p) if page.path.len() == 1 && page.path[0].starts_with("pages.") => metadata_of(p),
            _ => metadata_of(&v),
        })
    }
}

fn stage() -> ShadowPages<TextLoader> {
    ShadowPages::new("shadow stage".to_string(), vec![(".json".to_string(), TextLoader), (".yaml".to_string(), TextLoader)])
}

fn page(segments: &[&str], content: &str) -> Page {
    Page::new_text(segments.iter().map(|s| s.to_string()).collect(), None, content.to_string())
}

/// A page as its path, its text and its metadata with sets sorted.
fn describe(p: &Page) -> String {
    let content = match &p.body {
        Body::Text(t) => t.clone(),
        other => format!("{:?}", other),
    };
    let meta = match &p.metadata {
        None => "none".to_string(),
        Some(m) => {
            let mut tags = m.tags.clone();
            tags.sort();
            let mut authors: Vec<String> = m
                .authors
                .iter()
                .map(|a| {
                    let mut c = a.contacts.clone();
                    c.sort();
                    format!("{}<{}>", a.name, c.join(","))
                })
                .collect();
            authors.sort();
            let mut data: Vec<String> = m.data.iter().map(|(k, v)| format!("{}={:?}", k, v)).collect();
            data.sort();
            format!(
                "title={:?} summary={:?} authors=[{}] tags=[{}] published={:?} edited={:?} data=[{}]",
                m.title,
                m.summary,
                authors.join(" "),
                tags.join(","),
                m.publishing_date,
                m.last_edit_date,
                data.join(",")
            )
        },
    };
    format!("{} | {} | {}", p.path.join("/"), content, meta)
}

fn run(bundle: Vec<Page>) -> Vec<String> {
    let (out, r) = stage().process(&bundle).unwrap();
    assert_eq!(r.stage_name, "shadow stage");
    assert!(r.sub_results.is_empty());
    let mut v: Vec<String> = out.iter().map(describe).collect();
    v.sort();
    v
}

fn meta(title: Option<&str>, summary: Option<&str>, authors: &str, tags: &str, published: Option<i64>, edited: Option<i64>, data: &str) -> String {
    format!(
        "title={:?} summary={:?} authors=[{}] tags=[{}] published={:?} edited={:?} data=[{}]",
        title.map(|s| s.to_string()),
        summary.map(|s| s.to_string()),
        authors,
        tags,
        published,
        edited,
        data
    )
}

fn line(path: &str, content: &str, meta: &str) -> String {
    format!("{} | {} | {}", path, content, meta)
}

fn five_text_pages() -> Vec<Page> {
    vec![
        page(&["a", "b", "c.txt"], "'c' content"),
        page(&["a", "d.txt"], "'d' content"),
        page(&["a", "e.txt"], "'e' content"),
        page(&["f.txt"], "'f' content"),
        page(&["g", "h", "i.txt"], "'i' content"),
    ]
}

const A_YAML: &str = "authors:\n  - name: a1\n    contacts: [c1, c2]\n  - name: a2\n    contacts: [c3, c4]\ntags: [t1, t2]\npublishingDate: 2021-10-20T16:00:00-08:00\n";
const C_YAML: &str = "title: c title\nsummary: c summary\nauthors:\n  - name: a2\ntags: [t2, t3]\npublishingDate: 2021-10-20T17:00:00-08:00\n";

#[test]
fn shadow_pages_stage_should_load_page_metadata() {
    let actual = run(vec![page(&["a"], "'a' content"), page(&["a.json"], r#"{"title": "a title"}"#)]);
    assert_eq!(actual, vec![line("a", "'a' content", &meta(Some("a title"), None, "", "", None, None, ""))]);
}

#[test]
fn shadow_pages_stage_should_load_multiple_page_metadata() {
    let b_json = r#"{
        "title": "b title",
        "summary": "b summary",
        "authors": [{"name": "a1"}, {"name": "a2", "contacts": ["c1", "c2"]}],
        "tags": ["t1", "t2", "t3"],
        "publishingDate": "2021-10-20T16:00:00-08:00",
        "lastEditDate": "2021-10-20T17:00:00-08:00",
        "data": {"a": 10}
    }"#;
    let c_yaml = "title: c title\nsummary: c summary\nauthors:\n  - name: a1\n  - name: a2\n    contacts: [c1, c2]\ntags: [t1, t2, t3]\npublishingDate: 2021-10-20T16:00:00\nlastEditDate: 2021-10-20\ndata:\n  a: 10\n";
    let actual = run(vec![
        page(&["a"], "'a' content"),
        page(&["a.json"], r#"{"title": "a title"}"#),
        page(&["b"], "'b' content"),
        page(&["b.json"], b_json),
        page(&["c"], "'c' content"),
        page(&["c.yaml"], c_yaml),
    ]);
    assert_eq!(
        actual,
        vec![
            line("a", "'a' content", &meta(Some("a title"), None, "", "", None, None, "")),
            line(
                "b",
                "'b' content",
                &meta(Some("b title"), Some("b summary"), "a1<> a2<c1,c2>", "t1,t2,t3", Some(1634774400), Some(1634778000), "a=I32(10)")
            ),
            line(
                "c",
                "'c' content",
                &meta(Some("c title"), Some("c summary"), "a1<> a2<c1,c2>", "t1,t2,t3", Some(1634745600), Some(1634688000), "a=I32(10)")
            ),
        ]
    );
}

#[test]
fn shadow_pages_stage_should_load_nothing_when_no_metadata() {
    let actual = run(five_text_pages());
    assert_eq!(
        actual,
        vec![
            line("a/b/c.txt", "'c' content", "none"),
            line("a/d.txt", "'d' content", "none"),
            line("a/e.txt", "'e' content", "none"),
            line("f.txt", "'f' content", "none"),
            line("g/h/i.txt", "'i' content", "none"),
        ]
    );
}

#[test]
fn shadow_pages_stage_should_load_root_hierarchy_metadata() {
    let mut bundle = vec![page(&["a.yaml"], A_YAML)];
    bundle.extend(five_text_pages());
    let actual = run(bundle);
    let a_meta = meta(None, None, "", "t1,t2", Some(1634774400), None, "");
    assert_eq!(
        actual,
        vec![
            line("a/b/c.txt", "'c' content", &a_meta),
            line("a/d.txt", "'d' content", &a_meta),
            line("a/e.txt", "'e' content", &a_meta),
            line("f.txt", "'f' content", "none"),
            line("g/h/i.txt", "'i' content", "none"),
        ]
    );
}

#[test]
fn shadow_pages_stage_should_load_multi_level_hierarchy_metadata() {
    let bundle = vec![
        page(&["a.yaml"], A_YAML),
        page(&["a", "b", "c.txt"], "'c' content"),
        page(&["a", "b", "c.txt.yaml"], C_YAML),
        page(&["a", "d.txt"], "'d' content"),
        page(&["a", "e.txt"], "'e' content"),
        page(&["f.txt"], "'f' content"),
        page(&["g", "h", "i.txt"], "'i' content"),
    ];
    let actual = run(bundle);
    let a_meta = meta(None, None, "", "t1,t2", Some(1634774400), None, "");
    assert_eq!(
        actual,
        vec![
            line(
                "a/b/c.txt",
                "'c' content",
                &meta(Some("c title"), Some("c summary"), "a2<c3,c4>", "t1,t2,t3", Some(1634778000), None, "")
            ),
            line("a/d.txt", "'d' content", &a_meta),
            line("a/e.txt", "'e' content", &a_meta),
            line("f.txt", "'f' content", "none"),
            line("g/h/i.txt", "'i' content", "none"),
        ]
    );
}

#[test]
fn shadow_pages_stage_should_load_root_metadata() {
    let bundle = vec![
        page(&["pages.yaml"], "page:\n  tags: [root_tag]\n  data:\n    some_root_key: some_value\n"),
        page(&["a.yaml"], A_YAML),
        page(&["a", "b", "c.txt"], "'c' content"),
        page(&["a", "b", "c.txt.yaml"], C_YAML),
        page(&["a", "d.txt"], "'d' content"),
        page(&["a", "e.txt"], "'e' content"),
        page(&["f.txt"], "'f' content"),
        page(&["g", "h", "i.txt"], "'i' content"),
    ];
    let actual = run(bundle);
    let root_data = "some_root_key=Str(\"some_value\")";
    let a_meta = meta(None, None, "", "root_tag,t1,t2", Some(1634774400), None, root_data);
    let root_meta = meta(None, None, "", "root_tag", None, None, root_data);
    assert_eq!(
        actual,
        vec![
            line(
                "a/b/c.txt",
                "'c' content",
                &meta(Some("c title"), Some("c summary"), "a2<c3,c4>", "root_tag,t1,t2,t3", Some(1634778000), None, root_data)
            ),
            line("a/d.txt", "'d' content", &a_meta),
            line("a/e.txt", "'e' content", &a_meta),
            line("f.txt", "'f' content", &root_meta),
            line("g/h/i.txt", "'i' content", &root_meta),
        ]
    );
}
