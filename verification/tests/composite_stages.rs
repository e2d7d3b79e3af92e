use std::sync::{Arc, Mutex};

use pages::errors::PagesError;
use pages::pages::{Body, Page};
use pages::selectors::Selector;
use pages::stages::{ComposeStage, ComposeUnit, CopyCut, CustomStage, ProcessingResult, ReplaceStage, SequenceStage, Stage, UnionStage};

/// A stage written for the tests: it gives fixed pages, or fails with a
/// message, and counts its runs.
struct TestStage {
    pages: Option<Vec<(Vec<String>, String)>>,
    err_msg: Option<String>,
    launched: Arc<Mutex<i8>>,
}

impl CustomStage for TestStage {
    fn name(&self) -> String {
        "test stage".to_string()
    }

    fn process(&self, _: &Vec<Page>) -> Result<(Vec<Page>, ProcessingResult), PagesError> {
        let out = match (&self.pages, &self.err_msg) {
            (Some(ps), _) => {
                *self.launched.lock().unwrap() += 1;
                ps.iter().map(|(p, c)| Page::new_text(p.clone(), None, c.clone())).collect()
            },
            (None, Some(e)) => return Err(PagesError::Exec(e.clone())),
            (None, None) => panic!("should have pages or an error"),
        };
        Ok((out, ProcessingResult { stage_name: "test stage".to_string(), start: 0, end: 0, sub_results: vec![] }))
    }
}

fn path(segments: &[&str]) -> Vec<String> {
    segments.iter().map(|s| s.to_string()).collect()
}

fn page(segments: &[&str], content: &str) -> Page {
    Page::new_text(path(segments), None, content.to_string())
}

/// Each page as its path joined with `/` and its text, sorted by path.
fn summary(pages: &[Page]) -> Vec<(String, String)> {
    let mut v: Vec<(String, String)> = pages
        .iter()
        .map(|p| {
            assert!(p.metadata.is_none());
            let content = match &p.body {
                Body::Text(t) => t.clone(),
                other => panic!("unexpected body {:?}", other),
            };
            (p.path.join("/"), content)
        })
        .collect();
    v.sort();
    v
}

fn expected(entries: &[(&[&str], &str)]) -> Vec<(String, String)> {
    entries.iter().map(|(p, c)| (p.join("/"), c.to_string())).collect()
}

/// A report as its stage name followed by the reports it holds.
fn report(r: &ProcessingResult) -> String {
    let subs: Vec<String> = r.sub_results.iter().map(report).collect();
    format!("{}[{}]", r.stage_name, subs.join(","))
}

fn move_all(name: &str, dest: &[&str]) -> Stage<TestStage> {
    Stage::CopyCut(CopyCut::Move { name: name.to_string(), dest: path(dest), selector: Selector::Path { query: path(&["**"]) } })
}

fn two_pages() -> Vec<Page> {
    vec![page(&["d1", "f1"], "test content"), page(&["d1", "f2"], "")]
}

fn four_pages() -> Vec<Page> {
    vec![
        page(&["d1", "f1"], "test content"),
        page(&["d1", "f2"], ""),
        page(&["d1", "d2", "f3"], ""),
        page(&["d1", "d2", "f4"], ""),
    ]
}

fn compose(units: Vec<ComposeUnit<TestStage>>, parallel: bool) -> Stage<TestStage> {
    Stage::Compose(ComposeStage { name: "compose stage".to_string(), units, parallel })
}

fn replace_d2(dest: &[&str]) -> ComposeUnit<TestStage> {
    ComposeUnit::ReplaceSubSet(Selector::Path { query: path(&["d1", "d2", "**"]) }, move_all("copy stage", dest))
}

fn check_create_new_page_set(parallel: bool) {
    let stage = compose(vec![ComposeUnit::CreateNewSet(move_all("copy stage", &["copied"]))], parallel);
    let (out, r) = stage.process(&two_pages()).unwrap();
    assert_eq!(report(&r), "compose stage[copy stage[]]");
    assert_eq!(
        summary(&out),
        expected(&[
            (&["copied", "d1", "f1"], "test content"),
            (&["copied", "d1", "f2"], ""),
            (&["d1", "f1"], "test content"),
            (&["d1", "f2"], ""),
        ])
    );
}

fn check_replace_sub_page_set(parallel: bool) {
    let stage = compose(vec![replace_d2(&["copied"])], parallel);
    let (out, r) = stage.process(&four_pages()).unwrap();
    assert_eq!(report(&r), "compose stage[copy stage[]]");
    assert_eq!(
        summary(&out),
        expected(&[
            (&["copied", "d1", "d2", "f3"], ""),
            (&["copied", "d1", "d2", "f4"], ""),
            (&["d1", "f1"], "test content"),
            (&["d1", "f2"], ""),
        ])
    );
}

fn check_create_and_replace_sub_page_set(parallel: bool) {
    let stage = compose(
        vec![ComposeUnit::CreateNewSet(move_all("copy stage", &["backup", "copied"])), replace_d2(&["copied"])],
        parallel,
    );
    let (out, r) = stage.process(&four_pages()).unwrap();
    assert_eq!(report(&r), "compose stage[copy stage[],copy stage[]]");
    assert_eq!(
        summary(&out),
        expected(&[
            (&["backup", "copied", "d1", "d2", "f3"], ""),
            (&["backup", "copied", "d1", "d2", "f4"], ""),
            (&["backup", "copied", "d1", "f1"], "test content"),
            (&["backup", "copied", "d1", "f2"], ""),
            (&["copied", "d1", "d2", "f3"], ""),
            (&["copied", "d1", "d2", "f4"], ""),
            (&["d1", "f1"], "test content"),
            (&["d1", "f2"], ""),
        ])
    );
}

fn check_multiple_selectors(parallel: bool) {
    let mut bundle = vec![page(&["a.md"], "test content a md")];
    bundle.extend(four_pages());
    let stage = compose(
        vec![
            ComposeUnit::CreateNewSet(move_all("copy stage", &["backup", "copied"])),
            replace_d2(&["copied"]),
            ComposeUnit::ReplaceSubSet(Selector::Ext { ext: ".md".to_string() }, move_all("copy stage", &["copied ext"])),
        ],
        parallel,
    );
    let (out, r) = stage.process(&bundle).unwrap();
    assert_eq!(report(&r), "compose stage[copy stage[],copy stage[],copy stage[]]");
    assert_eq!(
        summary(&out),
        expected(&[
            (&["backup", "copied", "a.md"], "test content a md"),
            (&["backup", "copied", "d1", "d2", "f3"], ""),
            (&["backup", "copied", "d1", "d2", "f4"], ""),
            (&["backup", "copied", "d1", "f1"], "test content"),
            (&["backup", "copied", "d1", "f2"], ""),
            (&["copied ext", "a.md"], "test content a md"),
            (&["copied", "d1", "d2", "f3"], ""),
            (&["copied", "d1", "d2", "f4"], ""),
            (&["d1", "f1"], "test content"),
            (&["d1", "f2"], ""),
        ])
    );
}

#[test]
fn compose_stage_should_create_new_page_set() {
    check_create_new_page_set(false);
}

#[test]
fn compose_stage_should_replace_sub_page_set() {
    check_replace_sub_page_set(false);
}

#[test]
fn compose_stage_should_create_and_replace_sub_page_set() {
    check_create_and_replace_sub_page_set(false);
}

#[test]
fn compose_stage_should_create_and_replace_sub_page_set_based_on_multiple_selectors() {
    check_multiple_selectors(false);
}

#[test]
fn parallel_compose_stage_should_create_new_page_set() {
    check_create_new_page_set(true);
}

#[test]
fn parallel_compose_stage_should_replace_sub_page_set() {
    check_replace_sub_page_set(true);
}

#[test]
fn parallel_compose_stage_should_create_and_replace_sub_page_set() {
    check_create_and_replace_sub_page_set(true);
}

#[test]
fn parallel_compose_stage_should_create_and_replace_sub_page_set_based_on_multiple_selectors() {
    check_multiple_selectors(true);
}

fn check_union(parallel: bool) {
    let stage = Stage::Union(UnionStage {
        name: "union stage".to_string(),
        stages: vec![move_all("copy stage", &["root", "sub_root"]), move_all("copy stage", &["second_root"])],
        parallel,
    });
    let (out, r) = stage.process(&two_pages()).unwrap();
    assert_eq!(report(&r), "union stage[copy stage[],copy stage[]]");
    assert_eq!(
        summary(&out),
        expected(&[
            (&["root", "sub_root", "d1", "f1"], "test content"),
            (&["root", "sub_root", "d1", "f2"], ""),
            (&["second_root", "d1", "f1"], "test content"),
            (&["second_root", "d1", "f2"], ""),
        ])
    );
}

#[test]
fn parallel_union_stage_should_merge_two_copy_sub_stages() {
    check_union(true);
}

#[test]
fn sequential_union_stage_should_merge_two_copy_sub_stages() {
    check_union(false);
}

#[test]
fn replace_inner_stage_selected_result_in_current_bundle() {
    let stage = Stage::Replace(ReplaceStage {
        name: "replace stage".to_string(),
        inner: Box::new(move_all("copy stage", &["copied"])),
        selector: Selector::Path { query: path(&["d1", "d2", "**"]) },
    });
    let (out, r) = stage.process(&four_pages()).unwrap();
    assert_eq!(report(&r), "replace stage[copy stage[]]");
    assert_eq!(
        summary(&out),
        expected(&[
            (&["copied", "d1", "d2", "f3"], ""),
            (&["copied", "d1", "d2", "f4"], ""),
            (&["d1", "f1"], "test content"),
            (&["d1", "f2"], ""),
        ])
    );
}

#[test]
fn sequence_stage_runs_stages_one_after_the_other() {
    let stage = Stage::Sequence(SequenceStage {
        name: "sequence".to_string(),
        stages: vec![move_all("first", &["a"]), move_all("second", &["b"])],
    });
    let (out, r) = stage.process(&two_pages()).unwrap();
    assert_eq!(report(&r), "sequence[first[],second[]]");
    assert_eq!(summary(&out), expected(&[(&["b", "a", "d1", "f1"], "test content"), (&["b", "a", "d1", "f2"], "")]));
}

#[test]
fn union_of_parallel_and_sequential_runs_gives_the_same_pages_in_the_same_order() {
    let mk = |parallel| {
        Stage::Union(UnionStage {
            name: "u".to_string(),
            stages: vec![move_all("x", &["x"]), move_all("y", &["y"]), move_all("z", &["z"])],
            parallel,
        })
    };
    let (a, _) = mk(true).process(&four_pages()).unwrap();
    let (b, _) = mk(false).process(&four_pages()).unwrap();
    let pa: Vec<Vec<String>> = a.iter().map(|p| p.path.clone()).collect();
    let pb: Vec<Vec<String>> = b.iter().map(|p| p.path.clone()).collect();
    assert_eq!(pa, pb);
    assert_eq!(pa.len(), 12);
    assert_eq!(pa[0], path(&["x", "d1", "f1"]));
}

#[test]
fn append_stage_keeps_the_input_and_adds_the_inner_output() {
    let stage = Stage::Append(pages::stages::AppendStage { name: "append".to_string(), inner: Box::new(move_all("copy", &["c"])) });
    let (out, r) = stage.process(&two_pages()).unwrap();
    assert_eq!(report(&r), "append[copy[]]");
    assert_eq!(
        summary(&out),
        expected(&[
            (&["c", "d1", "f1"], "test content"),
            (&["c", "d1", "f2"], ""),
            (&["d1", "f1"], "test content"),
            (&["d1", "f2"], ""),
        ])
    );
}

#[test]
fn parallel_union_stage_should_return_error_on_errored_stage_and_cancel_non_launched_stage() {
    let launched = Arc::new(Mutex::new(0));
    let ok_stage = || {
        Stage::Custom(TestStage {
            pages: Some(vec![(path(&["d1", "f1"]), "test content".to_string()), (path(&["d1", "f2"]), String::new())]),
            err_msg: None,
            launched: Arc::clone(&launched),
        })
    };
    let err_stage = Stage::Custom(TestStage { pages: None, err_msg: Some("some error".to_string()), launched: Arc::new(Mutex::new(0)) });
    let mut stages = vec![ok_stage(), err_stage];
    for _ in 0..12 {
        stages.push(ok_stage());
    }
    let union_stage = Stage::Union(UnionStage { name: "union stage".to_string(), stages, parallel: true });
    let result = union_stage.process(&vec![]);
    assert!(matches!(result, Err(PagesError::Exec(e)) if e == "some error"));
    println!("{}", *launched.lock().unwrap());
}

#[test]
fn user_stages_compose_with_the_library_stages() {
    let user = Stage::Custom(TestStage {
        pages: Some(vec![(path(&["u", "f"]), "from user".to_string())]),
        err_msg: None,
        launched: Arc::new(Mutex::new(0)),
    });
    let stage = Stage::Sequence(SequenceStage { name: "sequence".to_string(), stages: vec![user, move_all("move", &["m"])] });
    let (out, r) = stage.process(&two_pages()).unwrap();
    assert_eq!(report(&r), "sequence[test stage[],move[]]");
    assert_eq!(summary(&out), expected(&[(&["m", "u", "f"], "from user")]));
    let failing = Stage::Sequence(SequenceStage {
        name: "sequence".to_string(),
        stages: vec![
            Stage::Custom(TestStage { pages: None, err_msg: Some("no".to_string()), launched: Arc::new(Mutex::new(0)) }),
            move_all("move", &["m"]),
        ],
    });
    assert!(failing.process(&two_pages()).is_err());
}
