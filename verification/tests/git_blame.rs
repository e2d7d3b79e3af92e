use pages::git::{BlameRule, CommitInfo, GitAuthors, GitBlame, GitMetadata};
use pages::pages::{Author, Metadata, Page};

fn strings(v: &[&str]) -> Vec<String> {
    v.iter().map(|s| s.to_string()).collect()
}

fn page(path: &[&str], m: Option<Metadata>) -> Page {
    Page::new_text(strings(path), m, "content".to_string())
}

fn commit(user: &str, time: i64, files: &[&str]) -> CommitInfo {
    CommitInfo {
        author_name: Some(user.to_string()),
        author_email: Some(format!("{}@pages.io", user)),
        time,
        files: strings(files),
    }
}

/// Walks commits, newest first, until no page waits any more.
fn walk(blame: &mut GitBlame, history: &[CommitInfo]) {
    for c in history {
        if blame.is_done() {
            break;
        }
        blame.apply_commit(c);
    }
}

fn authors_of(p: &Page) -> Vec<(String, Vec<String>)> {
    p.metadata.as_ref().unwrap().authors.iter().map(|a| (a.name.clone(), a.contacts.clone())).collect()
}

fn sorted_by_path(mut v: Vec<Page>) -> Vec<Page> {
    v.sort_by_key(|p| p.path.join("/"));
    v
}

#[test]
fn load_author_from_git_metadata() {
    let stage = GitMetadata { name: "git".to_string(), repo_path: "repo".to_string() };
    let (kept, mut blame) = stage.start(&vec![page(&["file_1"], None)]);
    assert!(kept.is_empty());
    walk(&mut blame, &[commit("user_1", 1000, &["file_1"])]);
    assert!(blame.is_done());
    let out = blame.finish();
    assert_eq!(out.len(), 1);
    assert_eq!(authors_of(&out[0]), vec![("user_1".to_string(), strings(&["user_1@pages.io"]))]);
    let m = out[0].metadata.as_ref().unwrap();
    assert_eq!((m.publishing_date, m.last_edit_date), (None, Some(1000)));
}

#[test]
fn load_multiple_authors_from_git_metadata() {
    let bundle = vec![
        page(&["file_1"], None),
        page(&["d1", "f1"], None),
        page(&["d1", "f2"], None),
        page(&["d1", "f3"], None),
        page(&["d1", "d11", "f11"], None),
    ];
    let stage = GitMetadata { name: "git".to_string(), repo_path: "repo".to_string() };
    let (kept, mut blame) = stage.start(&bundle);
    assert!(kept.is_empty());
    let history = [
        commit("user_3", 3000, &["file_1"]),
        commit("user_2", 2000, &["d1/f1", "d1/f2", "d1/f3", "d1/d11/f11"]),
        commit("user_1", 1000, &["file_1"]),
    ];
    walk(&mut blame, &history);
    assert!(blame.is_done());
    let out = sorted_by_path(blame.finish());
    let expected = [
        ("d1/d11/f11", "user_2", 2000),
        ("d1/f1", "user_2", 2000),
        ("d1/f2", "user_2", 2000),
        ("d1/f3", "user_2", 2000),
        ("file_1", "user_3", 3000),
    ];
    assert_eq!(out.len(), expected.len());
    for (p, (path, user, time)) in out.iter().zip(expected.iter()) {
        assert_eq!(p.path.join("/"), *path);
        assert_eq!(authors_of(p), vec![(user.to_string(), vec![format!("{}@pages.io", user)])]);
        assert_eq!(p.metadata.as_ref().unwrap().last_edit_date, Some(*time));
    }
}

#[test]
fn ignore_uncommitted_files() {
    let bundle = vec![
        page(&["file_1"], None),
        page(&["d1", "f1"], None),
        page(&["d1", "f2"], None),
        page(&["d1", "f3"], None),
        page(&["d1", "d11", "f11"], None),
        page(&["file_xyz"], None),
    ];
    let stage = GitMetadata { name: "git".to_string(), repo_path: "repo".to_string() };
    let (_, mut blame) = stage.start(&bundle);
    let history = [commit("user_2", 2000, &["d1/f1", "d1/f2", "d1/f3", "d1/d11/f11"]), commit("user_1", 1000, &["file_1"])];
    walk(&mut blame, &history);
    assert!(!blame.is_done());
    let out = blame.finish();
    assert_eq!(out.len(), 6);
    // The page no commit changed comes last, as it was.
    assert_eq!(out[5].path, strings(&["file_xyz"]));
    assert!(out[5].metadata.is_none());
    let out = sorted_by_path(out);
    let expected = [
        ("d1/d11/f11", "user_2", 2000),
        ("d1/f1", "user_2", 2000),
        ("d1/f2", "user_2", 2000),
        ("d1/f3", "user_2", 2000),
        ("file_1", "user_1", 1000),
    ];
    for (p, (path, user, time)) in out.iter().zip(expected.iter()) {
        assert_eq!(p.path.join("/"), *path);
        assert_eq!(authors_of(p)[0].0, *user);
        assert_eq!(p.metadata.as_ref().unwrap().last_edit_date, Some(*time));
    }
}

#[test]
fn ignore_loading_authors_when_file_has_already_ones() {
    let mut f1 = Metadata::empty();
    f1.authors = vec![Author { name: "a1".to_string(), contacts: vec![] }];
    f1.tags = strings(&["t1", "t2"]);
    let mut f2 = Metadata::empty();
    f2.title = Some("f2 title".to_string());
    f2.summary = Some("f2 summary".to_string());
    f2.tags = strings(&["t1", "t2", "t3"]);
    let bundle = vec![page(&["d1", "f1"], Some(f1)), page(&["d1", "f2"], Some(f2)), page(&["d1", "f3"], None)];
    let stage = GitMetadata { name: "git".to_string(), repo_path: "repo".to_string() };
    let (kept, mut blame) = stage.start(&bundle);
    assert!(kept.is_empty());
    walk(&mut blame, &[commit("user_1", 1000, &["d1/f1", "d1/f2", "d1/f3"])]);
    let out = sorted_by_path(blame.finish());
    assert_eq!(out.len(), 3);
    assert_eq!(authors_of(&out[0]), vec![("a1".to_string(), vec![])]);
    assert_eq!(out[0].metadata.as_ref().unwrap().tags, strings(&["t1", "t2"]));
    assert_eq!(out[0].metadata.as_ref().unwrap().last_edit_date, Some(1000));
    assert_eq!(authors_of(&out[1]), vec![("user_1".to_string(), strings(&["user_1@pages.io"]))]);
    assert_eq!(out[1].metadata.as_ref().unwrap().title.as_deref(), Some("f2 title"));
    assert_eq!(out[1].metadata.as_ref().unwrap().summary.as_deref(), Some("f2 summary"));
    assert_eq!(out[1].metadata.as_ref().unwrap().last_edit_date, Some(1000));
    assert_eq!(authors_of(&out[2]), vec![("user_1".to_string(), strings(&["user_1@pages.io"]))]);
    assert_eq!(out[2].metadata.as_ref().unwrap().last_edit_date, Some(1000));
}

#[test]
fn ignore_loading_last_edit_date_when_file_has_already_ones() {
    let mut f1 = Metadata::empty();
    f1.last_edit_date = Some(1634778000);
    let mut f2 = Metadata::empty();
    f2.title = Some("f2 title".to_string());
    let mut complete = Metadata::empty();
    complete.authors = vec![Author { name: "a3".to_string(), contacts: vec![] }];
    complete.last_edit_date = Some(7);
    let bundle = vec![
        page(&["d1", "f1"], Some(f1)),
        page(&["d1", "f2"], Some(f2)),
        page(&["d1", "f3"], None),
        page(&["d1", "f4"], Some(complete)),
        page(&[], None),
    ];
    let stage = GitMetadata { name: "git".to_string(), repo_path: "repo".to_string() };
    let (kept, mut blame) = stage.start(&bundle);
    // The page with authors and a date needs no history; the page without
    // path is dropped.
    assert_eq!(kept.len(), 1);
    assert_eq!(kept[0].path, strings(&["d1", "f4"]));
    walk(&mut blame, &[commit("user_1", 1000, &["d1/f1", "d1/f2", "d1/f3", "d1/f4"])]);
    let out = sorted_by_path(blame.finish());
    assert_eq!(out.len(), 3);
    let expected = [("d1/f1", 1634778000), ("d1/f2", 1000), ("d1/f3", 1000)];
    for (p, (path, time)) in out.iter().zip(expected.iter()) {
        assert_eq!(p.path.join("/"), *path);
        assert_eq!(authors_of(p), vec![("user_1".to_string(), strings(&["user_1@pages.io"]))]);
        assert_eq!(p.metadata.as_ref().unwrap().last_edit_date, Some(*time));
    }
    assert_eq!(out[1].metadata.as_ref().unwrap().title.as_deref(), Some("f2 title"));
}

#[test]
fn the_authors_rule_sets_authors_and_clears_dates() {
    let mut dated = Metadata::empty();
    dated.publishing_date = Some(5);
    dated.last_edit_date = Some(6);
    let mut authored = Metadata::empty();
    authored.authors = vec![Author { name: "a1".to_string(), contacts: vec![] }];
    let bundle = vec![page(&["f1"], Some(dated)), page(&["f2"], Some(authored))];
    let (kept, mut blame) = GitAuthors { repo_path: "repo".to_string() }.start(&bundle);
    assert_eq!(kept.len(), 1);
    assert_eq!(kept[0].path, strings(&["f2"]));
    let anonymous = CommitInfo { author_name: None, author_email: None, time: 9, files: strings(&["f1"]) };
    walk(&mut blame, &[anonymous]);
    let out = blame.finish();
    assert_eq!(out.len(), 1);
    assert_eq!(authors_of(&out[0]), vec![(String::new(), vec![])]);
    let m = out[0].metadata.as_ref().unwrap();
    assert_eq!((m.publishing_date, m.last_edit_date), (None, None));
}

#[test]
fn a_later_page_at_the_same_path_replaces_an_earlier_one() {
    let bundle = vec![page(&["a", "b"], None), page(&["a", "b"], Some(Metadata::empty()))];
    let (_, mut blame) = GitBlame::start(BlameRule::Metadata, &bundle);
    assert_eq!(blame.pending.len(), 1);
    assert!(blame.pending[0].1.metadata.is_some());
    blame.apply_commit(&commit("u", 1, &["a/b"]));
    assert!(blame.is_done());
}
