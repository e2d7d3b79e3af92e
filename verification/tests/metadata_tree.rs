use pages::metadata_tree::{MetadataNode, MetadataTree};
use pages::pages::Metadata;

fn new_metadata(title: &str) -> Metadata {
    let mut m = Metadata::empty();
    m.title = Some(title.to_string());
    m
}

fn path(segments: &[&str]) -> Vec<String> {
    segments.iter().map(|s| s.to_string()).collect()
}

/// The tree as sorted lines `path = title` (`-` for a node without metadata).
fn describe(tree: &MetadataTree) -> Vec<String> {
    fn walk(prefix: &str, sub: &[(String, MetadataTree)], out: &mut Vec<String>) {
        for (name, child) in sub {
            let p = if prefix.is_empty() { name.clone() } else { format!("{}/{}", prefix, name) };
            match child {
                MetadataTree::Node { metadata, sub } => {
                    let t = metadata.as_ref().and_then(|m| m.title.clone()).unwrap_or_else(|| "-".to_string());
                    out.push(format!("{} = {}", p, t));
                    walk(&p, sub, out);
                },
                MetadataTree::Root { .. } => panic!("root below the root"),
            }
        }
    }
    let mut out = vec![];
    match tree {
        MetadataTree::Root { sub } => walk("", sub, &mut out),
        MetadataTree::Node { .. } => panic!("not a root"),
    }
    out.sort();
    out
}

fn nodes(result: &[MetadataNode]) -> Vec<(String, Option<String>)> {
    result.iter().map(|n| (n.path.clone(), n.metadata.as_ref().and_then(|m| m.title.clone()))).collect()
}

fn node(name: &str, title: Option<&str>) -> (String, Option<String>) {
    (name.to_string(), title.map(|t| t.to_string()))
}

fn six_titles_tree() -> MetadataTree {
    let mut tree = MetadataTree::new_root();
    tree.push(&path(&["a.txt"]), new_metadata("title 1")).unwrap();
    tree.push(&path(&["a", "b.txt"]), new_metadata("title 2")).unwrap();
    tree.push(&path(&["a", "b"]), new_metadata("title 3")).unwrap();
    tree.push(&path(&["a", "b", "c"]), new_metadata("title 4")).unwrap();
    tree.push(&path(&["a", "b", "d"]), new_metadata("title 5")).unwrap();
    tree.push(&path(&["a", "b", "e", "f"]), new_metadata("title 6")).unwrap();
    tree
}

#[test]
fn metadata_tree_prevent_empty_path_push() {
    let mut tree = MetadataTree::Root { sub: Default::default() };
    let r = tree.push(&vec![], new_metadata("title"));
    assert!(matches!(r, Err(b) if b.message() == "path cannot be empty on root node"));
}

#[test]
fn metadata_tree_push_single_metadata_path() {
    let mut tree = MetadataTree::Root { sub: Default::default() };
    tree.push(&path(&["a.txt"]), new_metadata("title")).unwrap();
    assert_eq!(describe(&tree), vec!["a.txt = title".to_string()]);
}

#[test]
fn metadata_tree_push_multiple_first_level_metadata_path() {
    let mut tree = MetadataTree::Root { sub: Default::default() };
    tree.push(&path(&["a.txt"]), new_metadata("title 1")).unwrap();
    tree.push(&path(&["b.txt"]), new_metadata("title 2")).unwrap();
    tree.push(&path(&["c"]), new_metadata("title 3")).unwrap();
    assert_eq!(describe(&tree), vec!["a.txt = title 1", "b.txt = title 2", "c = title 3"]);
}

#[test]
fn metadata_tree_push_multiple_multi_level_metadata_path() {
    let tree = six_titles_tree();
    assert_eq!(
        describe(&tree),
        vec![
            "a = -",
            "a.txt = title 1",
            "a/b = title 3",
            "a/b.txt = title 2",
            "a/b/c = title 4",
            "a/b/d = title 5",
            "a/b/e = -",
            "a/b/e/f = title 6",
        ]
    );
}

#[test]
fn metadata_tree_retrieve_metadata_by_path() {
    let tree = six_titles_tree();
    assert_eq!(nodes(&tree.get_metadata_from_path(&path(&["a.txt"]))), vec![node("a.txt", Some("title 1"))]);
    assert_eq!(
        nodes(&tree.get_metadata_from_path(&path(&["a", "b.txt"]))),
        vec![node("a", None), node("b.txt", Some("title 2"))]
    );
    assert_eq!(
        nodes(&tree.get_metadata_from_path(&path(&["a", "b"]))),
        vec![node("a", None), node("b", Some("title 3"))]
    );
    assert_eq!(
        nodes(&tree.get_metadata_from_path(&path(&["a", "b", "c"]))),
        vec![node("a", None), node("b", Some("title 3")), node("c", Some("title 4"))]
    );
    assert_eq!(
        nodes(&tree.get_metadata_from_path(&path(&["a", "b", "d"]))),
        vec![node("a", None), node("b", Some("title 3")), node("d", Some("title 5"))]
    );
    assert_eq!(
        nodes(&tree.get_metadata_from_path(&path(&["a", "b", "e", "f"]))),
        vec![node("a", None), node("b", Some("title 3")), node("e", None), node("f", Some("title 6"))]
    );
}

#[test]
fn pushing_again_at_a_path_replaces_its_metadata() {
    let mut tree = MetadataTree::new_root();
    tree.push(&path(&["x", "y"]), new_metadata("first")).unwrap();
    tree.push(&path(&["x", "y"]), new_metadata("second")).unwrap();
    assert_eq!(describe(&tree), vec!["x = -", "x/y = second"]);
}

#[test]
fn retrieving_an_unknown_path_stops_where_the_tree_ends() {
    let tree = six_titles_tree();
    assert_eq!(nodes(&tree.get_metadata_from_path(&path(&["a", "zz", "q"]))), vec![node("a", None)]);
    assert!(tree.get_metadata_from_path(&path(&["nothing"])).is_empty());
}
