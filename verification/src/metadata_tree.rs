//! A tree of metadata indexed by path segments: the metadata of the pages of
//! a directory, of the directory itself, and of the directories it contains.
use vstd::prelude::*;
use crate::errors::PagesError;
use crate::pages::{Metadata, MetadataView, copy_opt_metadata};
use crate::strings::{copy_string, is_prefix_of, lemma_push_deep_view};

verus! {

/// A node of a metadata tree: the root, which has no metadata of its own, or
/// a named node with optional metadata. Children are kept with their names.
#[derive(Debug)]
pub enum MetadataTree {
    Root { sub: Vec<(String, MetadataTree)> },
    Node { metadata: Option<Metadata>, sub: Vec<(String, MetadataTree)> },
}

/// A node met on the way down a path: its name and its metadata.
#[derive(Debug)]
pub struct MetadataNode {
    pub path: String,
    pub metadata: Option<Metadata>,
}

impl DeepView for MetadataNode {
    type V = (Seq<char>, Option<MetadataView>);

    open spec fn deep_view(&self) -> (Seq<char>, Option<MetadataView>) {
        (self.path@, self.metadata.deep_view())
    }
}

/// The children of a node.
pub open spec fn subs_of(t: MetadataTree) -> Seq<(String, MetadataTree)> {
    match t {
        MetadataTree::Root { sub } => sub@,
        MetadataTree::Node { sub, .. } => sub@,
    }
}

/// The metadata of a node (none for the root).
pub open spec fn metadata_of(t: MetadataTree) -> Option<MetadataView> {
    match t {
        MetadataTree::Root { .. } => None,
        MetadataTree::Node { metadata, .. } => metadata.deep_view(),
    }
}

/// The position of the first child with a given name.
pub open spec fn child_index(sub: Seq<(String, MetadataTree)>, key: Seq<char>) -> Option<int>
    decreases sub.len(),
{
    if sub.len() == 0 {
        None
    } else if sub[0].0@ == key {
        Some(0)
    } else {
        match child_index(sub.drop_first(), key) {
            Some(j) => Some(j + 1),
            None => None,
        }
    }
}

/// The first child with a given name.
pub open spec fn child_of(sub: Seq<(String, MetadataTree)>, key: Seq<char>) -> Option<MetadataTree> {
    match child_index(sub, key) {
        Some(i) => Some(sub[i].1),
        None => None,
    }
}

/// The metadata of the node reached from `t` along `path`: `None` where no
/// node is there, `Some(None)` for a node without metadata.
pub open spec fn lookup(t: MetadataTree, path: Seq<Seq<char>>) -> Option<Option<MetadataView>>
    decreases path.len(),
{
    if path.len() == 0 {
        Some(metadata_of(t))
    } else {
        match child_of(subs_of(t), path[0]) {
            Some(c) => lookup(c, path.drop_first()),
            None => None,
        }
    }
}

/// The nodes met after `t` on the way down `path`, with their names, until
/// the path ends or leaves the tree.
pub open spec fn walk(t: MetadataTree, path: Seq<Seq<char>>) -> Seq<(Seq<char>, Option<MetadataView>)>
    decreases path.len(),
{
    if path.len() == 0 {
        Seq::empty()
    } else {
        match child_of(subs_of(t), path[0]) {
            Some(c) => seq![(path[0], metadata_of(c))] + walk(c, path.drop_first()),
            None => Seq::empty(),
        }
    }
}

/// The nodes that a lookup of `path` meets: for a node, the node itself
/// (with an empty name) first.
pub open spec fn nodes_on_path(t: MetadataTree, path: Seq<Seq<char>>) -> Seq<(Seq<char>, Option<MetadataView>)> {
    match t {
        MetadataTree::Root { .. } => walk(t, path),
        MetadataTree::Node { .. } => seq![(Seq::<char>::empty(), metadata_of(t))] + walk(t, path),
    }
}

/// Whether every node below `t` is a named node (the root only stands at the top).
pub open spec fn wf(t: MetadataTree) -> bool
    decreases t,
{
    match t {
        MetadataTree::Root { sub } => forall|j: int| 0 <= j < sub@.len() ==> #[trigger] sub@[j].1 is Node && wf(sub@[j].1),
        MetadataTree::Node { sub, .. } => forall|j: int| 0 <= j < sub@.len() ==> #[trigger] sub@[j].1 is Node && wf(sub@[j].1),
    }
}

/// Whether every tree of a list of children is a well-formed named node.
pub open spec fn wf_subs(sub: Seq<(String, MetadataTree)>) -> bool {
    forall|j: int| 0 <= j < sub.len() ==> #[trigger] sub[j].1 is Node && wf(sub[j].1)
}

/// The metadata of the node reached along a non-empty `path` from a node
/// whose children are `sub`.
pub open spec fn lookup_in(sub: Seq<(String, MetadataTree)>, path: Seq<Seq<char>>) -> Option<Option<MetadataView>> {
    match child_of(sub, path[0]) {
        Some(c) => lookup(c, path.drop_first()),
        None => None,
    }
}

/// What a lookup finds after metadata `m` was pushed at `p` into children
/// `before`, giving children `after`: `m` at `p`; a node, with metadata
/// unchanged or none if it is new, at each non-empty strict prefix of `p`;
/// and elsewhere what was there before.
pub open spec fn pushed_in(
    before: Seq<(String, MetadataTree)>,
    after: Seq<(String, MetadataTree)>,
    p: Seq<Seq<char>>,
    m: MetadataView,
) -> bool {
    &&& lookup_in(after, p) == Some(Some(m))
    &&& forall|q: Seq<Seq<char>>|
        q.len() > 0 && !is_prefix_of(q, p) ==> #[trigger] lookup_in(after, q) == lookup_in(before, q)
    &&& forall|q: Seq<Seq<char>>|
        q.len() > 0 && is_prefix_of(q, p) && q.len() < p.len() ==> #[trigger] lookup_in(after, q)
            == Some(
            match lookup_in(before, q) {
                Some(x) => x,
                None => None,
            },
        )
}

/// What a lookup finds after metadata `m` was pushed at `p` into the tree
/// `before`, giving the tree `after`: `m` at `p`; a node, with metadata
/// unchanged or none if it is new, at each strict prefix of `p`; and
/// elsewhere what was there before. The root stays the root.
pub open spec fn pushed(before: MetadataTree, after: MetadataTree, p: Seq<Seq<char>>, m: MetadataView) -> bool {
    &&& (before is Root) == (after is Root)
    &&& lookup(after, p) == Some(Some(m))
    &&& forall|q: Seq<Seq<char>>| !is_prefix_of(q, p) ==> #[trigger] lookup(after, q) == lookup(before, q)
    &&& forall|q: Seq<Seq<char>>|
        is_prefix_of(q, p) && q.len() < p.len() ==> #[trigger] lookup(after, q) == Some(
            match lookup(before, q) {
                Some(x) => x,
                None => None,
            },
        )
}

/// Facts about the position of a child.
pub proof fn lemma_child_index(sub: Seq<(String, MetadataTree)>, key: Seq<char>)
    ensures
        child_index(sub, key) matches Some(i) ==> 0 <= i < sub.len() && sub[i].0@ == key
            && forall|j: int| 0 <= j < i ==> sub[j].0@ != key,
        child_index(sub, key) is None ==> forall|j: int| 0 <= j < sub.len() ==> sub[j].0@ != key,
    decreases sub.len(),
{
    if sub.len() > 0 {
        lemma_child_index(sub.drop_first(), key);
        if sub[0].0@ != key {
            assert forall|j: int| 1 <= j < sub.len() implies sub[j] == sub.drop_first()[j - 1] by {}
        }
    }
}

/// Child positions depend only on the names of the children.
pub proof fn lemma_child_index_same_keys(a: Seq<(String, MetadataTree)>, b: Seq<(String, MetadataTree)>, key: Seq<char>)
    requires
        a.len() == b.len(),
        forall|j: int| 0 <= j < a.len() ==> a[j].0@ == b[j].0@,
    ensures
        child_index(a, key) == child_index(b, key),
    decreases a.len(),
{
    if a.len() > 0 {
        lemma_child_index_same_keys(a.drop_first(), b.drop_first(), key);
    }
}

/// Adding a child under a new name keeps the other positions and puts the
/// new name last.
pub proof fn lemma_child_index_push(a: Seq<(String, MetadataTree)>, e: (String, MetadataTree), key: Seq<char>)
    requires
        child_index(a, e.0@) is None,
    ensures
        child_index(a.push(e), key) == if key == e.0@ { Some(a.len() as int) } else { child_index(a, key) },
    decreases a.len(),
{
    assert(a.push(e)[0] == if a.len() > 0 { a[0] } else { e });
    if a.len() > 0 {
        assert(a.push(e).drop_first() =~= a.drop_first().push(e));
        assert(a[0].0@ != e.0@);
        lemma_child_index_push(a.drop_first(), e, key);
        let ap = a.push(e);
        if a[0].0@ == key {
            assert(child_index(ap, key) == Some(0int));
            assert(child_index(a, key) == Some(0int));
        } else {
            assert(child_index(ap, key) == match child_index(ap.drop_first(), key) {
                Some(j) => Some(j + 1),
                None => None,
            });
        }
    } else {
        assert(a.push(e).drop_first() =~= Seq::<(String, MetadataTree)>::empty());
        assert(child_index(Seq::<(String, MetadataTree)>::empty(), key) is None);
        assert(child_index(a, key) is None);
    }
}

/// Returns the position of the first child with a given name.
fn find_child(sub: &Vec<(String, MetadataTree)>, key: &String) -> (r: Option<usize>)
    ensures
        r.is_some() == child_index(sub@, key@).is_some(),
        r.is_some() ==> r.unwrap() as int == child_index(sub@, key@).unwrap(),
{
    let mut i: usize = 0;
    proof {
        assert(sub@.skip(0) =~= sub@);
    }
    while i < sub.len()
        invariant
            i <= sub.len(),
            forall|j: int| 0 <= j < i ==> sub@[j].0@ != key@,
        decreases sub.len() - i,
    {
        if sub[i].0 == *key {
            proof {
                lemma_child_index(sub@, key@);
                if child_index(sub@, key@) is None {
                    assert(sub@[i as int].0@ == key@);
                }
            }
            return Some(i);
        }
        i = i + 1;
    }
    proof {
        lemma_child_index(sub@, key@);
    }
    None
}

/// Pushes metadata `m` at `path[i..]` (not empty) into the children `sub`.
fn push_into(sub: &mut Vec<(String, MetadataTree)>, path: &Vec<String>, i: usize, m: Metadata)
    requires
        i < path.len(),
        wf_subs(old(sub)@),
    ensures
        pushed_in(old(sub)@, final(sub)@, path.deep_view().skip(i as int), m.deep_view()),
        wf_subs(final(sub)@),
    decreases path.len() - i, 0int,
{
    let ghost p = path.deep_view().skip(i as int);
    let ghost mv = m.deep_view();
    let ghost old_sub = sub@;
    proof {
        assert(p[0] == path.deep_view()[i as int]);
        assert(p.drop_first() =~= path.deep_view().skip(i + 1));
        lemma_child_index(sub@, p[0]);
    }
    match find_child(sub, &path[i]) {
        None => {
            let mut node = MetadataTree::Node { metadata: None, sub: Vec::new() };
            let ghost n0 = node;
            node.push_from(path, i + 1, m);
            let ghost n1 = node;
            let e = (copy_string(&path[i]), node);
            sub.push(e);
            proof {
                assert(subs_of(n0).len() == 0);
                assert(wf_subs(sub@));
                assert forall|key: Seq<char>| #[trigger] child_index(sub@, key) == if key == e.0@ {
                    Some(old_sub.len() as int)
                } else {
                    child_index(old_sub, key)
                } by {
                    lemma_child_index_push(old_sub, e, key);
                }
                assert(sub@[old_sub.len() as int] == e);
                assert(e.0@ == p[0]);
                assert(lookup_in(sub@, p) == lookup(n1, p.drop_first()));
                if p.drop_first().len() == 0 {
                    assert(p.drop_first() =~= Seq::<Seq<char>>::empty());
                    assert(is_prefix_of(Seq::<Seq<char>>::empty(), p.drop_first()));
                }
                assert forall|q: Seq<Seq<char>>| q.len() > 0 && !is_prefix_of(q, p) implies #[trigger] lookup_in(sub@, q) == lookup_in(old_sub, q) by {
                    if q[0] == p[0] {
                        let q1 = q.drop_first();
                        let p1 = p.drop_first();
                        if is_prefix_of(q1, p1) {
                            assert(q =~= seq![p[0]] + q1);
                            assert(p.take(q.len() as int) =~= seq![p[0]] + p1.take(q1.len() as int));
                        }
                        assert(!is_prefix_of(q1, p1));
                        assert(lookup(n1, q1) == lookup(n0, q1));
                        if q1.len() == 0 {
                            assert(p1.take(0) =~= q1);
                            assert(is_prefix_of(q1, p1));
                        }
                        assert(child_of(subs_of(n0), q1[0]) is None);
                    } else {
                        assert(child_index(sub@, q[0]) == child_index(old_sub, q[0]));
                        lemma_child_index(old_sub, q[0]);
                        if let Some(j) = child_index(old_sub, q[0]) {
                            assert(sub@[j] == old_sub[j]);
                        }
                    }
                }
                assert forall|q: Seq<Seq<char>>| q.len() > 0 && is_prefix_of(q, p) && q.len() < p.len() implies #[trigger] lookup_in(sub@, q) == Some(
                    match lookup_in(old_sub, q) {
                        Some(x) => x,
                        None => None,
                    },
                ) by {
                    assert(p.take(q.len() as int) == q);
                    assert(q[0] == p.take(q.len() as int)[0]);
                    let q1 = q.drop_first();
                    let p1 = p.drop_first();
                    assert(p1.take(q1.len() as int) =~= p.take(q.len() as int).drop_first());
                    assert(q1 == p.take(q.len() as int).drop_first());
                    assert(is_prefix_of(q1, p1));
                    assert(lookup(n1, q1) == Some(
                        match lookup(n0, q1) {
                            Some(x) => x,
                            None => None,
                        },
                    ));
                    if q1.len() > 0 {
                        assert(child_of(subs_of(n0), q1[0]) is None);
                    }
                }
            }
        },
        Some(k) => {
            proof {
                lemma_child_index(old_sub, p[0]);
                assert(old_sub[k as int].1 is Node && wf(old_sub[k as int].1));
            }
            let (name, child) = sub.remove(k);
            let ghost c0 = child;
            let mut child = child;
            child.push_from(path, i + 1, m);
            let ghost c1 = child;
            let ghost mid = sub@;
            sub.insert(k, (name, child));
            proof {
                assert(sub@ =~= old_sub.update(k as int, (name, c1)));
                assert(wf_subs(sub@));
                assert(old_sub[k as int] == (name, c0));
                assert forall|key: Seq<char>| #[trigger] child_index(sub@, key) == child_index(old_sub, key) by {
                    lemma_child_index_same_keys(sub@, old_sub, key);
                }
                assert forall|q: Seq<Seq<char>>| q.len() > 0 && q[0] != p[0] implies #[trigger] lookup_in(sub@, q) == lookup_in(old_sub, q) by {
                    lemma_child_index(old_sub, q[0]);
                    if let Some(j) = child_index(old_sub, q[0]) {
                        assert(j != k);
                    }
                }
                assert(lookup_in(sub@, p) == lookup(c1, p.drop_first()));
                assert forall|q: Seq<Seq<char>>| q.len() > 0 && !is_prefix_of(q, p) implies #[trigger] lookup_in(sub@, q) == lookup_in(old_sub, q) by {
                    if q[0] == p[0] {
                        let q1 = q.drop_first();
                        let p1 = p.drop_first();
                        if is_prefix_of(q1, p1) {
                            assert(q =~= seq![p[0]] + q1);
                            assert(p.take(q.len() as int) =~= seq![p[0]] + p1.take(q1.len() as int));
                        }
                        assert(!is_prefix_of(q1, p1));
                        assert(lookup(c1, q1) == lookup(c0, q1));
                    }
                }
                assert forall|q: Seq<Seq<char>>| q.len() > 0 && is_prefix_of(q, p) && q.len() < p.len() implies #[trigger] lookup_in(sub@, q) == Some(
                    match lookup_in(old_sub, q) {
                        Some(x) => x,
                        None => None,
                    },
                ) by {
                    assert(p.take(q.len() as int) == q);
                    assert(q[0] == p.take(q.len() as int)[0]);
                    let q1 = q.drop_first();
                    let p1 = p.drop_first();
                    assert(p1.take(q1.len() as int) =~= p.take(q.len() as int).drop_first());
                    assert(q1 == p.take(q.len() as int).drop_first());
                    assert(is_prefix_of(q1, p1));
                    assert(lookup(c1, q1) == Some(
                        match lookup(c0, q1) {
                            Some(x) => x,
                            None => None,
                        },
                    ));
                }
            }
        },
    }
}

/// What a lookup of `q` finds in a tree built by pushing the entries `es`,
/// in order, into an empty root.
pub open spec fn lookup_after(es: Seq<(Seq<Seq<char>>, MetadataView)>, q: Seq<Seq<char>>) -> Option<Option<MetadataView>>
    decreases es.len(),
{
    if es.len() == 0 {
        if q.len() == 0 {
            Some(None)
        } else {
            None
        }
    } else {
        let p = es.last().0;
        let prev = lookup_after(es.drop_last(), q);
        if q == p {
            Some(Some(es.last().1))
        } else if is_prefix_of(q, p) && q.len() < p.len() {
            Some(
                match prev {
                    Some(x) => x,
                    None => None,
                },
            )
        } else {
            prev
        }
    }
}

/// The nodes that a lookup of `path[j..]` meets below the node at
/// `path[..j]`, in a tree built by pushing the entries `es` into an empty root.
pub open spec fn nodes_after(es: Seq<(Seq<Seq<char>>, MetadataView)>, path: Seq<Seq<char>>, j: int) -> Seq<(Seq<char>, Option<MetadataView>)>
    decreases path.len() - j,
{
    if j < 0 || j >= path.len() {
        Seq::empty()
    } else {
        match lookup_after(es, path.take(j + 1)) {
            Some(x) => seq![(path[j], x)] + nodes_after(es, path, j + 1),
            None => Seq::empty(),
        }
    }
}

/// A tree that answers lookups as pushing `es` into an empty root does
/// answers them after a push of `(p, m)` as pushing `es` then `(p, m)` does.
pub proof fn lemma_lookup_after_push(
    t1: MetadataTree,
    t2: MetadataTree,
    es: Seq<(Seq<Seq<char>>, MetadataView)>,
    p: Seq<Seq<char>>,
    m: MetadataView,
)
    requires
        forall|q: Seq<Seq<char>>| #[trigger] lookup(t1, q) == lookup_after(es, q),
        pushed(t1, t2, p, m),
    ensures
        forall|q: Seq<Seq<char>>| #[trigger] lookup(t2, q) == lookup_after(es.push((p, m)), q),
{
    assert forall|q: Seq<Seq<char>>| #[trigger] lookup(t2, q) == lookup_after(es.push((p, m)), q) by {
        assert(es.push((p, m)).drop_last() =~= es);
        assert(es.push((p, m)).last() == (p, m));
        if q == p {
        } else if is_prefix_of(q, p) && q.len() < p.len() {
            assert(lookup(t1, q) == lookup_after(es, q));
        } else {
            if is_prefix_of(q, p) {
                assert(q.len() == p.len());
                assert(p.take(q.len() as int) =~= p);
            }
            assert(lookup(t1, q) == lookup_after(es, q));
        }
    }
}

/// A lookup of `[x] + r` goes through the child named `x`.
pub proof fn lemma_lookup_child(t: MetadataTree, x: Seq<char>, r: Seq<Seq<char>>)
    ensures
        lookup(t, seq![x] + r) == match child_of(subs_of(t), x) {
            Some(c) => lookup(c, r),
            None => None,
        },
{
    assert((seq![x] + r)[0] == x);
    assert((seq![x] + r).drop_first() =~= r);
}

/// The walk down a path depends only on what lookups find.
pub proof fn lemma_walk_by_lookup(
    c: MetadataTree,
    path: Seq<Seq<char>>,
    j: int,
    es: Seq<(Seq<Seq<char>>, MetadataView)>,
)
    requires
        0 <= j <= path.len(),
        forall|r: Seq<Seq<char>>| #[trigger] lookup(c, r) == lookup_after(es, path.take(j) + r),
    ensures
        walk(c, path.skip(j)) == nodes_after(es, path, j),
    decreases path.len() - j,
{
    let p = path.skip(j);
    if j < path.len() {
        assert(p[0] == path[j]);
        assert(p.drop_first() =~= path.skip(j + 1));
        assert(path.take(j) + seq![path[j]] =~= path.take(j + 1));
        lemma_lookup_child(c, path[j], Seq::empty());
        assert(seq![path[j]] + Seq::<Seq<char>>::empty() =~= seq![path[j]]);
        assert(lookup(c, seq![path[j]]) == lookup_after(es, path.take(j) + seq![path[j]]));
        match child_of(subs_of(c), path[j]) {
            Some(cc) => {
                assert forall|r: Seq<Seq<char>>| #[trigger] lookup(cc, r) == lookup_after(es, path.take(j + 1) + r) by {
                    lemma_lookup_child(c, path[j], r);
                    assert(path.take(j) + (seq![path[j]] + r) =~= path.take(j + 1) + r);
                    assert(lookup(c, seq![path[j]] + r) == lookup_after(es, path.take(j) + (seq![path[j]] + r)));
                }
                lemma_walk_by_lookup(cc, path, j + 1, es);
            },
            None => {},
        }
    } else {
        assert(p.len() == 0);
    }
}

/// A root without children answers lookups as the empty list of entries does.
pub proof fn lemma_lookup_empty_root(t: MetadataTree)
    requires
        t is Root,
        subs_of(t).len() == 0,
    ensures
        forall|q: Seq<Seq<char>>| #[trigger] lookup(t, q) == lookup_after(Seq::empty(), q),
{
    assert forall|q: Seq<Seq<char>>| #[trigger] lookup(t, q) == lookup_after(Seq::empty(), q) by {
        if q.len() > 0 {
            assert(child_index(subs_of(t), q[0]) is None);
        }
    }
}

impl MetadataTree {
    /// Pushes metadata `m` at `path[i..]`; at the root that path is not empty.
    fn push_from(&mut self, path: &Vec<String>, i: usize, m: Metadata)
        requires
            i <= path.len(),
            !(*old(self) is Root && i == path.len()),
            wf(*old(self)),
        ensures
            pushed(*old(self), *final(self), path.deep_view().skip(i as int), m.deep_view()),
            wf(*final(self)),
        decreases path.len() - i, 1int,
    {
        let ghost p = path.deep_view().skip(i as int);
        let ghost t0 = *self;
        if i == path.len() {
            match self {
                MetadataTree::Root { .. } => {},
                MetadataTree::Node { metadata, .. } => {
                    *metadata = Some(m);
                },
            }
            proof {
                assert(p.len() == 0);
                assert forall|q: Seq<Seq<char>>| !is_prefix_of(q, p) implies #[trigger] lookup(*self, q) == lookup(t0, q) by {
                    if q.len() == 0 {
                        assert(p.take(0) =~= q);
                    }
                }
            }
            return;
        }
        match self {
            MetadataTree::Root { sub } => {
                push_into(sub, path, i, m);
            },
            MetadataTree::Node { sub, .. } => {
                push_into(sub, path, i, m);
            },
        }
        proof {
            let t1 = *self;
            assert(p.len() > 0);
            assert forall|q: Seq<Seq<char>>| !is_prefix_of(q, p) implies #[trigger] lookup(t1, q) == lookup(t0, q) by {
                if q.len() == 0 {
                    assert(p.take(0) =~= q);
                } else {
                    assert(lookup_in(subs_of(t1), q) == lookup_in(subs_of(t0), q));
                }
            }
            assert forall|q: Seq<Seq<char>>| is_prefix_of(q, p) && q.len() < p.len() implies #[trigger] lookup(t1, q) == Some(
                match lookup(t0, q) {
                    Some(x) => x,
                    None => None,
                },
            ) by {
                if q.len() > 0 {
                    assert(lookup_in(subs_of(t1), q) == Some(
                        match lookup_in(subs_of(t0), q) {
                            Some(x) => x,
                            None => None,
                        },
                    ));
                }
            }
        }
    }

    /// Pushes metadata at a path. At the root the path cannot be empty: that
    /// push fails and leaves the tree unchanged. At a node, an empty path sets
    /// the node's metadata.
    pub fn push(&mut self, path: &Vec<String>, m: Metadata) -> (r: Result<(), PagesError>)
        requires
            wf(*old(self)),
        ensures
            wf(*final(self)),
            r.is_err() == (*old(self) is Root && path.len() == 0),
            r.is_err() ==> *final(self) == *old(self) && r->Err_0 is MetadataTree
                && r->Err_0.message_view() == "path cannot be empty on root node"@,
            r.is_ok() ==> pushed(*old(self), *final(self), path.deep_view(), m.deep_view()),
    {
        let is_root = match self {
            MetadataTree::Root { .. } => true,
            MetadataTree::Node { .. } => false,
        };
        if is_root && path.len() == 0 {
            return Err(PagesError::MetadataTree(String::from_str("path cannot be empty on root node")));
        }
        proof {
            assert(path.deep_view().skip(0) =~= path.deep_view());
        }
        self.push_from(path, 0, m);
        Ok(())
    }

    /// An empty tree.
    pub fn new_root() -> (r: MetadataTree)
        ensures
            r is Root,
            wf(r),
            subs_of(r).len() == 0,
    {
        MetadataTree::Root { sub: Vec::new() }
    }

    /// Returns the nodes met on the way down `path`, with their names: for a
    /// node, the node itself (with an empty name) first.
    pub fn get_metadata_from_path(&self, path: &Vec<String>) -> (r: Vec<MetadataNode>)
        ensures
            r.deep_view() == nodes_on_path(*self, path.deep_view()),
    {
        let mut result: Vec<MetadataNode> = Vec::new();
        self._get_metadata_from_path(path, &mut result, String::new());
        result
    }

    /// Appends to `result` the nodes met on the way down `path`: for a node,
    /// the node itself, named `current_name`, first.
    pub fn _get_metadata_from_path(&self, path: &Vec<String>, result: &mut Vec<MetadataNode>, current_name: String)
        ensures
            final(result).deep_view() == old(result).deep_view() + match *self {
                MetadataTree::Root { .. } => walk(*self, path.deep_view()),
                MetadataTree::Node { .. } => seq![(current_name@, metadata_of(*self))] + walk(*self, path.deep_view()),
            },
    {
        let ghost start = result.deep_view();
        match self {
            MetadataTree::Root { .. } => {},
            MetadataTree::Node { metadata, .. } => {
                let ghost before = *result;
                let node = MetadataNode { path: current_name, metadata: copy_opt_metadata(metadata) };
                result.push(node);
                proof {
                    lemma_push_deep_view(before, *result, node);
                }
            },
        }
        let ghost mid = result.deep_view();
        proof {
            assert(path.deep_view().skip(0) =~= path.deep_view());
        }
        self.walk_from(path, 0, result);
        proof {
            assert(path.deep_view().skip(0) =~= path.deep_view());
            match *self {
                MetadataTree::Root { .. } => {},
                MetadataTree::Node { .. } => {
                    assert(result.deep_view() =~= start + (seq![(current_name@, metadata_of(*self))] + walk(*self, path.deep_view())));
                },
            }
        }
    }

    /// Appends to `result` the nodes met after this one on the way down `path[i..]`.
    fn walk_from(&self, path: &Vec<String>, i: usize, result: &mut Vec<MetadataNode>)
        requires
            i <= path.len(),
        ensures
            final(result).deep_view() == old(result).deep_view() + walk(*self, path.deep_view().skip(i as int)),
        decreases path.len() - i,
    {
        let ghost p = path.deep_view().skip(i as int);
        if i == path.len() {
            proof {
                assert(result.deep_view() =~= old(result).deep_view() + Seq::<(Seq<char>, Option<MetadataView>)>::empty());
            }
            return;
        }
        proof {
            assert(p[0] == path.deep_view()[i as int]);
            assert(p.drop_first() =~= path.deep_view().skip(i + 1));
        }
        let sub = match self {
            MetadataTree::Root { sub } => sub,
            MetadataTree::Node { sub, .. } => sub,
        };
        match find_child(sub, &path[i]) {
            Some(k) => {
                proof {
                    lemma_child_index(sub@, path.deep_view()[i as int]);
                }
                let child = &sub[k].1;
                let ghost before = *result;
                let node = MetadataNode { path: copy_string(&path[i]), metadata: match child {
                    MetadataTree::Root { .. } => None,
                    MetadataTree::Node { metadata, .. } => copy_opt_metadata(metadata),
                } };
                result.push(node);
                proof {
                    lemma_push_deep_view(before, *result, node);
                }
                let ghost mid = result.deep_view();
                child.walk_from(path, i + 1, result);
                proof {
                    assert(result.deep_view() =~= old(result).deep_view() + walk(*self, p));
                }
            },
            None => {
                proof {
                    assert(result.deep_view() =~= old(result).deep_view() + Seq::<(Seq<char>, Option<MetadataView>)>::empty());
                }
            },
        }
    }
}

} // verus!
