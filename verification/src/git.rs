//! Authors and edit dates from a git history. The repository walk stays
//! outside the library; the library decides which pages need the history,
//! what each commit gives them, and what comes out.
use vstd::prelude::*;
use crate::pages::{Author, AuthorView, Metadata, MetadataView, Page, PageView, empty_metadata_view};
use crate::strings::{copy_string, lemma_push_deep_view, push_str};
use crate::bundle::append_pages;

verus! {

/// What a commit of the history gives: its author, its time and the files
/// (paths relative to the repository root, `/`-separated) it changed.
#[derive(Debug)]
pub struct CommitInfo {
    pub author_name: Option<String>,
    pub author_email: Option<String>,
    pub time: i64,
    pub files: Vec<String>,
}

/// How a page is updated by the commit that last changed it.
#[derive(Debug, Clone, Copy, PartialEq, Eq, Structural)]
pub enum BlameRule {
    /// Sets the authors (where the page has none) and the last edit date
    /// (where the page has none); pages that have both are left as they are.
    Metadata,
    /// Sets the authors to the commit's author and clears the dates; pages
    /// that have authors are left as they are.
    Authors,
}

/// The author of a commit: its name (empty where unknown) and its email as
/// the only contact (none where unknown).
pub open spec fn commit_author(c: CommitInfo) -> AuthorView {
    AuthorView {
        name: match c.author_name {
            Some(n) => n@,
            None => Seq::empty(),
        },
        contacts: match c.author_email {
            Some(e) => seq![e@],
            None => Seq::empty(),
        },
    }
}

/// The metadata a page gets from the commit that last changed it.
pub open spec fn blamed_metadata(rule: BlameRule, md: Option<MetadataView>, c: CommitInfo) -> MetadataView {
    let m = match md {
        Some(m) => m,
        None => empty_metadata_view(),
    };
    match rule {
        BlameRule::Metadata => MetadataView {
            authors: if m.authors.len() > 0 { m.authors } else { seq![commit_author(c)] },
            last_edit_date: match m.last_edit_date {
                Some(d) => Some(d),
                None => Some(c.time),
            },
            ..m
        },
        BlameRule::Authors => MetadataView {
            authors: seq![commit_author(c)],
            publishing_date: None,
            last_edit_date: None,
            ..m
        },
    }
}

/// Whether a page already has what the rule would give it.
pub open spec fn needs_no_blame(rule: BlameRule, p: PageView) -> bool {
    match p.metadata {
        Some(m) => match rule {
            BlameRule::Metadata => m.authors.len() > 0 && m.last_edit_date is Some,
            BlameRule::Authors => m.authors.len() > 0,
        },
        None => false,
    }
}

/// The segments of a path joined with `/`.
pub open spec fn join_path(path: Seq<Seq<char>>) -> Seq<char>
    decreases path.len(),
{
    if path.len() == 0 {
        Seq::empty()
    } else if path.len() == 1 {
        path[0]
    } else {
        join_path(path.drop_last()) + seq!['/'] + path.last()
    }
}

/// The position of the entry with a given key.
pub open spec fn key_index(es: Seq<(Seq<char>, PageView)>, key: Seq<char>) -> Option<int>
    decreases es.len(),
{
    if es.len() == 0 {
        None
    } else if es.last().0 == key {
        Some(es.len() - 1)
    } else {
        key_index(es.drop_last(), key)
    }
}

/// Entries keyed by joined path, where a later page replaces an earlier one
/// with the same key.
pub open spec fn insert_entry(es: Seq<(Seq<char>, PageView)>, key: Seq<char>, p: PageView) -> Seq<(Seq<char>, PageView)> {
    match key_index(es, key) {
        Some(i) => es.update(i, (key, p)),
        None => es.push((key, p)),
    }
}

/// The pages of the first `n` pages of a bundle that the rule keeps as they
/// are, in order (pages with an empty path are dropped).
pub open spec fn kept_pages(rule: BlameRule, b: Seq<PageView>) -> Seq<PageView> {
    b.filter(|p: PageView| p.path.len() > 0 && needs_no_blame(rule, p))
}

/// The pages of the first `n` pages of a bundle that need the history, keyed
/// by joined path.
pub open spec fn blame_entries(rule: BlameRule, b: Seq<PageView>, n: int) -> Seq<(Seq<char>, PageView)>
    decreases n,
{
    if n <= 0 || n > b.len() {
        Seq::empty()
    } else {
        let prev = blame_entries(rule, b, n - 1);
        let p = b[n - 1];
        if p.path.len() > 0 && !needs_no_blame(rule, p) {
            insert_entry(prev, join_path(p.path), p)
        } else {
            prev
        }
    }
}

/// The state of a walk down the history: the pages still waiting for a
/// commit that changed them (keyed by joined path), and the pages already
/// updated, in the order they were.
pub struct BlameView {
    pub pending: Seq<(Seq<char>, PageView)>,
    pub done: Seq<PageView>,
}

/// The state after one changed file of a commit.
pub open spec fn blame_file(rule: BlameRule, s: BlameView, c: CommitInfo, f: Seq<char>) -> BlameView {
    match key_index(s.pending, f) {
        Some(i) => BlameView {
            pending: s.pending.remove(i),
            done: s.done.push(s.pending[i].1.with_metadata(blamed_metadata(rule, s.pending[i].1.metadata, c))),
        },
        None => s,
    }
}

/// The state after the first `n` changed files of a commit.
pub open spec fn blame_files(rule: BlameRule, s: BlameView, c: CommitInfo, files: Seq<Seq<char>>, n: int) -> BlameView
    decreases n,
{
    if n <= 0 || n > files.len() {
        s
    } else {
        blame_file(rule, blame_files(rule, s, c, files, n - 1), c, files[n - 1])
    }
}

/// The state after a commit.
pub open spec fn blame_commit(rule: BlameRule, s: BlameView, c: CommitInfo) -> BlameView {
    blame_files(rule, s, c, c.files.deep_view(), c.files.len() as int)
}

/// The output of a walk: the updated pages, then those still waiting.
pub open spec fn blame_output(s: BlameView) -> Seq<PageView> {
    s.done + s.pending.map_values(|e: (Seq<char>, PageView)| e.1)
}

/// Returns the segments of a path joined with `/`.
pub fn join_segments(path: &Vec<String>) -> (r: String)
    ensures
        r@ == join_path(path.deep_view()),
{
    let mut r = String::new();
    let mut i: usize = 0;
    proof {
        assert(path.deep_view().take(0) =~= Seq::<Seq<char>>::empty());
    }
    while i < path.len()
        invariant
            i <= path.len(),
            r@ == join_path(path.deep_view().take(i as int)),
        decreases path.len() - i,
    {
        proof {
            assert(path.deep_view().take(i + 1).drop_last() =~= path.deep_view().take(i as int));
            assert(path.deep_view().take(i + 1).last() == path.deep_view()[i as int]);
        }
        if i > 0 {
            push_str(&mut r, "/");
            proof {
                reveal_strlit("/");
            }
        }
        push_str(&mut r, path[i].as_str());
        proof {
            if i == 0 {
                assert(path.deep_view().take(1) =~= seq![path.deep_view()[0]]);
                assert(r@ =~= path.deep_view()[0]);
            } else {
                assert(r@ =~= join_path(path.deep_view().take(i as int)) + seq!['/'] + path.deep_view()[i as int]);
            }
        }
        i = i + 1;
    }
    proof {
        assert(path.deep_view().take(path.len() as int) =~= path.deep_view());
    }
    r
}

/// Returns the author of a commit.
fn make_commit_author(c: &CommitInfo) -> (r: Author)
    ensures
        r.deep_view() == commit_author(*c),
{
    let name = match &c.author_name {
        Some(n) => copy_string(n),
        None => String::new(),
    };
    let mut contacts: Vec<String> = Vec::new();
    match &c.author_email {
        Some(e) => {
            contacts.push(copy_string(e));
        },
        None => {},
    }
    let r = Author { name, contacts };
    proof {
        assert(r.deep_view().contacts =~= commit_author(*c).contacts);
        assert(r.deep_view().name =~= commit_author(*c).name);
    }
    r
}

/// Returns the metadata a page gets from the commit that last changed it.
pub fn make_blamed_metadata(rule: BlameRule, md: &Option<Metadata>, c: &CommitInfo) -> (r: Metadata)
    ensures
        r.deep_view() == blamed_metadata(rule, md.deep_view(), *c),
{
    let m = match md {
        Some(m) => m.duplicate(),
        None => Metadata::empty(),
    };
    let mut one: Vec<Author> = Vec::new();
    let a = make_commit_author(c);
    one.push(a);
    proof {
        assert(one.deep_view() =~= seq![commit_author(*c)]);
    }
    match rule {
        BlameRule::Metadata => Metadata {
            authors: if m.authors.len() > 0 { m.authors } else { one },
            last_edit_date: match m.last_edit_date {
                Some(d) => Some(d),
                None => Some(c.time),
            },
            ..m
        },
        BlameRule::Authors => Metadata { authors: one, publishing_date: None, last_edit_date: None, ..m },
    }
}

/// Returns the position of the last entry with a given key.
fn find_key(es: &Vec<(String, Page)>, key: &String) -> (r: Option<usize>)
    ensures
        r.is_some() == key_index(es.deep_view(), key@).is_some(),
        r.is_some() ==> r.unwrap() < es.len() && r.unwrap() as int == key_index(es.deep_view(), key@).unwrap(),
{
    let mut i = es.len();
    proof {
        assert(es.deep_view().take(es.len() as int) =~= es.deep_view());
    }
    while i > 0
        invariant
            i <= es.len(),
            key_index(es.deep_view(), key@) == key_index(es.deep_view().take(i as int), key@),
        decreases i,
    {
        proof {
            assert(es.deep_view().take(i as int).drop_last() =~= es.deep_view().take(i - 1));
            assert(es.deep_view().take(i as int).last() == es.deep_view()[i - 1]);
        }
        if es[i - 1].0 == *key {
            return Some(i - 1);
        }
        i = i - 1;
    }
    None
}

/// A walk down the history, one commit at a time.
pub struct GitBlame {
    pub rule: BlameRule,
    pub pending: Vec<(String, Page)>,
    pub done: Vec<Page>,
}

impl GitBlame {
    /// The state of the walk.
    pub open spec fn state(&self) -> BlameView {
        BlameView { pending: self.pending.deep_view(), done: self.done.deep_view() }
    }

    /// Splits a bundle into the pages that the rule keeps as they are (pages
    /// with an empty path are dropped) and a walk whose pending pages are
    /// the others, keyed by joined path (a later page replaces an earlier
    /// one with the same key).
    pub fn start(rule: BlameRule, bundle: &Vec<Page>) -> (r: (Vec<Page>, GitBlame))
        ensures
            r.0.deep_view() == kept_pages(rule, bundle.deep_view()),
            r.1.rule == rule,
            r.1.state() == (BlameView {
                pending: blame_entries(rule, bundle.deep_view(), bundle.len() as int),
                done: Seq::empty(),
            }),
    {
        let ghost b = bundle.deep_view();
        let ghost f = |p: PageView| p.path.len() > 0 && needs_no_blame(rule, p);
        let mut kept: Vec<Page> = Vec::new();
        let mut pending: Vec<(String, Page)> = Vec::new();
        let mut i: usize = 0;
        proof {
            assert(pending.deep_view() =~= blame_entries(rule, b, 0));
        }
        while i < bundle.len()
            invariant
                i <= bundle.len(),
                b == bundle.deep_view(),
                f == (|p: PageView| p.path.len() > 0 && needs_no_blame(rule, p)),
                kept.deep_view() == b.take(i as int).filter(f),
                pending.deep_view() == blame_entries(rule, b, i as int),
            decreases bundle.len() - i,
        {
            proof {
                reveal_with_fuel(Seq::filter, 1);
                assert(b.take(i + 1).drop_last() =~= b.take(i as int));
                assert(b.take(i + 1).last() == b[i as int]);
            }
            let page = &bundle[i];
            if page.path.len() > 0 {
                let keep = match &page.metadata {
                    Some(m) => match rule {
                        BlameRule::Metadata => m.authors.len() > 0 && m.last_edit_date.is_some(),
                        BlameRule::Authors => m.authors.len() > 0,
                    },
                    None => false,
                };
                if keep {
                    let ghost before = kept;
                    let p = page.duplicate();
                    kept.push(p);
                    proof {
                        lemma_push_deep_view(before, kept, p);
                    }
                } else {
                    let key = join_segments(&page.path);
                    let ghost before = pending;
                    match find_key(&pending, &key) {
                        Some(k) => {
                            let e = (key, page.duplicate());
                            pending.set(k, e);
                            proof {
                                assert(pending.deep_view() =~= before.deep_view().update(k as int, e.deep_view()));
                            }
                        },
                        None => {
                            let e = (key, page.duplicate());
                            pending.push(e);
                            proof {
                                lemma_push_deep_view(before, pending, e);
                            }
                        },
                    }
                }
            }
            i = i + 1;
        }
        proof {
            assert(b.take(bundle.len() as int) =~= b);
        }
        let done: Vec<Page> = Vec::new();
        proof {
            assert(done.deep_view() =~= Seq::<PageView>::empty());
        }
        (kept, GitBlame { rule, pending, done })
    }

    /// Whether no page waits for a commit any more.
    pub fn is_done(&self) -> (r: bool)
        ensures
            r == (self.pending.len() == 0),
    {
        self.pending.len() == 0
    }

    /// Takes the next commit of the history (newest first): each page that
    /// waits at a file the commit changed gets its metadata from the commit.
    pub fn apply_commit(&mut self, c: &CommitInfo)
        ensures
            final(self).rule == old(self).rule,
            final(self).state() == blame_commit(old(self).rule, old(self).state(), *c),
    {
        let ghost s0 = self.state();
        let rule = self.rule;
        let mut i: usize = 0;
        while i < c.files.len()
            invariant
                i <= c.files.len(),
                self.rule == rule,
                rule == old(self).rule,
                s0 == old(self).state(),
                self.state() == blame_files(rule, s0, *c, c.files.deep_view(), i as int),
            decreases c.files.len() - i,
        {
            let ghost st = self.state();
            match find_key(&self.pending, &c.files[i]) {
                Some(k) => {
                    let ghost pv = self.pending.deep_view();
                    let (_, page) = self.pending.remove(k);
                    proof {
                        assert(self.pending.deep_view() =~= pv.remove(k as int));
                    }
                    let md = make_blamed_metadata(rule, &page.metadata, c);
                    let p = page.change_meta(md);
                    let ghost before = self.done;
                    self.done.push(p);
                    proof {
                        lemma_push_deep_view(before, self.done, p);
                    }
                },
                None => {},
            }
            i = i + 1;
        }
    }

    /// Returns the output of the walk: the updated pages, in the order they
    /// were updated, then those still waiting.
    pub fn finish(&self) -> (r: Vec<Page>)
        ensures
            r.deep_view() == blame_output(self.state()),
    {
        let mut r = crate::pages::copy_pages(&self.done);
        let mut rest: Vec<Page> = Vec::new();
        let mut i: usize = 0;
        while i < self.pending.len()
            invariant
                i <= self.pending.len(),
                rest.deep_view() == self.pending.deep_view().take(i as int).map_values(|e: (Seq<char>, PageView)| e.1),
            decreases self.pending.len() - i,
        {
            let ghost before = rest;
            let p = self.pending[i].1.duplicate();
            rest.push(p);
            proof {
                lemma_push_deep_view(before, rest, p);
                assert(rest.deep_view() =~= self.pending.deep_view().take(i + 1).map_values(|e: (Seq<char>, PageView)| e.1));
            }
            i = i + 1;
        }
        proof {
            assert(self.pending.deep_view().take(self.pending.len() as int) =~= self.pending.deep_view());
        }
        append_pages(&mut r, rest);
        r
    }
}

/// Sets authors and last edit dates from the git history of a repository.
#[derive(Debug)]
pub struct GitMetadata {
    pub name: String,
    pub repo_path: String,
}

impl GitMetadata {
    /// Starts the walk down the history for a bundle (see [`GitBlame::start`]).
    pub fn start(&self, bundle: &Vec<Page>) -> (r: (Vec<Page>, GitBlame))
        ensures
            r.0.deep_view() == kept_pages(BlameRule::Metadata, bundle.deep_view()),
            r.1.rule == BlameRule::Metadata,
            r.1.state() == (BlameView {
                pending: blame_entries(BlameRule::Metadata, bundle.deep_view(), bundle.len() as int),
                done: Seq::empty(),
            }),
    {
        GitBlame::start(BlameRule::Metadata, bundle)
    }
}

/// Sets authors from the git history of a repository.
#[derive(Debug)]
pub struct GitAuthors {
    pub repo_path: String,
}

impl GitAuthors {
    /// Starts the walk down the history for a bundle (see [`GitBlame::start`]).
    pub fn start(&self, bundle: &Vec<Page>) -> (r: (Vec<Page>, GitBlame))
        ensures
            r.0.deep_view() == kept_pages(BlameRule::Authors, bundle.deep_view()),
            r.1.rule == BlameRule::Authors,
            r.1.state() == (BlameView {
                pending: blame_entries(BlameRule::Authors, bundle.deep_view(), bundle.len() as int),
                done: Seq::empty(),
            }),
    {
        GitBlame::start(BlameRule::Authors, bundle)
    }
}

} // verus!
