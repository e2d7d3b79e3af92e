//! Merging metadata: a page's own metadata completed by that of the
//! directories above it.
use vstd::prelude::*;
use crate::pages::{
    Author, AuthorView, Metadata, MetadataView, Value, ValueView, copy_opt_string,
};
use crate::strings::{copy_string, copy_strings, lemma_push_deep_view};

verus! {

/// `a` if it is set, else `b`.
pub open spec fn or_else<T>(a: Option<T>, b: Option<T>) -> Option<T> {
    match a {
        Some(x) => Some(x),
        None => b,
    }
}

/// The elements of `a` followed by those of `b` that are not in `a`.
pub open spec fn union_seq<T>(a: Seq<T>, b: Seq<T>) -> Seq<T> {
    a + b.filter(|x: T| !a.contains(x))
}

/// The keys of key/value entries, in order.
pub open spec fn keys_of(d: Seq<(Seq<char>, ValueView)>) -> Seq<Seq<char>> {
    d.map_values(|e: (Seq<char>, ValueView)| e.0)
}

/// The entries of `a` followed by those of `b` whose key is not a key of `a`.
pub open spec fn data_union(a: Seq<(Seq<char>, ValueView)>, b: Seq<(Seq<char>, ValueView)>) -> Seq<
    (Seq<char>, ValueView),
> {
    a + b.filter(|e: (Seq<char>, ValueView)| !keys_of(a).contains(e.0))
}

/// The first author with a given name.
pub open spec fn find_author(authors: Seq<AuthorView>, name: Seq<char>) -> Option<AuthorView>
    decreases authors.len(),
{
    if authors.len() == 0 {
        None
    } else if authors[0].name == name {
        Some(authors[0])
    } else {
        find_author(authors.drop_first(), name)
    }
}

/// An author completed with the contacts of the first author of the same
/// name in `parent`.
pub open spec fn merge_author(a: AuthorView, parent: Seq<AuthorView>) -> AuthorView {
    match find_author(parent, a.name) {
        Some(pa) => AuthorView { name: a.name, contacts: union_seq(a.contacts, pa.contacts) },
        None => a,
    }
}

/// Metadata completed by the metadata of an enclosing directory: the page's
/// own title, summary and dates win; tags and data are united (the page's own
/// first, its own data winning on a shared key); the authors are the page's
/// own, each completed with the contacts of the parent's author of the same
/// name.
pub open spec fn merge_view(c: MetadataView, p: MetadataView) -> MetadataView {
    MetadataView {
        title: or_else(c.title, p.title),
        summary: or_else(c.summary, p.summary),
        authors: c.authors.map_values(|a: AuthorView| merge_author(a, p.authors)),
        tags: union_seq(c.tags, p.tags),
        publishing_date: or_else(c.publishing_date, p.publishing_date),
        last_edit_date: or_else(c.last_edit_date, p.last_edit_date),
        data: data_union(c.data, p.data),
    }
}

/// Whether a string occurs in a list of strings.
pub fn contains_string(v: &Vec<String>, s: &String) -> (r: bool)
    ensures
        r == v.deep_view().contains(s@),
{
    let mut i: usize = 0;
    while i < v.len()
        invariant
            i <= v.len(),
            forall|k: int| 0 <= k < i ==> v.deep_view()[k] != s@,
        decreases v.len() - i,
    {
        if v[i] == *s {
            proof {
                assert(v.deep_view()[i as int] == s@);
            }
            return true;
        }
        i = i + 1;
    }
    false
}

/// Returns the strings of `a` followed by those of `b` that are not in `a`.
pub fn union_strings(a: &Vec<String>, b: &Vec<String>) -> (r: Vec<String>)
    ensures
        r.deep_view() == union_seq(a.deep_view(), b.deep_view()),
{
    let ghost f = |x: Seq<char>| !a.deep_view().contains(x);
    let mut r = copy_strings(a);
    let mut i: usize = 0;
    while i < b.len()
        invariant
            i <= b.len(),
            f == (|x: Seq<char>| !a.deep_view().contains(x)),
            r.deep_view() == a.deep_view() + b.deep_view().take(i as int).filter(f),
        decreases b.len() - i,
    {
        proof {
            reveal_with_fuel(Seq::filter, 1);
            assert(b.deep_view().take(i + 1).drop_last() =~= b.deep_view().take(i as int));
        }
        if !contains_string(a, &b[i]) {
            let ghost before = r;
            let c = copy_string(&b[i]);
            r.push(c);
            proof {
                lemma_push_deep_view(before, r, c);
                assert(r.deep_view() =~= a.deep_view() + b.deep_view().take(i + 1).filter(f));
            }
        } else {
            proof {
                assert(r.deep_view() =~= a.deep_view() + b.deep_view().take(i + 1).filter(f));
            }
        }
        i = i + 1;
    }
    proof {
        assert(b.deep_view().take(b.len() as int) =~= b.deep_view());
    }
    r
}

/// Whether a key occurs among key/value entries.
pub fn contains_key(d: &Vec<(String, Value)>, k: &String) -> (r: bool)
    ensures
        r == keys_of(d.deep_view()).contains(k@),
{
    let mut i: usize = 0;
    while i < d.len()
        invariant
            i <= d.len(),
            forall|j: int| 0 <= j < i ==> keys_of(d.deep_view())[j] != k@,
        decreases d.len() - i,
    {
        if d[i].0 == *k {
            proof {
                assert(keys_of(d.deep_view())[i as int] == k@);
            }
            return true;
        }
        i = i + 1;
    }
    false
}

/// Returns the entries of `a` followed by those of `b` whose key is not a key of `a`.
pub fn union_data(a: &Vec<(String, Value)>, b: &Vec<(String, Value)>) -> (r: Vec<(String, Value)>)
    ensures
        r.deep_view() == data_union(a.deep_view(), b.deep_view()),
{
    let ghost f = |e: (Seq<char>, ValueView)| !keys_of(a.deep_view()).contains(e.0);
    let mut r = crate::pages::copy_data(a);
    let mut i: usize = 0;
    while i < b.len()
        invariant
            i <= b.len(),
            f == (|e: (Seq<char>, ValueView)| !keys_of(a.deep_view()).contains(e.0)),
            r.deep_view() == a.deep_view() + b.deep_view().take(i as int).filter(f),
        decreases b.len() - i,
    {
        proof {
            reveal_with_fuel(Seq::filter, 1);
            assert(b.deep_view().take(i + 1).drop_last() =~= b.deep_view().take(i as int));
        }
        if !contains_key(a, &b[i].0) {
            let ghost before = r;
            let e = (copy_string(&b[i].0), b[i].1.duplicate());
            r.push(e);
            proof {
                lemma_push_deep_view(before, r, e);
                assert(r.deep_view() =~= a.deep_view() + b.deep_view().take(i + 1).filter(f));
            }
        } else {
            proof {
                assert(r.deep_view() =~= a.deep_view() + b.deep_view().take(i + 1).filter(f));
            }
        }
        i = i + 1;
    }
    proof {
        assert(b.deep_view().take(b.len() as int) =~= b.deep_view());
    }
    r
}

/// Returns the position of the first author with a given name.
fn find_author_index(authors: &Vec<Author>, name: &String) -> (r: Option<usize>)
    ensures
        r.is_some() == find_author(authors.deep_view(), name@).is_some(),
        r.is_some() ==> r.unwrap() < authors.len() && find_author(authors.deep_view(), name@)
            == Some(authors.deep_view()[r.unwrap() as int]),
{
    let mut i: usize = 0;
    proof {
        assert(authors.deep_view().skip(0) =~= authors.deep_view());
    }
    while i < authors.len()
        invariant
            i <= authors.len(),
            find_author(authors.deep_view(), name@) == find_author(authors.deep_view().skip(i as int), name@),
        decreases authors.len() - i,
    {
        proof {
            assert(authors.deep_view().skip(i as int).drop_first() =~= authors.deep_view().skip(i + 1));
            assert(authors.deep_view().skip(i as int)[0] == authors.deep_view()[i as int]);
        }
        if authors[i].name == *name {
            return Some(i);
        }
        i = i + 1;
    }
    proof {
        assert(authors.deep_view().skip(authors.len() as int) =~= Seq::<AuthorView>::empty());
    }
    None
}

/// Returns an author completed with the contacts of the first author of the
/// same name in `parent`.
pub fn merge_author_with(a: &Author, parent: &Vec<Author>) -> (r: Author)
    ensures
        r.deep_view() == merge_author(a.deep_view(), parent.deep_view()),
{
    match find_author_index(parent, &a.name) {
        Some(i) => Author {
            name: copy_string(&a.name),
            contacts: union_strings(&a.contacts, &parent[i].contacts),
        },
        None => a.duplicate(),
    }
}

impl Metadata {
    /// Returns the metadata completed by the metadata of an enclosing directory.
    pub fn merge(&self, parent: &Metadata) -> (r: Metadata)
        ensures
            r.deep_view() == merge_view(self.deep_view(), parent.deep_view()),
    {
        let mut authors: Vec<Author> = Vec::new();
        let mut i: usize = 0;
        while i < self.authors.len()
            invariant
                i <= self.authors.len(),
                authors.deep_view() == self.authors.deep_view().take(i as int).map_values(
                    |a: AuthorView| merge_author(a, parent.authors.deep_view()),
                ),
            decreases self.authors.len() - i,
        {
            let ghost before = authors;
            let a = merge_author_with(&self.authors[i], &parent.authors);
            authors.push(a);
            proof {
                lemma_push_deep_view(before, authors, a);
                assert(authors.deep_view() =~= self.authors.deep_view().take(i + 1).map_values(
                    |a: AuthorView| merge_author(a, parent.authors.deep_view()),
                ));
            }
            i = i + 1;
        }
        proof {
            assert(self.authors.deep_view().take(self.authors.len() as int) =~= self.authors.deep_view());
        }
        let r = Metadata {
            title: if self.title.is_some() { copy_opt_string(&self.title) } else { copy_opt_string(&parent.title) },
            summary: if self.summary.is_some() { copy_opt_string(&self.summary) } else { copy_opt_string(&parent.summary) },
            authors,
            tags: union_strings(&self.tags, &parent.tags),
            publishing_date: if self.publishing_date.is_some() { self.publishing_date } else { parent.publishing_date },
            last_edit_date: if self.last_edit_date.is_some() { self.last_edit_date } else { parent.last_edit_date },
            data: union_data(&self.data, &parent.data),
        };
        proof {
            assert(r.deep_view().authors == merge_view(self.deep_view(), parent.deep_view()).authors);
        }
        r
    }
}

} // verus!
