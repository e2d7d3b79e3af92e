//! The index pages: JSON lists of the pages, tags and authors of a bundle,
//! and of the pages of each tag and of each author.
use vstd::prelude::*;
use crate::assets::{all_authors, all_tags, author_names, collect_authors, collect_tags};
use crate::bundle::{paths_of, paths_of_pages};
use crate::queries::{BundleQuery, matching_pages, query_matches};
use crate::helpers::{authored, tagged};
use crate::json::{comma_joined, json_array, json_int, json_member, json_null, json_object, json_opt_string, json_string, json_strings, lemma_comma_joined_push, write_int, write_json_string, write_key, write_null, write_opt_string, write_strings};
use crate::pages::{Author, AuthorView, Metadata, MetadataView, Page, PageView};
use crate::paths::write_raw_member;
use crate::strings::{copy_string, lemma_push_deep_view, push_char, push_str};

verus! {

/// An optional integer: a JSON integer or `null`.
pub open spec fn json_opt_int(o: Option<i64>) -> Seq<char> {
    match o {
        Some(i) => json_int(i as int),
        None => json_null(),
    }
}

/// The JSON of the metadata of a page in the list of pages: title,
/// summary, author names, tags and dates.
pub open spec fn index_metadata_json(m: MetadataView) -> Seq<char> {
    seq!['{'] + json_member("title"@, json_opt_string(m.title))
        + seq![','] + json_member("summary"@, json_opt_string(m.summary))
        + seq![','] + json_member("authors"@, json_strings(author_names(m.authors)))
        + seq![','] + json_member("tags"@, json_strings(m.tags))
        + seq![','] + json_member("publishing_date"@, json_opt_int(m.publishing_date))
        + seq![','] + json_member("last_edit_date"@, json_opt_int(m.last_edit_date))
        + seq!['}']
}

/// The JSON of a page in the list of pages: its path and metadata.
pub open spec fn page_entry_json(p: PageView) -> Seq<char> {
    seq!['{'] + json_member("path"@, json_strings(p.path))
        + seq![','] + json_member("metadata"@, match p.metadata {
            Some(m) => index_metadata_json(m),
            None => json_null(),
        })
        + seq!['}']
}

/// The list of pages of a bundle.
pub open spec fn all_pages_json(b: Seq<PageView>) -> Seq<char> {
    json_array(b.map_values(|p: PageView| page_entry_json(p)))
}

/// The tags of a bundle (see [`all_tags`]).
pub open spec fn all_tags_json(b: Seq<PageView>) -> Seq<char> {
    json_strings(all_tags(b))
}

/// Authors not yet in `acc` appended to it in order, each once.
pub open spec fn add_new_authors(acc: Seq<AuthorView>, xs: Seq<AuthorView>) -> Seq<AuthorView>
    decreases xs.len(),
{
    if xs.len() == 0 {
        acc
    } else {
        let a = add_new_authors(acc, xs.drop_last());
        if a.contains(xs.last()) {
            a
        } else {
            a.push(xs.last())
        }
    }
}

/// The authors of the pages of a bundle, each once, in order of first use.
pub open spec fn author_list(b: Seq<PageView>) -> Seq<AuthorView>
    decreases b.len(),
{
    if b.len() == 0 {
        Seq::empty()
    } else {
        match b.last().metadata {
            Some(m) => add_new_authors(author_list(b.drop_last()), m.authors),
            None => author_list(b.drop_last()),
        }
    }
}

/// The JSON of an author: its name and contacts.
pub open spec fn author_json(a: AuthorView) -> Seq<char> {
    seq!['{'] + json_member("name"@, json_string(a.name)) + seq![','] + json_member("contacts"@, json_strings(a.contacts)) + seq!['}']
}

/// The list of authors of a bundle.
pub open spec fn all_authors_json(b: Seq<PageView>) -> Seq<char> {
    json_array(author_list(b).map_values(|a: AuthorView| author_json(a)))
}

/// The JSON of a list of paths.
pub open spec fn paths_json(ps: Seq<Seq<Seq<char>>>) -> Seq<char> {
    json_array(ps.map_values(|p: Seq<Seq<char>>| json_strings(p)))
}

/// The pages of each tag: an object from each tag of the bundle to the
/// paths of its pages, in bundle order.
pub open spec fn pages_by_tag_json(b: Seq<PageView>) -> Seq<char> {
    json_object(all_tags(b).map_values(|t: Seq<char>| json_member(t, paths_json(paths_of(b.filter(|p: PageView| tagged(p, t)))))))
}

/// The pages of each author: an object from each author name of the bundle
/// to the paths of its pages, in bundle order.
pub open spec fn pages_by_author_json(b: Seq<PageView>) -> Seq<char> {
    json_object(all_authors(b).map_values(|a: Seq<char>| json_member(a, paths_json(paths_of(b.filter(|p: PageView| authored(p, a)))))))
}

/// Returns an optional integer as JSON.
fn opt_int_text(o: Option<i64>) -> (r: String)
    ensures
        r@ == json_opt_int(o),
{
    let mut r = String::new();
    match o {
        Some(i) => write_int(&mut r, i),
        None => write_null(&mut r),
    }
    proof {
        assert(r@ =~= json_opt_int(o));
    }
    r
}

/// Returns an optional string as JSON.
fn opt_string_text(o: &Option<String>) -> (r: String)
    ensures
        r@ == json_opt_string(o.deep_view()),
{
    let mut r = String::new();
    write_opt_string(&mut r, o);
    proof {
        assert(r@ =~= json_opt_string(o.deep_view()));
    }
    r
}

/// Returns a list of strings as JSON.
fn strings_text(v: &Vec<String>) -> (r: String)
    ensures
        r@ == json_strings(v.deep_view()),
{
    let mut r = String::new();
    write_strings(&mut r, v);
    proof {
        assert(r@ =~= json_strings(v.deep_view()));
    }
    r
}

/// Returns the names of a list of authors.
fn names_of_authors(authors: &Vec<Author>) -> (r: Vec<String>)
    ensures
        r.deep_view() == author_names(authors.deep_view()),
{
    let mut r: Vec<String> = Vec::new();
    let mut i: usize = 0;
    while i < authors.len()
        invariant
            i <= authors.len(),
            r.deep_view() == author_names(authors.deep_view()).take(i as int),
        decreases authors.len() - i,
    {
        let ghost before = r;
        let s = copy_string(&authors[i].name);
        r.push(s);
        proof {
            lemma_push_deep_view(before, r, s);
            assert(r.deep_view() =~= author_names(authors.deep_view()).take(i + 1));
        }
        i = i + 1;
    }
    proof {
        assert(author_names(authors.deep_view()).take(authors.len() as int) =~= author_names(authors.deep_view()));
    }
    r
}

/// Returns the JSON of the metadata of a page in the list of pages.
#[verifier::rlimit(40)]
fn index_metadata_text(m: &Metadata) -> (r: String)
    ensures
        r@ == index_metadata_json(m.deep_view()),
{
    let mut out = String::new();
    push_char(&mut out, '{');
    write_key(&mut out, "title");
    let t = opt_string_text(&m.title);
    push_str(&mut out, t.as_str());
    assert(out@ =~= seq!['{'] + json_member("title"@, json_opt_string(m.title.deep_view())));
    let t = opt_string_text(&m.summary);
    write_raw_member(&mut out, "summary", t.as_str());
    let names = names_of_authors(&m.authors);
    let t = strings_text(&names);
    write_raw_member(&mut out, "authors", t.as_str());
    let t = strings_text(&m.tags);
    write_raw_member(&mut out, "tags", t.as_str());
    let t = opt_int_text(m.publishing_date);
    write_raw_member(&mut out, "publishing_date", t.as_str());
    let t = opt_int_text(m.last_edit_date);
    write_raw_member(&mut out, "last_edit_date", t.as_str());
    push_char(&mut out, '}');
    out
}

/// Returns the JSON of a page in the list of pages.
fn page_entry_text(p: &Page) -> (r: String)
    ensures
        r@ == page_entry_json(p.deep_view()),
{
    let mut out = String::new();
    push_char(&mut out, '{');
    write_key(&mut out, "path");
    write_strings(&mut out, &p.path);
    assert(out@ =~= seq!['{'] + json_member("path"@, json_strings(p.path.deep_view())));
    let t = match &p.metadata {
        Some(m) => index_metadata_text(m),
        None => {
            let mut n = String::new();
            write_null(&mut n);
            assert(n@ =~= json_null());
            n
        },
    };
    write_raw_member(&mut out, "metadata", t.as_str());
    push_char(&mut out, '}');
    out
}

/// Returns the list of pages of a bundle (see [`all_pages_json`]).
pub fn all_pages_text(b: &Vec<Page>) -> (r: String)
    ensures
        r@ == all_pages_json(b.deep_view()),
{
    let ghost items = b.deep_view().map_values(|p: PageView| page_entry_json(p));
    let mut out = String::new();
    push_char(&mut out, '[');
    let mut i: usize = 0;
    while i < b.len()
        invariant
            i <= b.len(),
            items == b.deep_view().map_values(|p: PageView| page_entry_json(p)),
            out@ == seq!['['] + comma_joined(items.take(i as int)),
        decreases b.len() - i,
    {
        if i > 0 {
            push_char(&mut out, ',');
        }
        let t = page_entry_text(&b[i]);
        push_str(&mut out, t.as_str());
        proof {
            assert(items.take(i + 1) =~= items.take(i as int).push(items[i as int]));
            lemma_comma_joined_push(items.take(i as int), items[i as int]);
            assert(out@ =~= seq!['['] + comma_joined(items.take(i + 1)));
        }
        i = i + 1;
    }
    push_char(&mut out, ']');
    proof {
        assert(items.take(b.len() as int) =~= items);
        assert(out@ =~= all_pages_json(b.deep_view()));
    }
    out
}

/// Returns the tags of a bundle as JSON (see [`all_tags_json`]).
pub fn all_tags_text(b: &Vec<Page>) -> (r: String)
    ensures
        r@ == all_tags_json(b.deep_view()),
{
    let tags = collect_tags(b);
    strings_text(&tags)
}

/// Returns whether two authors are the same: same name, same contacts.
fn same_author(a: &Author, b: &Author) -> (r: bool)
    ensures
        r == (a.deep_view() == b.deep_view()),
{
    a.name == b.name && crate::strings::paths_equal(&a.contacts, &b.contacts)
}

/// Appends to `acc` the authors it does not hold yet.
fn add_new_author_list(acc: &mut Vec<Author>, xs: &Vec<Author>)
    ensures
        final(acc).deep_view() == add_new_authors(old(acc).deep_view(), xs.deep_view()),
{
    let mut i: usize = 0;
    while i < xs.len()
        invariant
            i <= xs.len(),
            acc.deep_view() == add_new_authors(old(acc).deep_view(), xs.deep_view().take(i as int)),
        decreases xs.len() - i,
    {
        proof {
            assert(xs.deep_view().take(i + 1).drop_last() =~= xs.deep_view().take(i as int));
        }
        let mut found = false;
        let mut j: usize = 0;
        while j < acc.len()
            invariant
                j <= acc.len(),
                i < xs.len(),
                found == exists|k: int| 0 <= k < j && #[trigger] acc.deep_view()[k] == xs.deep_view()[i as int],
            decreases acc.len() - j,
        {
            if same_author(&acc[j], &xs[i]) {
                found = true;
            }
            proof {
                if !found {
                    assert forall|k: int| 0 <= k < j + 1 implies #[trigger] acc.deep_view()[k] != xs.deep_view()[i as int] by {
                        if k == j {
                            assert(acc.deep_view()[k] == acc[k].deep_view());
                        }
                    }
                } else {
                    if !(exists|k: int| 0 <= k < j && #[trigger] acc.deep_view()[k] == xs.deep_view()[i as int]) {
                        assert(acc.deep_view()[j as int] == xs.deep_view()[i as int]);
                    }
                }
            }
            j = j + 1;
        }
        proof {
            if found {
                let k = choose|k: int| 0 <= k < acc.len() && acc.deep_view()[k] == xs.deep_view()[i as int];
                assert(acc.deep_view().contains(xs.deep_view()[i as int]));
            } else {
                assert(!acc.deep_view().contains(xs.deep_view()[i as int]));
            }
        }
        if !found {
            let ghost before = *acc;
            let a = xs[i].duplicate();
            acc.push(a);
            proof {
                lemma_push_deep_view(before, *acc, a);
            }
        }
        i = i + 1;
    }
    proof {
        assert(xs.deep_view().take(xs.len() as int) =~= xs.deep_view());
    }
}

/// Returns the authors of a bundle, each once (see [`author_list`]).
fn collect_author_list(b: &Vec<Page>) -> (r: Vec<Author>)
    ensures
        r.deep_view() == author_list(b.deep_view()),
{
    let mut r: Vec<Author> = Vec::new();
    let mut i: usize = 0;
    proof {
        assert(r.deep_view() =~= author_list(b.deep_view().take(0)));
    }
    while i < b.len()
        invariant
            i <= b.len(),
            r.deep_view() == author_list(b.deep_view().take(i as int)),
        decreases b.len() - i,
    {
        proof {
            assert(b.deep_view().take(i + 1).drop_last() =~= b.deep_view().take(i as int));
        }
        match &b[i].metadata {
            Some(m) => add_new_author_list(&mut r, &m.authors),
            None => {},
        }
        i = i + 1;
    }
    proof {
        assert(b.deep_view().take(b.len() as int) =~= b.deep_view());
    }
    r
}

/// Returns the JSON of an author.
fn author_text(a: &Author) -> (r: String)
    ensures
        r@ == author_json(a.deep_view()),
{
    let mut out = String::new();
    push_char(&mut out, '{');
    write_key(&mut out, "name");
    write_json_string(&mut out, a.name.as_str());
    assert(out@ =~= seq!['{'] + json_member("name"@, json_string(a.name@)));
    let t = strings_text(&a.contacts);
    write_raw_member(&mut out, "contacts", t.as_str());
    push_char(&mut out, '}');
    out
}

/// Returns the list of authors of a bundle (see [`all_authors_json`]).
pub fn all_authors_text(b: &Vec<Page>) -> (r: String)
    ensures
        r@ == all_authors_json(b.deep_view()),
{
    let authors = collect_author_list(b);
    let ghost items = authors.deep_view().map_values(|a: AuthorView| author_json(a));
    let mut out = String::new();
    push_char(&mut out, '[');
    let mut i: usize = 0;
    while i < authors.len()
        invariant
            i <= authors.len(),
            items == authors.deep_view().map_values(|a: AuthorView| author_json(a)),
            out@ == seq!['['] + comma_joined(items.take(i as int)),
        decreases authors.len() - i,
    {
        if i > 0 {
            push_char(&mut out, ',');
        }
        let t = author_text(&authors[i]);
        push_str(&mut out, t.as_str());
        proof {
            assert(items.take(i + 1) =~= items.take(i as int).push(items[i as int]));
            lemma_comma_joined_push(items.take(i as int), items[i as int]);
            assert(out@ =~= seq!['['] + comma_joined(items.take(i + 1)));
        }
        i = i + 1;
    }
    push_char(&mut out, ']');
    proof {
        assert(items.take(authors.len() as int) =~= items);
        assert(out@ =~= all_authors_json(b.deep_view()));
    }
    out
}

/// Returns a list of paths as JSON.
fn paths_text(ps: &Vec<Vec<String>>) -> (r: String)
    ensures
        r@ == paths_json(ps.deep_view()),
{
    let ghost items = ps.deep_view().map_values(|p: Seq<Seq<char>>| json_strings(p));
    let mut out = String::new();
    push_char(&mut out, '[');
    let mut i: usize = 0;
    while i < ps.len()
        invariant
            i <= ps.len(),
            items == ps.deep_view().map_values(|p: Seq<Seq<char>>| json_strings(p)),
            out@ == seq!['['] + comma_joined(items.take(i as int)),
        decreases ps.len() - i,
    {
        if i > 0 {
            push_char(&mut out, ',');
        }
        let t = strings_text(&ps[i]);
        push_str(&mut out, t.as_str());
        proof {
            assert(items.take(i + 1) =~= items.take(i as int).push(items[i as int]));
            lemma_comma_joined_push(items.take(i as int), items[i as int]);
            assert(out@ =~= seq!['['] + comma_joined(items.take(i + 1)));
        }
        i = i + 1;
    }
    push_char(&mut out, ']');
    proof {
        assert(items.take(ps.len() as int) =~= items);
        assert(out@ =~= paths_json(ps.deep_view()));
    }
    out
}

/// Returns the paths of the pages of a bundle that have a tag, in bundle order.
fn tag_page_paths(b: &Vec<Page>, tag: &String) -> (r: Vec<Vec<String>>)
    ensures
        r.deep_view() == paths_of(b.deep_view().filter(|p: PageView| tagged(p, tag@))),
{
    let q = BundleQuery::Tag { tag: copy_string(tag) };
    let pages = matching_pages(b, &q);
    proof {
        let f = |p: PageView| query_matches(q, p);
        let g = |p: PageView| tagged(p, tag@);
        assert(f =~= g);
        assert(pages.deep_view() == b.deep_view().filter(g));
    }
    paths_of_pages(&pages)
}

/// Returns the paths of the pages of a bundle that have an author of a
/// name, in bundle order.
fn author_page_paths(b: &Vec<Page>, name: &String) -> (r: Vec<Vec<String>>)
    ensures
        r.deep_view() == paths_of(b.deep_view().filter(|p: PageView| authored(p, name@))),
{
    let q = BundleQuery::Author { author: copy_string(name) };
    let pages = matching_pages(b, &q);
    proof {
        let f = |p: PageView| query_matches(q, p);
        let g = |p: PageView| authored(p, name@);
        assert(f =~= g);
        assert(pages.deep_view() == b.deep_view().filter(g));
    }
    paths_of_pages(&pages)
}

/// Returns the pages of each tag as JSON (see [`pages_by_tag_json`]).
pub fn pages_by_tag_text(b: &Vec<Page>) -> (r: String)
    ensures
        r@ == pages_by_tag_json(b.deep_view()),
{
    let tags = collect_tags(b);
    let ghost bv = b.deep_view();
    let ghost items = all_tags(bv).map_values(|t: Seq<char>| json_member(t, paths_json(paths_of(bv.filter(|p: PageView| tagged(p, t))))));
    let mut out = String::new();
    push_char(&mut out, '{');
    let mut i: usize = 0;
    while i < tags.len()
        invariant
            i <= tags.len(),
            bv == b.deep_view(),
            tags.deep_view() == all_tags(bv),
            items == all_tags(bv).map_values(|t: Seq<char>| json_member(t, paths_json(paths_of(bv.filter(|p: PageView| tagged(p, t)))))),
            out@ == seq!['{'] + comma_joined(items.take(i as int)),
        decreases tags.len() - i,
    {
        let ghost o = out@;
        if i > 0 {
            push_char(&mut out, ',');
        }
        let ghost o2 = out@;
        write_key(&mut out, tags[i].as_str());
        let ps = tag_page_paths(b, &tags[i]);
        let t = paths_text(&ps);
        push_str(&mut out, t.as_str());
        proof {
            assert(out@ =~= o2 + items[i as int]);
            assert(items.take(i + 1) =~= items.take(i as int).push(items[i as int]));
            lemma_comma_joined_push(items.take(i as int), items[i as int]);
            assert(out@ =~= seq!['{'] + comma_joined(items.take(i + 1)));
        }
        i = i + 1;
    }
    push_char(&mut out, '}');
    proof {
        assert(items.take(tags.len() as int) =~= items);
        assert(out@ =~= pages_by_tag_json(bv));
    }
    out
}

/// Returns the pages of each author as JSON (see [`pages_by_author_json`]).
pub fn pages_by_author_text(b: &Vec<Page>) -> (r: String)
    ensures
        r@ == pages_by_author_json(b.deep_view()),
{
    let names = collect_authors(b);
    let ghost bv = b.deep_view();
    let ghost items = all_authors(bv).map_values(|a: Seq<char>| json_member(a, paths_json(paths_of(bv.filter(|p: PageView| authored(p, a))))));
    let mut out = String::new();
    push_char(&mut out, '{');
    let mut i: usize = 0;
    while i < names.len()
        invariant
            i <= names.len(),
            bv == b.deep_view(),
            names.deep_view() == all_authors(bv),
            items == all_authors(bv).map_values(|a: Seq<char>| json_member(a, paths_json(paths_of(bv.filter(|p: PageView| authored(p, a)))))),
            out@ == seq!['{'] + comma_joined(items.take(i as int)),
        decreases names.len() - i,
    {
        let ghost o = out@;
        if i > 0 {
            push_char(&mut out, ',');
        }
        let ghost o2 = out@;
        write_key(&mut out, names[i].as_str());
        let ps = author_page_paths(b, &names[i]);
        let t = paths_text(&ps);
        push_str(&mut out, t.as_str());
        proof {
            assert(out@ =~= o2 + items[i as int]);
            assert(items.take(i + 1) =~= items.take(i as int).push(items[i as int]));
            lemma_comma_joined_push(items.take(i as int), items[i as int]);
            assert(out@ =~= seq!['{'] + comma_joined(items.take(i + 1)));
        }
        i = i + 1;
    }
    push_char(&mut out, '}');
    proof {
        assert(items.take(names.len() as int) =~= items);
        assert(out@ =~= pages_by_author_json(bv));
    }
    out
}

} // verus!
