//! What the stages do to each page, stated in the terms of the pages
//! themselves: which fields a stage keeps, which it sets, and from what.
use vstd::prelude::*;
use crate::indexes::{all_pages_json, page_entry_json};
use crate::assets::{add_new, all_tags};
use crate::json::{json_array, json_int, json_member, json_null, json_opt_string, json_string, json_strings};
use crate::pages::{AuthorView, MetadataView, PageView};
use crate::shadow::{all_candidates, page_candidates, retained_candidates, shadow_output, shadowed_page, entries};
use crate::strings::{ends_with_spec, is_prefix_of};
use crate::git::{BlameRule, BlameView, CommitInfo, blame_file, key_index};
use crate::stages::index_pages;
use crate::pages::BodyView;
use crate::md::{last_index_of, markdown_to_html, md_page};
use crate::paths::{PathParamsView, flat_date_json, formatted_timestamp, opt_data_json, opt_date_json, opt_strings_json, params_json, path_params, uri_friendly, with_flat_date};

verus! {

/// Whether `part` occurs in `s`, at some position.
pub open spec fn has_part(s: Seq<char>, part: Seq<char>) -> bool {
    exists|i: int, j: int| 0 <= i && j == i + part.len() && j <= s.len() && #[trigger] s.subrange(i, j) == part
}

/// A text made of three pieces holds the middle one.
pub proof fn lemma_has_middle(a: Seq<char>, x: Seq<char>, c: Seq<char>)
    ensures
        has_part(a + x + c, x),
{
    let s = a + x + c;
    assert(s.subrange(a.len() as int, (a.len() + x.len()) as int) =~= x);
}

/// The JSON of an optional date: its number, or `null`.
pub open spec fn date_text(d: Option<i64>) -> Seq<char> {
    match d {
        Some(t) => json_int(t as int),
        None => json_null(),
    }
}

/// Whether the entry of a page in the list of pages names its path and,
/// where the page has metadata, its title and its own publishing and last
/// edit dates.
pub open spec fn entry_describes(e: Seq<char>, p: PageView) -> bool {
    &&& has_part(e, json_member("path"@, json_strings(p.path)))
    &&& p.metadata matches Some(m) ==> {
        &&& has_part(e, json_member("title"@, json_opt_string(m.title)))
        &&& has_part(e, json_member("summary"@, json_opt_string(m.summary)))
        &&& has_part(e, json_member("authors"@, json_strings(m.authors.map_values(|a: AuthorView| a.name))))
        &&& has_part(e, json_member("tags"@, json_strings(m.tags)))
        &&& has_part(e, json_member("publishing_date"@, date_text(m.publishing_date)))
        &&& has_part(e, json_member("last_edit_date"@, date_text(m.last_edit_date)))
    }
}

/// A part of a piece of a text is a part of the text.
pub proof fn lemma_has_part_within(s: Seq<char>, part: Seq<char>, a: Seq<char>, c: Seq<char>)
    requires
        has_part(s, part),
    ensures
        has_part(a + s + c, part),
{
    let (i, j) = choose|i: int, j: int| 0 <= i && j == i + part.len() && j <= s.len() && #[trigger] s.subrange(i, j) == part;
    let t = a + s + c;
    assert(t.subrange(a.len() + i, a.len() + j) =~= s.subrange(i, j));
}

#[verifier::spinoff_prover]
#[verifier::rlimit(40)]
proof fn lemma_metadata_parts(m: MetadataView)
    ensures
        has_part(crate::indexes::index_metadata_json(m), json_member("title"@, json_opt_string(m.title))),
        has_part(crate::indexes::index_metadata_json(m), json_member("summary"@, json_opt_string(m.summary))),
        has_part(crate::indexes::index_metadata_json(m), json_member("authors"@, json_strings(m.authors.map_values(|a: AuthorView| a.name)))),
        has_part(crate::indexes::index_metadata_json(m), json_member("tags"@, json_strings(m.tags))),
        has_part(crate::indexes::index_metadata_json(m), json_member("publishing_date"@, date_text(m.publishing_date))),
        has_part(crate::indexes::index_metadata_json(m), json_member("last_edit_date"@, date_text(m.last_edit_date))),
{
    let t = crate::indexes::index_metadata_json(m);
    let mt = json_member("title"@, json_opt_string(m.title));
    let ms = json_member("summary"@, json_opt_string(m.summary));
    let ma = json_member("authors"@, json_strings(crate::assets::author_names(m.authors)));
    let mg = json_member("tags"@, json_strings(m.tags));
    let mp = json_member("publishing_date"@, date_text(m.publishing_date));
    let ml = json_member("last_edit_date"@, date_text(m.last_edit_date));
    assert(mp == json_member("publishing_date"@, crate::indexes::json_opt_int(m.publishing_date)));
    assert(ml == json_member("last_edit_date"@, crate::indexes::json_opt_int(m.last_edit_date)));
    let pre = seq!['{'] + mt + seq![','] + ms + seq![','] + ma + seq![','] + mg + seq![','];
    assert(t == pre + mp + seq![','] + ml + seq!['}']);
    assert(t =~= seq!['{'] + mt + (seq![','] + ms + seq![','] + ma + seq![','] + mg + seq![','] + mp + seq![','] + ml + seq!['}']));
    lemma_has_middle(seq!['{'], mt, seq![','] + ms + seq![','] + ma + seq![','] + mg + seq![','] + mp + seq![','] + ml + seq!['}']);
    assert(t =~= pre + mp + (seq![','] + ml + seq!['}']));
    lemma_has_middle(pre, mp, seq![','] + ml + seq!['}']);
    assert(t =~= (pre + mp + seq![',']) + ml + seq!['}']);
    lemma_has_middle(pre + mp + seq![','], ml, seq!['}']);
    let tail = seq![','] + mp + seq![','] + ml + seq!['}'];
    let h1 = seq!['{'] + mt + seq![','];
    assert(t =~= h1 + ms + (seq![','] + ma + seq![','] + mg + tail));
    lemma_has_middle(h1, ms, seq![','] + ma + seq![','] + mg + tail);
    let h2 = h1 + ms + seq![','];
    assert(t =~= h2 + ma + (seq![','] + mg + tail));
    lemma_has_middle(h2, ma, seq![','] + mg + tail);
    let h3 = h2 + ma + seq![','];
    assert(t =~= h3 + mg + tail);
    lemma_has_middle(h3, mg, tail);
    assert(crate::assets::author_names(m.authors) == m.authors.map_values(|a: AuthorView| a.name));
}

#[verifier::spinoff_prover]
#[verifier::rlimit(40)]
proof fn lemma_entry_describes(p: PageView)
    ensures
        entry_describes(page_entry_json(p), p),
{
    let e = page_entry_json(p);
    let mpath = json_member("path"@, json_strings(p.path));
    let md = match p.metadata {
        Some(m) => crate::indexes::index_metadata_json(m),
        None => json_null(),
    };
    let rest = seq![','] + json_member("metadata"@, md) + seq!['}'];
    assert(e =~= seq!['{'] + mpath + rest);
    lemma_has_middle(seq!['{'], mpath, rest);
    if let Some(m) = p.metadata {
        let head = seq!['{'] + mpath + seq![','] + json_string("metadata"@) + seq![':'];
        assert(e =~= head + md + seq!['}']);
        lemma_metadata_parts(m);
        lemma_has_part_within(md, json_member("title"@, json_opt_string(m.title)), head, seq!['}']);
        lemma_has_part_within(md, json_member("summary"@, json_opt_string(m.summary)), head, seq!['}']);
        lemma_has_part_within(md, json_member("authors"@, json_strings(m.authors.map_values(|a: AuthorView| a.name))), head, seq!['}']);
        lemma_has_part_within(md, json_member("tags"@, json_strings(m.tags)), head, seq!['}']);
        lemma_has_part_within(md, json_member("publishing_date"@, date_text(m.publishing_date)), head, seq!['}']);
        lemma_has_part_within(md, json_member("last_edit_date"@, date_text(m.last_edit_date)), head, seq!['}']);
    }
}

/// The first index page is `all_pages.json`: a JSON array with one entry per
/// page of the bundle, in bundle order, each naming the page's path and,
/// where the page has metadata, its title and its own publishing and last
/// edit dates.
pub proof fn all_pages_lists_each_page_with_its_own_dates(b: Seq<PageView>)
    ensures
        index_pages(b)[0].path == seq!["all_pages.json"@],
        exists|es: Seq<Seq<char>>|
            index_pages(b)[0].body == BodyView::Text(#[trigger] json_array(es)) && es.len() == b.len()
                && forall|k: int| 0 <= k < b.len() ==> entry_describes(#[trigger] es[k], b[k]),
{
    let es = b.map_values(|p: PageView| page_entry_json(p));
    assert(all_pages_json(b) == json_array(es));
    assert forall|k: int| 0 <= k < b.len() implies entry_describes(#[trigger] es[k], b[k]) by {
        lemma_entry_describes(b[k]);
    }
}

/// Where the last occurrence of a character lies in a text.
pub proof fn lemma_last_index_of(s: Seq<char>, c: char)
    ensures
        last_index_of(s, c) matches Some(i) ==> 0 <= i < s.len() && s[i] == c && forall|j: int| i < j < s.len() ==> s[j] != c,
        last_index_of(s, c) is None ==> forall|j: int| 0 <= j < s.len() ==> s[j] != c,
    decreases s.len(),
{
    if s.len() > 0 && s.last() != c {
        lemma_last_index_of(s.drop_last(), c);
        assert forall|j: int| 0 <= j < s.len() - 1 implies s[j] == s.drop_last()[j] by {}
    }
}

/// The markdown stage (whose output `out` is, see `MdStage::process`)
/// renames the file of each page and nothing else of its path: one page
/// per page, in order, each keeping its metadata and every segment of its
/// path but the last. The last segment, where it holds a `.`, has what
/// follows its last `.` replaced by `html`; a last segment without `.` is
/// kept. A literal markdown text becomes its HTML.
pub proof fn markdown_renames_only_the_file(b: Seq<PageView>, out: Seq<PageView>)
    requires
        out == b.map_values(|p: PageView| md_page(p)),
    ensures
        out.len() == b.len(),
        forall|k: int| 0 <= k < b.len() ==> {
            let o = #[trigger] out[k];
            &&& o.metadata == b[k].metadata
            &&& o.path.len() == b[k].path.len()
            &&& forall|i: int| 0 <= i < b[k].path.len() - 1 ==> o.path[i] == b[k].path[i]
            &&& b[k].body matches BodyView::Text(t) ==> o.body == BodyView::Text(markdown_to_html(t))
            &&& !(b[k].body is Text) ==> o.body == BodyView::Markdown(Box::new(b[k].body))
        },
        forall|k: int, d: int|
            0 <= k < b.len() && b[k].path.len() > 0 && 0 <= d < b[k].path.last().len() && b[k].path.last()[d] == '.'
                && (forall|j: int| d < j < b[k].path.last().len() ==> b[k].path.last()[j] != '.')
                ==> out[k].path.last()
                    == (#[trigger] b[k].path.last().take(d)) + seq!['.', 'h', 't', 'm', 'l'],
        forall|k: int|
            0 <= k < b.len() && b[k].path.len() > 0 && (forall|j: int| 0 <= j < b[k].path.last().len() ==> b[k].path.last()[j] != '.')
                ==> (#[trigger] out[k]).path.last() == b[k].path.last(),
{
    assert forall|k: int| 0 <= k < b.len() && b[k].path.len() > 0 implies {
        let l = b[k].path.last();
        &&& last_index_of(l, '.') matches Some(i) ==> 0 <= i < l.len() && l[i] == '.' && forall|j: int| i < j < l.len() ==> l[j] != '.'
        &&& last_index_of(l, '.') is None ==> forall|j: int| 0 <= j < l.len() ==> l[j] != '.'
    } by {
        lemma_last_index_of(b[k].path.last(), '.');
    }
}

/// The text of an optional metadata field, empty where it is not set.
pub open spec fn text_or_nothing(o: Option<Seq<char>>) -> Seq<char> {
    if o is Some {
        o.unwrap()
    } else {
        Seq::empty()
    }
}

/// The parameters a path pattern is rendered with come from the page:
/// its path, reversed path and file name; where it has metadata, its own
/// title, summary, author names, tags, data and dates, with the parts of the
/// publishing date (as chrono writes them) also at the top level; where it
/// has none, empty texts and no values.
#[verifier::spinoff_prover]
#[verifier::rlimit(40)]
pub proof fn path_parameters_come_from_the_page(p: PageView, v: PathParamsView)
    requires
        path_params(p) == Some(v),
    ensures
        v.path == p.path,
        v.rev_path.len() == p.path.len(),
        forall|i: int| 0 <= i < p.path.len() ==> #[trigger] v.rev_path[i] == p.path[p.path.len() - 1 - i],
        v.url_title == uri_friendly(v.title),
        p.path.len() == 0 ==> v.file_name.len() == 0,
        p.path.len() > 0 && (forall|j: int| 0 <= j < p.path.last().len() ==> p.path.last()[j] != '.') ==> v.file_name == p.path.last(),
        forall|d: int|
            p.path.len() > 0 && 0 <= d < p.path.last().len() && p.path.last()[d] == '.'
                && (forall|j: int| d < j < p.path.last().len() ==> p.path.last()[j] != '.')
                ==> v.file_name == #[trigger] p.path.last().take(d),
        p.metadata is None ==> {
            &&& v.title.len() == 0 && v.summary.len() == 0
            &&& v.authors is None && v.tags is None && v.data is None
            &&& v.publishing_date is None && v.last_edit_date is None
            &&& v.timestamp is None && v.i_year is None && v.short_year.len() == 0 && v.month.len() == 0 && v.day.len() == 0
        },
        p.metadata matches Some(m) ==> {
            &&& v.title == text_or_nothing(m.title)
            &&& v.summary == text_or_nothing(m.summary)
            &&& v.authors matches Some(a) && a.len() == m.authors.len() && forall|i: int| 0 <= i < a.len() ==> #[trigger] a[i] == m.authors[i].name
            &&& v.tags == Some(m.tags)
            &&& v.data == Some(m.data)
            &&& v.timestamp == m.publishing_date
            &&& (v.publishing_date is Some) == (m.publishing_date is Some)
            &&& (v.last_edit_date is Some) == (m.last_edit_date is Some)
            &&& v.last_edit_date matches Some(d) ==> d.timestamp == m.last_edit_date.unwrap()
            &&& m.publishing_date is None ==> v.i_year is None && v.short_year.len() == 0 && v.month.len() == 0 && v.day.len() == 0
                && v.long_month.len() == 0 && v.i_second is None
        },
        v.publishing_date matches Some(d) ==> {
            &&& d.timestamp == p.metadata.unwrap().publishing_date.unwrap()
            &&& d.i_year == formatted_timestamp(d.timestamp, "%Y"@).unwrap()
            &&& d.month == formatted_timestamp(d.timestamp, "%m"@).unwrap()
            &&& d.day == formatted_timestamp(d.timestamp, "%d"@).unwrap()
            &&& v.i_year == Some(d.i_year) && v.short_year == d.short_year && v.i_month == Some(d.i_month)
            &&& v.month == d.month && v.short_month == d.short_month && v.long_month == d.long_month
            &&& v.i_day == Some(d.i_day) && v.day == d.day && v.short_day == d.short_day && v.long_day == d.long_day
            &&& v.i_hour == Some(d.i_hour) && v.i_minute == Some(d.i_minute) && v.i_second == Some(d.i_second)
        },
{
    reveal(with_flat_date);
    if p.path.len() > 0 {
        lemma_last_index_of(p.path.last(), '.');
    }
}

/// Whether a text names three parts.
pub open spec fn names_three(t: Seq<char>, a: Seq<char>, u: Seq<char>, s: Seq<char>) -> bool {
    has_part(t, a) && has_part(t, u) && has_part(t, s)
}

proof fn lemma_names_three_extend(x: Seq<char>, y: Seq<char>, a: Seq<char>, u: Seq<char>, s: Seq<char>)
    requires
        names_three(x, a, u, s),
    ensures
        names_three(x + y, a, u, s),
{
    lemma_has_part_within(x, a, Seq::empty(), y);
    lemma_has_part_within(x, u, Seq::empty(), y);
    lemma_has_part_within(x, s, Seq::empty(), y);
    assert(Seq::<char>::empty() + x + y =~= x + y);
}

/// The JSON a path pattern is rendered with names the title, the URI form
/// of the title and the summary of the parameters.
#[verifier::spinoff_prover]
#[verifier::rlimit(40)]
pub proof fn path_parameters_json_names_them(v: PathParamsView)
    ensures
        names_three(
            params_json(v),
            json_member("title"@, json_string(v.title)),
            json_member("url_title"@, json_string(v.url_title)),
            json_member("summary"@, json_string(v.summary)),
        ),
{
    let a = json_member("title"@, json_string(v.title));
    let u = json_member("url_title"@, json_string(v.url_title));
    let sm = json_member("summary"@, json_string(v.summary));
    let x0 = seq!['{'] + a + seq![','] + u + seq![','] + sm;
    assert(x0 =~= seq!['{'] + a + (seq![','] + u + seq![','] + sm));
    lemma_has_middle(seq!['{'], a, seq![','] + u + seq![','] + sm);
    assert(x0 =~= (seq!['{'] + a + seq![',']) + u + (seq![','] + sm));
    lemma_has_middle(seq!['{'] + a + seq![','], u, seq![','] + sm);
    assert(x0 =~= (seq!['{'] + a + seq![','] + u + seq![',']) + sm + Seq::<char>::empty());
    lemma_has_middle(seq!['{'] + a + seq![','] + u + seq![','], sm, Seq::<char>::empty());
    let x1 = x0 + seq![','];
    lemma_names_three_extend(x0, seq![','], a, u, sm);
    let x2 = x1 + json_member("authors"@, opt_strings_json(v.authors));
    lemma_names_three_extend(x1, json_member("authors"@, opt_strings_json(v.authors)), a, u, sm);
    let x3 = x2 + seq![','];
    lemma_names_three_extend(x2, seq![','], a, u, sm);
    let x4 = x3 + json_member("tags"@, opt_strings_json(v.tags));
    lemma_names_three_extend(x3, json_member("tags"@, opt_strings_json(v.tags)), a, u, sm);
    let x5 = x4 + flat_date_json(v);
    lemma_names_three_extend(x4, flat_date_json(v), a, u, sm);
    let x6 = x5 + seq![','];
    lemma_names_three_extend(x5, seq![','], a, u, sm);
    let x7 = x6 + json_member("publishing_date"@, opt_date_json(v.publishing_date));
    lemma_names_three_extend(x6, json_member("publishing_date"@, opt_date_json(v.publishing_date)), a, u, sm);
    let x8 = x7 + seq![','];
    lemma_names_three_extend(x7, seq![','], a, u, sm);
    let x9 = x8 + json_member("last_edit_date"@, opt_date_json(v.last_edit_date));
    lemma_names_three_extend(x8, json_member("last_edit_date"@, opt_date_json(v.last_edit_date)), a, u, sm);
    let x10 = x9 + seq![','];
    lemma_names_three_extend(x9, seq![','], a, u, sm);
    let x11 = x10 + json_member("data"@, opt_data_json(v.data));
    lemma_names_three_extend(x10, json_member("data"@, opt_data_json(v.data)), a, u, sm);
    let x12 = x11 + seq![','];
    lemma_names_three_extend(x11, seq![','], a, u, sm);
    let x13 = x12 + json_member("path"@, json_strings(v.path));
    lemma_names_three_extend(x12, json_member("path"@, json_strings(v.path)), a, u, sm);
    let x14 = x13 + seq![','];
    lemma_names_three_extend(x13, seq![','], a, u, sm);
    let x15 = x14 + json_member("rev_path"@, json_strings(v.rev_path));
    lemma_names_three_extend(x14, json_member("rev_path"@, json_strings(v.rev_path)), a, u, sm);
    let x16 = x15 + seq![','];
    lemma_names_three_extend(x15, seq![','], a, u, sm);
    let x17 = x16 + json_member("file_name"@, json_string(v.file_name));
    lemma_names_three_extend(x16, json_member("file_name"@, json_string(v.file_name)), a, u, sm);
    let x18 = x17 + seq!['}'];
    lemma_names_three_extend(x17, seq!['}'], a, u, sm);
    assert(params_json(v) == x18);
}

/// Whether `a` is the author of commit `c`: its name (empty where the
/// commit has none) and its email as its only contact (none where the commit
/// has none).
pub open spec fn is_commit_author(a: AuthorView, c: CommitInfo) -> bool {
    &&& a.name == (if c.author_name is Some { c.author_name.unwrap()@ } else { Seq::empty() })
    &&& (c.author_email is Some ==> a.contacts == seq![c.author_email.unwrap()@])
    &&& (c.author_email is None ==> a.contacts.len() == 0)
}

/// When a commit changes the file of a page that waits for one, the page
/// leaves the waiting pages and is updated, keeping its path and body.
/// Under the metadata rule it keeps every field of its metadata (none
/// counting as empty metadata) but two: its authors, set to the commit's
/// author where it had none, and its last edit date, set to the commit's
/// time where it had none. Under the authors rule its authors become the
/// commit's author and its dates are cleared; the other fields are kept.
#[verifier::spinoff_prover]
#[verifier::rlimit(40)]
pub proof fn blamed_pages_keep_what_the_rule_does_not_set(rule: BlameRule, s: BlameView, c: CommitInfo, f: Seq<char>, i: int)
    requires
        key_index(s.pending, f) == Some(i),
    ensures
        0 <= i < s.pending.len(),
        blame_file(rule, s, c, f).pending == s.pending.remove(i),
        blame_file(rule, s, c, f).done.len() == s.done.len() + 1,
        blame_file(rule, s, c, f).done.drop_last() == s.done,
        ({
            let p = s.pending[i].1;
            let q = blame_file(rule, s, c, f).done.last();
            let m = if p.metadata is Some { p.metadata.unwrap() } else { crate::pages::empty_metadata_view() };
            &&& q.path == p.path
            &&& q.body == p.body
            &&& q.metadata is Some
            &&& q.metadata.unwrap().title == m.title
            &&& q.metadata.unwrap().summary == m.summary
            &&& q.metadata.unwrap().tags == m.tags
            &&& q.metadata.unwrap().data == m.data
            &&& rule == BlameRule::Metadata ==> {
                &&& q.metadata.unwrap().publishing_date == m.publishing_date
                &&& m.authors.len() > 0 ==> q.metadata.unwrap().authors == m.authors
                &&& m.authors.len() == 0 ==> q.metadata.unwrap().authors.len() == 1 && is_commit_author(q.metadata.unwrap().authors[0], c)
                &&& m.last_edit_date is Some ==> q.metadata.unwrap().last_edit_date == m.last_edit_date
                &&& m.last_edit_date is None ==> q.metadata.unwrap().last_edit_date == Some(c.time)
            }
            &&& rule == BlameRule::Authors ==> {
                &&& q.metadata.unwrap().authors.len() == 1 && is_commit_author(q.metadata.unwrap().authors[0], c)
                &&& q.metadata.unwrap().publishing_date is None
                &&& q.metadata.unwrap().last_edit_date is None
            }
        }),
{
    lemma_key_index(s.pending, f);
    assert(blame_file(rule, s, c, f).done.drop_last() =~= s.done);
}

proof fn lemma_key_index(es: Seq<(Seq<char>, PageView)>, key: Seq<char>)
    ensures
        key_index(es, key) matches Some(i) ==> 0 <= i < es.len() && es[i].0 == key,
    decreases es.len(),
{
    if es.len() > 0 && es.last().0 != key {
        lemma_key_index(es.drop_last(), key);
    }
}

/// What each shadow candidate of a page is: the page, a loader whose
/// extension ends the page's name, and the page's path without that
/// extension.
proof fn lemma_page_candidate_shape(i: int, path: Seq<Seq<char>>, exts: Seq<Seq<char>>, j: int)
    requires
        0 <= i <= usize::MAX,
        exts.len() <= usize::MAX,
    ensures
        forall|t: int| 0 <= t < page_candidates(i, path, exts, j).len() ==> {
            let x = #[trigger] page_candidates(i, path, exts, j)[t];
            &&& x.0 as int == i
            &&& 0 <= x.1 < exts.len()
            &&& path.len() > 0
            &&& ends_with_spec(path.last(), exts[x.1 as int])
            &&& x.2 == path.drop_last().push(path.last().take(path.last().len() - exts[x.1 as int].len()))
        },
    decreases exts.len() - j,
{
    if !(j < 0 || j >= exts.len() || path.len() == 0) {
        lemma_page_candidate_shape(i, path, exts, j + 1);
        let rest = page_candidates(i, path, exts, j + 1);
        if ends_with_spec(path.last(), exts[j]) {
            let first = (i as usize, j as usize, crate::shadow::strip_last(path, exts[j].len() as int));
            assert(page_candidates(i, path, exts, j) == seq![first] + rest);
            assert(first.0 as int == i);
            assert(first.1 as int == j);
            assert forall|t: int| 0 <= t < page_candidates(i, path, exts, j).len() implies {
                let x = #[trigger] page_candidates(i, path, exts, j)[t];
                &&& x.0 as int == i
                &&& 0 <= x.1 < exts.len()
                &&& path.len() > 0
                &&& ends_with_spec(path.last(), exts[x.1 as int])
                &&& x.2 == path.drop_last().push(path.last().take(path.last().len() - exts[x.1 as int].len()))
            } by {
                if t > 0 {
                    assert(page_candidates(i, path, exts, j)[t] == rest[t - 1]);
                }
            }
        }
    }
}

proof fn lemma_candidate_shape(b: Seq<PageView>, exts: Seq<Seq<char>>, n: int)
    requires
        b.len() <= usize::MAX,
        exts.len() <= usize::MAX,
    ensures
        forall|t: int| 0 <= t < all_candidates(b, exts, n).len() ==> {
            let x = #[trigger] all_candidates(b, exts, n)[t];
            &&& 0 <= x.0 < b.len()
            &&& 0 <= x.1 < exts.len()
            &&& b[x.0 as int].path.len() > 0
            &&& ends_with_spec(b[x.0 as int].path.last(), exts[x.1 as int])
            &&& x.2 == b[x.0 as int].path.drop_last().push(
                b[x.0 as int].path.last().take(b[x.0 as int].path.last().len() - exts[x.1 as int].len()),
            )
        },
    decreases n,
{
    if !(n <= 0 || n > b.len()) {
        lemma_candidate_shape(b, exts, n - 1);
        lemma_page_candidate_shape(n - 1, b[n - 1].path, exts, 0);
        let prev = all_candidates(b, exts, n - 1);
        let pc = page_candidates(n - 1, b[n - 1].path, exts, 0);
        assert forall|t: int| 0 <= t < all_candidates(b, exts, n).len() implies {
            let x = #[trigger] all_candidates(b, exts, n)[t];
            &&& 0 <= x.0 < b.len()
            &&& 0 <= x.1 < exts.len()
            &&& b[x.0 as int].path.len() > 0
            &&& ends_with_spec(b[x.0 as int].path.last(), exts[x.1 as int])
            &&& x.2 == b[x.0 as int].path.drop_last().push(
                b[x.0 as int].path.last().take(b[x.0 as int].path.last().len() - exts[x.1 as int].len()),
            )
        } by {
            if t < prev.len() {
                assert(all_candidates(b, exts, n)[t] == prev[t]);
            } else {
                assert(all_candidates(b, exts, n)[t] == pc[t - prev.len()]);
            }
        }
    }
}

/// A shadow file that describes nothing is kept: where each loader whose
/// extension ends the name of the page at `k` would describe, by the page's
/// path without that extension, neither the root (`pages`) nor a page or
/// directory of the bundle (a prefix of some page's path), that page stays
/// in the output with its path and body, whatever metadata was loaded.
#[verifier::spinoff_prover]
#[verifier::rlimit(40)]
pub proof fn shadow_files_that_describe_nothing_are_kept(b: Seq<PageView>, exts: Seq<Seq<char>>, k: int, ms: Seq<MetadataView>)
    requires
        b.len() <= usize::MAX,
        exts.len() <= usize::MAX,
        0 <= k < b.len(),
        forall|j: int|
            0 <= j < exts.len() && b[k].path.len() > 0 && #[trigger] ends_with_spec(b[k].path.last(), exts[j]) ==> {
                let q = b[k].path.drop_last().push(b[k].path.last().take(b[k].path.last().len() - exts[j].len()));
                &&& q != seq!["pages"@]
                &&& forall|i: int| 0 <= i < b.len() ==> !is_prefix_of(q, #[trigger] b[i].path)
            },
    ensures
        exists|o: int|
            0 <= o < shadow_output(b, retained_candidates(b, exts), ms).len()
                && (#[trigger] shadow_output(b, retained_candidates(b, exts), ms)[o]).path == b[k].path
                && shadow_output(b, retained_candidates(b, exts), ms)[o].body == b[k].body,
{
    broadcast use vstd::seq_lib::group_filter_ensures;
    let all = all_candidates(b, exts, b.len() as int);
    let cands = retained_candidates(b, exts);
    let keep = |c: (usize, usize, Seq<Seq<char>>)| c.2 == crate::shadow::root_metadata_path() || crate::shadow::covered(b, c.2);
    assert(cands == all.filter(keep));
    lemma_candidate_shape(b, exts, b.len() as int);
    let shadow_paths = cands.map_values(|c: (usize, usize, Seq<Seq<char>>)| b[c.0 as int].path);
    assert(!shadow_paths.contains(b[k].path)) by {
        if shadow_paths.contains(b[k].path) {
            let t = choose|t: int| 0 <= t < shadow_paths.len() && shadow_paths[t] == b[k].path;
            let x = cands[t];
            assert(keep(x));
            all.lemma_filter_contains_rev(keep, x);
            let u = choose|u: int| 0 <= u < all.len() && all[u] == x;
            assert(all[u] == x);
            let j = x.1 as int;
            assert(b[x.0 as int].path == b[k].path);
            assert(ends_with_spec(b[k].path.last(), exts[j]));
            if x.2 == crate::shadow::root_metadata_path() {
                assert(false);
            } else {
                let i = choose|i: int| 0 <= i < b.len() && is_prefix_of(x.2, #[trigger] b[i].path);
                assert(!is_prefix_of(x.2, b[i].path));
            }
        }
    }
    let pass = |p: PageView| !shadow_paths.contains(p.path);
    b.lemma_filter_contains(pass, k);
    let kept = b.filter(pass);
    let o = choose|o: int| 0 <= o < kept.len() && kept[o] == b[k];
    let out = shadow_output(b, cands, ms);
    assert(out == kept.map_values(|p: PageView| shadowed_page(p, entries(cands, ms))));
    assert(out[o] == shadowed_page(b[k], entries(cands, ms)));
}

proof fn lemma_add_new(acc: Seq<Seq<char>>, xs: Seq<Seq<char>>)
    ensures
        forall|x: Seq<char>| #[trigger] add_new(acc, xs).contains(x) <==> acc.contains(x) || xs.contains(x),
        acc.no_duplicates() ==> add_new(acc, xs).no_duplicates(),
    decreases xs.len(),
{
    if xs.len() > 0 {
        lemma_add_new(acc, xs.drop_last());
        let a = add_new(acc, xs.drop_last());
        assert forall|x: Seq<char>| #[trigger] add_new(acc, xs).contains(x) <==> acc.contains(x) || xs.contains(x) by {
            if xs.contains(x) && !xs.drop_last().contains(x) {
                let i = choose|i: int| 0 <= i < xs.len() && xs[i] == x;
                if i < xs.len() - 1 {
                    assert(xs.drop_last()[i] == x);
                }
                if !a.contains(x) {
                    assert(a.push(x)[a.len() as int] == x);
                }
            }
            if xs.drop_last().contains(x) {
                let i = choose|i: int| 0 <= i < xs.drop_last().len() && xs.drop_last()[i] == x;
                assert(xs[i] == x);
            }
            if !a.contains(xs.last()) && add_new(acc, xs).contains(x) {
                let i = choose|i: int| 0 <= i < a.push(xs.last()).len() && a.push(xs.last())[i] == x;
                if i < a.len() {
                    assert(a[i] == x);
                }
            }
            if a.contains(x) && !a.contains(xs.last()) {
                let i = choose|i: int| 0 <= i < a.len() && a[i] == x;
                assert(a.push(xs.last())[i] == x);
            }
        }
    }
}

/// The tags that the pages of a bundle carry.
pub open spec fn carries_tag(b: Seq<PageView>, t: Seq<char>) -> bool {
    exists|k: int| 0 <= k < b.len() && #[trigger] b[k].metadata is Some && b[k].metadata.unwrap().tags.contains(t)
}

proof fn lemma_all_tags(b: Seq<PageView>)
    ensures
        forall|t: Seq<char>| #[trigger] all_tags(b).contains(t) <==> carries_tag(b, t),
        all_tags(b).no_duplicates(),
    decreases b.len(),
{
    if b.len() > 0 {
        lemma_all_tags(b.drop_last());
        let prev = all_tags(b.drop_last());
        if let Some(m) = b.last().metadata {
            lemma_add_new(prev, m.tags);
        }
        assert forall|t: Seq<char>| #[trigger] all_tags(b).contains(t) <==> carries_tag(b, t) by {
            if carries_tag(b.drop_last(), t) {
                let k = choose|k: int| 0 <= k < b.drop_last().len() && #[trigger] b.drop_last()[k].metadata is Some
                    && b.drop_last()[k].metadata.unwrap().tags.contains(t);
                assert(b[k] == b.drop_last()[k]);
            }
            if carries_tag(b, t) {
                let k = choose|k: int| 0 <= k < b.len() && #[trigger] b[k].metadata is Some && b[k].metadata.unwrap().tags.contains(t);
                if k < b.len() - 1 {
                    assert(b.drop_last()[k] == b[k]);
                }
            }
            if b.last().metadata is Some && b.last().metadata.unwrap().tags.contains(t) {
                assert(b[b.len() - 1] == b.last());
            }
        }
    }
}

/// The third index page is `all_tags.json`: a JSON array of texts holding
/// each tag that some page of the bundle carries, once, and no other.
pub proof fn all_tags_lists_each_tag_once(b: Seq<PageView>)
    ensures
        index_pages(b)[2].path == seq!["all_tags.json"@],
        exists|ts: Seq<Seq<char>>|
            index_pages(b)[2].body == BodyView::Text(#[trigger] json_strings(ts)) && ts.no_duplicates()
                && forall|t: Seq<char>| #[trigger] ts.contains(t) <==> carries_tag(b, t),
{
    lemma_all_tags(b);
    assert(index_pages(b)[2].body == BodyView::Text(json_strings(all_tags(b))));
}

/// The paths of the pages of a bundle that carry a tag, in bundle order.
pub open spec fn tag_holders(b: Seq<PageView>, t: Seq<char>) -> Seq<Seq<Seq<char>>> {
    b.filter(|p: PageView| p.metadata is Some && p.metadata.unwrap().tags.contains(t)).map_values(|p: PageView| p.path)
}

/// The JSON member of a tag in the pages by tag: the tag, then the list of
/// the paths of the pages that carry it.
pub open spec fn tag_member(b: Seq<PageView>, t: Seq<char>) -> Seq<char> {
    json_member(t, json_array(tag_holders(b, t).map_values(|q: Seq<Seq<char>>| json_strings(q))))
}

/// The members of the tags `ts`, in order.
pub open spec fn tag_members(b: Seq<PageView>, ts: Seq<Seq<char>>) -> Seq<Seq<char>> {
    ts.map_values(|t: Seq<char>| tag_member(b, t))
}

/// The fourth index page is `pages_by_tag.json`: a JSON object with one
/// member per tag that some page carries, each tag once, whose value lists
/// the paths of the pages carrying the tag, in bundle order.
#[verifier::spinoff_prover]
#[verifier::rlimit(40)]
pub proof fn pages_by_tag_lists_the_pages_of_each_tag(b: Seq<PageView>)
    ensures
        index_pages(b)[3].path == seq!["pages_by_tag.json"@],
        exists|ts: Seq<Seq<char>>|
            index_pages(b)[3].body == BodyView::Text(crate::json::json_object(#[trigger] tag_members(b, ts)))
                && ts.no_duplicates() && forall|t: Seq<char>| #[trigger] ts.contains(t) <==> carries_tag(b, t),
{
    lemma_all_tags(b);
    let ts = all_tags(b);
    assert forall|i: int| 0 <= i < ts.len() implies json_member(
        ts[i],
        crate::indexes::paths_json(crate::bundle::paths_of(b.filter(|p: PageView| crate::helpers::tagged(p, ts[i])))),
    ) == #[trigger] tag_member(b, ts[i]) by {
        let t = ts[i];
        assert((|p: PageView| crate::helpers::tagged(p, t)) =~= (|p: PageView| p.metadata is Some && p.metadata.unwrap().tags.contains(t)));
        assert(crate::indexes::paths_json(crate::bundle::paths_of(b.filter(|p: PageView| crate::helpers::tagged(p, t))))
            =~= json_array(tag_holders(b, t).map_values(|q: Seq<Seq<char>>| json_strings(q))));
    }
    assert(ts.map_values(|t: Seq<char>| json_member(t, crate::indexes::paths_json(crate::bundle::paths_of(b.filter(|p: PageView| crate::helpers::tagged(p, t))))))
        =~= tag_members(b, ts));
}

} // verus!
