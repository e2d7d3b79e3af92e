//! Handlebars templates: which template renders a page, how the files of a
//! template directory are understood, and what a template stage makes of a
//! bundle. Rendering itself is left to the handlebars crate.
use vstd::prelude::*;
use crate::git::join_path;
use crate::md::last_index_of;
use crate::metadata::contains_string;

use crate::strings::{chars_of, copy_string, copy_strings, ends_with, ends_with_spec, lemma_push_deep_view, push_str, starts_with, starts_with_spec, string_of_range};
use crate::git::join_segments;

verus! {

/// The first `i` segments of a path joined with `/`, followed by `/` where
/// that is not empty.
pub open spec fn dir_prefix(v: Seq<Seq<char>>, i: int) -> Seq<char> {
    let j = join_path(v.take(i));
    if j.len() > 0 {
        j + seq!['/']
    } else {
        j
    }
}

/// The text `page`.
pub open spec fn page_word() -> Seq<char> {
    seq!['p', 'a', 'g', 'e']
}

/// The template names tried for a page at `path`, in order: the page's own
/// template `<dir>/page.<name>`, the template of its directory
/// `<dir>/page`, then that of each enclosing directory, innermost first.
pub open spec fn tpl_candidates(path: Seq<Seq<char>>) -> Seq<Seq<char>>
    recommends
        path.len() > 0,
{
    let l = path.len() as int;
    seq![dir_prefix(path, l - 1) + page_word() + seq!['.'] + path[l - 1], dir_prefix(path, l - 1) + page_word()]
        + Seq::new((l - 1) as nat, |k: int| dir_prefix(path, l - 2 - k) + page_word())
}

/// The first candidate that is a known template name.
pub open spec fn first_known(cands: Seq<Seq<char>>, names: Seq<Seq<char>>) -> Option<Seq<char>>
    decreases cands.len(),
{
    if cands.len() == 0 {
        None
    } else if names.contains(cands[0]) {
        Some(cands[0])
    } else {
        first_known(cands.drop_first(), names)
    }
}

/// The page template that renders a page at `path`, among the known names.
pub open spec fn page_template(path: Seq<Seq<char>>, names: Seq<Seq<char>>) -> Option<Seq<char>> {
    first_known(tpl_candidates(path), names)
}

/// Returns the first `i` segments of a path joined with `/`, followed by
/// `/` where that is not empty.
pub fn path_join(v: &Vec<String>, i: usize) -> (r: String)
    requires
        i <= v.len(),
    ensures
        r@ == dir_prefix(v.deep_view(), i as int),
{
    let mut head: Vec<String> = Vec::new();
    let mut k: usize = 0;
    while k < i
        invariant
            k <= i <= v.len(),
            head.deep_view() == v.deep_view().take(k as int),
        decreases i - k,
    {
        let ghost before = head;
        let s = copy_string(&v[k]);
        head.push(s);
        proof {
            lemma_push_deep_view(before, head, s);
            assert(head.deep_view() =~= v.deep_view().take(k + 1));
        }
        k = k + 1;
    }
    let mut c = join_segments(&head);
    if c.unicode_len() > 0 {
        push_str(&mut c, "/");
        proof {
            reveal_strlit("/");
        }
    }
    c
}

/// Returns the page template that renders a page at `path`, among the known
/// template names: the first of [`tpl_candidates`] that is known.
pub fn fetch_page_tpl_name(names: &Vec<String>, path: &Vec<String>) -> (r: Option<String>)
    requires
        path.len() > 0,
    ensures
        r.is_some() == page_template(path.deep_view(), names.deep_view()).is_some(),
        r.is_some() ==> r.unwrap()@ == page_template(path.deep_view(), names.deep_view()).unwrap(),
{
    let ghost pv = path.deep_view();
    let ghost nv = names.deep_view();
    let ghost cands = tpl_candidates(pv);
    let l = path.len();
    let c = path_join(path, l - 1);
    let mut c1 = copy_string(&c);
    push_str(&mut c1, "page.");
    push_str(&mut c1, path[l - 1].as_str());
    proof {
        reveal_strlit("page.");
        assert(c1@ =~= cands[0]);
        assert(cands.drop_first()[0] == cands[1]);
    }
    if contains_string(names, &c1) {
        return Some(c1);
    }
    let mut c2 = copy_string(&c);
    push_str(&mut c2, "page");
    proof {
        reveal_strlit("page");
        assert(c2@ =~= cands[1]);
    }
    if contains_string(names, &c2) {
        proof {
            assert(!nv.contains(cands[0]));
            assert(first_known(cands, nv) == first_known(cands.drop_first(), nv));
            assert(cands.drop_first()[0] == c2@);
            assert(first_known(cands.drop_first(), nv) == Some(c2@));
        }
        return Some(c2);
    }
    let mut i = l - 1;
    proof {
        assert(first_known(cands, nv) == first_known(cands.skip(2), nv)) by {
            assert(cands.drop_first().drop_first() =~= cands.skip(2));
        }
    }
    while i > 0
        invariant
            0 <= i <= l - 1,
            l == path.len(),
            pv == path.deep_view(),
            nv == names.deep_view(),
            cands == tpl_candidates(pv),
            first_known(cands, nv) == first_known(cands.skip(2 + (l - 1 - i)), nv),
        decreases i,
    {
        let ghost rest = cands.skip(2 + (l - 1 - i));
        proof {
            assert(rest[0] == cands[2 + (l - 1 - i)]);
            assert(rest.drop_first() =~= cands.skip(2 + (l - 1 - i) + 1));
        }
        let mut ci = path_join(path, i - 1);
        push_str(&mut ci, "page");
        proof {
            reveal_strlit("page");
            assert(ci@ =~= rest[0]);
        }
        if contains_string(names, &ci) {
            return Some(ci);
        }
        i = i - 1;
    }
    proof {
        assert(cands.skip(2 + (l - 1)) =~= Seq::<Seq<char>>::empty());
    }
    None
}

/// The extension of a file name as std's `Path::extension` gives it: what
/// follows the last `.`, unless the name has no `.` or only a leading one.
pub open spec fn extension(name: Seq<char>) -> Option<Seq<char>> {
    match last_index_of(name, '.') {
        Some(i) => if i > 0 {
            Some(name.skip(i + 1))
        } else {
            None
        },
        None => None,
    }
}

/// Whether a file name has the extension `hbs`.
pub open spec fn is_hbs(name: Seq<char>) -> bool {
    extension(name) == Some("hbs"@)
}

/// How a file of a template directory is understood.
#[derive(Debug)]
pub enum TemplateFile {
    /// `page.hbs` or `page.<page name>.hbs`: a page template, registered under
    /// its relative path without `.hbs`.
    PageTemplate { tpl_name: String },
    /// `asset.<name>.hbs`: an asset template at `asset_path` (the directory
    /// and `<name>`), registered under that path joined with `/`.
    AssetTemplate { asset_path: Vec<String>, tpl_name: String },
    /// `asset.<name>.hbs.json`: the JSON description of the asset `tpl_name`.
    AssetMetaJson { tpl_name: String },
    /// `asset.<name>.hbs.yaml`: the YAML description of the asset `tpl_name`.
    AssetMetaYaml { tpl_name: String },
    /// Any other `.hbs` file: a template (such as a partial) registered under
    /// its relative path without `.hbs`.
    Partial { tpl_name: String },
    /// Any other file: copied as is.
    Static,
}

/// Mathematical view of a [`TemplateFile`].
pub enum TemplateFileView {
    PageTemplate { tpl_name: Seq<char> },
    AssetTemplate { asset_path: Seq<Seq<char>>, tpl_name: Seq<char> },
    AssetMetaJson { tpl_name: Seq<char> },
    AssetMetaYaml { tpl_name: Seq<char> },
    Partial { tpl_name: Seq<char> },
    Static,
}

impl DeepView for TemplateFile {
    type V = TemplateFileView;

    open spec fn deep_view(&self) -> TemplateFileView {
        match self {
            TemplateFile::PageTemplate { tpl_name } => TemplateFileView::PageTemplate { tpl_name: tpl_name@ },
            TemplateFile::AssetTemplate { asset_path, tpl_name } => TemplateFileView::AssetTemplate {
                asset_path: asset_path.deep_view(),
                tpl_name: tpl_name@,
            },
            TemplateFile::AssetMetaJson { tpl_name } => TemplateFileView::AssetMetaJson { tpl_name: tpl_name@ },
            TemplateFile::AssetMetaYaml { tpl_name } => TemplateFileView::AssetMetaYaml { tpl_name: tpl_name@ },
            TemplateFile::Partial { tpl_name } => TemplateFileView::Partial { tpl_name: tpl_name@ },
            TemplateFile::Static => TemplateFileView::Static,
        }
    }
}

/// A relative path joined with `/`, without its last 4 characters (`.hbs`).
pub open spec fn hbs_template_name(rel: Seq<Seq<char>>) -> Seq<char> {
    let j = join_path(rel);
    j.take(j.len() - 4)
}

/// The asset path of an asset file: its directory, then its name without
/// the `asset.` prefix and a suffix of `n` characters.
pub open spec fn asset_path_of(rel: Seq<Seq<char>>, n: int) -> Seq<Seq<char>> {
    rel.drop_last().push(rel.last().subrange(6, rel.last().len() - n))
}

/// Whether a name starts with `asset.`.
pub open spec fn is_asset_name(name: Seq<char>) -> bool {
    starts_with_spec(name, "asset."@)
}

/// Whether a file at a relative path is classified without failing: the
/// asset names are long enough to hold a name between prefix and suffix.
pub open spec fn classifiable(rel: Seq<Seq<char>>, with_meta: bool) -> bool {
    let name = rel.last();
    &&& rel.len() > 0
    &&& !starts_with_spec(name, "page."@) || !is_hbs(name) ==> (is_asset_name(name) && is_hbs(name) ==> name.len() >= 10)
    &&& with_meta && is_asset_name(name) && !is_hbs(name) && ends_with_spec(name, ".hbs.json"@) ==> name.len() >= 15
    &&& with_meta && is_asset_name(name) && !is_hbs(name) && ends_with_spec(name, ".hbs.yaml"@) ==> name.len() >= 15
}

/// How a file at a relative path (its last segment being its name) is
/// understood; asset descriptions are recognised only `with_meta`.
pub open spec fn classify_view(rel: Seq<Seq<char>>, with_meta: bool) -> TemplateFileView {
    let name = rel.last();
    if starts_with_spec(name, "page."@) && is_hbs(name) {
        TemplateFileView::PageTemplate { tpl_name: hbs_template_name(rel) }
    } else if is_asset_name(name) && is_hbs(name) && name.len() > 8 {
        TemplateFileView::AssetTemplate { asset_path: asset_path_of(rel, 4), tpl_name: join_path(asset_path_of(rel, 4)) }
    } else if with_meta && is_asset_name(name) && ends_with_spec(name, ".hbs.json"@) {
        TemplateFileView::AssetMetaJson { tpl_name: join_path(asset_path_of(rel, 9)) }
    } else if with_meta && is_asset_name(name) && ends_with_spec(name, ".hbs.yaml"@) {
        TemplateFileView::AssetMetaYaml { tpl_name: join_path(asset_path_of(rel, 9)) }
    } else if is_hbs(name) {
        TemplateFileView::Partial { tpl_name: hbs_template_name(rel) }
    } else {
        TemplateFileView::Static
    }
}

/// Whether a file name has the extension `hbs`.
pub fn has_hbs_extension(name: &String) -> (r: bool)
    ensures
        r == is_hbs(name@),
{
    let cs = chars_of(name.as_str());
    let ghost hbs = "hbs"@;
    proof {
        reveal_strlit("hbs");
    }
    match crate::md::rfind_char(name.as_str(), '.') {
        Some(i) => {
            if i == 0 {
                return false;
            }
            let n = cs.len();
            if n - (i + 1) != 3 {
                proof {
                    assert(name@.skip(i + 1).len() != hbs.len());
                }
                return false;
            }
            let r = cs[i + 1] == 'h' && cs[i + 2] == 'b' && cs[i + 3] == 's';
            proof {
                if r {
                    assert(name@.skip(i + 1) =~= hbs);
                } else {
                    assert(name@.skip(i + 1) != hbs) by {
                        if name@.skip(i + 1) == hbs {
                            assert(name@.skip(i + 1)[0] == cs[i + 1]);
                            assert(name@.skip(i + 1)[1] == cs[i + 2]);
                            assert(name@.skip(i + 1)[2] == cs[i + 3]);
                        }
                    }
                }
            }
            r
        },
        None => false,
    }
}

/// Returns a relative path joined with `/`, without its last 4 characters.
fn make_hbs_template_name(rel: &Vec<String>) -> (r: String)
    requires
        join_path(rel.deep_view()).len() >= 4,
    ensures
        r@ == hbs_template_name(rel.deep_view()),
{
    let j = join_segments(rel);
    let cs = chars_of(j.as_str());
    string_of_range(&cs, 0, cs.len() - 4)
}

/// Returns the asset path of an asset file.
fn make_asset_path(rel: &Vec<String>, n: usize) -> (r: Vec<String>)
    requires
        rel.len() > 0,
        6 <= rel.deep_view().last().len() - n,
    ensures
        r.deep_view() == asset_path_of(rel.deep_view(), n as int),
{
    let mut r = copy_strings(rel);
    let last = rel.len() - 1;
    let cs = chars_of(rel[last].as_str());
    let seg = string_of_range(&cs, 6, cs.len() - n);
    r.set(last, seg);
    proof {
        assert(r.deep_view() =~= asset_path_of(rel.deep_view(), n as int));
    }
    r
}

/// A position found by [`last_index_of`] lies inside the text.
proof fn lemma_last_index_in_bounds(s: Seq<char>, c: char)
    ensures
        last_index_of(s, c) matches Some(i) ==> 0 <= i < s.len(),
    decreases s.len(),
{
    if s.len() > 0 && s.last() != c {
        lemma_last_index_in_bounds(s.drop_last(), c);
    }
}

/// A name with the extension `hbs` has at least five characters: one before
/// the dot, the dot, and the extension.
proof fn lemma_hbs_name_len(name: Seq<char>)
    requires
        is_hbs(name),
    ensures
        name.len() >= 5,
{
    reveal_strlit("hbs");
    lemma_last_index_in_bounds(name, '.');
    let i = last_index_of(name, '.').unwrap();
    assert(name.skip(i + 1).len() == 3);
}

/// The join of a path ends with the path's last segment.
proof fn lemma_join_ends_with_last(path: Seq<Seq<char>>)
    requires
        path.len() > 0,
    ensures
        ends_with_spec(join_path(path), path.last()),
{
    let j = join_path(path);
    if path.len() > 1 {
        assert(j == join_path(path.drop_last()) + seq!['/'] + path.last());
        assert(j.subrange(j.len() - path.last().len(), j.len() as int) =~= path.last());
    } else {
        assert(j.subrange(0, j.len() as int) =~= j);
    }
}

/// Returns how a file at a relative path is understood (see [`classify_view`]).
pub fn classify_template_file(rel: &Vec<String>, with_meta: bool) -> (r: TemplateFile)
    requires
        classifiable(rel.deep_view(), with_meta),
    ensures
        r.deep_view() == classify_view(rel.deep_view(), with_meta),
{
    let ghost rv = rel.deep_view();
    let name = &rel[rel.len() - 1];
    proof {
        reveal_strlit("page.");
        reveal_strlit("asset.");
        reveal_strlit(".hbs.json");
        reveal_strlit(".hbs.yaml");
        reveal_strlit("hbs");
        assert(name@ == rv.last());
    }
    let n = chars_of(name.as_str()).len();
    let hbs = has_hbs_extension(name);
    let asset = starts_with(name.as_str(), "asset.");
    if hbs {
        proof {
            lemma_join_ends_with_last(rv);
            lemma_hbs_name_len(name@);
        }
    }
    if starts_with(name.as_str(), "page.") && hbs {
        TemplateFile::PageTemplate { tpl_name: make_hbs_template_name(rel) }
    } else if asset && hbs && n > 8 {
        let asset_path = make_asset_path(rel, 4);
        let tpl_name = join_segments(&asset_path);
        TemplateFile::AssetTemplate { asset_path, tpl_name }
    } else if with_meta && asset && ends_with(name.as_str(), ".hbs.json") {
        let asset_path = make_asset_path(rel, 9);
        TemplateFile::AssetMetaJson { tpl_name: join_segments(&asset_path) }
    } else if with_meta && asset && ends_with(name.as_str(), ".hbs.yaml") {
        let asset_path = make_asset_path(rel, 9);
        TemplateFile::AssetMetaYaml { tpl_name: join_segments(&asset_path) }
    } else if hbs {
        TemplateFile::Partial { tpl_name: make_hbs_template_name(rel) }
    } else {
        TemplateFile::Static
    }
}

/// Whether a directory entry is hidden: its name starts with `.`. Hidden
/// entries of a template directory are not read.
pub open spec fn is_hidden(name: Seq<char>) -> bool {
    name.len() > 0 && name[0] == '.'
}

/// Returns whether a directory entry is hidden (see [`is_hidden`]).
pub fn is_hidden_entry(name: &str) -> (r: bool)
    ensures
        r == is_hidden(name@),
{
    let cs = chars_of(name);
    cs.len() > 0 && cs[0] == '.'
}

/// Returns whether a file at a relative path can be classified (see
/// [`classifiable`]): an asset name too short to hold a name between its
/// prefix and its suffix cannot.
pub fn can_classify(rel: &Vec<String>, with_meta: bool) -> (r: bool)
    ensures
        r == classifiable(rel.deep_view(), with_meta),
{
    if rel.len() == 0 {
        return false;
    }
    let name = &rel[rel.len() - 1];
    let n = chars_of(name.as_str()).len();
    let hbs = has_hbs_extension(name);
    let page = starts_with(name.as_str(), "page.");
    let asset = starts_with(name.as_str(), "asset.");
    let json = ends_with(name.as_str(), ".hbs.json");
    let yaml = ends_with(name.as_str(), ".hbs.yaml");
    proof {
        assert(name@ == rel.deep_view().last());
    }
    let c1 = (page && hbs) || !(asset && hbs) || n >= 10;
    let c2 = !(with_meta && asset && !hbs && json) || n >= 15;
    let c3 = !(with_meta && asset && !hbs && yaml) || n >= 15;
    c1 && c2 && c3
}

} // verus!
