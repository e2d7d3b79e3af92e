//! Markdown pages: renaming `.md`-like files to `.html` and converting their
//! content with pulldown-cmark.
use vstd::prelude::*;
use crate::pages::{Body, BodyView, Page, PageView, copy_opt_metadata};
use crate::strings::{chars_of, copy_string, copy_strings, push_str, string_of_range};

verus! {

/// The HTML that pulldown-cmark produces from a markdown text.
pub uninterp spec fn markdown_to_html(md: Seq<char>) -> Seq<char>;

/// Converts markdown to HTML with pulldown-cmark (`Parser::new` fed to
/// `html::push_html`). Nothing is claimed of the HTML beyond it being the
/// function [`markdown_to_html`] of the input.
#[verifier::external_body]
fn render_markdown(md: &str) -> (r: String)
    ensures
        r@ == markdown_to_html(md@),
{
    let parser = pulldown_cmark::Parser::new(md);
    let mut html_output = String::with_capacity(md.len() * 3 / 2);
    pulldown_cmark::html::push_html(&mut html_output, parser);
    html_output
}

/// Returns the HTML of a markdown text (see [`markdown_to_html`]); it is
/// also the content of a markdown body whose source is produced when the
/// page is written.
pub fn markdown_content(md: &str) -> (r: String)
    ensures
        r@ == markdown_to_html(md@),
{
    render_markdown(md)
}

/// The position of the last occurrence of `c` in `s`, if any.
pub open spec fn last_index_of(s: Seq<char>, c: char) -> Option<int>
    decreases s.len(),
{
    if s.len() == 0 {
        None
    } else if s.last() == c {
        Some(s.len() - 1)
    } else {
        last_index_of(s.drop_last(), c)
    }
}

/// The position of the last occurrence of `c` in `s`, if any.
pub fn rfind_char(s: &str, c: char) -> (r: Option<usize>)
    ensures
        r.is_some() == last_index_of(s@, c).is_some(),
        r.is_some() ==> r.unwrap() as int == last_index_of(s@, c).unwrap(),
        r.is_some() ==> r.unwrap() < s@.len(),
{
    let cs = chars_of(s);
    let mut i = cs.len();
    proof {
        assert(s@.take(s@.len() as int) =~= s@);
    }
    while i > 0
        invariant
            i <= cs.len(),
            cs@ == s@,
            last_index_of(s@, c) == last_index_of(s@.take(i as int), c),
        decreases i,
    {
        proof {
            assert(s@.take(i as int).drop_last() =~= s@.take(i - 1));
        }
        if cs[i - 1] == c {
            return Some(i - 1);
        }
        i = i - 1;
    }
    proof {
        assert(s@.take(0) =~= Seq::<char>::empty());
    }
    None
}

/// The extension that converted pages get.
pub open spec fn html_ext() -> Seq<char> {
    seq!['.', 'h', 't', 'm', 'l']
}

/// A file name with its extension (from the last `.`) replaced by `.html`;
/// a name without `.` is kept.
pub open spec fn html_file_name(name: Seq<char>) -> Seq<char> {
    match last_index_of(name, '.') {
        Some(i) => name.take(i) + html_ext(),
        None => name,
    }
}

/// The path of a converted page: its last segment gets the `.html` extension.
pub open spec fn html_path(path: Seq<Seq<char>>) -> Seq<Seq<char>> {
    if path.len() == 0 {
        path
    } else {
        path.drop_last().push(html_file_name(path.last()))
    }
}

/// The body of a converted page: literal markdown is converted now, any other
/// body is converted when its content is produced.
pub open spec fn html_body(b: BodyView) -> BodyView {
    match b {
        BodyView::Text(s) => BodyView::Text(markdown_to_html(s)),
        other => BodyView::Markdown(Box::new(other)),
    }
}

/// The page that the markdown stage makes of a page.
pub open spec fn md_page(p: PageView) -> PageView {
    PageView { path: html_path(p.path), metadata: p.metadata, body: html_body(p.body) }
}

/// Returns `name` with its extension replaced by `.html`.
pub fn to_html_file_name(name: &String) -> (r: String)
    ensures
        r@ == html_file_name(name@),
{
    match rfind_char(name.as_str(), '.') {
        Some(i) => {
            let cs = chars_of(name.as_str());
            let mut r = string_of_range(&cs, 0, i);
            proof {
                assert(cs@.subrange(0, i as int) =~= name@.take(i as int));
            }
            let ext = String::from_str(".html");
            proof {
                reveal_strlit(".html");
                assert(ext@ =~= html_ext());
            }
            push_str(&mut r, ext.as_str());
            r
        },
        None => copy_string(name),
    }
}

/// Returns the page converted by the markdown stage.
pub fn convert_page(p: &Page) -> (r: Page)
    ensures
        r.deep_view() == md_page(p.deep_view()),
{
    let mut path = copy_strings(&p.path);
    let n = path.len();
    if n > 0 {
        let name = to_html_file_name(&p.path[n - 1]);
        let ghost before = path.deep_view();
        path.set(n - 1, name);
        proof {
            assert(path.deep_view() =~= html_path(p.path.deep_view()));
        }
    } else {
        proof {
            assert(path.deep_view() =~= html_path(p.path.deep_view()));
        }
    }
    let body = match &p.body {
        Body::Text(s) => Body::Text(render_markdown(s.as_str())),
        other => Body::Markdown(Box::new(other.duplicate())),
    };
    Page { path, metadata: copy_opt_metadata(&p.metadata), body }
}

} // verus!
