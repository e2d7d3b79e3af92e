//! The page model: a page is a path (a sequence of segments), optional
//! metadata and a body that says how its content is produced.
use vstd::prelude::*;
use crate::strings::{copy_string, copy_strings, lemma_push_deep_view};

verus! {

/// A value stored under a key in the free-form data of a page's metadata.
#[derive(Debug)]
pub enum Value {
    Null,
    Bool(bool),
    I32(i32),
    I64(i64),
    Str(String),
}

/// Mathematical view of a [`Value`].
pub enum ValueView {
    Null,
    Bool(bool),
    I32(i32),
    I64(i64),
    Str(Seq<char>),
}

impl DeepView for Value {
    type V = ValueView;

    open spec fn deep_view(&self) -> ValueView {
        match self {
            Value::Null => ValueView::Null,
            Value::Bool(b) => ValueView::Bool(*b),
            Value::I32(i) => ValueView::I32(*i),
            Value::I64(i) => ValueView::I64(*i),
            Value::Str(s) => ValueView::Str(s@),
        }
    }
}

impl Value {
    /// Returns a copy of the value.
    pub fn duplicate(&self) -> (r: Value)
        ensures
            r.deep_view() == self.deep_view(),
    {
        match self {
            Value::Null => Value::Null,
            Value::Bool(b) => Value::Bool(*b),
            Value::I32(i) => Value::I32(*i),
            Value::I64(i) => Value::I64(*i),
            Value::Str(s) => Value::Str(copy_string(s)),
        }
    }
}

/// An author of a page: a name and a list of contacts.
#[derive(Debug)]
pub struct Author {
    pub name: String,
    pub contacts: Vec<String>,
}

/// Mathematical view of an [`Author`].
pub struct AuthorView {
    pub name: Seq<char>,
    pub contacts: Seq<Seq<char>>,
}

impl DeepView for Author {
    type V = AuthorView;

    open spec fn deep_view(&self) -> AuthorView {
        AuthorView { name: self.name@, contacts: self.contacts.deep_view() }
    }
}

impl Author {
    /// Returns a copy of the author.
    pub fn duplicate(&self) -> (r: Author)
        ensures
            r.deep_view() == self.deep_view(),
    {
        Author { name: copy_string(&self.name), contacts: copy_strings(&self.contacts) }
    }
}

/// The metadata of a page.
#[derive(Debug)]
pub struct Metadata {
    pub title: Option<String>,
    pub summary: Option<String>,
    pub authors: Vec<Author>,
    pub tags: Vec<String>,
    pub publishing_date: Option<i64>,
    pub last_edit_date: Option<i64>,
    pub data: Vec<(String, Value)>,
}

/// Mathematical view of a [`Metadata`].
pub struct MetadataView {
    pub title: Option<Seq<char>>,
    pub summary: Option<Seq<char>>,
    pub authors: Seq<AuthorView>,
    pub tags: Seq<Seq<char>>,
    pub publishing_date: Option<i64>,
    pub last_edit_date: Option<i64>,
    pub data: Seq<(Seq<char>, ValueView)>,
}

impl DeepView for Metadata {
    type V = MetadataView;

    open spec fn deep_view(&self) -> MetadataView {
        MetadataView {
            title: self.title.deep_view(),
            summary: self.summary.deep_view(),
            authors: self.authors.deep_view(),
            tags: self.tags.deep_view(),
            publishing_date: self.publishing_date,
            last_edit_date: self.last_edit_date,
            data: self.data.deep_view(),
        }
    }
}

/// The metadata with no field set.
pub open spec fn empty_metadata_view() -> MetadataView {
    MetadataView {
        title: None,
        summary: None,
        authors: Seq::empty(),
        tags: Seq::empty(),
        publishing_date: None,
        last_edit_date: None,
        data: Seq::empty(),
    }
}

/// Returns a copy of an optional string.
pub fn copy_opt_string(s: &Option<String>) -> (r: Option<String>)
    ensures
        r.deep_view() == s.deep_view(),
{
    match s {
        Some(s) => Some(copy_string(s)),
        None => None,
    }
}

/// Returns a copy of a list of authors.
pub fn copy_authors(v: &Vec<Author>) -> (r: Vec<Author>)
    ensures
        r.deep_view() == v.deep_view(),
{
    let mut r: Vec<Author> = Vec::new();
    let mut i: usize = 0;
    while i < v.len()
        invariant
            i <= v.len(),
            r.deep_view() == v.deep_view().take(i as int),
        decreases v.len() - i,
    {
        let ghost before = r;
        let a = v[i].duplicate();
        r.push(a);
        proof {
            lemma_push_deep_view(before, r, a);
            assert(r.deep_view() =~= v.deep_view().take(i + 1));
        }
        i = i + 1;
    }
    proof {
        assert(v.deep_view().take(v.len() as int) =~= v.deep_view());
    }
    r
}

/// Returns a copy of a list of key/value entries.
pub fn copy_data(v: &Vec<(String, Value)>) -> (r: Vec<(String, Value)>)
    ensures
        r.deep_view() == v.deep_view(),
{
    let mut r: Vec<(String, Value)> = Vec::new();
    let mut i: usize = 0;
    while i < v.len()
        invariant
            i <= v.len(),
            r.deep_view() == v.deep_view().take(i as int),
        decreases v.len() - i,
    {
        let ghost before = r;
        let e = (copy_string(&v[i].0), v[i].1.duplicate());
        r.push(e);
        proof {
            lemma_push_deep_view(before, r, e);
            assert(r.deep_view() =~= v.deep_view().take(i + 1));
        }
        i = i + 1;
    }
    proof {
        assert(v.deep_view().take(v.len() as int) =~= v.deep_view());
    }
    r
}

impl Metadata {
    /// Returns the metadata with no field set.
    pub fn empty() -> (r: Metadata)
        ensures
            r.deep_view() == empty_metadata_view(),
    {
        let r = Metadata {
            title: None,
            summary: None,
            authors: Vec::new(),
            tags: Vec::new(),
            publishing_date: None,
            last_edit_date: None,
            data: Vec::new(),
        };
        proof {
            assert(r.deep_view().authors =~= Seq::<AuthorView>::empty());
            assert(r.deep_view().tags =~= Seq::<Seq<char>>::empty());
            assert(r.deep_view().data =~= Seq::<(Seq<char>, ValueView)>::empty());
        }
        r
    }

    /// Returns a copy of the metadata.
    pub fn duplicate(&self) -> (r: Metadata)
        ensures
            r.deep_view() == self.deep_view(),
    {
        Metadata {
            title: copy_opt_string(&self.title),
            summary: copy_opt_string(&self.summary),
            authors: copy_authors(&self.authors),
            tags: copy_strings(&self.tags),
            publishing_date: self.publishing_date,
            last_edit_date: self.last_edit_date,
            data: copy_data(&self.data),
        }
    }
}

/// Returns a copy of optional metadata.
pub fn copy_opt_metadata(m: &Option<Metadata>) -> (r: Option<Metadata>)
    ensures
        r.deep_view() == m.deep_view(),
{
    match m {
        Some(m) => Some(m.duplicate()),
        None => None,
    }
}

/// The selection of pages an asset template is rendered with: one slice of
/// the pages matched by a query, possibly restricted to a tag or an author.
/// It knows its slice number (`index`), the last one, the slice size, each
/// slice number with whether it is its own, the number of matched pages
/// where they are sliced, and whether there is more than one slice; the tag
/// and the author stand as in a URI, and as they were.
#[derive(Debug)]
pub struct AssetSelection {
    pub pages: Vec<Vec<String>>,
    pub index: usize,
    pub last: usize,
    pub limit: usize,
    pub indexes: Vec<(usize, bool)>,
    pub size: Option<usize>,
    pub multi_pages: bool,
    pub tag: Option<String>,
    pub author: Option<String>,
    pub original_tag: Option<String>,
    pub original_author: Option<String>,
}

/// Mathematical view of an [`AssetSelection`].
pub struct AssetSelectionView {
    pub pages: Seq<Seq<Seq<char>>>,
    pub index: usize,
    pub last: usize,
    pub limit: usize,
    pub indexes: Seq<(usize, bool)>,
    pub size: Option<usize>,
    pub multi_pages: bool,
    pub tag: Option<Seq<char>>,
    pub author: Option<Seq<char>>,
    pub original_tag: Option<Seq<char>>,
    pub original_author: Option<Seq<char>>,
}

impl DeepView for AssetSelection {
    type V = AssetSelectionView;

    open spec fn deep_view(&self) -> AssetSelectionView {
        AssetSelectionView {
            pages: self.pages.deep_view(),
            index: self.index,
            last: self.last,
            limit: self.limit,
            indexes: self.indexes@,
            size: self.size,
            multi_pages: self.multi_pages,
            tag: self.tag.deep_view(),
            author: self.author.deep_view(),
            original_tag: self.original_tag.deep_view(),
            original_author: self.original_author.deep_view(),
        }
    }
}

/// Returns a copy of a list of slice numbers.
pub fn copy_indexes(v: &Vec<(usize, bool)>) -> (r: Vec<(usize, bool)>)
    ensures
        r@ == v@,
{
    let mut r: Vec<(usize, bool)> = Vec::new();
    let mut i: usize = 0;
    while i < v.len()
        invariant
            i <= v.len(),
            r@ == v@.take(i as int),
        decreases v.len() - i,
    {
        r.push(v[i]);
        proof {
            assert(r@ =~= v@.take(i + 1));
        }
        i = i + 1;
    }
    proof {
        assert(v@.take(v.len() as int) =~= v@);
    }
    r
}

/// Returns a copy of a list of paths.
pub fn copy_paths(v: &Vec<Vec<String>>) -> (r: Vec<Vec<String>>)
    ensures
        r.deep_view() == v.deep_view(),
{
    let mut r: Vec<Vec<String>> = Vec::new();
    let mut i: usize = 0;
    while i < v.len()
        invariant
            i <= v.len(),
            r.deep_view() == v.deep_view().take(i as int),
        decreases v.len() - i,
    {
        let ghost before = r;
        let e = copy_strings(&v[i]);
        r.push(e);
        proof {
            lemma_push_deep_view(before, r, e);
            assert(r.deep_view() =~= v.deep_view().take(i + 1));
        }
        i = i + 1;
    }
    proof {
        assert(v.deep_view().take(v.len() as int) =~= v.deep_view());
    }
    r
}

impl AssetSelection {
    /// Returns a copy of the selection.
    pub fn duplicate(&self) -> (r: AssetSelection)
        ensures
            r.deep_view() == self.deep_view(),
    {
        AssetSelection {
            pages: copy_paths(&self.pages),
            index: self.index,
            last: self.last,
            limit: self.limit,
            indexes: copy_indexes(&self.indexes),
            size: self.size,
            multi_pages: self.multi_pages,
            tag: copy_opt_string(&self.tag),
            author: copy_opt_string(&self.author),
            original_tag: copy_opt_string(&self.original_tag),
            original_author: copy_opt_string(&self.original_author),
        }
    }
}

/// How the content of a page is produced.
#[derive(Debug)]
pub enum Body {
    /// Literal content.
    Text(String),
    /// The HTML conversion of a markdown source.
    Markdown(Box<Body>),
    /// A page template rendered around the content of a source.
    Template { tpl_name: String, source: Box<Body> },
    /// An asset template rendered with an optional selection of pages.
    Asset { tpl_name: String, selection: Option<AssetSelection> },
    /// A file copied as is from a template directory.
    File { base_path: String, file_path: String },
}

/// Mathematical view of a [`Body`].
pub enum BodyView {
    Text(Seq<char>),
    Markdown(Box<BodyView>),
    Template { tpl_name: Seq<char>, source: Box<BodyView> },
    Asset { tpl_name: Seq<char>, selection: Option<AssetSelectionView> },
    File { base_path: Seq<char>, file_path: Seq<char> },
}

/// The view of a body.
pub open spec fn body_view(b: Body) -> BodyView
    decreases b,
{
    match b {
        Body::Text(s) => BodyView::Text(s@),
        Body::Markdown(inner) => BodyView::Markdown(Box::new(body_view(*inner))),
        Body::Template { tpl_name, source } => BodyView::Template {
            tpl_name: tpl_name@,
            source: Box::new(body_view(*source)),
        },
        Body::Asset { tpl_name, selection } => BodyView::Asset {
            tpl_name: tpl_name@,
            selection: selection.deep_view(),
        },
        Body::File { base_path, file_path } => BodyView::File {
            base_path: base_path@,
            file_path: file_path@,
        },
    }
}

impl DeepView for Body {
    type V = BodyView;

    open spec fn deep_view(&self) -> BodyView {
        body_view(*self)
    }
}

impl Body {
    /// Returns a copy of the body.
    pub fn duplicate(&self) -> (r: Body)
        ensures
            r.deep_view() == self.deep_view(),
        decreases self,
    {
        match self {
            Body::Text(s) => Body::Text(copy_string(s)),
            Body::Markdown(inner) => {
                let i = (**inner).duplicate();
                Body::Markdown(Box::new(i))
            },
            Body::Template { tpl_name, source } => {
                let s = (**source).duplicate();
                Body::Template { tpl_name: copy_string(tpl_name), source: Box::new(s) }
            },
            Body::Asset { tpl_name, selection } => Body::Asset {
                tpl_name: copy_string(tpl_name),
                selection: match selection {
                    Some(s) => Some(s.duplicate()),
                    None => None,
                },
            },
            Body::File { base_path, file_path } => Body::File {
                base_path: copy_string(base_path),
                file_path: copy_string(file_path),
            },
        }
    }
}

/// A page: where it goes (its path), what is known of it (its metadata) and
/// how its content is produced (its body).
#[derive(Debug)]
pub struct Page {
    pub path: Vec<String>,
    pub metadata: Option<Metadata>,
    pub body: Body,
}

/// Mathematical view of a [`Page`].
pub struct PageView {
    pub path: Seq<Seq<char>>,
    pub metadata: Option<MetadataView>,
    pub body: BodyView,
}

impl DeepView for Page {
    type V = PageView;

    open spec fn deep_view(&self) -> PageView {
        PageView {
            path: self.path.deep_view(),
            metadata: self.metadata.deep_view(),
            body: self.body.deep_view(),
        }
    }
}

impl PageView {
    /// The same page at another path.
    pub open spec fn with_path(self, path: Seq<Seq<char>>) -> PageView {
        PageView { path, ..self }
    }

    /// The same page with other metadata.
    pub open spec fn with_metadata(self, metadata: MetadataView) -> PageView {
        PageView { metadata: Some(metadata), ..self }
    }
}

impl Page {
    /// Builds a page with literal content.
    pub fn new_text(path: Vec<String>, metadata: Option<Metadata>, content: String) -> (r: Page)
        ensures
            r.deep_view() == (PageView {
                path: path.deep_view(),
                metadata: metadata.deep_view(),
                body: BodyView::Text(content@),
            }),
    {
        Page { path, metadata, body: Body::Text(content) }
    }

    /// Returns a copy of the page.
    pub fn duplicate(&self) -> (r: Page)
        ensures
            r.deep_view() == self.deep_view(),
    {
        Page {
            path: copy_strings(&self.path),
            metadata: copy_opt_metadata(&self.metadata),
            body: self.body.duplicate(),
        }
    }

    /// Returns a copy of the page moved to another path.
    pub fn change_path(&self, path: Vec<String>) -> (r: Page)
        ensures
            r.deep_view() == self.deep_view().with_path(path.deep_view()),
    {
        Page {
            path,
            metadata: copy_opt_metadata(&self.metadata),
            body: self.body.duplicate(),
        }
    }

    /// Returns a copy of the page with other metadata.
    pub fn change_meta(&self, metadata: Metadata) -> (r: Page)
        ensures
            r.deep_view() == self.deep_view().with_metadata(metadata.deep_view()),
    {
        Page { path: copy_strings(&self.path), metadata: Some(metadata), body: self.body.duplicate() }
    }
}

/// Returns a copy of a list of pages.
pub fn copy_pages(v: &Vec<Page>) -> (r: Vec<Page>)
    ensures
        r.deep_view() == v.deep_view(),
{
    let mut r: Vec<Page> = Vec::new();
    let mut i: usize = 0;
    while i < v.len()
        invariant
            i <= v.len(),
            r.deep_view() == v.deep_view().take(i as int),
        decreases v.len() - i,
    {
        let ghost before = r;
        let e = v[i].duplicate();
        r.push(e);
        proof {
            lemma_push_deep_view(before, r, e);
            assert(r.deep_view() =~= v.deep_view().take(i + 1));
        }
        i = i + 1;
    }
    proof {
        assert(v.deep_view().take(v.len() as int) =~= v.deep_view());
    }
    r
}

} // verus!
