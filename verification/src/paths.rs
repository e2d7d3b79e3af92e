//! The path generator stage: a page whose metadata holds a `path` pattern
//! is moved to the path that the pattern, a handlebars template, renders
//! with the page's parameters (title, dates, data, current path...).
use vstd::prelude::*;
use std::fmt::Write;
use handlebars::{Context, Handlebars, Helper, HelperResult, Output, RenderContext, RenderError};
use crate::errors::PagesError;
use crate::json::{json_bool, write_bool, json_int, json_member, json_null, json_string, json_strings, lemma_comma_joined_push, comma_joined, json_object, write_int, write_json_string, write_key, write_null, write_strings};
use crate::md::{last_index_of, rfind_char};
use crate::pages::{Page, PageView, Value, ValueView};
use crate::stages::{ProcessingResult, leaf_result, now_millis};
use crate::strings::{chars_of, copy_string, copy_strings, lemma_push_deep_view, push_char, push_str, split_on, string_of_range};

verus! {

/// What chrono writes for a timestamp (seconds since the Unix epoch, in UTC)
/// with a strftime format, or `None` where the timestamp is out of chrono's
/// range or the format is not one chrono reads.
pub uninterp spec fn formatted_timestamp(ts: i64, fmt: Seq<char>) -> Option<Seq<char>>;

/// Formats a timestamp with chrono: `DateTime::<Utc>::from_timestamp(ts, 0)`
/// and `format(fmt)`, written out with `write!`, which reports an invalid
/// format as an error rather than panicking. Claimed: the outcome is
/// [`formatted_timestamp`] of the timestamp and the format, a function of the
/// two alone.
#[verifier::external_body]
pub(crate) fn format_timestamp(ts: i64, fmt: &str) -> (r: Option<String>)
    ensures
        r.is_some() == formatted_timestamp(ts, fmt@).is_some(),
        r.is_some() ==> r.unwrap()@ == formatted_timestamp(ts, fmt@).unwrap(),
{
    let dt = chrono::DateTime::<chrono::Utc>::from_timestamp(ts, 0)?;
    let mut out = String::new();
    write!(out, "{}", dt.format(fmt)).ok()?;
    Some(out)
}

/// The parts of a date that a path pattern can use: the timestamp, and the
/// year, month, day and time as chrono writes them (the `i_` parts as
/// numbers, the others as text).
#[derive(Debug)]
pub struct DateParams {
    pub timestamp: i64,
    pub i_year: String,
    pub short_year: String,
    pub i_month: String,
    pub month: String,
    pub short_month: String,
    pub long_month: String,
    pub i_day: String,
    pub day: String,
    pub short_day: String,
    pub long_day: String,
    pub i_hour: String,
    pub i_minute: String,
    pub i_second: String,
}

/// Mathematical view of [`DateParams`].
pub struct DateParamsView {
    pub timestamp: i64,
    pub i_year: Seq<char>,
    pub short_year: Seq<char>,
    pub i_month: Seq<char>,
    pub month: Seq<char>,
    pub short_month: Seq<char>,
    pub long_month: Seq<char>,
    pub i_day: Seq<char>,
    pub day: Seq<char>,
    pub short_day: Seq<char>,
    pub long_day: Seq<char>,
    pub i_hour: Seq<char>,
    pub i_minute: Seq<char>,
    pub i_second: Seq<char>,
}

impl DeepView for DateParams {
    type V = DateParamsView;

    open spec fn deep_view(&self) -> DateParamsView {
        DateParamsView {
            timestamp: self.timestamp,
            i_year: self.i_year@,
            short_year: self.short_year@,
            i_month: self.i_month@,
            month: self.month@,
            short_month: self.short_month@,
            long_month: self.long_month@,
            i_day: self.i_day@,
            day: self.day@,
            short_day: self.short_day@,
            long_day: self.long_day@,
            i_hour: self.i_hour@,
            i_minute: self.i_minute@,
            i_second: self.i_second@,
        }
    }
}

/// The parts of a date, where chrono can write each of them.
pub open spec fn date_params(ts: i64) -> Option<DateParamsView> {
    if formatted_timestamp(ts, "%Y"@) is Some
        && formatted_timestamp(ts, "%y"@) is Some
        && formatted_timestamp(ts, "%-m"@) is Some
        && formatted_timestamp(ts, "%m"@) is Some
        && formatted_timestamp(ts, "%b"@) is Some
        && formatted_timestamp(ts, "%B"@) is Some
        && formatted_timestamp(ts, "%-d"@) is Some
        && formatted_timestamp(ts, "%d"@) is Some
        && formatted_timestamp(ts, "%a"@) is Some
        && formatted_timestamp(ts, "%A"@) is Some
        && formatted_timestamp(ts, "%-H"@) is Some
        && formatted_timestamp(ts, "%-M"@) is Some
        && formatted_timestamp(ts, "%-S"@) is Some {
        Some(DateParamsView {
            timestamp: ts,
            i_year: formatted_timestamp(ts, "%Y"@).unwrap(),
            short_year: formatted_timestamp(ts, "%y"@).unwrap(),
            i_month: formatted_timestamp(ts, "%-m"@).unwrap(),
            month: formatted_timestamp(ts, "%m"@).unwrap(),
            short_month: formatted_timestamp(ts, "%b"@).unwrap(),
            long_month: formatted_timestamp(ts, "%B"@).unwrap(),
            i_day: formatted_timestamp(ts, "%-d"@).unwrap(),
            day: formatted_timestamp(ts, "%d"@).unwrap(),
            short_day: formatted_timestamp(ts, "%a"@).unwrap(),
            long_day: formatted_timestamp(ts, "%A"@).unwrap(),
            i_hour: formatted_timestamp(ts, "%-H"@).unwrap(),
            i_minute: formatted_timestamp(ts, "%-M"@).unwrap(),
            i_second: formatted_timestamp(ts, "%-S"@).unwrap(),
        })
    } else {
        None
    }
}

/// Returns the parts of a date (see [`date_params`]).
pub fn make_date_params(ts: i64) -> (r: Option<DateParams>)
    ensures
        r.is_some() == date_params(ts).is_some(),
        r.is_some() ==> r.unwrap().deep_view() == date_params(ts).unwrap(),
{
    let i_year = match format_timestamp(ts, "%Y") {
        Some(s) => s,
        None => return None,
    };
    let short_year = match format_timestamp(ts, "%y") {
        Some(s) => s,
        None => return None,
    };
    let i_month = match format_timestamp(ts, "%-m") {
        Some(s) => s,
        None => return None,
    };
    let month = match format_timestamp(ts, "%m") {
        Some(s) => s,
        None => return None,
    };
    let short_month = match format_timestamp(ts, "%b") {
        Some(s) => s,
        None => return None,
    };
    let long_month = match format_timestamp(ts, "%B") {
        Some(s) => s,
        None => return None,
    };
    let i_day = match format_timestamp(ts, "%-d") {
        Some(s) => s,
        None => return None,
    };
    let day = match format_timestamp(ts, "%d") {
        Some(s) => s,
        None => return None,
    };
    let short_day = match format_timestamp(ts, "%a") {
        Some(s) => s,
        None => return None,
    };
    let long_day = match format_timestamp(ts, "%A") {
        Some(s) => s,
        None => return None,
    };
    let i_hour = match format_timestamp(ts, "%-H") {
        Some(s) => s,
        None => return None,
    };
    let i_minute = match format_timestamp(ts, "%-M") {
        Some(s) => s,
        None => return None,
    };
    let i_second = match format_timestamp(ts, "%-S") {
        Some(s) => s,
        None => return None,
    };
    Some(DateParams {
        timestamp: ts,
        i_year,
        short_year,
        i_month,
        month,
        short_month,
        long_month,
        i_day,
        day,
        short_day,
        long_day,
        i_hour,
        i_minute,
        i_second,
    })
}

/// The JSON of the parts of a date.
pub open spec fn date_json(d: DateParamsView) -> Seq<char> {
    seq!['{'] + json_member("timestamp"@, json_int(d.timestamp as int))
        + seq![','] + json_member("i_year"@, d.i_year)
        + seq![','] + json_member("short_year"@, json_string(d.short_year))
        + seq![','] + json_member("i_month"@, d.i_month)
        + seq![','] + json_member("month"@, json_string(d.month))
        + seq![','] + json_member("short_month"@, json_string(d.short_month))
        + seq![','] + json_member("long_month"@, json_string(d.long_month))
        + seq![','] + json_member("i_day"@, d.i_day)
        + seq![','] + json_member("day"@, json_string(d.day))
        + seq![','] + json_member("short_day"@, json_string(d.short_day))
        + seq![','] + json_member("long_day"@, json_string(d.long_day))
        + seq![','] + json_member("i_hour"@, d.i_hour)
        + seq![','] + json_member("i_minute"@, d.i_minute)
        + seq![','] + json_member("i_second"@, d.i_second)
        + seq!['}']
}

/// Appends a comma and an object member whose value is a JSON string.
pub(crate) fn write_string_member(out: &mut String, key: &str, value: &str)
    ensures
        final(out)@ == old(out)@ + seq![','] + json_member(key@, json_string(value@)),
{
    let ghost o = out@;
    push_char(out, ',');
    write_key(out, key);
    write_json_string(out, value);
    assert(out@ =~= o + seq![','] + json_member(key@, json_string(value@)));
}

/// Appends a comma and an object member whose value is given as JSON.
pub(crate) fn write_raw_member(out: &mut String, key: &str, value: &str)
    ensures
        final(out)@ == old(out)@ + seq![','] + json_member(key@, value@),
{
    let ghost o = out@;
    push_char(out, ',');
    write_key(out, key);
    push_str(out, value);
    assert(out@ =~= o + seq![','] + json_member(key@, value@));
}

/// Returns the JSON of the parts of a date.
pub fn date_json_text(d: &DateParams) -> (r: String)
    ensures
        r@ == date_json(d.deep_view()),
{
    let mut out = String::new();
    push_char(&mut out, '{');
    write_key(&mut out, "timestamp");
    write_int(&mut out, d.timestamp);
    assert(out@ =~= seq!['{'] + json_member("timestamp"@, json_int(d.timestamp as int)));
    write_raw_member(&mut out, "i_year", d.i_year.as_str());
    write_string_member(&mut out, "short_year", d.short_year.as_str());
    write_raw_member(&mut out, "i_month", d.i_month.as_str());
    write_string_member(&mut out, "month", d.month.as_str());
    write_string_member(&mut out, "short_month", d.short_month.as_str());
    write_string_member(&mut out, "long_month", d.long_month.as_str());
    write_raw_member(&mut out, "i_day", d.i_day.as_str());
    write_string_member(&mut out, "day", d.day.as_str());
    write_string_member(&mut out, "short_day", d.short_day.as_str());
    write_string_member(&mut out, "long_day", d.long_day.as_str());
    write_raw_member(&mut out, "i_hour", d.i_hour.as_str());
    write_raw_member(&mut out, "i_minute", d.i_minute.as_str());
    write_raw_member(&mut out, "i_second", d.i_second.as_str());
    push_char(&mut out, '}');
    out
}

/// A text as it stands in a URI: ASCII letters in lower case, ASCII letters
/// and digits kept, any other character replaced by `_`.
pub open spec fn uri_friendly(s: Seq<char>) -> Seq<char> {
    s.map_values(|c: char| uri_char(c))
}

/// A character as it stands in a URI (see [`uri_friendly`]).
pub open spec fn uri_char(c: char) -> char {
    if 'A' <= c && c <= 'Z' {
        ((c as int) + 32) as char
    } else if ('a' <= c && c <= 'z') || ('0' <= c && c <= '9') {
        c
    } else {
        '_'
    }
}

/// Returns a text as it stands in a URI (see [`uri_friendly`]).
pub fn uri_friendly_string(s: &str) -> (r: String)
    ensures
        r@ == uri_friendly(s@),
{
    let cs = chars_of(s);
    let mut r = String::new();
    let mut i: usize = 0;
    while i < cs.len()
        invariant
            i <= cs.len(),
            cs@ == s@,
            r@ == uri_friendly(s@.take(i as int)),
        decreases cs.len() - i,
    {
        let c = cs[i];
        let d = if 'A' <= c && c <= 'Z' {
            let n: u8 = (c as u8) + 32;
            n as char
        } else if ('a' <= c && c <= 'z') || ('0' <= c && c <= '9') {
            c
        } else {
            '_'
        };
        push_char(&mut r, d);
        proof {
            assert(uri_friendly(s@.take(i + 1)) =~= uri_friendly(s@.take(i as int)).push(uri_char(c)));
        }
        i = i + 1;
    }
    proof {
        assert(s@.take(cs.len() as int) =~= s@);
    }
    r
}

/// The name of the file of a page without its extension: its last path
/// segment up to its last `.` (all of it where it has none), empty for a
/// page without a path.
pub open spec fn file_stem(path: Seq<Seq<char>>) -> Seq<char> {
    if path.len() == 0 {
        Seq::empty()
    } else {
        match last_index_of(path.last(), '.') {
            Some(i) => path.last().take(i),
            None => path.last(),
        }
    }
}

/// A path in reverse order.
pub open spec fn reversed(path: Seq<Seq<char>>) -> Seq<Seq<char>> {
    Seq::new(path.len(), |i: int| path[path.len() - 1 - i])
}

/// The parameters a path pattern is rendered with.
#[derive(Debug)]
pub struct PathParams {
    pub title: String,
    pub url_title: String,
    pub summary: String,
    pub authors: Option<Vec<String>>,
    pub tags: Option<Vec<String>>,
    pub timestamp: Option<i64>,
    pub i_year: Option<String>,
    pub short_year: String,
    pub i_month: Option<String>,
    pub month: String,
    pub short_month: String,
    pub long_month: String,
    pub i_day: Option<String>,
    pub day: String,
    pub short_day: String,
    pub long_day: String,
    pub i_hour: Option<String>,
    pub i_minute: Option<String>,
    pub i_second: Option<String>,
    pub publishing_date: Option<DateParams>,
    pub last_edit_date: Option<DateParams>,
    pub data: Option<Vec<(String, Value)>>,
    pub path: Vec<String>,
    pub rev_path: Vec<String>,
    pub file_name: String,
}

/// Mathematical view of [`PathParams`].
pub struct PathParamsView {
    pub title: Seq<char>,
    pub url_title: Seq<char>,
    pub summary: Seq<char>,
    pub authors: Option<Seq<Seq<char>>>,
    pub tags: Option<Seq<Seq<char>>>,
    pub timestamp: Option<i64>,
    pub i_year: Option<Seq<char>>,
    pub short_year: Seq<char>,
    pub i_month: Option<Seq<char>>,
    pub month: Seq<char>,
    pub short_month: Seq<char>,
    pub long_month: Seq<char>,
    pub i_day: Option<Seq<char>>,
    pub day: Seq<char>,
    pub short_day: Seq<char>,
    pub long_day: Seq<char>,
    pub i_hour: Option<Seq<char>>,
    pub i_minute: Option<Seq<char>>,
    pub i_second: Option<Seq<char>>,
    pub publishing_date: Option<DateParamsView>,
    pub last_edit_date: Option<DateParamsView>,
    pub data: Option<Seq<(Seq<char>, ValueView)>>,
    pub path: Seq<Seq<char>>,
    pub rev_path: Seq<Seq<char>>,
    pub file_name: Seq<char>,
}

impl DeepView for PathParams {
    type V = PathParamsView;

    open spec fn deep_view(&self) -> PathParamsView {
        PathParamsView {
            title: self.title@,
            url_title: self.url_title@,
            summary: self.summary@,
            authors: self.authors.deep_view(),
            tags: self.tags.deep_view(),
            timestamp: self.timestamp,
            i_year: self.i_year.deep_view(),
            short_year: self.short_year@,
            i_month: self.i_month.deep_view(),
            month: self.month@,
            short_month: self.short_month@,
            long_month: self.long_month@,
            i_day: self.i_day.deep_view(),
            day: self.day@,
            short_day: self.short_day@,
            long_day: self.long_day@,
            i_hour: self.i_hour.deep_view(),
            i_minute: self.i_minute.deep_view(),
            i_second: self.i_second.deep_view(),
            publishing_date: match self.publishing_date {
                Some(d) => Some(d.deep_view()),
                None => None,
            },
            last_edit_date: match self.last_edit_date {
                Some(d) => Some(d.deep_view()),
                None => None,
            },
            data: self.data.deep_view(),
            path: self.path.deep_view(),
            rev_path: self.rev_path.deep_view(),
            file_name: self.file_name@,
        }
    }
}

/// The parts of an optional date, or `None` where they cannot be written.
pub open spec fn opt_date_params(ts: Option<i64>) -> Option<Option<DateParamsView>> {
    match ts {
        Some(t) => match date_params(t) {
            Some(d) => Some(Some(d)),
            None => None,
        },
        None => Some(None),
    }
}

/// The text of an optional field, empty where it is not set.
pub open spec fn or_empty(o: Option<Seq<char>>) -> Seq<char> {
    match o {
        Some(s) => s,
        None => Seq::empty(),
    }
}

/// The names of a list of authors.
pub open spec fn names_of(authors: Seq<crate::pages::AuthorView>) -> Seq<Seq<char>> {
    authors.map_values(|a: crate::pages::AuthorView| a.name)
}

/// A part of an optional date, `None` where there is no date.
pub open spec fn opt_part(d: Option<DateParamsView>, f: spec_fn(DateParamsView) -> Seq<char>) -> Option<Seq<char>> {
    match d {
        Some(x) => Some(f(x)),
        None => None,
    }
}

/// A part of an optional date, empty where there is no date.
pub open spec fn text_part(d: Option<DateParamsView>, f: spec_fn(DateParamsView) -> Seq<char>) -> Seq<char> {
    match d {
        Some(x) => f(x),
        None => Seq::empty(),
    }
}

/// Parameters with the parts of their publishing date also at the top
/// level: `timestamp` and the `i_` parts `None`, the text parts empty, where
/// there is no publishing date.
#[verifier::opaque]
pub open spec fn with_flat_date(v: PathParamsView) -> PathParamsView {
    let d = v.publishing_date;
    PathParamsView {
        timestamp: match d {
            Some(x) => Some(x.timestamp),
            None => None,
        },
        i_year: opt_part(d, |x: DateParamsView| x.i_year),
        short_year: text_part(d, |x: DateParamsView| x.short_year),
        i_month: opt_part(d, |x: DateParamsView| x.i_month),
        month: text_part(d, |x: DateParamsView| x.month),
        short_month: text_part(d, |x: DateParamsView| x.short_month),
        long_month: text_part(d, |x: DateParamsView| x.long_month),
        i_day: opt_part(d, |x: DateParamsView| x.i_day),
        day: text_part(d, |x: DateParamsView| x.day),
        short_day: text_part(d, |x: DateParamsView| x.short_day),
        long_day: text_part(d, |x: DateParamsView| x.long_day),
        i_hour: opt_part(d, |x: DateParamsView| x.i_hour),
        i_minute: opt_part(d, |x: DateParamsView| x.i_minute),
        i_second: opt_part(d, |x: DateParamsView| x.i_second),
        ..v
    }
}

/// The parameters of a page, or `None` where one of its dates cannot be
/// written. The parts of the publishing date stand both under
/// `publishing_date` and at the top level (see [`with_flat_date`]).
pub open spec fn path_params(p: PageView) -> Option<PathParamsView> {
    let base = PathParamsView {
        title: Seq::empty(),
        url_title: Seq::empty(),
        summary: Seq::empty(),
        authors: None,
        tags: None,
        timestamp: None,
        i_year: None,
        short_year: Seq::empty(),
        i_month: None,
        month: Seq::empty(),
        short_month: Seq::empty(),
        long_month: Seq::empty(),
        i_day: None,
        day: Seq::empty(),
        short_day: Seq::empty(),
        long_day: Seq::empty(),
        i_hour: None,
        i_minute: None,
        i_second: None,
        publishing_date: None,
        last_edit_date: None,
        data: None,
        path: p.path,
        rev_path: reversed(p.path),
        file_name: file_stem(p.path),
    };
    match p.metadata {
        None => Some(base),
        Some(m) => match (opt_date_params(m.publishing_date), opt_date_params(m.last_edit_date)) {
            (Some(pd), Some(ld)) => Some(with_flat_date(PathParamsView {
                title: or_empty(m.title),
                url_title: uri_friendly(or_empty(m.title)),
                summary: or_empty(m.summary),
                authors: Some(names_of(m.authors)),
                tags: Some(m.tags),
                publishing_date: pd,
                last_edit_date: ld,
                data: Some(m.data),
                ..base
            })),
            _ => None,
        },
    }
}

/// Returns the parts of an optional date (see [`opt_date_params`]).
fn make_opt_date(ts: Option<i64>) -> (r: Option<Option<DateParams>>)
    ensures
        r.is_some() == opt_date_params(ts).is_some(),
        r.is_some() ==> match r.unwrap() {
            Some(d) => opt_date_params(ts).unwrap() == Some(d.deep_view()),
            None => opt_date_params(ts).unwrap() is None,
        },
{
    match ts {
        Some(t) => match make_date_params(t) {
            Some(d) => Some(Some(d)),
            None => None,
        },
        None => Some(None),
    }
}

/// Returns the names of a list of authors.
fn author_name_list(authors: &Vec<crate::pages::Author>) -> (r: Vec<String>)
    ensures
        r.deep_view() == names_of(authors.deep_view()),
{
    let mut r: Vec<String> = Vec::new();
    let mut i: usize = 0;
    while i < authors.len()
        invariant
            i <= authors.len(),
            r.deep_view() == names_of(authors.deep_view()).take(i as int),
        decreases authors.len() - i,
    {
        let ghost before = r;
        let s = copy_string(&authors[i].name);
        r.push(s);
        proof {
            lemma_push_deep_view(before, r, s);
            assert(r.deep_view() =~= names_of(authors.deep_view()).take(i + 1));
        }
        i = i + 1;
    }
    proof {
        assert(names_of(authors.deep_view()).take(authors.len() as int) =~= names_of(authors.deep_view()));
    }
    r
}

/// Returns the text of an optional string, empty where it is not set.
fn text_or_empty(o: &Option<String>) -> (r: String)
    ensures
        r@ == or_empty(o.deep_view()),
{
    match o {
        Some(s) => copy_string(s),
        None => String::new(),
    }
}

/// Returns a path in reverse order.
fn reverse_path(path: &Vec<String>) -> (r: Vec<String>)
    ensures
        r.deep_view() == reversed(path.deep_view()),
{
    let mut r: Vec<String> = Vec::new();
    let mut i: usize = path.len();
    while i > 0
        invariant
            i <= path.len(),
            r.deep_view() == reversed(path.deep_view()).take(path.len() - i),
        decreases i,
    {
        let ghost before = r;
        let s = copy_string(&path[i - 1]);
        r.push(s);
        proof {
            lemma_push_deep_view(before, r, s);
            assert(r.deep_view() =~= reversed(path.deep_view()).take(path.len() - i + 1));
        }
        i = i - 1;
    }
    proof {
        assert(reversed(path.deep_view()).take(path.len() as int) =~= reversed(path.deep_view()));
    }
    r
}

/// Returns the name of the file of a page without its extension (see
/// [`file_stem`]).
pub fn file_stem_of(path: &Vec<String>) -> (r: String)
    ensures
        r@ == file_stem(path.deep_view()),
{
    if path.len() == 0 {
        return String::new();
    }
    let last = &path[path.len() - 1];
    match rfind_char(last.as_str(), '.') {
        Some(i) => {
            let cs = chars_of(last.as_str());
            string_of_range(&cs, 0, i)
        },
        None => copy_string(last),
    }
}

fn opt_copy(s: &String) -> (r: Option<String>)
    ensures
        r.deep_view() == Some(s@),
{
    Some(copy_string(s))
}

impl PathParams {
    /// Sets the top-level parts of the publishing date from it (see
    /// [`with_flat_date`]).
    fn fill_flat_date(&mut self)
        ensures
            final(self).deep_view() == with_flat_date(old(self).deep_view()),
    {
        proof {
            reveal(with_flat_date);
        }
        match &self.publishing_date {
            Some(d) => {
                let timestamp = d.timestamp;
                let i_year = opt_copy(&d.i_year);
                let short_year = copy_string(&d.short_year);
                let i_month = opt_copy(&d.i_month);
                let month = copy_string(&d.month);
                let short_month = copy_string(&d.short_month);
                let long_month = copy_string(&d.long_month);
                let i_day = opt_copy(&d.i_day);
                let day = copy_string(&d.day);
                let short_day = copy_string(&d.short_day);
                let long_day = copy_string(&d.long_day);
                let i_hour = opt_copy(&d.i_hour);
                let i_minute = opt_copy(&d.i_minute);
                let i_second = opt_copy(&d.i_second);
                self.timestamp = Some(timestamp);
                self.i_year = i_year;
                self.short_year = short_year;
                self.i_month = i_month;
                self.month = month;
                self.short_month = short_month;
                self.long_month = long_month;
                self.i_day = i_day;
                self.day = day;
                self.short_day = short_day;
                self.long_day = long_day;
                self.i_hour = i_hour;
                self.i_minute = i_minute;
                self.i_second = i_second;
            },
            None => {
                self.timestamp = None;
                self.i_year = None;
                self.short_year = String::new();
                self.i_month = None;
                self.month = String::new();
                self.short_month = String::new();
                self.long_month = String::new();
                self.i_day = None;
                self.day = String::new();
                self.short_day = String::new();
                self.long_day = String::new();
                self.i_hour = None;
                self.i_minute = None;
                self.i_second = None;
            },
        }
    }
}

impl PathParams {
    /// Returns the parameters of a page (see [`path_params`]).
    pub fn of_page(p: &Page) -> (r: Option<PathParams>)
        ensures
            r.is_some() == path_params(p.deep_view()).is_some(),
            r.is_some() ==> r.unwrap().deep_view() == path_params(p.deep_view()).unwrap(),
    {
        let path = copy_strings(&p.path);
        let rev_path = reverse_path(&p.path);
        let file_name = file_stem_of(&p.path);
        match &p.metadata {
            None => {
                let mut r = PathParams {
                title: String::new(),
                url_title: String::new(),
                summary: String::new(),
                authors: None,
                tags: None,
                timestamp: None,
                i_year: None,
                short_year: String::new(),
                i_month: None,
                month: String::new(),
                short_month: String::new(),
                long_month: String::new(),
                i_day: None,
                day: String::new(),
                short_day: String::new(),
                long_day: String::new(),
                i_hour: None,
                i_minute: None,
                i_second: None,
                publishing_date: None,
                last_edit_date: None,
                data: None,
                path,
                rev_path,
                file_name,
            };
                r.fill_flat_date();
                proof {
                    reveal(with_flat_date);
                }
                Some(r)
            },
            Some(m) => {
                let pd = match make_opt_date(m.publishing_date) {
                    Some(d) => d,
                    None => return None,
                };
                let ld = match make_opt_date(m.last_edit_date) {
                    Some(d) => d,
                    None => return None,
                };
                let title = text_or_empty(&m.title);
                let url_title = uri_friendly_string(title.as_str());
                let mut r = PathParams {
                    title,
                    url_title,
                    summary: text_or_empty(&m.summary),
                    authors: Some(author_name_list(&m.authors)),
                    tags: Some(copy_strings(&m.tags)),
                    timestamp: None,
                    i_year: None,
                    short_year: String::new(),
                    i_month: None,
                    month: String::new(),
                    short_month: String::new(),
                    long_month: String::new(),
                    i_day: None,
                    day: String::new(),
                    short_day: String::new(),
                    long_day: String::new(),
                    i_hour: None,
                    i_minute: None,
                    i_second: None,
                    publishing_date: pd,
                    last_edit_date: ld,
                    data: Some(crate::pages::copy_data(&m.data)),
                    path,
                    rev_path,
                    file_name,
                };
                r.fill_flat_date();
                Some(r)
            },
        }
    }
}

/// The JSON of a data value.
pub open spec fn value_json(v: ValueView) -> Seq<char> {
    match v {
        ValueView::Null => json_null(),
        ValueView::Bool(b) => json_bool(b),
        ValueView::I32(i) => json_int(i as int),
        ValueView::I64(i) => json_int(i as int),
        ValueView::Str(s) => json_string(s),
    }
}

/// The JSON object of the data of metadata.
pub open spec fn data_json(d: Seq<(Seq<char>, ValueView)>) -> Seq<char> {
    json_object(d.map_values(|e: (Seq<char>, ValueView)| json_member(e.0, value_json(e.1))))
}

/// The JSON of an optional list of strings.
pub open spec fn opt_strings_json(o: Option<Seq<Seq<char>>>) -> Seq<char> {
    match o {
        Some(v) => json_strings(v),
        None => json_null(),
    }
}

/// The JSON of optional date parts.
pub open spec fn opt_date_json(o: Option<DateParamsView>) -> Seq<char> {
    match o {
        Some(d) => date_json(d),
        None => json_null(),
    }
}

/// The JSON of optional data.
pub open spec fn opt_data_json(o: Option<Seq<(Seq<char>, ValueView)>>) -> Seq<char> {
    match o {
        Some(d) => data_json(d),
        None => json_null(),
    }
}

/// The JSON of an optional number, given as its text.
pub open spec fn opt_raw_json(o: Option<Seq<char>>) -> Seq<char> {
    match o {
        Some(t) => t,
        None => json_null(),
    }
}

/// The JSON of an optional integer.
pub open spec fn opt_int_json(o: Option<i64>) -> Seq<char> {
    match o {
        Some(i) => json_int(i as int),
        None => json_null(),
    }
}

/// The top-level members of the parts of the publishing date, each after a
/// comma.
#[verifier::opaque]
pub open spec fn flat_date_json(v: PathParamsView) -> Seq<char> {
    seq![','] + json_member("timestamp"@, opt_int_json(v.timestamp))
        + seq![','] + json_member("i_year"@, opt_raw_json(v.i_year))
        + seq![','] + json_member("short_year"@, json_string(v.short_year))
        + seq![','] + json_member("i_month"@, opt_raw_json(v.i_month))
        + seq![','] + json_member("month"@, json_string(v.month))
        + seq![','] + json_member("short_month"@, json_string(v.short_month))
        + seq![','] + json_member("long_month"@, json_string(v.long_month))
        + seq![','] + json_member("i_day"@, opt_raw_json(v.i_day))
        + seq![','] + json_member("day"@, json_string(v.day))
        + seq![','] + json_member("short_day"@, json_string(v.short_day))
        + seq![','] + json_member("long_day"@, json_string(v.long_day))
        + seq![','] + json_member("i_hour"@, opt_raw_json(v.i_hour))
        + seq![','] + json_member("i_minute"@, opt_raw_json(v.i_minute))
        + seq![','] + json_member("i_second"@, opt_raw_json(v.i_second))
}

/// The JSON that a path pattern is rendered with.
pub open spec fn params_json(v: PathParamsView) -> Seq<char> {
    seq!['{'] + json_member("title"@, json_string(v.title))
        + seq![','] + json_member("url_title"@, json_string(v.url_title))
        + seq![','] + json_member("summary"@, json_string(v.summary))
        + seq![','] + json_member("authors"@, opt_strings_json(v.authors))
        + seq![','] + json_member("tags"@, opt_strings_json(v.tags))
        + flat_date_json(v)
        + seq![','] + json_member("publishing_date"@, opt_date_json(v.publishing_date))
        + seq![','] + json_member("last_edit_date"@, opt_date_json(v.last_edit_date))
        + seq![','] + json_member("data"@, opt_data_json(v.data))
        + seq![','] + json_member("path"@, json_strings(v.path))
        + seq![','] + json_member("rev_path"@, json_strings(v.rev_path))
        + seq![','] + json_member("file_name"@, json_string(v.file_name))
        + seq!['}']
}

/// Returns the JSON of a data value.
fn value_json_text(v: &Value) -> (r: String)
    ensures
        r@ == value_json(v.deep_view()),
{
    let mut r = String::new();
    match v {
        Value::Null => write_null(&mut r),
        Value::Bool(b) => write_bool(&mut r, *b),
        Value::I32(i) => write_int(&mut r, *i as i64),
        Value::I64(i) => write_int(&mut r, *i),
        Value::Str(s) => write_json_string(&mut r, s.as_str()),
    }
    proof {
        assert(r@ =~= value_json(v.deep_view()));
    }
    r
}

/// Returns the JSON object of the data of metadata.
fn data_json_text(d: &Vec<(String, Value)>) -> (r: String)
    ensures
        r@ == data_json(d.deep_view()),
{
    let ghost items = d.deep_view().map_values(|e: (Seq<char>, ValueView)| json_member(e.0, value_json(e.1)));
    let mut out = String::new();
    push_char(&mut out, '{');
    let mut i: usize = 0;
    while i < d.len()
        invariant
            i <= d.len(),
            items == d.deep_view().map_values(|e: (Seq<char>, ValueView)| json_member(e.0, value_json(e.1))),
            out@ == seq!['{'] + comma_joined(items.take(i as int)),
        decreases d.len() - i,
    {
        let ghost o = out@;
        if i > 0 {
            push_char(&mut out, ',');
        }
        let ghost o2 = out@;
        write_key(&mut out, d[i].0.as_str());
        let vt = value_json_text(&d[i].1);
        push_str(&mut out, vt.as_str());
        proof {
            assert(out@ =~= o2 + items[i as int]);
            assert(items.take(i + 1) =~= items.take(i as int).push(items[i as int]));
            lemma_comma_joined_push(items.take(i as int), items[i as int]);
            assert(out@ =~= seq!['{'] + comma_joined(items.take(i + 1)));
        }
        i = i + 1;
    }
    push_char(&mut out, '}');
    proof {
        assert(items.take(d.len() as int) =~= items);
        assert(out@ =~= data_json(d.deep_view()));
    }
    out
}

/// Returns the JSON of an optional list of strings.
fn opt_strings_text(o: &Option<Vec<String>>) -> (r: String)
    ensures
        r@ == opt_strings_json(o.deep_view()),
{
    let mut r = String::new();
    match o {
        Some(v) => write_strings(&mut r, v),
        None => write_null(&mut r),
    }
    proof {
        assert(r@ =~= opt_strings_json(o.deep_view()));
    }
    r
}

/// Returns the JSON of optional date parts.
fn opt_date_text(o: &Option<DateParams>) -> (r: String)
    ensures
        r@ == opt_date_json(match *o {
            Some(d) => Some(d.deep_view()),
            None => None,
        }),
{
    match o {
        Some(d) => date_json_text(d),
        None => {
            let mut r = String::new();
            write_null(&mut r);
            proof {
                assert(r@ =~= json_null());
            }
            r
        },
    }
}

/// Returns the JSON of optional data.
fn opt_data_text(o: &Option<Vec<(String, Value)>>) -> (r: String)
    ensures
        r@ == opt_data_json(o.deep_view()),
{
    match o {
        Some(d) => data_json_text(d),
        None => {
            let mut r = String::new();
            write_null(&mut r);
            proof {
                assert(r@ =~= json_null());
            }
            r
        },
    }
}

/// Returns the JSON of an optional number given as its text.
fn opt_raw_text(o: &Option<String>) -> (r: String)
    ensures
        r@ == opt_raw_json(o.deep_view()),
{
    match o {
        Some(t) => copy_string(t),
        None => {
            let mut r = String::new();
            write_null(&mut r);
            proof {
                assert(r@ =~= json_null());
            }
            r
        },
    }
}

/// Returns the JSON of an optional integer.
fn opt_int_text(o: Option<i64>) -> (r: String)
    ensures
        r@ == opt_int_json(o),
{
    let mut r = String::new();
    match o {
        Some(i) => write_int(&mut r, i),
        None => write_null(&mut r),
    }
    proof {
        assert(r@ =~= opt_int_json(o));
    }
    r
}

impl PathParams {
    /// Appends the top-level members of the parts of the publishing date
    /// (see [`flat_date_json`]).
    #[verifier::spinoff_prover]
    #[verifier::rlimit(80)]
    fn write_flat_date(&self, out: &mut String)
        ensures
            final(out)@ == old(out)@ + flat_date_json(self.deep_view()),
    {
        let ghost o = out@;
        let t = opt_int_text(self.timestamp);
        write_raw_member(out, "timestamp", t.as_str());
        let t = opt_raw_text(&self.i_year);
        write_raw_member(out, "i_year", t.as_str());
        write_string_member(out, "short_year", self.short_year.as_str());
        let t = opt_raw_text(&self.i_month);
        write_raw_member(out, "i_month", t.as_str());
        write_string_member(out, "month", self.month.as_str());
        write_string_member(out, "short_month", self.short_month.as_str());
        write_string_member(out, "long_month", self.long_month.as_str());
        let t = opt_raw_text(&self.i_day);
        write_raw_member(out, "i_day", t.as_str());
        write_string_member(out, "day", self.day.as_str());
        write_string_member(out, "short_day", self.short_day.as_str());
        write_string_member(out, "long_day", self.long_day.as_str());
        let t = opt_raw_text(&self.i_hour);
        write_raw_member(out, "i_hour", t.as_str());
        let t = opt_raw_text(&self.i_minute);
        write_raw_member(out, "i_minute", t.as_str());
        let t = opt_raw_text(&self.i_second);
        write_raw_member(out, "i_second", t.as_str());
        proof {
            reveal(flat_date_json);
            assert(out@ =~= o + flat_date_json(self.deep_view()));
        }
    }
}

impl PathParams {
    /// Returns the JSON that a path pattern is rendered with (see
    /// [`params_json`]).
    #[verifier::spinoff_prover]
    #[verifier::rlimit(40)]
    pub fn to_json(&self) -> (r: String)
        ensures
            r@ == params_json(self.deep_view()),
    {
        let mut out = String::new();
        push_char(&mut out, '{');
        write_key(&mut out, "title");
        write_json_string(&mut out, self.title.as_str());
        assert(out@ =~= seq!['{'] + json_member("title"@, json_string(self.title@)));
        write_string_member(&mut out, "url_title", self.url_title.as_str());
        write_string_member(&mut out, "summary", self.summary.as_str());
        let t = opt_strings_text(&self.authors);
        write_raw_member(&mut out, "authors", t.as_str());
        let t = opt_strings_text(&self.tags);
        write_raw_member(&mut out, "tags", t.as_str());
        self.write_flat_date(&mut out);
        let t = opt_date_text(&self.publishing_date);
        write_raw_member(&mut out, "publishing_date", t.as_str());
        let t = opt_date_text(&self.last_edit_date);
        write_raw_member(&mut out, "last_edit_date", t.as_str());
        let t = opt_data_text(&self.data);
        write_raw_member(&mut out, "data", t.as_str());
        let mut t = String::new();
        write_strings(&mut t, &self.path);
        assert(t@ =~= json_strings(self.path.deep_view()));
        write_raw_member(&mut out, "path", t.as_str());
        let mut t = String::new();
        write_strings(&mut t, &self.rev_path);
        assert(t@ =~= json_strings(self.rev_path.deep_view()));
        write_raw_member(&mut out, "rev_path", t.as_str());
        write_string_member(&mut out, "file_name", self.file_name.as_str());
        push_char(&mut out, '}');
        out
    }
}

/// Where a bound of the `path_join` helper points in a path of `len`
/// segments: a negative bound counts from the end, `-1` being the end.
pub open spec fn resolve_bound(x: int, len: int) -> int {
    if x < 0 {
        if len + 1 + x > 0 {
            len + 1 + x
        } else {
            0
        }
    } else {
        x
    }
}

/// What the `path_join` helper writes: the segments of a path from `from`
/// up to `to` (the end where it is not given) joined with `/`, or `None`
/// where the range does not lie in the path.
pub open spec fn path_join_spec(source: Seq<Seq<char>>, from: i64, to: Option<i64>) -> Option<Seq<char>> {
    let len = source.len() as int;
    let f = resolve_bound(from as int, len);
    let t = match to {
        Some(t) => resolve_bound(t as int, len),
        None => len,
    };
    if f <= t && t <= len {
        Some(crate::git::join_path(source.subrange(f, t)))
    } else {
        None
    }
}

/// Returns what the `path_join` helper writes (see [`path_join_spec`]).
pub fn path_join_range(source: &Vec<String>, from: i64, to: Option<i64>) -> (r: Option<String>)
    ensures
        r.is_some() == path_join_spec(source.deep_view(), from, to).is_some(),
        r.is_some() ==> r.unwrap()@ == path_join_spec(source.deep_view(), from, to).unwrap(),
{
    let len: i128 = source.len() as i128;
    let f: i128 = if from < 0 {
        let x = len + 1 + (from as i128);
        if x > 0 {
            x
        } else {
            0
        }
    } else {
        from as i128
    };
    let t: i128 = match to {
        Some(t) => if t < 0 {
            let x = len + 1 + (t as i128);
            if x > 0 {
                x
            } else {
                0
            }
        } else {
            t as i128
        },
        None => len,
    };
    if f > t || t > len {
        return None;
    }
    let fu = f as usize;
    let tu = t as usize;
    let mut part: Vec<String> = Vec::new();
    let mut i: usize = fu;
    while i < tu
        invariant
            fu <= i <= tu <= source.len(),
            part.deep_view() == source.deep_view().subrange(fu as int, i as int),
        decreases tu - i,
    {
        let ghost before = part;
        let s = copy_string(&source[i]);
        part.push(s);
        proof {
            lemma_push_deep_view(before, part, s);
            assert(part.deep_view() =~= source.deep_view().subrange(fu as int, i + 1));
        }
        i = i + 1;
    }
    Some(crate::git::join_segments(&part))
}

/// What the `path_join` helper writes for the arguments it was given (see
/// [`path_join_spec`]): its first argument is an array, whose items that are
/// not strings count as empty (`None` where that argument is missing or not
/// an array); a start that is missing or not an integer counts as `0`, an
/// end that is missing or not an integer as the end of the path.
pub open spec fn path_join_args_spec(items: Option<Seq<Option<Seq<char>>>>, from: Option<i64>, to: Option<i64>) -> Option<Seq<char>> {
    match items {
        None => None,
        Some(v) => path_join_spec(
            v.map_values(|o: Option<Seq<char>>| or_empty(o)),
            match from {
                Some(f) => f,
                None => 0,
            },
            to,
        ),
    }
}

/// Returns what the `path_join` helper writes for its arguments (see
/// [`path_join_args_spec`]).
pub fn path_join_args(items: Option<Vec<Option<String>>>, from: Option<i64>, to: Option<i64>) -> (r: Option<String>)
    ensures
        r.deep_view() == path_join_args_spec(items.deep_view(), from, to),
{
    match items {
        None => None,
        Some(v) => {
            let ghost vv = v.deep_view().map_values(|o: Option<Seq<char>>| or_empty(o));
            let mut src: Vec<String> = Vec::new();
            let mut i: usize = 0;
            while i < v.len()
                invariant
                    i <= v.len(),
                    vv == v.deep_view().map_values(|o: Option<Seq<char>>| or_empty(o)),
                    src.deep_view() == vv.take(i as int),
                decreases v.len() - i,
            {
                let s = match &v[i] {
                    Some(t) => copy_string(t),
                    None => String::new(),
                };
                let ghost before = src;
                src.push(s);
                proof {
                    lemma_push_deep_view(before, src, s);
                    assert(vv.take(i + 1) =~= vv.take(i as int).push(vv[i as int]));
                }
                i = i + 1;
            }
            proof {
                assert(vv.take(v.len() as int) =~= vv);
            }
            let f: i64 = match from {
                Some(f) => f,
                None => 0,
            };
            let r = path_join_range(&src, f, to);
            proof {
                if r.is_some() {
                    assert(r.deep_view() == Some(r.unwrap()@));
                }
            }
            r
        },
    }
}

/// The stage that moves pages to the path their `path` pattern renders.
pub struct PathGenerator {
    pub name: String,
}

impl PathGenerator {
    /// A path generator stage.
    pub fn new(name: String) -> (r: PathGenerator)
        ensures
            r.name == name,
    {
        PathGenerator { name }
    }
}

/// The path pattern of a page: the text under `path` in its data.
pub open spec fn pattern_of(p: PageView) -> Option<Seq<char>> {
    match p.metadata {
        Some(m) => match crate::hbs::data_get(m.data, "path"@) {
            Some(ValueView::Str(s)) => Some(s),
            _ => None,
        },
        None => None,
    }
}

/// The pages of a bundle that have a path pattern, in bundle order.
pub open spec fn path_candidates(b: Seq<PageView>) -> Seq<PageView> {
    b.filter(|p: PageView| pattern_of(p) is Some)
}

/// The pages of a bundle that have no path pattern, in bundle order.
pub open spec fn path_keepers(b: Seq<PageView>) -> Seq<PageView> {
    b.filter(|p: PageView| pattern_of(p) is None)
}

/// What is rendered for each page with a path pattern: the pattern and the
/// JSON of its parameters, or `None` where the parameters of one cannot be
/// made.
pub open spec fn render_requests(cs: Seq<PageView>) -> Option<Seq<(Seq<char>, Seq<char>)>>
    decreases cs.len(),
{
    if cs.len() == 0 {
        Some(Seq::empty())
    } else {
        match (render_requests(cs.drop_last()), path_params(cs.last())) {
            (Some(rs), Some(pp)) => Some(rs.push((pattern_of(cs.last()).unwrap(), params_json(pp)))),
            _ => None,
        }
    }
}

/// The pages of a bundle that have a path pattern, in bundle order, each
/// moved to its rendered pattern split on `/`: the `k`-th of them to the
/// `k`-th rendered pattern.
pub open spec fn moved_candidates(b: Seq<PageView>, rendered: Seq<Seq<char>>) -> Seq<PageView>
    decreases b.len(),
{
    if b.len() == 0 {
        Seq::empty()
    } else {
        let prev = moved_candidates(b.drop_last(), rendered);
        if pattern_of(b.last()) is Some {
            prev.push(b.last().with_path(split_on(rendered[prev.len() as int], '/')))
        } else {
            prev
        }
    }
}

/// What the path generator makes of a bundle, given the rendered pattern of
/// each page that has one: the pages without a pattern, then those with one
/// moved to their rendered path.
pub open spec fn path_output(b: Seq<PageView>, rendered: Seq<Seq<char>>) -> Seq<PageView> {
    path_keepers(b) + moved_candidates(b, rendered)
}

/// As many pages are moved as have a pattern.
pub proof fn lemma_moved_len(b: Seq<PageView>, rendered: Seq<Seq<char>>)
    ensures
        moved_candidates(b, rendered).len() == path_candidates(b).len(),
    decreases b.len(),
{
    reveal_with_fuel(Seq::filter, 1);
    if b.len() > 0 {
        lemma_moved_len(b.drop_last(), rendered);
        assert(b.drop_last().filter(|p: PageView| pattern_of(p) is Some) == path_candidates(b.drop_last()));
    }
}

/// Returns the path pattern of a page (see [`pattern_of`]).
pub fn page_pattern(p: &Page) -> (r: Option<String>)
    ensures
        r.is_some() == pattern_of(p.deep_view()).is_some(),
        r.is_some() ==> r.unwrap()@ == pattern_of(p.deep_view()).unwrap(),
{
    match &p.metadata {
        Some(m) => {
            let key = String::from_str("path");
            proof {
                reveal_strlit("path");
            }
            let mut i: usize = 0;
            proof {
                assert(m.data.deep_view().skip(0) =~= m.data.deep_view());
            }
            while i < m.data.len()
                invariant
                    i <= m.data.len(),
                    key@ == "path"@,
                    p.deep_view().metadata == Some(m.deep_view()),
                    crate::hbs::data_get(m.data.deep_view(), "path"@) == crate::hbs::data_get(m.data.deep_view().skip(i as int), "path"@),
                decreases m.data.len() - i,
            {
                let ghost rest = m.data.deep_view().skip(i as int);
                proof {
                    assert(rest[0] == m.data.deep_view()[i as int]);
                    assert(rest.drop_first() =~= m.data.deep_view().skip(i + 1));
                }
                if m.data[i].0 == key {
                    return match &m.data[i].1 {
                        Value::Str(s) => Some(copy_string(s)),
                        _ => None,
                    };
                }
                i = i + 1;
            }
            proof {
                assert(m.data.deep_view().skip(i as int) =~= Seq::<(Seq<char>, ValueView)>::empty());
            }
            None
        },
        None => None,
    }
}

/// Returns what is rendered for a page: nothing where it has no path
/// pattern, else its pattern and the JSON of its parameters, or an error
/// where a date of the page cannot be written.
fn page_request(p: &Page) -> (r: Result<Option<(String, String)>, PagesError>)
    ensures
        pattern_of(p.deep_view()) is None ==> (r matches Ok(o) && o is None),
        pattern_of(p.deep_view()) is Some && path_params(p.deep_view()) is None ==> r is Err,
        pattern_of(p.deep_view()) is Some && path_params(p.deep_view()) is Some ==> (r matches Ok(o) && o matches Some(e) && e.deep_view() == (
            pattern_of(p.deep_view()).unwrap(),
            params_json(path_params(p.deep_view()).unwrap()),
        )),
{
    match page_pattern(p) {
        Some(pattern) => match PathParams::of_page(p) {
            Some(pp) => Ok(Some((pattern, pp.to_json()))),
            None => Err(PagesError::Render(String::from_str("a date of the page cannot be written"))),
        },
        None => Ok(None),
    }
}

impl PathGenerator {
    /// Returns, for each page with a path pattern in bundle order, the
    /// pattern and the JSON of the page's parameters to render it with (see
    /// [`render_requests`]), or an error where a date of a page cannot be
    /// written.
    pub fn render_requests(&self, bundle: &Vec<Page>) -> (r: Result<Vec<(String, String)>, PagesError>)
        ensures
            r.is_ok() == render_requests(path_candidates(bundle.deep_view())).is_some(),
            r.is_ok() ==> r.unwrap().deep_view() == render_requests(path_candidates(bundle.deep_view())).unwrap(),
    {
        let ghost f = |p: PageView| pattern_of(p) is Some;
        let mut r: Vec<(String, String)> = Vec::new();
        let mut i: usize = 0;
        proof {
            assert(bundle.deep_view().take(0).filter(f) =~= Seq::<PageView>::empty());
            assert(r.deep_view() =~= Seq::<(Seq<char>, Seq<char>)>::empty());
        }
        while i < bundle.len()
            invariant
                i <= bundle.len(),
                f == (|p: PageView| pattern_of(p) is Some),
                render_requests(bundle.deep_view().take(i as int).filter(f)) == Some(r.deep_view()),
            decreases bundle.len() - i,
        {
            let ghost prev = bundle.deep_view().take(i as int).filter(f);
            let ghost pv = bundle.deep_view()[i as int];
            proof {
                reveal_with_fuel(Seq::filter, 1);
                assert(bundle.deep_view().take(i + 1).drop_last() =~= bundle.deep_view().take(i as int));
                assert(bundle.deep_view().take(i + 1).last() == pv);
            }
            match page_request(&bundle[i]) {
                Ok(Some(e)) => {
                    proof {
                        assert(bundle.deep_view().take(i + 1).filter(f) == prev.push(pv));
                        assert(prev.push(pv).drop_last() =~= prev);
                    }
                    let ghost before = r;
                    r.push(e);
                    proof {
                        lemma_push_deep_view(before, r, e);
                    }
                },
                Ok(None) => {
                    proof {
                        assert(bundle.deep_view().take(i + 1).filter(f) == prev);
                    }
                },
                Err(err) => {
                    proof {
                        assert(bundle.deep_view().take(i + 1).filter(f) == prev.push(pv));
                        assert(prev.push(pv).drop_last() =~= prev);
                        lemma_requests_fail(bundle.deep_view(), f, i as int + 1);
                    }
                    return Err(err);
                },
            }
            i = i + 1;
        }
        proof {
            assert(bundle.deep_view().take(bundle.len() as int) =~= bundle.deep_view());
        }
        Ok(r)
    }
}

/// If the requests of the pages up to some point cannot be made, neither
/// can those of the whole bundle.
proof fn lemma_requests_fail(b: Seq<PageView>, f: spec_fn(PageView) -> bool, k: int)
    requires
        0 <= k <= b.len(),
        f == (|p: PageView| pattern_of(p) is Some),
        render_requests(b.take(k).filter(f)) is None,
    ensures
        render_requests(path_candidates(b)) is None,
    decreases b.len() - k,
{
    if k < b.len() {
        assert(b.take(k + 1).drop_last() =~= b.take(k));
        reveal_with_fuel(Seq::filter, 1);
        if f(b[k]) {
            assert(b.take(k + 1).filter(f) == b.take(k).filter(f).push(b[k]));
            assert(b.take(k).filter(f).push(b[k]).drop_last() =~= b.take(k).filter(f));
        } else {
            assert(b.take(k + 1).filter(f) == b.take(k).filter(f));
        }
        lemma_requests_fail(b, f, k + 1);
    } else {
        assert(b.take(k) =~= b);
    }
}

impl PathGenerator {
    /// Returns what the stage makes of a bundle (see [`path_output`]), given
    /// the rendered pattern of each page that has one, in bundle order, and
    /// the report of the run.
    pub fn apply_paths(&self, bundle: &Vec<Page>, rendered: &Vec<String>) -> (r: (Vec<Page>, ProcessingResult))
        requires
            rendered.len() == path_candidates(bundle.deep_view()).len(),
        ensures
            r.0.deep_view() == path_output(bundle.deep_view(), rendered.deep_view()),
            r.1.stage_name@ == self.name@,
            r.1.sub_results@.len() == 0,
    {
        let start = now_millis();
        let ghost b = bundle.deep_view();
        let ghost g = |p: PageView| pattern_of(p) is None;
        let mut out: Vec<Page> = Vec::new();
        let mut i: usize = 0;
        while i < bundle.len()
            invariant
                i <= bundle.len(),
                b == bundle.deep_view(),
                g == (|p: PageView| pattern_of(p) is None),
                out.deep_view() == b.take(i as int).filter(g),
            decreases bundle.len() - i,
        {
            proof {
                reveal_with_fuel(Seq::filter, 1);
                assert(b.take(i + 1).drop_last() =~= b.take(i as int));
            }
            if page_pattern(&bundle[i]).is_none() {
                let ghost before = out;
                let q = bundle[i].duplicate();
                out.push(q);
                proof {
                    lemma_push_deep_view(before, out, q);
                }
            }
            i = i + 1;
        }
        proof {
            assert(b.take(bundle.len() as int) =~= b);
            lemma_moved_len(b, rendered.deep_view());
        }
        let ghost keepers = out.deep_view();
        let mut moved: Vec<Page> = Vec::new();
        let mut i: usize = 0;
        while i < bundle.len()
            invariant
                i <= bundle.len(),
                b == bundle.deep_view(),
                rendered.len() == path_candidates(b).len(),
                moved.deep_view() == moved_candidates(b.take(i as int), rendered.deep_view()),
                moved_candidates(b.take(i as int), rendered.deep_view()).len() == path_candidates(b.take(i as int)).len(),
            decreases bundle.len() - i,
        {
            proof {
                assert(b.take(i + 1).drop_last() =~= b.take(i as int));
                lemma_moved_len(b.take(i + 1), rendered.deep_view());
                lemma_candidates_prefix(b, i as int);
            }
            if page_pattern(&bundle[i]).is_some() {
                let k = moved.len();
                let path = crate::assets::path_from_rendered(rendered[k].as_str());
                let q = bundle[i].change_path(path);
                let ghost before = moved;
                moved.push(q);
                proof {
                    lemma_push_deep_view(before, moved, q);
                }
            }
            i = i + 1;
        }
        proof {
            assert(b.take(bundle.len() as int) =~= b);
        }
        crate::bundle::append_pages(&mut out, moved);
        (out, leaf_result(copy_string(&self.name), start))
    }
}

/// The text that a path pattern renders to with the JSON of a page's
/// parameters, in handlebars' strict mode with the `path_join` helper (see
/// [`path_join_args_spec`]), or `None` where the parameters are no JSON or
/// the rendering fails.
pub uninterp spec fn rendered_path(pattern: Seq<char>, params: Seq<char>) -> Option<Seq<char>>;

/// The handlebars registry, carried through as an opaque value.
#[verifier::external_type_specification]
#[verifier::external_body]
pub struct ExHandlebars<'reg>(Handlebars<'reg>);

/// The registry path patterns are rendered with. Its field is private to
/// this module, where [`new_path_registry`] alone makes one.
struct PathRegistry {
    registry: Handlebars<'static>,
}

/// Makes the registry of path patterns: `Handlebars::new()` in strict mode,
/// with a `path_join` helper that hands its raw arguments (the first as an
/// array of optional strings, the other two as optional integers) to
/// [`path_join_args`] and fails where that gives nothing. Nothing is
/// claimed of the value; [`render_path_pattern`] renders with it.
#[verifier::external_body]
fn new_path_registry() -> (r: PathRegistry) {
    let mut registry = Handlebars::new();
    registry.set_strict_mode(true);
    registry.register_helper("path_join", Box::new(|h: &Helper, _: &Handlebars, _: &Context, _: &mut RenderContext, out: &mut dyn Output| {
        let n = |i| h.param(i).and_then(|v| v.value().as_i64());
        let items = h.param(0).and_then(|v| v.value().as_array()).map(|a| a.iter().map(|v| v.as_str().map(String::from)).collect());
        let joined = path_join_args(items, n(1), n(2));
        Ok(out.write(&joined.ok_or(RenderError::new("path_join"))?)?)
    }));
    PathRegistry { registry }
}

/// Renders a path pattern with the JSON of a page's parameters: the data is
/// read by `serde_json::from_str` and the template rendered by
/// `render_template` on the registry of [`new_path_registry`] (the only
/// maker of a [`PathRegistry`]). Claimed: the outcome is [`rendered_path`]
/// of the pattern and the parameters, a function of the two texts alone.
#[verifier::external_body]
fn render_path_pattern(registry: &PathRegistry, pattern: &str, params: &str) -> (r: Option<String>)
    ensures
        r.is_some() == rendered_path(pattern@, params@).is_some(),
        r.is_some() ==> r.unwrap()@ == rendered_path(pattern@, params@).unwrap(),
{
    registry.registry.render_template(pattern, &serde_json::from_str::<serde_json::Value>(params).ok()?).ok()
}

/// Whether every request renders.
pub open spec fn all_rendered(rs: Seq<(Seq<char>, Seq<char>)>) -> bool {
    forall|k: int| 0 <= k < rs.len() ==> (#[trigger] rendered_path(rs[k].0, rs[k].1)) is Some
}

/// The rendered text of each request, in order.
pub open spec fn rendered_paths(rs: Seq<(Seq<char>, Seq<char>)>) -> Seq<Seq<char>> {
    rs.map_values(|r: (Seq<char>, Seq<char>)| rendered_path(r.0, r.1).unwrap())
}

/// What the path generator makes of a bundle: each page with a pattern
/// moved to its rendered pattern (see [`path_output`]), or `None` where the
/// parameters of a page cannot be made or a pattern does not render.
pub open spec fn path_stage_output(b: Seq<PageView>) -> Option<Seq<PageView>> {
    match render_requests(path_candidates(b)) {
        Some(rs) => if all_rendered(rs) {
            Some(path_output(b, rendered_paths(rs)))
        } else {
            None
        },
        None => None,
    }
}

/// There is one request per page with a pattern.
proof fn lemma_requests_len(cs: Seq<PageView>)
    ensures
        render_requests(cs) matches Some(rs) ==> rs.len() == cs.len(),
    decreases cs.len(),
{
    if cs.len() > 0 {
        lemma_requests_len(cs.drop_last());
    }
}

impl PathGenerator {
    /// Runs the stage (see [`path_stage_output`]): makes the requests,
    /// renders each pattern, and moves the pages to their rendered paths.
    pub fn process(&self, bundle: &Vec<Page>) -> (r: Result<(Vec<Page>, ProcessingResult), PagesError>)
        ensures
            r.is_ok() == path_stage_output(bundle.deep_view()).is_some(),
            r.is_ok() ==> r.unwrap().0.deep_view() == path_stage_output(bundle.deep_view()).unwrap(),
            r.is_ok() ==> r.unwrap().1.stage_name@ == self.name@ && r.unwrap().1.sub_results@.len() == 0,
    {
        let requests = match self.render_requests(bundle) {
            Ok(rs) => rs,
            Err(e) => return Err(e),
        };
        let ghost rs = requests.deep_view();
        proof {
            lemma_requests_len(path_candidates(bundle.deep_view()));
        }
        let registry = new_path_registry();
        let mut rendered: Vec<String> = Vec::new();
        let mut k: usize = 0;
        while k < requests.len()
            invariant
                k <= requests.len(),
                rs == requests.deep_view(),
                render_requests(path_candidates(bundle.deep_view())) == Some(rs),
                rendered.deep_view() == rendered_paths(rs.take(k as int)),
                forall|j: int| 0 <= j < k ==> (#[trigger] rendered_path(rs[j].0, rs[j].1)) is Some,
            decreases requests.len() - k,
        {
            match render_path_pattern(&registry, requests[k].0.as_str(), requests[k].1.as_str()) {
                Some(text) => {
                    let ghost before = rendered;
                    rendered.push(text);
                    proof {
                        lemma_push_deep_view(before, rendered, text);
                        assert(rs[k as int] == (requests@[k as int].0@, requests@[k as int].1@));
                        assert(rendered_paths(rs.take(k + 1)) =~= rendered_paths(rs.take(k as int)).push(text@));
                    }
                },
                None => {
                    proof {
                        assert(rs[k as int] == (requests@[k as int].0@, requests@[k as int].1@));
                        assert(rendered_path(rs[k as int].0, rs[k as int].1) is None);
                        assert(!all_rendered(rs));
                    }
                    return Err(PagesError::Render(String::from_str("a path pattern does not render")));
                },
            }
            k = k + 1;
        }
        proof {
            assert(rs.take(requests.len() as int) =~= rs);
            assert(all_rendered(rs));
        }
        Ok(self.apply_paths(bundle, &rendered))
    }
}

/// The pages with a pattern among the first ones are no more than those of
/// the whole bundle.
proof fn lemma_candidates_prefix(b: Seq<PageView>, i: int)
    requires
        0 <= i < b.len(),
    ensures
        pattern_of(b[i]) is Some ==> path_candidates(b.take(i)).len() < path_candidates(b).len(),
    decreases b.len() - i,
{
    reveal_with_fuel(Seq::filter, 1);
    let f = |p: PageView| pattern_of(p) is Some;
    if i + 1 < b.len() {
        lemma_candidates_prefix(b, i + 1);
        lemma_filter_prefix_len(b, i + 1, f);
    }
    lemma_filter_prefix_len(b, i + 1, f);
    assert(b.take(i + 1).drop_last() =~= b.take(i));
}

/// Filtering a prefix keeps no more than filtering the whole.
proof fn lemma_filter_prefix_len(b: Seq<PageView>, k: int, f: spec_fn(PageView) -> bool)
    requires
        0 <= k <= b.len(),
    ensures
        b.take(k).filter(f).len() <= b.filter(f).len(),
    decreases b.len() - k,
{
    reveal_with_fuel(Seq::filter, 1);
    if k < b.len() {
        assert(b.take(k + 1).drop_last() =~= b.take(k));
        lemma_filter_prefix_len(b, k + 1, f);
    } else {
        assert(b.take(k) =~= b);
    }
}

} // verus!
