//! Verified helpers on strings and on sequences of strings (paths).
use vstd::prelude::*;
use vstd::string::StrSliceExecFns;

verus! {

/// Pushing onto a vector pushes the element's deep view onto its deep view.
pub proof fn lemma_push_deep_view<T: DeepView>(before: Vec<T>, after: Vec<T>, x: T)
    requires
        after@ == before@.push(x),
    ensures
        after.deep_view() == before.deep_view().push(x.deep_view()),
{
    assert(after@.len() == before@.len() + 1);
    assert(after@.last() == x);
    assert forall|j: int| 0 <= j < after@.len() implies after.deep_view()[j]
        == before.deep_view().push(x.deep_view())[j] by {
        if j < before@.len() {
            assert(after@[j] == before@[j]);
        }
    }
    assert(after.deep_view() =~= before.deep_view().push(x.deep_view()));
}

/// Appending a vector onto another appends the deep views.
pub proof fn lemma_append_deep_view<T: DeepView>(a: Vec<T>, b: Vec<T>, after: Vec<T>)
    requires
        after@ == a@ + b@,
    ensures
        after.deep_view() == a.deep_view() + b.deep_view(),
{
    assert forall|j: int| 0 <= j < after@.len() implies after.deep_view()[j] == (a.deep_view()
        + b.deep_view())[j] by {
        if j < a@.len() {
            assert(after@[j] == a@[j]);
        } else {
            assert(after@[j] == b@[j - a@.len()]);
        }
    }
    assert(after.deep_view() =~= a.deep_view() + b.deep_view());
}

/// Inserting into a vector inserts the deep view of the item.
pub proof fn lemma_insert_deep_view<T: DeepView>(before: Vec<T>, after: Vec<T>, k: int, x: T)
    requires
        0 <= k <= before@.len(),
        after@ == before@.insert(k, x),
    ensures
        after.deep_view() == before.deep_view().insert(k, x.deep_view()),
{
    assert forall|j: int| 0 <= j < after@.len() implies after.deep_view()[j]
        == before.deep_view().insert(k, x.deep_view())[j] by {
        if j < k {
            assert(after@[j] == before@[j]);
        } else if j > k {
            assert(after@[j] == before@[j - 1]);
        }
    }
    assert(after.deep_view() =~= before.deep_view().insert(k, x.deep_view()));
}

/// Returns a copy of a string.
pub fn copy_string(s: &String) -> (r: String)
    ensures
        r@ == s@,
{
    s.clone()
}

/// Returns a copy of a sequence of strings.
pub fn copy_strings(v: &Vec<String>) -> (r: Vec<String>)
    ensures
        r.deep_view() == v.deep_view(),
{
    let mut r: Vec<String> = Vec::new();
    let mut i: usize = 0;
    while i < v.len()
        invariant
            i <= v.len(),
            r.deep_view() == v.deep_view().take(i as int),
        decreases v.len() - i,
    {
        let ghost before = r;
        let c = v[i].clone();
        r.push(c);
        proof {
            lemma_push_deep_view(before, r, c);
            assert(r.deep_view() =~= v.deep_view().take(i + 1));
        }
        i = i + 1;
    }
    proof {
        assert(v.deep_view().take(v.len() as int) =~= v.deep_view());
    }
    r
}

/// Concatenates two paths: the segments of `a` followed by those of `b`.
pub fn join_paths(a: &Vec<String>, b: &Vec<String>) -> (r: Vec<String>)
    ensures
        r.deep_view() == a.deep_view() + b.deep_view(),
{
    let mut r = copy_strings(a);
    let mut i: usize = 0;
    while i < b.len()
        invariant
            i <= b.len(),
            r.deep_view() == a.deep_view() + b.deep_view().take(i as int),
        decreases b.len() - i,
    {
        let ghost before = r;
        let c = b[i].clone();
        r.push(c);
        proof {
            lemma_push_deep_view(before, r, c);
            assert(r.deep_view() =~= a.deep_view() + b.deep_view().take(i + 1));
        }
        i = i + 1;
    }
    proof {
        assert(b.deep_view().take(b.len() as int) =~= b.deep_view());
    }
    r
}

/// Appends a character to a string: std's `String::push`, which the
/// standard library documents as appending the character at the end.
#[verifier::external_body]
pub(crate) fn push_char(s: &mut String, c: char)
    ensures
        final(s)@ == old(s)@.push(c),
{
    s.push(c);
}

/// Returns the characters of a string.
pub fn chars_of(s: &str) -> (r: Vec<char>)
    ensures
        r@ == s@,
{
    let n = s.unicode_len();
    let mut r: Vec<char> = Vec::new();
    let mut i: usize = 0;
    while i < n
        invariant
            i <= n,
            n == s@.len(),
            r@ == s@.take(i as int),
        decreases n - i,
    {
        let c = s.get_char(i);
        r.push(c);
        proof {
            assert(r@ =~= s@.take(i + 1));
        }
        i = i + 1;
    }
    proof {
        assert(s@.take(n as int) =~= s@);
    }
    r
}

/// Builds a string from the characters `cs[from..to]`.
pub fn string_of_range(cs: &Vec<char>, from: usize, to: usize) -> (r: String)
    requires
        from <= to <= cs.len(),
    ensures
        r@ == cs@.subrange(from as int, to as int),
{
    let mut r = String::new();
    let mut i: usize = from;
    while i < to
        invariant
            from <= i <= to <= cs.len(),
            r@ == cs@.subrange(from as int, i as int),
        decreases to - i,
    {
        push_char(&mut r, cs[i]);
        proof {
            assert(r@ =~= cs@.subrange(from as int, i + 1));
        }
        i = i + 1;
    }
    r
}

/// Appends the characters of `t` to `s`.
pub fn push_str(s: &mut String, t: &str)
    ensures
        final(s)@ == old(s)@ + t@,
{
    let cs = chars_of(t);
    let mut i: usize = 0;
    while i < cs.len()
        invariant
            i <= cs.len(),
            cs@ == t@,
            s@ == old(s)@ + t@.take(i as int),
        decreases cs.len() - i,
    {
        push_char(s, cs[i]);
        proof {
            assert(s@ =~= old(s)@ + t@.take(i + 1));
        }
        i = i + 1;
    }
    proof {
        assert(t@.take(t@.len() as int) =~= t@);
    }
}

/// The parts of `s` between the occurrences of `sep`, in order, as Rust's
/// `str::split` gives them (an empty string gives one empty part).
pub open spec fn split_on(s: Seq<char>, sep: char) -> Seq<Seq<char>>
    decreases s.len(),
{
    if s.len() == 0 {
        seq![Seq::empty()]
    } else {
        let prev = split_on(s.drop_last(), sep);
        if s.last() == sep {
            prev.push(Seq::empty())
        } else {
            prev.update(prev.len() - 1, prev.last().push(s.last()))
        }
    }
}

/// `split_on` never gives an empty list.
pub proof fn lemma_split_nonempty(s: Seq<char>, sep: char)
    ensures
        split_on(s, sep).len() > 0,
    decreases s.len(),
{
    if s.len() > 0 {
        lemma_split_nonempty(s.drop_last(), sep);
    }
}

/// Returns the parts of `s` between the occurrences of `sep`.
pub fn split_string(s: &str, sep: char) -> (r: Vec<String>)
    ensures
        r.deep_view() == split_on(s@, sep),
{
    let cs = chars_of(s);
    let mut parts: Vec<String> = Vec::new();
    let mut start: usize = 0;
    let mut i: usize = 0;
    proof {
        assert(s@.take(0) =~= Seq::<char>::empty());
    }
    while i < cs.len()
        invariant
            i <= cs.len(),
            start <= i,
            cs@ == s@,
            split_on(s@.take(i as int), sep) == parts.deep_view().push(cs@.subrange(start as int, i as int)),
        decreases cs.len() - i,
    {
        proof {
            assert(s@.take(i + 1).drop_last() =~= s@.take(i as int));
            assert(s@.take(i + 1).last() == cs@[i as int]);
            lemma_split_nonempty(s@.take(i as int), sep);
        }
        if cs[i] == sep {
            let part = string_of_range(&cs, start, i);
            let ghost before = parts;
            parts.push(part);
            proof {
                lemma_push_deep_view(before, parts, part);
                assert(cs@.subrange(i + 1, i + 1) =~= Seq::<char>::empty());
            }
            start = i + 1;
        } else {
            proof {
                assert(cs@.subrange(start as int, i + 1) =~= cs@.subrange(start as int, i as int).push(cs@[i as int]));
                assert(split_on(s@.take(i + 1), sep) =~= parts.deep_view().push(cs@.subrange(start as int, i + 1)));
            }
        }
        i = i + 1;
    }
    let part = string_of_range(&cs, start, cs.len());
    let ghost before = parts;
    parts.push(part);
    proof {
        lemma_push_deep_view(before, parts, part);
        assert(s@.take(cs.len() as int) =~= s@);
    }
    parts
}

/// Whether `s` ends with `suffix`.
pub open spec fn ends_with_spec(s: Seq<char>, suffix: Seq<char>) -> bool {
    suffix.len() <= s.len() && s.subrange(s.len() - suffix.len(), s.len() as int) == suffix
}

/// Whether `s` starts with `prefix`.
pub open spec fn starts_with_spec(s: Seq<char>, prefix: Seq<char>) -> bool {
    prefix.len() <= s.len() && s.subrange(0, prefix.len() as int) == prefix
}

/// Whether the string `s` ends with `suffix`.
pub fn ends_with(s: &str, suffix: &str) -> (r: bool)
    ensures
        r == ends_with_spec(s@, suffix@),
{
    let a = chars_of(s);
    let b = chars_of(suffix);
    if b.len() > a.len() {
        return false;
    }
    let off = a.len() - b.len();
    let mut i: usize = 0;
    while i < b.len()
        invariant
            a@ == s@,
            b@ == suffix@,
            off == a.len() - b.len(),
            i <= b.len(),
            forall|k: int| 0 <= k < i ==> a@[off + k] == b@[k],
        decreases b.len() - i,
    {
        if a[off + i] != b[i] {
            proof {
                assert(s@.subrange(s@.len() - suffix@.len(), s@.len() as int)[i as int] != suffix@[i as int]);
            }
            return false;
        }
        i = i + 1;
    }
    proof {
        assert(s@.subrange(s@.len() - suffix@.len(), s@.len() as int) =~= suffix@);
    }
    true
}

/// Whether the string `s` starts with `prefix`.
pub fn starts_with(s: &str, prefix: &str) -> (r: bool)
    ensures
        r == starts_with_spec(s@, prefix@),
{
    let a = chars_of(s);
    let b = chars_of(prefix);
    if b.len() > a.len() {
        return false;
    }
    let mut i: usize = 0;
    while i < b.len()
        invariant
            a@ == s@,
            b@ == prefix@,
            b.len() <= a.len(),
            i <= b.len(),
            forall|k: int| 0 <= k < i ==> a@[k] == b@[k],
        decreases b.len() - i,
    {
        if a[i] != b[i] {
            proof {
                assert(s@.subrange(0, prefix@.len() as int)[i as int] != prefix@[i as int]);
            }
            return false;
        }
        i = i + 1;
    }
    proof {
        assert(s@.subrange(0, prefix@.len() as int) =~= prefix@);
    }
    true
}

/// Whether two paths are equal, segment by segment.
pub fn paths_equal(a: &Vec<String>, b: &Vec<String>) -> (r: bool)
    ensures
        r == (a.deep_view() == b.deep_view()),
{
    if a.len() != b.len() {
        proof {
            assert(a.deep_view().len() != b.deep_view().len());
        }
        return false;
    }
    let mut i: usize = 0;
    while i < a.len()
        invariant
            a.len() == b.len(),
            i <= a.len(),
            forall|k: int| 0 <= k < i ==> a.deep_view()[k] == b.deep_view()[k],
        decreases a.len() - i,
    {
        if a[i] != b[i] {
            proof {
                assert(a.deep_view()[i as int] != b.deep_view()[i as int]);
            }
            return false;
        }
        i = i + 1;
    }
    proof {
        assert(a.deep_view() =~= b.deep_view());
    }
    true
}

/// Whether the path `q` is a prefix of the path `p`.
pub open spec fn is_prefix_of(q: Seq<Seq<char>>, p: Seq<Seq<char>>) -> bool {
    q.len() <= p.len() && p.take(q.len() as int) == q
}

/// Whether the path `q` is a prefix of the path `p`.
pub fn path_is_prefix(q: &Vec<String>, p: &Vec<String>) -> (r: bool)
    ensures
        r == is_prefix_of(q.deep_view(), p.deep_view()),
{
    if q.len() > p.len() {
        return false;
    }
    let mut i: usize = 0;
    while i < q.len()
        invariant
            q.len() <= p.len(),
            i <= q.len(),
            forall|k: int| 0 <= k < i ==> q.deep_view()[k] == p.deep_view()[k],
        decreases q.len() - i,
    {
        if q[i] != p[i] {
            proof {
                assert(p.deep_view().take(q.len() as int)[i as int] != q.deep_view()[i as int]);
            }
            return false;
        }
        i = i + 1;
    }
    proof {
        assert(p.deep_view().take(q.len() as int) =~= q.deep_view());
    }
    true
}

/// Whether a path occurs in a list of paths.
pub fn contains_path(v: &Vec<Vec<String>>, p: &Vec<String>) -> (r: bool)
    ensures
        r == v.deep_view().contains(p.deep_view()),
{
    let mut i: usize = 0;
    while i < v.len()
        invariant
            i <= v.len(),
            forall|k: int| 0 <= k < i ==> v.deep_view()[k] != p.deep_view(),
        decreases v.len() - i,
    {
        if paths_equal(&v[i], p) {
            proof {
                assert(v.deep_view()[i as int] == p.deep_view());
            }
            return true;
        }
        i = i + 1;
    }
    false
}

} // verus!
