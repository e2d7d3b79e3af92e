//! Building a template directory with `npm` before its templates are read:
//! whether to build, and which directory holds the result. Running `npm`
//! and looking at the file system are the caller's part.
use vstd::prelude::*;
use crate::assets::add_new;
use crate::errors::PagesError;
use crate::metadata::contains_string;
use crate::strings::{copy_string, lemma_push_deep_view, push_str};

verus! {

/// The parts of a `package.json` that the template stages read: the names
/// of its scripts and the directory where its build puts the result.
#[derive(Debug)]
pub struct NodePackageJson {
    pub scripts: Vec<String>,
    pub build_output_dir: Option<String>,
}

/// Whether a package has a `build` script.
pub open spec fn has_build_script(p: Seq<Seq<char>>) -> bool {
    p.contains("build"@)
}

/// Returns whether a package has a `build` script.
pub fn has_build(pkg: &NodePackageJson) -> (r: bool)
    ensures
        r == has_build_script(pkg.scripts.deep_view()),
{
    let build = String::from_str("build");
    proof {
        reveal_strlit("build");
    }
    contains_string(&pkg.scripts, &build)
}

/// Returns the directory where the template stage finds the result of the
/// build, where it builds at all: only a package with a `build` script and
/// a declared output directory is built.
pub fn build_output_dir(pkg: &NodePackageJson) -> (r: Option<String>)
    ensures
        r.is_some() == (has_build_script(pkg.scripts.deep_view()) && pkg.build_output_dir.is_some()),
        r.is_some() ==> r.unwrap()@ == pkg.build_output_dir.unwrap()@,
{
    if !has_build(pkg) {
        return None;
    }
    match &pkg.build_output_dir {
        Some(d) => Some(copy_string(d)),
        None => None,
    }
}

/// How the template lookup learns where the build puts its result.
#[derive(Debug)]
pub enum DirBuild {
    /// No `build` script: nothing is built.
    Skip,
    /// The package declares the output directory.
    Known(String),
    /// The output directory is the one directory that the build creates.
    Discover,
}

/// Returns how the template lookup builds a directory with a package.
pub fn plan_dir_build(pkg: &NodePackageJson) -> (r: DirBuild)
    ensures
        !has_build_script(pkg.scripts.deep_view()) ==> r is Skip,
        has_build_script(pkg.scripts.deep_view()) && pkg.build_output_dir.is_some() ==> (r matches DirBuild::Known(d) && d@ == pkg.build_output_dir.unwrap()@),
        has_build_script(pkg.scripts.deep_view()) && pkg.build_output_dir.is_none() ==> r is Discover,
{
    if !has_build(pkg) {
        return DirBuild::Skip;
    }
    match &pkg.build_output_dir {
        Some(d) => DirBuild::Known(copy_string(d)),
        None => DirBuild::Discover,
    }
}

/// The message of a build result that is missing.
pub open spec fn not_found_message(path: Seq<char>) -> Seq<char> {
    "build folder "@ + path + " not found"@
}

/// The message of a build result that is not a directory.
pub open spec fn not_a_dir_message(path: Seq<char>) -> Seq<char> {
    "build result "@ + path + " is not a dir"@
}

/// Returns the directory of the build result once the build has run, given
/// whether the path exists and is a directory; the errors name the path.
pub fn check_build_output(path: &String, exists: bool, is_dir: bool) -> (r: Result<String, PagesError>)
    ensures
        !exists ==> (r matches Err(PagesError::Exec(m)) && m@ == not_found_message(path@)),
        exists && !is_dir ==> (r matches Err(PagesError::Exec(m)) && m@ == not_a_dir_message(path@)),
        exists && is_dir ==> (r matches Ok(d) && d@ == path@),
{
    if !exists {
        let mut m = String::from_str("build folder ");
        push_str(&mut m, path.as_str());
        push_str(&mut m, " not found");
        return Err(PagesError::Exec(m));
    }
    if !is_dir {
        let mut m = String::from_str("build result ");
        push_str(&mut m, path.as_str());
        push_str(&mut m, " is not a dir");
        return Err(PagesError::Exec(m));
    }
    Ok(copy_string(path))
}

/// Whether `a` comes before `b` in the order of strings: character by
/// character, a proper prefix first.
pub open spec fn lex_lt(a: Seq<char>, b: Seq<char>) -> bool
    decreases a.len(),
{
    if a.len() == 0 {
        b.len() > 0
    } else if b.len() == 0 {
        false
    } else if a[0] == b[0] {
        lex_lt(a.drop_first(), b.drop_first())
    } else {
        (a[0] as int) < (b[0] as int)
    }
}

/// The order of strings is irreflexive.
pub proof fn lemma_lex_irreflexive(a: Seq<char>)
    ensures
        !lex_lt(a, a),
    decreases a.len(),
{
    if a.len() > 0 {
        lemma_lex_irreflexive(a.drop_first());
    }
}

/// The order of strings is transitive.
pub proof fn lemma_lex_transitive(a: Seq<char>, b: Seq<char>, c: Seq<char>)
    requires
        lex_lt(a, b),
        lex_lt(b, c),
    ensures
        lex_lt(a, c),
    decreases a.len(),
{
    if a.len() > 0 && b.len() > 0 && c.len() > 0 && a[0] == b[0] && b[0] == c[0] {
        lemma_lex_transitive(a.drop_first(), b.drop_first(), c.drop_first());
    }
}

/// Two different strings are ordered one way or the other.
pub proof fn lemma_lex_total(a: Seq<char>, b: Seq<char>)
    requires
        a != b,
    ensures
        lex_lt(a, b) || lex_lt(b, a),
    decreases a.len(),
{
    if a.len() > 0 && b.len() > 0 && a[0] == b[0] {
        if a.drop_first() == b.drop_first() {
            assert(a =~= seq![a[0]] + a.drop_first());
            assert(b =~= seq![b[0]] + b.drop_first());
        }
        lemma_lex_total(a.drop_first(), b.drop_first());
    } else if a.len() > 0 && b.len() > 0 {
        assert((a[0] as int) != (b[0] as int));
    } else if a.len() == 0 && b.len() == 0 {
        assert(a =~= b);
    }
}

/// Returns whether `a` comes before `b` in the order of strings.
pub fn str_less(a: &String, b: &String) -> (r: bool)
    ensures
        r == lex_lt(a@, b@),
{
    let ca = crate::strings::chars_of(a.as_str());
    let cb = crate::strings::chars_of(b.as_str());
    let mut i: usize = 0;
    proof {
        assert(a@.skip(0) =~= a@);
        assert(b@.skip(0) =~= b@);
    }
    while i < ca.len() && i < cb.len()
        invariant
            i <= ca.len(),
            i <= cb.len(),
            ca@ == a@,
            cb@ == b@,
            lex_lt(a@, b@) == lex_lt(a@.skip(i as int), b@.skip(i as int)),
        decreases ca.len() - i,
    {
        let ghost sa = a@.skip(i as int);
        let ghost sb = b@.skip(i as int);
        proof {
            assert(sa[0] == ca@[i as int]);
            assert(sb[0] == cb@[i as int]);
            assert(sa.drop_first() =~= a@.skip(i + 1));
            assert(sb.drop_first() =~= b@.skip(i + 1));
        }
        if ca[i] != cb[i] {
            return ca[i] < cb[i];
        }
        i = i + 1;
    }
    i < cb.len()
}

/// Whether a sequence of strings is in strictly increasing order.
pub open spec fn lex_sorted(s: Seq<Seq<char>>) -> bool {
    forall|i: int, j: int| 0 <= i < j < s.len() ==> lex_lt(#[trigger] s[i], #[trigger] s[j])
}

/// Returns the strings of a list of different strings, in increasing order.
pub fn sort_strings(v: &Vec<String>) -> (r: Vec<String>)
    requires
        v.deep_view().no_duplicates(),
    ensures
        lex_sorted(r.deep_view()),
        r.len() == v.len(),
        forall|x: Seq<char>| r.deep_view().contains(x) <==> v.deep_view().contains(x),
{
    let mut out: Vec<String> = Vec::new();
    let mut i: usize = 0;
    while i < v.len()
        invariant
            i <= v.len(),
            v.deep_view().no_duplicates(),
            lex_sorted(out.deep_view()),
            out.len() == i,
            forall|x: Seq<char>| out.deep_view().contains(x) <==> v.deep_view().take(i as int).contains(x),
        decreases v.len() - i,
    {
        let x = copy_string(&v[i]);
        let ghost xv = x@;
        proof {
            assert(!v.deep_view().take(i as int).contains(xv)) by {
                if v.deep_view().take(i as int).contains(xv) {
                    let k = choose|k: int| 0 <= k < i && v.deep_view().take(i as int)[k] == xv;
                    assert(v.deep_view()[k] == v.deep_view()[i as int]);
                }
            }
        }
        let mut pos: usize = 0;
        while pos < out.len() && !str_less(&x, &out[pos])
            invariant
                pos <= out.len(),
                x@ == xv,
                forall|k: int| 0 <= k < pos ==> !lex_lt(xv, #[trigger] out.deep_view()[k]),
            decreases out.len() - pos,
        {
            pos = pos + 1;
        }
        let ghost before = out.deep_view();
        proof {
            assert forall|k: int| 0 <= k < pos implies lex_lt(#[trigger] before[k], xv) by {
                assert(!lex_lt(xv, before[k]));
                assert(before.contains(before[k]));
                if before[k] == xv {
                    assert(v.deep_view().take(i as int).contains(xv));
                }
                lemma_lex_total(before[k], xv);
            }
            assert forall|k: int| pos <= k < before.len() implies lex_lt(xv, #[trigger] before[k]) by {
                if k > pos {
                    lemma_lex_transitive(xv, before[pos as int], before[k]);
                }
            }
        }
        let ghost before_raw = out@;
        out.insert(pos, x);
        proof {
            let ins = before.insert(pos as int, xv);
            assert forall|k: int| 0 <= k < out.len() implies out.deep_view()[k] == ins[k] by {
                if k < pos {
                    assert(out@[k] == before_raw[k]);
                } else if k > pos {
                    assert(out@[k] == before_raw[k - 1]);
                }
            }
            assert(out.deep_view() =~= ins);
            assert forall|a: int, b: int| 0 <= a < b < ins.len() implies lex_lt(#[trigger] ins[a], #[trigger] ins[b]) by {
                if b < pos {
                    assert(ins[a] == before[a] && ins[b] == before[b]);
                } else if b == pos {
                    assert(ins[a] == before[a]);
                } else if a < pos {
                    assert(ins[a] == before[a] && ins[b] == before[b - 1]);
                    lemma_lex_transitive(before[a], xv, before[b - 1]);
                } else if a == pos {
                    assert(ins[b] == before[b - 1]);
                } else {
                    assert(ins[a] == before[a - 1] && ins[b] == before[b - 1]);
                }
            }
            let t0 = v.deep_view().take(i as int);
            let t1 = v.deep_view().take(i + 1);
            assert(t1 =~= t0.push(xv));
            assert forall|y: Seq<char>| t1.contains(y) <==> (t0.contains(y) || y == xv) by {
                if t0.contains(y) {
                    let k = choose|k: int| 0 <= k < t0.len() && t0[k] == y;
                    assert(t1[k] == y);
                }
                if y == xv {
                    assert(t1[i as int] == y);
                }
                if t1.contains(y) {
                    let k = choose|k: int| 0 <= k < t1.len() && t1[k] == y;
                    if k < i {
                        assert(t0[k] == y);
                    }
                }
            }
            assert forall|y: Seq<char>| ins.contains(y) <==> v.deep_view().take(i + 1).contains(y) by {
                if ins.contains(y) {
                    let k = choose|k: int| 0 <= k < ins.len() && ins[k] == y;
                    if k < pos {
                        assert(before.contains(y));
                    } else if k > pos {
                        assert(before[k - 1] == y);
                        assert(before.contains(y));
                    }
                }
                if before.contains(y) {
                    let k = choose|k: int| 0 <= k < before.len() && before[k] == y;
                    if k < pos {
                        assert(ins[k] == y);
                    } else {
                        assert(ins[k + 1] == y);
                    }
                }
                if y == xv {
                    assert(ins[pos as int] == y);
                }
                if v.deep_view().take(i + 1).contains(y) {
                    let t = v.deep_view().take(i + 1);
                    let k = choose|k: int| 0 <= k < t.len() && t[k] == y;
                    if k < i {
                        assert(v.deep_view().take(i as int)[k] == y);
                        assert(v.deep_view().take(i as int).contains(y));
                        assert(before.contains(y));
                    }
                }
            }
        }
        i = i + 1;
    }
    proof {
        assert(v.deep_view().take(v.len() as int) =~= v.deep_view());
    }
    out
}


/// The directories that a build created: those listed after it and not
/// before, each once, in the order of the later listing.
pub open spec fn new_dirs(pre: Seq<Seq<char>>, post: Seq<Seq<char>>) -> Seq<Seq<char>> {
    add_new(Seq::empty(), post.filter(|d: Seq<char>| !pre.contains(d)))
}

/// Texts joined with `, `.
pub open spec fn comma_space_joined(items: Seq<Seq<char>>) -> Seq<char>
    decreases items.len(),
{
    if items.len() == 0 {
        Seq::empty()
    } else if items.len() == 1 {
        items[0]
    } else {
        comma_space_joined(items.drop_last()) + ", "@ + items.last()
    }
}

/// The message of a build that created several directories, which it
/// lists in increasing order.
pub open spec fn multiple_dirs_message(sorted: Seq<Seq<char>>) -> Seq<char> {
    "multiple new folders created after build : "@ + comma_space_joined(sorted)
}

/// Adding new texts keeps a list free of duplicates.
pub proof fn lemma_add_new_no_duplicates(acc: Seq<Seq<char>>, xs: Seq<Seq<char>>)
    requires
        acc.no_duplicates(),
    ensures
        add_new(acc, xs).no_duplicates(),
        forall|x: Seq<char>| add_new(acc, xs).contains(x) <==> (acc.contains(x) || xs.contains(x)),
    decreases xs.len(),
{
    if xs.len() > 0 {
        lemma_add_new_no_duplicates(acc, xs.drop_last());
        let a = add_new(acc, xs.drop_last());
        assert forall|x: Seq<char>| xs.contains(x) <==> (xs.drop_last().contains(x) || x == xs.last()) by {
            if xs.contains(x) {
                let k = choose|k: int| 0 <= k < xs.len() && xs[k] == x;
                if k < xs.len() - 1 {
                    assert(xs.drop_last()[k] == x);
                }
            }
            if xs.drop_last().contains(x) {
                let k = choose|k: int| 0 <= k < xs.drop_last().len() && xs.drop_last()[k] == x;
                assert(xs[k] == x);
            }
            if x == xs.last() {
                assert(xs[xs.len() - 1] == x);
            }
        }
        if !a.contains(xs.last()) {
            assert forall|x: Seq<char>| a.push(xs.last()).contains(x) <==> (a.contains(x) || x == xs.last()) by {
                if a.push(xs.last()).contains(x) {
                    let k = choose|k: int| 0 <= k < a.push(xs.last()).len() && a.push(xs.last())[k] == x;
                    if k < a.len() {
                        assert(a[k] == x);
                    }
                }
                if a.contains(x) {
                    let k = choose|k: int| 0 <= k < a.len() && a[k] == x;
                    assert(a.push(xs.last())[k] == x);
                }
                if x == xs.last() {
                    assert(a.push(xs.last())[a.len() as int] == x);
                }
            }
            assert(a.push(xs.last()).no_duplicates()) by {
                assert forall|i: int, j: int| 0 <= i < j < a.push(xs.last()).len() implies a.push(xs.last())[i] != a.push(xs.last())[j] by {
                    if j == a.len() {
                        assert(a.contains(a[i]));
                    }
                }
            }
        }
    }
}

/// Returns texts joined with `, `.
pub fn join_comma_space(items: &Vec<String>) -> (r: String)
    ensures
        r@ == comma_space_joined(items.deep_view()),
{
    let mut r = String::new();
    let mut i: usize = 0;
    while i < items.len()
        invariant
            i <= items.len(),
            r@ == comma_space_joined(items.deep_view().take(i as int)),
        decreases items.len() - i,
    {
        proof {
            assert(items.deep_view().take(i + 1).drop_last() =~= items.deep_view().take(i as int));
        }
        if i > 0 {
            push_str(&mut r, ", ");
        }
        push_str(&mut r, items[i].as_str());
        proof {
            if i == 0 {
                assert(r@ =~= items.deep_view().take(1)[0]);
            }
        }
        i = i + 1;
    }
    proof {
        assert(items.deep_view().take(items.len() as int) =~= items.deep_view());
    }
    r
}

/// Returns the directory that a build created, given the directories listed
/// before and after it: the one new directory, or the error that names none
/// or several (in increasing order).
pub fn discovered_build_dir(pre: &Vec<String>, post: &Vec<String>) -> (r: Result<String, PagesError>)
    ensures
        new_dirs(pre.deep_view(), post.deep_view()).len() == 0 ==> (r matches Err(PagesError::Exec(m)) && m@ == "no new folder created"@),
        new_dirs(pre.deep_view(), post.deep_view()).len() == 1 ==> (r matches Ok(d) && d@ == new_dirs(pre.deep_view(), post.deep_view())[0]),
        new_dirs(pre.deep_view(), post.deep_view()).len() > 1 ==> (r matches Err(PagesError::Exec(m)) && exists|s: Seq<Seq<char>>| {
            &&& lex_sorted(s)
            &&& s.len() == new_dirs(pre.deep_view(), post.deep_view()).len()
            &&& forall|x: Seq<char>| #[trigger] s.contains(x) <==> new_dirs(pre.deep_view(), post.deep_view()).contains(x)
            &&& m@ == multiple_dirs_message(s)
        }),
{
    let ghost f = |d: Seq<char>| !pre.deep_view().contains(d);
    let mut fresh: Vec<String> = Vec::new();
    let mut i: usize = 0;
    while i < post.len()
        invariant
            i <= post.len(),
            f == (|d: Seq<char>| !pre.deep_view().contains(d)),
            fresh.deep_view() == post.deep_view().take(i as int).filter(f),
        decreases post.len() - i,
    {
        proof {
            assert(post.deep_view().take(i + 1).drop_last() =~= post.deep_view().take(i as int));
            reveal(Seq::filter);
        }
        if !contains_string(pre, &post[i]) {
            let ghost before = fresh;
            let s = copy_string(&post[i]);
            fresh.push(s);
            proof {
                lemma_push_deep_view(before, fresh, s);
            }
        }
        i = i + 1;
    }
    proof {
        assert(post.deep_view().take(post.len() as int) =~= post.deep_view());
    }
    let mut dirs: Vec<String> = Vec::new();
    proof {
        assert(dirs.deep_view() =~= Seq::<Seq<char>>::empty());
    }
    crate::assets::add_new_strings(&mut dirs, &fresh);
    proof {
        let g = |d: Seq<char>| !pre.deep_view().contains(d);
        assert(f =~= g);
        assert(fresh.deep_view() == post.deep_view().filter(g));
        assert(dirs.deep_view() == new_dirs(pre.deep_view(), post.deep_view()));
        assert(Seq::<Seq<char>>::empty().no_duplicates());
        lemma_add_new_no_duplicates(Seq::empty(), fresh.deep_view());
    }
    if dirs.len() == 0 {
        return Err(PagesError::Exec(String::from_str("no new folder created")));
    }
    if dirs.len() == 1 {
        return Ok(copy_string(&dirs[0]));
    }
    let sorted = sort_strings(&dirs);
    let mut m = String::from_str("multiple new folders created after build : ");
    let joined = join_comma_space(&sorted);
    push_str(&mut m, joined.as_str());
    proof {
        assert(forall|x: Seq<char>| #[trigger] sorted.deep_view().contains(x) <==> new_dirs(pre.deep_view(), post.deep_view()).contains(x));
        assert(m@ == multiple_dirs_message(sorted.deep_view()));
    }
    Err(PagesError::Exec(m))
}

} // verus!
