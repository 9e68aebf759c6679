//! File paths written with `/` between their parts: the last part, the
//! directory above, and the parts one by one.  On such paths every platform
//! reads the parts alike.

use vstd::prelude::*;

verus! {

/// The index of the last `/` in `p`, if it holds one.
pub open spec fn last_slash(p: Seq<char>) -> Option<int>
    decreases p.len(),
{
    if p.len() == 0 {
        None
    } else if p.last() == '/' {
        Some(p.len() - 1)
    } else {
        last_slash(p.drop_last())
    }
}

/// The last `/` lies inside the text.
pub proof fn lemma_last_slash(p: Seq<char>)
    ensures
        last_slash(p) matches Some(k) ==> 0 <= k < p.len() && p[k] == '/',
    decreases p.len(),
{
    if p.len() > 0 && p.last() != '/' {
        lemma_last_slash(p.drop_last());
    }
}

/// The text after the last `/` (all of `p` when it holds none).
pub open spec fn last_part(p: Seq<char>) -> Seq<char> {
    match last_slash(p) {
        Some(k) => p.skip(k + 1),
        None => p,
    }
}

/// A part that names something: not empty, not `.` and not `..`.
pub open spec fn part_ok(s: Seq<char>) -> bool {
    s.len() > 0 && s != "."@ && s != ".."@
}

/// Every part between slashes names something (a leading `/` roots the
/// path).
pub open spec fn parts_ok(p: Seq<char>) -> bool
    decreases p.len(),
{
    proof {
        lemma_last_slash(p);
    }
    match last_slash(p) {
        None => part_ok(p),
        Some(k) => part_ok(p.skip(k + 1)) && (k == 0 || parts_ok(p.take(k))),
    }
}

/// A path of named parts separated by `/`, with no `\` and no `:`: no part
/// empty, `.` or `..`, and no trailing `/`.
pub open spec fn slash_path(p: Seq<char>) -> bool {
    !p.contains('\\') && !p.contains(':') && parts_ok(p)
}

/// A slash path, the root `/`, or the empty path.
pub open spec fn path_like(p: Seq<char>) -> bool {
    p == Seq::<char>::empty() || p == "/"@ || slash_path(p)
}

/// The directory above a slash path: the text before the last `/`, the
/// root when that `/` begins the path, and the empty path for a single
/// relative name.
pub open spec fn parent_of(p: Seq<char>) -> Seq<char> {
    match last_slash(p) {
        None => Seq::empty(),
        Some(k) => if k == 0 {
            "/"@
        } else {
            p.take(k)
        },
    }
}

/// The directory above a slash path is path-like.
pub proof fn lemma_parent_like(p: Seq<char>)
    requires
        slash_path(p),
    ensures
        path_like(parent_of(p)),
{
    lemma_last_slash(p);
    match last_slash(p) {
        None => {},
        Some(k) => if k > 0 {
            let d = p.take(k);
            assert(!d.contains('\\')) by {
                if d.contains('\\') {
                    let i = choose|i: int| 0 <= i < d.len() && d[i] == '\\';
                    assert(p[i] == '\\');
                }
            }
            assert(!d.contains(':')) by {
                if d.contains(':') {
                    let i = choose|i: int| 0 <= i < d.len() && d[i] == ':';
                    assert(p[i] == ':');
                }
            }
        },
    }
}

/// The parts of a path-like text, the root written `/`.
pub open spec fn parts_of(p: Seq<char>) -> Seq<Seq<char>>
    decreases p.len(),
{
    if p.len() == 0 {
        Seq::empty()
    } else if p == "/"@ {
        seq!["/"@]
    } else {
        proof {
            lemma_last_slash(p);
        }
        match last_slash(p) {
            None => seq![p],
            Some(k) => (if k == 0 {
                seq!["/"@]
            } else {
                parts_of(p.take(k))
            }).push(p.skip(k + 1)),
        }
    }
}

/// The parts of `base` begin the parts of `path`.
pub open spec fn parts_prefix(path: Seq<char>, base: Seq<char>) -> bool {
    let a = parts_of(path);
    let b = parts_of(base);
    b.len() <= a.len() && a.take(b.len() as int) == b
}

/// `Path::file_name` of `path`, as a string: its last part.  For a slash
/// path that is the text after the last `/`.  For other paths the parts
/// depend on the platform's separators, and nothing is stated.
#[verifier::external_body]
pub(crate) fn path_file_name(path: &str) -> (res: Option<String>)
    ensures
        match res {
            Some(n) => slash_path(path@) ==> n@ == last_part(path@),
            None => !slash_path(path@),
        },
{
    std::path::Path::new(path).file_name().and_then(|n| n.to_str()).map(String::from)
}

/// `Path::parent` of `path`, as a string: the path without its last part.
/// For a slash path that is `parent_of`; the root and the empty path have
/// none.  For other paths nothing is stated.
#[verifier::external_body]
pub(crate) fn path_parent(path: &str) -> (res: Option<String>)
    ensures
        match res {
            Some(r) => path@ != Seq::<char>::empty() && path@ != "/"@ && (slash_path(path@) ==> r@ == parent_of(
                path@,
            )),
            None => !slash_path(path@),
        },
{
    std::path::Path::new(path).parent().map(|p| p.to_string_lossy().into_owned())
}

/// `Path::starts_with`: whether the parts of `base` begin the parts of
/// `path`, whole parts only.  Stated for path-like texts; for other paths
/// the parts depend on the platform's separators.
#[verifier::external_body]
pub(crate) fn path_starts_with(path: &str, base: &str) -> (res: bool)
    ensures
        path_like(path@) && path_like(base@) ==> res == parts_prefix(path@, base@),
{
    std::path::Path::new(path).starts_with(base)
}

} // verus!
