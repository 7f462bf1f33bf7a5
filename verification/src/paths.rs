//! The few `std::path` operations the library needs, on `&str` paths.
//!
//! Path syntax (separators, `.`/`..`, trailing slashes, dot-files) is
//! `std::path::Path`'s business: each function here makes exactly one `Path`
//! call. Where the standard library documents the result in a few lines
//! (an extension or stem given the file name, a join) it is stated; the
//! rest (splitting into components, the file name, the parent, replacing
//! the file name or extension) is named, with the documented facts callers
//! need stated beside it. The statements and names stand for the rules of
//! the platform the library is built for (on Unix, where these contracts
//! were written, `/` is the only separator).

use vstd::prelude::*;

verus! {

/// `Path::file_name` of `p`.
pub uninterp spec fn path_file_name(p: Seq<char>) -> Option<Seq<char>>;

/// The index of the last `.` in `n`.
pub open spec fn last_dot(n: Seq<char>) -> Option<int>
    decreases n.len(),
{
    if n.len() == 0 {
        None
    } else if n.last() == '.' {
        Some(n.len() - 1)
    } else {
        last_dot(n.drop_last())
    }
}

/// The extension of a file name, as `Path::extension` documents it: none
/// for `..`, for a name without a `.`, and for a name whose only `.` leads
/// it; otherwise what follows the last `.`.
pub open spec fn name_extension(n: Seq<char>) -> Option<Seq<char>> {
    if n == seq!['.', '.'] {
        None
    } else {
        match last_dot(n) {
            Some(i) => if i == 0 {
                None
            } else {
                Some(n.skip(i + 1))
            },
            None => None,
        }
    }
}

/// The stem of a file name, as `Path::file_stem` documents it: the whole
/// name for `..`, for a name without a `.`, and for a name whose only `.`
/// leads it; otherwise what comes before the last `.`.
pub open spec fn name_stem(n: Seq<char>) -> Seq<char> {
    if n == seq!['.', '.'] {
        n
    } else {
        match last_dot(n) {
            Some(i) => if i == 0 {
                n
            } else {
                n.take(i)
            },
            None => n,
        }
    }
}

/// `Path::extension` of `p`: the extension of its file name.
pub open spec fn path_extension(p: Seq<char>) -> Option<Seq<char>> {
    match path_file_name(p) {
        Some(n) => name_extension(n),
        None => None,
    }
}

/// `Path::file_stem` of `p`: the stem of its file name.
pub open spec fn path_file_stem(p: Seq<char>) -> Option<Seq<char>> {
    match path_file_name(p) {
        Some(n) => Some(name_stem(n)),
        None => None,
    }
}

/// `Path::parent` of `p`.
pub uninterp spec fn path_parent(p: Seq<char>) -> Option<Seq<char>>;

/// `Path::with_extension(p, ext)`.
pub uninterp spec fn path_with_extension(p: Seq<char>, ext: Seq<char>) -> Seq<char>;

/// `Path::with_file_name(p, name)`.
pub uninterp spec fn path_with_file_name(p: Seq<char>, name: Seq<char>) -> Seq<char>;

/// `Path::components(p)`, each component as its `as_os_str`.
pub uninterp spec fn path_components(p: Seq<char>) -> Seq<Seq<char>>;

/// What `Path::new(p).join(q)` gives, as text, as `PathBuf::push`
/// documents it: an absolute `q` (one starting at the root) replaces `p`;
/// otherwise `q` is appended, after a separator unless `p` is empty or
/// already ends in one.
pub open spec fn path_join(p: Seq<char>, q: Seq<char>) -> Seq<char> {
    if q.len() > 0 && q[0] == '/' {
        q
    } else if p.len() == 0 || p.last() == '/' {
        p + q
    } else {
        p + seq!['/'] + q
    }
}

/// Whether `s` holds no path separator (`/`).
pub open spec fn no_separator(s: Seq<char>) -> bool {
    forall|i: int| 0 <= i < s.len() ==> s[i] != '/'
}

/// The view of an optional string.
pub open spec fn opt_view(o: Option<String>) -> Option<Seq<char>> {
    match o {
        Some(s) => Some(s@),
        None => None,
    }
}

/// A name that stands as a normal path component: not empty, no
/// separator, neither `.` nor `..`.
pub open spec fn plain_name(n: Seq<char>) -> bool {
    n.len() > 0 && no_separator(n) && n != seq!['.'] && n != seq!['.', '.']
}

/// `Path::new(p).file_name()`; a `&str` path converts losslessly. The
/// contract also states what `Path::file_name` documents it returns: the
/// path's final component, when that is a normal one (so a plain name, not
/// `.` or `..`).
#[verifier::external_body]
pub(crate) fn file_name(p: &str) -> (r: Option<String>)
    ensures
        opt_view(r) == path_file_name(p@),
        r matches Some(n) ==> plain_name(n@) && path_components(p@).len() > 0 && path_components(p@).last() == n@,
{
    std::path::Path::new(p).file_name().map(|n| n.to_string_lossy().into_owned())
}

/// `Path::new(p).extension()`: the extension of the file name, as the
/// standard library documents it. The contract also states that it holds
/// no separator: it is a part of the file name, the path's last component,
/// and a component never holds one.
#[verifier::external_body]
pub(crate) fn extension(p: &str) -> (r: Option<String>)
    ensures
        opt_view(r) == path_extension(p@),
        r matches Some(e) ==> no_separator(e@),
{
    std::path::Path::new(p).extension().map(|n| n.to_string_lossy().into_owned())
}

/// `Path::new(p).file_stem()`: the stem of the file name, as the standard
/// library documents it.
#[verifier::external_body]
pub(crate) fn file_stem(p: &str) -> (r: Option<String>)
    ensures
        opt_view(r) == path_file_stem(p@),
{
    std::path::Path::new(p).file_stem().map(|n| n.to_string_lossy().into_owned())
}

/// `Path::new(p).parent()`.
#[verifier::external_body]
pub(crate) fn parent(p: &str) -> (r: Option<String>)
    ensures
        opt_view(r) == path_parent(p@),
{
    std::path::Path::new(p).parent().map(|n| n.to_string_lossy().into_owned())
}

/// `Path::new(p).with_extension(ext)`. `PathBuf::set_extension` panics when
/// the extension holds a separator, so such an `ext` is not admitted.
#[verifier::external_body]
pub(crate) fn with_extension(p: &str, ext: &str) -> (r: String)
    requires
        no_separator(ext@),
    ensures
        r@ == path_with_extension(p@, ext@),
{
    std::path::Path::new(p).with_extension(ext).to_string_lossy().into_owned()
}

/// `Path::new(p).with_file_name(name)`. The contract also states, for a
/// plain name, what `PathBuf::set_file_name` documents: the result's file
/// name is `name`, and when `p` has a file name the result is `p` popped to
/// its parent (its final component dropped) with `name` pushed as the new
/// final component.
#[verifier::external_body]
pub(crate) fn with_file_name(p: &str, name: &str) -> (r: String)
    ensures
        r@ == path_with_file_name(p@, name@),
        plain_name(name@) ==> path_file_name(r@) == Some(name@),
        plain_name(name@) && path_file_name(p@) is Some ==> path_components(r@) == path_components(p@).drop_last().push(
            name@,
        ),
{
    std::path::Path::new(p).with_file_name(name).to_string_lossy().into_owned()
}

/// `Path::new(p).components()`, each as its `as_os_str`.
#[verifier::external_body]
pub(crate) fn components(p: &str) -> (r: Vec<String>)
    ensures
        r@.map_values(|s: String| s@) == path_components(p@),
{
    std::path::Path::new(p).components().map(|c| c.as_os_str().to_string_lossy().into_owned()).collect()
}

/// `Path::new(p).join(q)`, converted back to text (losslessly: both are
/// UTF-8).
#[verifier::external_body]
pub(crate) fn join(p: &str, q: &str) -> (r: String)
    ensures
        r@ == path_join(p@, q@),
{
    std::path::Path::new(p).join(q).to_string_lossy().into_owned()
}

} // verus!
