//! Filesystem path helpers.
use vstd::prelude::*;

use crate::text::{has_prefix, push_range, starts_with, to_chars};

verus! {

/// `\\?\UNC\`, the verbatim prefix of a network share.
pub open spec fn unc_prefix() -> Seq<char> {
    seq!['\\', '\\', '?', '\\', 'U', 'N', 'C', '\\']
}

/// `\\?\`, the verbatim prefix.
pub open spec fn verbatim_prefix() -> Seq<char> {
    seq!['\\', '\\', '?', '\\']
}

/// A path without its Windows verbatim prefix: `\\?\UNC\srv\share` becomes
/// `\\srv\share`, `\\?\C:\dir` becomes `C:\dir`; any other path is unchanged.
pub open spec fn strip_verbatim(p: Seq<char>) -> Seq<char> {
    if has_prefix(p, unc_prefix()) {
        seq!['\\', '\\'] + p.subrange(8, p.len() as int)
    } else if has_prefix(p, verbatim_prefix()) {
        p.subrange(4, p.len() as int)
    } else {
        p
    }
}

/// Strip the Windows extended-length (verbatim) prefix from a path, so that
/// a client can turn it into a `file://` URL.
pub fn strip_verbatim_prefix(path: String) -> (r: String)
    ensures
        r@ == strip_verbatim(path@),
{
    let unc = "\\\\?\\UNC\\";
    let verb = "\\\\?\\";
    proof {
        reveal_strlit("\\\\?\\UNC\\");
        reveal_strlit("\\\\?\\");
        assert(unc@ =~= unc_prefix());
        assert(verb@ =~= verbatim_prefix());
    }
    let cs = to_chars(path.as_str());
    if starts_with(path.as_str(), unc) {
        let mut out = String::new();
        out.push('\\');
        out.push('\\');
        push_range(&mut out, &cs, 8, cs.len());
        proof {
            assert(out@ =~= seq!['\\', '\\'] + path@.subrange(8, path@.len() as int));
        }
        out
    } else if starts_with(path.as_str(), verb) {
        let mut out = String::new();
        push_range(&mut out, &cs, 4, cs.len());
        proof {
            assert(out@ =~= path@.subrange(4, path@.len() as int));
        }
        out
    } else {
        path
    }
}

/// What `Path::parent` returns for a path: the path without its last
/// component, `None` for a root or an empty path.
pub uninterp spec fn path_parent(p: Seq<char>) -> Option<Seq<char>>;

/// Calls `Path::parent`; the result is named `path_parent`.
#[verifier::external_body]
pub(crate) fn parent_of(p: &str) -> (r: Option<String>)
    ensures
        match r {
            Some(s) => path_parent(p@) == Some(s@),
            None => path_parent(p@) is None,
        },
{
    match std::path::Path::new(p).parent() {
        Some(q) => Some(q.to_string_lossy().into_owned()),
        None => None,
    }
}

/// What `Path::extension` returns for a path, as a string: the part of the
/// file name after its last `.`, if any.
pub uninterp spec fn path_extension(p: Seq<char>) -> Option<Seq<char>>;

/// Calls `Path::extension`; the result is named `path_extension`.
#[verifier::external_body]
pub(crate) fn extension_of(p: &str) -> (r: Option<String>)
    ensures
        match r {
            Some(s) => path_extension(p@) == Some(s@),
            None => path_extension(p@) is None,
        },
{
    match std::path::Path::new(p).extension() {
        Some(e) => Some(e.to_string_lossy().into_owned()),
        None => None,
    }
}

/// What `Path::strip_prefix` returns for a path and a base: the rest of the
/// path after the base's components, `None` when the path does not start with them.
pub uninterp spec fn path_strip_prefix(p: Seq<char>, base: Seq<char>) -> Option<Seq<char>>;

/// Calls `Path::strip_prefix`; the result is named `path_strip_prefix`.
#[verifier::external_body]
pub(crate) fn strip_prefix_of(p: &str, base: &str) -> (r: Option<String>)
    ensures
        match r {
            Some(s) => path_strip_prefix(p@, base@) == Some(s@),
            None => path_strip_prefix(p@, base@) is None,
        },
{
    match std::path::Path::new(p).strip_prefix(base) {
        Ok(q) => Some(q.to_string_lossy().into_owned()),
        Err(_) => None,
    }
}

/// What `Path::starts_with` returns: whether the base's components begin the path's.
pub uninterp spec fn path_starts_with(p: Seq<char>, base: Seq<char>) -> bool;

/// Calls `Path::starts_with`; the result is named `path_starts_with`.
#[verifier::external_body]
pub(crate) fn starts_with_path(p: &str, base: &str) -> (r: bool)
    ensures
        r == path_starts_with(p@, base@),
{
    std::path::Path::new(p).starts_with(base)
}

/// What `==` on two paths returns: whether their components are equal.
pub uninterp spec fn path_eq(a: Seq<char>, b: Seq<char>) -> bool;

/// Compares two paths with `==` on `Path`; the result is named `path_eq`.
#[verifier::external_body]
pub(crate) fn same_path(a: &str, b: &str) -> (r: bool)
    ensures
        r == path_eq(a@, b@),
{
    std::path::Path::new(a) == std::path::Path::new(b)
}

/// What `Path::with_extension("")` returns: the path with the extension of
/// its file name removed.
pub uninterp spec fn path_without_extension(p: Seq<char>) -> Seq<char>;

/// Calls `Path::with_extension` with an empty extension; the result is named
/// `path_without_extension`.
#[verifier::external_body]
pub(crate) fn without_extension(p: &str) -> (r: String)
    ensures
        r@ == path_without_extension(p@),
{
    std::path::Path::new(p).with_extension("").to_string_lossy().into_owned()
}

/// What `Path::file_name` returns for a path, as a string: its last
/// component, `None` when it ends in `..` or is a root.
pub uninterp spec fn path_file_name(p: Seq<char>) -> Option<Seq<char>>;

/// Calls `Path::file_name`; the result is named `path_file_name`.
#[verifier::external_body]
pub(crate) fn file_name_of(p: &str) -> (r: Option<String>)
    ensures
        match r {
            Some(s) => path_file_name(p@) == Some(s@),
            None => path_file_name(p@) is None,
        },
{
    match std::path::Path::new(p).file_name() {
        Some(n) => Some(n.to_string_lossy().into_owned()),
        None => None,
    }
}

/// Reads `std::path::MAIN_SEPARATOR`, the separator of path components on
/// this platform: `/` or `\\`.
#[verifier::external_body]
pub(crate) fn main_separator() -> (r: char)
    ensures
        r == '/' || r == '\\',
{
    std::path::MAIN_SEPARATOR
}

} // verus!
