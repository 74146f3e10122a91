//! File-system paths, held as text, and the `--ignore` rule over them.
use vstd::prelude::*;

verus! {

/// Whether `Path::is_absolute` holds of the path written `p`.
pub uninterp spec fn path_is_absolute(p: Seq<char>) -> bool;

/// Whether `Path::starts_with(base)` holds of the path written `p`
/// (whole components only).
pub uninterp spec fn path_starts_with(p: Seq<char>, base: Seq<char>) -> bool;

/// What `Path::strip_prefix(base)` gives for the path written `p`, as text.
pub uninterp spec fn path_relative(p: Seq<char>, base: Seq<char>) -> Option<Seq<char>>;

/// What `Path::extension` gives for the path written `p`, as text.
pub uninterp spec fn path_extension(p: Seq<char>) -> Option<Seq<char>>;

/// `Path::is_absolute` on the path written `p`.  The result is named, not stated:
/// the contract claims only that, on the platform the program is built for, it
/// depends on the text alone.
#[verifier::external_body]
fn is_absolute(p: &str) -> (r: bool)
    ensures
        r == path_is_absolute(p@),
{
    std::path::Path::new(p).is_absolute()
}

/// `Path::starts_with` on the paths written `p` and `base`.  The result is named,
/// not stated: the contract claims only that, on the platform the program is
/// built for, it depends on the two texts alone.
#[verifier::external_body]
fn starts_with(p: &str, base: &str) -> (r: bool)
    ensures
        r == path_starts_with(p@, base@),
{
    std::path::Path::new(p).starts_with(base)
}

/// `Path::strip_prefix` on the paths written `p` and `base`, the remainder
/// turned back into text.  The result is named, not stated: it depends on the
/// two texts alone on the platform the program is built for.
#[verifier::external_body]
fn strip_prefix(p: &str, base: &str) -> (r: Option<String>)
    ensures
        r matches Some(rel) ==> path_relative(p@, base@) == Some(rel@),
        r is None ==> path_relative(p@, base@) is None,
{
    std::path::Path::new(p).strip_prefix(base).ok().map(|rel| rel.to_string_lossy().into_owned())
}

/// `Path::extension` on the path written `p`, as text.  The result is named,
/// not stated: it depends on the text alone on the platform the program is
/// built for.
#[verifier::external_body]
fn extension(p: &str) -> (r: Option<String>)
    ensures
        r matches Some(e) ==> path_extension(p@) == Some(e@),
        r is None ==> path_extension(p@) is None,
{
    std::path::Path::new(p).extension().and_then(|e| e.to_str()).map(|e| e.to_string())
}

/// The `--ignore` entry `ignore` covers `path`, collected under `base`: an
/// absolute entry is a leading part of the path; a relative one is a leading
/// part of the path's remainder below `base`.
pub open spec fn ignore_covers(path: Seq<char>, base: Seq<char>, ignore: Seq<char>) -> bool {
    if path_is_absolute(ignore) {
        path_starts_with(path, ignore)
    } else {
        match path_relative(path, base) {
            Some(rel) => path_starts_with(rel, ignore),
            None => false,
        }
    }
}

/// Whether the `--ignore` entry `ignore` covers `path`.
pub fn matches_ignore_path(path: &str, base: &str, ignore: &str) -> (r: bool)
    ensures
        r == ignore_covers(path@, base@, ignore@),
{
    if is_absolute(ignore) {
        starts_with(path, ignore)
    } else {
        match strip_prefix(path, base) {
            Some(rel) => starts_with(rel.as_str(), ignore),
            None => false,
        }
    }
}

/// The path names a Python source file: its extension is `py`.
pub open spec fn is_python_source(path: Seq<char>) -> bool {
    path_extension(path) == Some("py"@)
}

/// Whether the path's extension is `py`.
pub fn has_py_extension(path: &str) -> (r: bool)
    ensures
        r == is_python_source(path@),
{
    match extension(path) {
        Some(e) => crate::text::same_text(e.as_str(), "py"),
        None => false,
    }
}

} // verus!
