//! File-system paths as text.
use vstd::prelude::*;

verus! {

/// The path that `Path::join` builds from the directory `dir` and `name`
/// (platform rules: separator, absolute `name` replacing `dir`).
pub uninterp spec fn joined_path(dir: Seq<char>, name: Seq<char>) -> Seq<char>;

/// The path of `name` inside the directory `dir`.
///
/// Trusted: calls `std::path::Path::join`, whose result depends on the two
/// paths alone (and the platform the crate is built for); the contract names
/// that result and claims nothing more. Both arguments are UTF-8, so the
/// joined path is too and converts to text unchanged.
#[verifier::external_body]
pub(crate) fn join(dir: &str, name: &str) -> (r: String)
    ensures
        r@ == joined_path(dir@, name@),
{
    std::path::Path::new(dir).join(name).to_string_lossy().into_owned()
}

/// Whether `Path::starts_with` holds of `path` and `base` (a comparison of
/// whole path components).
pub uninterp spec fn path_starts_with(path: Seq<char>, base: Seq<char>) -> bool;

/// Whether `path` and `base` are equal as paths (`Path`'s `==`, which
/// compares components).
pub uninterp spec fn same_path(a: Seq<char>, b: Seq<char>) -> bool;

/// Whether `path` lies under `base`.
///
/// Trusted: calls `std::path::Path::starts_with`, whose result depends on the
/// two paths alone; the contract names that result and claims nothing more.
#[verifier::external_body]
pub(crate) fn path_has_prefix(path: &str, base: &str) -> (r: bool)
    ensures
        r == path_starts_with(path@, base@),
{
    std::path::Path::new(path).starts_with(std::path::Path::new(base))
}

/// Whether two paths are equal.
///
/// Trusted: calls `==` on `std::path::Path` (component-wise comparison),
/// whose result depends on the two paths alone; the contract names that
/// result and claims nothing more.
#[verifier::external_body]
pub(crate) fn paths_equal(a: &str, b: &str) -> (r: bool)
    ensures
        r == same_path(a@, b@),
{
    std::path::Path::new(a) == std::path::Path::new(b)
}

} // verus!
