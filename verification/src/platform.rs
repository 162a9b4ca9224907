//! The boundary to the operating system and to the libraries that speak to
//! it. Nothing in this module is proved: each item states what is taken on
//! trust of the function it names, and the rest of the crate is proved from
//! those statements alone.

use crate::directory::Entry;
use crate::paths::text_of;
use path_absolutize::Absolutize;
use vstd::prelude::*;

verus! {

/// The user's well-known directories, as the `directories` crate found them.
#[verifier::external_type_specification]
#[verifier::external_body]
pub struct ExUserDirs(directories::UserDirs);

/// The failure that a directory walk of the `walkdir` crate reports.
#[verifier::external_type_specification]
#[verifier::external_body]
pub struct ExWalkError(walkdir::Error);

/// What `Absolutize::absolutize_from` of the `path_absolutize` crate makes of
/// a path, given the directory that relative paths start from: the text of
/// the path that it returns, or `None` where the call fails or returns a
/// path that is not text.
pub uninterp spec fn absolutized(path: Seq<char>, base: Seq<char>) -> Option<Seq<char>>;

/// What `pathdiff::diff_paths` gives as the way from `base` to `path`, or
/// `None` where it finds no such way.
pub uninterp spec fn relative_path(path: Seq<char>, base: Seq<char>) -> Option<Seq<char>>;

/// Calls `Absolutize::absolutize_from` on `path` with `base` as the working
/// directory. The call works on the text alone and asks the system nothing,
/// so whether it succeeds and what it returns is a function of the two
/// arguments; no more is claimed of it. `None` stands for a failure of the
/// call or a result that is not text. The base has to start at the root:
/// with a relative base the call can panic.
#[verifier::external_body]
pub(crate) fn absolutize_from(path: &str, base: &str) -> (r: Option<String>)
    requires
        base@.len() > 0,
        base@[0] == '/',
    ensures
        text_of(r) == absolutized(path@, base@),
{
    let resolved = std::path::Path::new(path).absolutize_from(base).ok()?;
    resolved.to_str().map(String::from)
}

/// Calls `pathdiff::diff_paths`, which compares the two paths component by
/// component and asks the system nothing, so its result is a function of the
/// two arguments; no more is claimed of it.
#[verifier::external_body]
pub(crate) fn diff_paths(path: &str, base: &str) -> (r: Option<String>)
    ensures
        text_of(r) == relative_path(path@, base@),
{
    pathdiff::diff_paths(path, base).and_then(|p| p.to_str().map(String::from))
}

/// Calls `directories::UserDirs::new`, which reads the user's environment:
/// `None` where the user has no home directory. Nothing is claimed of what
/// it finds.
#[verifier::external_body]
pub(crate) fn user_dirs() -> (r: Option<directories::UserDirs>)
{
    directories::UserDirs::new()
}

/// Calls `UserDirs::document_dir`: the user's documents directory, where the
/// system names one and its path is text. Nothing is claimed of the result.
#[verifier::external_body]
pub(crate) fn document_dir(dirs: &directories::UserDirs) -> (r: Option<String>)
{
    dirs.document_dir().and_then(|p| p.to_str()).map(String::from)
}

/// Calls `Path::exists`: whether the path leads to something on disk, links
/// followed. Nothing is claimed of the answer, which may change between two
/// calls.
#[verifier::external_body]
pub(crate) fn path_exists(path: &str) -> (r: bool)
{
    std::path::Path::new(path).exists()
}

/// Walks a directory with `walkdir::WalkDir`, between the two depths given,
/// and hands out each entry as an `Entry`. The first entry that the walk
/// cannot read ends it with that failure. Nothing is claimed of what is
/// found.
#[verifier::external_body]
pub(crate) fn walk(path: &str, min_depth: usize, max_depth: usize, follow_links: bool) -> (r:
    Result<Vec<Entry>, walkdir::Error>)
{
    walkdir::WalkDir::new(path)
        .min_depth(min_depth)
        .max_depth(max_depth)
        .follow_links(follow_links)
        .into_iter()
        .map(|found| found.map(|e| Entry {
            path: e.path().to_str().map(String::from),
            is_file: e.file_type().is_file(),
            is_directory: e.file_type().is_dir(),
        }))
        .collect()
}

/// The message of a failed walk, as `walkdir::Error` words it.
#[verifier::external_body]
pub(crate) fn walk_error_message(error: &walkdir::Error) -> (r: String)
{
    error.to_string()
}

} // verus!
