//! What a host is offered: the three ways to a handle. Each takes what the
//! host wrote and answers with a handle on a path that the sandbox admits,
//! or with a failure.

use crate::directory::Directory;
use crate::error::{save_data_missing, unresolved, ITBError};
use crate::file::File;
use crate::paths::{anchor, anchored, canonical};
use crate::path_filter::{seen, PathFilter};
use vstd::prelude::*;

verus! {

/// Makes a path explicitly relative to the working directory where it
/// begins with a bare name: `file.txt` becomes `./file.txt`.
pub fn normalize(path: &str) -> (r: String)
    ensures
        r@ == anchored(path@),
{
    anchor(path)
}

/// A handle on the file at a path as the host wrote it. The handle holds
/// the canonical form of the path.
pub fn file(filter: &mut PathFilter, path: &str) -> (r: Result<File, ITBError>)
    ensures
        final(filter).granted(
            *old(filter),
            path@,
            "Path points to a file not within an allowed directory"@,
            seen(r),
        ),
{
    match filter.request(path, "Path points to a file not within an allowed directory") {
        Ok(p) => Ok(File::from(p)),
        Err(e) => Err(e),
    }
}

/// A handle on the directory at a path as the host wrote it. The handle
/// holds the canonical form of the path.
pub fn directory(filter: &mut PathFilter, path: &str) -> (r: Result<Directory, ITBError>)
    ensures
        final(filter).granted(
            *old(filter),
            path@,
            "Path does not point to an allowed directory"@,
            seen(r),
        ),
{
    match filter.request(path, "Path does not point to an allowed directory") {
        Ok(p) => Ok(Directory::from(p)),
        Err(e) => Err(e),
    }
}

/// A handle on the save-data root: the root that is known, or the one that
/// is found now and kept.
pub fn save_data_directory(filter: &mut PathFilter) -> (r: Result<Directory, ITBError>)
    ensures
        final(filter).extends(*old(filter)),
        old(filter).save_root() matches Some(s) ==> (r matches Ok(d) && d@ == s),
        match r {
            Ok(d) => final(filter).save_root() == Some(d@) && canonical(d@),
            Err(e) => {
                &&& save_data_missing(e) || unresolved(e)
                &&& final(filter).save_root() is None
            },
        },
{
    match filter.save_data_directory() {
        Ok(root) => Ok(Directory::from(root)),
        Err(e) => Err(e),
    }
}

} // verus!
