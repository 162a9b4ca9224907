//! Handles on directories inside the sandbox.

use crate::effects::{nothing, only, plan, removing, Step, StepView};
use crate::error::{save_data_missing, unresolved, ErrorKind, ITBError};
use crate::file::File;
use crate::paths::{
    canonical, child_of, file_name, forward_slashed, is_canonical, is_child, is_within, join_all,
    joined_all, name_of, parent, parent_of, relative_tail, tail_below, text_of, texts,
    with_forward_slashes, within,
};
use crate::path_filter::{
    admitted, kept, lemma_kept_admitted, lemma_kept_among, verdict, PathFilter,
};
use crate::platform::{diff_paths, path_exists, relative_path, walk, walk_error_message};
use vstd::prelude::*;
use vstd::std_specs::convert::FromSpecImpl;

verus! {

/// A directory, known by its path. The handles that the sandbox hands out
/// are on paths that it admits; `from` wraps a path that nothing has judged.
#[derive(Debug)]
pub struct Directory {
    pub path: String,
}

impl View for Directory {
    type V = Seq<char>;

    open spec fn view(&self) -> Seq<char> {
        self.path@
    }
}

impl From<String> for Directory {
    /// Wraps a path as it is, without asking the sandbox.
    fn from(path: String) -> (directory: Directory)
        ensures
            directory@ == path@,
    {
        Directory { path }
    }
}

impl FromSpecImpl<String> for Directory {
    open spec fn obeys_from_spec() -> bool {
        true
    }

    open spec fn from_spec(path: String) -> Directory {
        Directory { path }
    }
}

impl From<&str> for Directory {
    /// Wraps a path as it is, without asking the sandbox.
    fn from(path: &str) -> (directory: Directory)
        ensures
            directory@ == path@,
    {
        Directory { path: String::from_str(path) }
    }
}

/// Nothing is said of `from` through `from_spec`: two handles on the same
/// text need not be the same value. What holds of the handle is what `from`
/// ensures.
impl FromSpecImpl<&str> for Directory {
    open spec fn obeys_from_spec() -> bool {
        false
    }

    open spec fn from_spec(path: &str) -> Directory {
        arbitrary()
    }
}

/// One child of a directory, as a listing reports it: its path, where that
/// path is text, and the kind of thing it leads to once links are followed.
#[derive(Debug)]
pub struct Entry {
    pub path: Option<String>,
    pub is_file: bool,
    pub is_directory: bool,
}

/// The path of a directory as it is reported: with forward slashes only,
/// and a separator at its end.
pub open spec fn reported_directory(p: Seq<char>) -> Seq<char> {
    forward_slashed(p).push('/')
}

/// Reports the path of a directory.
pub fn normalize(path: &str) -> (r: String)
    ensures
        r@ == reported_directory(path@),
{
    proof {
        reveal_strlit("/");
    }
    let r = with_forward_slashes(path).concat("/");
    assert(r@ =~= reported_directory(path@));
    r
}

/// The way from `base` to `path`. Where both are canonical and `path` lies
/// within `base`, it is what is left of `path` below `base`; in every other
/// case it is what comparing the two paths component by component gives,
/// and there may be none.
pub open spec fn relative_form(path: Seq<char>, base: Seq<char>) -> Option<Seq<char>> {
    if canonical(path) && canonical(base) && within(path, base) {
        Some(tail_below(path, base))
    } else {
        relative_path(path, base)
    }
}

/// A relative path as it is reported: with forward slashes only.
pub open spec fn reported_way(way: Option<Seq<char>>) -> Option<Seq<char>> {
    match way {
        Some(w) => Some(forward_slashed(w)),
        None => None,
    }
}

/// Whether an entry is of the kind asked for, files or directories, and has
/// a path that is text.
pub open spec fn of_kind(entry: Entry, files: bool) -> bool {
    entry.path is Some && if files {
        entry.is_file
    } else {
        entry.is_directory
    }
}

/// The paths of the entries of the kind asked for, in their order.
pub open spec fn children(entries: Seq<Entry>, files: bool) -> Seq<Seq<char>>
    decreases entries.len(),
{
    if entries.len() == 0 {
        Seq::<Seq<char>>::empty()
    } else if of_kind(entries.last(), files) {
        children(entries.drop_last(), files).push(entries.last().path->0@)
    } else {
        children(entries.drop_last(), files)
    }
}

/// Whether every entry that has a path lies directly inside `directory`.
pub open spec fn all_inside(entries: Seq<Entry>, directory: Seq<char>) -> bool {
    forall|k: int|
        0 <= k < entries.len() ==> ((#[trigger] entries[k]).path matches Some(p) ==> child_of(
            p@,
            directory,
        ))
}

/// Whether every path lies directly inside `directory`.
pub open spec fn all_children(paths: Seq<Seq<char>>, directory: Seq<char>) -> bool {
    forall|j: int| 0 <= j < paths.len() ==> child_of(#[trigger] paths[j], directory)
}

/// Whether an entry may stand in the listing of a directory: it has no path
/// that is text, or its path lies directly inside the directory.
pub open spec fn listable(entry: Entry, directory: Seq<char>) -> bool {
    entry.path matches Some(p) ==> child_of(p@, directory)
}

/// The entries that may stand in the listing of a directory, in their
/// order.
pub open spec fn inside(found: Seq<Entry>, directory: Seq<char>) -> Seq<Entry>
    decreases found.len(),
{
    if found.len() == 0 {
        Seq::<Entry>::empty()
    } else if listable(found.last(), directory) {
        inside(found.drop_last(), directory).push(found.last())
    } else {
        inside(found.drop_last(), directory)
    }
}

/// What `inside` keeps lies directly inside the directory.
pub proof fn lemma_inside_is_inside(found: Seq<Entry>, directory: Seq<char>)
    ensures
        all_inside(inside(found, directory), directory),
    decreases found.len(),
{
    if found.len() > 0 {
        lemma_inside_is_inside(found.drop_last(), directory);
        if listable(found.last(), directory) {
            lemma_inside_grows(inside(found.drop_last(), directory), found.last(), directory);
        }
    }
}

/// How a directory is walked: from which depth to which, and whether links
/// are followed.
#[derive(Debug)]
pub struct Walk {
    pub min_depth: usize,
    pub max_depth: usize,
    pub follow_links: bool,
}

/// The walk that lists a directory: its children and nothing below them,
/// each taken for what its link leads to.
pub fn children_walk() -> (how: Walk)
    ensures
        how.min_depth == 1,
        how.max_depth == 1,
        how.follow_links,
{
    Walk { min_depth: 1, max_depth: 1, follow_links: true }
}

/// Makes a listing of what a walk of a directory gave. A walk that failed
/// is an `IoError` with the walk's message: not one entry is listed then.
/// Of the entries of a walk that went through, those that may stand in the
/// listing are listed, in their order.
pub fn listed(outcome: Result<Vec<Entry>, String>, directory: &str) -> (r: Result<
    Vec<Entry>,
    ITBError,
>)
    ensures
        match outcome {
            Err(message) => r matches Err(e) && e@ == (ErrorKind::IoError, message@),
            Ok(found) => r matches Ok(entries) && entries@ == inside(found@, directory@),
        },
{
    let found = match outcome {
        Ok(found) => found,
        Err(message) => {
            return Err(ITBError::io(message.as_str()));
        },
    };
    let mut entries: Vec<Entry> = Vec::new();
    let mut i: usize = 0;
    proof {
        assert(found@.subrange(0, 0) =~= Seq::<Entry>::empty());
    }
    while i < found.len()
        invariant
            i <= found.len(),
            entries@ == inside(found@.subrange(0, i as int), directory@),
        decreases found.len() - i,
    {
        let entry = &found[i];
        proof {
            let next = found@.subrange(0, i + 1);
            assert(next.drop_last() =~= found@.subrange(0, i as int));
            assert(next.last() == found@[i as int]);
        }
        match &entry.path {
            Some(path) => {
                if is_child(path.as_str(), directory) {
                    let same = Entry {
                        path: Some(path.clone()),
                        is_file: entry.is_file,
                        is_directory: entry.is_directory,
                    };
                    assert(same == found@[i as int]);
                    entries.push(same);
                }
            },
            None => {
                let same = Entry {
                    path: None,
                    is_file: entry.is_file,
                    is_directory: entry.is_directory,
                };
                assert(same == found@[i as int]);
                entries.push(same);
            },
        }
        i = i + 1;
    }
    proof {
        assert(found@.subrange(0, found.len() as int) =~= found@);
    }
    Ok(entries)
}

/// Entries that lie directly inside a directory still do so with one more
/// such entry, or one without a path, at their end.
pub proof fn lemma_inside_grows(entries: Seq<Entry>, entry: Entry, directory: Seq<char>)
    requires
        all_inside(entries, directory),
        entry.path matches Some(p) ==> child_of(p@, directory),
    ensures
        all_inside(entries.push(entry), directory),
{
    let grown = entries.push(entry);
    assert forall|k: int| 0 <= k < grown.len() implies ((#[trigger] grown[k]).path matches Some(
        p,
    ) ==> child_of(p@, directory)) by {
        if k < entries.len() {
            assert(grown[k] == entries[k]);
        }
    }
}

/// The children picked from entries that lie directly inside a directory
/// lie directly inside it.
pub proof fn lemma_children_inside(entries: Seq<Entry>, files: bool, directory: Seq<char>)
    requires
        all_inside(entries, directory),
    ensures
        all_children(children(entries, files), directory),
    decreases entries.len(),
{
    if entries.len() > 0 {
        let front = entries.drop_last();
        assert forall|k: int| 0 <= k < front.len() implies ((#[trigger] front[k]).path matches Some(
            p,
        ) ==> child_of(p@, directory)) by {
            assert(front[k] == entries[k]);
        }
        lemma_children_inside(front, files, directory);
        let before = children(front, files);
        assert forall|j: int| 0 <= j < children(entries, files).len() implies child_of(
            #[trigger] children(entries, files)[j],
            directory,
        ) by {
            if j < before.len() {
                assert(children(entries, files)[j] == before[j]);
            } else {
                assert(entries[entries.len() - 1] == entries.last());
            }
        }
    }
}

/// What the sandbox keeps of paths that lie directly inside a directory
/// lies directly inside it.
pub proof fn lemma_kept_inside(paths: Seq<Seq<char>>, filter: PathFilter, directory: Seq<char>)
    requires
        all_children(paths, directory),
    ensures
        all_children(kept(paths, filter), directory),
{
    lemma_kept_among(paths, filter);
    assert forall|j: int| 0 <= j < kept(paths, filter).len() implies child_of(
        #[trigger] kept(paths, filter)[j],
        directory,
    ) by {
        let found = kept(paths, filter)[j];
        assert(paths.contains(found));
        let k = choose|k: int| 0 <= k < paths.len() && paths[k] == found;
        assert(child_of(paths[k], directory));
    }
}

/// The paths of a list of files, in their order.
pub open spec fn file_paths(files: Seq<File>) -> Seq<Seq<char>> {
    files.map_values(|f: File| f@)
}

/// The paths of a list of directories, in their order.
pub open spec fn directory_paths(directories: Seq<Directory>) -> Seq<Seq<char>> {
    directories.map_values(|d: Directory| d@)
}

/// Reports a relative path, where there is one.
pub fn report_way(way: Option<String>) -> (r: Option<String>)
    ensures
        text_of(r) == reported_way(text_of(way)),
{
    match way {
        Some(w) => Some(with_forward_slashes(w.as_str())),
        None => None,
    }
}

/// The paths of the entries of the kind asked for, in their order.
pub fn children_of_kind(entries: &Vec<Entry>, files: bool) -> (r: Vec<String>)
    ensures
        texts(r@) == children(entries@, files),
{
    let mut out: Vec<String> = Vec::new();
    let mut i: usize = 0;
    proof {
        assert(entries@.subrange(0, 0) =~= Seq::<Entry>::empty());
        assert(texts(out@) =~= Seq::<Seq<char>>::empty());
    }
    while i < entries.len()
        invariant
            i <= entries.len(),
            texts(out@) == children(entries@.subrange(0, i as int), files),
        decreases entries.len() - i,
    {
        let ghost next = entries@.subrange(0, i + 1);
        proof {
            assert(next.drop_last() =~= entries@.subrange(0, i as int));
            assert(next.last() == entries@[i as int]);
        }
        let entry = &entries[i];
        let wanted = if files {
            entry.is_file
        } else {
            entry.is_directory
        };
        if wanted {
            if let Some(path) = &entry.path {
                let ghost earlier = texts(out@);
                out.push(path.clone());
                assert(texts(out@) =~= earlier.push(path@));
            }
        }
        i = i + 1;
    }
    proof {
        assert(entries@.subrange(0, entries.len() as int) =~= entries@);
    }
    out
}

/// Picks from the listing of a directory the children of the kind asked
/// for, and keeps those that the sandbox admits. A directory that is absent
/// has no listing: that is `NotFound`.
pub fn select(filter: &mut PathFilter, present: bool, entries: &Vec<Entry>, files: bool) -> (r:
    Result<Vec<String>, ITBError>)
    ensures
        final(filter).extends(*old(filter)),
        !present ==> (r matches Err(e) && e@ == (
            ErrorKind::NotFound,
            "Directory doesn't exist"@,
        )),
        present ==> match r {
            Ok(v) => texts(v@) == kept(children(entries@, files), *final(filter)),
            Err(e) => {
                ||| unresolved(e)
                ||| save_data_missing(e) && old(filter).save_root() is None
                    && final(filter).save_root() is None
            },
        },
        present && (forall|j: int|
            0 <= j < children(entries@, files).len() ==> old(filter).settles(
                #[trigger] children(entries@, files)[j],
            )) ==> r is Ok,
        r is Ok ==> forall|j: int|
            0 <= j < children(entries@, files).len() ==> old(filter).resolved(
                #[trigger] children(entries@, files)[j],
            ) is Some,
{
    if !present {
        return Err(ITBError::new(ErrorKind::NotFound, "Directory doesn't exist"));
    }
    let found = children_of_kind(entries, files);
    proof {
        let wanted = children(entries@, files);
        if forall|j: int| 0 <= j < wanted.len() ==> filter.settles(#[trigger] wanted[j]) {
            assert forall|j: int| 0 <= j < found.len() implies filter.settles(
                #[trigger] found[j]@,
            ) by {
                assert(texts(found@)[j] == found[j]@);
                assert(filter.settles(wanted[j]));
            }
        }
    }
    let ghost before = *filter;
    let r = admitted(filter, &found);
    proof {
        let wanted = children(entries@, files);
        if r is Ok {
            assert forall|j: int| 0 <= j < wanted.len() implies before.resolved(
                #[trigger] wanted[j],
            ) is Some by {
                assert(texts(found@)[j] == found[j]@);
            }
        }
    }
    r
}

/// Makes a file handle of each path.
pub fn files_at(paths: Vec<String>) -> (r: Vec<File>)
    ensures
        file_paths(r@) == texts(paths@),
{
    let mut out: Vec<File> = Vec::new();
    let mut i: usize = 0;
    while i < paths.len()
        invariant
            i <= paths.len(),
            file_paths(out@) == texts(paths@).subrange(0, i as int),
        decreases paths.len() - i,
    {
        let ghost earlier = file_paths(out@);
        let file = File::from(paths[i].clone());
        assert(file@ == paths@[i as int]@);
        out.push(file);
        assert(file_paths(out@) =~= earlier.push(paths@[i as int]@));
        assert(earlier.push(paths@[i as int]@) =~= texts(paths@).subrange(0, i + 1));
        i = i + 1;
    }
    assert(file_paths(out@) =~= texts(paths@));
    out
}

/// Makes a directory handle of each path.
pub fn directories_at(paths: Vec<String>) -> (r: Vec<Directory>)
    ensures
        directory_paths(r@) == texts(paths@),
{
    let mut out: Vec<Directory> = Vec::new();
    let mut i: usize = 0;
    while i < paths.len()
        invariant
            i <= paths.len(),
            directory_paths(out@) == texts(paths@).subrange(0, i as int),
        decreases paths.len() - i,
    {
        let ghost earlier = directory_paths(out@);
        let directory = Directory::from(paths[i].clone());
        assert(directory@ == paths@[i as int]@);
        out.push(directory);
        assert(directory_paths(out@) =~= earlier.push(paths@[i as int]@));
        assert(earlier.push(paths@[i as int]@) =~= texts(paths@).subrange(0, i + 1));
        i = i + 1;
    }
    assert(directory_paths(out@) =~= texts(paths@));
    out
}

impl Directory {
    /// The path as it is reported: with forward slashes only, and a
    /// separator at its end, which tells a directory from a file.
    pub fn path(&self) -> (r: String)
        ensures
            r@ == reported_directory(self@),
    {
        normalize(self.path.as_str())
    }

    /// The name of the directory: the final component of its path.
    pub fn name(&self) -> (r: String)
        ensures
            r@ == name_of(self@),
    {
        file_name(self.path.as_str())
    }

    /// The directory that holds this one. A path without a parent has none,
    /// and that is no failure. A parent that the sandbox does not admit is
    /// refused.
    pub fn parent(&self, filter: &mut PathFilter) -> (r: Result<Option<Directory>, ITBError>)
        ensures
            final(filter).extends(*old(filter)),
            match parent_of(self@) {
                None => r matches Ok(None),
                Some(p) => {
                    &&& final(filter).judged(
                        *old(filter),
                        p,
                        "Parent is not an allowed directory"@,
                        verdict(r),
                    )
                    &&& r matches Ok(d) ==> d matches Some(d) && d@ == p
                },
            },
    {
        match parent(self.path.as_str()) {
            None => Ok(None),
            Some(p) => {
                match filter.authorize(p.as_str(), "Parent is not an allowed directory") {
                    Ok(_) => Ok(Some(Directory::from(p))),
                    Err(e) => Err(e),
                }
            },
        }
    }

    /// The file reached from this directory by the given segments. The
    /// joined path is judged, and one that leaves the sandbox is refused.
    pub fn file(&self, filter: &mut PathFilter, segments: &Vec<String>) -> (r: Result<
        File,
        ITBError,
    >)
        ensures
            final(filter).judged(
                *old(filter),
                joined_all(self@, texts(segments@)),
                "Path points to a file not within an allowed directory"@,
                verdict(r),
            ),
            r matches Ok(f) ==> f@ == joined_all(self@, texts(segments@)),
    {
        let target = join_all(self.path.as_str(), segments);
        match filter.authorize(
            target.as_str(),
            "Path points to a file not within an allowed directory",
        ) {
            Ok(_) => Ok(File::from(target)),
            Err(e) => Err(e),
        }
    }

    /// The directory reached from this one by the given segments. The
    /// joined path is judged, and one that leaves the sandbox is refused.
    pub fn directory(&self, filter: &mut PathFilter, segments: &Vec<String>) -> (r: Result<
        Directory,
        ITBError,
    >)
        ensures
            final(filter).judged(
                *old(filter),
                joined_all(self@, texts(segments@)),
                "Path does not point to an allowed directory"@,
                verdict(r),
            ),
            r matches Ok(d) ==> d@ == joined_all(self@, texts(segments@)),
    {
        let target = join_all(self.path.as_str(), segments);
        match filter.authorize(target.as_str(), "Path does not point to an allowed directory") {
            Ok(_) => Ok(Directory::from(target)),
            Err(e) => Err(e),
        }
    }

    /// The way from this directory to a path, reported with forward slashes
    /// only; no result where there is no such way.
    pub fn relativize(&self, path: &str) -> (r: Option<String>)
        ensures
            text_of(r) == reported_way(relative_form(path@, self@)),
    {
        let base = self.path.as_str();
        if is_canonical(path) && is_canonical(base) && is_within(path, base) {
            report_way(Some(relative_tail(path, base)))
        } else {
            report_way(diff_paths(path, base))
        }
    }

    /// Walks the directory for its children, where it is present, and gives
    /// what the walk gave: the entries, or the message of the failure. What
    /// becomes of that is said by `children_from`.
    fn listing(&self, present: bool) -> (outcome: Result<Vec<Entry>, String>)
        ensures
            !present ==> (outcome matches Ok(found) && found.len() == 0),
    {
        if !present {
            return Ok(Vec::new());
        }
        let how = children_walk();
        match walk(self.path.as_str(), how.min_depth, how.max_depth, how.follow_links) {
            Ok(found) => Ok(found),
            Err(e) => Err(walk_error_message(&e)),
        }
    }

    /// The children of the directory that are handed out, given whether the
    /// directory is present and what a walk of it gave.
    ///
    /// - An absent directory is `NotFound`.
    /// - A walk that failed is an `IoError`: no part of a listing is handed
    ///   out.
    /// - Otherwise the entries that lie directly inside the directory are
    ///   listed, those of the kind asked for are picked, and of these the
    ///   sandbox keeps what it admits, in their order.
    pub fn children_from(
        &self,
        filter: &mut PathFilter,
        present: bool,
        outcome: Result<Vec<Entry>, String>,
        files: bool,
    ) -> (r: Result<Vec<String>, ITBError>)
        ensures
            final(filter).extends(*old(filter)),
            !present ==> (r matches Err(e) && e@ == (
                ErrorKind::NotFound,
                "Directory doesn't exist"@,
            )),
            present ==> match outcome {
                Err(message) => r matches Err(e) && e@ == (ErrorKind::IoError, message@),
                Ok(found) => {
                    let wanted = children(inside(found@, self@), files);
                    &&& all_children(wanted, self@)
                    &&& match r {
                        Ok(v) => texts(v@) == kept(wanted, *final(filter)) && all_children(
                            texts(v@),
                            self@,
                        ),
                        Err(e) => {
                            ||| unresolved(e)
                            ||| save_data_missing(e) && old(filter).save_root() is None
                                && final(filter).save_root() is None
                        },
                    }
                    &&& (forall|j: int|
                        0 <= j < wanted.len() ==> old(filter).settles(#[trigger] wanted[j]))
                        ==> r is Ok
                    &&& r is Ok ==> forall|j: int|
                        0 <= j < wanted.len() ==> old(filter).resolved(#[trigger] wanted[j])
                            is Some
                },
            },
    {
        if !present {
            return Err(ITBError::new(ErrorKind::NotFound, "Directory doesn't exist"));
        }
        let ghost walked = outcome;
        let entries = match listed(outcome, self.path.as_str()) {
            Ok(entries) => entries,
            Err(e) => {
                return Err(e);
            },
        };
        proof {
            lemma_inside_is_inside(walked->Ok_0@, self@);
            lemma_children_inside(entries@, files, self@);
        }
        let r = select(filter, true, &entries, files);
        proof {
            lemma_kept_inside(children(entries@, files), *filter, self@);
        }
        r
    }

    /// The files directly inside the directory. An absent directory is
    /// `NotFound`, and a child that cannot be read ends the call as an
    /// `IoError`. Every file handed out lies directly inside this directory,
    /// its path being this directory's path with one name adjoined, and is
    /// one that the sandbox admits.
    pub fn files(&self, filter: &mut PathFilter) -> (r: Result<Vec<File>, ITBError>)
        ensures
            final(filter).extends(*old(filter)),
            match r {
                Ok(v) => forall|i: int|
                    0 <= i < v.len() ==> child_of(#[trigger] v[i]@, self@) && final(filter).admits(
                        v[i]@,
                    ),
                Err(e) => {
                    ||| e@ == (ErrorKind::NotFound, "Directory doesn't exist"@)
                    ||| e.kind == ErrorKind::IoError
                    ||| unresolved(e)
                    ||| save_data_missing(e)
                },
            },
    {
        let present = self.exists_on_disk();
        let outcome = self.listing(present);
        let ghost walked = outcome;
        match self.children_from(filter, present, outcome, true) {
            Ok(paths) => {
                let found = files_at(paths);
                proof {
                    lemma_kept_admitted(children(inside(walked->Ok_0@, self@), true), *filter);
                    assert forall|i: int| 0 <= i < found.len() implies child_of(
                        #[trigger] found[i]@,
                        self@,
                    ) && filter.admits(found[i]@) by {
                        assert(found[i]@ == file_paths(found@)[i]);
                    }
                }
                Ok(found)
            },
            Err(e) => Err(e),
        }
    }

    /// The directories directly inside the directory. An absent directory
    /// is `NotFound`, and a child that cannot be read ends the call as an
    /// `IoError`. Every directory handed out lies directly inside this
    /// directory, its path being this directory's path with one name
    /// adjoined, and is one that the sandbox admits.
    pub fn directories(&self, filter: &mut PathFilter) -> (r: Result<Vec<Directory>, ITBError>)
        ensures
            final(filter).extends(*old(filter)),
            match r {
                Ok(v) => forall|i: int|
                    0 <= i < v.len() ==> child_of(#[trigger] v[i]@, self@) && final(filter).admits(
                        v[i]@,
                    ),
                Err(e) => {
                    ||| e@ == (ErrorKind::NotFound, "Directory doesn't exist"@)
                    ||| e.kind == ErrorKind::IoError
                    ||| unresolved(e)
                    ||| save_data_missing(e)
                },
            },
    {
        let present = self.exists_on_disk();
        let outcome = self.listing(present);
        let ghost walked = outcome;
        match self.children_from(filter, present, outcome, false) {
            Ok(paths) => {
                let found = directories_at(paths);
                proof {
                    lemma_kept_admitted(children(inside(walked->Ok_0@, self@), false), *filter);
                    assert forall|i: int| 0 <= i < found.len() implies child_of(
                        #[trigger] found[i]@,
                        self@,
                    ) && filter.admits(found[i]@) by {
                        assert(found[i]@ == directory_paths(found@)[i]);
                    }
                }
                Ok(found)
            },
            Err(e) => Err(e),
        }
    }

    /// Whether the directory is on disk at this moment.
    pub fn exists_on_disk(&self) -> bool {
        path_exists(self.path.as_str())
    }

    /// The steps that create the directory and its missing ancestors. The
    /// directory's own path is judged first, and one outside the sandbox is
    /// refused.
    pub fn make_directories(&self, filter: &mut PathFilter) -> (r: Result<Vec<Step>, ITBError>)
        ensures
            final(filter).judged(
                *old(filter),
                self@,
                "Path does not point to an allowed directory"@,
                verdict(r),
            ),
            r matches Ok(steps) ==> plan(steps@) == seq![
                StepView::CreateDirectories { path: self@ },
            ],
    {
        match filter.authorize(
            self.path.as_str(),
            "Path does not point to an allowed directory",
        ) {
            Ok(_) => Ok(only(Step::CreateDirectories { path: self.path.clone() })),
            Err(e) => Err(e),
        }
    }

    /// The steps that remove the directory with everything in it, given
    /// whether it is present: removing an absent directory is no failure and
    /// takes no step.
    pub fn delete_steps(&self, present: bool) -> (steps: Vec<Step>)
        ensures
            plan(steps@) == removing(StepView::RemoveDirectory { path: self@ }, present),
    {
        if present {
            only(Step::RemoveDirectory { path: self.path.clone() })
        } else {
            nothing()
        }
    }

    /// Looks whether the directory is present and gives the steps that
    /// remove it: none where it is absent.
    pub fn delete(&self) -> (steps: Vec<Step>)
        ensures
            plan(steps@) == removing(StepView::RemoveDirectory { path: self@ }, true) || plan(
                steps@,
            ) == removing(StepView::RemoveDirectory { path: self@ }, false),
    {
        self.delete_steps(self.exists_on_disk())
    }
}

} // verus!
