//! Handles on files inside the sandbox.

use crate::directory::Directory;
use crate::effects::{
    after_creating, nothing, only, plan, planned, prepare, removing, Step, StepView,
};
use crate::error::{ErrorKind, ITBError};
use crate::paths::{
    anchored, extension, extension_of, file_name, file_stem, forward_slashed, name_of, parent,
    parent_of, stem_of, text_of, with_forward_slashes,
};
use crate::path_filter::{verdict, PathFilter};
use crate::platform::path_exists;
use vstd::prelude::*;
use vstd::std_specs::convert::FromSpecImpl;

verus! {

/// A file, known by its path. A handle holds no open file. The handles
/// that the sandbox hands out are on paths that it admits; `from` wraps a
/// path that nothing has judged.
#[derive(Debug)]
pub struct File {
    pub path: String,
}

impl View for File {
    type V = Seq<char>;

    open spec fn view(&self) -> Seq<char> {
        self.path@
    }
}

impl From<String> for File {
    /// Wraps a path as it is, without asking the sandbox.
    fn from(path: String) -> (file: File)
        ensures
            file@ == path@,
    {
        File { path }
    }
}

impl FromSpecImpl<String> for File {
    open spec fn obeys_from_spec() -> bool {
        true
    }

    open spec fn from_spec(path: String) -> File {
        File { path }
    }
}

impl From<&str> for File {
    /// Wraps a path as it is, without asking the sandbox.
    fn from(path: &str) -> (file: File)
        ensures
            file@ == path@,
    {
        File { path: String::from_str(path) }
    }
}

/// Nothing is said of `from` through `from_spec`: two handles on the same
/// text need not be the same value. What holds of the handle is what `from`
/// ensures.
impl FromSpecImpl<&str> for File {
    open spec fn obeys_from_spec() -> bool {
        false
    }

    open spec fn from_spec(path: &str) -> File {
        arbitrary()
    }
}

/// What reading a file comes to: a failure where the file is absent, the
/// one step that reads it where it is present.
pub open spec fn reading(path: Seq<char>, present: bool, text: bool) -> Result<
    Seq<StepView>,
    (ErrorKind, Seq<char>),
> {
    if !present {
        Err((ErrorKind::NotFound, "File doesn't exist"@))
    } else if text {
        Ok(seq![StepView::ReadText { path }])
    } else {
        Ok(seq![StepView::ReadBytes { path }])
    }
}

impl File {
    /// The path as it is reported: with forward slashes only.
    pub fn path(&self) -> (r: String)
        ensures
            r@ == forward_slashed(self@),
    {
        with_forward_slashes(self.path.as_str())
    }

    /// The name of the file: the final component of its path.
    pub fn name(&self) -> (r: String)
        ensures
            r@ == name_of(self@),
    {
        file_name(self.path.as_str())
    }

    /// The name of the file without its extension.
    pub fn name_without_extension(&self) -> (r: String)
        ensures
            r@ == stem_of(self@),
    {
        file_stem(self.path.as_str())
    }

    /// The extension of the file, where its name has one.
    pub fn extension(&self) -> (r: Option<String>)
        ensures
            text_of(r) == extension_of(self@),
    {
        extension(self.path.as_str())
    }

    /// The directory that holds the file. A path without a parent has none,
    /// and that is no failure. A parent that the sandbox does not admit is
    /// refused.
    pub fn parent(&self, filter: &mut PathFilter) -> (r: Result<Option<Directory>, ITBError>)
        ensures
            final(filter).extends(*old(filter)),
            match parent_of(self@) {
                None => r matches Ok(None),
                Some(p) => {
                    &&& final(filter).judged(
                        *old(filter),
                        p,
                        "Parent is not an allowed directory"@,
                        verdict(r),
                    )
                    &&& r matches Ok(d) ==> d matches Some(d) && d@ == p
                },
            },
    {
        match parent(self.path.as_str()) {
            None => Ok(None),
            Some(p) => {
                match filter.authorize(p.as_str(), "Parent is not an allowed directory") {
                    Ok(_) => Ok(Some(Directory::from(p))),
                    Err(e) => Err(e),
                }
            },
        }
    }

    /// Whether the file is on disk at this moment.
    pub fn exists_on_disk(&self) -> bool {
        path_exists(self.path.as_str())
    }

    /// The steps that read the file, given whether it is present: reading an
    /// absent file fails with `NotFound`.
    pub fn read_steps(&self, present: bool, text: bool) -> (r: Result<Vec<Step>, ITBError>)
        ensures
            planned(r) == reading(self@, present, text),
    {
        if !present {
            Err(ITBError::new(ErrorKind::NotFound, "File doesn't exist"))
        } else if text {
            Ok(only(Step::ReadText { path: self.path.clone() }))
        } else {
            Ok(only(Step::ReadBytes { path: self.path.clone() }))
        }
    }

    /// Looks whether the file is present and gives the step that reads its
    /// bytes, or fails with `NotFound`.
    pub fn read_to_byte_array(&self) -> (r: Result<Vec<Step>, ITBError>)
        ensures
            planned(r) == reading(self@, true, false) || planned(r) == reading(
                self@,
                false,
                false,
            ),
    {
        self.read_steps(self.exists_on_disk(), false)
    }

    /// Looks whether the file is present and gives the step that reads its
    /// text, or fails with `NotFound`.
    pub fn read_to_string(&self) -> (r: Result<Vec<Step>, ITBError>)
        ensures
            planned(r) == reading(self@, true, true) || planned(r) == reading(self@, false, true),
    {
        self.read_steps(self.exists_on_disk(), true)
    }

    /// The steps that write text to the file: the directory that holds the
    /// file is created first, so that a write never fails for want of it.
    pub fn write_string(&self, content: String) -> (steps: Vec<Step>)
        ensures
            plan(steps@) == after_creating(
                parent_of(self@),
                StepView::WriteText { path: self@, text: content@ },
            ),
    {
        prepare(
            parent(self.path.as_str()),
            Step::WriteText { path: self.path.clone(), text: content },
        )
    }

    /// The steps that write bytes to the file: the directory that holds the
    /// file is created first.
    pub fn write_byte_array(&self, content: Vec<u8>) -> (steps: Vec<Step>)
        ensures
            plan(steps@) == after_creating(
                parent_of(self@),
                StepView::WriteBytes { path: self@, bytes: content@ },
            ),
    {
        prepare(
            parent(self.path.as_str()),
            Step::WriteBytes { path: self.path.clone(), bytes: content },
        )
    }

    /// The steps that copy the file to a destination. The destination is a
    /// path as a host writes it: it is resolved and judged on its own, and a
    /// destination outside the sandbox is refused. The directory that will
    /// hold the copy is created first.
    pub fn copy(&self, filter: &mut PathFilter, destination: &str) -> (r: Result<
        Vec<Step>,
        ITBError,
    >)
        ensures
            final(filter).requested(
                *old(filter),
                destination@,
                "Destination is not within allowed directory"@,
                verdict(r),
            ),
            r matches Ok(steps) ==> (old(filter).resolved(anchored(destination@)) matches Some(to)
                && plan(steps@) == after_creating(
                parent_of(to),
                StepView::Copy { from: self@, to },
            )),
    {
        let to = match filter.request(destination, "Destination is not within allowed directory") {
            Ok(p) => p,
            Err(e) => {
                return Err(e);
            },
        };
        Ok(prepare(parent(to.as_str()), Step::Copy { from: self.path.clone(), to }))
    }

    /// The steps that move the file to a destination, which is resolved and
    /// judged as for a copy.
    pub fn move_file(&self, filter: &mut PathFilter, destination: &str) -> (r: Result<
        Vec<Step>,
        ITBError,
    >)
        ensures
            final(filter).requested(
                *old(filter),
                destination@,
                "Destination is not within allowed directory"@,
                verdict(r),
            ),
            r matches Ok(steps) ==> (old(filter).resolved(anchored(destination@)) matches Some(to)
                && plan(steps@) == after_creating(
                parent_of(to),
                StepView::Move { from: self@, to },
            )),
    {
        let to = match filter.request(destination, "Destination is not within allowed directory") {
            Ok(p) => p,
            Err(e) => {
                return Err(e);
            },
        };
        Ok(prepare(parent(to.as_str()), Step::Move { from: self.path.clone(), to }))
    }

    /// The steps that remove the file, given whether it is present: removing
    /// an absent file is no failure and takes no step.
    pub fn delete_steps(&self, present: bool) -> (steps: Vec<Step>)
        ensures
            plan(steps@) == removing(StepView::RemoveFile { path: self@ }, present),
    {
        if present {
            only(Step::RemoveFile { path: self.path.clone() })
        } else {
            nothing()
        }
    }

    /// Looks whether the file is present and gives the steps that remove
    /// it: none where it is absent.
    pub fn delete(&self) -> (steps: Vec<Step>)
        ensures
            plan(steps@) == removing(StepView::RemoveFile { path: self@ }, true) || plan(steps@)
                == removing(StepView::RemoveFile { path: self@ }, false),
    {
        self.delete_steps(self.exists_on_disk())
    }
}

} // verus!
