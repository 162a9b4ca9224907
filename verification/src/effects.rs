//! What the sandbox lets a host do to the disk.
//!
//! The sandbox touches no file itself. An operation that the sandbox permits
//! comes back as a list of steps, each one call to the operating system, for
//! the host to perform in order. An operation that it refuses comes back as a
//! failure, and then there is nothing to perform.

use crate::error::{ErrorKind, ITBError};
use crate::paths::text_of;
use vstd::prelude::*;

verus! {

/// One call to the operating system.
#[derive(Debug, PartialEq, Eq)]
pub enum Step {
    /// Create a directory and every ancestor that is missing.
    CreateDirectories { path: String },
    /// Read a file as bytes.
    ReadBytes { path: String },
    /// Read a file as UTF-8 text.
    ReadText { path: String },
    /// Write bytes to a file, replacing what it held.
    WriteBytes { path: String, bytes: Vec<u8> },
    /// Write text to a file, replacing what it held.
    WriteText { path: String, text: String },
    /// Copy a file.
    Copy { from: String, to: String },
    /// Rename a file.
    Move { from: String, to: String },
    /// Remove a file.
    RemoveFile { path: String },
    /// Remove a directory with everything in it.
    RemoveDirectory { path: String },
}

/// A step as contracts speak of it: the same call, with its paths and its
/// contents as sequences.
pub enum StepView {
    CreateDirectories { path: Seq<char> },
    ReadBytes { path: Seq<char> },
    ReadText { path: Seq<char> },
    WriteBytes { path: Seq<char>, bytes: Seq<u8> },
    WriteText { path: Seq<char>, text: Seq<char> },
    Copy { from: Seq<char>, to: Seq<char> },
    Move { from: Seq<char>, to: Seq<char> },
    RemoveFile { path: Seq<char> },
    RemoveDirectory { path: Seq<char> },
}

impl View for Step {
    type V = StepView;

    open spec fn view(&self) -> StepView {
        match *self {
            Step::CreateDirectories { path } => StepView::CreateDirectories { path: path@ },
            Step::ReadBytes { path } => StepView::ReadBytes { path: path@ },
            Step::ReadText { path } => StepView::ReadText { path: path@ },
            Step::WriteBytes { path, bytes } => StepView::WriteBytes { path: path@, bytes: bytes@ },
            Step::WriteText { path, text } => StepView::WriteText { path: path@, text: text@ },
            Step::Copy { from, to } => StepView::Copy { from: from@, to: to@ },
            Step::Move { from, to } => StepView::Move { from: from@, to: to@ },
            Step::RemoveFile { path } => StepView::RemoveFile { path: path@ },
            Step::RemoveDirectory { path } => StepView::RemoveDirectory { path: path@ },
        }
    }
}

/// The steps of a list, as contracts speak of them.
pub open spec fn plan(steps: Seq<Step>) -> Seq<StepView> {
    steps.map_values(|s: Step| s@)
}

/// The step that creates a directory, in front of `rest`, where there is a
/// directory to create; `rest` alone where there is none.
pub open spec fn after_creating(directory: Option<Seq<char>>, rest: StepView) -> Seq<StepView> {
    match directory {
        Some(d) => seq![StepView::CreateDirectories { path: d }, rest],
        None => seq![rest],
    }
}

/// What removing comes to: nothing where the thing is absent already, the
/// one step that removes it where it is present.
pub open spec fn removing(step: StepView, present: bool) -> Seq<StepView> {
    if present {
        seq![step]
    } else {
        Seq::<StepView>::empty()
    }
}

/// A result with its steps and its failure taken by their views.
pub open spec fn planned(r: Result<Vec<Step>, ITBError>) -> Result<
    Seq<StepView>,
    (ErrorKind, Seq<char>),
> {
    match r {
        Ok(steps) => Ok(plan(steps@)),
        Err(e) => Err(e@),
    }
}

/// Puts the creation of a directory in front of a step, where there is a
/// directory to create.
pub fn prepare(directory: Option<String>, step: Step) -> (steps: Vec<Step>)
    ensures
        plan(steps@) == after_creating(text_of(directory), step@),
{
    let mut steps: Vec<Step> = Vec::new();
    let ghost wanted = after_creating(text_of(directory), step@);
    if let Some(d) = directory {
        steps.push(Step::CreateDirectories { path: d });
    }
    steps.push(step);
    assert(plan(steps@) =~= wanted);
    steps
}

/// A list of one step.
pub fn only(step: Step) -> (steps: Vec<Step>)
    ensures
        plan(steps@) == seq![step@],
{
    let mut steps: Vec<Step> = Vec::new();
    steps.push(step);
    assert(plan(steps@) =~= seq![step@]);
    steps
}

/// The empty list: nothing to do.
pub fn nothing() -> (steps: Vec<Step>)
    ensures
        plan(steps@) == Seq::<StepView>::empty(),
{
    let steps: Vec<Step> = Vec::new();
    assert(plan(steps@) =~= Seq::<StepView>::empty());
    steps
}

} // verus!
