//! The failures that the sandbox reports to its host.

use vstd::prelude::*;

verus! {

/// What went wrong, independent of the wording of the message.
#[derive(Clone, Copy, Debug, PartialEq, Eq, Structural)]
pub enum ErrorKind {
    /// A path could not be brought into canonical absolute form.
    ResolutionError,
    /// A resolved path lies outside both sandbox roots.
    AccessDenied,
    /// The operation needs existing content and there is none.
    NotFound,
    /// No candidate location holds the save-data marker file, or the user
    /// has no home directory to look in.
    NoSaveDataLocation,
    /// The operating system failed an operation that the sandbox permitted.
    IoError,
}

/// A failure: its kind and a message for the host to show.
#[derive(Debug)]
pub struct ITBError {
    pub kind: ErrorKind,
    pub message: String,
}

impl View for ITBError {
    type V = (ErrorKind, Seq<char>);

    open spec fn view(&self) -> (ErrorKind, Seq<char>) {
        (self.kind, self.message@)
    }
}

/// The failure of a path that could not be brought into canonical form.
pub open spec fn unresolved(e: ITBError) -> bool {
    e@ == (ErrorKind::ResolutionError, "The path could not be resolved"@)
}

/// The failure of a search for the save-data root: no location holds the
/// marker file, or the user has no home directory to look in.
pub open spec fn save_data_missing(e: ITBError) -> bool {
    ||| e@ == (ErrorKind::NoSaveDataLocation, "Could not find a valid save data location"@)
    ||| e@ == (
        ErrorKind::NoSaveDataLocation,
        "Couldn't retrieve valid home directory path from the operating system"@,
    )
}

impl ITBError {
    /// Builds a failure of the given kind with the given message.
    pub fn new(kind: ErrorKind, message: &str) -> (e: ITBError)
        ensures
            e@ == (kind, message@),
    {
        ITBError { kind, message: String::from_str(message) }
    }

    /// The failure that a host reports when the operating system refuses an
    /// operation that the sandbox had permitted.
    pub fn io(message: &str) -> (e: ITBError)
        ensures
            e@ == (ErrorKind::IoError, message@),
    {
        ITBError::new(ErrorKind::IoError, message)
    }

    /// The kind of the failure.
    pub fn kind(&self) -> (k: ErrorKind)
        ensures
            k == self.kind,
    {
        self.kind
    }

    /// The message, as the host shows it.
    pub fn message(&self) -> (text: String)
        ensures
            text@ == self.message@,
    {
        self.message.clone()
    }

    /// Whether a retry with the same arguments can never succeed: true of a
    /// denied access and of a missing save-data location.
    pub fn is_permanent(&self) -> (b: bool)
        ensures
            b == (self.kind == ErrorKind::AccessDenied || self.kind
                == ErrorKind::NoSaveDataLocation),
    {
        match self.kind {
            ErrorKind::AccessDenied => true,
            ErrorKind::NoSaveDataLocation => true,
            _ => false,
        }
    }
}

} // verus!
