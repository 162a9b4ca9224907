//! A sandbox for the file access of scripts.
//!
//! A game that runs scripts lets them read and write files, but only inside
//! two directories: the directory that the game is installed in, and the
//! directory that holds the player's save data. This library is the
//! authority that says which paths lie inside. It resolves every path to a
//! canonical absolute form, judges that form against the two roots, and
//! hands out handles on files and directories that it has judged.
//!
//! The library changes nothing on disk. An operation that touches the disk
//! comes back as a list of [`effects::Step`]s for the host to perform; an
//! operation that the sandbox refuses comes back as a failure, and then
//! there is nothing to perform.
//!
//! The modules, from the ground up:
//!
//! - [`paths`]: the lexical model. Paths are strings whose components are
//!   separated by `/`, and an absolute path starts at the root `/`.
//! - [`platform`]: the calls into the operating system and into other
//!   crates. Their contracts are taken on trust.
//! - [`error`]: the failures.
//! - [`path_filter`]: the sandbox itself.
//! - [`effects`]: the steps that a host performs.
//! - [`file`] and [`directory`]: the handles.
//! - [`exports`]: the three ways from a path that a host wrote to a handle.
//! - [`laws`]: what holds of all of this together.

pub mod directory;
pub mod effects;
pub mod error;
pub mod exports;
pub mod file;
pub mod laws;
pub mod path_filter;
pub mod paths;
pub mod platform;
