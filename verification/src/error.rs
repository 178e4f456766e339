//! Error kinds for counting and deletion requests.

use vstd::prelude::*;

verus! {

/// Everything that can go wrong while sizing or deleting a set of paths.
///
/// The first two variants are produced by this library's own checks on the
/// snapshot. The remaining three describe filesystem and delivery failures
/// that only the caller performing the real I/O can observe; they are defined
/// here so that the whole operation reports errors of a single type. Each
/// variant carries the offending path and, where one exists, the underlying
/// cause text.
#[derive(Debug)]
pub enum Error {
    /// A requested root does not exist at the time of the existence check.
    PathNotFound(String),
    /// A path resolves to neither a regular file nor a directory.
    UnrecognizedPathType(String),
    /// A directory listing could not be obtained: path, cause.
    ReadFailed(String, String),
    /// Removal of a specific file or directory failed: path, cause.
    RemoveFailed(String, String),
    /// The progress-delivery channel rejected a notification: cause.
    NotifyFailed(String),
}

} // verus!
