//! The failure taxonomy of the synchronization engine.

use vstd::prelude::*;

verus! {

/// The logical paths on which the remote diverged from what a client last
/// synced.
#[derive(Debug, PartialEq, Eq)]
pub struct ConflictInfo {
    pub paths: Vec<String>,
}

/// The paths of a vector of strings as sequences of characters.
pub open spec fn path_views(paths: Seq<String>) -> Seq<Seq<char>> {
    paths.map_values(|path: String| path@)
}

impl View for ConflictInfo {
    type V = Seq<Seq<char>>;

    open spec fn view(&self) -> Seq<Seq<char>> {
        path_views(self.paths@)
    }
}

/// Why an operation of the engine or of one of its components failed.
#[derive(Debug, PartialEq, Eq)]
pub enum SyncError {
    /// The remote could not be reached; the caller may retry.
    RemoteUnreachable,
    /// Local edits would be overwritten by a fetch that was not forced.
    LocalChangesPending,
    /// A read-only cache was asked to publish.
    ReadOnlyViolation,
    /// Nothing was ever fetched, so there is no revision to publish on top of.
    NothingToPublish,
    /// The remote head moved past the revision the local snapshot is based on.
    UpdateConflict(ConflictInfo),
    /// The index database could not commit a snapshot.
    IndexWriteFailed,
    /// The content store could not take a blob.
    ContentStoreIOError,
    /// A blob or a revision that was asked for is absent.
    NotFound,
    /// Another operation holds the cache's writer lock.
    Busy,
}

/// The states an invocation of the engine passes through.
#[derive(Clone, Copy, Debug, PartialEq, Eq, Structural)]
pub enum Phase {
    Idle,
    Resolving,
    Transferring,
    Committing,
    Done,
    Failed,
}

/// A failed invocation: the error, and the phase in which it struck. A
/// failure before `Committing` leaves the index database as it was.
#[derive(Debug, PartialEq, Eq)]
pub struct Failure {
    pub error: SyncError,
    pub phase: Phase,
}

impl SyncError {
    /// What the operator is told about the error.
    pub open spec fn message_of(&self) -> Seq<char> {
        match self {
            SyncError::RemoteUnreachable => "the remote could not be reached"@,
            SyncError::LocalChangesPending => "local changes are pending; fetch with --force to discard them"@,
            SyncError::ReadOnlyViolation => "this cache is read-only and cannot publish"@,
            SyncError::NothingToPublish => "nothing was fetched yet; fetch before the first update"@,
            SyncError::UpdateConflict(_) => "the remote changed since the last fetch"@,
            SyncError::IndexWriteFailed => "the index database could not be written"@,
            SyncError::ContentStoreIOError => "the content store could not be written"@,
            SyncError::NotFound => "a blob is missing from the cache"@,
            SyncError::Busy => "another operation is running on this cache"@,
        }
    }

    /// What the operator is told about the error.
    pub fn message(&self) -> (text: &'static str)
        ensures
            text@ == self.message_of(),
    {
        match self {
            SyncError::RemoteUnreachable => "the remote could not be reached",
            SyncError::LocalChangesPending => "local changes are pending; fetch with --force to discard them",
            SyncError::ReadOnlyViolation => "this cache is read-only and cannot publish",
            SyncError::NothingToPublish => "nothing was fetched yet; fetch before the first update",
            SyncError::UpdateConflict(_) => "the remote changed since the last fetch",
            SyncError::IndexWriteFailed => "the index database could not be written",
            SyncError::ContentStoreIOError => "the content store could not be written",
            SyncError::NotFound => "a blob is missing from the cache",
            SyncError::Busy => "another operation is running on this cache",
        }
    }

    /// Whether the caller may simply run the same operation again.
    pub fn is_retryable(&self) -> (retry: bool)
        ensures
            retry == (*self is RemoteUnreachable || *self is Busy),
    {
        match self {
            SyncError::RemoteUnreachable => true,
            SyncError::Busy => true,
            _ => false,
        }
    }
}

} // verus!
