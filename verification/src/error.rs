use vstd::prelude::*;

verus! {

/// Failures reported by the tree, index and applier operations.
#[derive(Clone, Copy, Debug, PartialEq, Eq, Structural)]
pub enum SyncError {
    /// A path, a child or an item is absent.
    NotFound,
    /// A path is empty or names nothing once its current-directory segments are skipped.
    InvalidPath,
    /// A directory already holds a child of that name.
    DuplicateName,
    /// An item's parent link is broken, or the parent it declares does not exist.
    MissingParent,
    /// The item that was asked to take a child is a regular file.
    NotADirectory,
    /// A per-item lock was poisoned by a panicking writer.
    LockPoisoned,
    /// A disk or remote transfer failed.
    IoFailure,
    /// An index refers to an item that the item map does not hold.
    StateInconsistency,
}

impl SyncError {
    /// A short human-readable description of the failure.
    pub fn message(&self) -> (text: &'static str)
        ensures
            text@ == Self::message_of(*self)@,
    {
        match self {
            SyncError::NotFound => "item not found",
            SyncError::InvalidPath => "invalid path",
            SyncError::DuplicateName => "a child with the same name already exists",
            SyncError::MissingParent => "parent item is missing",
            SyncError::NotADirectory => "item is not a directory",
            SyncError::LockPoisoned => "item lock is poisoned",
            SyncError::IoFailure => "input/output failure",
            SyncError::StateInconsistency => "index refers to a missing item",
        }
    }

    /// The text that [`SyncError::message`] returns for each failure.
    pub open spec fn message_of(e: SyncError) -> &'static str {
        match e {
            SyncError::NotFound => "item not found",
            SyncError::InvalidPath => "invalid path",
            SyncError::DuplicateName => "a child with the same name already exists",
            SyncError::MissingParent => "parent item is missing",
            SyncError::NotADirectory => "item is not a directory",
            SyncError::LockPoisoned => "item lock is poisoned",
            SyncError::IoFailure => "input/output failure",
            SyncError::StateInconsistency => "index refers to a missing item",
        }
    }
}

} // verus!
