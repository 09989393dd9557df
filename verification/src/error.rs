//! The failures of a collection cycle.
//!
//! None of them ends the process. Each is caught at the narrowest scope that
//! can go on without what failed: the cycle, the file or the single write.

use vstd::prelude::*;

verus! {

/// What can go wrong while collecting.
#[derive(Debug, Clone, Copy, PartialEq, Eq, Structural)]
pub enum CollectError {
    /// The stats directory could not be listed.
    DirectoryUnavailable,
    /// A dump file could not be opened or read.
    IoError,
    /// A dump is not two JSON objects of counters around one boundary.
    MalformedDump,
    /// The backend could not be reached or did not answer with success.
    DeliveryFailure,
}

/// How much of the work a failure takes with it.
#[derive(Debug, Clone, Copy, PartialEq, Eq, Structural)]
pub enum FailureScope {
    /// The rest of the cycle is skipped; the next cycle starts as scheduled.
    Cycle,
    /// The file is skipped; the cycle goes on with the next file.
    File,
    /// The write is dropped and not tried again.
    Write,
}

impl CollectError {
    /// The scope that the failure is confined to.
    pub open spec fn confined_to(self) -> FailureScope {
        match self {
            CollectError::DirectoryUnavailable => FailureScope::Cycle,
            CollectError::IoError => FailureScope::File,
            CollectError::MalformedDump => FailureScope::File,
            CollectError::DeliveryFailure => FailureScope::Write,
        }
    }

    /// The scope that the failure is confined to.
    pub fn scope(&self) -> (r: FailureScope)
        ensures
            r == self.confined_to(),
    {
        match self {
            CollectError::DirectoryUnavailable => FailureScope::Cycle,
            CollectError::IoError => FailureScope::File,
            CollectError::MalformedDump => FailureScope::File,
            CollectError::DeliveryFailure => FailureScope::Write,
        }
    }
}

} // verus!
