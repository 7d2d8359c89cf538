//! Failures met during a run, and the errors a run ends with.
use vstd::prelude::*;

verus! {

/// One entry of the failure log: a file or directory that could not be
/// listed or removed, with the error message.
pub struct FailedItem {
    pub path: String,
    pub error: String,
    pub is_dir: bool,
}

impl FailedItem {
    /// An identical copy.
    pub fn duplicate(&self) -> (r: FailedItem)
        ensures
            r == *self,
    {
        FailedItem { path: self.path.clone(), error: self.error.clone(), is_dir: self.is_dir }
    }
}

/// Why a run, or the processing of one target, did not succeed.
pub enum Error {
    /// The target cannot be deleted: it is missing, not a directory, or refused
    /// by the safety policy.
    InvalidPath { path: String, reason: String },
    /// The target could not be opened for discovery at all.
    Io { path: String, message: String },
    /// The run went through but some items could not be removed.
    PartialFailure { total: usize, failed: usize, errors: Vec<FailedItem> },
}

impl Error {
    /// The process exit status that reports this error.
    pub fn exit_code(&self) -> (r: i32)
        ensures
            r == (match self {
                Error::PartialFailure { .. } => 1i32,
                _ => 2i32,
            }),
    {
        match self {
            Error::PartialFailure { .. } => 1,
            _ => 2,
        }
    }
}

} // verus!
