//! The ways in which a run can fail.

use vstd::prelude::*;

verus! {

/// Why a run was given up. Every error ends the whole run.
#[derive(Clone, Copy, Debug, PartialEq, Eq, Structural)]
pub enum MergeError {
    /// The input directory does not exist.
    NotFound,
    /// No archive in the input directory matched the filter.
    NoMatch,
    /// The destination volume has less free space than the merge may need.
    InsufficientSpace { required: u64, available: u64 },
    /// A filter or a size argument could not be understood, or a split size
    /// of zero was asked for.
    InvalidInput,
    /// Reading a source or writing the destination or a part file failed.
    IoFailure,
}

/// The exit status that reports `e`: 4 when nothing matched, 8 when space is
/// short, 1 for every other failure.
pub open spec fn exit_status(e: MergeError) -> u8 {
    match e {
        MergeError::NoMatch => 4,
        MergeError::InsufficientSpace { .. } => 8,
        _ => 1,
    }
}

impl MergeError {
    /// The exit status of a process that ends with this error. It is never 0,
    /// and the statuses for "nothing matched" and "space is short" differ from
    /// each other and from every other failure's.
    pub fn exit_code(&self) -> (code: u8)
        ensures
            code == exit_status(*self),
            code != 0,
    {
        match self {
            MergeError::NoMatch => 4,
            MergeError::InsufficientSpace { .. } => 8,
            _ => 1,
        }
    }
}

} // verus!
