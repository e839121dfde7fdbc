//! Moving HEAD through history, with pins that keep in view what it leaves.
use vstd::prelude::*;
use crate::auto_merge::MergeError;

pub mod attach;
pub mod course;
pub mod journey;
pub mod laws;
pub mod moves;
pub mod pins;
pub mod travel;

verus! {

/// Why HEAD cannot be moved.
#[derive(Clone, Copy, PartialEq, Eq, Structural, Debug)]
pub enum TravelError {
    UnbornHead,
    InvalidName,
    NoPinName,
    NoHeadPin,
    HeadPinOffBranch,
    HeadChanged,
    HeadPinDisappeared,
    HeadPinChanged,
    BranchDisappeared,
    BranchNotDirect,
    BranchChanged,
    BranchElsewhere,
    NotDetached,
    UnknownCommit,
    EndlessHistory,
    DestinationLost,
    HeadLost,
    RebasedCommitLost,
    IndexConflicts,
    TracksItself,
    Merge(MergeError),
}

} // verus!
