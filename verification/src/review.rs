//! Reviews: commits that stand for the review of a range, and the references that belong to them.
use vstd::prelude::*;

pub mod finish;
pub mod identity;
pub mod laws;
pub mod start;

verus! {

/// Why a review cannot be started or finished.
#[derive(Clone, Copy, PartialEq, Eq, Structural, Debug)]
pub enum ReviewError {
    InvalidReview,
    InvalidReturn,
    InvalidName,
    NoNumber,
    NoReference,
    BaseNotAncestor,
    TipPending,
    BasePending,
    HeadElsewhere,
    Dirty,
    NotReview,
    NoBase,
    MissingReview,
    UnresolvedReview,
    FallbackElsewhere,
    UnresolvedReturn,
    ReturnElsewhere,
}

} // verus!
