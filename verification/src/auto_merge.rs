//! Automatic merges: commits that are generated from the inputs which their headers list.
use vstd::prelude::*;

pub mod choices;
pub mod closure;
pub mod coverage;
pub mod definition;
pub mod expand;
pub mod laws;
pub mod order;
pub mod perform;
pub mod prepare;
pub mod rebuild;
pub mod resolve;
pub mod rules;
pub mod topology;

verus! {

/// Why an automatic merge cannot be read, changed or planned.
#[derive(Clone, Copy, PartialEq, Eq, Structural, Debug)]
pub enum MergeError {
    UnsupportedVersion,
    NoCommitId,
    InvalidCommitId,
    InvalidMergeState,
    NoIdentity,
    InvalidChangeId,
    InvalidReference,
    UnsupportedReference,
    DuplicateInput,
    Generated,
    UnproducedStep,
    UnplacedReference,
    UnknownCommit,
    NotACommit,
    CyclicReference,
    CyclicRewrites,
    CyclicAncestry,
    CyclicStack,
    CyclicPlan,
    MissingStep,
    LostInput,
    SquashedInto,
    UnknownAncestry,
    LostRecipe,
    TracksItself,
    CyclicMerges,
    AlreadyAncestor,
    UnknownReference,
    NoWorktree,
    UnresolvedIndex,
    NotHead,
    NotAMerge,
    InputDisappeared,
    NoLongerInput,
    NoParent,
}

} // verus!
