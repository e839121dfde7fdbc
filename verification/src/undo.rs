//! Undo: the queue of recorded reference changes, and the plans that step through it.
use vstd::prelude::*;
use vstd::string::StringSliceAdditionalSpecFns;
use crate::bytes;

pub mod changes;
pub mod config;
pub mod laws;
pub mod queue;
pub mod record;
pub mod rules;
pub mod steps;
pub mod worktrees;

verus! {

/// The reference that holds the newest entry of the queue.
pub const TIP_REF: &'static str = "refs/worktree/tix/undo";

/// The reference that holds the entry which was applied last.
pub const CURSOR_REF: &'static str = "refs/worktree/tix/undo-cursor";

/// Why the queue cannot be read, or something cannot be recorded or undone.
#[derive(Clone, Copy, PartialEq, Eq, Structural, Debug)]
pub enum UndoError {
    RecordsItself,
    NotContinuous,
    InexactPreviousValue,
    DeletesMissing,
    InvalidObjectId,
    InvalidSymbolicTarget,
    UnknownEncoding,
    MalformedConfig,
    NotSerializable,
    NoVersion,
    NoUndoSection,
    UnsupportedVersion,
    UnexpectedKeys,
    UnknownSection,
    SectionWithoutName,
    InvalidName,
    SectionsOutOfOrder,
    MissingBefore,
    MissingAfter,
    ChangesNothing,
    EmptyTitle,
    TitleNotOneLine,
    TitleNotUtf8,
    UnknownObject,
    CommitNotFound,
    NotEmptyTree,
    NoMetadata,
    WrongStartTitle,
    StartHasChanges,
    NoChanges,
    InvalidRetention,
    CyclicChain,
    NotDirect,
    OnlyOneReference,
    CursorOffChain,
    CyclicReference,
    DeletesHead,
    InaccessibleWorktree,
}

/// Whether a reference belongs to the queue.
pub open spec fn queue_ref(name: Seq<u8>) -> bool {
    name == TIP_REF.spec_bytes() || name == CURSOR_REF.spec_bytes()
}

/// Whether a reference belongs to the queue.
pub fn is_queue_ref(name: &[u8]) -> (r: bool)
    ensures
        r == queue_ref(name@),
{
    bytes::equal(name, TIP_REF.as_bytes()) || bytes::equal(name, CURSOR_REF.as_bytes())
}

} // verus!
