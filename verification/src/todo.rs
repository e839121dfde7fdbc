//! Rebase todos: documents that a plan is written to for editing, and read back from.
use vstd::prelude::*;

pub mod carried;
pub mod context;
pub mod continuation;
pub mod encoded;
pub mod forks;
pub mod laws;
pub mod lines;
pub mod names;
pub mod outline;
pub mod parse;
pub mod plans;
pub mod quiet;
pub mod record;
pub mod resumed;
pub mod rules;
pub mod shown;
pub mod state;
pub mod write;

verus! {

/// Why a rebase todo cannot be read.
#[derive(Clone, Copy, PartialEq, Eq, Structural, Debug)]
pub enum TodoError {
    UnbornHead,
    RefLineNotEnclosed,
    UnclosedQuote,
    EmptyItem,
    MalformedName,
    NameTrailingData,
    EmptyName,
    UnclosedBacktick,
    AmbiguousName,
    InvalidName,
    ReservedNamespace,
    HiddenReference,
    SymbolicReference,
    NotAnIdPrefix,
    UnknownCommit,
    SeparatorWithoutFork,
    EmptyFork,
    ForkWithoutId,
    ForkTargetNotPicked,
    RepeatedPlacement,
    CheckoutWithoutWorktree,
    RepeatedMarkedReference,
    RefLineWithoutTarget,
    ConflictingCheckout,
    SquashWithoutCommand,
    SquashWithoutId,
    SquashOutsideScope,
    PickedTwice,
    PickWithoutId,
    PickOutsideScope,
    EmptyWithoutTitle,
    UnsupportedCommand,
    CommandWithoutFork,
    RepeatedMarkedCommand,
    ReferenceWithoutCommand,
    NoFork,
    LastForkEmpty,
    MarkerNotRetained,
    UnsupportedStateVersion,
    UnclosedState,
    RepeatedState,
    StateLineWithoutValue,
    UnsupportedField,
    InvalidObjectId,
    InvalidBoolean,
    RepeatedBase,
    RepeatedOnto,
    RepeatedMarkerRequired,
    RepeatedCheckoutAllowed,
    RepeatedHeadRef,
    RepeatedResolved,
    MalformedHeadRef,
    HeadRefTrailingData,
    InvalidHeadRef,
    RefWithoutTarget,
    RefWithoutFollowMode,
    RefWithoutName,
    MalformedRef,
    RefTrailingData,
    InvalidRef,
    MissingBase,
    MissingOnto,
    MissingMarkerRequired,
    MissingCheckoutAllowed,
    UnknownBase,
    UnknownOnto,
    DuplicateScope,
    DuplicateTips,
    DuplicateRefs,
    RefOutsideScope,
    HeadRefNotEditable,
    UnknownTip,
    UnknownScopeCommit,
    ScopeCommitWithoutParent,
    DisconnectedScopeCommit,
    ResolvedOutsideScope,
    SourceOutsideScope,
    EditableWithoutParent,
    EditableDisconnected,
    NotUtf8,
    ForkAtEmptyCommit,
}

} // verus!
