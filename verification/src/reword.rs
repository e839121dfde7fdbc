//! Rewording: commits as documents that can be edited, and what is read back from them.
use vstd::prelude::*;

pub mod actor;
pub mod apply;
pub mod cleanup;
pub mod document;
pub mod laws;
pub mod rules;
pub mod trailers;

verus! {

/// Why an edited document cannot be used.
#[derive(Clone, Copy, PartialEq, Eq, Structural, Debug)]
pub enum RewordError {
    MissingHeader,
    ExpectedAuthor,
    ExpectedConfiguredAuthor,
    ExpectedAuthorDate,
    ExpectedCommitter,
    ExpectedCommitterDate,
    ExpectedCommentChar,
    CommentCharWithLineEnding,
    MissingEnrichment,
    DuplicateTodo,
    DuplicateMessage,
    UnknownHeader,
    NoEmptyLine,
    DateNotUtf8,
    InvalidDate,
    UnwritableDate,
    InvalidActor,
    IncompleteActor,
    InvalidTrailer(trailers::Agent),
    EmptyMessage,
    Generated,
}

} // verus!
