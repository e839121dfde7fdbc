//! Creating commits.
use vstd::prelude::*;
use vstd::string::StringSliceAdditionalSpecFns;
use crate::bytes;
use crate::bytes::{fits_line, LF};
use crate::create::laws::new_documents_hold_the_template;
use crate::ids::ObjectId;
use crate::plan::viewed;
use crate::reword::actor::{actor, actor_of, actor_text, plain_time};
use crate::reword::apply::unbroken_actor;
use crate::reword::cleanup::{cleaned, cleanup_message};
use crate::reword::document::{
    edit_of, header_lines, parse, write_headers, Edit, Enrichment, Signature,
};
use crate::reword::trailers::{
    configured_view, offers, plain_trailers, tokens_of, with_offers, write_missing_agent_trailers,
    Configured,
};
use crate::reword::RewordError;

pub mod laws;

verus! {

/// What goes into a new commit: the index if it differs from the parent and the worktree else, the index,
/// the files in the worktree that the index holds, or all files in the worktree.
#[derive(Clone, Copy, PartialEq, Eq, Structural, Debug)]
pub enum Source {
    Default,
    Index,
    Worktree,
    WorktreeUntracked,
}

/// Why a commit cannot be created.
#[derive(Clone, Copy, PartialEq, Eq, Structural, Debug)]
pub enum CreateError {
    NotUnborn,
    UnbornOffBranch,
    IndexConflicts,
}

/// The HEAD below which a commit is created.
#[derive(Clone, Copy, PartialEq, Eq, Structural, Debug)]
pub struct Head {
    pub id: Option<ObjectId>,
    pub unborn: bool,
    pub on_branch: bool,
}

/// Whether a commit with a parent can be created. Without one there must be no commit yet, and HEAD must
/// be on a branch.
pub open spec fn parent_error(parent: Option<ObjectId>, head: Head, conflicted: bool) -> Option<
    CreateError,
> {
    if parent is None && !head.unborn {
        Some(CreateError::NotUnborn)
    } else if parent is None && !head.on_branch {
        Some(CreateError::UnbornOffBranch)
    } else if conflicted {
        Some(CreateError::IndexConflicts)
    } else {
        None
    }
}

/// Checks that a commit with a parent can be created.
pub fn check_parent(parent: Option<ObjectId>, head: Head, conflicted: bool) -> (r: Result<
    (),
    CreateError,
>)
    ensures
        match r {
            Ok(()) => parent_error(parent, head, conflicted) is None,
            Err(err) => parent_error(parent, head, conflicted) == Some(err),
        },
{
    if parent.is_none() && !head.unborn {
        Err(CreateError::NotUnborn)
    } else if parent.is_none() && !head.on_branch {
        Err(CreateError::UnbornOffBranch)
    } else if conflicted {
        Err(CreateError::IndexConflicts)
    } else {
        Ok(())
    }
}

/// Where the tree of a new commit comes from.
#[derive(Clone, Copy, PartialEq, Eq, Structural, Debug)]
pub enum TreeSource {
    /// The tree of the parent, or the empty tree.
    Baseline,
    /// The tree of the index.
    Index,
    /// The baseline with the changes of the worktree to files that the index holds.
    WorktreeOfIndex,
    /// The baseline with all changes of the worktree.
    Worktree,
}

/// Where the tree of a new commit comes from. It is empty if that is asked for, or if HEAD is not at the
/// parent, so that neither the index nor the worktree belongs to it.
pub open spec fn source_of(
    parent: Option<ObjectId>,
    head: Head,
    empty: bool,
    source: Source,
    baseline: ObjectId,
    index_tree: ObjectId,
) -> TreeSource {
    if empty || head.id != parent {
        TreeSource::Baseline
    } else {
        match source {
            Source::Default => if index_tree != baseline {
                TreeSource::Index
            } else {
                TreeSource::WorktreeOfIndex
            },
            Source::Index => TreeSource::Index,
            Source::Worktree => TreeSource::WorktreeOfIndex,
            Source::WorktreeUntracked => TreeSource::Worktree,
        }
    }
}

/// Decides where the tree of a new commit comes from.
pub fn select_tree(
    parent: Option<ObjectId>,
    head: Head,
    empty: bool,
    source: Source,
    baseline: ObjectId,
    index_tree: ObjectId,
) -> (r: TreeSource)
    ensures
        r == source_of(parent, head, empty, source, baseline, index_tree),
{
    let at_parent = match (head.id, parent) {
        (None, None) => true,
        (Some(a), Some(b)) => a == b,
        _ => false,
    };
    if empty || !at_parent {
        return TreeSource::Baseline;
    }
    match source {
        Source::Default => if index_tree != baseline {
            TreeSource::Index
        } else {
            TreeSource::WorktreeOfIndex
        },
        Source::Index => TreeSource::Index,
        Source::Worktree => TreeSource::WorktreeOfIndex,
        Source::WorktreeUntracked => TreeSource::Worktree,
    }
}

/// A commit that is to be created: its parent and tree, whether it changes nothing, and whether the index
/// is brought in line with it.
#[derive(Clone, Copy, PartialEq, Eq, Structural, Debug)]
pub struct Prepared {
    pub parent: Option<ObjectId>,
    pub tree: ObjectId,
    pub is_empty: bool,
    pub reset_index: bool,
}

/// A commit that is to be created with a tree.
pub fn prepare(parent: Option<ObjectId>, tree: ObjectId, baseline: ObjectId, empty: bool) -> (r: Prepared)
    ensures
        r == (Prepared { parent, tree, is_empty: tree == baseline, reset_index: !empty }),
        r.parent == parent && r.tree == tree,
        r.is_empty <==> tree == baseline,
        r.reset_index <==> !empty,
{
    Prepared { parent, tree, is_empty: tree == baseline, reset_index: !empty }
}

/// The message that the document of a new commit proposes.
pub const TEMPLATE: &'static str = "what\n\nwhy\n";

/// The line that introduces the changes of a new commit.
pub const CHANGES: &'static str = "\n; Changes to be committed:\n";

/// Lines as comments.
pub open spec fn comment_lines(lines: Seq<Seq<u8>>) -> Seq<u8>
    decreases lines.len(),
{
    if lines.len() == 0 {
        Seq::empty()
    } else {
        comment_lines(lines.drop_last()) + ("; ".spec_bytes() + lines.last() + seq![LF])
    }
}

/// The document of a new commit: the headers, the message that is proposed, the trailers that it does not
/// hold, and the changes as comments.
pub open spec fn document_of(
    author: Signature<Seq<u8>>,
    committer: Signature<Seq<u8>>,
    todo: bool,
    assisted_by: Option<Configured<Seq<u8>>>,
    co_authored_by: Option<Configured<Seq<u8>>>,
    changes: Seq<Seq<u8>>,
) -> Result<Seq<u8>, RewordError> {
    match header_lines(author, None, committer, Enrichment { todo, note: None }) {
        None => Err(RewordError::UnwritableDate),
        Some(headers) => match offers(
            tokens_of(TEMPLATE.spec_bytes()),
            assisted_by,
            co_authored_by,
        ) {
            Err(err) => Err(err),
            Ok(trailers) => Ok(
                with_offers(headers + seq![LF] + TEMPLATE.spec_bytes(), trailers)
                    + CHANGES.spec_bytes() + comment_lines(changes),
            ),
        },
    }
}

/// What the document of a new commit reads as.
pub open spec fn proposed(
    author: Signature<Seq<u8>>,
    committer: Signature<Seq<u8>>,
    todo: bool,
) -> Edit<Seq<u8>> {
    Edit {
        author: actor_text(author.actor),
        author_time: author.time,
        committer: actor_text(committer.actor),
        committer_time: committer.time,
        message: TEMPLATE.spec_bytes(),
        enrichment: Enrichment { todo, note: None },
    }
}

/// Whether what the document of a new commit is written of can be told apart again: people, trailers
/// and changes on one line each, and plain times.
pub open spec fn plain_document(
    author: Signature<Seq<u8>>,
    committer: Signature<Seq<u8>>,
    assisted_by: Option<Configured<Seq<u8>>>,
    co_authored_by: Option<Configured<Seq<u8>>>,
    changes: Seq<Seq<u8>>,
) -> bool {
    &&& unbroken_actor(author.actor)
    &&& unbroken_actor(committer.actor)
    &&& plain_time(author.time)
    &&& plain_time(committer.time)
    &&& offers(tokens_of(TEMPLATE.spec_bytes()), assisted_by, co_authored_by) matches Ok(trailers)
        && plain_trailers(trailers)
    &&& forall|i: int| 0 <= i < changes.len() ==> fits_line(#[trigger] changes[i])
}

/// Writes the document of a new commit. `changes` describe what goes into it. If it is plain it can be
/// written, and reads as the people and times that it was written from and the message that is proposed.
pub fn document(
    author: &Signature<Vec<u8>>,
    committer: &Signature<Vec<u8>>,
    todo: bool,
    assisted_by: Option<&Configured<Vec<u8>>>,
    co_authored_by: Option<&Configured<Vec<u8>>>,
    changes: &Vec<Vec<u8>>,
) -> (r: Result<Vec<u8>, RewordError>)
    ensures
        ({
            let expected = document_of(
                author@,
                committer@,
                todo,
                configured_view(assisted_by),
                configured_view(co_authored_by),
                viewed(changes@),
            );
            match r {
                Ok(text) => expected == Ok::<_, RewordError>(text@),
                Err(err) => expected == Err::<Seq<u8>, _>(err),
            }
        }),
        plain_document(
            author@,
            committer@,
            configured_view(assisted_by),
            configured_view(co_authored_by),
            viewed(changes@),
        ) ==> (r matches Ok(text) && edit_of(text@) == Ok::<_, RewordError>(
            proposed(author@, committer@, todo),
        )),
{
    let mut out: Vec<u8> = Vec::new();
    let enrichment = Enrichment { todo, note: None };
    assert(enrichment@ == (Enrichment { todo, note: None::<Seq<u8>> }));
    let headed = write_headers(&mut out, author, None, committer, &enrichment);
    proof {
        if plain_document(
            author@,
            committer@,
            configured_view(assisted_by),
            configured_view(co_authored_by),
            viewed(changes@),
        ) {
            new_documents_hold_the_template(
                author@,
                committer@,
                todo,
                configured_view(assisted_by),
                configured_view(co_authored_by),
                viewed(changes@),
            );
        }
    }
    if let Err(err) = headed {
        return Err(err);
    }
    let ghost headers = out@;
    assert(Seq::<u8>::empty() + headers == headers);
    out.push(LF);
    bytes::append(&mut out, TEMPLATE.as_bytes());
    assert(out@ == headers + seq![LF] + TEMPLATE.spec_bytes());
    if let Err(err) = write_missing_agent_trailers(
        &mut out,
        TEMPLATE.as_bytes(),
        assisted_by,
        co_authored_by,
    ) {
        return Err(err);
    }
    bytes::append(&mut out, CHANGES.as_bytes());
    let ghost start = out@;
    let ghost all = viewed(changes@);
    let total: usize = changes.len();
    let mut at: usize = 0;
    assert(all.take(0) == Seq::<Seq<u8>>::empty());
    assert(out@ == start + comment_lines(all.take(0)));
    while at < total
        invariant
            at <= total,
            total == changes@.len(),
            all == viewed(changes@),
            out@ == start + comment_lines(all.take(at as int)),
        decreases total - at,
    {
        assert(all.take(at as int + 1).drop_last() == all.take(at as int));
        assert(all[at as int] == changes@[at as int]@);
        bytes::append(&mut out, "; ".as_bytes());
        bytes::append(&mut out, changes[at].as_slice());
        out.push(LF);
        assert(out@ == start + comment_lines(all.take(at as int + 1)));
        at = at + 1;
    }
    assert(all.take(total as int) == all);
    Ok(out)
}

/// A commit to be written, and what is noted of it.
#[derive(PartialEq, Eq, Debug)]
pub struct NewCommit<T> {
    pub author: Signature<T>,
    pub committer: Signature<T>,
    pub message: T,
    pub enrichment: Enrichment<T>,
}

impl<T: View> View for NewCommit<T> {
    type V = NewCommit<T::V>;

    open spec fn view(&self) -> NewCommit<T::V> {
        NewCommit {
            author: self.author@,
            committer: self.committer@,
            message: self.message@,
            enrichment: self.enrichment@,
        }
    }
}

/// The commit that what was read of a document describes.
pub open spec fn commit_by(edit: Edit<Seq<u8>>) -> Result<NewCommit<Seq<u8>>, RewordError> {
    if edit.message.len() == 0 {
        Err(RewordError::EmptyMessage)
    } else {
        match actor_of(edit.author) {
            Err(err) => Err(err),
            Ok(author) => match actor_of(edit.committer) {
                Err(err) => Err(err),
                Ok(committer) => Ok(
                    NewCommit {
                        author: Signature { actor: author, time: edit.author_time },
                        committer: Signature { actor: committer, time: edit.committer_time },
                        message: edit.message,
                        enrichment: edit.enrichment,
                    },
                ),
            },
        }
    }
}

fn commit_from_parsed_edit(edit: Edit<Vec<u8>>) -> (r: Result<NewCommit<Vec<u8>>, RewordError>)
    ensures
        match r {
            Ok(commit) => commit_by(edit@) == Ok::<_, RewordError>(commit@),
            Err(err) => commit_by(edit@) == Err::<NewCommit<Seq<u8>>, _>(err),
        },
{
    if edit.message.len() == 0 {
        return Err(RewordError::EmptyMessage);
    }
    let author = match actor(edit.author.as_slice()) {
        Err(err) => {
            return Err(err);
        },
        Ok(actor) => Signature { actor, time: edit.author_time },
    };
    let committer = match actor(edit.committer.as_slice()) {
        Err(err) => {
            return Err(err);
        },
        Ok(actor) => Signature { actor, time: edit.committer_time },
    };
    Ok(NewCommit { author, committer, message: edit.message, enrichment: edit.enrichment })
}

/// The commit that an edited document describes.
pub open spec fn commit_of(edited: Seq<u8>) -> Result<NewCommit<Seq<u8>>, RewordError> {
    match edit_of(edited) {
        Err(err) => Err(err),
        Ok(edit) => commit_by(edit),
    }
}

/// The commit that an edited document describes.
pub fn commit_from_edit(edited: &[u8]) -> (r: Result<NewCommit<Vec<u8>>, RewordError>)
    ensures
        match r {
            Ok(commit) => commit_of(edited@) == Ok::<_, RewordError>(commit@),
            Err(err) => commit_of(edited@) == Err::<NewCommit<Seq<u8>>, _>(err),
        },
{
    match parse(edited) {
        Err(err) => Err(err),
        Ok(edit) => commit_from_parsed_edit(edit),
    }
}

/// The commit that a document describes, with another message.
pub open spec fn commit_saying(document: Seq<u8>, message: Seq<u8>) -> Result<
    NewCommit<Seq<u8>>,
    RewordError,
> {
    match edit_of(document) {
        Err(err) => Err(err),
        Ok(edit) => commit_by(Edit { message: cleaned(message, None), ..edit }),
    }
}

/// The commit that a document describes, with another message.
pub fn commit_with_message(document: &[u8], message: &[u8]) -> (r: Result<
    NewCommit<Vec<u8>>,
    RewordError,
>)
    ensures
        match r {
            Ok(commit) => commit_saying(document@, message@) == Ok::<_, RewordError>(commit@),
            Err(err) => commit_saying(document@, message@) == Err::<NewCommit<Seq<u8>>, _>(err),
        },
{
    match parse(document) {
        Err(err) => Err(err),
        Ok(edit) => commit_from_parsed_edit(
            Edit {
                author: edit.author,
                author_time: edit.author_time,
                committer: edit.committer,
                committer_time: edit.committer_time,
                message: cleanup_message(message, None),
                enrichment: edit.enrichment,
            },
        ),
    }
}

/// A commit can be created on any parent while the index holds no conflict. Without a parent there must be
/// no commit yet and HEAD must be on a branch, which is what is complained of first.
pub proof fn parents_are_needed_but_for_the_first_commit(
    parent: Option<ObjectId>,
    head: Head,
    conflicted: bool,
)
    ensures
        ({
            let rootless = parent is Some || (head.unborn && head.on_branch);
            let error = parent_error(parent, head, conflicted);
            &&& error is None <==> rootless && !conflicted
            &&& error == Some(CreateError::IndexConflicts) <==> rootless && conflicted
            &&& error == Some(CreateError::NotUnborn) <==> parent is None && !head.unborn
            &&& error == Some(CreateError::UnbornOffBranch) <==> parent is None && head.unborn
                && !head.on_branch
        }),
{
}

/// The tree of a new commit is that of its parent if it is to be empty or HEAD is elsewhere. Otherwise it
/// comes from where that is asked for: by default from the index if something is staged, and from the
/// worktree without its untracked files if nothing is.
pub proof fn trees_come_from_where_they_are_asked(
    parent: Option<ObjectId>,
    head: Head,
    empty: bool,
    source: Source,
    baseline: ObjectId,
    index_tree: ObjectId,
)
    ensures
        ({
            let taken = !empty && head.id == parent;
            let staged = index_tree != baseline;
            let found = source_of(parent, head, empty, source, baseline, index_tree);
            &&& found == TreeSource::Baseline <==> !taken
            &&& found == TreeSource::Index <==> taken && (source == Source::Index || (source
                == Source::Default && staged))
            &&& found == TreeSource::WorktreeOfIndex <==> taken && (source == Source::Worktree || (
            source == Source::Default && !staged))
            &&& found == TreeSource::Worktree <==> taken && source == Source::WorktreeUntracked
        }),
{
}

/// A document makes a commit if it can be read, if its message says something and its people can be read.
/// The commit then has the people, the times, the message and the notes that the document reads as. With a
/// message of its own, only that is another one, once it is cleaned up.
pub proof fn documents_make_commits(document: Seq<u8>, message: Seq<u8>)
    ensures
        ({
            let made = commit_of(document);
            match edit_of(document) {
                Err(err) => made == Err::<NewCommit<Seq<u8>>, _>(err) && commit_saying(
                    document,
                    message,
                ) == Err::<NewCommit<Seq<u8>>, _>(err),
                Ok(edit) => {
                    let people = actor_of(edit.author) is Ok && actor_of(edit.committer) is Ok;
                    &&& made is Ok <==> edit.message.len() > 0 && people
                    &&& made == Err::<NewCommit<Seq<u8>>, _>(RewordError::EmptyMessage)
                        <== edit.message.len() == 0
                    &&& made matches Ok(commit) ==> commit.author.actor == actor_of(
                        edit.author,
                    )->Ok_0 && commit.author.time == edit.author_time && commit.committer.actor
                        == actor_of(edit.committer)->Ok_0 && commit.committer.time
                        == edit.committer_time && commit.message == edit.message
                        && commit.enrichment == edit.enrichment
                    &&& commit_saying(document, message) is Ok <==> cleaned(message, None).len()
                        > 0 && people
                    &&& cleaned(message, None).len() == 0 ==> commit_saying(document, message)
                        == Err::<NewCommit<Seq<u8>>, _>(RewordError::EmptyMessage)
                    &&& commit_saying(document, message) matches Ok(commit) ==> commit.author.actor
                        == actor_of(edit.author)->Ok_0 && commit.author.time == edit.author_time
                        && commit.committer.actor == actor_of(edit.committer)->Ok_0
                        && commit.committer.time == edit.committer_time && commit.message
                        == cleaned(message, None) && commit.enrichment == edit.enrichment
                },
            }
        }),
{
}

} // verus!
