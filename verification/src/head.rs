//! Changing the commit that HEAD is at: taking changes into it, or out of it.
use vstd::prelude::*;
use crate::bytes;
use crate::ids::ObjectId;
use crate::plan::{viewed, viewed_option};
use crate::trees::{ChangeGroup, ChangeKind, PathChange};

verus! {

/// How the commit that HEAD is at changes: changes go into it, or out of it.
#[derive(Clone, Copy, PartialEq, Eq, Structural, Debug)]
pub enum Kind {
    Amend,
    Spill,
}

/// Why the commit that HEAD is at cannot be changed.
#[derive(Clone, Copy, PartialEq, Eq, Structural, Debug)]
pub enum HeadError {
    NotOnePath,
    IndexConflicts,
    ReviewNeedsStaged,
    TreeChange,
    Generated,
    Pending,
}

/// Where the tree of the changed commit comes from.
#[derive(Clone, Copy, PartialEq, Eq, Structural, Debug)]
pub enum TreeSource {
    /// The tree of the parent.
    Parent,
    /// The tree of the commit without the changes of the chosen paths.
    Spilled,
    /// The tree of the commit with the chosen path from the index.
    StagedPath,
    /// The tree of the commit with the chosen path from the worktree.
    WorktreePath,
    /// The tree of the index.
    Index,
    /// The tree of the commit with all changes of the worktree.
    Worktree,
}

/// The commit that HEAD is at: its tree, whether a rebase of it is pending, whether one of a commit below
/// it in view is, whether it stands for a review, and whether it is an automatic merge, whose tree is
/// generated.
#[derive(Clone, Copy, PartialEq, Eq, Structural, Debug)]
pub struct HeadCommit {
    pub tree: ObjectId,
    pub pending: bool,
    pub pending_below: bool,
    pub review: bool,
    pub generated: bool,
}

/// What is known of the index: whether it holds conflicts, its tree, and whether the worktree is not to
/// be looked at.
#[derive(Clone, Copy, PartialEq, Eq, Structural, Debug)]
pub struct Index {
    pub conflicted: bool,
    pub tree: ObjectId,
    pub only: bool,
}

/// Where the tree of the changed commit comes from, given the chosen paths if there are any. Amending
/// takes exactly one path, or else the index if it differs from the commit, or else the worktree. Of a
/// review, a chosen path must be in the index. What is generated cannot be amended.
pub open spec fn source_of(
    commit: HeadCommit,
    kind: Kind,
    paths: Option<Seq<PathChange<Seq<u8>>>>,
    index: Index,
) -> Result<TreeSource, HeadError> {
    match kind {
        Kind::Spill => Ok(
            match paths {
                Some(_) => TreeSource::Spilled,
                None => TreeSource::Parent,
            },
        ),
        Kind::Amend => if commit.generated {
            Err(HeadError::Generated)
        } else if paths matches Some(paths) && paths.len() != 1 {
            Err(HeadError::NotOnePath)
        } else if index.conflicted {
            Err(HeadError::IndexConflicts)
        } else {
            match paths {
                Some(paths) => if commit.review && paths[0].group != ChangeGroup::Staged {
                    Err(HeadError::ReviewNeedsStaged)
                } else {
                    match paths[0].group {
                        ChangeGroup::Staged => Ok(TreeSource::StagedPath),
                        ChangeGroup::Unstaged => Ok(TreeSource::WorktreePath),
                        ChangeGroup::Tree => Err(HeadError::TreeChange),
                    }
                },
                None => if index.only || index.tree != commit.tree {
                    Ok(TreeSource::Index)
                } else {
                    Ok(TreeSource::Worktree)
                },
            }
        },
    }
}

/// The tree below a commit: that of its first parent, or the empty one below a root.
pub open spec fn tree_below_of(parent: Option<ObjectId>, empty: ObjectId) -> ObjectId {
    match parent {
        Some(tree) => tree,
        None => empty,
    }
}

/// The tree below a commit, given that of its first parent if it has one, and the empty one.
pub fn tree_below(parent: Option<ObjectId>, empty: ObjectId) -> (r: ObjectId)
    ensures
        r == tree_below_of(parent, empty),
{
    match parent {
        Some(tree) => tree,
        None => empty,
    }
}

/// Paths in specifications.
pub open spec fn paths_view(paths: Option<&Vec<PathChange<Vec<u8>>>>) -> Option<
    Seq<PathChange<Seq<u8>>>,
> {
    match paths {
        Some(paths) => Some(viewed(paths@)),
        None => None,
    }
}

/// Decides where the tree of the changed commit comes from.
pub fn select_tree(
    commit: HeadCommit,
    kind: Kind,
    paths: Option<&Vec<PathChange<Vec<u8>>>>,
    index: Index,
) -> (r: Result<TreeSource, HeadError>)
    ensures
        r == source_of(commit, kind, paths_view(paths), index),
{
    match kind {
        Kind::Spill => match paths {
            Some(_) => Ok(TreeSource::Spilled),
            None => Ok(TreeSource::Parent),
        },
        Kind::Amend => {
            if commit.generated {
                return Err(HeadError::Generated);
            }
            if let Some(paths) = paths {
                assert(viewed(paths@).len() == paths@.len());
                if paths.len() != 1 {
                    return Err(HeadError::NotOnePath);
                }
            }
            if index.conflicted {
                return Err(HeadError::IndexConflicts);
            }
            match paths {
                Some(paths) => {
                    assert(viewed(paths@)[0] == paths@[0]@);
                    let group = paths[0].group;
                    if commit.review && group != ChangeGroup::Staged {
                        return Err(HeadError::ReviewNeedsStaged);
                    }
                    match group {
                        ChangeGroup::Staged => Ok(TreeSource::StagedPath),
                        ChangeGroup::Unstaged => Ok(TreeSource::WorktreePath),
                        ChangeGroup::Tree => Err(HeadError::TreeChange),
                    }
                },
                None => if index.only || index.tree != commit.tree {
                    Ok(TreeSource::Index)
                } else {
                    Ok(TreeSource::Worktree)
                },
            }
        },
    }
}

/// What becomes of the signature of a commit.
#[derive(Clone, Copy, PartialEq, Eq, Structural, Debug)]
pub enum Signature {
    RedoIfNeeded,
    InvalidateExisting,
    Remove,
}

/// Which descendants are marked for a rebase, while trees stay as they are.
#[derive(Clone, Copy, PartialEq, Eq, Structural, Debug)]
pub enum Marking {
    LeaveAsIsAndMark,
    LeaveAsIsAndMarkDescendants,
}

/// How the commit that HEAD is at is replaced: with another tree, what becomes of its signature, which
/// commits are marked, the paths that the index takes from the commit, and whether a rebase that is
/// pending for the commit is completed.
#[derive(PartialEq, Eq, Debug)]
pub struct Replacement<P> {
    pub tree: ObjectId,
    pub signature: Signature,
    pub marking: Marking,
    pub reset_paths: Option<P>,
    pub finalizes: bool,
}

/// The paths that the index takes from the commit: the chosen one, and what it was renamed from.
pub open spec fn reset_of(change: PathChange<Seq<u8>>) -> Seq<Seq<u8>> {
    match change.source {
        Some(source) if change.kind == ChangeKind::Renamed => seq![change.path, source],
        _ => seq![change.path],
    }
}

/// How the commit that HEAD is at is replaced by one with a tree; not at all if nothing changes and no
/// rebase is pending.
pub open spec fn replacement(
    commit: HeadCommit,
    kind: Kind,
    path: Option<PathChange<Seq<u8>>>,
    tree: ObjectId,
    finalize: bool,
) -> Option<Replacement<Seq<Seq<u8>>>> {
    if tree == commit.tree && !commit.pending {
        None
    } else {
        Some(
            Replacement {
                tree,
                signature: if commit.review {
                    Signature::Remove
                } else if kind == Kind::Amend || commit.pending {
                    Signature::RedoIfNeeded
                } else {
                    Signature::InvalidateExisting
                },
                marking: if commit.review {
                    Marking::LeaveAsIsAndMarkDescendants
                } else {
                    Marking::LeaveAsIsAndMark
                },
                reset_paths: match path {
                    Some(change) if kind == Kind::Amend => Some(reset_of(change)),
                    _ => None,
                },
                finalizes: kind == Kind::Amend && finalize,
            },
        )
    }
}

/// Whether a pending rebase keeps a commit from being amended: its own, or one below it that no review
/// is in between of. It does not where it may be completed.
pub open spec fn held_back(commit: HeadCommit, kind: Kind, finalize: bool) -> bool {
    kind == Kind::Amend && !finalize && (commit.pending || (commit.pending_below && !commit.review))
}

/// How the commit that HEAD is at is replaced by one with a tree, if that can be done. What is generated
/// cannot be amended, and neither can what a pending rebase holds back.
pub open spec fn performed(
    commit: HeadCommit,
    kind: Kind,
    path: Option<PathChange<Seq<u8>>>,
    tree: ObjectId,
    finalize: bool,
) -> Result<Option<Replacement<Seq<Seq<u8>>>>, HeadError> {
    if kind == Kind::Amend && commit.generated {
        Err(HeadError::Generated)
    } else {
        match replacement(commit, kind, path, tree, finalize) {
            None => Ok(None),
            Some(replacement) => if held_back(commit, kind, finalize) {
                Err(HeadError::Pending)
            } else {
                Ok(Some(replacement))
            },
        }
    }
}

impl View for Replacement<Vec<Vec<u8>>> {
    type V = Replacement<Seq<Seq<u8>>>;

    open spec fn view(&self) -> Replacement<Seq<Seq<u8>>> {
        Replacement {
            tree: self.tree,
            signature: self.signature,
            marking: self.marking,
            reset_paths: match self.reset_paths {
                Some(paths) => Some(viewed(paths@)),
                None => None,
            },
            finalizes: self.finalizes,
        }
    }
}

/// A chosen path in specifications.
pub open spec fn path_view(path: Option<&PathChange<Vec<u8>>>) -> Option<PathChange<Seq<u8>>> {
    match path {
        Some(change) => Some(change@),
        None => None,
    }
}

fn reset_paths(change: &PathChange<Vec<u8>>) -> (r: Vec<Vec<u8>>)
    ensures
        viewed(r@) == reset_of(change@),
{
    let mut paths: Vec<Vec<u8>> = Vec::new();
    paths.push(bytes::copied(change.path.as_slice()));
    assert(viewed(paths@) == seq![change.path@]);
    if change.kind == ChangeKind::Renamed {
        if let Some(source) = &change.source {
            paths.push(bytes::copied(source.as_slice()));
            assert(viewed(paths@) == seq![change.path@, source@]);
        }
    }
    paths
}

/// Decides how the commit that HEAD is at is replaced by one with a tree. `path` is the chosen path if
/// there is one, and `finalize` is whether a pending rebase of the commit may be completed.
pub fn perform(
    commit: HeadCommit,
    kind: Kind,
    path: Option<&PathChange<Vec<u8>>>,
    tree: ObjectId,
    finalize: bool,
) -> (r: Result<Option<Replacement<Vec<Vec<u8>>>>, HeadError>)
    ensures
        match r {
            Ok(found) => performed(commit, kind, path_view(path), tree, finalize) == Ok::<
                _,
                HeadError,
            >(viewed_option(found)),
            Err(err) => performed(commit, kind, path_view(path), tree, finalize) == Err::<
                Option<Replacement<Seq<Seq<u8>>>>,
                _,
            >(err),
        },
        r matches Ok(Some(replacement)) ==> replacement.tree == tree && (replacement.finalizes
            <==> kind == Kind::Amend && finalize) && (replacement.reset_paths is Some <==> kind
            == Kind::Amend && path is Some),
{
    let amends = kind == Kind::Amend;
    if amends && commit.generated {
        return Err(HeadError::Generated);
    }
    if tree == commit.tree && !commit.pending {
        return Ok(None);
    }
    if amends && !finalize && (commit.pending || (commit.pending_below && !commit.review)) {
        return Err(HeadError::Pending);
    }
    let signature = if commit.review {
        Signature::Remove
    } else if amends || commit.pending {
        Signature::RedoIfNeeded
    } else {
        Signature::InvalidateExisting
    };
    let marking = if commit.review {
        Marking::LeaveAsIsAndMarkDescendants
    } else {
        Marking::LeaveAsIsAndMark
    };
    let reset_paths = match path {
        Some(change) => if amends {
            Some(reset_paths(change))
        } else {
            None
        },
        None => None,
    };
    Ok(
        Some(
            Replacement { tree, signature, marking, reset_paths, finalizes: amends && finalize },
        ),
    )
}

/// How the commit that HEAD is at takes over the index. A pending rebase of the commit is completed.
pub open spec fn index_taken_over(commit: HeadCommit, index: Index) -> Result<
    Option<Replacement<Seq<Seq<u8>>>>,
    HeadError,
> {
    if commit.generated {
        Err(HeadError::Generated)
    } else if index.conflicted {
        Err(HeadError::IndexConflicts)
    } else {
        performed(commit, Kind::Amend, None, index.tree, true)
    }
}

/// Decides how the commit that HEAD is at takes over the index, whose tree is given. A pending rebase of
/// the commit is completed.
pub fn amend_index(commit: HeadCommit, index: Index) -> (r: Result<
    Option<Replacement<Vec<Vec<u8>>>>,
    HeadError,
>)
    ensures
        match r {
            Ok(found) => index_taken_over(commit, index) == Ok::<_, HeadError>(
                viewed_option(found),
            ),
            Err(err) => index_taken_over(commit, index) == Err::<
                Option<Replacement<Seq<Seq<u8>>>>,
                _,
            >(err),
        },
{
    if commit.generated {
        return Err(HeadError::Generated);
    }
    if index.conflicted {
        return Err(HeadError::IndexConflicts);
    }
    perform(commit, Kind::Amend, None, index.tree, true)
}

/// A commit without a pending rebase is replaced only by one with another tree.
pub proof fn nothing_changes_without_need(
    commit: HeadCommit,
    kind: Kind,
    path: Option<PathChange<Seq<u8>>>,
    tree: ObjectId,
    finalize: bool,
)
    requires
        !commit.pending,
    ensures
        replacement(commit, kind, path, tree, finalize) is Some <==> tree != commit.tree,
        tree == commit.tree && !(kind == Kind::Amend && commit.generated) ==> performed(
            commit,
            kind,
            path,
            tree,
            finalize,
        ) == Ok::<_, HeadError>(None::<Replacement<Seq<Seq<u8>>>>),
{
}

/// Taking all changes out of a commit leaves it with the tree below it, that of its first parent or the
/// empty one, and takes no single path from it into the index; nothing is done if it has that tree already.
/// Doing so again with the commit that took its place, `after`, changes nothing.
pub proof fn spilling_again_changes_nothing(
    commit: HeadCommit,
    parent: Option<ObjectId>,
    empty: ObjectId,
    finalize: bool,
    after: HeadCommit,
    index: Index,
    again: bool,
)
    requires
        !commit.pending,
        ({
            let tree = tree_below_of(parent, empty);
            match performed(commit, Kind::Spill, None, tree, finalize) {
                Ok(Some(replacement)) => after.tree == replacement.tree,
                Ok(None) => after == commit,
                Err(_) => true,
            }
        }),
        !after.pending,
    ensures
        ({
            let tree = tree_below_of(parent, empty);
            let spilled = performed(commit, Kind::Spill, None, tree, finalize);
            &&& source_of(commit, Kind::Spill, None, index) == Ok::<_, HeadError>(
                TreeSource::Parent,
            )
            &&& spilled is Ok
            &&& spilled->Ok_0 is Some <==> commit.tree != tree
            &&& spilled->Ok_0 matches Some(replacement) ==> replacement.reset_paths is None
                && !replacement.finalizes
            &&& after.tree == tree
            &&& source_of(after, Kind::Spill, None, index) == Ok::<_, HeadError>(
                TreeSource::Parent,
            )
            &&& performed(after, Kind::Spill, None, tree, again) == Ok::<_, HeadError>(
                None::<Replacement<Seq<Seq<u8>>>>,
            )
        }),
{
}

/// Amending without a chosen path takes over the index if something is staged, and the worktree
/// otherwise, also where the commit stands for a review.
pub proof fn staged_changes_win(commit: HeadCommit, index: Index)
    requires
        !commit.generated,
        !index.conflicted,
    ensures
        source_of(commit, Kind::Amend, None, index) == Ok::<_, HeadError>(
            if index.only || index.tree != commit.tree {
                TreeSource::Index
            } else {
                TreeSource::Worktree
            },
        ),
{
}

/// What is generated cannot be amended, whatever is staged or chosen.
pub proof fn generated_commits_stay(
    commit: HeadCommit,
    paths: Option<Seq<PathChange<Seq<u8>>>>,
    path: Option<PathChange<Seq<u8>>>,
    index: Index,
    tree: ObjectId,
    finalize: bool,
)
    requires
        commit.generated,
    ensures
        source_of(commit, Kind::Amend, paths, index) == Err::<TreeSource, _>(HeadError::Generated),
        performed(commit, Kind::Amend, path, tree, finalize) is Err,
        index_taken_over(commit, index) is Err,
{
}

/// The commit that takes the place of the one at HEAD has the tree that was asked for, whatever was chosen.
/// One that stands for a review loses its signature and only its descendants are marked; any other is
/// marked too, and is signed anew unless changes are only taken out of it. The index takes the chosen path,
/// and what that was renamed from, back from the commit if that path alone was amended, and nothing else. A
/// pending rebase is completed only by amending, and only where it may be.
pub proof fn replacements_follow_the_request(
    commit: HeadCommit,
    kind: Kind,
    path: Option<PathChange<Seq<u8>>>,
    tree: ObjectId,
    finalize: bool,
)
    requires
        performed(commit, kind, path, tree, finalize) is Ok,
        performed(commit, kind, path, tree, finalize)->Ok_0 is Some,
    ensures
        ({
            let replacement = performed(commit, kind, path, tree, finalize)->Ok_0->Some_0;
            &&& replacement.tree == tree
            &&& replacement.signature == Signature::Remove <==> commit.review
            &&& replacement.signature == Signature::InvalidateExisting <==> kind == Kind::Spill
                && !commit.review && !commit.pending
            &&& replacement.marking == Marking::LeaveAsIsAndMarkDescendants <==> commit.review
            &&& replacement.finalizes <==> kind == Kind::Amend && finalize
            &&& replacement.reset_paths is Some <==> kind == Kind::Amend && path is Some
            &&& replacement.reset_paths matches Some(paths) ==> paths.len() > 0 && paths[0]
                == path->Some_0.path && forall|p: Seq<u8>| #[trigger]
                paths.contains(p) <==> p == path->Some_0.path || (path->Some_0.kind
                    == ChangeKind::Renamed && path->Some_0.source == Some(p))
            &&& tree != commit.tree || commit.pending
        }),
{
    let replacement = performed(commit, kind, path, tree, finalize)->Ok_0->Some_0;
    if let Some(paths) = replacement.reset_paths {
        let change = path->Some_0;
        assert(paths[0] == change.path);
        if change.kind == ChangeKind::Renamed && change.source is Some {
            assert(paths[1] == change.source->Some_0);
            assert(paths.len() == 2);
        }
    }
}

/// Taking changes out of a commit is never refused. Amending is refused to what is generated, and where
/// something would change, to what has a pending rebase that may not be completed, or stands above one
/// without being a review.
pub proof fn refusals_have_a_reason(
    commit: HeadCommit,
    kind: Kind,
    path: Option<PathChange<Seq<u8>>>,
    tree: ObjectId,
    finalize: bool,
)
    ensures
        ({
            let done = performed(commit, kind, path, tree, finalize);
            let same = tree == commit.tree && !commit.pending;
            &&& kind == Kind::Spill ==> done is Ok
            &&& done == Err::<Option<Replacement<Seq<Seq<u8>>>>, _>(HeadError::Generated) <==> kind
                == Kind::Amend && commit.generated
            &&& done == Err::<Option<Replacement<Seq<Seq<u8>>>>, _>(HeadError::Pending) <==> kind
                == Kind::Amend && !commit.generated && !finalize && (commit.pending || (tree
                != commit.tree && commit.pending_below && !commit.review))
            &&& done matches Err(err) ==> err == HeadError::Generated || err == HeadError::Pending
            &&& done == Ok::<_, HeadError>(None::<Replacement<Seq<Seq<u8>>>>) <==> same && !(kind
                == Kind::Amend && commit.generated)
        }),
{
}

/// Taking over the index is refused only to what is generated and while the index holds conflicts. What
/// comes of it has the tree of the index, takes no path back, and completes a pending rebase.
pub proof fn the_index_is_taken_over_whole(commit: HeadCommit, index: Index)
    ensures
        ({
            let done = index_taken_over(commit, index);
            &&& done is Err <==> commit.generated || index.conflicted
            &&& done matches Ok(found) ==> (found is Some <==> index.tree != commit.tree
                || commit.pending)
            &&& done matches Ok(Some(replacement)) ==> replacement.tree == index.tree
                && replacement.reset_paths is None && replacement.finalizes
        }),
{
}

/// A chosen path is taken from where its change is: from the index if that is staged, from the worktree if
/// it is not. A change between trees cannot be amended, a review takes only what is staged, and more than
/// one path is never amended at once. Nothing is amended while the index holds conflicts.
pub proof fn chosen_paths_come_from_where_they_changed(
    commit: HeadCommit,
    paths: Seq<PathChange<Seq<u8>>>,
    index: Index,
)
    requires
        !commit.generated,
    ensures
        ({
            let source = source_of(commit, Kind::Amend, Some(paths), index);
            let one = paths.len() == 1 && !index.conflicted;
            &&& source == Ok::<_, HeadError>(TreeSource::StagedPath) <==> one && paths[0].group
                == ChangeGroup::Staged
            &&& source == Ok::<_, HeadError>(TreeSource::WorktreePath) <==> one && paths[0].group
                == ChangeGroup::Unstaged && !commit.review
            &&& source is Ok ==> source->Ok_0 == TreeSource::StagedPath || source->Ok_0
                == TreeSource::WorktreePath
            &&& source == Err::<TreeSource, _>(HeadError::NotOnePath) <==> paths.len() != 1
            &&& source == Err::<TreeSource, _>(HeadError::IndexConflicts) <==> paths.len() == 1
                && index.conflicted
            &&& source == Err::<TreeSource, _>(HeadError::ReviewNeedsStaged) <==> one
                && commit.review && paths[0].group != ChangeGroup::Staged
            &&& source_of(commit, Kind::Spill, Some(paths), index) == Ok::<_, HeadError>(
                TreeSource::Spilled,
            )
        }),
{
}

} // verus!
