//! Splitting the commit that HEAD is at.
use vstd::prelude::*;
use crate::auto_merge::definition::{automatic, is_auto_merge, Header};
use crate::ids::ObjectId;
use crate::names::FullName;
use crate::plan::{viewed, viewed_push};
use crate::refs::State;
use crate::trees::{ChangeGroup, ChangeKind, PathChange};
use crate::undo::changes::RefChange;

verus! {

/// Why a commit cannot be split.
#[derive(Clone, Copy, PartialEq, Eq, Structural, Debug)]
pub enum SplitError {
    Conflicts,
    NotBoth,
    Generated,
}

/// Whether one of the changes is in a group.
pub open spec fn any_in(changes: Seq<PathChange<Seq<u8>>>, group: ChangeGroup) -> bool {
    exists|i: int| 0 <= i < changes.len() && (#[trigger] changes[i]).group == group
}

/// Whether one of the changes is a conflict.
pub open spec fn any_unmerged(changes: Seq<PathChange<Seq<u8>>>) -> bool {
    exists|i: int| 0 <= i < changes.len() && (#[trigger] changes[i]).kind == ChangeKind::Unmerged
}

/// Why a commit with the given headers cannot be split along the given changes: there must be changes in
/// the index, which go into the upper commit, and in the worktree, which go into the lower one.
pub open spec fn split_error(
    changes: Seq<PathChange<Seq<u8>>>,
    headers: Seq<Header<Seq<u8>>>,
) -> Option<SplitError> {
    if any_unmerged(changes) {
        Some(SplitError::Conflicts)
    } else if !any_in(changes, ChangeGroup::Staged) || !any_in(changes, ChangeGroup::Unstaged) {
        Some(SplitError::NotBoth)
    } else if automatic(headers) {
        Some(SplitError::Generated)
    } else {
        None
    }
}

fn has_group(changes: &Vec<PathChange<Vec<u8>>>, group: ChangeGroup) -> (r: bool)
    ensures
        r == any_in(viewed(changes@), group),
{
    let ghost all = viewed(changes@);
    let mut at: usize = 0;
    while at < changes.len()
        invariant
            at <= changes@.len(),
            all == viewed(changes@),
            forall|i: int| 0 <= i < at ==> (#[trigger] all[i]).group != group,
        decreases changes@.len() - at,
    {
        assert(all[at as int] == changes@[at as int]@);
        if changes[at].group == group {
            assert(all[at as int].group == group);
            return true;
        }
        at = at + 1;
    }
    false
}

fn has_unmerged(changes: &Vec<PathChange<Vec<u8>>>) -> (r: bool)
    ensures
        r == any_unmerged(viewed(changes@)),
{
    let ghost all = viewed(changes@);
    let mut at: usize = 0;
    while at < changes.len()
        invariant
            at <= changes@.len(),
            all == viewed(changes@),
            forall|i: int| 0 <= i < at ==> (#[trigger] all[i]).kind != ChangeKind::Unmerged,
        decreases changes@.len() - at,
    {
        assert(all[at as int] == changes@[at as int]@);
        if changes[at].kind == ChangeKind::Unmerged {
            assert(all[at as int].kind == ChangeKind::Unmerged);
            return true;
        }
        at = at + 1;
    }
    false
}

/// Checks that the commit that HEAD is at can be split along the changes of the index and the worktree.
pub fn check_split(changes: &Vec<PathChange<Vec<u8>>>, headers: &Vec<Header<Vec<u8>>>) -> (r: Result<
    (),
    SplitError,
>)
    ensures
        match r {
            Ok(()) => split_error(viewed(changes@), viewed(headers@)) is None,
            Err(err) => split_error(viewed(changes@), viewed(headers@)) == Some(err),
        },
{
    if has_unmerged(changes) {
        return Err(SplitError::Conflicts);
    }
    if !has_group(changes, ChangeGroup::Staged) || !has_group(changes, ChangeGroup::Unstaged) {
        return Err(SplitError::NotBoth);
    }
    if is_auto_merge(headers) {
        return Err(SplitError::Generated);
    }
    Ok(())
}

/// A cherry-pick of trees: what one tree changed since another goes on top of a third.
#[derive(Clone, Copy, PartialEq, Eq, Structural, Debug)]
pub struct Pick {
    pub base: ObjectId,
    pub ours: ObjectId,
    pub theirs: ObjectId,
}

/// How the tree of the lower commit comes about: what the worktree changed since the index goes on top of
/// the tree of the commit that is split.
pub fn pick_lower(head_tree: ObjectId, index_tree: ObjectId, worktree_tree: ObjectId) -> (r: Pick)
    ensures
        r == (Pick { base: index_tree, ours: head_tree, theirs: worktree_tree }),
        r.base == index_tree && r.ours == head_tree && r.theirs == worktree_tree,
{
    Pick { base: index_tree, ours: head_tree, theirs: worktree_tree }
}

/// How the tree of the upper commit comes about: what the index changed since the commit that is split
/// goes on top of the tree of the lower commit.
pub fn pick_upper(head_tree: ObjectId, index_tree: ObjectId, lower_tree: ObjectId) -> (r: Pick)
    ensures
        r == (Pick { base: head_tree, ours: lower_tree, theirs: index_tree }),
        r.base == head_tree && r.ours == lower_tree && r.theirs == index_tree,
{
    Pick { base: head_tree, ours: lower_tree, theirs: index_tree }
}

/// What a cherry-pick makes of something that only one side changed: it takes that side.
pub open spec fn takes_the_change<T>(base: T, ours: T, theirs: T, result: T) -> bool {
    &&& ours == base ==> result == theirs
    &&& theirs == base ==> result == ours
}

/// Whatever was changed either in the index or in the worktree, but not in both, is in the upper commit as
/// it is in the worktree. The lower commit has it if it was changed in the worktree, and is as the commit
/// that was split if it was changed in the index.
pub proof fn splits_keep_the_worktree<T>(head: T, index: T, worktree: T, lower: T, upper: T)
    requires
        takes_the_change(index, head, worktree, lower),
        takes_the_change(head, lower, index, upper),
        index == head || worktree == index,
    ensures
        upper == worktree,
        index == head ==> lower == worktree,
        worktree == index ==> lower == head,
{
}

/// Changes with that of the reference that keeps notes, if it changed.
pub fn note_change(
    changes: &mut Vec<RefChange<FullName>>,
    name: FullName,
    before: State<FullName>,
    after: State<FullName>,
)
    ensures
        viewed(final(changes)@) == (if before@ == after@ {
            viewed(old(changes)@)
        } else {
            viewed(old(changes)@).push(
                RefChange { name: name@, before: before@, after: after@ },
            )
        }),
{
    if !before.same(&after) {
        let change = RefChange { name, before, after };
        proof {
            viewed_push(changes@, change);
        }
        changes.push(change);
    }
}

/// A commit is split if and only if nothing is in conflict, something is staged and something is not, and it
/// is no automatic merge. Conflicts are complained of first.
pub proof fn splits_need_both_parts(
    changes: Seq<PathChange<Seq<u8>>>,
    headers: Seq<Header<Seq<u8>>>,
)
    ensures
        ({
            let conflict = exists|i: int|
                0 <= i < changes.len() && (#[trigger] changes[i]).kind == ChangeKind::Unmerged;
            let both = exists|i: int, j: int|
                0 <= i < changes.len() && 0 <= j < changes.len() && (#[trigger] changes[i]).group
                    == ChangeGroup::Staged && (#[trigger] changes[j]).group
                    == ChangeGroup::Unstaged;
            let error = split_error(changes, headers);
            &&& error is None <==> !conflict && both && !automatic(headers)
            &&& error == Some(SplitError::Conflicts) <==> conflict
            &&& error == Some(SplitError::NotBoth) <==> !conflict && !both
            &&& error == Some(SplitError::Generated) <==> !conflict && both && automatic(headers)
        }),
{
    if any_in(changes, ChangeGroup::Staged) && any_in(changes, ChangeGroup::Unstaged) {
        let i = choose|i: int|
            0 <= i < changes.len() && (#[trigger] changes[i]).group == ChangeGroup::Staged;
        let j = choose|j: int|
            0 <= j < changes.len() && (#[trigger] changes[j]).group == ChangeGroup::Unstaged;
        assert(changes[i].group == ChangeGroup::Staged && changes[j].group
            == ChangeGroup::Unstaged);
    }
}

} // verus!
