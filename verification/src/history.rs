//! Commits and their parents.
use vstd::prelude::*;
use crate::ids::ObjectId;
use crate::plan::viewed;

verus! {

/// A commit and its parents.
#[derive(PartialEq, Eq, Debug)]
pub struct CommitNode<P> {
    pub id: ObjectId,
    pub parents: P,
}

impl<P: View> View for CommitNode<P> {
    type V = CommitNode<P::V>;

    open spec fn view(&self) -> CommitNode<P::V> {
        CommitNode { id: self.id, parents: self.parents@ }
    }
}

/// The parents of the first commit with the given id, at or after `from`.
pub open spec fn parents_from(
    commits: Seq<CommitNode<Seq<ObjectId>>>,
    id: ObjectId,
    from: int,
) -> Option<Seq<ObjectId>>
    decreases commits.len() - from,
{
    if from < 0 || from >= commits.len() {
        None
    } else if commits[from].id == id {
        Some(commits[from].parents)
    } else {
        parents_from(commits, id, from + 1)
    }
}

/// The parents of a commit, if it is known.
pub open spec fn parents_of(commits: Seq<CommitNode<Seq<ObjectId>>>, id: ObjectId) -> Option<
    Seq<ObjectId>,
> {
    parents_from(commits, id, 0)
}

/// The parents of a commit, in specifications.
pub open spec fn parents_view(parents: Option<&Vec<ObjectId>>) -> Option<Seq<ObjectId>> {
    match parents {
        Some(parents) => Some(parents@),
        None => None,
    }
}

/// Finds the parents of a commit.
pub fn find_parents(commits: &Vec<CommitNode<Vec<ObjectId>>>, id: ObjectId) -> (r: Option<
    &Vec<ObjectId>,
>)
    ensures
        parents_view(r) == parents_of(viewed(commits@), id),
{
    let mut i: usize = 0;
    while i < commits.len()
        invariant
            i <= commits@.len(),
            parents_of(viewed(commits@), id) == parents_from(viewed(commits@), id, i as int),
        decreases commits.len() - i,
    {
        if commits[i].id == id {
            return Some(&commits[i].parents);
        }
        i = i + 1;
    }
    None
}

/// Whether no id occurs twice.
pub fn distinct(ids: &[ObjectId]) -> (r: bool)
    ensures
        r == ids@.no_duplicates(),
{
    let mut i: usize = 0;
    while i < ids.len()
        invariant
            i <= ids@.len(),
            forall|a: int, b: int| 0 <= a < b < i ==> ids@[a] != ids@[b],
        decreases ids.len() - i,
    {
        let mut j: usize = 0;
        while j < i
            invariant
                j <= i < ids@.len(),
                forall|a: int| 0 <= a < j ==> ids@[a] != ids@[i as int],
            decreases i - j,
        {
            if ids[j] == ids[i] {
                return false;
            }
            j = j + 1;
        }
        i = i + 1;
    }
    true
}

/// The parents of a commit are those of the first node with its id, if there is one.
pub proof fn known_commits_are_found(
    commits: Seq<CommitNode<Seq<ObjectId>>>,
    id: ObjectId,
    from: int,
)
    requires
        0 <= from,
    ensures
        forall|i: int|
            from <= i < commits.len() && (#[trigger] commits[i]).id == id && (forall|j: int|
                from <= j < i ==> (#[trigger] commits[j]).id != id) ==> parents_from(
                commits,
                id,
                from,
            ) == Some(commits[i].parents),
        (forall|i: int| from <= i < commits.len() ==> (#[trigger] commits[i]).id != id)
            ==> parents_from(commits, id, from) is None,
    decreases commits.len() - from,
{
    if from < commits.len() && commits[from].id != id {
        known_commits_are_found(commits, id, from + 1);
    }
}

} // verus!
