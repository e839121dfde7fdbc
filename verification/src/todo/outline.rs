//! The outline of a rebase todo: which commits it lists, in which forks, and what it needs to
//! know of the repository.
use vstd::prelude::*;
use crate::history::{find_parents, parents_of, CommitNode};
use crate::ids::{contains_id, ObjectId};
use crate::plan::{viewed, viewed_push};
use crate::todo::TodoError;

verus! {

/// A fork of the todo: commits on top of each other, the first on top of the parent.
#[derive(PartialEq, Eq, Debug)]
pub struct Section<S> {
    pub parent: ObjectId,
    pub commits: S,
}

impl<S: View> View for Section<S> {
    type V = Section<S::V>;

    open spec fn view(&self) -> Section<S::V> {
        Section { parent: self.parent, commits: self.commits@ }
    }
}

/// The outline: the listed commits and the tips among them, the commit that is marked for
/// checkout, whether the ancestry of that commit has a pending rebase, the forks, and the
/// commits whose references are shown.
#[derive(PartialEq, Eq, Debug)]
pub struct Outline {
    pub scope: Vec<ObjectId>,
    pub tips: Vec<ObjectId>,
    pub marker: Option<ObjectId>,
    pub has_pending: bool,
    pub sections: Vec<Section<Vec<ObjectId>>>,
    pub ref_points: Vec<ObjectId>,
}

/// The ids of several commits.
pub open spec fn ids_of(commits: Seq<CommitNode<Seq<ObjectId>>>) -> Seq<ObjectId> {
    Seq::new(commits.len(), |i: int| commits[i].id)
}

/// Whether a commit is a parent of one of several commits.
pub open spec fn is_parent(commits: Seq<CommitNode<Seq<ObjectId>>>, id: ObjectId) -> bool {
    exists|i: int| 0 <= i < commits.len() && (#[trigger] commits[i]).parents.contains(id)
}

/// Those of the first `end` commits that are no parent of another.
pub open spec fn tips_of(commits: Seq<CommitNode<Seq<ObjectId>>>, end: int) -> Seq<ObjectId>
    decreases end,
{
    if end <= 0 || end > commits.len() {
        Seq::empty()
    } else if is_parent(commits, commits[end - 1].id) {
        tips_of(commits, end - 1)
    } else {
        tips_of(commits, end - 1).push(commits[end - 1].id)
    }
}

/// Whether a commit, or one that it descends from by first parents, is pending. Only listed
/// commits count, and no more than `bound` of them.
pub open spec fn pending_path(
    commits: Seq<CommitNode<Seq<ObjectId>>>,
    pending: Seq<ObjectId>,
    id: ObjectId,
    bound: nat,
) -> bool
    decreases bound,
{
    if bound == 0 || parents_of(commits, id) is None {
        false
    } else if pending.contains(id) {
        true
    } else {
        let parents = parents_of(commits, id)->0;
        parents.len() > 0 && pending_path(commits, pending, parents[0], (bound - 1) as nat)
    }
}

/// The listed commits that continue a commit, those of the first `end`.
pub open spec fn children_of(
    commits: Seq<CommitNode<Seq<ObjectId>>>,
    parent: ObjectId,
    end: int,
) -> Seq<ObjectId>
    decreases end,
{
    if end <= 0 || end > commits.len() {
        Seq::empty()
    } else {
        let commit = commits[end - 1];
        if commit.parents.len() > 0 && commit.parents[0] == parent {
            children_of(commits, parent, end - 1).push(commit.id)
        } else {
            children_of(commits, parent, end - 1)
        }
    }
}

/// The commits on top of a commit, itself first: each time the first that continues it; with the
/// forks of the others that continue one of them. No more than `bound` commits deep.
pub open spec fn walked(
    commits: Seq<CommitNode<Seq<ObjectId>>>,
    id: ObjectId,
    bound: nat,
) -> (Seq<ObjectId>, Seq<Section<Seq<ObjectId>>>)
    decreases bound, 0nat,
{
    let children = children_of(commits, id, commits.len() as int);
    if bound == 0 || children.len() == 0 {
        (seq![id], Seq::empty())
    } else {
        let (rest, nested) = walked(commits, children[0], (bound - 1) as nat);
        (
            seq![id] + rest,
            nested + branches(commits, id, children, 1, (bound - 1) as nat),
        )
    }
}

/// The forks of the children from `at` on of a commit.
pub open spec fn branches(
    commits: Seq<CommitNode<Seq<ObjectId>>>,
    parent: ObjectId,
    children: Seq<ObjectId>,
    at: int,
    bound: nat,
) -> Seq<Section<Seq<ObjectId>>>
    decreases bound, children.len() - at + 1,
{
    if at < 0 || at >= children.len() {
        Seq::empty()
    } else {
        let (rest, nested) = walked(commits, children[at], bound);
        seq![Section { parent, commits: rest }] + nested + branches(
            commits,
            parent,
            children,
            at + 1,
            bound,
        )
    }
}

/// The forks of the commits that continue the base, on top of the commit to rebase onto.
pub open spec fn sections_of(
    commits: Seq<CommitNode<Seq<ObjectId>>>,
    base: ObjectId,
    onto: ObjectId,
) -> Seq<Section<Seq<ObjectId>>> {
    branches(
        commits,
        onto,
        children_of(commits, base, commits.len() as int),
        0,
        commits.len(),
    )
}

/// Whether the commits from `at` on each continue the base or a listed commit.
pub open spec fn connected(
    commits: Seq<CommitNode<Seq<ObjectId>>>,
    base: ObjectId,
    at: int,
) -> Result<(), TodoError>
    decreases commits.len() - at,
{
    if at < 0 || at >= commits.len() {
        Ok(())
    } else {
        let parents = commits[at].parents;
        if parents.len() == 0 {
            Err(TodoError::EditableWithoutParent)
        } else if parents[0] != base && !ids_of(commits).contains(parents[0]) {
            Err(TodoError::EditableDisconnected)
        } else {
            connected(commits, base, at + 1)
        }
    }
}

/// Whether the references of a commit are shown.
pub open spec fn ref_point(
    commits: Seq<CommitNode<Seq<ObjectId>>>,
    base: ObjectId,
    onto: ObjectId,
    id: ObjectId,
) -> bool {
    let sections = sections_of(commits, base, onto);
    ||| ids_of(commits).contains(id)
    ||| id == onto
    ||| sections.len() == 0 && id == base
    ||| exists|i: int| 0 <= i < sections.len() && (#[trigger] sections[i]).parent == id
}

/// Whether ids are in ascending order, none of them twice.
pub open spec fn ascending(ids: Seq<ObjectId>) -> bool {
    forall|i: int, j: int|
        0 <= i < j < ids.len() ==> (#[trigger] ids[i]).number() < (#[trigger] ids[j]).number()
}

/// Adds an id to ids in ascending order, unless it is there.
pub fn insert_ascending(ids: &mut Vec<ObjectId>, id: ObjectId)
    requires
        ascending(old(ids)@),
    ensures
        ascending(final(ids)@),
        forall|other: ObjectId| #[trigger]
            final(ids)@.contains(other) <==> old(ids)@.contains(other) || other == id,
{
    let ghost before = ids@;
    let mut i: usize = 0;
    while i < ids.len() && ids[i].is_before(id)
        invariant
            ids@ == before,
            i <= ids@.len(),
            forall|j: int| 0 <= j < i ==> (#[trigger] ids@[j]).number() < id.number(),
        decreases ids.len() - i,
    {
        i = i + 1;
    }
    if i < ids.len() && ids[i] == id {
        assert(ids@[i as int] == id);
        assert(forall|other: ObjectId| #[trigger]
            ids@.contains(other) <==> before.contains(other) || other == id);
        return;
    }
    ids.insert(i, id);
    proof {
        assert(i < before.len() ==> id.number() < before[i as int].number());
        let after = ids@;
        assert(after == before.take(i as int).push(id) + before.skip(i as int));
        assert forall|other: ObjectId| #[trigger]
            after.contains(other) <==> before.contains(other) || other == id by {
            if before.contains(other) {
                let k = choose|k: int| 0 <= k < before.len() && before[k] == other;
                if k < i {
                    assert(after[k] == other);
                } else {
                    assert(after[k + 1] == other);
                }
            }
            if other == id {
                assert(after[i as int] == id);
            }
            if after.contains(other) && other != id {
                let k = choose|k: int| 0 <= k < after.len() && after[k] == other;
                if k < i {
                    assert(before[k] == other);
                } else {
                    assert(before[k - 1] == other);
                }
            }
        }
        assert forall|a: int, b: int| 0 <= a < b < after.len() implies (#[trigger] after[a]).number()
            < (#[trigger] after[b]).number() by {
            let x = if a < i { a } else { a - 1 };
            let y = if b < i { b } else { b - 1 };
            if a == i {
                if y > i {
                    assert(before[i as int].number() < before[y].number());
                }
                assert(after[b] == before[y]);
            } else if b == i {
                assert(after[a] == before[a]);
            } else {
                assert(after[a] == before[x]);
                assert(after[b] == before[y]);
            }
        }
    }
}

fn is_any_parent(commits: &Vec<CommitNode<Vec<ObjectId>>>, id: ObjectId) -> (r: bool)
    ensures
        r == is_parent(viewed(commits@), id),
{
    let mut i: usize = 0;
    while i < commits.len()
        invariant
            i <= commits@.len(),
            forall|j: int| 0 <= j < i ==> !(#[trigger] viewed(commits@)[j]).parents.contains(id),
        decreases commits.len() - i,
    {
        if contains_id(commits[i].parents.as_slice(), id) {
            assert(viewed(commits@)[i as int].parents.contains(id));
            return true;
        }
        i = i + 1;
    }
    false
}

fn find_children(commits: &Vec<CommitNode<Vec<ObjectId>>>, parent: ObjectId) -> (r: Vec<ObjectId>)
    ensures
        r@ == children_of(viewed(commits@), parent, commits@.len() as int),
{
    let mut out: Vec<ObjectId> = Vec::new();
    let mut i: usize = 0;
    while i < commits.len()
        invariant
            i <= commits@.len(),
            out@ == children_of(viewed(commits@), parent, i as int),
        decreases commits.len() - i,
    {
        if commits[i].parents.len() > 0 && commits[i].parents[0] == parent {
            out.push(commits[i].id);
        }
        i = i + 1;
    }
    out
}

fn append_sections(
    out: &mut Vec<Section<Vec<ObjectId>>>,
    more: Vec<Section<Vec<ObjectId>>>,
)
    ensures
        viewed(final(out)@) == viewed(old(out)@) + viewed(more@),
{
    let mut more = more;
    let ghost all = more@;
    out.append(&mut more);
    assert(viewed(out@) == viewed(old(out)@) + viewed(all));
}

/// Collects the commits on top of a commit, and the forks among them.
fn walk(commits: &Vec<CommitNode<Vec<ObjectId>>>, id: ObjectId, bound: usize) -> (r: (
    Vec<ObjectId>,
    Vec<Section<Vec<ObjectId>>>,
))
    ensures
        (r.0@, viewed(r.1@)) == walked(viewed(commits@), id, bound as nat),
    decreases bound, 0nat,
{
    let children = find_children(commits, id);
    let mut own: Vec<ObjectId> = Vec::new();
    own.push(id);
    if bound == 0 || children.len() == 0 {
        let none: Vec<Section<Vec<ObjectId>>> = Vec::new();
        assert(own@ == seq![id]);
        assert(viewed(none@) == Seq::<Section<Seq<ObjectId>>>::empty());
        return (own, none);
    }
    let (mut rest, mut nested) = walk(commits, children[0], bound - 1);
    let ghost upper = rest@;
    own.append(&mut rest);
    assert(own@ == seq![id] + upper);
    let forks = walk_branches(commits, id, &children, 1, bound - 1);
    append_sections(&mut nested, forks);
    (own, nested)
}

fn walk_branches(
    commits: &Vec<CommitNode<Vec<ObjectId>>>,
    parent: ObjectId,
    children: &Vec<ObjectId>,
    at: usize,
    bound: usize,
) -> (r: Vec<Section<Vec<ObjectId>>>)
    requires
        at <= children@.len(),
    ensures
        viewed(r@) == branches(viewed(commits@), parent, children@, at as int, bound as nat),
    decreases bound, children@.len() - at + 1,
{
    let mut out: Vec<Section<Vec<ObjectId>>> = Vec::new();
    assert(viewed(out@) == Seq::<Section<Seq<ObjectId>>>::empty());
    if at >= children.len() {
        return out;
    }
    let (rest, nested) = walk(commits, children[at], bound);
    let section = Section { parent, commits: rest };
    proof {
        viewed_push(out@, section);
    }
    out.push(section);
    assert(viewed(out@) == seq![section@]);
    append_sections(&mut out, nested);
    let more = walk_branches(commits, parent, children, at + 1, bound);
    append_sections(&mut out, more);
    out
}

fn has_pending_path(
    commits: &Vec<CommitNode<Vec<ObjectId>>>,
    pending: &Vec<ObjectId>,
    id: ObjectId,
) -> (r: bool)
    ensures
        r == pending_path(viewed(commits@), pending@, id, commits@.len()),
{
    let mut bound: usize = commits.len();
    let mut cursor = id;
    while bound > 0
        invariant
            pending_path(viewed(commits@), pending@, id, commits@.len()) == pending_path(
                viewed(commits@),
                pending@,
                cursor,
                bound as nat,
            ),
        decreases bound,
    {
        let parents = match find_parents(commits, cursor) {
            Some(parents) => parents,
            None => return false,
        };
        if contains_id(pending.as_slice(), cursor) {
            return true;
        }
        if parents.len() == 0 {
            return false;
        }
        cursor = parents[0];
        bound = bound - 1;
    }
    false
}

fn collect_ids(commits: &Vec<CommitNode<Vec<ObjectId>>>) -> (r: Vec<ObjectId>)
    ensures
        r@ == ids_of(viewed(commits@)),
{
    let mut out: Vec<ObjectId> = Vec::new();
    let mut i: usize = 0;
    while i < commits.len()
        invariant
            i <= commits@.len(),
            out@ == ids_of(viewed(commits@)).take(i as int),
        decreases commits.len() - i,
    {
        out.push(commits[i].id);
        i = i + 1;
        assert(out@ == ids_of(viewed(commits@)).take(i as int));
    }
    assert(ids_of(viewed(commits@)).take(i as int) == ids_of(viewed(commits@)));
    out
}

fn collect_tips(commits: &Vec<CommitNode<Vec<ObjectId>>>) -> (r: Vec<ObjectId>)
    ensures
        r@ == tips_of(viewed(commits@), commits@.len() as int),
{
    let mut out: Vec<ObjectId> = Vec::new();
    let mut i: usize = 0;
    while i < commits.len()
        invariant
            i <= commits@.len(),
            out@ == tips_of(viewed(commits@), i as int),
        decreases commits.len() - i,
    {
        if !is_any_parent(commits, commits[i].id) {
            out.push(commits[i].id);
        }
        i = i + 1;
    }
    out
}

fn check_connected(
    commits: &Vec<CommitNode<Vec<ObjectId>>>,
    scope: &Vec<ObjectId>,
    base: ObjectId,
) -> (r: Result<(), TodoError>)
    requires
        scope@ == ids_of(viewed(commits@)),
    ensures
        r == connected(viewed(commits@), base, 0),
{
    let mut at: usize = 0;
    while at < commits.len()
        invariant
            scope@ == ids_of(viewed(commits@)),
            at <= commits@.len(),
            connected(viewed(commits@), base, 0) == connected(viewed(commits@), base, at as int),
        decreases commits.len() - at,
    {
        let parents = &commits[at].parents;
        if parents.len() == 0 {
            return Err(TodoError::EditableWithoutParent);
        }
        if parents[0] != base && !contains_id(scope.as_slice(), parents[0]) {
            return Err(TodoError::EditableDisconnected);
        }
        at = at + 1;
    }
    Ok(())
}

#[verifier::loop_isolation(false)]
fn collect_ref_points(
    scope: &Vec<ObjectId>,
    sections: &Vec<Section<Vec<ObjectId>>>,
    base: ObjectId,
    onto: ObjectId,
) -> (r: Vec<ObjectId>)
    ensures
        ascending(r@),
        forall|id: ObjectId| #[trigger]
            r@.contains(id) <==> (scope@.contains(id) || id == onto || (sections@.len() == 0 && id
                == base) || exists|i: int|
                0 <= i < sections@.len() && (#[trigger] viewed(sections@)[i]).parent == id),
{
    let mut out: Vec<ObjectId> = Vec::new();
    let mut i: usize = 0;
    while i < scope.len()
        invariant
            i <= scope@.len(),
            ascending(out@),
            forall|id: ObjectId| #[trigger]
                out@.contains(id) <==> exists|j: int| 0 <= j < i && scope@[j] == id,
        decreases scope.len() - i,
    {
        insert_ascending(&mut out, scope[i]);
        i = i + 1;
    }
    assert(forall|id: ObjectId| #[trigger] out@.contains(id) <==> scope@.contains(id));
    insert_ascending(&mut out, onto);
    if sections.len() == 0 {
        insert_ascending(&mut out, base);
    }
    let ghost before = out@;
    let mut i: usize = 0;
    while i < sections.len()
        invariant
            i <= sections@.len(),
            ascending(out@),
            forall|id: ObjectId| #[trigger]
                out@.contains(id) <==> before.contains(id) || exists|j: int|
                    0 <= j < i && (#[trigger] viewed(sections@)[j]).parent == id,
        decreases sections.len() - i,
    {
        let ghost previous = out@;
        insert_ascending(&mut out, sections[i].parent);
        assert(viewed(sections@)[i as int].parent == sections@[i as int].parent);
        i = i + 1;
    }
    out
}

/// Outlines a todo for the given commits, which must all be connected to the base.
pub fn outline(
    commits: &Vec<CommitNode<Vec<ObjectId>>>,
    base: ObjectId,
    onto: ObjectId,
    head: ObjectId,
    has_worktree: bool,
    pending: &Vec<ObjectId>,
) -> (r: Result<Outline, TodoError>)
    ensures
        connected(viewed(commits@), base, 0) matches Err(err) ==> r == Err::<Outline, _>(err),
        connected(viewed(commits@), base, 0) is Ok ==> r is Ok,
        r matches Ok(outline) ==> {
            let all = viewed(commits@);
            &&& outline.scope@ == ids_of(all)
            &&& outline.tips@ == tips_of(all, all.len() as int)
            &&& outline.marker == (if has_worktree && ids_of(all).contains(head) {
                Some(head)
            } else {
                None
            })
            &&& outline.has_pending == (outline.marker is Some && pending_path(
                all,
                pending@,
                head,
                all.len(),
            ))
            &&& viewed(outline.sections@) == sections_of(all, base, onto)
            &&& ascending(outline.ref_points@)
            &&& forall|id: ObjectId| #[trigger]
                outline.ref_points@.contains(id) <==> ref_point(all, base, onto, id)
        },
{
    let scope = collect_ids(commits);
    match check_connected(commits, &scope, base) {
        Ok(_) => {},
        Err(err) => return Err(err),
    }
    let tips = collect_tips(commits);
    let marker = if has_worktree && contains_id(scope.as_slice(), head) {
        Some(head)
    } else {
        None
    };
    let has_pending = marker.is_some() && has_pending_path(commits, pending, head);
    let children = find_children(commits, base);
    let sections = walk_branches(commits, onto, &children, 0, commits.len());
    let ref_points = collect_ref_points(&scope, &sections, base, onto);
    assert(viewed(sections@).len() == sections@.len());
    Ok(Outline { scope, tips, marker, has_pending, sections, ref_points })
}

/// Whether commits continue each other by first parents, the first of them `below`.
pub open spec fn stacked(
    commits: Seq<CommitNode<Seq<ObjectId>>>,
    below: ObjectId,
    stack: Seq<ObjectId>,
) -> bool {
    forall|i: int|
        #![trigger stack[i]]
        0 <= i < stack.len() ==> continues(
            commits,
            if i == 0 {
                below
            } else {
                stack[i - 1]
            },
            stack[i],
        )
}

/// Whether a listed commit has the given first parent.
pub open spec fn continues(
    commits: Seq<CommitNode<Seq<ObjectId>>>,
    below: ObjectId,
    id: ObjectId,
) -> bool {
    exists|i: int|
        0 <= i < commits.len() && (#[trigger] commits[i]).id == id && commits[i].parents.len() > 0
            && commits[i].parents[0] == below
}

proof fn children_continue(
    commits: Seq<CommitNode<Seq<ObjectId>>>,
    parent: ObjectId,
    end: int,
    at: int,
)
    requires
        0 <= end <= commits.len(),
        0 <= at < children_of(commits, parent, end).len(),
    ensures
        continues(commits, parent, children_of(commits, parent, end)[at]),
    decreases end,
{
    if end > 0 {
        let commit = commits[end - 1];
        let before = children_of(commits, parent, end - 1);
        if commit.parents.len() > 0 && commit.parents[0] == parent && at == before.len() {
            assert(children_of(commits, parent, end)[at] == commit.id);
        } else {
            children_continue(commits, parent, end - 1, at);
        }
    }
}

proof fn walked_is_stacked(
    commits: Seq<CommitNode<Seq<ObjectId>>>,
    below: ObjectId,
    id: ObjectId,
    bound: nat,
)
    requires
        continues(commits, below, id),
    ensures
        walked(commits, id, bound).0.len() > 0,
        walked(commits, id, bound).0[0] == id,
        stacked(commits, below, walked(commits, id, bound).0),
        forall|i: int|
            0 <= i < walked(commits, id, bound).1.len() ==> stacked(
                commits,
                (#[trigger] walked(commits, id, bound).1[i]).parent,
                walked(commits, id, bound).1[i].commits,
            ),
    decreases bound, 0nat,
{
    let children = children_of(commits, id, commits.len() as int);
    if bound > 0 && children.len() > 0 {
        assert forall|i: int| 0 <= i < children.len() implies continues(
            commits,
            id,
            #[trigger] children[i],
        ) by {
            children_continue(commits, id, commits.len() as int, i);
        }
        let (rest, nested) = walked(commits, children[0], (bound - 1) as nat);
        walked_is_stacked(commits, id, children[0], (bound - 1) as nat);
        branches_are_stacked(commits, id, id, children, 1, (bound - 1) as nat);
        let all = seq![id] + rest;
        assert forall|i: int|
            #![trigger all[i]]
            0 <= i < all.len() implies continues(
            commits,
            if i == 0 {
                below
            } else {
                all[i - 1]
            },
            all[i],
        ) by {
            if i > 0 {
                assert(all[i] == rest[i - 1]);
                if i > 1 {
                    assert(all[i - 1] == rest[i - 2]);
                }
            }
        }
        let more = branches(commits, id, children, 1, (bound - 1) as nat);
        let forks = nested + more;
        assert forall|i: int| 0 <= i < forks.len() implies stacked(
            commits,
            (#[trigger] forks[i]).parent,
            forks[i].commits,
        ) by {
            if i < nested.len() {
                assert(forks[i] == nested[i]);
            } else {
                assert(forks[i] == more[i - nested.len()]);
            }
        }
    }
}

proof fn branches_are_stacked(
    commits: Seq<CommitNode<Seq<ObjectId>>>,
    below: ObjectId,
    parent: ObjectId,
    children: Seq<ObjectId>,
    at: int,
    bound: nat,
)
    requires
        0 <= at,
        forall|i: int| 0 <= i < children.len() ==> continues(commits, below, #[trigger] children[i]),
    ensures
        forall|i: int|
            0 <= i < branches(commits, parent, children, at, bound).len() ==> {
                let section = #[trigger] branches(commits, parent, children, at, bound)[i];
                stacked(commits, section.parent, section.commits) || section.parent == parent
                    && stacked(commits, below, section.commits)
            },
    decreases bound, children.len() - at + 1,
{
    if at < children.len() {
        let (rest, nested) = walked(commits, children[at], bound);
        walked_is_stacked(commits, below, children[at], bound);
        branches_are_stacked(commits, below, parent, children, at + 1, bound);
        let first = seq![Section { parent, commits: rest }];
        let more = branches(commits, parent, children, at + 1, bound);
        let all = first + nested + more;
        assert forall|i: int| 0 <= i < all.len() implies ({
            let section = #[trigger] all[i];
            stacked(commits, section.parent, section.commits) || section.parent == parent
                && stacked(commits, below, section.commits)
        }) by {
            if i == 0 {
                assert(all[0] == first[0]);
            } else if i < 1 + nested.len() {
                assert(all[i] == nested[i - 1]);
            } else {
                assert(all[i] == more[i - 1 - nested.len()]);
            }
        }
    }
}

/// In each fork of a todo the commits continue each other by first parents, and the first of
/// them continues the fork's parent; in a fork on top of the commit to rebase onto it may
/// continue the base instead.
pub proof fn sections_are_stacked(
    commits: Seq<CommitNode<Seq<ObjectId>>>,
    base: ObjectId,
    onto: ObjectId,
)
    ensures
        forall|i: int|
            0 <= i < sections_of(commits, base, onto).len() ==> {
                let section = #[trigger] sections_of(commits, base, onto)[i];
                stacked(commits, section.parent, section.commits) || section.parent == onto
                    && stacked(commits, base, section.commits)
            },
{
    let children = children_of(commits, base, commits.len() as int);
    assert forall|i: int| 0 <= i < children.len() implies continues(
        commits,
        base,
        #[trigger] children[i],
    ) by {
        children_continue(commits, base, commits.len() as int, i);
    }
    branches_are_stacked(commits, base, onto, children, 0, commits.len());
}

} // verus!
